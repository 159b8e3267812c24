//! Size and line-height settings of text labels.
use vstd::prelude::*;

verus! {

/// The size a label's text is drawn at.
#[derive(Debug, PartialEq, Eq, Structural, PartialOrd, Ord, Hash, Clone, Copy, Default)]
pub enum LabelSize {
    #[default]
    Default,
    Large,
    Small,
    XSmall,
}

/// How tall a label's lines are.
#[derive(Debug, PartialEq, Eq, Structural, Clone, Copy, Default)]
pub enum LineHeightStyle {
    /// The line height of the text.
    #[default]
    TextLabel,
    /// A line height of one.
    UiLabel,
}

} // verus!
