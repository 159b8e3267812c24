//! The popup menu that is open, and where it is anchored.
use crate::code_actions::CodeActionsMenu;
use crate::completions::{next_index, prev_index, AsideContent, CompletionsMenu};
use core::ops::Range;
use vstd::prelude::*;

verus! {

/// A row of the display.
#[derive(Clone, Copy, Debug, PartialEq, Eq, Structural)]
pub struct DisplayRow(pub u32);

/// A position on the display.
#[derive(Clone, Copy, Debug, PartialEq, Eq, Structural)]
pub struct DisplayPoint {
    pub row: DisplayRow,
    pub column: u32,
}

impl DisplayPoint {
    pub fn new(row: DisplayRow, column: u32) -> (r: DisplayPoint)
        ensures
            r.row == row,
            r.column == column,
    {
        DisplayPoint { row, column }
    }
}

/// The empty range at a row and column.
pub fn empty_range(row: usize, column: usize) -> (r: Range<DisplayPoint>)
    requires
        row <= u32::MAX,
        column <= u32::MAX,
    ensures
        r.start == r.end,
        r.start.row.0 == row,
        r.start.column == column,
{
    let point = DisplayPoint::new(DisplayRow(row as u32), column as u32);
    Range { start: point, end: point }
}

/// Where a popup menu is anchored.
#[derive(Clone, Copy, Debug, PartialEq, Eq, Structural)]
pub enum ContextMenuOrigin {
    /// At a point of the text, the cursor.
    EditorPoint(DisplayPoint),
    /// At the gutter indicator of a row.
    GutterIndicator(DisplayRow),
}

/// What a navigation key did: whether the open menu took it, and the
/// candidate to resolve now, if any.
pub struct SelectOutcome {
    pub handled: bool,
    pub resolve: Option<usize>,
}

/// The popup menu that is open: completions or code actions.
pub enum CodeContextMenu {
    Completions(CompletionsMenu),
    CodeActions(CodeActionsMenu),
}

/// How a selection moves.
pub enum Step {
    First,
    Prev,
    Next,
    Last,
}

/// The selection after a step among `n` entries from `i`.
pub open spec fn stepped(step: Step, i: nat, n: nat) -> nat {
    if n == 0 {
        i
    } else {
        match step {
            Step::First => 0,
            Step::Prev => prev_index(i, n),
            Step::Next => next_index(i, n),
            Step::Last => (n - 1) as nat,
        }
    }
}

impl CodeContextMenu {
    pub open spec fn inv(&self) -> bool {
        match self {
            CodeContextMenu::Completions(m) => m.inv(),
            CodeContextMenu::CodeActions(m) => m.inv(),
        }
    }

    /// The open menu lists at least one entry.
    pub open spec fn visible_spec(&self) -> bool {
        match self {
            CodeContextMenu::Completions(m) => m.visible_spec(),
            CodeContextMenu::CodeActions(m) => m.visible_spec(),
        }
    }

    /// What a step does: a visible menu takes it, moves its selection, and
    /// asks for the newly selected candidate to be resolved where one is
    /// owed; a menu that is not shown does not take it and stays as it was.
    pub open spec fn steps_to(
        &self,
        after: &Self,
        step: Step,
        provider_attached: bool,
        outcome: SelectOutcome,
    ) -> bool {
        &&& outcome.handled == self.visible_spec()
        &&& match (self, after) {
            (CodeContextMenu::Completions(a), CodeContextMenu::Completions(b)) => {
                &&& b.same_listing(a)
                &&& b.selected_item == stepped(step, a.selected_item as nat, a.entries@.len())
                &&& outcome.resolve == a.resolve_target_given(
                    provider_attached,
                    b.selected_item as int,
                    a.resolving@,
                )
                &&& b.resolving@ == CompletionsMenu::in_flight_after(a.resolving@, outcome.resolve)
            },
            (CodeContextMenu::CodeActions(a), CodeContextMenu::CodeActions(b)) => {
                &&& b.actions == a.actions
                &&& b.buffer == a.buffer
                &&& b.deployed_from_indicator == a.deployed_from_indicator
                &&& b.selected_item == stepped(step, a.selected_item as nat, a.actions.len_spec())
                &&& outcome.resolve is None
            },
            _ => false,
        }
    }

    fn step(&mut self, step: Step, provider_attached: bool) -> (outcome: SelectOutcome)
        requires
            old(self).inv(),
        ensures
            final(self).inv(),
            old(self).steps_to(final(self), step, provider_attached, outcome),
    {
        let handled = self.visible();
        match self {
            CodeContextMenu::Completions(menu) => {
                let resolve = match step {
                    Step::First => menu.select_first(provider_attached),
                    Step::Prev => menu.select_prev(provider_attached),
                    Step::Next => menu.select_next(provider_attached),
                    Step::Last => menu.select_last(provider_attached),
                };
                SelectOutcome { handled, resolve }
            },
            CodeContextMenu::CodeActions(menu) => {
                match step {
                    Step::First => menu.select_first(),
                    Step::Prev => menu.select_prev(),
                    Step::Next => menu.select_next(),
                    Step::Last => menu.select_last(),
                }
                SelectOutcome { handled, resolve: None }
            },
        }
    }

    /// Selects the first entry of the open menu.
    pub fn select_first(&mut self, provider_attached: bool) -> (outcome: SelectOutcome)
        requires
            old(self).inv(),
        ensures
            final(self).inv(),
            old(self).steps_to(final(self), Step::First, provider_attached, outcome),
    {
        self.step(Step::First, provider_attached)
    }

    /// Selects the previous entry of the open menu, wrapping around.
    pub fn select_prev(&mut self, provider_attached: bool) -> (outcome: SelectOutcome)
        requires
            old(self).inv(),
        ensures
            final(self).inv(),
            old(self).steps_to(final(self), Step::Prev, provider_attached, outcome),
    {
        self.step(Step::Prev, provider_attached)
    }

    /// Selects the next entry of the open menu, wrapping around.
    pub fn select_next(&mut self, provider_attached: bool) -> (outcome: SelectOutcome)
        requires
            old(self).inv(),
        ensures
            final(self).inv(),
            old(self).steps_to(final(self), Step::Next, provider_attached, outcome),
    {
        self.step(Step::Next, provider_attached)
    }

    /// Selects the last entry of the open menu.
    pub fn select_last(&mut self, provider_attached: bool) -> (outcome: SelectOutcome)
        requires
            old(self).inv(),
        ensures
            final(self).inv(),
            old(self).steps_to(final(self), Step::Last, provider_attached, outcome),
    {
        self.step(Step::Last, provider_attached)
    }

    /// Whether the open menu lists at least one entry.
    pub fn visible(&self) -> (r: bool)
        ensures
            r == self.visible_spec(),
    {
        match self {
            CodeContextMenu::Completions(m) => m.visible(),
            CodeContextMenu::CodeActions(m) => m.visible(),
        }
    }

    /// Where the open menu is anchored.
    pub fn origin(&self, cursor_position: DisplayPoint) -> (r: ContextMenuOrigin)
        ensures
            r == match self {
                CodeContextMenu::Completions(_) => ContextMenuOrigin::EditorPoint(cursor_position),
                CodeContextMenu::CodeActions(m) => match m.deployed_from_indicator {
                    Some(row) => ContextMenuOrigin::GutterIndicator(row),
                    None => ContextMenuOrigin::EditorPoint(cursor_position),
                },
            },
    {
        match self {
            CodeContextMenu::Completions(m) => m.origin(cursor_position),
            CodeContextMenu::CodeActions(m) => m.origin(cursor_position),
        }
    }
    /// What the documentation aside shows: only a completions menu has one.
    pub fn render_aside(&self) -> (r: Option<AsideContent>)
        requires
            self.inv(),
        ensures
            r == match self {
                CodeContextMenu::Completions(m) => m.aside_spec(),
                CodeContextMenu::CodeActions(_) => None,
            },
    {
        match self {
            CodeContextMenu::Completions(m) => m.render_aside(),
            CodeContextMenu::CodeActions(_) => None,
        }
    }
}

} // verus!
