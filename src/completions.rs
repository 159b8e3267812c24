//! The completions menu: its candidates, the entries listed for the current
//! query, the selection, and the protocol that resolves the selected
//! candidate's details at most once at a time.
use crate::menu::{ContextMenuOrigin, DisplayPoint};
use crate::ranking::{
    lemma_map_values_to_multiset, rank_key_of, rank_order, sort_by_rank, MatchRank,
    RankKey, PERFECT_SCORE, STRONG_MATCH_SCORE, KIND_KEYWORD, KIND_VARIABLE,
};
use crate::text::{has_word_starting_like, has_word_starting_with, is_case_sensitive_query, query_is_case_sensitive};
use core::cmp::Ordering;
use core::ops::Range;
use vstd::prelude::*;

verus! {

/// How many matches the fuzzy matcher is asked for at most.
pub const MAX_MATCHES: usize = 100;

/// The identifier of a completion request.
pub type CompletionId = usize;

/// The identifier of a text buffer.
pub type BufferId = u64;

/// A position in a buffer that stays put as text around it changes.
#[derive(Clone, Copy, Debug, PartialEq, Eq, Structural)]
pub struct Anchor {
    pub excerpt_id: usize,
    pub offset: usize,
}

/// The documentation a candidate carries.
pub enum Documentation {
    Undocumented,
    SingleLine(String),
    MultiLinePlainText(String),
    MultiLineMarkdown(String),
}

/// The text shown for a candidate and the character range of it that
/// queries are matched against.
pub struct CodeLabel {
    pub text: String,
    pub filter_range: Range<usize>,
}

impl CodeLabel {
    /// The filter range lies within the text.
    pub open spec fn wf(&self) -> bool {
        self.filter_range.start <= self.filter_range.end <= self.text@.len()
    }

    pub open spec fn filter_text_spec(&self) -> Seq<char> {
        self.text@.subrange(self.filter_range.start as int, self.filter_range.end as int)
    }

    /// A label that is matched on its whole text.
    pub fn plain(text: String) -> (label: CodeLabel)
        ensures
            label.text == text,
            label.filter_range.start == 0,
            label.filter_range.end == text@.len(),
            label.wf(),
    {
        let end = text.as_str().unicode_len();
        CodeLabel { text, filter_range: Range { start: 0, end } }
    }

    /// The part of the text that queries are matched against.
    pub fn filter_text(&self) -> (r: &str)
        requires
            self.wf(),
        ensures
            r@ == self.filter_text_spec(),
    {
        self.text.as_str().substring_char(self.filter_range.start, self.filter_range.end)
    }
}

/// One completion offered by a language server or another source.
pub struct Completion {
    pub old_range: Range<Anchor>,
    pub new_text: String,
    pub label: CodeLabel,
    pub server_id: usize,
    pub documentation: Option<Documentation>,
    /// The provider's sort hint.
    pub sort_text: Option<String>,
    /// The language server protocol's completion item kind.
    pub kind: Option<u32>,
    pub resolved: bool,
}

/// The sort hint of a completion, as text.
pub open spec fn sort_text_of(c: Completion) -> Option<Seq<char>> {
    match c.sort_text {
        Some(s) => Some(s@),
        None => None,
    }
}

/// A candidate as the fuzzy matcher sees it: its index and its text.
pub struct StringMatchCandidate {
    pub id: usize,
    pub string: String,
}

/// What the fuzzy matcher reports for one candidate.
pub struct FuzzyMatch {
    pub candidate_id: usize,
    /// The bit pattern of the score, a value in `[0, 1]`.
    pub score: u64,
    /// Character positions of the candidate text that the query matched.
    pub positions: Vec<usize>,
}

/// A listed match: the candidate, its score, the matched positions and
/// the candidate's text.
pub struct StringMatch {
    pub candidate_id: usize,
    pub score: u64,
    pub positions: Vec<usize>,
    pub string: String,
}

pub struct StringMatchView {
    pub candidate_id: usize,
    pub score: u64,
    pub positions: Seq<usize>,
    pub string: Seq<char>,
}

impl View for StringMatch {
    type V = StringMatchView;

    open spec fn view(&self) -> StringMatchView {
        StringMatchView {
            candidate_id: self.candidate_id,
            score: self.score,
            positions: self.positions@,
            string: self.string@,
        }
    }
}

/// What an inline suggestion would do.
pub enum InlineCompletionText {
    Move(String),
    Edit { text: String, highlights: Vec<Range<usize>> },
}

/// The entry that stands for an inline suggestion.
pub struct InlineCompletionMenuHint {
    pub provider_name: String,
    pub text: InlineCompletionText,
}

/// One line of the completions menu.
pub enum CompletionEntry {
    Match(StringMatch),
    InlineCompletionHint(InlineCompletionMenuHint),
}

/// The next index, wrapping to the first after the last.
pub open spec fn next_index(i: nat, n: nat) -> nat {
    if i + 1 < n {
        (i + 1) as nat
    } else {
        0
    }
}

/// The previous index, wrapping to the last before the first.
pub open spec fn prev_index(i: nat, n: nat) -> nat {
    if i > 0 {
        (i - 1) as nat
    } else {
        (n - 1) as nat
    }
}


/// The text of an optional query.
pub open spec fn query_view(query: Option<&str>) -> Option<Seq<char>> {
    match query {
        Some(q) => Some(q@),
        None => None,
    }
}

/// One when the entries begin with an inline hint, else zero.
pub open spec fn hint_count(entries: Seq<CompletionEntry>) -> int {
    if entries.len() > 0 && entries[0] is InlineCompletionHint {
        1
    } else {
        0
    }
}

/// The matches listed after the inline hint, if any.
pub open spec fn listed_matches(entries: Seq<CompletionEntry>) -> Seq<StringMatchView> {
    entries.skip(hint_count(entries)).map_values(
        |e: CompletionEntry|
            match e {
                CompletionEntry::Match(m) => m@,
                CompletionEntry::InlineCompletionHint(_) => vstd::pervasive::arbitrary(),
            },
    )
}

pub open spec fn views_of(ms: Seq<StringMatch>) -> Seq<StringMatchView> {
    ms.map_values(|m: StringMatch| m@)
}

/// What the documentation aside beside the menu shows for the selection.
pub enum AsideContent {
    PlainText(String),
    Markdown(String),
    /// The text an inline suggestion would insert.
    InlineEdit(String),
    /// Where an inline suggestion would move the cursor.
    InlineMove(String),
}

/// What a resolve attempt came back with.
pub enum ResolveOutcome {
    /// The source failed or timed out.
    Failed,
    /// The source had nothing to add.
    Unchanged,
    /// The source supplied this documentation.
    Changed(Option<Documentation>),
}

/// The completions menu of one completion request.
pub struct CompletionsMenu {
    pub id: CompletionId,
    pub sort_completions: bool,
    pub initial_position: Anchor,
    pub buffer: BufferId,
    pub completions: Vec<Completion>,
    pub match_candidates: Vec<StringMatchCandidate>,
    pub entries: Vec<CompletionEntry>,
    pub selected_item: usize,
    pub resolve_completions: bool,
    pub show_completion_documentation: bool,
    /// Which candidates have a resolve request in flight.
    pub resolving: Vec<bool>,
    /// The sequence number of the last filter result applied.
    pub last_filter: Option<u64>,
}

impl CompletionsMenu {
    /// The candidate arrays agree in length, every match refers to a
    /// candidate, an inline hint can stand only first, and the selection
    /// lies within the entries.
    pub open spec fn inv(&self) -> bool {
        &&& self.match_candidates@.len() == self.completions@.len()
        &&& self.resolving@.len() == self.completions@.len()
        &&& forall|i: int|
            0 <= i < self.entries@.len() ==> match #[trigger] self.entries@[i] {
                CompletionEntry::Match(m) => m.candidate_id < self.completions@.len(),
                CompletionEntry::InlineCompletionHint(_) => i == 0,
            }
        &&& (self.entries@.len() > 0 ==> self.selected_item < self.entries@.len())
    }

    /// The menu is shown when it lists at least one entry.
    pub open spec fn visible_spec(&self) -> bool {
        self.entries@.len() > 0
    }

    /// The rank key of a listed match of this menu.
    pub open spec fn rank_key(&self, m: StringMatchView) -> RankKey {
        rank_key_of(
            m.score,
            m.candidate_id as nat,
            m.string,
            sort_text_of(self.completions@[m.candidate_id as int]),
            self.completions@[m.candidate_id as int].kind,
        )
    }

    /// The candidate a resolve request would be issued for, given which
    /// requests are in flight: the selected match's candidate, unless
    /// resolving is off, no source is attached, or that candidate is
    /// resolved or being resolved already.
    pub open spec fn resolve_target_given(
        &self,
        provider_attached: bool,
        selected: int,
        in_flight: Seq<bool>,
    ) -> Option<usize> {
        if !self.resolve_completions || !provider_attached || self.entries@.len() == 0 {
            None
        } else {
            match self.entries@[selected] {
                CompletionEntry::Match(m) => if self.completions@[m.candidate_id as int].resolved
                    || in_flight[m.candidate_id as int] {
                    None
                } else {
                    Some(m.candidate_id)
                },
                CompletionEntry::InlineCompletionHint(_) => None,
            }
        }
    }

    pub open spec fn resolve_target(&self, provider_attached: bool) -> Option<usize> {
        self.resolve_target_given(provider_attached, self.selected_item as int, self.resolving@)
    }

    /// In-flight flags after a request for `target`, if any, was issued.
    pub open spec fn in_flight_after(in_flight: Seq<bool>, target: Option<usize>) -> Seq<bool> {
        match target {
            Some(i) => in_flight.update(i as int, true),
            None => in_flight,
        }
    }

    /// Everything but the selection and the in-flight flags is the same.
    pub open spec fn same_listing(&self, other: &Self) -> bool {
        &&& self.same_setup(other)
        &&& self.entries == other.entries
    }

    /// Everything but the entries, the selection and the in-flight flags
    /// is the same.
    pub open spec fn same_setup(&self, other: &Self) -> bool {
        &&& self.id == other.id
        &&& self.sort_completions == other.sort_completions
        &&& self.initial_position == other.initial_position
        &&& self.buffer == other.buffer
        &&& self.completions == other.completions
        &&& self.match_candidates == other.match_candidates
        &&& self.resolve_completions == other.resolve_completions
        &&& self.show_completion_documentation == other.show_completion_documentation
        &&& self.last_filter == other.last_filter
    }

    fn all_idle(n: usize) -> (r: Vec<bool>)
        ensures
            r@ == Seq::new(n as nat, |i: int| false),
    {
        let mut r: Vec<bool> = Vec::new();
        while r.len() < n
            invariant
                r@.len() <= n,
                forall|i: int| 0 <= i < r@.len() ==> !r@[i],
            decreases n - r@.len(),
        {
            r.push(false);
        }
        assert(r@ =~= Seq::new(n as nat, |i: int| false));
        r
    }

    /// A menu over the candidates of a completion request, listing nothing
    /// until the first filter result comes.
    pub fn new(
        id: CompletionId,
        sort_completions: bool,
        show_completion_documentation: bool,
        initial_position: Anchor,
        buffer: BufferId,
        completions: Vec<Completion>,
    ) -> (menu: Self)
        requires
            forall|i: int| 0 <= i < completions@.len() ==> (#[trigger] completions@[i]).label.wf(),
        ensures
            menu.inv(),
            menu.id == id,
            menu.sort_completions == sort_completions,
            menu.show_completion_documentation == show_completion_documentation,
            menu.initial_position == initial_position,
            menu.buffer == buffer,
            menu.completions == completions,
            forall|i: int|
                0 <= i < completions@.len() ==> (#[trigger] menu.match_candidates@[i]).id == i
                    && menu.match_candidates@[i].string@ == completions@[i].label.filter_text_spec(),
            menu.entries@.len() == 0,
            menu.selected_item == 0,
            menu.resolve_completions,
            menu.resolving@ == Seq::new(completions@.len(), |i: int| false),
            menu.last_filter is None,
    {
        let n = completions.len();
        let mut match_candidates: Vec<StringMatchCandidate> = Vec::new();
        let mut i: usize = 0;
        while i < n
            invariant
                n == completions@.len(),
                i <= n,
                match_candidates@.len() == i,
                forall|j: int| 0 <= j < completions@.len() ==> (#[trigger] completions@[j]).label.wf(),
                forall|j: int|
                    0 <= j < i ==> (#[trigger] match_candidates@[j]).id == j
                        && match_candidates@[j].string@ == completions@[j].label.filter_text_spec(),
            decreases n - i,
        {
            let text = completions[i].label.filter_text();
            match_candidates.push(StringMatchCandidate { id: i, string: String::from_str(text) });
            i = i + 1;
        }
        let resolving = Self::all_idle(n);
        CompletionsMenu {
            id,
            sort_completions,
            initial_position,
            buffer,
            completions,
            match_candidates,
            entries: Vec::new(),
            selected_item: 0,
            resolve_completions: true,
            show_completion_documentation,
            resolving,
            last_filter: None,
        }
    }

    /// A menu listing literal choices, such as the alternatives of a snippet
    /// placeholder, each with a perfect score, in the given order. Its
    /// candidates count as resolved and are never sent to a source.
    pub fn new_snippet_choices(
        id: CompletionId,
        sort_completions: bool,
        choices: &Vec<String>,
        selection: Range<Anchor>,
        buffer: BufferId,
    ) -> (menu: Self)
        ensures
            menu.inv(),
            menu.id == id,
            menu.sort_completions == sort_completions,
            menu.initial_position == selection.start,
            menu.buffer == buffer,
            menu.completions@.len() == choices@.len(),
            menu.entries@.len() == choices@.len(),
            forall|i: int|
                0 <= i < choices@.len() ==> {
                    let c = #[trigger] menu.completions@[i];
                    &&& c.new_text == choices@[i]
                    &&& c.label.text == choices@[i]
                    &&& c.label.filter_range.start == 0
                    &&& c.label.filter_range.end == choices@[i]@.len()
                    &&& c.server_id == usize::MAX
                    &&& c.sort_text is None
                    &&& c.kind is None
                    &&& c.old_range == selection
                    &&& c.documentation is None
                    &&& c.resolved
                    &&& menu.match_candidates@[i].id == i
                    &&& menu.match_candidates@[i].string == choices@[i]
                    &&& menu.entries@[i] matches CompletionEntry::Match(m) && m.candidate_id == i
                        && m.score == PERFECT_SCORE && m.positions@.len() == 0 && m.string
                        == choices@[i]
                },
            menu.selected_item == 0,
            menu.resolving@ == Seq::new(choices@.len(), |i: int| false),
            !menu.resolve_completions,
            !menu.show_completion_documentation,
            menu.last_filter is None,
    {
        let n = choices.len();
        let mut completions: Vec<Completion> = Vec::new();
        let mut match_candidates: Vec<StringMatchCandidate> = Vec::new();
        let mut entries: Vec<CompletionEntry> = Vec::new();
        let mut i: usize = 0;
        while i < n
            invariant
                n == choices@.len(),
                i <= n,
                completions@.len() == i,
                match_candidates@.len() == i,
                entries@.len() == i,
                forall|j: int|
                    0 <= j < i ==> {
                        let c = #[trigger] completions@[j];
                        &&& c.new_text == choices@[j]
                        &&& c.label.text == choices@[j]
                        &&& c.label.wf()
                        &&& c.label.filter_range.start == 0
                        &&& c.label.filter_range.end == choices@[j]@.len()
                        &&& c.server_id == usize::MAX
                        &&& c.sort_text is None
                        &&& c.kind is None
                        &&& c.old_range == selection
                        &&& c.documentation is None
                        &&& c.resolved
                        &&& match_candidates@[j].id == j
                        &&& match_candidates@[j].string == choices@[j]
                        &&& entries@[j] matches CompletionEntry::Match(m) && m.candidate_id == j
                            && m.score == PERFECT_SCORE && m.positions@.len() == 0 && m.string
                            == choices@[j]
                    },
            decreases n - i,
        {
            let choice = &choices[i];
            completions.push(
                Completion {
                    old_range: Range { start: selection.start, end: selection.end },
                    new_text: choice.clone(),
                    label: CodeLabel::plain(choice.clone()),
                    server_id: usize::MAX,
                    documentation: None,
                    sort_text: None,
                    kind: None,
                    resolved: true,
                },
            );
            match_candidates.push(StringMatchCandidate { id: i, string: choice.clone() });
            entries.push(
                CompletionEntry::Match(
                    StringMatch {
                        candidate_id: i,
                        score: PERFECT_SCORE,
                        positions: Vec::new(),
                        string: choice.clone(),
                    },
                ),
            );
            i = i + 1;
        }
        let resolving = Self::all_idle(n);
        assert forall|i: int| 0 <= i < entries@.len() implies match #[trigger] entries@[i] {
            CompletionEntry::Match(m) => m.candidate_id < completions@.len(),
            CompletionEntry::InlineCompletionHint(_) => i == 0,
        } by {
            assert(completions@[i].resolved);
        }
        CompletionsMenu {
            id,
            sort_completions,
            initial_position: selection.start,
            buffer,
            completions,
            match_candidates,
            entries,
            selected_item: 0,
            resolve_completions: false,
            show_completion_documentation: false,
            resolving,
            last_filter: None,
        }
    }

    /// The menu is shown when it lists at least one entry.
    pub fn visible(&self) -> (r: bool)
        ensures
            r == self.visible_spec(),
    {
        self.entries.len() > 0
    }

    /// A completions menu opens at the cursor.
    pub fn origin(&self, cursor_position: DisplayPoint) -> (r: ContextMenuOrigin)
        ensures
            r == ContextMenuOrigin::EditorPoint(cursor_position),
    {
        ContextMenuOrigin::EditorPoint(cursor_position)
    }

    /// Issues a resolve request for the selected match's candidate when one
    /// is owed, and records it as in flight. Returns the candidate to
    /// resolve.
    pub fn resolve_selected_completion(&mut self, provider_attached: bool) -> (target: Option<
        usize,
    >)
        requires
            old(self).inv(),
        ensures
            final(self).inv(),
            target == old(self).resolve_target(provider_attached),
            final(self).same_listing(old(self)),
            final(self).selected_item == old(self).selected_item,
            final(self).resolving@ == Self::in_flight_after(old(self).resolving@, target),
    {
        if !self.resolve_completions || !provider_attached || self.entries.len() == 0 {
            return None;
        }
        let target = match &self.entries[self.selected_item] {
            CompletionEntry::Match(m) => {
                let id = m.candidate_id;
                if self.completions[id].resolved || self.resolving[id] {
                    None
                } else {
                    Some(id)
                }
            },
            CompletionEntry::InlineCompletionHint(_) => None,
        };
        if let Some(id) = target {
            self.resolving.set(id, true);
        }
        target
    }

    /// Selects the first entry; nothing happens when the menu lists none.
    /// Returns the candidate to resolve, as `resolve_selected_completion`.
    pub fn select_first(&mut self, provider_attached: bool) -> (target: Option<usize>)
        requires
            old(self).inv(),
        ensures
            final(self).inv(),
            final(self).same_listing(old(self)),
            final(self).selected_item == if old(self).entries@.len() == 0 {
                old(self).selected_item
            } else {
                0
            },
            target == old(self).resolve_target_given(
                provider_attached,
                final(self).selected_item as int,
                old(self).resolving@,
            ),
            final(self).resolving@ == Self::in_flight_after(old(self).resolving@, target),
    {
        if self.entries.len() == 0 {
            return None;
        }
        self.selected_item = 0;
        self.resolve_selected_completion(provider_attached)
    }

    /// Selects the entry before the selected one, the last after the first;
    /// nothing happens when the menu lists none. Returns the candidate to
    /// resolve, as `resolve_selected_completion`.
    pub fn select_prev(&mut self, provider_attached: bool) -> (target: Option<usize>)
        requires
            old(self).inv(),
        ensures
            final(self).inv(),
            final(self).same_listing(old(self)),
            final(self).selected_item == if old(self).entries@.len() == 0 {
                old(self).selected_item as nat
            } else {
                prev_index(old(self).selected_item as nat, old(self).entries@.len())
            },
            target == old(self).resolve_target_given(
                provider_attached,
                final(self).selected_item as int,
                old(self).resolving@,
            ),
            final(self).resolving@ == Self::in_flight_after(old(self).resolving@, target),
    {
        if self.entries.len() == 0 {
            return None;
        }
        if self.selected_item > 0 {
            self.selected_item = self.selected_item - 1;
        } else {
            self.selected_item = self.entries.len() - 1;
        }
        self.resolve_selected_completion(provider_attached)
    }

    /// Selects the entry after the selected one, the first after the last;
    /// nothing happens when the menu lists none. Returns the candidate to
    /// resolve, as `resolve_selected_completion`.
    pub fn select_next(&mut self, provider_attached: bool) -> (target: Option<usize>)
        requires
            old(self).inv(),
        ensures
            final(self).inv(),
            final(self).same_listing(old(self)),
            final(self).selected_item == if old(self).entries@.len() == 0 {
                old(self).selected_item as nat
            } else {
                next_index(old(self).selected_item as nat, old(self).entries@.len())
            },
            target == old(self).resolve_target_given(
                provider_attached,
                final(self).selected_item as int,
                old(self).resolving@,
            ),
            final(self).resolving@ == Self::in_flight_after(old(self).resolving@, target),
    {
        if self.entries.len() == 0 {
            return None;
        }
        if self.selected_item + 1 < self.entries.len() {
            self.selected_item = self.selected_item + 1;
        } else {
            self.selected_item = 0;
        }
        self.resolve_selected_completion(provider_attached)
    }

    /// Selects the last entry; nothing happens when the menu lists none.
    /// Returns the candidate to resolve, as `resolve_selected_completion`.
    pub fn select_last(&mut self, provider_attached: bool) -> (target: Option<usize>)
        requires
            old(self).inv(),
        ensures
            final(self).inv(),
            final(self).same_listing(old(self)),
            final(self).selected_item == if old(self).entries@.len() == 0 {
                old(self).selected_item as int
            } else {
                old(self).entries@.len() - 1
            },
            target == old(self).resolve_target_given(
                provider_attached,
                final(self).selected_item as int,
                old(self).resolving@,
            ),
            final(self).resolving@ == Self::in_flight_after(old(self).resolving@, target),
    {
        if self.entries.len() == 0 {
            return None;
        }
        self.selected_item = self.entries.len() - 1;
        self.resolve_selected_completion(provider_attached)
    }

    /// Lists the inline suggestion hint first, in place of the hint listed
    /// there before if any, and selects it.
    pub fn show_inline_completion_hint(&mut self, hint: InlineCompletionMenuHint)
        requires
            old(self).inv(),
        ensures
            final(self).inv(),
            final(self).same_setup(old(self)),
            final(self).resolving == old(self).resolving,
            final(self).entries@[0] == CompletionEntry::InlineCompletionHint(hint),
            final(self).selected_item == 0,
            final(self).entries@ == if old(self).entries@.len() > 0
                && old(self).entries@[0] is InlineCompletionHint {
                old(self).entries@.update(0, CompletionEntry::InlineCompletionHint(hint))
            } else {
                seq![CompletionEntry::InlineCompletionHint(hint)] + old(self).entries@
            },
    {
        let replace = self.entries.len() > 0 && match &self.entries[0] {
            CompletionEntry::InlineCompletionHint(_) => true,
            CompletionEntry::Match(_) => false,
        };
        let ghost before = self.entries@;
        if replace {
            self.entries.set(0, CompletionEntry::InlineCompletionHint(hint));
        } else {
            self.entries.insert(0, CompletionEntry::InlineCompletionHint(hint));
            assert(self.entries@ =~= seq![CompletionEntry::InlineCompletionHint(hint)] + before);
        }
        self.selected_item = 0;
        assert forall|i: int| 0 <= i < self.entries@.len() implies match #[trigger] self.entries@[i] {
            CompletionEntry::Match(m) => m.candidate_id < self.completions@.len(),
            CompletionEntry::InlineCompletionHint(_) => i == 0,
        } by {
            if i > 0 && !replace {
                assert(self.entries@[i] == before[i - 1]);
            }
        }
    }

    /// Whether the selected entry is a match of candidate `id`.
    pub open spec fn selects_candidate(&self, id: usize) -> bool {
        &&& self.entries@.len() > 0
        &&& self.entries@[self.selected_item as int] matches CompletionEntry::Match(m)
            && m.candidate_id == id
    }

    /// Takes in the result of resolving candidate `id`. A result that comes
    /// when the selection has moved to another entry is dropped. Otherwise
    /// the candidate is resolved in place unless resolving failed, takes the
    /// documentation supplied, if any. Returns whether the menu needs
    /// drawing again, which is when the candidate changed.
    pub fn finish_resolve(&mut self, id: usize, outcome: ResolveOutcome) -> (changed: bool)
        requires
            old(self).inv(),
            id < old(self).completions@.len(),
        ensures
            final(self).inv(),
            final(self).entries == old(self).entries,
            final(self).selected_item == old(self).selected_item,
            final(self).resolving@ == old(self).resolving@.update(id as int, false),
            final(self).completions@.len() == old(self).completions@.len(),
            forall|j: int|
                0 <= j < old(self).completions@.len() && j != id
                    ==> #[trigger] final(self).completions@[j] == old(self).completions@[j],
            ({
                let before = old(self).completions@[id as int];
                let after = final(self).completions@[id as int];
                let current = old(self).selects_candidate(id);
                &&& after.old_range == before.old_range
                &&& after.new_text == before.new_text
                &&& after.label == before.label
                &&& after.server_id == before.server_id
                &&& after.sort_text == before.sort_text
                &&& after.kind == before.kind
                &&& after.resolved == (before.resolved || (current && !(outcome is Failed)))
                &&& after.documentation == if current && outcome is Changed {
                    outcome->Changed_0
                } else {
                    before.documentation
                }
                &&& changed == (current && outcome is Changed)
            }),
            final(self).id == old(self).id,
            final(self).sort_completions == old(self).sort_completions,
            final(self).initial_position == old(self).initial_position,
            final(self).buffer == old(self).buffer,
            final(self).match_candidates == old(self).match_candidates,
            final(self).resolve_completions == old(self).resolve_completions,
            final(self).show_completion_documentation == old(self).show_completion_documentation,
            final(self).last_filter == old(self).last_filter,
    {
        self.resolving.set(id, false);
        let current = self.entries.len() > 0 && match &self.entries[self.selected_item] {
            CompletionEntry::Match(m) => m.candidate_id == id,
            CompletionEntry::InlineCompletionHint(_) => false,
        };
        if !current {
            return false;
        }
        match outcome {
            ResolveOutcome::Failed => false,
            ResolveOutcome::Unchanged => {
                self.completions[id].resolved = true;
                false
            },
            ResolveOutcome::Changed(documentation) => {
                self.completions[id].resolved = true;
                self.completions[id].documentation = documentation;
                true
            },
        }
    }


    /// What the aside shows: nothing when documentation is off or nothing
    /// is listed; for a selected match, its candidate's multi-line
    /// documentation, markdown only when not empty; for the inline hint,
    /// the suggestion's text.
    pub open spec fn aside_spec(&self) -> Option<AsideContent> {
        if !self.show_completion_documentation || self.entries@.len() == 0 {
            None
        } else {
            match self.entries@[self.selected_item as int] {
                CompletionEntry::Match(m) => match self.completions@[m.candidate_id as int].documentation {
                    Some(Documentation::MultiLinePlainText(t)) => Some(AsideContent::PlainText(t)),
                    Some(Documentation::MultiLineMarkdown(t)) => if t@.len() > 0 {
                        Some(AsideContent::Markdown(t))
                    } else {
                        None
                    },
                    _ => None,
                },
                CompletionEntry::InlineCompletionHint(h) => match h.text {
                    InlineCompletionText::Edit { text, .. } => Some(AsideContent::InlineEdit(text)),
                    InlineCompletionText::Move(text) => Some(AsideContent::InlineMove(text)),
                },
            }
        }
    }

    /// What the documentation aside shows for the selected entry.
    pub fn render_aside(&self) -> (r: Option<AsideContent>)
        requires
            self.inv(),
        ensures
            r == self.aside_spec(),
    {
        if !self.show_completion_documentation || self.entries.len() == 0 {
            return None;
        }
        match &self.entries[self.selected_item] {
            CompletionEntry::Match(m) => match &self.completions[m.candidate_id].documentation {
                Some(Documentation::MultiLinePlainText(t)) => Some(AsideContent::PlainText(t.clone())),
                Some(Documentation::MultiLineMarkdown(t)) => if t.as_str().unicode_len() > 0 {
                    Some(AsideContent::Markdown(t.clone()))
                } else {
                    None
                },
                _ => None,
            },
            CompletionEntry::InlineCompletionHint(h) => match &h.text {
                InlineCompletionText::Edit { text, .. } => Some(AsideContent::InlineEdit(text.clone())),
                InlineCompletionText::Move(text) => Some(AsideContent::InlineMove(text.clone())),
            },
        }
    }

    /// How wide entry `i` is drawn: a match's label in characters, with its
    /// single-line documentation when documentation is shown; the inline
    /// hint by its provider's name.
    pub open spec fn entry_width(&self, i: int) -> nat {
        match self.entries@[i] {
            CompletionEntry::Match(m) => {
                let c = self.completions@[m.candidate_id as int];
                c.label.text@.len() + match c.documentation {
                    Some(Documentation::SingleLine(t)) => if self.show_completion_documentation {
                        t@.len()
                    } else {
                        0
                    },
                    _ => 0,
                }
            },
            CompletionEntry::InlineCompletionHint(h) => h.provider_name@.len(),
        }
    }

    fn width_of(&self, i: usize) -> (r: u128)
        requires
            self.inv(),
            i < self.entries@.len(),
        ensures
            r == self.entry_width(i as int),
    {
        match &self.entries[i] {
            CompletionEntry::Match(m) => {
                let c = &self.completions[m.candidate_id];
                let label = c.label.text.as_str().unicode_len() as u128;
                let docs = match &c.documentation {
                    Some(Documentation::SingleLine(t)) => if self.show_completion_documentation {
                        t.as_str().unicode_len() as u128
                    } else {
                        0
                    },
                    _ => 0,
                };
                label + docs
            },
            CompletionEntry::InlineCompletionHint(h) => h.provider_name.as_str().unicode_len() as u128,
        }
    }

    /// The entry the menu's width is sized for: the last of the widest.
    pub fn widest_entry(&self) -> (r: Option<usize>)
        requires
            self.inv(),
        ensures
            r is None <==> self.entries@.len() == 0,
            r matches Some(w) ==> w < self.entries@.len() && (forall|j: int|
                0 <= j <= w ==> self.entry_width(j) <= self.entry_width(w as int)) && (forall|j: int|
                w < j < self.entries@.len() ==> self.entry_width(j) < self.entry_width(w as int)),
    {
        let n = self.entries.len();
        if n == 0 {
            return None;
        }
        let mut best: usize = 0;
        let mut best_width = self.width_of(0);
        let mut i: usize = 1;
        while i < n
            invariant
                self.inv(),
                n == self.entries@.len(),
                1 <= i <= n,
                best < i,
                best_width == self.entry_width(best as int),
                forall|j: int| 0 <= j < i ==> self.entry_width(j) <= best_width,
                forall|j: int| best < j < i ==> self.entry_width(j) < best_width,
            decreases n - i,
        {
            let w = self.width_of(i);
            if w >= best_width {
                best = i;
                best_width = w;
            }
            i = i + 1;
        }
        Some(best)
    }

    /// The listed form of what the fuzzy matcher reported for a candidate.
    pub open spec fn match_view(&self, fm: FuzzyMatch) -> StringMatchView {
        StringMatchView {
            candidate_id: fm.candidate_id,
            score: fm.score,
            positions: fm.positions@,
            string: self.match_candidates@[fm.candidate_id as int].string@,
        }
    }

    /// The fuzzy matches, in the matcher's order, whose candidate text has
    /// a word starting like the query, whose first character is `q`.
    pub open spec fn word_filtered(&self, fms: Seq<FuzzyMatch>, q: char, case_sensitive: bool) -> Seq<
        StringMatchView,
    >
        decreases fms.len(),
    {
        if fms.len() == 0 {
            seq![]
        } else {
            let rest = self.word_filtered(fms.drop_last(), q, case_sensitive);
            let v = self.match_view(fms.last());
            if has_word_starting_with(v.string, q, case_sensitive) {
                rest.push(v)
            } else {
                rest
            }
        }
    }

    /// Every candidate in source order, unscored and with no position matched.
    pub open spec fn unscored(&self) -> Seq<StringMatchView> {
        Seq::new(
            self.match_candidates@.len(),
            |i: int|
                StringMatchView {
                    candidate_id: i as usize,
                    score: 0,
                    positions: seq![],
                    string: self.match_candidates@[i].string@,
                },
        )
    }

    /// The matches a filter pass lists before ranking: for a non-empty
    /// query, the matcher's matches that pass the word-start rule; else
    /// every candidate, unscored.
    pub open spec fn filter_candidates(&self, query: Option<Seq<char>>, fms: Seq<FuzzyMatch>) -> Seq<
        StringMatchView,
    > {
        match query {
            Some(q) => if q.len() > 0 {
                self.word_filtered(fms, q[0], is_case_sensitive_query(q))
            } else {
                self.unscored()
            },
            None => self.unscored(),
        }
    }

    /// A filter result with sequence number `seq` is applied unless a
    /// result of a later request was applied before.
    pub open spec fn accepts_filter(&self, seq: u64) -> bool {
        match self.last_filter {
            Some(last) => seq >= last,
            None => true,
        }
    }

    proof fn lemma_word_filtered_passes(&self, fms: Seq<FuzzyMatch>, q: char, case_sensitive: bool)
        ensures
            forall|k: int|
                0 <= k < self.word_filtered(fms, q, case_sensitive).len() ==> has_word_starting_with(
                    (#[trigger] self.word_filtered(fms, q, case_sensitive)[k]).string,
                    q,
                    case_sensitive,
                ),
            forall|k: int|
                0 <= k < self.word_filtered(fms, q, case_sensitive).len() ==> exists|j: int|
                    0 <= j < fms.len() && #[trigger] self.word_filtered(fms, q, case_sensitive)[k]
                        == self.match_view(fms[j]),
        decreases fms.len(),
    {
        if fms.len() > 0 {
            self.lemma_word_filtered_passes(fms.drop_last(), q, case_sensitive);
            let rest = self.word_filtered(fms.drop_last(), q, case_sensitive);
            let all = self.word_filtered(fms, q, case_sensitive);
            assert forall|k: int| 0 <= k < all.len() implies exists|j: int|
                0 <= j < fms.len() && #[trigger] all[k] == self.match_view(fms[j]) by {
                if k < rest.len() {
                    assert(all[k] == rest[k]);
                    let j = choose|j: int|
                        0 <= j < fms.drop_last().len() && rest[k] == self.match_view(
                            fms.drop_last()[j],
                        );
                    assert(fms[j] == fms.drop_last()[j]);
                } else {
                    assert(all[k] == self.match_view(fms[fms.len() - 1]));
                }
            }
        }
    }

    /// The candidates to list for the query, before ranking.
    fn matches_for_query(&self, query: Option<&str>, fuzzy_matches: Vec<FuzzyMatch>) -> (found: Vec<
        StringMatch,
    >)
        requires
            self.inv(),
            forall|k: int|
                0 <= k < fuzzy_matches@.len() ==> (#[trigger] fuzzy_matches@[k]).candidate_id
                    < self.completions@.len(),
        ensures
            views_of(found@) == self.filter_candidates(query_view(query), fuzzy_matches@),
            forall|k: int|
                0 <= k < found@.len() ==> (#[trigger] found@[k]).candidate_id < self.completions@.len(),
    {
        let mut first: Option<char> = None;
        let mut case_sensitive = false;
        if let Some(q) = query {
            if q.unicode_len() > 0 {
                first = Some(q.get_char(0));
                case_sensitive = query_is_case_sensitive(q);
            }
        }
        let mut found: Vec<StringMatch> = Vec::new();
        match first {
            Some(q0) => {
                let ghost all = fuzzy_matches@;
                assert(all.len() == fuzzy_matches.len());
                let mut rest = fuzzy_matches;
                let mut i: usize = 0;
                while rest.len() > 0
                    invariant
                        self.inv(),
                        i + rest@.len() == all.len(),
                        all.len() <= usize::MAX,
                        rest@ == all.skip(i as int),
                        views_of(found@) == self.word_filtered(all.take(i as int), q0, case_sensitive),
                        forall|k: int|
                            0 <= k < all.len() ==> (#[trigger] all[k]).candidate_id
                                < self.completions@.len(),
                        forall|k: int|
                            0 <= k < found@.len() ==> (#[trigger] found@[k]).candidate_id
                                < self.completions@.len(),
                    decreases rest@.len(),
                {
                    assert(rest@[0] == all[i as int]);
                    let fm = rest.remove(0);
                    let string = self.match_candidates[fm.candidate_id].string.clone();
                    let keep = has_word_starting_like(string.as_str(), q0, case_sensitive);
                    proof {
                        assert(all.take(i + 1).drop_last() =~= all.take(i as int));
                        assert(all.take(i + 1).last() == fm);
                        assert(all.skip(i + 1) =~= all.skip(i as int).drop_first());
                    }
                    if keep {
                        let m = StringMatch {
                            candidate_id: fm.candidate_id,
                            score: fm.score,
                            positions: fm.positions,
                            string,
                        };
                        proof {
                            assert(views_of(found@.push(m)) =~= views_of(found@).push(m@));
                        }
                        found.push(m);
                    }
                    i = i + 1;
                }
                proof {
                    assert(all.take(i as int) =~= all);
                }
            },
            None => {
                let n = self.match_candidates.len();
                let mut i: usize = 0;
                while i < n
                    invariant
                        self.inv(),
                        n == self.match_candidates@.len(),
                        i <= n,
                        views_of(found@) =~= self.unscored().take(i as int),
                        forall|k: int|
                            0 <= k < found@.len() ==> (#[trigger] found@[k]).candidate_id
                                < self.completions@.len(),
                    decreases n - i,
                {
                    let m = StringMatch {
                        candidate_id: i,
                        score: 0,
                        positions: Vec::new(),
                        string: self.match_candidates[i].string.clone(),
                    };
                    proof {
                        assert(views_of(found@.push(m)) =~= views_of(found@).push(m@));
                        assert(self.unscored().take(i + 1) =~= self.unscored().take(i as int).push(
                            m@,
                        ));
                    }
                    found.push(m);
                    i = i + 1;
                }
                proof {
                    assert(self.unscored().take(n as int) =~= self.unscored());
                }
            },
        }
        found
    }

    /// The rank of a listed match of this menu.
    fn rank_of(&self, m: &StringMatch) -> (r: MatchRank)
        requires
            self.inv(),
            m.candidate_id < self.completions@.len(),
        ensures
            r@ == self.rank_key(m@),
    {
        let c = &self.completions[m.candidate_id];
        let sort_text = match &c.sort_text {
            Some(s) => Some(s.clone()),
            None => None,
        };
        let kind_key: u8 = match c.kind {
            Some(k) => if k == KIND_KEYWORD {
                0
            } else if k == KIND_VARIABLE {
                1
            } else {
                2
            },
            None => 2,
        };
        MatchRank {
            strong: m.score >= STRONG_MATCH_SCORE,
            score: m.score,
            sort_text,
            kind_key,
            filter_text: m.string.clone(),
            candidate_id: m.candidate_id,
        }
    }

    /// Orders matches by rank.
    fn rank_matches(&self, found: Vec<StringMatch>) -> (ranked: Vec<StringMatch>)
        requires
            self.inv(),
            forall|k: int|
                0 <= k < found@.len() ==> (#[trigger] found@[k]).candidate_id < self.completions@.len(),
        ensures
            views_of(ranked@).to_multiset() == views_of(found@).to_multiset(),
            forall|i: int, j: int|
                0 <= i < j < ranked@.len() ==> rank_order(
                    self.rank_key((#[trigger] ranked@[i])@),
                    self.rank_key((#[trigger] ranked@[j])@),
                ) != Ordering::Greater,
            forall|k: int|
                0 <= k < ranked@.len() ==> (#[trigger] ranked@[k]).candidate_id
                    < self.completions@.len(),
    {
        broadcast use vstd::seq_lib::group_to_multiset_ensures;

        let ghost all = found@;
        let mut rest = found;
        let mut pairs: Vec<(MatchRank, StringMatch)> = Vec::new();
        while rest.len() > 0
            invariant
                self.inv(),
                pairs@.len() + rest@.len() == all.len(),
                rest@ == all.skip(pairs@.len() as int),
                pairs@.map_values(|p: (MatchRank, StringMatch)| p.1) == all.take(pairs@.len() as int),
                forall|k: int|
                    0 <= k < all.len() ==> (#[trigger] all[k]).candidate_id < self.completions@.len(),
                forall|k: int|
                    0 <= k < pairs@.len() ==> (#[trigger] pairs@[k]).0@ == self.rank_key(pairs@[k].1@)
                        && pairs@[k].1.candidate_id < self.completions@.len(),
            decreases rest@.len(),
        {
            let ghost n = pairs@.len() as int;
            assert(rest@[0] == all[n]);
            let m = rest.remove(0);
            let r = self.rank_of(&m);
            pairs.push((r, m));
            proof {
                assert(all.skip(n + 1) =~= all.skip(n).drop_first());
                assert(pairs@.map_values(|p: (MatchRank, StringMatch)| p.1) =~= all.take(n + 1));
            }
        }
        let ghost unsorted = pairs@;
        proof {
            assert(unsorted.map_values(|p: (MatchRank, StringMatch)| p.1) =~= all);
        }
        let sorted = sort_by_rank(pairs);
        let ghost sorted_all = sorted@;
        proof {
            assert forall|k: int| 0 <= k < sorted_all.len() implies (#[trigger] sorted_all[k]).0@
                == self.rank_key(sorted_all[k].1@) && sorted_all[k].1.candidate_id
                < self.completions@.len() by {
                assert(sorted_all.to_multiset().count(sorted_all[k]) > 0);
                assert(unsorted.contains(sorted_all[k]));
            }
        }
        let mut rest = sorted;
        let mut ranked: Vec<StringMatch> = Vec::new();
        while rest.len() > 0
            invariant
                ranked@.len() + rest@.len() == sorted_all.len(),
                rest@ == sorted_all.skip(ranked@.len() as int),
                ranked@ == sorted_all.take(ranked@.len() as int).map_values(
                    |p: (MatchRank, StringMatch)| p.1,
                ),
            decreases rest@.len(),
        {
            let ghost n = ranked@.len() as int;
            assert(rest@[0] == sorted_all[n]);
            let p = rest.remove(0);
            ranked.push(p.1);
            proof {
                assert(sorted_all.skip(n + 1) =~= sorted_all.skip(n).drop_first());
                assert(ranked@ =~= sorted_all.take(n + 1).map_values(
                    |p: (MatchRank, StringMatch)| p.1,
                ));
            }
        }
        proof {
            assert(sorted_all.take(sorted_all.len() as int) =~= sorted_all);
            let f = |p: (MatchRank, StringMatch)| p.1@;
            lemma_map_values_to_multiset(sorted_all, unsorted, f);
            assert(views_of(ranked@) =~= sorted_all.map_values(f));
            assert(views_of(all) =~= unsorted.map_values(f));
            assert forall|i: int, j: int| 0 <= i < j < ranked@.len() implies rank_order(
                self.rank_key((#[trigger] ranked@[i])@),
                self.rank_key((#[trigger] ranked@[j])@),
            ) != Ordering::Greater by {
                assert(ranked@[i] == sorted_all[i].1);
                assert(ranked@[j] == sorted_all[j].1);
            }
            assert forall|k: int| 0 <= k < ranked@.len() implies (#[trigger] ranked@[k]).candidate_id
                < self.completions@.len() by {
                assert(ranked@[k] == sorted_all[k].1);
            }
        }
        ranked
    }


    /// Applies a filter result: the fuzzy matcher's matches for `query`,
    /// from request number `seq`. A result older than the last one applied
    /// is dropped. Otherwise the entries become the inline hint, if one was
    /// listed, followed by the candidates of `filter_candidates`, ranked when
    /// sorting is on and in the given order when it is off, and the first
    /// entry is selected. `fuzzy_matches` is read only for a non-empty query.
    pub fn filter(&mut self, seq: u64, query: Option<&str>, fuzzy_matches: Vec<FuzzyMatch>) -> (applied:
        bool)
        requires
            old(self).inv(),
            forall|k: int|
                0 <= k < fuzzy_matches@.len() ==> (#[trigger] fuzzy_matches@[k]).candidate_id
                    < old(self).completions@.len(),
        ensures
            final(self).inv(),
            applied == old(self).accepts_filter(seq),
            !applied ==> *final(self) == *old(self),
            applied ==> {
                let kept = old(self).filter_candidates(query_view(query), fuzzy_matches@);
                let listed = listed_matches(final(self).entries@);
                &&& final(self).id == old(self).id
                &&& final(self).sort_completions == old(self).sort_completions
                &&& final(self).initial_position == old(self).initial_position
                &&& final(self).buffer == old(self).buffer
                &&& final(self).completions == old(self).completions
                &&& final(self).match_candidates == old(self).match_candidates
                &&& final(self).resolve_completions == old(self).resolve_completions
                &&& final(self).show_completion_documentation
                    == old(self).show_completion_documentation
                &&& final(self).resolving == old(self).resolving
                &&& final(self).last_filter == Some(seq)
                &&& final(self).selected_item == 0
                &&& hint_count(final(self).entries@) == hint_count(old(self).entries@)
                &&& final(self).entries@.len() == hint_count(old(self).entries@) + listed.len()
                &&& (hint_count(old(self).entries@) == 1 ==> final(self).entries@[0] == old(
                    self,
                ).entries@[0])
                &&& listed.to_multiset() == kept.to_multiset()
                &&& (!old(self).sort_completions ==> listed == kept)
                &&& (old(self).sort_completions ==> forall|i: int, j: int|
                    0 <= i < j < listed.len() ==> rank_order(
                        old(self).rank_key(#[trigger] listed[i]),
                        old(self).rank_key(#[trigger] listed[j]),
                    ) != Ordering::Greater)
            },
            // Every listed match of a non-empty query has a word that starts
            // like the query.
            applied && query is Some && query->0@.len() > 0 ==> forall|i: int|
                0 <= i < listed_matches(final(self).entries@).len() ==> has_word_starting_with(
                    (#[trigger] listed_matches(final(self).entries@)[i]).string,
                    query->0@[0],
                    is_case_sensitive_query(query->0@),
                ),
            // With ranking on, no strong match follows a weak one.
            applied && old(self).sort_completions ==> forall|i: int, j: int|
                0 <= i < j < listed_matches(final(self).entries@).len() && (#[trigger] listed_matches(
                    final(self).entries@,
                )[j]).score >= STRONG_MATCH_SCORE ==> (#[trigger] listed_matches(
                    final(self).entries@,
                )[i]).score >= STRONG_MATCH_SCORE,
    {
        broadcast use vstd::seq_lib::group_to_multiset_ensures;

        if let Some(last) = self.last_filter {
            if seq < last {
                return false;
            }
        }
        let ghost before = *self;
        let found = self.matches_for_query(query, fuzzy_matches);
        let ghost kept = views_of(found@);
        let listed = if self.sort_completions {
            self.rank_matches(found)
        } else {
            found
        };
        let keep_hint = self.entries.len() > 0 && match &self.entries[0] {
            CompletionEntry::InlineCompletionHint(_) => true,
            CompletionEntry::Match(_) => false,
        };
        let mut entries: Vec<CompletionEntry> = Vec::new();
        core::mem::swap(&mut entries, &mut self.entries);
        if keep_hint {
            entries.truncate(1);
        } else {
            entries.clear();
        }
        let h = entries.len();
        let ghost prefix = entries@;
        let ghost listed_all = listed@;
        let ghost count = self.completions@.len();
        let mut rest = listed;
        while rest.len() > 0
            invariant
                h <= 1,
                prefix.len() == h,
                h == 1 ==> prefix[0] is InlineCompletionHint,
                entries@.len() >= h,
                entries@.len() + rest@.len() == h + listed_all.len(),
                entries@.take(h as int) == prefix,
                rest@ == listed_all.skip(entries@.len() - h),
                forall|k: int|
                    0 <= k < listed_all.len() ==> (#[trigger] listed_all[k]).candidate_id < count,
                forall|k: int|
                    h <= k < entries@.len() ==> #[trigger] entries@[k] == CompletionEntry::Match(
                        listed_all[k - h],
                    ),
            decreases rest@.len(),
        {
            let ghost n = entries@.len() - h;
            assert(rest@[0] == listed_all[n]);
            let m = rest.remove(0);
            entries.push(CompletionEntry::Match(m));
            proof {
                assert(listed_all.skip(n + 1) =~= listed_all.skip(n).drop_first());
                assert(entries@.take(h as int) =~= prefix);
            }
        }
        self.entries = entries;
        self.selected_item = 0;
        self.last_filter = Some(seq);
        proof {
            let entries = self.entries@;
            assert(hint_count(entries) == h) by {
                if h == 1 {
                    assert(entries[0] == prefix[0]);
                } else if entries.len() > 0 {
                    assert(entries[0] == CompletionEntry::Match(listed_all[0]));
                }
            }
            if h == 1 {
                assert(entries[0] == prefix[0]);
                assert(before.entries@.take(1) == prefix);
                assert(before.entries@[0] == prefix[0]);
            }
            let listed_views = listed_matches(entries);
            assert(listed_views =~= views_of(listed_all));
            assert forall|i: int| 0 <= i < entries.len() implies match #[trigger] entries[i] {
                CompletionEntry::Match(m) => m.candidate_id < self.completions@.len(),
                CompletionEntry::InlineCompletionHint(_) => i == 0,
            } by {
                if i >= h {
                    assert(entries[i] == CompletionEntry::Match(listed_all[i - h]));
                }
            }
            assert(listed_views.to_multiset() == kept.to_multiset());
            if query is Some && query->0@.len() > 0 {
                let q = query->0@;
                let cs = is_case_sensitive_query(q);
                before.lemma_word_filtered_passes(fuzzy_matches@, q[0], cs);
                let wf = before.word_filtered(fuzzy_matches@, q[0], cs);
                assert(kept == wf);
                assert forall|i: int| 0 <= i < listed_views.len() implies has_word_starting_with(
                    (#[trigger] listed_views[i]).string,
                    q[0],
                    cs,
                ) by {
                    assert(listed_views.to_multiset().count(listed_views[i]) > 0);
                    assert(kept.to_multiset().count(listed_views[i]) > 0);
                    assert(kept.contains(listed_views[i]));
                    let k = choose|k: int| 0 <= k < kept.len() && kept[k] == listed_views[i];
                    assert(wf[k] == listed_views[i]);
                }
            }
        }
        true
    }

}

/// The index reached from `i` after `k` steps forward among `n` entries.
pub open spec fn advance(i: nat, n: nat, k: nat) -> nat
    decreases k,
{
    if k == 0 {
        i
    } else {
        next_index(advance(i, n, (k - 1) as nat), n)
    }
}

/// The index reached from `i` after `k` steps back among `n` entries.
pub open spec fn retreat(i: nat, n: nat, k: nat) -> nat
    decreases k,
{
    if k == 0 {
        i
    } else {
        prev_index(retreat(i, n, (k - 1) as nat), n)
    }
}

proof fn lemma_advance_split(i: nat, n: nat, a: nat, b: nat)
    ensures
        advance(i, n, a + b) == advance(advance(i, n, a), n, b),
    decreases b,
{
    if b > 0 {
        lemma_advance_split(i, n, a, (b - 1) as nat);
        assert((a + b - 1) as nat == a + (b - 1) as nat);
    }
}

proof fn lemma_retreat_split(i: nat, n: nat, a: nat, b: nat)
    ensures
        retreat(i, n, a + b) == retreat(retreat(i, n, a), n, b),
    decreases b,
{
    if b > 0 {
        lemma_retreat_split(i, n, a, (b - 1) as nat);
        assert((a + b - 1) as nat == a + (b - 1) as nat);
    }
}

proof fn lemma_advance_no_wrap(i: nat, n: nat, k: nat)
    requires
        i + k < n,
    ensures
        advance(i, n, k) == i + k,
    decreases k,
{
    if k > 0 {
        lemma_advance_no_wrap(i, n, (k - 1) as nat);
    }
}

proof fn lemma_retreat_no_wrap(i: nat, n: nat, k: nat)
    requires
        k <= i,
    ensures
        retreat(i, n, k) == i - k,
    decreases k,
{
    if k > 0 {
        lemma_retreat_no_wrap(i, n, (k - 1) as nat);
    }
}

/// Selecting the next entry as many times as the menu lists entries comes
/// back to the entry selected first, and so does selecting the previous one.
pub proof fn lemma_selection_cycles(i: nat, n: nat)
    requires
        i < n,
    ensures
        advance(i, n, n) == i,
        retreat(i, n, n) == i,
{
    let before_wrap = (n - 1 - i) as nat;
    lemma_advance_split(i, n, before_wrap, (i + 1) as nat);
    lemma_advance_no_wrap(i, n, before_wrap);
    lemma_advance_split((n - 1) as nat, n, 1, i);
    assert(advance((n - 1) as nat, n, 0) == n - 1);
    assert(advance((n - 1) as nat, n, 1) == 0);
    lemma_advance_no_wrap(0, n, i);
    lemma_retreat_split(i, n, i, (n - i) as nat);
    lemma_retreat_no_wrap(i, n, i);
    lemma_retreat_split(0, n, 1, (n - i - 1) as nat);
    assert(retreat(0, n, 0) == 0);
    assert(retreat(0, n, 1) == n - 1);
    lemma_retreat_no_wrap((n - 1) as nat, n, (n - i - 1) as nat);
}

/// Once a resolve request is issued for a candidate, no selection issues
/// another for it while that one is in flight; a resolved candidate is
/// never sent again either.
pub proof fn lemma_resolve_requested_once(menu: CompletionsMenu, provider_attached: bool)
    requires
        menu.inv(),
    ensures
        menu.resolve_target(provider_attached) matches Some(id) ==> forall|s: int|
            0 <= s < menu.entries@.len() ==> #[trigger] menu.resolve_target_given(
                provider_attached,
                s,
                CompletionsMenu::in_flight_after(menu.resolving@, Some(id)),
            ) != Some(id),
        forall|s: int|
            0 <= s < menu.entries@.len() ==> match #[trigger] menu.resolve_target_given(
                provider_attached,
                s,
                menu.resolving@,
            ) {
                Some(id) => !menu.completions@[id as int].resolved,
                None => true,
            },
{
}

} // verus!
