//! The code-actions menu: runnable tasks and code actions listed as one
//! sequence, tasks first, without copying either collection.
use crate::completions::{next_index, prev_index, Anchor, BufferId};
use crate::menu::{ContextMenuOrigin, DisplayPoint, DisplayRow};
use vstd::prelude::*;

verus! {

/// `s` without its line breaks.
pub open spec fn without_newlines(s: Seq<char>) -> Seq<char>
    decreases s.len(),
{
    if s.len() == 0 {
        seq![]
    } else if s.last() == '\n' {
        without_newlines(s.drop_last())
    } else {
        without_newlines(s.drop_last()).push(s.last())
    }
}

/// The text with its line breaks removed, for showing on one line.
pub fn remove_newlines(text: &str) -> (r: String)
    ensures
        r@ == without_newlines(text@),
{
    let n = text.unicode_len();
    let ghost s = text@;
    let mut r = String::new();
    let mut start: usize = 0;
    let mut i: usize = 0;
    while i < n
        invariant
            s == text@,
            n == s.len(),
            start <= i <= n,
            r@ + s.subrange(start as int, i as int) == without_newlines(s.take(i as int)),
        decreases n - i,
    {
        let c = text.get_char(i);
        proof {
            assert(s.take(i + 1).drop_last() =~= s.take(i as int));
            assert(s.take(i + 1).last() == c);
        }
        if c == '\n' {
            r.append(text.substring_char(start, i));
            start = i + 1;
            proof {
                assert(s.subrange(start as int, i + 1) =~= seq![]);
                assert(r@ + s.subrange(start as int, i + 1) =~= r@);
            }
        } else {
            proof {
                assert(s.subrange(start as int, i + 1) =~= s.subrange(start as int, i as int).push(c));
                assert(r@ + s.subrange(start as int, i + 1) =~= (r@ + s.subrange(
                    start as int,
                    i as int,
                )).push(c));
            }
        }
        i = i + 1;
    }
    r.append(text.substring_char(start, n));
    proof {
        assert(s.take(n as int) =~= s);
    }
    r
}

/// Where a task template comes from.
pub enum TaskSourceKind {
    UserInput,
    AbsPath { id_base: String, abs_path: String },
    Worktree { id: usize, directory_in_worktree: String, id_base: String },
    Language { name: String },
}

impl TaskSourceKind {
    /// An equal source kind, owned.
    pub fn duplicate(&self) -> (r: Self)
        ensures
            r == *self,
    {
        match self {
            TaskSourceKind::UserInput => TaskSourceKind::UserInput,
            TaskSourceKind::AbsPath { id_base, abs_path } => TaskSourceKind::AbsPath {
                id_base: id_base.clone(),
                abs_path: abs_path.clone(),
            },
            TaskSourceKind::Worktree { id, directory_in_worktree, id_base } => TaskSourceKind::Worktree {
                id: *id,
                directory_in_worktree: directory_in_worktree.clone(),
                id_base: id_base.clone(),
            },
            TaskSourceKind::Language { name } => TaskSourceKind::Language { name: name.clone() },
        }
    }
}

/// A task whose template has been filled in.
pub struct ResolvedTask {
    pub id: String,
    pub resolved_label: String,
}

impl ResolvedTask {
    /// An equal task, owned.
    pub fn duplicate(&self) -> (r: Self)
        ensures
            r == *self,
    {
        ResolvedTask { id: self.id.clone(), resolved_label: self.resolved_label.clone() }
    }
}

/// The tasks available at a position, in the order they are offered.
pub struct ResolvedTasks {
    pub templates: Vec<(TaskSourceKind, ResolvedTask)>,
    pub position: Anchor,
}

/// A code action offered by a language server.
pub struct CodeAction {
    pub server_id: usize,
    pub title: String,
    pub kind: Option<String>,
}

impl CodeAction {
    /// An equal action, owned.
    pub fn duplicate(&self) -> (r: Self)
        ensures
            r == *self,
    {
        CodeAction {
            server_id: self.server_id,
            title: self.title.clone(),
            kind: match &self.kind {
                Some(k) => Some(k.clone()),
                None => None,
            },
        }
    }
}

/// A code action together with the excerpt it applies to and the provider
/// that offered it.
pub struct AvailableCodeAction {
    pub excerpt_id: usize,
    pub action: CodeAction,
    pub provider: usize,
}

/// One item of the code-actions menu.
pub enum CodeActionsItem {
    Task(TaskSourceKind, ResolvedTask),
    CodeAction { excerpt_id: usize, action: CodeAction, provider: usize },
}

impl CodeActionsItem {
    /// The task, if this item is one.
    pub fn as_task(&self) -> (r: Option<&ResolvedTask>)
        ensures
            r == match self {
                CodeActionsItem::Task(_, task) => Some(task),
                CodeActionsItem::CodeAction { .. } => None,
            },
    {
        match self {
            CodeActionsItem::Task(_, task) => Some(task),
            CodeActionsItem::CodeAction { .. } => None,
        }
    }

    /// The code action, if this item is one.
    pub fn as_code_action(&self) -> (r: Option<&CodeAction>)
        ensures
            r == match self {
                CodeActionsItem::Task(..) => None,
                CodeActionsItem::CodeAction { action, .. } => Some(action),
            },
    {
        match self {
            CodeActionsItem::Task(..) => None,
            CodeActionsItem::CodeAction { action, .. } => Some(action),
        }
    }

    /// The item's label as the menu shows it, on one line.
    pub fn display_label(&self) -> (r: String)
        ensures
            r@ == without_newlines(self.label_spec()),
    {
        match self {
            CodeActionsItem::CodeAction { action, .. } => remove_newlines(action.title.as_str()),
            CodeActionsItem::Task(_, task) => remove_newlines(task.resolved_label.as_str()),
        }
    }

    pub open spec fn label_spec(&self) -> Seq<char> {
        match self {
            CodeActionsItem::Task(_, task) => task.resolved_label@,
            CodeActionsItem::CodeAction { action, .. } => action.title@,
        }
    }

    /// The text shown for the item: the action's title or the task's label.
    pub fn label(&self) -> (r: String)
        ensures
            r@ == match self {
                CodeActionsItem::Task(_, task) => task.resolved_label@,
                CodeActionsItem::CodeAction { action, .. } => action.title@,
            },
    {
        match self {
            CodeActionsItem::CodeAction { action, .. } => action.title.clone(),
            CodeActionsItem::Task(_, task) => task.resolved_label.clone(),
        }
    }
}

/// The tasks and the code actions of one menu.
pub struct CodeActionContents {
    pub tasks: Option<ResolvedTasks>,
    pub actions: Option<Vec<AvailableCodeAction>>,
}

impl CodeActionContents {
    pub open spec fn task_seq(&self) -> Seq<(TaskSourceKind, ResolvedTask)> {
        match self.tasks {
            Some(t) => t.templates@,
            None => seq![],
        }
    }

    pub open spec fn action_seq(&self) -> Seq<AvailableCodeAction> {
        match self.actions {
            Some(a) => a@,
            None => seq![],
        }
    }

    /// The number of items: the tasks and the actions together.
    pub open spec fn len_spec(&self) -> nat {
        self.task_seq().len() + self.action_seq().len()
    }

    /// The item count fits in a `usize`.
    pub open spec fn wf(&self) -> bool {
        self.len_spec() <= usize::MAX
    }

    /// Item `i`: task `i` when there are more tasks than `i`, else action
    /// `i` less the number of tasks.
    pub open spec fn item_at(&self, i: int) -> CodeActionsItem {
        if i < self.task_seq().len() {
            CodeActionsItem::Task(self.task_seq()[i].0, self.task_seq()[i].1)
        } else {
            let a = self.action_seq()[i - self.task_seq().len()];
            CodeActionsItem::CodeAction {
                excerpt_id: a.excerpt_id,
                action: a.action,
                provider: a.provider,
            }
        }
    }

    /// All items in order.
    pub open spec fn items(&self) -> Seq<CodeActionsItem> {
        Seq::new(self.len_spec(), |i: int| self.item_at(i))
    }

    fn task_count(&self) -> (r: usize)
        ensures
            r == self.task_seq().len(),
    {
        match &self.tasks {
            Some(t) => t.templates.len(),
            None => 0,
        }
    }

    fn action_count(&self) -> (r: usize)
        ensures
            r == self.action_seq().len(),
    {
        match &self.actions {
            Some(a) => a.len(),
            None => 0,
        }
    }

    /// The number of items.
    pub fn len(&self) -> (r: usize)
        requires
            self.wf(),
        ensures
            r == self.len_spec(),
    {
        self.task_count() + self.action_count()
    }

    /// Whether there are no items.
    pub fn is_empty(&self) -> (r: bool)
        ensures
            r == (self.len_spec() == 0),
    {
        self.task_count() == 0 && self.action_count() == 0
    }

    /// Item `index`, or `None` past the last.
    pub fn get(&self, index: usize) -> (r: Option<CodeActionsItem>)
        ensures
            r == if index < self.len_spec() {
                Some(self.item_at(index as int))
            } else {
                None
            },
    {
        let tasks = self.task_count();
        if index < tasks {
            match &self.tasks {
                Some(t) => {
                    let (kind, task) = &t.templates[index];
                    Some(CodeActionsItem::Task(kind.duplicate(), task.duplicate()))
                },
                None => None,
            }
        } else {
            match &self.actions {
                Some(actions) => {
                    if index - tasks < actions.len() {
                        let a = &actions[index - tasks];
                        Some(
                            CodeActionsItem::CodeAction {
                                excerpt_id: a.excerpt_id,
                                action: a.action.duplicate(),
                                provider: a.provider,
                            },
                        )
                    } else {
                        None
                    }
                },
                None => None,
            }
        }
    }

    /// All items in order, tasks first.
    pub fn iter(&self) -> (r: Vec<CodeActionsItem>)
        requires
            self.wf(),
        ensures
            r@ == self.items(),
    {
        let n = self.len();
        let mut r: Vec<CodeActionsItem> = Vec::new();
        let mut i: usize = 0;
        while i < n
            invariant
                n == self.len_spec(),
                i <= n,
                r@ == self.items().take(i as int),
            decreases n - i,
        {
            match self.get(i) {
                Some(item) => {
                    r.push(item);
                },
                None => {},
            }
            proof {
                assert(self.items().take(i + 1) =~= self.items().take(i as int).push(
                    self.item_at(i as int),
                ));
            }
            i = i + 1;
        }
        proof {
            assert(self.items().take(n as int) =~= self.items());
        }
        r
    }
}

/// The code-actions menu.
pub struct CodeActionsMenu {
    pub actions: CodeActionContents,
    pub buffer: BufferId,
    pub selected_item: usize,
    /// The row whose gutter indicator opened the menu, if it was opened so.
    pub deployed_from_indicator: Option<DisplayRow>,
}

impl CodeActionsMenu {
    /// The items fit in a `usize` and the selection lies among them.
    pub open spec fn inv(&self) -> bool {
        &&& self.actions.wf()
        &&& (self.actions.len_spec() > 0 ==> self.selected_item < self.actions.len_spec())
    }

    /// The menu is shown when it has at least one item.
    pub open spec fn visible_spec(&self) -> bool {
        self.actions.len_spec() > 0
    }

    /// Selects the first item; nothing happens when there is none.
    pub fn select_first(&mut self)
        requires
            old(self).inv(),
        ensures
            final(self).inv(),
            final(self).actions == old(self).actions,
            final(self).buffer == old(self).buffer,
            final(self).deployed_from_indicator == old(self).deployed_from_indicator,
            final(self).selected_item == if old(self).actions.len_spec() == 0 {
                old(self).selected_item
            } else {
                0
            },
    {
        if !self.actions.is_empty() {
            self.selected_item = 0;
        }
    }

    /// Selects the item before the selected one, the last after the first;
    /// nothing happens when there is none.
    pub fn select_prev(&mut self)
        requires
            old(self).inv(),
        ensures
            final(self).inv(),
            final(self).actions == old(self).actions,
            final(self).buffer == old(self).buffer,
            final(self).deployed_from_indicator == old(self).deployed_from_indicator,
            final(self).selected_item == if old(self).actions.len_spec() == 0 {
                old(self).selected_item as nat
            } else {
                prev_index(old(self).selected_item as nat, old(self).actions.len_spec())
            },
    {
        let n = self.actions.len();
        if n == 0 {
            return;
        }
        if self.selected_item > 0 {
            self.selected_item = self.selected_item - 1;
        } else {
            self.selected_item = n - 1;
        }
    }

    /// Selects the item after the selected one, the first after the last;
    /// nothing happens when there is none.
    pub fn select_next(&mut self)
        requires
            old(self).inv(),
        ensures
            final(self).inv(),
            final(self).actions == old(self).actions,
            final(self).buffer == old(self).buffer,
            final(self).deployed_from_indicator == old(self).deployed_from_indicator,
            final(self).selected_item == if old(self).actions.len_spec() == 0 {
                old(self).selected_item as nat
            } else {
                next_index(old(self).selected_item as nat, old(self).actions.len_spec())
            },
    {
        let n = self.actions.len();
        if n == 0 {
            return;
        }
        if self.selected_item + 1 < n {
            self.selected_item = self.selected_item + 1;
        } else {
            self.selected_item = 0;
        }
    }

    /// Selects the last item; nothing happens when there is none.
    pub fn select_last(&mut self)
        requires
            old(self).inv(),
        ensures
            final(self).inv(),
            final(self).actions == old(self).actions,
            final(self).buffer == old(self).buffer,
            final(self).deployed_from_indicator == old(self).deployed_from_indicator,
            final(self).selected_item == if old(self).actions.len_spec() == 0 {
                old(self).selected_item as int
            } else {
                old(self).actions.len_spec() - 1
            },
    {
        let n = self.actions.len();
        if n == 0 {
            return;
        }
        self.selected_item = n - 1;
    }

    /// The menu is shown when it has at least one item.
    pub fn visible(&self) -> (r: bool)
        ensures
            r == self.visible_spec(),
    {
        !self.actions.is_empty()
    }

    /// At the gutter indicator that opened the menu, else at the cursor.
    pub fn origin(&self, cursor_position: DisplayPoint) -> (r: ContextMenuOrigin)
        ensures
            r == match self.deployed_from_indicator {
                Some(row) => ContextMenuOrigin::GutterIndicator(row),
                None => ContextMenuOrigin::EditorPoint(cursor_position),
            },
    {
        match self.deployed_from_indicator {
            Some(row) => ContextMenuOrigin::GutterIndicator(row),
            None => ContextMenuOrigin::EditorPoint(cursor_position),
        }
    }

    /// The item the menu's width is sized for: the last of those with the
    /// longest label.
    pub fn widest_item(&self) -> (r: Option<usize>)
        requires
            self.inv(),
        ensures
            r is None <==> self.actions.len_spec() == 0,
            r matches Some(w) ==> w < self.actions.len_spec() && (forall|j: int|
                0 <= j <= w ==> self.actions.item_at(j).label_spec().len() <= self.actions.item_at(
                    w as int,
                ).label_spec().len()) && (forall|j: int|
                w < j < self.actions.len_spec() ==> self.actions.item_at(j).label_spec().len()
                    < self.actions.item_at(w as int).label_spec().len()),
    {
        let items = self.actions.iter();
        let n = items.len();
        if n == 0 {
            return None;
        }
        let mut best: usize = 0;
        let mut best_width = items[0].label().as_str().unicode_len();
        let mut i: usize = 1;
        while i < n
            invariant
                items@ == self.actions.items(),
                n == items@.len(),
                1 <= i <= n,
                best < i,
                best_width == self.actions.item_at(best as int).label_spec().len(),
                forall|j: int| 0 <= j < i ==> self.actions.item_at(j).label_spec().len() <= best_width,
                forall|j: int| best < j < i ==> self.actions.item_at(j).label_spec().len() < best_width,
            decreases n - i,
        {
            let w = items[i].label().as_str().unicode_len();
            if w >= best_width {
                best = i;
                best_width = w;
            }
            i = i + 1;
        }
        Some(best)
    }

}

} // verus!
