use code_context_menus::code_actions::{
    remove_newlines, AvailableCodeAction, CodeAction, CodeActionContents, CodeActionsItem, CodeActionsMenu,
    ResolvedTask, ResolvedTasks, TaskSourceKind,
};
use code_context_menus::completions::Anchor;
use code_context_menus::menu::{CodeContextMenu, ContextMenuOrigin, DisplayPoint, DisplayRow};

fn task(label: &str) -> (TaskSourceKind, ResolvedTask) {
    (
        TaskSourceKind::UserInput,
        ResolvedTask { id: format!("id-{label}"), resolved_label: label.to_string() },
    )
}

fn action(title: &str) -> AvailableCodeAction {
    AvailableCodeAction {
        excerpt_id: 1,
        action: CodeAction { server_id: 0, title: title.to_string(), kind: None },
        provider: 2,
    }
}

fn contents(tasks: &[&str], actions: &[&str]) -> CodeActionContents {
    CodeActionContents {
        tasks: Some(ResolvedTasks {
            templates: tasks.iter().map(|t| task(t)).collect(),
            position: Anchor { excerpt_id: 0, offset: 0 },
        }),
        actions: Some(actions.iter().map(|a| action(a)).collect()),
    }
}

#[test]
fn tasks_come_before_actions() {
    let c = contents(&["build", "test"], &["fix", "rename", "extract"]);
    assert_eq!(c.len(), 5);
    assert!(!c.is_empty());
    assert!(matches!(c.get(0), Some(CodeActionsItem::Task(_, t)) if t.resolved_label == "build"));
    assert!(matches!(c.get(1), Some(CodeActionsItem::Task(_, t)) if t.resolved_label == "test"));
    let titles: Vec<String> = (2..5)
        .map(|i| c.get(i).and_then(|item| item.as_code_action().map(|a| a.title.clone())).unwrap())
        .collect();
    assert_eq!(titles, vec!["fix".to_string(), "rename".to_string(), "extract".to_string()]);
    assert!(c.get(5).is_none());
    let labels: Vec<String> = c.iter().iter().map(|i| i.label()).collect();
    assert_eq!(labels, vec!["build", "test", "fix", "rename", "extract"]);
}

#[test]
fn missing_collections_count_as_empty() {
    let c = CodeActionContents { tasks: None, actions: None };
    assert_eq!(c.len(), 0);
    assert!(c.is_empty());
    assert!(c.get(0).is_none());
    let c = CodeActionContents { tasks: None, actions: Some(vec![action("fix")]) };
    assert_eq!(c.len(), 1);
    assert!(c.get(0).unwrap().as_task().is_none());
    assert_eq!(c.get(0).unwrap().label(), "fix");
}

#[test]
fn code_action_navigation_wraps_around() {
    let mut m = CodeActionsMenu {
        actions: contents(&["build"], &["fix", "rename"]),
        buffer: 0,
        selected_item: 0,
        deployed_from_indicator: None,
    };
    m.select_prev();
    assert_eq!(m.selected_item, 2);
    m.select_next();
    assert_eq!(m.selected_item, 0);
    m.select_last();
    assert_eq!(m.selected_item, 2);
    m.select_first();
    assert_eq!(m.selected_item, 0);
}

#[test]
fn origin_is_the_gutter_row_when_opened_from_it() {
    let point = DisplayPoint::new(DisplayRow(8), 1);
    let gutter = CodeActionsMenu {
        actions: contents(&["build"], &[]),
        buffer: 0,
        selected_item: 0,
        deployed_from_indicator: Some(DisplayRow(3)),
    };
    assert_eq!(gutter.origin(point), ContextMenuOrigin::GutterIndicator(DisplayRow(3)));
    let cursor = CodeActionsMenu { deployed_from_indicator: None, ..gutter };
    assert_eq!(cursor.origin(point), ContextMenuOrigin::EditorPoint(point));
    let menu = CodeContextMenu::CodeActions(cursor);
    assert!(menu.render_aside().is_none());
}

#[test]
fn code_actions_menu_reports_navigation_handled_when_visible() {
    let mut menu = CodeContextMenu::CodeActions(CodeActionsMenu {
        actions: contents(&[], &["fix"]),
        buffer: 0,
        selected_item: 0,
        deployed_from_indicator: None,
    });
    let outcome = menu.select_next(true);
    assert!(outcome.handled);
    assert_eq!(outcome.resolve, None);
    let mut empty = CodeContextMenu::CodeActions(CodeActionsMenu {
        actions: contents(&[], &[]),
        buffer: 0,
        selected_item: 0,
        deployed_from_indicator: None,
    });
    assert!(!empty.select_prev(true).handled);
}

#[test]
fn labels_are_shown_on_one_line() {
    assert_eq!(remove_newlines("a\nb\n\nc\n"), "abc");
    assert_eq!(remove_newlines(""), "");
    let c = contents(&["run\ntests"], &["fix\nall"]);
    assert_eq!(c.get(0).unwrap().display_label(), "runtests");
    assert_eq!(c.get(1).unwrap().display_label(), "fixall");
    assert_eq!(c.get(1).unwrap().label(), "fix\nall");
}

#[test]
fn widest_item_is_the_last_longest_label() {
    let m = CodeActionsMenu {
        actions: contents(&["build"], &["fix", "renam", "ab"]),
        buffer: 0,
        selected_item: 0,
        deployed_from_indicator: None,
    };
    assert_eq!(m.widest_item(), Some(2));
    let empty = CodeActionsMenu { actions: contents(&[], &[]), ..m };
    assert_eq!(empty.widest_item(), None);
}
