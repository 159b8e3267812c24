use code_context_menus::completions::{
    Anchor, AsideContent, CodeLabel, Completion, CompletionEntry, CompletionsMenu, Documentation,
    FuzzyMatch, InlineCompletionMenuHint, InlineCompletionText, ResolveOutcome,
};
use code_context_menus::menu::{
    empty_range, CodeContextMenu, ContextMenuOrigin, DisplayPoint, DisplayRow,
};
use code_context_menus::ranking::{PERFECT_SCORE, STRONG_MATCH_SCORE};
use std::ops::Range;

fn anchor() -> Anchor {
    Anchor { excerpt_id: 0, offset: 0 }
}

fn completion(label: &str, sort_text: Option<&str>) -> Completion {
    Completion {
        old_range: Range { start: anchor(), end: anchor() },
        new_text: label.to_string(),
        label: CodeLabel::plain(label.to_string()),
        server_id: 0,
        documentation: None,
        sort_text: sort_text.map(|s| s.to_string()),
        kind: None,
        resolved: false,
    }
}

fn menu(labels: &[(&str, Option<&str>)], sort: bool) -> CompletionsMenu {
    let completions = labels.iter().map(|(l, s)| completion(l, *s)).collect();
    CompletionsMenu::new(1, sort, true, anchor(), 7, completions)
}

fn fuzzy(candidate_id: usize, score: f64) -> FuzzyMatch {
    FuzzyMatch { candidate_id, score: score.to_bits(), positions: vec![0] }
}

fn listed(menu: &CompletionsMenu) -> Vec<(String, u64)> {
    menu.entries
        .iter()
        .filter_map(|e| match e {
            CompletionEntry::Match(m) => Some((m.string.clone(), m.score)),
            CompletionEntry::InlineCompletionHint(_) => None,
        })
        .collect()
}

fn hint(name: &str) -> InlineCompletionMenuHint {
    InlineCompletionMenuHint {
        provider_name: name.to_string(),
        text: InlineCompletionText::Move("line 3".to_string()),
    }
}

#[test]
fn uppercase_query_drops_lowercase_word_starts() {
    let mut m = menu(&[("CreateComponent", Some("b")), ("create_all", Some("a"))], true);
    let applied = m.filter(1, Some("Creat"), vec![fuzzy(0, 0.9), fuzzy(1, 0.5)]);
    assert!(applied);
    let l = listed(&m);
    assert_eq!(l.len(), 1);
    assert_eq!(l[0].0, "CreateComponent");
    assert!(l[0].1 >= STRONG_MATCH_SCORE);
    assert_eq!(m.selected_item, 0);
}

#[test]
fn lowercase_query_matches_word_starts_in_any_case() {
    let mut m = menu(&[("HelloWorld", None), ("aworld", None), ("say_world", None)], false);
    m.filter(1, Some("w"), vec![fuzzy(0, 0.5), fuzzy(1, 0.5), fuzzy(2, 0.5)]);
    let names: Vec<String> = listed(&m).into_iter().map(|(s, _)| s).collect();
    assert_eq!(names, vec!["HelloWorld".to_string(), "say_world".to_string()]);
}

#[test]
fn strong_matches_come_before_weak_ones() {
    let mut m = menu(&[("foo_weak", Some("a")), ("foo_strong", Some("z")), ("foo_best", Some("z"))], true);
    m.filter(1, Some("f"), vec![fuzzy(0, 0.1), fuzzy(1, 0.3), fuzzy(2, 0.8)]);
    let names: Vec<String> = listed(&m).into_iter().map(|(s, _)| s).collect();
    assert_eq!(names, vec!["foo_best".to_string(), "foo_strong".to_string(), "foo_weak".to_string()]);
}

#[test]
fn weak_matches_follow_the_sort_hint_then_the_score() {
    let mut m = menu(
        &[("fa", Some("b")), ("fb", Some("a")), ("fc", None), ("fd", Some("a"))],
        true,
    );
    m.filter(1, Some("f"), vec![fuzzy(0, 0.1), fuzzy(1, 0.05), fuzzy(2, 0.15), fuzzy(3, 0.1)]);
    let names: Vec<String> = listed(&m).into_iter().map(|(s, _)| s).collect();
    assert_eq!(names, vec!["fd".to_string(), "fb".to_string(), "fa".to_string(), "fc".to_string()]);
}

#[test]
fn strong_matches_of_equal_score_follow_the_sort_hint() {
    let mut m = menu(&[("fa", None), ("fb", Some("b")), ("fc", Some("a"))], true);
    m.filter(1, Some("f"), vec![fuzzy(0, 0.5), fuzzy(1, 0.5), fuzzy(2, 0.5)]);
    let names: Vec<String> = listed(&m).into_iter().map(|(s, _)| s).collect();
    assert_eq!(names, vec!["fc".to_string(), "fb".to_string(), "fa".to_string()]);
}

#[test]
fn without_sorting_the_matcher_order_is_kept() {
    let mut m = menu(&[("fa", Some("b")), ("fb", Some("a"))], false);
    m.filter(1, Some("f"), vec![fuzzy(0, 0.1), fuzzy(1, 0.9)]);
    let names: Vec<String> = listed(&m).into_iter().map(|(s, _)| s).collect();
    assert_eq!(names, vec!["fa".to_string(), "fb".to_string()]);
}

#[test]
fn absent_or_empty_query_lists_every_candidate_unscored() {
    let mut m = menu(&[("beta", None), ("alpha", None)], false);
    m.filter(1, None, vec![fuzzy(0, 0.9)]);
    assert_eq!(listed(&m), vec![("beta".to_string(), 0), ("alpha".to_string(), 0)]);
    m.filter(2, Some(""), Vec::new());
    assert_eq!(listed(&m), vec![("beta".to_string(), 0), ("alpha".to_string(), 0)]);
}

#[test]
fn stale_filter_results_are_dropped() {
    let mut m = menu(&[("fa", None), ("fb", None)], false);
    assert!(m.filter(5, Some("f"), vec![fuzzy(1, 0.5)]));
    assert!(!m.filter(4, Some("f"), vec![fuzzy(0, 0.5)]));
    assert_eq!(listed(&m), vec![("fb".to_string(), 0.5f64.to_bits())]);
    assert_eq!(m.last_filter, Some(5));
}

#[test]
fn filter_with_no_match_hides_the_menu() {
    let mut m = menu(&[("fa", None)], false);
    m.filter(1, Some("x"), Vec::new());
    assert!(!m.visible());
}

#[test]
fn navigation_wraps_around() {
    let mut m = menu(&[("a", None), ("b", None), ("c", None)], false);
    m.filter(1, None, Vec::new());
    m.select_prev(false);
    assert_eq!(m.selected_item, 2);
    m.select_next(false);
    assert_eq!(m.selected_item, 0);
    m.select_last(false);
    assert_eq!(m.selected_item, 2);
    m.select_first(false);
    assert_eq!(m.selected_item, 0);
}

#[test]
fn n_steps_return_to_the_same_entry() {
    let mut m = menu(&[("a", None), ("b", None), ("c", None), ("d", None)], false);
    m.filter(1, None, Vec::new());
    m.select_next(false);
    let start = m.selected_item;
    for _ in 0..4 {
        m.select_next(false);
    }
    assert_eq!(m.selected_item, start);
    for _ in 0..4 {
        m.select_prev(false);
    }
    assert_eq!(m.selected_item, start);
}

#[test]
fn inline_hint_goes_first_and_is_selected() {
    let mut m = menu(&[("a", None), ("b", None)], false);
    m.filter(1, None, Vec::new());
    m.select_last(false);
    m.show_inline_completion_hint(hint("Copilot"));
    assert_eq!(m.entries.len(), 3);
    assert_eq!(m.selected_item, 0);
    assert!(matches!(&m.entries[0], CompletionEntry::InlineCompletionHint(h) if h.provider_name == "Copilot"));
    m.show_inline_completion_hint(hint("Supermaven"));
    assert_eq!(m.entries.len(), 3);
    assert!(matches!(&m.entries[0], CompletionEntry::InlineCompletionHint(h) if h.provider_name == "Supermaven"));
    m.filter(2, None, Vec::new());
    assert_eq!(m.entries.len(), 3);
    assert!(matches!(&m.entries[0], CompletionEntry::InlineCompletionHint(_)));
}

#[test]
fn resolve_is_requested_once_per_candidate() {
    let mut m = menu(&[("a", None), ("b", None)], false);
    m.filter(1, None, Vec::new());
    assert_eq!(m.resolve_selected_completion(true), Some(0));
    assert_eq!(m.resolve_selected_completion(true), None);
    assert_eq!(m.select_next(true), Some(1));
    assert_eq!(m.select_prev(true), None);
    assert!(!m.finish_resolve(0, ResolveOutcome::Unchanged));
    assert!(m.completions[0].resolved);
    assert_eq!(m.resolve_selected_completion(true), None);
}

#[test]
fn resolve_needs_an_attached_source() {
    let mut m = menu(&[("a", None)], false);
    m.filter(1, None, Vec::new());
    assert_eq!(m.resolve_selected_completion(false), None);
    assert!(!m.resolving[0]);
}

#[test]
fn resolved_documentation_is_written_in_place() {
    let mut m = menu(&[("a", None)], false);
    m.filter(1, None, Vec::new());
    assert_eq!(m.resolve_selected_completion(true), Some(0));
    let docs = Documentation::MultiLinePlainText("docs".to_string());
    assert!(m.finish_resolve(0, ResolveOutcome::Changed(Some(docs))));
    assert!(m.completions[0].resolved);
    assert!(matches!(m.render_aside(), Some(AsideContent::PlainText(t)) if t == "docs"));
}

#[test]
fn failed_or_outdated_resolve_leaves_the_candidate() {
    let mut m = menu(&[("a", None), ("b", None)], false);
    m.filter(1, None, Vec::new());
    assert_eq!(m.resolve_selected_completion(true), Some(0));
    assert!(!m.finish_resolve(0, ResolveOutcome::Failed));
    assert!(!m.completions[0].resolved);
    assert_eq!(m.resolve_selected_completion(true), Some(0));
    m.select_next(false);
    let docs = Documentation::MultiLinePlainText("docs".to_string());
    assert!(!m.finish_resolve(0, ResolveOutcome::Changed(Some(docs))));
    assert!(!m.completions[0].resolved);
    assert!(m.completions[0].documentation.is_none());
    assert!(!m.resolving[0]);
}

#[test]
fn snippet_choices_are_listed_resolved_with_a_perfect_score() {
    let choices = vec!["i32".to_string(), "u32".to_string()];
    let mut m = CompletionsMenu::new_snippet_choices(3, false, &choices, Range { start: anchor(), end: anchor() }, 9);
    assert_eq!(m.entries.len(), 2);
    assert_eq!(PERFECT_SCORE, 1.0f64.to_bits());
    for (i, e) in m.entries.iter().enumerate() {
        match e {
            CompletionEntry::Match(s) => {
                assert_eq!(s.score, PERFECT_SCORE);
                assert_eq!(s.string, choices[i]);
            }
            CompletionEntry::InlineCompletionHint(_) => panic!("a hint among snippet choices"),
        }
    }
    assert!(!m.resolve_completions);
    assert!(!m.show_completion_documentation);
    assert_eq!(m.resolve_selected_completion(true), None);
    assert_eq!(m.select_next(true), None);
    assert_eq!(m.select_prev(true), None);
}

#[test]
fn filter_text_is_the_labels_filter_range() {
    let label = CodeLabel { text: "fn foo()".to_string(), filter_range: Range { start: 3, end: 6 } };
    assert_eq!(label.filter_text(), "foo");
    let mut c = completion("x", None);
    c.label = label;
    let m = CompletionsMenu::new(1, false, false, anchor(), 0, vec![c]);
    assert_eq!(m.match_candidates[0].string, "foo");
}

#[test]
fn aside_shows_multi_line_documentation_only() {
    let mut c = completion("a", None);
    c.documentation = Some(Documentation::SingleLine("one".to_string()));
    let mut d = completion("b", None);
    d.documentation = Some(Documentation::MultiLineMarkdown(String::new()));
    let mut m = CompletionsMenu::new(1, false, true, anchor(), 0, vec![c, d]);
    m.filter(1, None, Vec::new());
    assert!(m.render_aside().is_none());
    m.select_next(false);
    assert!(m.render_aside().is_none());
    m.show_inline_completion_hint(hint("Copilot"));
    assert!(matches!(m.render_aside(), Some(AsideContent::InlineMove(t)) if t == "line 3"));
}

#[test]
fn widest_entry_counts_single_line_documentation() {
    let mut c = completion("ab", None);
    c.documentation = Some(Documentation::SingleLine("12345".to_string()));
    let d = completion("abcdef", None);
    let e = completion("abcdefg", None);
    let mut m = CompletionsMenu::new(1, false, true, anchor(), 0, vec![c, d, e]);
    assert_eq!(m.widest_entry(), None);
    m.filter(1, None, Vec::new());
    assert_eq!(m.widest_entry(), Some(2));
    let mut c = completion("ab", None);
    c.documentation = Some(Documentation::SingleLine("123456".to_string()));
    let mut m = CompletionsMenu::new(1, false, true, anchor(), 0, vec![c, completion("abcdefgh", None)]);
    m.filter(1, None, Vec::new());
    assert_eq!(m.widest_entry(), Some(1));
}

#[test]
fn an_empty_menu_does_not_take_navigation() {
    let mut menu = CodeContextMenu::Completions(menu(&[("a", None)], false));
    assert!(!menu.visible());
    let outcome = menu.select_next(true);
    assert!(!outcome.handled);
    assert_eq!(outcome.resolve, None);
}

#[test]
fn a_visible_menu_takes_navigation_even_with_one_entry() {
    let mut m = menu(&[("a", None)], false);
    m.filter(1, None, Vec::new());
    let mut menu = CodeContextMenu::Completions(m);
    let outcome = menu.select_next(true);
    assert!(outcome.handled);
    assert_eq!(outcome.resolve, Some(0));
    let point = DisplayPoint::new(DisplayRow(4), 2);
    assert_eq!(menu.origin(point), ContextMenuOrigin::EditorPoint(point));
}

#[test]
fn empty_range_starts_and_ends_at_the_point() {
    let r = empty_range(3, 5);
    assert_eq!(r.start, r.end);
    assert_eq!(r.start, DisplayPoint::new(DisplayRow(3), 5));
}
