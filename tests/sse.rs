use code_context_menus::label::{LabelSize, LineHeightStyle};
use code_context_menus::sse::{format_sse_line, response_action, sse_frame, ResponseAction};

#[test]
fn json_lines_with_a_type_become_named_events() {
    let line = r#"{"type":"message_start","id":1}"#;
    assert_eq!(format_sse_line(line), format!("event: message_start\ndata: {line}\n\n"));
}

#[test]
fn other_lines_become_plain_data() {
    assert_eq!(format_sse_line("not json"), "data: not json\n\n");
    assert_eq!(format_sse_line(r#"{"type":3}"#), "data: {\"type\":3}\n\n");
    assert_eq!(format_sse_line(r#"{"kind":"x"}"#), "data: {\"kind\":\"x\"}\n\n");
}

#[test]
fn frames_are_built_from_the_event_type() {
    assert_eq!(sse_frame(Some("ping"), "{}"), "event: ping\ndata: {}\n\n");
    assert_eq!(sse_frame(None, "{}"), "data: {}\n\n");
}

#[test]
fn an_expired_token_is_refreshed_once() {
    assert_eq!(response_action(false, true, false), ResponseAction::RefreshTokenAndRetry);
    assert_eq!(response_action(false, true, true), ResponseAction::Accept);
    assert_eq!(response_action(false, false, false), ResponseAction::Accept);
    assert_eq!(response_action(true, true, false), ResponseAction::Accept);
}

#[test]
fn label_settings_default() {
    assert_eq!(LabelSize::default(), LabelSize::Default);
    assert!(LabelSize::Default < LabelSize::XSmall);
    assert!(LineHeightStyle::default() == LineHeightStyle::TextLabel);
}
