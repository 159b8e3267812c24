//! Framing of a completion service's streamed lines as server-sent events,
//! and when a request is retried with a fresh token.
use vstd::prelude::*;

verus! {

/// The `"type"` member of the JSON object that `line` holds, when `line`
/// parses as JSON and that member is a string.
pub uninterp spec fn json_event_type(line: Seq<char>) -> Option<Seq<char>>;

/// Relies on `serde_json::from_str` and `serde_json::Value::get`: parses the
/// line and reads its `"type"` member, kept only when it is a string.
#[verifier::external_body]
fn event_type_of(line: &str) -> (r: Option<String>)
    ensures
        match r {
            Some(t) => json_event_type(line@) == Some(t@),
            None => json_event_type(line@) is None,
        },
{
    match serde_json::from_str::<serde_json::Value>(line) {
        Ok(json) => match json.get("type") {
            Some(serde_json::Value::String(t)) => Some(t.clone()),
            _ => None,
        },
        Err(_) => None,
    }
}

/// An event of the given type, if any, whose data is `line`.
pub open spec fn sse_frame_spec(event_type: Option<Seq<char>>, line: Seq<char>) -> Seq<char> {
    match event_type {
        Some(t) => "event: "@ + t + "\ndata: "@ + line + "\n\n"@,
        None => "data: "@ + line + "\n\n"@,
    }
}

/// Frames `line` as a server-sent event, named by `event_type` if given.
pub fn sse_frame(event_type: Option<&str>, line: &str) -> (r: String)
    ensures
        r@ == sse_frame_spec(
            match event_type {
                Some(t) => Some(t@),
                None => None,
            },
            line@,
        ),
{
    let mut r = match event_type {
        Some(t) => {
            let mut r = String::from_str("event: ");
            r.append(t);
            r.append("\ndata: ");
            r
        },
        None => String::from_str("data: "),
    };
    r.append(line);
    r.append("\n\n");
    r
}

/// Frames a streamed line as a server-sent event, named after the line's
/// `"type"` member when it is a JSON object with a string one.
pub fn format_sse_line(line: &str) -> (r: String)
    ensures
        r@ == sse_frame_spec(json_event_type(line@), line@),
{
    let event_type = event_type_of(line);
    match &event_type {
        Some(t) => sse_frame(Some(t.as_str()), line),
        None => sse_frame(None, line),
    }
}

/// What to do with a response of the completion service.
#[derive(Debug, PartialEq, Eq, Structural, Clone, Copy)]
pub enum ResponseAction {
    /// Hand the response on, whether it succeeded or not.
    Accept,
    /// Fetch a new token and send the request again.
    RefreshTokenAndRetry,
}

/// A failed response that says the token expired is retried once with a
/// fresh token; every other response is handed on.
pub fn response_action(success: bool, token_expired: bool, did_retry: bool) -> (r: ResponseAction)
    ensures
        r == if !success && token_expired && !did_retry {
            ResponseAction::RefreshTokenAndRetry
        } else {
            ResponseAction::Accept
        },
{
    if !success && token_expired && !did_retry {
        ResponseAction::RefreshTokenAndRetry
    } else {
        ResponseAction::Accept
    }
}

} // verus!
