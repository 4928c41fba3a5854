//! The bridge between the command line and the native messaging host: JSON
//! lines over a Unix socket, and the JSON requests handed to the extension.

use vstd::prelude::*;
use crate::config::{match_mode_name, open_mode_name, target_request, Target};
use crate::json::{
    json_bool_member, json_from_bool, json_from_map, json_from_optional_text, json_from_pairs,
    json_from_text, json_get_bool, json_insert, json_map_insert, json_object_from_str,
    json_object_from_text, json_object_of, json_of_bool, json_of_map, json_of_optional_text,
    json_of_text, json_value_from_str, json_value_from_text,
};

verus! {

/// Parses a client's request line as a JSON object: what `serde_json` parses
/// the line to, or the parser's error text.
pub fn parse_bridge_request(line: &str) -> (res: Result<serde_json::Map<String, serde_json::Value>, String>)
    ensures
        match res {
            Ok(m) => json_object_from_text(line@) == Ok::<
                serde_json::Map<String, serde_json::Value>,
                Seq<char>,
            >(m),
            Err(e) => json_object_from_text(line@) == Err::<
                serde_json::Map<String, serde_json::Value>,
                Seq<char>,
            >(e@),
        },
{
    json_object_from_str(line)
}

/// Parses the host's reply line as a JSON value: what `serde_json` parses
/// the line to, or the parser's error text.
pub fn parse_bridge_reply(line: &str) -> (res: Result<serde_json::Value, String>)
    ensures
        match res {
            Ok(v) => json_value_from_text(line@) == Ok::<serde_json::Value, Seq<char>>(v),
            Err(e) => json_value_from_text(line@) == Err::<serde_json::Value, Seq<char>>(e@),
        },
{
    json_value_from_str(line)
}

/// The client's request as handed to the extension: the object with `type`
/// set to `request` and `requestId` set to `request_id`.
pub fn bridge_request(request: serde_json::Map<String, serde_json::Value>, request_id: &str) -> (res:
    serde_json::Value)
    ensures
        res == json_of_map(
            json_map_insert(
                json_map_insert(request, "type"@, json_of_text("request"@)),
                "requestId"@,
                json_of_text(request_id@),
            ),
        ),
{
    let mut request = request;
    json_insert(&mut request, String::from_str("type"), json_from_text(String::from_str("request")));
    json_insert(&mut request, String::from_str("requestId"), json_from_text(String::from_str(request_id)));
    json_from_map(request)
}

/// Whether a reply says that the extension did what was asked: its `ok`
/// member is `true`.
pub fn reply_ok(reply: &serde_json::Value) -> (res: bool)
    ensures
        res == (json_bool_member(*reply, "ok"@) == Some(true)),
{
    match json_get_bool(reply, "ok") {
        Some(b) => b,
        None => false,
    }
}

/// The reply to a client whose request failed: `ok` false, and the error.
pub fn failure_reply(error: &str) -> (res: serde_json::Value)
    ensures
        res == json_object_of(seq![("ok"@, json_of_bool(false)), ("error"@, json_of_text(error@))]),
{
    let pairs = vec![
        (String::from_str("ok"), json_from_bool(false)),
        (String::from_str("error"), json_from_text(String::from_str(error))),
    ];
    let res = json_from_pairs(pairs);
    assert(Seq::new(pairs@.len(), |i: int| (pairs@[i].0@, pairs@[i].1)) =~= seq![
        ("ok"@, json_of_bool(false)),
        ("error"@, json_of_text(error@)),
    ]);
    res
}

/// The request that asks the extension to focus the tab `id`.
pub fn focus_tab_request(id: &str) -> (res: serde_json::Value)
    ensures
        res == json_object_of(
            seq![("action"@, json_of_text("focus-tab"@)), ("tabId"@, json_of_text(id@))],
        ),
{
    let pairs = vec![
        (String::from_str("action"), json_from_text(String::from_str("focus-tab"))),
        (String::from_str("tabId"), json_from_text(String::from_str(id))),
    ];
    let res = json_from_pairs(pairs);
    assert(Seq::new(pairs@.len(), |i: int| (pairs@[i].0@, pairs@[i].1)) =~= seq![
        ("action"@, json_of_text("focus-tab"@)),
        ("tabId"@, json_of_text(id@)),
    ]);
    res
}

/// The request that asks the extension to open the saved target `id`.
pub fn target_request_json(id: &str, target: &Target) -> (res: serde_json::Value)
    ensures
        res == json_object_of(
            seq![
                ("action"@, json_of_text("open-target"@)),
                ("targetId"@, json_of_text(id@)),
                ("url"@, json_of_text(target.url@)),
                ("match"@, json_of_text(match_mode_name(target.match_mode))),
                ("open"@, json_of_text(open_mode_name(target.open))),
                ("container"@, json_of_optional_text(target.container.deep_view())),
            ],
        ),
{
    let request = target_request(id, target);
    let pairs = vec![
        (String::from_str("action"), json_from_text(String::from_str(request.action()))),
        (String::from_str("targetId"), json_from_text(request.target_id)),
        (String::from_str("url"), json_from_text(request.url)),
        (String::from_str("match"), json_from_text(String::from_str(request.match_mode))),
        (String::from_str("open"), json_from_text(String::from_str(request.open))),
        (String::from_str("container"), json_from_optional_text(request.container)),
    ];
    let res = json_from_pairs(pairs);
    assert(Seq::new(pairs@.len(), |i: int| (pairs@[i].0@, pairs@[i].1)) =~= seq![
        ("action"@, json_of_text("open-target"@)),
        ("targetId"@, json_of_text(id@)),
        ("url"@, json_of_text(target.url@)),
        ("match"@, json_of_text(match_mode_name(target.match_mode))),
        ("open"@, json_of_text(open_mode_name(target.open))),
        ("container"@, json_of_optional_text(target.container.deep_view())),
    ]);
    res
}

} // verus!
