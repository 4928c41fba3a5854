//! The launcher's command line: which command the arguments name, and what
//! opening a saved target comes to once the browser has answered.

use vstd::prelude::*;
use crate::config::{OpenMode, Target};
use crate::text::same_text;

verus! {

/// A command of the launcher's command line.
pub enum Command {
    /// Rewrite the target entries (after removing the tab entries).
    SyncTargets,
    /// Remove every entry of the launcher.
    ClearEntries,
    /// Focus the tab `id`, or open `url` where the browser has no such tab.
    FocusTab { id: String, url: String },
    /// Open the saved target `id`.
    Open { id: String },
}

/// The usage message.
pub open spec fn usage_message() -> Seq<char> {
    "usage: zen-tab <focus-tab TAB_ID URL|open TARGET|sync-targets|clear-entries>"@
}

/// The command that `args` (without the program name) name, or the usage message.
pub fn parse_command(args: &[String]) -> (res: Result<Command, String>)
    ensures
        (args@.len() == 1 && args@[0]@ == "sync-targets"@) ==> res matches Ok(Command::SyncTargets),
        (args@.len() == 1 && args@[0]@ != "sync-targets"@ && args@[0]@ == "clear-entries"@) ==> res matches Ok(
            Command::ClearEntries,
        ),
        (args@.len() == 3 && args@[0]@ == "focus-tab"@) ==> (res matches Ok(
            Command::FocusTab { id, url },
        ) && id@ == args@[1]@ && url@ == args@[2]@),
        (args@.len() == 2 && args@[0]@ == "open"@) ==> (res matches Ok(Command::Open { id })
            && id@ == args@[1]@),
        !((args@.len() == 1 && (args@[0]@ == "sync-targets"@ || args@[0]@ == "clear-entries"@)) || (
        args@.len() == 3 && args@[0]@ == "focus-tab"@) || (args@.len() == 2 && args@[0]@
            == "open"@)) ==> (res matches Err(m) && m@ == usage_message()),
{
    let n = args.len();
    if n == 1 && same_text(args[0].as_str(), "sync-targets") {
        return Ok(Command::SyncTargets);
    }
    if n == 1 && same_text(args[0].as_str(), "clear-entries") {
        return Ok(Command::ClearEntries);
    }
    if n == 3 && same_text(args[0].as_str(), "focus-tab") {
        return Ok(Command::FocusTab { id: args[1].clone(), url: args[2].clone() });
    }
    if n == 2 && same_text(args[0].as_str(), "open") {
        return Ok(Command::Open { id: args[1].clone() });
    }
    Err(String::from_str("usage: zen-tab <focus-tab TAB_ID URL|open TARGET|sync-targets|clear-entries>"))
}

/// Whether the first argument names a command of the command line; the
/// launcher otherwise runs as the browser's native messaging host.
pub fn is_cli_command(first: Option<&String>) -> (res: bool)
    ensures
        res == (first matches Some(a) && (a@ == "focus-tab"@ || a@ == "open"@ || a@
            == "sync-targets"@ || a@ == "clear-entries"@)),
{
    match first {
        Some(a) => same_text(a.as_str(), "focus-tab") || same_text(a.as_str(), "open") || same_text(
            a.as_str(),
            "sync-targets",
        ) || same_text(a.as_str(), "clear-entries"),
        None => false,
    }
}

/// What opening the saved target `id` comes to once the browser has answered:
/// nothing more where a tab was found (`answered`); else an error for a
/// target that only focuses, or its URL to launch.
pub fn open_outcome(id: &str, target: &Target, answered: bool) -> (res: Result<Option<String>, String>)
    ensures
        answered ==> res matches Ok(None),
        (!answered && target.open == OpenMode::Focus) ==> (res matches Err(m) && m@
            == "no open tab matches "@ + id@),
        (!answered && target.open != OpenMode::Focus) ==> (res matches Ok(Some(u)) && u@
            == target.url@),
{
    if answered {
        Ok(None)
    } else if target.open == OpenMode::Focus {
        let mut m = String::from_str("no open tab matches ");
        m.append(id);
        Err(m)
    } else {
        Ok(Some(target.url.clone()))
    }
}

/// What focusing a tab comes to once the browser has answered: nothing more
/// where the browser focused the tab (`answered`); else `url`, to be launched
/// in its place.
pub fn focus_tab_outcome(url: &str, answered: bool) -> (res: Option<String>)
    ensures
        answered ==> res is None,
        !answered ==> (res matches Some(u) && u@ == url@),
{
    if answered {
        None
    } else {
        Some(String::from_str(url))
    }
}

/// The message for an id that names no saved target.
pub fn unknown_target(id: &str) -> (res: String)
    ensures
        res@ == "unknown target: "@ + id@,
{
    let mut m = String::from_str("unknown target: ");
    m.append(id);
    m
}

/// The window selector with which the browser's window is focused.
pub fn focus_selector(window_class: &str) -> (res: String)
    ensures
        res@ == "class:^("@ + window_class@ + ")$"@,
{
    let mut s = String::from_str("class:^(");
    s.append(window_class);
    s.append(")$");
    s
}

} // verus!
