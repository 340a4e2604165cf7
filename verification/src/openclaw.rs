//! The nested-directory provider with a `toolResult` role.
//!
//! Sessions are `.jsonl` files under per-agent `sessions` directories; one
//! reserved index file name is excluded. A transcript line counts only when
//! it is tagged `message` and holds a message object; the provider's
//! `toolResult` role is normalized to `tool`.

use vstd::prelude::*;

use crate::content::{extract_text, text_of};
use crate::json::{json_of, jv_get, jv_get_str};
use crate::model::{
    collect_some, FileEntry, FileEntryView, LocatorView, MessageView, MetaView, SessionMessage,
    SessionMeta, SourceLocator,
};
use crate::strutil::{
    file_name_spec, file_name_of, has_extension, is_blank, path_ext, path_stem, file_stem_of,
    str_eq, str_is_blank,
};
use crate::timestamp::{parse_timestamp, ts_of};

verus! {

/// The session record one walked file yields: the id is the file stem, the
/// locator the file itself; this provider offers no resume command.
pub open spec fn session_of(e: FileEntryView) -> Option<MetaView> {
    match path_stem(e.path) {
        None => None,
        Some(id) => Some(
            MetaView {
                provider_id: "openclaw"@,
                session_id: id,
                title: None,
                summary: None,
                project_dir: None,
                created_at: e.created_ms,
                last_active_at: e.modified_ms,
                source_path: Some(LocatorView::FilePath(e.path)),
                resume_command: None,
            },
        ),
    }
}

/// Session metadata derived from one walked file, without opening it.
pub fn parse_session_from_path(e: &FileEntry) -> (r: Option<SessionMeta>)
    ensures
        match r {
            Some(m) => session_of(e@) == Some(m@),
            None => session_of(e@) is None,
        },
{
    let id = match file_stem_of(e.path.as_str()) {
        Some(id) => id,
        None => {
            return None;
        },
    };
    Some(
        SessionMeta {
            provider_id: String::from_str("openclaw"),
            session_id: id,
            title: None,
            summary: None,
            project_dir: None,
            created_at: e.created_ms,
            last_active_at: e.modified_ms,
            source_path: Some(SourceLocator::FilePath(e.path.clone())),
            resume_command: None,
        },
    )
}

/// What one walked file contributes to the scan: a session when it is a
/// `.jsonl` file and not the reserved index file.
pub open spec fn scan_entry(e: FileEntryView) -> Option<MetaView> {
    if path_ext(e.path) == Some("jsonl"@) && file_name_spec(e.path) != Some("sessions.json"@) {
        session_of(e)
    } else {
        None
    }
}

/// The scan of a walked file list.
pub open spec fn scan_view(files: Seq<FileEntryView>) -> Seq<MetaView> {
    collect_some(files, |e: FileEntryView| scan_entry(e))
}

/// Turns the files walked under the per-agent `sessions` directories into
/// session records. An empty walk (a missing root) yields an empty list.
pub fn scan_sessions(files: &Vec<FileEntry>) -> (r: Vec<SessionMeta>)
    ensures
        r.deep_view() == scan_view(files.deep_view()),
        files@.len() == 0 ==> r@.len() == 0,
{
    let n = files.len();
    let mut out: Vec<SessionMeta> = Vec::new();
    let mut i: usize = 0;
    while i < n
        invariant
            i <= n,
            n == files@.len(),
            files.deep_view().len() == n,
            out.deep_view() == scan_view(files.deep_view().take(i as int)),
        decreases n - i,
    {
        let ghost fv = files.deep_view();
        proof {
            assert(fv.take(i + 1).drop_last() =~= fv.take(i as int));
            assert(fv.take(i + 1).last() == fv[i as int]);
            assert(fv[i as int] == files@[i as int]@);
        }
        let e = &files[i];
        let keep = if has_extension(e.path.as_str(), "jsonl") {
            match file_name_of(e.path.as_str()) {
                Some(name) => !str_eq(name.as_str(), "sessions.json"),
                None => true,
            }
        } else {
            false
        };
        if keep {
            match parse_session_from_path(e) {
                Some(m) => {
                    out.push(m);
                },
                None => {},
            }
        }
        proof {
            assert(out.deep_view() =~= scan_view(fv.take(i + 1)));
        }
        i = i + 1;
    }
    proof {
        assert(files.deep_view().take(n as int) =~= files.deep_view());
    }
    out
}

/// What one transcript line contributes: a message when the line is tagged
/// `message`, holds a message object, and its text is not blank. The
/// provider's `toolResult` role becomes `tool`; every other role passes
/// through.
pub open spec fn line_msg(line: Seq<char>) -> Option<MessageView> {
    match json_of(line) {
        None => None,
        Some(v) => {
            if jv_get_str(v, "type"@) != Some("message"@) {
                None
            } else {
                match jv_get(v, "message"@) {
                    None => None,
                    Some(msg) => {
                        let raw = match jv_get_str(msg, "role"@) {
                            Some(r) => r,
                            None => "unknown"@,
                        };
                        let role = if raw == "toolResult"@ {
                            "tool"@
                        } else {
                            raw
                        };
                        let content = match jv_get(msg, "content"@) {
                            Some(c) => text_of(c),
                            None => Seq::empty(),
                        };
                        if is_blank(content) {
                            None
                        } else {
                            let ts = match jv_get(v, "timestamp"@) {
                                Some(t) => ts_of(t),
                                None => None,
                            };
                            Some(MessageView { role, content, ts, tool_name: None })
                        }
                    },
                }
            }
        },
    }
}

/// The messages of a transcript, line by line; a line that fails to parse or
/// does not match the expected shape is skipped, never fatal.
pub open spec fn messages_view(lines: Seq<Seq<char>>) -> Seq<MessageView> {
    collect_some(lines, |l: Seq<char>| line_msg(l))
}

/// Reads one transcript line.
fn read_line(line: &str) -> (r: Option<SessionMessage>)
    ensures
        match r {
            Some(m) => line_msg(line@) == Some(m@) && !is_blank(m.content@),
            None => line_msg(line@) is None,
        },
{
    let v = match crate::json::parse_json(line) {
        Some(v) => v,
        None => {
            return None;
        },
    };
    match v.get("type") {
        Some(t) => match t.as_str_val() {
            Some(ts) => {
                if !str_eq(ts.as_str(), "message") {
                    return None;
                }
            },
            None => {
                return None;
            },
        },
        None => {
            return None;
        },
    }
    let msg = match v.get("message") {
        Some(m) => m,
        None => {
            return None;
        },
    };
    let raw = match msg.get_str("role") {
        Some(r) => r,
        None => String::from_str("unknown"),
    };
    let role = if str_eq(raw.as_str(), "toolResult") {
        String::from_str("tool")
    } else {
        raw
    };
    let content = match msg.get("content") {
        Some(c) => extract_text(c),
        None => String::new(),
    };
    if str_is_blank(content.as_str()) {
        return None;
    }
    let ts = match v.get("timestamp") {
        Some(t) => parse_timestamp(t),
        None => None,
    };
    Some(SessionMessage { role, content, ts, tool_name: None })
}

/// Turns the lines of one transcript file into the session's messages. Every
/// returned message has non-blank content.
pub fn load_messages(lines: &Vec<String>) -> (r: Vec<SessionMessage>)
    ensures
        r.deep_view() == messages_view(lines.deep_view()),
        forall|k: int| 0 <= k < r.deep_view().len() ==> !is_blank(r.deep_view()[k].content),
{
    let n = lines.len();
    let mut out: Vec<SessionMessage> = Vec::new();
    let mut i: usize = 0;
    while i < n
        invariant
            i <= n,
            n == lines@.len(),
            lines.deep_view().len() == n,
            out.deep_view() == messages_view(lines.deep_view().take(i as int)),
            forall|k: int| 0 <= k < out.deep_view().len() ==> !is_blank(out.deep_view()[k].content),
        decreases n - i,
    {
        let ghost lv = lines.deep_view();
        proof {
            assert(lv.take(i + 1).drop_last() =~= lv.take(i as int));
            assert(lv.take(i + 1).last() == lv[i as int]);
            assert(lv[i as int] == lines@[i as int]@);
        }
        match read_line(lines[i].as_str()) {
            Some(m) => {
                out.push(m);
            },
            None => {},
        }
        proof {
            assert(out.deep_view() =~= messages_view(lv.take(i + 1)));
        }
        i = i + 1;
    }
    proof {
        assert(lines.deep_view().take(n as int) =~= lines.deep_view());
    }
    out
}

} // verus!
