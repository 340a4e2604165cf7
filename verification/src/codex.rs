//! The flat line-structured provider.
//!
//! Sessions are `.jsonl` files under a `sessions` root; the session id is the
//! first UUID-shaped substring of the file name, so a file whose name embeds
//! no UUID yields no session. A transcript line counts only when it is a
//! `response_item` whose payload is a `message`.

use vstd::prelude::*;

use crate::json::{json_of, jv_get, jv_get_str};
use crate::content::{extract_text, text_of};
use crate::model::{
    collect_some, FileEntry, FileEntryView, LocatorView, MessageView, MetaView, SessionMessage,
    SessionMeta, SourceLocator,
};
use crate::strutil::{has_extension, is_blank, path_ext, str_eq, str_is_blank, file_name_spec, file_name_of};
use crate::timestamp::{is_digit, parse_timestamp, ts_of};

verus! {

/// A hexadecimal digit, either case.
pub open spec fn is_hex(c: char) -> bool {
    is_digit(c) || (97 <= c as u32 && c as u32 <= 102) || (65 <= c as u32 && c as u32 <= 70)
}

/// The character at offset `k` of a UUID shape starting at `i` is what the
/// shape demands there: a hyphen at the four fixed positions, a hex digit
/// elsewhere.
pub open spec fn uuid_char_ok(s: Seq<char>, i: int, k: int) -> bool {
    if k == 8 || k == 13 || k == 18 || k == 23 {
        s[i + k] == '-'
    } else {
        is_hex(s[i + k])
    }
}

/// A UUID-shaped substring starts at `i`: thirty-six characters of hex digits
/// with hyphens at the four fixed positions.
pub open spec fn uuid_at(s: Seq<char>, i: int) -> bool {
    0 <= i && i + 36 <= s.len() && forall|k: int| 0 <= k < 36 ==> #[trigger] uuid_char_ok(s, i, k)
}

/// The position of the leftmost UUID-shaped substring at or after `i`.
pub open spec fn uuid_search(s: Seq<char>, i: int) -> Option<int>
    decreases s.len() + 36 - i,
{
    if i < 0 || i + 36 > s.len() {
        None
    } else if uuid_at(s, i) {
        Some(i)
    } else {
        uuid_search(s, i + 1)
    }
}

/// The first UUID-shaped substring of `s`, if any.
pub open spec fn first_uuid(s: Seq<char>) -> Option<Seq<char>> {
    match uuid_search(s, 0) {
        Some(i) => Some(s.subrange(i, i + 36)),
        None => None,
    }
}

/// Decides `is_hex` for one character.
fn hex_char(c: char) -> (r: bool)
    ensures
        r == is_hex(c),
{
    let u = c as u32;
    (48 <= u && u <= 57) || (97 <= u && u <= 102) || (65 <= u && u <= 70)
}

/// Decides whether a UUID-shaped substring starts at `i`.
fn uuid_at_idx(s: &str, i: usize) -> (r: bool)
    requires
        i + 36 <= s@.len() <= usize::MAX,
    ensures
        r == uuid_at(s@, i as int),
{
    let mut k: usize = 0;
    while k < 36
        invariant
            k <= 36,
            i + 36 <= s@.len() <= usize::MAX,
            forall|j: int| 0 <= j < k ==> #[trigger] uuid_char_ok(s@, i as int, j),
        decreases 36 - k,
    {
        let c = s.get_char(i + k);
        let ok = if k == 8 || k == 13 || k == 18 || k == 23 {
            c == '-'
        } else {
            hex_char(c)
        };
        if !ok {
            assert(!uuid_char_ok(s@, i as int, k as int));
            return false;
        }
        assert(uuid_char_ok(s@, i as int, k as int));
        k = k + 1;
    }
    true
}

/// The first UUID-shaped substring of the file name, the session id this
/// provider's file naming embeds.
pub fn infer_session_id_from_filename(name: &str) -> (r: Option<String>)
    ensures
        match r {
            Some(id) => first_uuid(name@) == Some(id@),
            None => first_uuid(name@) is None,
        },
{
    let n = name.unicode_len();
    if n < 36 {
        return None;
    }
    let mut i: usize = 0;
    while i <= n - 36
        invariant
            36 <= n,
            i <= n - 36 + 1,
            n == name@.len(),
            uuid_search(name@, 0) == uuid_search(name@, i as int),
        decreases n - i,
    {
        if uuid_at_idx(name, i) {
            let id = name.substring_char(i, i + 36);
            return Some(id.to_owned());
        }
        i = i + 1;
    }
    None
}

/// The session record one walked file yields: the id is the first UUID in the
/// file name, the locator is the file itself, and the timestamps come from
/// filesystem metadata.
pub open spec fn session_of(e: FileEntryView) -> Option<MetaView> {
    match file_name_spec(e.path) {
        None => None,
        Some(name) => match first_uuid(name) {
            None => None,
            Some(id) => Some(
                MetaView {
                    provider_id: "codex"@,
                    session_id: id,
                    title: None,
                    summary: None,
                    project_dir: None,
                    created_at: e.created_ms,
                    last_active_at: e.modified_ms,
                    source_path: Some(LocatorView::FilePath(e.path)),
                    resume_command: Some("codex resume "@ + id),
                },
            ),
        },
    }
}

/// Session metadata derived from one walked file, without opening it.
pub fn parse_session_from_path(e: &FileEntry) -> (r: Option<SessionMeta>)
    ensures
        match r {
            Some(m) => session_of(e@) == Some(m@),
            None => session_of(e@) is None,
        },
{
    let name = match file_name_of(e.path.as_str()) {
        Some(n) => n,
        None => {
            return None;
        },
    };
    let id = match infer_session_id_from_filename(name.as_str()) {
        Some(id) => id,
        None => {
            return None;
        },
    };
    let resume = String::from_str("codex resume ").concat(id.as_str());
    Some(
        SessionMeta {
            provider_id: String::from_str("codex"),
            session_id: id,
            title: None,
            summary: None,
            project_dir: None,
            created_at: e.created_ms,
            last_active_at: e.modified_ms,
            source_path: Some(SourceLocator::FilePath(e.path.clone())),
            resume_command: Some(resume),
        },
    )
}

/// What one walked file contributes to the scan: a session when it is a
/// `.jsonl` file whose name embeds a UUID.
pub open spec fn scan_entry(e: FileEntryView) -> Option<MetaView> {
    if path_ext(e.path) == Some("jsonl"@) {
        session_of(e)
    } else {
        None
    }
}

/// The scan of a walked file list.
pub open spec fn scan_view(files: Seq<FileEntryView>) -> Seq<MetaView> {
    collect_some(files, |e: FileEntryView| scan_entry(e))
}

/// Turns the files walked under this provider's `sessions` root into session
/// records. An empty walk (a missing root) yields an empty list.
pub fn scan_sessions(files: &Vec<FileEntry>) -> (r: Vec<SessionMeta>)
    ensures
        r.deep_view() == scan_view(files.deep_view()),
        files@.len() == 0 ==> r@.len() == 0,
{
    let n = files.len();
    let mut out: Vec<SessionMeta> = Vec::new();
    let mut i: usize = 0;
    while i < n
        invariant
            i <= n,
            n == files@.len(),
            files.deep_view().len() == n,
            out.deep_view() == scan_view(files.deep_view().take(i as int)),
        decreases n - i,
    {
        let ghost fv = files.deep_view();
        proof {
            assert(fv.take(i + 1).drop_last() =~= fv.take(i as int));
            assert(fv.take(i + 1).last() == fv[i as int]);
            assert(fv[i as int] == files@[i as int]@);
        }
        let e = &files[i];
        if has_extension(e.path.as_str(), "jsonl") {
            match parse_session_from_path(e) {
                Some(m) => {
                    out.push(m);
                },
                None => {},
            }
        }
        proof {
            assert(out.deep_view() =~= scan_view(fv.take(i + 1)));
        }
        i = i + 1;
    }
    proof {
        assert(files.deep_view().take(n as int) =~= files.deep_view());
    }
    out
}

/// What one transcript line contributes: a message when the line is a
/// `response_item` holding a `message` payload with non-blank text.
pub open spec fn line_msg(line: Seq<char>) -> Option<MessageView> {
    match json_of(line) {
        None => None,
        Some(v) => {
            if jv_get_str(v, "type"@) != Some("response_item"@) {
                None
            } else {
                match jv_get(v, "payload"@) {
                    None => None,
                    Some(p) => {
                        if jv_get_str(p, "type"@) != Some("message"@) {
                            None
                        } else {
                            let role = match jv_get_str(p, "role"@) {
                                Some(r) => r,
                                None => "unknown"@,
                            };
                            let content = match jv_get(p, "content"@) {
                                Some(c) => text_of(c),
                                None => Seq::empty(),
                            };
                            if is_blank(content) {
                                None
                            } else {
                                let ts = match jv_get(v, "timestamp"@) {
                                    Some(t) => ts_of(t),
                                    None => None,
                                };
                                Some(MessageView { role, content, ts, tool_name: None })
                            }
                        }
                    },
                }
            }
        },
    }
}

/// The messages of a transcript, line by line; a line that fails to parse or
/// does not match the expected shape is skipped, never fatal.
pub open spec fn messages_view(lines: Seq<Seq<char>>) -> Seq<MessageView> {
    collect_some(lines, |l: Seq<char>| line_msg(l))
}

/// Reads one transcript line.
fn read_line(line: &str) -> (r: Option<SessionMessage>)
    ensures
        match r {
            Some(m) => line_msg(line@) == Some(m@) && !is_blank(m.content@),
            None => line_msg(line@) is None,
        },
{
    let v = match crate::json::parse_json(line) {
        Some(v) => v,
        None => {
            return None;
        },
    };
    match v.get("type") {
        Some(t) => match t.as_str_val() {
            Some(ts) => {
                if !str_eq(ts.as_str(), "response_item") {
                    return None;
                }
            },
            None => {
                return None;
            },
        },
        None => {
            return None;
        },
    }
    let p = match v.get("payload") {
        Some(p) => p,
        None => {
            return None;
        },
    };
    match p.get("type") {
        Some(t) => match t.as_str_val() {
            Some(ts) => {
                if !str_eq(ts.as_str(), "message") {
                    return None;
                }
            },
            None => {
                return None;
            },
        },
        None => {
            return None;
        },
    }
    let role = match p.get_str("role") {
        Some(r) => r,
        None => String::from_str("unknown"),
    };
    let content = match p.get("content") {
        Some(c) => extract_text(c),
        None => String::new(),
    };
    if str_is_blank(content.as_str()) {
        return None;
    }
    let ts = match v.get("timestamp") {
        Some(t) => parse_timestamp(t),
        None => None,
    };
    Some(SessionMessage { role, content, ts, tool_name: None })
}

/// Turns the lines of one transcript file into the session's messages. Every
/// returned message has non-blank content.
pub fn load_messages(lines: &Vec<String>) -> (r: Vec<SessionMessage>)
    ensures
        r.deep_view() == messages_view(lines.deep_view()),
        forall|k: int| 0 <= k < r.deep_view().len() ==> !is_blank(r.deep_view()[k].content),
{
    let n = lines.len();
    let mut out: Vec<SessionMessage> = Vec::new();
    let mut i: usize = 0;
    while i < n
        invariant
            i <= n,
            n == lines@.len(),
            lines.deep_view().len() == n,
            out.deep_view() == messages_view(lines.deep_view().take(i as int)),
            forall|k: int| 0 <= k < out.deep_view().len() ==> !is_blank(out.deep_view()[k].content),
        decreases n - i,
    {
        let ghost lv = lines.deep_view();
        proof {
            assert(lv.take(i + 1).drop_last() =~= lv.take(i as int));
            assert(lv.take(i + 1).last() == lv[i as int]);
            assert(lv[i as int] == lines@[i as int]@);
        }
        match read_line(lines[i].as_str()) {
            Some(m) => {
                out.push(m);
            },
            None => {},
        }
        proof {
            assert(out.deep_view() =~= messages_view(lv.take(i + 1)));
        }
        i = i + 1;
    }
    proof {
        assert(lines.deep_view().take(n as int) =~= lines.deep_view());
    }
    out
}

} // verus!
