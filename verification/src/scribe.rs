//! The line-structured, tool-use-aware provider.
//!
//! Sessions are `.jsonl` files under per-project directories whose names
//! encode the absolute project path: every path separator stands as a hyphen,
//! with a boundary hyphen for the leading separator. Decoding replaces every
//! hyphen by a separator; it is lossy whenever an original path segment itself
//! contained a hyphen, a known limitation preserved here.
//!
//! Loading keeps a running map from tool-invocation id to tool name, filled
//! only from assistant turns, so resolution is forward-only: a result can name
//! its tool only when the invocation appeared earlier in the file. A user turn
//! whose content blocks are all tool results is remapped to the `tool` role.

use vstd::prelude::*;

use crate::content::{extract_text, text_of};
use crate::json::{json_of, jv_as_bool, jv_get, jv_get_str, JsonValue};
use crate::model::{
    collect_some, FileEntry, FileEntryView, LocatorView, MessageView, MetaView, SessionMessage,
    SessionMeta, SourceLocator,
};
use crate::strutil::{
    chars_to_string, file_name_spec, file_name_of, file_stem_of, has_extension, has_prefix,
    is_blank, last_segment, last_segment_of, parent_name_of, parent_name_spec, path_ext,
    path_stem, str_eq, str_has_prefix, str_is_blank,
};
use crate::timestamp::{parse_timestamp, ts_of};

verus! {

/// An encoded directory name decoded back into a path: every hyphen becomes a
/// separator. A leading boundary hyphen thereby becomes the leading separator
/// of an absolute path.
pub open spec fn decode_view(s: Seq<char>) -> Seq<char> {
    s.map_values(
        |c: char|
            if c == '-' {
                '/'
            } else {
                c
            },
    )
}

/// Decodes an encoded project-directory name back into a path.
pub fn decode_project_dir(encoded: &str) -> (r: String)
    ensures
        r@ == decode_view(encoded@),
{
    let n = encoded.unicode_len();
    let mut cs: Vec<char> = Vec::new();
    let mut i: usize = 0;
    proof {
        assert(cs@ =~= decode_view(encoded@.take(0)));
    }
    while i < n
        invariant
            i <= n,
            n == encoded@.len(),
            cs@ == decode_view(encoded@.take(i as int)),
        decreases n - i,
    {
        let c = encoded.get_char(i);
        let mapped = if c == '-' {
            '/'
        } else {
            c
        };
        cs.push(mapped);
        proof {
            assert(cs@ =~= decode_view(encoded@.take(i + 1)));
        }
        i = i + 1;
    }
    proof {
        assert(encoded@.take(n as int) =~= encoded@);
    }
    chars_to_string(&cs)
}

/// A sub-agent transcript: its file name carries the agent prefix, and it is
/// not a top-level session.
pub open spec fn is_agent(path: Seq<char>) -> bool {
    match file_name_spec(path) {
        Some(name) => has_prefix(name, "agent-"@),
        None => false,
    }
}

/// Decides whether a path names a sub-agent transcript.
pub fn is_agent_session(path: &str) -> (r: bool)
    ensures
        r == is_agent(path@),
{
    match file_name_of(path) {
        Some(name) => str_has_prefix(name.as_str(), "agent-"),
        None => false,
    }
}

/// The session id a file name implies: the file stem, unvalidated.
pub fn infer_session_id_from_filename(path: &str) -> (r: Option<String>)
    ensures
        match r {
            Some(id) => path_stem(path@) == Some(id@),
            None => path_stem(path@) is None,
        },
{
    file_stem_of(path)
}

/// The session record one walked file yields: the stem as id, the decoded
/// parent-directory name as project path, its last non-empty segment as
/// title, and the timestamps from filesystem metadata.
pub open spec fn session_of(e: FileEntryView) -> Option<MetaView> {
    if is_agent(e.path) {
        None
    } else {
        match path_stem(e.path) {
            None => None,
            Some(id) => {
                let project = match parent_name_spec(e.path) {
                    Some(enc) => Some(decode_view(enc)),
                    None => None,
                };
                let title = match project {
                    Some(p) => last_segment(p),
                    None => None,
                };
                Some(
                    MetaView {
                        provider_id: "scribe"@,
                        session_id: id,
                        title,
                        summary: None,
                        project_dir: project,
                        created_at: e.created_ms,
                        last_active_at: e.modified_ms,
                        source_path: Some(LocatorView::FilePath(e.path)),
                        resume_command: Some("scribe --resume "@ + id),
                    },
                )
            },
        }
    }
}

/// Session metadata derived from one walked file, without opening it.
pub fn parse_session_from_path(e: &FileEntry) -> (r: Option<SessionMeta>)
    ensures
        match r {
            Some(m) => session_of(e@) == Some(m@),
            None => session_of(e@) is None,
        },
{
    if is_agent_session(e.path.as_str()) {
        return None;
    }
    let id = match infer_session_id_from_filename(e.path.as_str()) {
        Some(id) => id,
        None => {
            return None;
        },
    };
    let project = match parent_name_of(e.path.as_str()) {
        Some(enc) => Some(decode_project_dir(enc.as_str())),
        None => None,
    };
    let title = match &project {
        Some(p) => last_segment_of(p.as_str()),
        None => None,
    };
    let resume = String::from_str("scribe --resume ").concat(id.as_str());
    Some(
        SessionMeta {
            provider_id: String::from_str("scribe"),
            session_id: id,
            title,
            summary: None,
            project_dir: project,
            created_at: e.created_ms,
            last_active_at: e.modified_ms,
            source_path: Some(SourceLocator::FilePath(e.path.clone())),
            resume_command: Some(resume),
        },
    )
}

/// What one walked file contributes to the scan: a session when it is a
/// `.jsonl` file and not a sub-agent transcript.
pub open spec fn scan_entry(e: FileEntryView) -> Option<MetaView> {
    if path_ext(e.path) == Some("jsonl"@) {
        session_of(e)
    } else {
        None
    }
}

/// The scan of a walked file list.
pub open spec fn scan_view(files: Seq<FileEntryView>) -> Seq<MetaView> {
    collect_some(files, |e: FileEntryView| scan_entry(e))
}

/// Turns the files walked under this provider's `projects` root into session
/// records. An empty walk (a missing root) yields an empty list.
pub fn scan_sessions(files: &Vec<FileEntry>) -> (r: Vec<SessionMeta>)
    ensures
        r.deep_view() == scan_view(files.deep_view()),
        files@.len() == 0 ==> r@.len() == 0,
{
    let n = files.len();
    let mut out: Vec<SessionMeta> = Vec::new();
    let mut i: usize = 0;
    while i < n
        invariant
            i <= n,
            n == files@.len(),
            files.deep_view().len() == n,
            out.deep_view() == scan_view(files.deep_view().take(i as int)),
        decreases n - i,
    {
        let ghost fv = files.deep_view();
        proof {
            assert(fv.take(i + 1).drop_last() =~= fv.take(i as int));
            assert(fv.take(i + 1).last() == fv[i as int]);
            assert(fv[i as int] == files@[i as int]@);
        }
        let e = &files[i];
        if has_extension(e.path.as_str(), "jsonl") {
            match parse_session_from_path(e) {
                Some(m) => {
                    out.push(m);
                },
                None => {},
            }
        }
        proof {
            assert(out.deep_view() =~= scan_view(fv.take(i + 1)));
        }
        i = i + 1;
    }
    proof {
        assert(files.deep_view().take(n as int) =~= files.deep_view());
    }
    out
}

/// The forward-only registry of tool names: an association list from
/// invocation id to tool name, later entries shadowing earlier ones, exactly
/// as repeated map insertion would.
pub struct ToolMap {
    entries: Vec<(String, String)>,
}

impl View for ToolMap {
    type V = Seq<(Seq<char>, Seq<char>)>;

    closed spec fn view(&self) -> Seq<(Seq<char>, Seq<char>)> {
        self.entries.deep_view()
    }
}

/// The name registered for `k`: the latest entry wins.
pub open spec fn assoc_get(m: Seq<(Seq<char>, Seq<char>)>, k: Seq<char>) -> Option<Seq<char>>
    decreases m.len(),
{
    if m.len() == 0 {
        None
    } else if m.last().0 == k {
        Some(m.last().1)
    } else {
        assoc_get(m.drop_last(), k)
    }
}

impl ToolMap {
    /// An empty registry.
    pub fn new() -> (r: ToolMap)
        ensures
            r@ == Seq::<(Seq<char>, Seq<char>)>::empty(),
    {
        let r = ToolMap { entries: Vec::new() };
        proof {
            assert(r@ =~= Seq::<(Seq<char>, Seq<char>)>::empty());
        }
        r
    }

    /// Registers a name for an invocation id, shadowing any earlier entry.
    pub fn insert(&mut self, id: String, name: String)
        ensures
            final(self)@ == old(self)@.push((id@, name@)),
    {
        let ghost idv = id@;
        let ghost namev = name@;
        self.entries.push((id, name));
        proof {
            assert(self@ =~= old(self)@.push((idv, namev)));
        }
    }

    /// Looks an invocation id up.
    pub fn get(&self, id: &str) -> (r: Option<String>)
        ensures
            match r {
                Some(name) => assoc_get(self@, id@) == Some(name@),
                None => assoc_get(self@, id@) is None,
            },
    {
        let n = self.entries.len();
        let mut i: usize = n;
        proof {
            assert(self@.len() == n);
            assert(self@.take(n as int) =~= self@);
        }
        while i > 0
            invariant
                i <= n,
                n == self.entries@.len(),
                self@.len() == n,
                assoc_get(self@, id@) == assoc_get(self@.take(i as int), id@),
            decreases i,
        {
            i = i - 1;
            proof {
                assert(self@[i as int] == self.entries@[i as int].deep_view());
                assert(self@.take(i + 1).last() == self@[i as int]);
                assert(self@.take(i + 1).drop_last() =~= self@.take(i as int));
            }
            if str_eq(self.entries[i].0.as_str(), id) {
                return Some(self.entries[i].1.clone());
            }
        }
        proof {
            assert(self@.take(0) =~= Seq::<(Seq<char>, Seq<char>)>::empty());
        }
        None
    }
}

/// The role a message object declares, `unknown` when absent or not a string.
pub open spec fn role_of(msg: JsonValue) -> Seq<char> {
    match jv_get_str(msg, "role"@) {
        Some(r) => r,
        None => "unknown"@,
    }
}

/// A line flagged as meta, to be skipped entirely.
pub open spec fn is_meta(v: JsonValue) -> bool {
    match jv_get(v, "isMeta"@) {
        Some(b) => jv_as_bool(b) == Some(true),
        None => false,
    }
}

/// The registry after reading a sequence of assistant content blocks: every
/// invocation block with string id and name registers its tool name.
pub open spec fn tools_after_items(
    state: Seq<(Seq<char>, Seq<char>)>,
    items: Seq<JsonValue>,
) -> Seq<(Seq<char>, Seq<char>)>
    decreases items.len(),
{
    if items.len() == 0 {
        state
    } else {
        let prev = tools_after_items(state, items.drop_last());
        let it = items.last();
        if jv_get_str(it, "type"@) == Some("tool_use"@) {
            match jv_get_str(it, "id"@) {
                Some(id) => match jv_get_str(it, "name"@) {
                    Some(nm) => prev.push((id, nm)),
                    None => prev,
                },
                None => prev,
            }
        } else {
            prev
        }
    }
}

/// The registry after one transcript line: only a non-meta line holding an
/// assistant message with an array content feeds it.
pub open spec fn line_state(
    state: Seq<(Seq<char>, Seq<char>)>,
    line: Seq<char>,
) -> Seq<(Seq<char>, Seq<char>)> {
    match json_of(line) {
        None => state,
        Some(v) => {
            if is_meta(v) {
                state
            } else {
                match jv_get(v, "message"@) {
                    None => state,
                    Some(msg) => {
                        if role_of(msg) == "assistant"@ {
                            match jv_get(msg, "content"@) {
                                Some(c) => if c is Arr {
                                    tools_after_items(state, c->Arr_0@)
                                } else {
                                    state
                                },
                                None => state,
                            }
                        } else {
                            state
                        }
                    },
                }
            }
        },
    }
}

/// Every block of the sequence is a tool-result block.
pub open spec fn all_tool_results(items: Seq<JsonValue>) -> bool {
    forall|i: int|
        0 <= i < items.len() ==> #[trigger] jv_get_str(items[i], "type"@) == Some("tool_result"@)
}

/// The role and attributed tool name of one message: a user turn whose
/// content is a non-empty array of tool-result blocks becomes a `tool` turn,
/// named after the invocation the first block answers, when that invocation
/// was seen earlier; every other turn keeps its role.
pub open spec fn route_of(
    state: Seq<(Seq<char>, Seq<char>)>,
    msg: JsonValue,
) -> (Seq<char>, Option<Seq<char>>) {
    let raw = role_of(msg);
    if raw == "user"@ {
        match jv_get(msg, "content"@) {
            Some(c) => {
                if c is Arr && c->Arr_0@.len() > 0 && all_tool_results(c->Arr_0@) {
                    (
                        "tool"@,
                        match jv_get_str(c->Arr_0@[0], "tool_use_id"@) {
                            Some(id) => assoc_get(state, id),
                            None => None,
                        },
                    )
                } else {
                    (raw, None)
                }
            },
            None => (raw, None),
        }
    } else {
        (raw, None)
    }
}

/// What one transcript line contributes, given the registry built from the
/// earlier lines: a message when the line parses, is not meta, holds a
/// message object and its text is not blank.
pub open spec fn line_msg(
    state: Seq<(Seq<char>, Seq<char>)>,
    line: Seq<char>,
) -> Option<MessageView> {
    match json_of(line) {
        None => None,
        Some(v) => {
            if is_meta(v) {
                None
            } else {
                match jv_get(v, "message"@) {
                    None => None,
                    Some(msg) => {
                        let rt = route_of(state, msg);
                        let content = match jv_get(msg, "content"@) {
                            Some(c) => text_of(c),
                            None => Seq::empty(),
                        };
                        if is_blank(content) {
                            None
                        } else {
                            let ts = match jv_get(v, "timestamp"@) {
                                Some(t) => ts_of(t),
                                None => None,
                            };
                            Some(MessageView { role: rt.0, content, ts, tool_name: rt.1 })
                        }
                    },
                }
            }
        },
    }
}

/// The registry and messages after a whole transcript, line by line from the
/// top: resolution is forward-only because each line is routed against the
/// registry of the lines before it.
pub open spec fn fold_lines(lines: Seq<Seq<char>>) -> (
    Seq<(Seq<char>, Seq<char>)>,
    Seq<MessageView>,
)
    decreases lines.len(),
{
    if lines.len() == 0 {
        (Seq::empty(), Seq::empty())
    } else {
        let prev = fold_lines(lines.drop_last());
        let line = lines.last();
        (
            line_state(prev.0, line),
            prev.1 + match line_msg(prev.0, line) {
                Some(m) => seq![m],
                None => Seq::empty(),
            },
        )
    }
}

/// The messages of a whole transcript.
pub open spec fn messages_view(lines: Seq<Seq<char>>) -> Seq<MessageView> {
    fold_lines(lines).1
}

/// Decides whether every block is a tool-result block.
fn check_all_tool_results(items: &Vec<JsonValue>) -> (r: bool)
    ensures
        r == all_tool_results(items@),
{
    let n = items.len();
    let mut i: usize = 0;
    while i < n
        invariant
            i <= n,
            n == items@.len(),
            forall|k: int|
                0 <= k < i ==> #[trigger] jv_get_str(items@[k], "type"@) == Some("tool_result"@),
        decreases n - i,
    {
        let ok = match items[i].get("type") {
            Some(t) => match t.as_str_val() {
                Some(s) => str_eq(s.as_str(), "tool_result"),
                None => false,
            },
            None => false,
        };
        if !ok {
            assert(jv_get_str(items@[i as int], "type"@) != Some("tool_result"@));
            return false;
        }
        i = i + 1;
    }
    true
}

/// Feeds one assistant content array into the registry.
fn collect_tools(tm: &mut ToolMap, items: &Vec<JsonValue>)
    ensures
        final(tm)@ == tools_after_items(old(tm)@, items@),
{
    let n = items.len();
    let mut i: usize = 0;
    proof {
        assert(items@.take(0) =~= Seq::<JsonValue>::empty());
    }
    while i < n
        invariant
            i <= n,
            n == items@.len(),
            tm@ == tools_after_items(old(tm)@, items@.take(i as int)),
        decreases n - i,
    {
        proof {
            assert(items@.take(i + 1).drop_last() =~= items@.take(i as int));
            assert(items@.take(i + 1).last() == items@[i as int]);
        }
        let it = &items[i];
        let is_use = match it.get("type") {
            Some(t) => match t.as_str_val() {
                Some(s) => str_eq(s.as_str(), "tool_use"),
                None => false,
            },
            None => false,
        };
        if is_use {
            match it.get_str("id") {
                Some(id) => match it.get_str("name") {
                    Some(nm) => {
                        tm.insert(id, nm);
                    },
                    None => {},
                },
                None => {},
            }
        }
        i = i + 1;
    }
    proof {
        assert(items@.take(n as int) =~= items@);
    }
}

/// Reads one transcript line, updating the registry and yielding the line's
/// message, if any.
fn read_line(tm: &mut ToolMap, line: &str) -> (r: Option<SessionMessage>)
    ensures
        final(tm)@ == line_state(old(tm)@, line@),
        match r {
            Some(m) => line_msg(old(tm)@, line@) == Some(m@) && !is_blank(m.content@),
            None => line_msg(old(tm)@, line@) is None,
        },
{
    let v = match crate::json::parse_json(line) {
        Some(v) => v,
        None => {
            return None;
        },
    };
    match v.get("isMeta") {
        Some(b) => match b.as_bool_val() {
            Some(true) => {
                return None;
            },
            _ => {},
        },
        None => {},
    }
    assert(!is_meta(v));
    let msg = match v.get("message") {
        Some(m) => m,
        None => {
            return None;
        },
    };
    let raw = match msg.get_str("role") {
        Some(r) => r,
        None => String::from_str("unknown"),
    };
    assert(raw@ == role_of(*msg));
    proof {
        reveal_strlit("assistant");
        reveal_strlit("user");
        assert("assistant"@.len() == 9 && "user"@.len() == 4);
        assert("assistant"@ != "user"@);
    }

    // Register tool invocations of assistant turns before anything else, so a
    // blank-content assistant line still feeds the registry.
    if str_eq(raw.as_str(), "assistant") {
        match msg.get("content") {
            Some(c) => match c.as_arr() {
                Some(items) => {
                    collect_tools(tm, items);
                },
                None => {},
            },
            None => {},
        }
    }
    assert(tm@ == line_state(old(tm)@, line@));

    // Route the turn: a user turn made only of tool results becomes a tool
    // turn. The registry seen here is the one before this line, since only
    // assistant turns fed it above.
    let ghost state0 = old(tm)@;
    let mut role = raw;
    let mut tool_name: Option<String> = None;
    if str_eq(role.as_str(), "user") {
        match msg.get("content") {
            Some(c) => match c.as_arr() {
                Some(items) => {
                    if items.len() > 0 && check_all_tool_results(items) {
                        role = String::from_str("tool");
                        tool_name = match items[0].get_str("tool_use_id") {
                            Some(id) => tm.get(id.as_str()),
                            None => None,
                        };
                    }
                },
                None => {},
            },
            None => {},
        }
    }
    assert((role@, match tool_name {
        Some(ref t) => Some(t@),
        None => None,
    }) == route_of(state0, *msg));

    let content = match msg.get("content") {
        Some(c) => extract_text(c),
        None => String::new(),
    };
    if str_is_blank(content.as_str()) {
        return None;
    }
    let ts = match v.get("timestamp") {
        Some(t) => parse_timestamp(t),
        None => None,
    };
    Some(SessionMessage { role, content, ts, tool_name })
}

/// Turns the lines of one transcript file into the session's messages. Every
/// returned message has non-blank content.
pub fn load_messages(lines: &Vec<String>) -> (r: Vec<SessionMessage>)
    ensures
        r.deep_view() == messages_view(lines.deep_view()),
        forall|k: int| 0 <= k < r.deep_view().len() ==> !is_blank(r.deep_view()[k].content),
{
    let n = lines.len();
    let mut out: Vec<SessionMessage> = Vec::new();
    let mut tm = ToolMap::new();
    let mut i: usize = 0;
    proof {
        assert(lines.deep_view().take(0) =~= Seq::<Seq<char>>::empty());
    }
    while i < n
        invariant
            i <= n,
            n == lines@.len(),
            lines.deep_view().len() == n,
            tm@ == fold_lines(lines.deep_view().take(i as int)).0,
            out.deep_view() == fold_lines(lines.deep_view().take(i as int)).1,
            forall|k: int| 0 <= k < out.deep_view().len() ==> !is_blank(out.deep_view()[k].content),
        decreases n - i,
    {
        let ghost lv = lines.deep_view();
        proof {
            assert(lv.take(i + 1).drop_last() =~= lv.take(i as int));
            assert(lv.take(i + 1).last() == lv[i as int]);
            assert(lv[i as int] == lines@[i as int]@);
        }
        match read_line(&mut tm, lines[i].as_str()) {
            Some(m) => {
                out.push(m);
            },
            None => {},
        }
        proof {
            assert(out.deep_view() =~= fold_lines(lv.take(i + 1)).1);
        }
        i = i + 1;
    }
    proof {
        assert(lines.deep_view().take(n as int) =~= lines.deep_view());
    }
    out
}

} // verus!
