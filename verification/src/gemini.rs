//! The per-session whole-document provider.
//!
//! Sessions are `.json` files under per-project `chats` directories; the
//! session id is the file stem with a fixed prefix stripped. Loading parses
//! the whole file as one document: a malformed document or a missing messages
//! array is a hard failure here, since there is no line-level granularity to
//! recover from.

use vstd::prelude::*;

use crate::json::{json_of, jv_get, jv_get_str, JsonValue};
use crate::model::{
    collect_some, FileEntry, FileEntryView, LoadError, LocatorView, MessageView, MetaView,
    SessionMessage, SessionMeta, SourceLocator,
};
use crate::strutil::{has_extension, has_prefix, is_blank, path_ext, path_stem, file_stem_of,
    str_has_prefix, str_is_blank, str_eq};
use crate::timestamp::{parse_timestamp, ts_of};

verus! {

/// The file-stem prefix this provider puts before the session id.
pub open spec fn id_of_stem(stem: Seq<char>) -> Seq<char> {
    if has_prefix(stem, "session-"@) {
        stem.subrange("session-"@.len() as int, stem.len() as int)
    } else {
        stem
    }
}

/// The session record one walked file yields: the id is the stem with the
/// prefix stripped, and an empty id yields no session. The last-active
/// instant falls back to the creation instant when absent.
pub open spec fn session_of(e: FileEntryView) -> Option<MetaView> {
    match path_stem(e.path) {
        None => None,
        Some(stem) => {
            let id = id_of_stem(stem);
            if id.len() == 0 {
                None
            } else {
                Some(
                    MetaView {
                        provider_id: "gemini"@,
                        session_id: id,
                        title: None,
                        summary: None,
                        project_dir: None,
                        created_at: e.created_ms,
                        last_active_at: match e.modified_ms {
                            Some(m) => Some(m),
                            None => e.created_ms,
                        },
                        source_path: Some(LocatorView::FilePath(e.path)),
                        resume_command: Some("gemini --resume "@ + id),
                    },
                )
            }
        },
    }
}

/// Session metadata derived from one walked file, without reading its body.
pub fn parse_session_from_path(e: &FileEntry) -> (r: Option<SessionMeta>)
    ensures
        match r {
            Some(m) => session_of(e@) == Some(m@),
            None => session_of(e@) is None,
        },
{
    let stem = match file_stem_of(e.path.as_str()) {
        Some(s) => s,
        None => {
            return None;
        },
    };
    let id = if str_has_prefix(stem.as_str(), "session-") {
        proof {
            reveal_strlit("session-");
        }
        let n = stem.as_str().unicode_len();
        stem.as_str().substring_char(8, n).to_owned()
    } else {
        stem
    };
    if id.as_str().unicode_len() == 0 {
        return None;
    }
    let resume = String::from_str("gemini --resume ").concat(id.as_str());
    let last_active = match e.modified_ms {
        Some(m) => Some(m),
        None => e.created_ms,
    };
    Some(
        SessionMeta {
            provider_id: String::from_str("gemini"),
            session_id: id,
            title: None,
            summary: None,
            project_dir: None,
            created_at: e.created_ms,
            last_active_at: last_active,
            source_path: Some(SourceLocator::FilePath(e.path.clone())),
            resume_command: Some(resume),
        },
    )
}

/// What one walked file contributes to the scan: a session when it is a
/// `.json` file with a non-empty id.
pub open spec fn scan_entry(e: FileEntryView) -> Option<MetaView> {
    if path_ext(e.path) == Some("json"@) {
        session_of(e)
    } else {
        None
    }
}

/// The scan of a walked file list.
pub open spec fn scan_view(files: Seq<FileEntryView>) -> Seq<MetaView> {
    collect_some(files, |e: FileEntryView| scan_entry(e))
}

/// Turns the files walked under the per-project `chats` directories into
/// session records. An empty walk (a missing root) yields an empty list.
pub fn scan_sessions(files: &Vec<FileEntry>) -> (r: Vec<SessionMeta>)
    ensures
        r.deep_view() == scan_view(files.deep_view()),
        files@.len() == 0 ==> r@.len() == 0,
{
    let n = files.len();
    let mut out: Vec<SessionMeta> = Vec::new();
    let mut i: usize = 0;
    while i < n
        invariant
            i <= n,
            n == files@.len(),
            files.deep_view().len() == n,
            out.deep_view() == scan_view(files.deep_view().take(i as int)),
        decreases n - i,
    {
        let ghost fv = files.deep_view();
        proof {
            assert(fv.take(i + 1).drop_last() =~= fv.take(i as int));
            assert(fv.take(i + 1).last() == fv[i as int]);
            assert(fv[i as int] == files@[i as int]@);
        }
        let e = &files[i];
        if has_extension(e.path.as_str(), "json") {
            match parse_session_from_path(e) {
                Some(m) => {
                    out.push(m);
                },
                None => {},
            }
        }
        proof {
            assert(out.deep_view() =~= scan_view(fv.take(i + 1)));
        }
        i = i + 1;
    }
    proof {
        assert(files.deep_view().take(n as int) =~= files.deep_view());
    }
    out
}

/// What one entry of the messages array contributes: a message when it has a
/// non-blank string content and a discriminator. The provider's own tag for
/// the model maps to `assistant`, its `user` tag to `user`; any other tag
/// passes through.
pub open spec fn msg_entry(m: JsonValue) -> Option<MessageView> {
    match jv_get_str(m, "content"@) {
        None => None,
        Some(c) => {
            if is_blank(c) {
                None
            } else {
                match jv_get_str(m, "type"@) {
                    None => None,
                    Some(t) => {
                        let role = if t == "gemini"@ {
                            "assistant"@
                        } else if t == "user"@ {
                            "user"@
                        } else {
                            t
                        };
                        let ts = match jv_get(m, "timestamp"@) {
                            Some(tv) => ts_of(tv),
                            None => None,
                        };
                        Some(MessageView { role, content: c, ts, tool_name: None })
                    },
                }
            }
        },
    }
}

/// What loading one whole session document yields: its messages, or a hard
/// failure when the document does not parse or holds no messages array.
pub open spec fn load_view(doc: Seq<char>) -> Result<Seq<MessageView>, LoadError> {
    match json_of(doc) {
        None => Err(LoadError::DocumentParse),
        Some(v) => match jv_get(v, "messages"@) {
            Some(ms) => if ms is Arr {
                Ok(collect_some(ms->Arr_0@, |m: JsonValue| msg_entry(m)))
            } else {
                Err(LoadError::MissingMessages)
            },
            None => Err(LoadError::MissingMessages),
        },
    }
}

/// Reads one entry of the messages array.
fn read_entry(m: &JsonValue) -> (r: Option<SessionMessage>)
    ensures
        match r {
            Some(msg) => msg_entry(*m) == Some(msg@) && !is_blank(msg.content@),
            None => msg_entry(*m) is None,
        },
{
    let content = match m.get_str("content") {
        Some(c) => c,
        None => {
            return None;
        },
    };
    if str_is_blank(content.as_str()) {
        return None;
    }
    let t = match m.get_str("type") {
        Some(t) => t,
        None => {
            return None;
        },
    };
    let role = if str_eq(t.as_str(), "gemini") {
        String::from_str("assistant")
    } else if str_eq(t.as_str(), "user") {
        t
    } else {
        t
    };
    let ts = match m.get("timestamp") {
        Some(tv) => parse_timestamp(tv),
        None => None,
    };
    Some(SessionMessage { role, content, ts, tool_name: None })
}

/// Turns one whole session document into the session's messages; a message
/// with missing, non-string or blank content, or no discriminator, is
/// dropped. Fails exactly on a malformed document or a missing messages
/// array. Every returned message has non-blank content.
pub fn load_messages(doc: &str) -> (r: Result<Vec<SessionMessage>, LoadError>)
    ensures
        match r {
            Ok(v) => load_view(doc@) == Ok::<Seq<MessageView>, LoadError>(v.deep_view())
                && forall|k: int|
                0 <= k < v.deep_view().len() ==> !is_blank(v.deep_view()[k].content),
            Err(e) => load_view(doc@) == Err::<Seq<MessageView>, LoadError>(e),
        },
{
    let v = match crate::json::parse_json(doc) {
        Some(v) => v,
        None => {
            return Err(LoadError::DocumentParse);
        },
    };
    let ms = match v.get("messages") {
        Some(ms) => ms,
        None => {
            return Err(LoadError::MissingMessages);
        },
    };
    let items = match ms.as_arr() {
        Some(items) => items,
        None => {
            return Err(LoadError::MissingMessages);
        },
    };
    let n = items.len();
    let mut out: Vec<SessionMessage> = Vec::new();
    let mut i: usize = 0;
    while i < n
        invariant
            i <= n,
            n == items@.len(),
            out.deep_view() == collect_some(
                items@.take(i as int),
                |m: JsonValue| msg_entry(m),
            ),
            forall|k: int| 0 <= k < out.deep_view().len() ==> !is_blank(out.deep_view()[k].content),
        decreases n - i,
    {
        proof {
            assert(items@.take(i + 1).drop_last() =~= items@.take(i as int));
            assert(items@.take(i + 1).last() == items@[i as int]);
        }
        match read_entry(&items[i]) {
            Some(m) => {
                out.push(m);
            },
            None => {},
        }
        proof {
            assert(out.deep_view() =~= collect_some(
                items@.take(i + 1),
                |m: JsonValue| msg_entry(m),
            ));
        }
        i = i + 1;
    }
    proof {
        assert(items@.take(n as int) =~= items@);
    }
    Ok(out)
}

} // verus!
