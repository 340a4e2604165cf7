//! The split-storage provider with part-based content.
//!
//! A session lives in three sibling trees under one storage root: a session
//! document under `session`, per-message metadata files under
//! `message/<sessionId>/`, and per-part content files under
//! `part/<messageId>/`. The message-loading locator is the message directory,
//! the one directory-valued locator among the providers. Directory
//! enumeration order guarantees nothing, so loaded messages are sorted by
//! creation timestamp before they are returned.

use vstd::prelude::*;

use crate::content::join_nl;
use crate::json::{json_of, jv_get, jv_get_str, JsonValue};
use crate::model::{
    collect_some, LocatorView, MessageView, MetaView, SessionMessage, SessionMeta, SourceLocator,
};
use crate::strutil::{is_blank, last_segment, last_segment_of, str_is_blank};
use crate::timestamp::{parse_timestamp, ts_of};

verus! {

/// A timestamp member of the session's `time` object.
pub open spec fn time_field(v: JsonValue, k: Seq<char>) -> Option<i64> {
    match jv_get(v, "time"@) {
        Some(t) => match jv_get(t, k) {
            Some(x) => ts_of(x),
            None => None,
        },
        None => None,
    }
}

/// The session record one session document yields: id, optional title with a
/// fallback to the project directory's last segment, timestamps from the
/// document itself, and the message directory as locator.
pub open spec fn session_of(storage: Seq<char>, doc: Seq<char>) -> Option<MetaView> {
    match json_of(doc) {
        None => None,
        Some(v) => match jv_get_str(v, "id"@) {
            None => None,
            Some(id) => {
                let title = match jv_get_str(v, "title"@) {
                    Some(t) => if t.len() == 0 {
                        None
                    } else {
                        Some(t)
                    },
                    None => None,
                };
                let directory = jv_get_str(v, "directory"@);
                let created = time_field(v, "created"@);
                let updated = time_field(v, "updated"@);
                let display_title = match title {
                    Some(t) => Some(t),
                    None => match directory {
                        Some(d) => last_segment(d),
                        None => None,
                    },
                };
                Some(
                    MetaView {
                        provider_id: "opencode"@,
                        session_id: id,
                        title: display_title,
                        summary: None,
                        project_dir: directory,
                        created_at: created,
                        last_active_at: match updated {
                            Some(u) => Some(u),
                            None => created,
                        },
                        source_path: Some(LocatorView::DirPath(storage + "/message/"@ + id)),
                        resume_command: Some("opencode session resume "@ + id),
                    },
                )
            },
        },
    }
}

/// Session metadata from one session document; the document's body beyond
/// the top-level fields is never read.
pub fn parse_session(storage: &str, doc: &str) -> (r: Option<SessionMeta>)
    ensures
        match r {
            Some(m) => session_of(storage@, doc@) == Some(m@),
            None => session_of(storage@, doc@) is None,
        },
{
    let v = match crate::json::parse_json(doc) {
        Some(v) => v,
        None => {
            return None;
        },
    };
    let id = match v.get_str("id") {
        Some(id) => id,
        None => {
            return None;
        },
    };
    let title = match v.get_str("title") {
        Some(t) => {
            if t.as_str().unicode_len() == 0 {
                None
            } else {
                Some(t)
            }
        },
        None => None,
    };
    let directory = v.get_str("directory");
    let created = match v.get("time") {
        Some(t) => match t.get("created") {
            Some(x) => parse_timestamp(x),
            None => None,
        },
        None => None,
    };
    let updated = match v.get("time") {
        Some(t) => match t.get("updated") {
            Some(x) => parse_timestamp(x),
            None => None,
        },
        None => None,
    };
    let display_title = match title {
        Some(t) => Some(t),
        None => match &directory {
            Some(d) => last_segment_of(d.as_str()),
            None => None,
        },
    };
    let msg_dir = String::from_str(storage).concat("/message/").concat(id.as_str());
    let resume = String::from_str("opencode session resume ").concat(id.as_str());
    Some(
        SessionMeta {
            provider_id: String::from_str("opencode"),
            session_id: id,
            title: display_title,
            summary: None,
            project_dir: directory,
            created_at: created,
            last_active_at: match updated {
                Some(u) => Some(u),
                None => created,
            },
            source_path: Some(SourceLocator::DirPath(msg_dir)),
            resume_command: Some(resume),
        },
    )
}

/// The scan of the walked session documents.
pub open spec fn scan_view(storage: Seq<char>, docs: Seq<Seq<char>>) -> Seq<MetaView> {
    collect_some(docs, |d: Seq<char>| session_of(storage, d))
}

/// Turns the session documents found under the storage root into session
/// records. An empty walk (a missing root) yields an empty list.
pub fn scan_sessions(storage: &str, docs: &Vec<String>) -> (r: Vec<SessionMeta>)
    ensures
        r.deep_view() == scan_view(storage@, docs.deep_view()),
        docs@.len() == 0 ==> r@.len() == 0,
{
    let n = docs.len();
    let mut out: Vec<SessionMeta> = Vec::new();
    let mut i: usize = 0;
    while i < n
        invariant
            i <= n,
            n == docs@.len(),
            docs.deep_view().len() == n,
            out.deep_view() == scan_view(storage@, docs.deep_view().take(i as int)),
        decreases n - i,
    {
        let ghost dv = docs.deep_view();
        proof {
            assert(dv.take(i + 1).drop_last() =~= dv.take(i as int));
            assert(dv.take(i + 1).last() == dv[i as int]);
            assert(dv[i as int] == docs@[i as int]@);
        }
        match parse_session(storage, docs[i].as_str()) {
            Some(m) => {
                out.push(m);
            },
            None => {},
        }
        proof {
            assert(out.deep_view() =~= scan_view(storage@, dv.take(i + 1)));
        }
        i = i + 1;
    }
    proof {
        assert(docs.deep_view().take(n as int) =~= docs.deep_view());
    }
    out
}

/// The id of one message-metadata document, for locating its part directory.
pub fn message_id(doc: &str) -> (r: Option<String>)
    ensures
        match r {
            Some(id) => match json_of(doc@) {
                Some(v) => jv_get_str(v, "id"@) == Some(id@),
                None => false,
            },
            None => match json_of(doc@) {
                Some(v) => jv_get_str(v, "id"@) is None,
                None => true,
            },
        },
{
    match crate::json::parse_json(doc) {
        Some(v) => v.get_str("id"),
        None => None,
    }
}

/// One message's raw material: the message-metadata document and the contents
/// of the files in its part directory, in enumeration order.
#[derive(Debug, Clone, PartialEq)]
pub struct RawMessage {
    pub doc: String,
    pub parts: Vec<String>,
}

/// Ghost image of a `RawMessage`.
pub ghost struct RawMessageView {
    pub doc: Seq<char>,
    pub parts: Seq<Seq<char>>,
}

impl View for RawMessage {
    type V = RawMessageView;

    open spec fn view(&self) -> RawMessageView {
        RawMessageView { doc: self.doc@, parts: self.parts.deep_view() }
    }
}

impl DeepView for RawMessage {
    type V = RawMessageView;

    open spec fn deep_view(&self) -> RawMessageView {
        self.view()
    }
}

/// One loaded message before sorting: its sort key and its fields.
struct Entry {
    ts: i64,
    role: String,
    content: String,
}

/// Ghost image of an `Entry`.
pub ghost struct EntryView {
    pub ts: i64,
    pub role: Seq<char>,
    pub content: Seq<char>,
}

impl View for Entry {
    type V = EntryView;

    closed spec fn view(&self) -> EntryView {
        EntryView { ts: self.ts, role: self.role@, content: self.content@ }
    }
}

impl DeepView for Entry {
    type V = EntryView;

    open spec fn deep_view(&self) -> EntryView {
        self.view()
    }
}

/// The text one part document contributes: present when the part is tagged
/// `text` and carries a non-blank string `text` member.
pub open spec fn part_text(pd: Seq<char>) -> Option<Seq<char>> {
    match json_of(pd) {
        None => None,
        Some(p) => {
            if jv_get_str(p, "type"@) != Some("text"@) {
                None
            } else {
                match jv_get_str(p, "text"@) {
                    Some(t) => if is_blank(t) {
                        None
                    } else {
                        Some(t)
                    },
                    None => None,
                }
            }
        },
    }
}

/// A message's text: its text parts joined by newlines, in part order.
pub open spec fn parts_text(parts: Seq<Seq<char>>) -> Seq<char> {
    join_nl(collect_some(parts, |p: Seq<char>| part_text(p)))
}

/// What one raw message contributes: an entry when its document parses, has a
/// string id, and its parts yield non-blank text. A missing or unparseable
/// creation timestamp counts as zero.
pub open spec fn entry_of(m: RawMessageView) -> Option<EntryView> {
    match json_of(m.doc) {
        None => None,
        Some(v) => match jv_get_str(v, "id"@) {
            None => None,
            Some(id) => {
                let role = match jv_get_str(v, "role"@) {
                    Some(r) => r,
                    None => "unknown"@,
                };
                let ts = match time_field(v, "created"@) {
                    Some(t) => t,
                    None => 0,
                };
                let text = parts_text(m.parts);
                if is_blank(text) {
                    None
                } else {
                    Some(EntryView { ts, role, content: text })
                }
            },
        },
    }
}

/// `e` inserted after every entry that does not sort strictly above it: the
/// insertion step of a stable sort by timestamp.
pub open spec fn insert_sorted(e: EntryView, s: Seq<EntryView>) -> Seq<EntryView>
    decreases s.len(),
{
    if s.len() == 0 {
        seq![e]
    } else if e.ts < s.last().ts {
        insert_sorted(e, s.drop_last()).push(s.last())
    } else {
        s.push(e)
    }
}

/// The entries sorted by timestamp, stably: what a stable sort by key yields.
pub open spec fn sort_entries(s: Seq<EntryView>) -> Seq<EntryView>
    decreases s.len(),
{
    if s.len() == 0 {
        Seq::empty()
    } else {
        insert_sorted(s.last(), sort_entries(s.drop_last()))
    }
}

/// Non-decreasing by timestamp.
pub open spec fn sorted_by_ts(s: Seq<EntryView>) -> bool {
    forall|i: int, j: int| 0 <= i <= j < s.len() ==> s[i].ts <= s[j].ts
}

/// Inserting keeps a timestamp-sorted sequence sorted.
proof fn lemma_insert_sorted(e: EntryView, s: Seq<EntryView>)
    requires
        sorted_by_ts(s),
    ensures
        sorted_by_ts(insert_sorted(e, s)),
        insert_sorted(e, s).len() == s.len() + 1,
    decreases s.len(),
{
    if s.len() == 0 {
    } else if e.ts < s.last().ts {
        assert(sorted_by_ts(s.drop_last()));
        lemma_insert_sorted(e, s.drop_last());
        let inner = insert_sorted(e, s.drop_last());
        assert forall|i: int, j: int|
            0 <= i <= j < inner.push(s.last()).len() implies inner.push(s.last())[i].ts
            <= inner.push(s.last())[j].ts by {
            if j < inner.len() {
            } else {
                // The pushed element is the old last, at least every earlier
                // element and at least the inserted one.
                if i < inner.len() {
                    lemma_insert_members(e, s.drop_last(), i);
                }
            }
        }
    } else {
        assert forall|i: int, j: int|
            0 <= i <= j < s.push(e).len() implies s.push(e)[i].ts <= s.push(e)[j].ts by {}
    }
}

/// Every element of an insertion result is the inserted one or one of the
/// originals.
proof fn lemma_insert_members(e: EntryView, s: Seq<EntryView>, i: int)
    requires
        0 <= i < insert_sorted(e, s).len(),
    ensures
        insert_sorted(e, s)[i] == e || exists|k: int|
            0 <= k < s.len() && s[k] == insert_sorted(e, s)[i],
    decreases s.len(),
{
    if s.len() == 0 {
    } else if e.ts < s.last().ts {
        let inner = insert_sorted(e, s.drop_last());
        if i < inner.len() {
            lemma_insert_members(e, s.drop_last(), i);
            if inner[i] != e {
                let k = choose|k: int| 0 <= k < s.drop_last().len() && s.drop_last()[k] == inner[i];
                assert(s[k] == insert_sorted(e, s)[i]);
            }
        } else {
            assert(s[s.len() - 1] == insert_sorted(e, s)[i]);
        }
    } else {
        if i < s.len() {
            assert(s[i] == insert_sorted(e, s)[i]);
        }
    }
}

/// A stable sort's result is sorted.
proof fn lemma_sort_sorted(s: Seq<EntryView>)
    ensures
        sorted_by_ts(sort_entries(s)),
    decreases s.len(),
{
    if s.len() > 0 {
        lemma_sort_sorted(s.drop_last());
        lemma_insert_sorted(s.last(), sort_entries(s.drop_last()));
    }
}

/// The message an entry becomes: a non-positive timestamp means none was
/// recorded.
pub open spec fn entry_msg(e: EntryView) -> MessageView {
    MessageView {
        role: e.role,
        content: e.content,
        ts: if e.ts > 0 {
            Some(e.ts)
        } else {
            None
        },
        tool_name: None,
    }
}

/// What loading one message directory yields: the entries of its message
/// documents, sorted ascending by creation timestamp, as messages.
pub open spec fn load_view(msgs: Seq<RawMessageView>) -> Seq<MessageView> {
    sort_entries(collect_some(msgs, |m: RawMessageView| entry_of(m))).map_values(
        |e: EntryView| entry_msg(e),
    )
}

/// Reads one raw message into an entry.
fn read_entry(m: &RawMessage) -> (r: Option<Entry>)
    ensures
        match r {
            Some(e) => entry_of(m@) == Some(e@) && !is_blank(e.content@),
            None => entry_of(m@) is None,
        },
{
    let v = match crate::json::parse_json(m.doc.as_str()) {
        Some(v) => v,
        None => {
            return None;
        },
    };
    match v.get_str("id") {
        Some(_id) => {},
        None => {
            return None;
        },
    }
    let role = match v.get_str("role") {
        Some(r) => r,
        None => String::from_str("unknown"),
    };
    let ts = match v.get("time") {
        Some(t) => match t.get("created") {
            Some(x) => match parse_timestamp(x) {
                Some(tv) => tv,
                None => 0,
            },
            None => 0,
        },
        None => 0,
    };

    // Gather the text parts, joined by newlines, in part order.
    let n = m.parts.len();
    let mut text = String::new();
    let mut any = false;
    let mut i: usize = 0;
    while i < n
        invariant
            i <= n,
            n == m.parts@.len(),
            m.parts.deep_view().len() == n,
            any == (collect_some(
                m.parts.deep_view().take(i as int),
                |p: Seq<char>| part_text(p),
            ).len() > 0),
            text@ == join_nl(
                collect_some(m.parts.deep_view().take(i as int), |p: Seq<char>| part_text(p)),
            ),
        decreases n - i,
    {
        let ghost pv = m.parts.deep_view();
        proof {
            assert(pv.take(i + 1).drop_last() =~= pv.take(i as int));
            assert(pv.take(i + 1).last() == pv[i as int]);
            assert(pv[i as int] == m.parts@[i as int]@);
        }
        match read_part(m.parts[i].as_str()) {
            Some(t) => {
                let ghost prior = collect_some(pv.take(i as int), |p: Seq<char>| part_text(p));
                crate::content::push_joined(&mut text, &t, any, Ghost(prior));
                proof {
                    assert(prior.push(t@) =~= collect_some(
                        pv.take(i + 1),
                        |p: Seq<char>| part_text(p),
                    ));
                }
                any = true;
            },
            None => {
                proof {
                    assert(collect_some(pv.take(i + 1), |p: Seq<char>| part_text(p)) =~= collect_some(
                        pv.take(i as int),
                        |p: Seq<char>| part_text(p),
                    ));
                }
            },
        }
        i = i + 1;
    }
    proof {
        assert(m.parts.deep_view().take(n as int) =~= m.parts.deep_view());
    }
    if str_is_blank(text.as_str()) {
        return None;
    }
    Some(Entry { ts, role, content: text })
}

/// Reads one part document's text contribution.
fn read_part(pd: &str) -> (r: Option<String>)
    ensures
        match r {
            Some(t) => part_text(pd@) == Some(t@),
            None => part_text(pd@) is None,
        },
{
    let p = match crate::json::parse_json(pd) {
        Some(p) => p,
        None => {
            return None;
        },
    };
    match p.get("type") {
        Some(t) => match t.as_str_val() {
            Some(s) => {
                if !crate::strutil::str_eq(s.as_str(), "text") {
                    return None;
                }
            },
            None => {
                return None;
            },
        },
        None => {
            return None;
        },
    }
    let t = match p.get_str("text") {
        Some(t) => t,
        None => {
            return None;
        },
    };
    if str_is_blank(t.as_str()) {
        return None;
    }
    Some(t)
}

/// Where `e` belongs in `out`: after every element not strictly above it.
fn find_pos(out: &Vec<Entry>, ts: i64) -> (k: usize)
    ensures
        k <= out@.len(),
        forall|j: int| k <= j < out.deep_view().len() ==> ts < out.deep_view()[j].ts,
        k > 0 ==> !(ts < out.deep_view()[k - 1].ts),
{
    let mut k = out.len();
    proof {
        assert(out.deep_view().len() == out@.len());
    }
    while k > 0
        invariant
            k <= out@.len(),
            out.deep_view().len() == out@.len(),
            forall|j: int| k <= j < out.deep_view().len() ==> ts < out.deep_view()[j].ts,
        decreases k,
    {
        proof {
            assert(out.deep_view()[k - 1] == out@[k - 1]@);
        }
        if out[k - 1].ts <= ts {
            return k;
        }
        k = k - 1;
    }
    0
}

/// Under the conditions `find_pos` establishes, structural insertion is
/// insertion at that index.
proof fn lemma_insert_at(e: EntryView, s: Seq<EntryView>, k: int)
    requires
        0 <= k <= s.len(),
        forall|j: int| k <= j < s.len() ==> e.ts < s[j].ts,
        k > 0 ==> !(e.ts < s[k - 1].ts),
    ensures
        insert_sorted(e, s) == s.insert(k, e),
    decreases s.len(),
{
    if k == s.len() {
        if s.len() == 0 {
            assert(insert_sorted(e, s) =~= s.insert(k, e));
        } else {
            assert(!(e.ts < s.last().ts));
            assert(insert_sorted(e, s) =~= s.insert(k, e));
        }
    } else {
        assert(e.ts < s.last().ts);
        lemma_insert_at(e, s.drop_last(), k);
        assert(insert_sorted(e, s) == insert_sorted(e, s.drop_last()).push(s.last()));
        assert(s.drop_last().insert(k, e).push(s.last()) =~= s.insert(k, e));
    }
}

/// Inserts one entry into its sorted place, stably.
fn insert_entry(out: &mut Vec<Entry>, e: Entry)
    ensures
        final(out).deep_view() == insert_sorted(e@, old(out).deep_view()),
{
    let k = find_pos(out, e.ts);
    let ghost ev = e@;
    let ghost before = out.deep_view();
    proof {
        lemma_insert_at(ev, before, k as int);
    }
    out.insert(k, e);
    proof {
        assert(out.deep_view() =~= before.insert(k as int, ev));
    }
}

/// Turns the raw messages of one message directory into the session's
/// messages, sorted ascending by creation timestamp. Every returned message
/// has non-blank content; messages without a recorded timestamp sort first
/// and carry none.
pub fn load_messages(msgs: &Vec<RawMessage>) -> (r: Vec<SessionMessage>)
    ensures
        r.deep_view() == load_view(msgs.deep_view()),
        forall|k: int| 0 <= k < r.deep_view().len() ==> !is_blank(r.deep_view()[k].content),
        forall|i: int, j: int|
            0 <= i <= j < r.deep_view().len() && r.deep_view()[i].ts is Some && r.deep_view()[j].ts
                is Some ==> r.deep_view()[i].ts->0 <= r.deep_view()[j].ts->0,
        forall|i: int, j: int|
            0 <= i <= j < r.deep_view().len() && r.deep_view()[j].ts is None ==> r.deep_view()[i].ts
                is None,
{
    let n = msgs.len();
    let mut entries: Vec<Entry> = Vec::new();
    let mut i: usize = 0;
    proof {
        assert(entries.deep_view() =~= sort_entries(
            collect_some(msgs.deep_view().take(0), |m: RawMessageView| entry_of(m)),
        ));
    }
    while i < n
        invariant
            i <= n,
            n == msgs@.len(),
            msgs.deep_view().len() == n,
            entries.deep_view() == sort_entries(
                collect_some(msgs.deep_view().take(i as int), |m: RawMessageView| entry_of(m)),
            ),
            forall|k: int|
                0 <= k < entries.deep_view().len() ==> !is_blank(entries.deep_view()[k].content),
        decreases n - i,
    {
        let ghost mv = msgs.deep_view();
        let ghost ecol = collect_some(mv.take(i as int), |m: RawMessageView| entry_of(m));
        proof {
            assert(mv.take(i + 1).drop_last() =~= mv.take(i as int));
            assert(mv.take(i + 1).last() == mv[i as int]);
            assert(mv[i as int] == msgs@[i as int]@);
        }
        match read_entry(&msgs[i]) {
            Some(e) => {
                let ghost ev = e@;
                let ghost before = entries.deep_view();
                proof {
                    assert(collect_some(mv.take(i + 1), |m: RawMessageView| entry_of(m)) =~= ecol.push(
                        ev,
                    ));
                    assert(ecol.push(ev).drop_last() =~= ecol);
                }
                insert_entry(&mut entries, e);
                proof {
                    assert(entries.deep_view() == insert_sorted(ev, before));
                    assert forall|k: int| 0 <= k < entries.deep_view().len() implies !is_blank(
                        entries.deep_view()[k].content,
                    ) by {
                        lemma_insert_members(ev, before, k);
                    }
                }
            },
            None => {
                proof {
                    assert(collect_some(mv.take(i + 1), |m: RawMessageView| entry_of(m)) =~= ecol);
                }
            },
        }
        i = i + 1;
    }
    proof {
        assert(msgs.deep_view().take(n as int) =~= msgs.deep_view());
        lemma_sort_sorted(collect_some(msgs.deep_view(), |m: RawMessageView| entry_of(m)));
    }
    let ghost sorted = sort_entries(collect_some(msgs.deep_view(), |m: RawMessageView| entry_of(m)));
    let ghost mapped = sorted.map_values(|e: EntryView| entry_msg(e));

    // Sorted entries become messages in order.
    let en = entries.len();
    let mut out: Vec<SessionMessage> = Vec::new();
    let mut j: usize = 0;
    while j < en
        invariant
            j <= en,
            en == entries@.len(),
            entries.deep_view() == sorted,
            sorted.len() == en,
            mapped == sorted.map_values(|e: EntryView| entry_msg(e)),
            mapped.len() == en,
            out.deep_view() == mapped.take(j as int),
            forall|k: int|
                0 <= k < entries.deep_view().len() ==> !is_blank(entries.deep_view()[k].content),
        decreases en - j,
    {
        proof {
            assert(entries.deep_view()[j as int] == entries@[j as int]@);
        }
        let e = &entries[j];
        let ts_opt: Option<i64> = if e.ts > 0 {
            Some(e.ts)
        } else {
            None
        };
        let sm = SessionMessage {
            role: e.role.clone(),
            content: e.content.clone(),
            ts: ts_opt,
            tool_name: None,
        };
        proof {
            assert(e@ == sorted[j as int]);
            assert(sm@ == entry_msg(sorted[j as int]));
            assert(mapped[j as int] == entry_msg(sorted[j as int]));
        }
        let ghost before_deep = out.deep_view();
        proof {
            assert(before_deep.len() == j);
            assert(out.deep_view().len() == out@.len());
        }
        out.push(sm);
        proof {
            assert(out@.len() == j + 1);
            assert(out.deep_view().len() == j + 1);
            assert(out.deep_view()[j as int] == sm.deep_view());
            assert forall|k: int| 0 <= k < j implies out.deep_view()[k] == mapped[k] by {
                assert(out.deep_view()[k] == before_deep[k]);
                assert(before_deep[k] == mapped.take(j as int)[k]);
            }
            assert(out.deep_view() =~= mapped.take(j + 1));
        }
        j = j + 1;
    }
    proof {
        assert(mapped.take(en as int) =~= mapped);
        assert(out.deep_view() == load_view(msgs.deep_view()));
        assert(sorted_by_ts(sorted));
        assert forall|a: int, b: int|
            0 <= a <= b < out.deep_view().len() && out.deep_view()[a].ts is Some && out.deep_view()[b].ts
                is Some implies out.deep_view()[a].ts->0 <= out.deep_view()[b].ts->0 by {
            assert(out.deep_view()[a] == entry_msg(sorted[a]));
            assert(out.deep_view()[b] == entry_msg(sorted[b]));
        }
        assert forall|a: int, b: int|
            0 <= a <= b < out.deep_view().len() && out.deep_view()[b].ts is None implies out.deep_view()[a].ts
            is None by {
            assert(out.deep_view()[a] == entry_msg(sorted[a]));
            assert(out.deep_view()[b] == entry_msg(sorted[b]));
        }
        assert forall|k: int| 0 <= k < out.deep_view().len() implies !is_blank(
            out.deep_view()[k].content,
        ) by {
            assert(out.deep_view()[k] == entry_msg(sorted[k]));
        }
    }
    out
}

} // verus!
