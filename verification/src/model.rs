use vstd::prelude::*;

verus! {

/// Where a session's messages are stored. Four providers keep a whole session
/// in one file; one spreads it over a directory of per-message files. The two
/// kinds are kept apart so a loader cannot be handed the wrong kind of path.
#[derive(Debug, Clone, PartialEq)]
pub enum SourceLocator {
    FilePath(String),
    DirPath(String),
}

/// Ghost image of a locator: the path as a sequence of characters.
pub ghost enum LocatorView {
    FilePath(Seq<char>),
    DirPath(Seq<char>),
}

impl View for SourceLocator {
    type V = LocatorView;

    open spec fn view(&self) -> LocatorView {
        match self {
            SourceLocator::FilePath(p) => LocatorView::FilePath(p@),
            SourceLocator::DirPath(p) => LocatorView::DirPath(p@),
        }
    }
}

impl DeepView for SourceLocator {
    type V = LocatorView;

    open spec fn deep_view(&self) -> LocatorView {
        self.view()
    }
}

/// The view of an optional string: the character sequence, if present.
pub open spec fn opt_str_view(o: Option<String>) -> Option<Seq<char>> {
    match o {
        Some(s) => Some(s@),
        None => None,
    }
}

/// The view of an optional locator.
pub open spec fn opt_loc_view(o: Option<SourceLocator>) -> Option<LocatorView> {
    match o {
        Some(l) => Some(l@),
        None => None,
    }
}

/// Identity and summary of one discovered session.
#[derive(Debug, Clone, PartialEq)]
pub struct SessionMeta {
    /// Tag of the provider that produced this record; namespaces `session_id`.
    pub provider_id: String,
    /// Unique within one provider; global identity is the pair of both fields.
    pub session_id: String,
    /// Optional human label, derived from a project path or a title field.
    pub title: Option<String>,
    /// Reserved; never filled in by any current provider.
    pub summary: Option<String>,
    /// Optional filesystem path associated with the session.
    pub project_dir: Option<String>,
    /// Epoch milliseconds, from filesystem metadata or session records.
    pub created_at: Option<i64>,
    pub last_active_at: Option<i64>,
    /// Locator consumed by the message loader; opaque to callers.
    pub source_path: Option<SourceLocator>,
    /// Shell command that resumes the session in its originating tool.
    pub resume_command: Option<String>,
}

/// Ghost image of a `SessionMeta`.
pub ghost struct MetaView {
    pub provider_id: Seq<char>,
    pub session_id: Seq<char>,
    pub title: Option<Seq<char>>,
    pub summary: Option<Seq<char>>,
    pub project_dir: Option<Seq<char>>,
    pub created_at: Option<i64>,
    pub last_active_at: Option<i64>,
    pub source_path: Option<LocatorView>,
    pub resume_command: Option<Seq<char>>,
}

impl View for SessionMeta {
    type V = MetaView;

    open spec fn view(&self) -> MetaView {
        MetaView {
            provider_id: self.provider_id@,
            session_id: self.session_id@,
            title: opt_str_view(self.title),
            summary: opt_str_view(self.summary),
            project_dir: opt_str_view(self.project_dir),
            created_at: self.created_at,
            last_active_at: self.last_active_at,
            source_path: opt_loc_view(self.source_path),
            resume_command: opt_str_view(self.resume_command),
        }
    }
}

impl DeepView for SessionMeta {
    type V = MetaView;

    open spec fn deep_view(&self) -> MetaView {
        self.view()
    }
}

/// One normalized conversation turn.
#[derive(Debug, Clone, PartialEq)]
pub struct SessionMessage {
    /// `user`, `assistant`, `tool`, or the provider's own role string when no
    /// normalization rule applies.
    pub role: String,
    /// Non-empty text; turns whose text trims to nothing are never emitted.
    pub content: String,
    /// Epoch milliseconds; absent when the source timestamp is missing or
    /// unparseable.
    pub ts: Option<i64>,
    /// Present only when a tool invocation could be attributed to a name.
    pub tool_name: Option<String>,
}

/// Ghost image of a `SessionMessage`.
pub ghost struct MessageView {
    pub role: Seq<char>,
    pub content: Seq<char>,
    pub ts: Option<i64>,
    pub tool_name: Option<Seq<char>>,
}

impl View for SessionMessage {
    type V = MessageView;

    open spec fn view(&self) -> MessageView {
        MessageView {
            role: self.role@,
            content: self.content@,
            ts: self.ts,
            tool_name: opt_str_view(self.tool_name),
        }
    }
}

impl DeepView for SessionMessage {
    type V = MessageView;

    open spec fn deep_view(&self) -> MessageView {
        self.view()
    }
}

/// One file found by a directory walk: its path and the creation and
/// modification instants from filesystem metadata, in epoch milliseconds.
/// Scanning never opens the files themselves.
#[derive(Debug, Clone, PartialEq)]
pub struct FileEntry {
    pub path: String,
    pub created_ms: Option<i64>,
    pub modified_ms: Option<i64>,
}

/// Ghost image of a `FileEntry`.
pub ghost struct FileEntryView {
    pub path: Seq<char>,
    pub created_ms: Option<i64>,
    pub modified_ms: Option<i64>,
}

impl View for FileEntry {
    type V = FileEntryView;

    open spec fn view(&self) -> FileEntryView {
        FileEntryView {
            path: self.path@,
            created_ms: self.created_ms,
            modified_ms: self.modified_ms,
        }
    }
}

impl DeepView for FileEntry {
    type V = FileEntryView;

    open spec fn deep_view(&self) -> FileEntryView {
        self.view()
    }
}

/// Why a load failed at the top level. Line-oriented transcripts never fail
/// this way: a bad line is skipped. Whole-document and split-storage sessions
/// have no finer unit to recover at, so their top-level faults are surfaced.
#[derive(Clone, Copy, PartialEq, Eq, Structural, Debug)]
pub enum LoadError {
    /// The provider tag matches no registered adapter.
    UnknownProvider,
    /// The locator kind does not fit the provider: a file path where a
    /// directory is needed, or the reverse.
    LocatorMismatch,
    /// A whole-document session file is not well-formed JSON.
    DocumentParse,
    /// A whole-document session file holds no messages array.
    MissingMessages,
}

impl LoadError {
    /// A human-readable description of the failure.
    pub fn message(&self) -> (r: String)
        ensures
            r@ == match *self {
                LoadError::UnknownProvider => "Unknown provider"@,
                LoadError::LocatorMismatch => "Locator does not match provider"@,
                LoadError::DocumentParse => "Failed to parse session JSON"@,
                LoadError::MissingMessages => "No messages array found"@,
            },
    {
        match self {
            LoadError::UnknownProvider => String::from_str("Unknown provider"),
            LoadError::LocatorMismatch => String::from_str("Locator does not match provider"),
            LoadError::DocumentParse => String::from_str("Failed to parse session JSON"),
            LoadError::MissingMessages => String::from_str("No messages array found"),
        }
    }
}

/// The values `f` yields on the elements of `s`, kept in order: the
/// skip-on-failure filtering pass every adapter is built on.
pub open spec fn collect_some<A, B>(s: Seq<A>, f: spec_fn(A) -> Option<B>) -> Seq<B>
    decreases s.len(),
{
    if s.len() == 0 {
        Seq::empty()
    } else {
        collect_some(s.drop_last(), f) + match f(s.last()) {
            Some(b) => seq![b],
            None => Seq::empty(),
        }
    }
}

} // verus!
