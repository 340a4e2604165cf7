//! The provider registry: one scan across every adapter, and message loading
//! dispatched by provider tag.
//!
//! The provider set is fixed and known at build time, so dispatch matches on
//! the tag rather than going through any dynamic mechanism. The locator kind
//! is part of the load input: four providers load from a file's lines or its
//! whole text, one from a directory's raw messages, and a mismatch is
//! rejected rather than mis-dispatched.

use vstd::prelude::*;

use crate::model::{
    FileEntry, FileEntryView, LoadError, MessageView, MetaView, SessionMessage, SessionMeta,
};
use crate::opencode::{RawMessage, RawMessageView};
use crate::strutil::{is_blank, str_eq};
use crate::{scribe, codex, gemini, openclaw, opencode};

verus! {

/// Everything one scan needs: the files walked under each file-based
/// provider's root, and the storage root and session documents of the
/// split-storage provider. A provider that is not installed contributes an
/// empty list.
pub struct ScanInput {
    pub scribe_files: Vec<FileEntry>,
    pub codex_files: Vec<FileEntry>,
    pub gemini_files: Vec<FileEntry>,
    pub openclaw_files: Vec<FileEntry>,
    pub opencode_storage: String,
    pub opencode_docs: Vec<String>,
}

/// Ghost image of a `ScanInput`.
pub ghost struct ScanInputView {
    pub scribe_files: Seq<FileEntryView>,
    pub codex_files: Seq<FileEntryView>,
    pub gemini_files: Seq<FileEntryView>,
    pub openclaw_files: Seq<FileEntryView>,
    pub opencode_storage: Seq<char>,
    pub opencode_docs: Seq<Seq<char>>,
}

impl View for ScanInput {
    type V = ScanInputView;

    open spec fn view(&self) -> ScanInputView {
        ScanInputView {
            scribe_files: self.scribe_files.deep_view(),
            codex_files: self.codex_files.deep_view(),
            gemini_files: self.gemini_files.deep_view(),
            openclaw_files: self.openclaw_files.deep_view(),
            opencode_storage: self.opencode_storage@,
            opencode_docs: self.opencode_docs.deep_view(),
        }
    }
}

/// The one scan across every adapter: each provider's sessions, concatenated
/// in registry order.
pub open spec fn scan_all_view(inp: ScanInputView) -> Seq<MetaView> {
    scribe::scan_view(inp.scribe_files) + codex::scan_view(inp.codex_files) + gemini::scan_view(
        inp.gemini_files,
    ) + openclaw::scan_view(inp.openclaw_files) + opencode::scan_view(
        inp.opencode_storage,
        inp.opencode_docs,
    )
}

/// Scanning is a pure function of the walked trees: the same input yields the
/// same sessions, so scanning twice against an unchanged tree gives identical
/// results.
pub proof fn lemma_scan_deterministic(a: ScanInputView, b: ScanInputView)
    requires
        a == b,
    ensures
        scan_all_view(a) == scan_all_view(b),
{
}

/// Scans every provider and concatenates the results. A provider whose root
/// is missing contributes nothing; the scan itself never fails.
pub fn scan_sessions(input: &ScanInput) -> (r: Vec<SessionMeta>)
    ensures
        r.deep_view() == scan_all_view(input@),
        input@.scribe_files.len() == 0 && input@.codex_files.len() == 0
            && input@.gemini_files.len() == 0 && input@.openclaw_files.len() == 0
            && input@.opencode_docs.len() == 0 ==> r@.len() == 0,
{
    let mut out = scribe::scan_sessions(&input.scribe_files);
    let mut v2 = codex::scan_sessions(&input.codex_files);
    let mut v3 = gemini::scan_sessions(&input.gemini_files);
    let mut v4 = openclaw::scan_sessions(&input.openclaw_files);
    let mut v5 = opencode::scan_sessions(input.opencode_storage.as_str(), &input.opencode_docs);
    let ghost d1 = out.deep_view();
    let ghost d2 = v2.deep_view();
    let ghost d3 = v3.deep_view();
    let ghost d4 = v4.deep_view();
    let ghost d5 = v5.deep_view();
    out.append(&mut v2);
    proof {
        assert(out.deep_view() =~= d1 + d2);
    }
    out.append(&mut v3);
    proof {
        assert(out.deep_view() =~= d1 + d2 + d3);
    }
    out.append(&mut v4);
    proof {
        assert(out.deep_view() =~= d1 + d2 + d3 + d4);
    }
    out.append(&mut v5);
    proof {
        assert(out.deep_view() =~= d1 + d2 + d3 + d4 + d5);
        assert(out.deep_view().len() == out@.len());
    }
    out
}

/// What a loader consumes, by locator kind: the lines of one transcript file,
/// the whole text of one session document, or the raw messages of one message
/// directory.
pub enum LoadInput {
    Lines(Vec<String>),
    Document(String),
    Tree(Vec<RawMessage>),
}

/// Ghost image of a `LoadInput`.
pub ghost enum LoadInputView {
    Lines(Seq<Seq<char>>),
    Document(Seq<char>),
    Tree(Seq<RawMessageView>),
}

impl View for LoadInput {
    type V = LoadInputView;

    open spec fn view(&self) -> LoadInputView {
        match self {
            LoadInput::Lines(ls) => LoadInputView::Lines(ls.deep_view()),
            LoadInput::Document(d) => LoadInputView::Document(d@),
            LoadInput::Tree(ms) => LoadInputView::Tree(ms.deep_view()),
        }
    }
}

/// What loading yields for a provider tag and an input: the provider's
/// messages; or a locator-mismatch error when the input kind is not the one
/// the provider stores, an unknown-provider error for a tag outside the
/// registry, and the document-based provider's own hard failures.
pub open spec fn load_all_view(provider: Seq<char>, input: LoadInputView) -> Result<
    Seq<MessageView>,
    LoadError,
> {
    if provider == "scribe"@ {
        match input {
            LoadInputView::Lines(ls) => Ok(scribe::messages_view(ls)),
            _ => Err(LoadError::LocatorMismatch),
        }
    } else if provider == "codex"@ {
        match input {
            LoadInputView::Lines(ls) => Ok(codex::messages_view(ls)),
            _ => Err(LoadError::LocatorMismatch),
        }
    } else if provider == "gemini"@ {
        match input {
            LoadInputView::Document(d) => gemini::load_view(d),
            _ => Err(LoadError::LocatorMismatch),
        }
    } else if provider == "openclaw"@ {
        match input {
            LoadInputView::Lines(ls) => Ok(openclaw::messages_view(ls)),
            _ => Err(LoadError::LocatorMismatch),
        }
    } else if provider == "opencode"@ {
        match input {
            LoadInputView::Tree(ms) => Ok(opencode::load_view(ms)),
            _ => Err(LoadError::LocatorMismatch),
        }
    } else {
        Err(LoadError::UnknownProvider)
    }
}

/// Dispatches a load to the adapter the provider tag names.
pub fn load_messages(provider_id: &str, input: &LoadInput) -> (r: Result<
    Vec<SessionMessage>,
    LoadError,
>)
    ensures
        match r {
            Ok(v) => load_all_view(provider_id@, input@) == Ok::<Seq<MessageView>, LoadError>(
                v.deep_view(),
            ) && forall|k: int|
                0 <= k < v.deep_view().len() ==> !is_blank(#[trigger] v.deep_view()[k].content),
            Err(e) => load_all_view(provider_id@, input@) == Err::<Seq<MessageView>, LoadError>(e),
        },
{
    if str_eq(provider_id, "scribe") {
        match input {
            LoadInput::Lines(ls) => Ok(scribe::load_messages(ls)),
            _ => Err(LoadError::LocatorMismatch),
        }
    } else if str_eq(provider_id, "codex") {
        match input {
            LoadInput::Lines(ls) => Ok(codex::load_messages(ls)),
            _ => Err(LoadError::LocatorMismatch),
        }
    } else if str_eq(provider_id, "gemini") {
        match input {
            LoadInput::Document(d) => gemini::load_messages(d.as_str()),
            _ => Err(LoadError::LocatorMismatch),
        }
    } else if str_eq(provider_id, "openclaw") {
        match input {
            LoadInput::Lines(ls) => Ok(openclaw::load_messages(ls)),
            _ => Err(LoadError::LocatorMismatch),
        }
    } else if str_eq(provider_id, "opencode") {
        match input {
            LoadInput::Tree(ms) => Ok(opencode::load_messages(ms)),
            _ => Err(LoadError::LocatorMismatch),
        }
    } else {
        Err(LoadError::UnknownProvider)
    }
}

} // verus!
