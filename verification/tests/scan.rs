use agent_sessions::scribe;
use agent_sessions::codex;
use agent_sessions::gemini;
use agent_sessions::model::{FileEntry, SourceLocator};
use agent_sessions::openclaw;
use agent_sessions::opencode;
use agent_sessions::registry;
use agent_sessions::registry::ScanInput;

fn fe(path: &str, created_ms: Option<i64>, modified_ms: Option<i64>) -> FileEntry {
    FileEntry {
        path: path.to_string(),
        created_ms,
        modified_ms,
    }
}

#[test]
fn decode_project_dir_restores_path() {
    assert_eq!(
        scribe::decode_project_dir("-Users-sam-Documents-myproject"),
        "/Users/sam/Documents/myproject"
    );
}

#[test]
fn decode_project_dir_without_boundary_hyphen() {
    assert_eq!(scribe::decode_project_dir("work-stuff"), "work/stuff");
}

#[test]
fn scribe_scan_decodes_project_and_title() {
    let files = vec![fe(
        "/home/u/.scribe/projects/-Users-sam-Documents-myproject/abc123.jsonl",
        Some(1000),
        Some(2000),
    )];
    let sessions = scribe::scan_sessions(&files);
    assert_eq!(sessions.len(), 1);
    let s = &sessions[0];
    assert_eq!(s.provider_id, "scribe");
    assert_eq!(s.session_id, "abc123");
    assert_eq!(s.project_dir.as_deref(), Some("/Users/sam/Documents/myproject"));
    assert_eq!(s.title.as_deref(), Some("myproject"));
    assert_eq!(s.created_at, Some(1000));
    assert_eq!(s.last_active_at, Some(2000));
    assert_eq!(s.resume_command.as_deref(), Some("scribe --resume abc123"));
    assert_eq!(
        s.source_path,
        Some(SourceLocator::FilePath(
            "/home/u/.scribe/projects/-Users-sam-Documents-myproject/abc123.jsonl".to_string()
        ))
    );
}

#[test]
fn scribe_scan_excludes_agent_sessions() {
    let files = vec![
        fe("/r/projects/-p/agent-xyz.jsonl", None, None),
        fe("/r/projects/-p/real.jsonl", None, None),
    ];
    let sessions = scribe::scan_sessions(&files);
    assert_eq!(sessions.len(), 1);
    assert_eq!(sessions[0].session_id, "real");
}

#[test]
fn scribe_scan_ignores_other_extensions() {
    let files = vec![fe("/r/projects/-p/notes.txt", None, None)];
    assert!(scribe::scan_sessions(&files).is_empty());
}

#[test]
fn codex_filename_uuid_extraction() {
    let id = codex::infer_session_id_from_filename(
        "rollout-a1b2c3d4-e5f6-7890-abcd-ef1234567890-x.jsonl",
    );
    assert_eq!(id.as_deref(), Some("a1b2c3d4-e5f6-7890-abcd-ef1234567890"));
}

#[test]
fn codex_scan_extracts_uuid() {
    let files = vec![fe(
        "/r/sessions/2024/rollout-a1b2c3d4-e5f6-7890-abcd-ef1234567890-x.jsonl",
        Some(7),
        Some(9),
    )];
    let sessions = codex::scan_sessions(&files);
    assert_eq!(sessions.len(), 1);
    assert_eq!(sessions[0].session_id, "a1b2c3d4-e5f6-7890-abcd-ef1234567890");
    assert_eq!(
        sessions[0].resume_command.as_deref(),
        Some("codex resume a1b2c3d4-e5f6-7890-abcd-ef1234567890")
    );
    assert_eq!(sessions[0].title, None);
}

#[test]
fn codex_scan_skips_files_without_uuid() {
    let files = vec![fe("/r/sessions/notes.jsonl", None, None)];
    assert!(codex::scan_sessions(&files).is_empty());
}

#[test]
fn gemini_scan_strips_prefix_and_falls_back() {
    let files = vec![fe("/r/tmp/p1/chats/session-abc.json", Some(5), None)];
    let sessions = gemini::scan_sessions(&files);
    assert_eq!(sessions.len(), 1);
    assert_eq!(sessions[0].session_id, "abc");
    // last_active_at falls back to created_at when modification time is absent.
    assert_eq!(sessions[0].last_active_at, Some(5));
    assert_eq!(sessions[0].resume_command.as_deref(), Some("gemini --resume abc"));
}

#[test]
fn gemini_scan_excludes_empty_id() {
    let files = vec![fe("/r/tmp/p1/chats/session-.json", None, None)];
    assert!(gemini::scan_sessions(&files).is_empty());
}

#[test]
fn gemini_scan_keeps_unprefixed_stem() {
    let files = vec![fe("/r/tmp/p1/chats/chat7.json", None, None)];
    let sessions = gemini::scan_sessions(&files);
    assert_eq!(sessions.len(), 1);
    assert_eq!(sessions[0].session_id, "chat7");
}

#[test]
fn openclaw_scan_has_no_resume_command() {
    let files = vec![fe("/r/agents/a1/sessions/s9.jsonl", Some(1), Some(2))];
    let sessions = openclaw::scan_sessions(&files);
    assert_eq!(sessions.len(), 1);
    assert_eq!(sessions[0].provider_id, "openclaw");
    assert_eq!(sessions[0].session_id, "s9");
    assert_eq!(sessions[0].resume_command, None);
}

#[test]
fn openclaw_scan_excludes_reserved_index() {
    let files = vec![fe("/r/agents/a1/sessions/sessions.json", None, None)];
    assert!(openclaw::scan_sessions(&files).is_empty());
}

#[test]
fn opencode_scan_reads_document() {
    let storage = "/home/u/.local/share/opencode/storage";
    let doc = r#"{"id":"s1","title":"","directory":"/work/proj","time":{"created":1719859200000,"updated":1719859300000}}"#;
    let sessions = opencode::scan_sessions(storage, &vec![doc.to_string()]);
    assert_eq!(sessions.len(), 1);
    let s = &sessions[0];
    assert_eq!(s.session_id, "s1");
    // The empty title falls back to the project directory's last segment.
    assert_eq!(s.title.as_deref(), Some("proj"));
    assert_eq!(s.project_dir.as_deref(), Some("/work/proj"));
    assert_eq!(s.created_at, Some(1719859200000));
    assert_eq!(s.last_active_at, Some(1719859300000));
    assert_eq!(
        s.source_path,
        Some(SourceLocator::DirPath(
            "/home/u/.local/share/opencode/storage/message/s1".to_string()
        ))
    );
    assert_eq!(s.resume_command.as_deref(), Some("opencode session resume s1"));
}

#[test]
fn opencode_scan_keeps_explicit_title() {
    let storage = "/s";
    let doc = r#"{"id":"s2","title":"My chat","time":{"created":1719859200000}}"#;
    let sessions = opencode::scan_sessions(storage, &vec![doc.to_string()]);
    assert_eq!(sessions.len(), 1);
    assert_eq!(sessions[0].title.as_deref(), Some("My chat"));
    // updated is absent: last_active_at falls back to created_at.
    assert_eq!(sessions[0].last_active_at, Some(1719859200000));
}

#[test]
fn opencode_message_id_reads_document() {
    assert_eq!(
        opencode::message_id(r#"{"id":"m42","role":"user"}"#).as_deref(),
        Some("m42")
    );
    assert_eq!(opencode::message_id("not json"), None);
}

#[test]
fn scan_on_missing_roots_is_empty() {
    // A missing root walks to an empty file list; every adapter then yields
    // an empty scan rather than an error.
    assert!(scribe::scan_sessions(&Vec::new()).is_empty());
    assert!(codex::scan_sessions(&Vec::new()).is_empty());
    assert!(gemini::scan_sessions(&Vec::new()).is_empty());
    assert!(openclaw::scan_sessions(&Vec::new()).is_empty());
    assert!(opencode::scan_sessions("/s", &Vec::new()).is_empty());
    let input = ScanInput {
        scribe_files: Vec::new(),
        codex_files: Vec::new(),
        gemini_files: Vec::new(),
        openclaw_files: Vec::new(),
        opencode_storage: "/s".to_string(),
        opencode_docs: Vec::new(),
    };
    assert!(registry::scan_sessions(&input).is_empty());
}

fn sample_input() -> ScanInput {
    ScanInput {
        scribe_files: vec![fe("/r/projects/-w-p/one.jsonl", Some(1), Some(2))],
        codex_files: vec![fe(
            "/r/sessions/rollout-a1b2c3d4-e5f6-7890-abcd-ef1234567890-x.jsonl",
            None,
            None,
        )],
        gemini_files: vec![fe("/r/tmp/p/chats/session-g.json", None, None)],
        openclaw_files: vec![fe("/r/agents/a/sessions/o.jsonl", None, None)],
        opencode_storage: "/s".to_string(),
        opencode_docs: vec![r#"{"id":"s1","title":"t"}"#.to_string()],
    }
}

#[test]
fn scan_is_idempotent() {
    let first = registry::scan_sessions(&sample_input());
    let second = registry::scan_sessions(&sample_input());
    assert_eq!(first, second);
    assert_eq!(first.len(), 5);
}

#[test]
fn scan_concatenates_in_registry_order() {
    let sessions = registry::scan_sessions(&sample_input());
    let providers: Vec<&str> = sessions.iter().map(|s| s.provider_id.as_str()).collect();
    assert_eq!(providers, vec!["scribe", "codex", "gemini", "openclaw", "opencode"]);
}
