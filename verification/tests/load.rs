use agent_sessions::scribe;
use agent_sessions::codex;
use agent_sessions::gemini;
use agent_sessions::model::LoadError;
use agent_sessions::openclaw;
use agent_sessions::opencode;
use agent_sessions::opencode::RawMessage;
use agent_sessions::registry;
use agent_sessions::registry::LoadInput;

fn lines(ls: &[&str]) -> Vec<String> {
    ls.iter().map(|l| l.to_string()).collect()
}

#[test]
fn scribe_tool_result_turn_gets_tool_name() {
    let ls = lines(&[
        r#"{"message":{"role":"assistant","content":[{"type":"tool_use","id":"tu1","name":"Bash"},{"type":"text","text":"running"}]}}"#,
        r#"{"message":{"role":"user","content":[{"type":"tool_result","tool_use_id":"tu1","text":"ok"}]}}"#,
    ]);
    let msgs = scribe::load_messages(&ls);
    assert_eq!(msgs.len(), 2);
    assert_eq!(msgs[0].role, "assistant");
    assert_eq!(msgs[0].content, "running");
    assert_eq!(msgs[1].role, "tool");
    assert_eq!(msgs[1].tool_name.as_deref(), Some("Bash"));
    assert_eq!(msgs[1].content, "ok");
}

#[test]
fn scribe_tool_result_unresolved_has_no_name() {
    // The invocation id appears only later in the file: resolution is
    // forward-only, so the earlier result stays unnamed.
    let ls = lines(&[
        r#"{"message":{"role":"user","content":[{"type":"tool_result","tool_use_id":"tu9","text":"ok"}]}}"#,
        r#"{"message":{"role":"assistant","content":[{"type":"tool_use","id":"tu9","name":"Bash"},{"type":"text","text":"late"}]}}"#,
    ]);
    let msgs = scribe::load_messages(&ls);
    assert_eq!(msgs.len(), 2);
    assert_eq!(msgs[0].role, "tool");
    assert_eq!(msgs[0].tool_name, None);
}

#[test]
fn scribe_mixed_blocks_stay_user() {
    let ls = lines(&[
        r#"{"message":{"role":"user","content":[{"type":"tool_result","tool_use_id":"t","text":"a"},{"type":"text","text":"b"}]}}"#,
    ]);
    let msgs = scribe::load_messages(&ls);
    assert_eq!(msgs.len(), 1);
    assert_eq!(msgs[0].role, "user");
    assert_eq!(msgs[0].content, "a\nb");
    assert_eq!(msgs[0].tool_name, None);
}

#[test]
fn scribe_meta_lines_skipped() {
    let ls = lines(&[
        r#"{"isMeta":true,"message":{"role":"user","content":"hidden"}}"#,
        r#"{"message":{"role":"user","content":"shown"}}"#,
    ]);
    let msgs = scribe::load_messages(&ls);
    assert_eq!(msgs.len(), 1);
    assert_eq!(msgs[0].content, "shown");
}

#[test]
fn scribe_blank_content_dropped() {
    let ls = lines(&[
        r#"{"message":{"role":"user","content":"   "}}"#,
        r#"{"message":{"role":"user","content":""}}"#,
        r#"{"message":{"role":"user","content":[{"type":"image"}]}}"#,
    ]);
    assert!(scribe::load_messages(&ls).is_empty());
}

#[test]
fn scribe_unparseable_lines_skipped() {
    let ls = lines(&[
        "not json at all",
        r#"{"noMessage":1}"#,
        r#"{"message":{"role":"user","content":"kept"}}"#,
    ]);
    let msgs = scribe::load_messages(&ls);
    assert_eq!(msgs.len(), 1);
    assert_eq!(msgs[0].content, "kept");
}

#[test]
fn scribe_missing_role_is_unknown() {
    let ls = lines(&[r#"{"message":{"content":"x"}}"#]);
    let msgs = scribe::load_messages(&ls);
    assert_eq!(msgs.len(), 1);
    assert_eq!(msgs[0].role, "unknown");
}

#[test]
fn codex_load_keeps_only_message_payloads() {
    let ls = lines(&[
        r#"{"type":"response_item","payload":{"type":"message","role":"user","content":"hi"},"timestamp":"2024-01-01T00:00:00Z"}"#,
        r#"{"type":"response_item","payload":{"type":"reasoning","role":"user","content":"skip"}}"#,
        r#"{"type":"other","payload":{"type":"message","role":"user","content":"skip"}}"#,
    ]);
    let msgs = codex::load_messages(&ls);
    assert_eq!(msgs.len(), 1);
    assert_eq!(msgs[0].role, "user");
    assert_eq!(msgs[0].content, "hi");
    assert_eq!(msgs[0].ts, Some(1704067200000));
}

#[test]
fn codex_blank_content_dropped() {
    let ls = lines(&[
        r#"{"type":"response_item","payload":{"type":"message","role":"user","content":" \t "}}"#,
    ]);
    assert!(codex::load_messages(&ls).is_empty());
}

#[test]
fn openclaw_toolresult_role_remapped() {
    let ls = lines(&[
        r#"{"type":"message","message":{"role":"toolResult","content":"done"}}"#,
        r#"{"type":"message","message":{"role":"assistant","content":"next"}}"#,
        r#"{"type":"event","message":{"role":"user","content":"skip"}}"#,
    ]);
    let msgs = openclaw::load_messages(&ls);
    assert_eq!(msgs.len(), 2);
    assert_eq!(msgs[0].role, "tool");
    assert_eq!(msgs[1].role, "assistant");
}

#[test]
fn gemini_assistant_discriminator() {
    let doc = r#"{"messages":[{"type":"gemini","content":"Hello","timestamp":"2024-01-01T00:00:00Z"}]}"#;
    let msgs = gemini::load_messages(doc).unwrap();
    assert_eq!(msgs.len(), 1);
    assert_eq!(msgs[0].role, "assistant");
    assert_eq!(msgs[0].content, "Hello");
}

#[test]
fn gemini_role_passthrough_and_blank_dropped() {
    let doc = r#"{"messages":[{"type":"user","content":"q"},{"type":"note","content":"n"},{"type":"user","content":"  "},{"content":"no type"}]}"#;
    let msgs = gemini::load_messages(doc).unwrap();
    assert_eq!(msgs.len(), 2);
    assert_eq!(msgs[0].role, "user");
    assert_eq!(msgs[1].role, "note");
}

#[test]
fn gemini_document_parse_error() {
    assert_eq!(gemini::load_messages("{broken"), Err(LoadError::DocumentParse));
}

#[test]
fn gemini_missing_messages_error() {
    assert_eq!(gemini::load_messages(r#"{"other":1}"#), Err(LoadError::MissingMessages));
    assert_eq!(
        gemini::load_messages(r#"{"messages":"not an array"}"#),
        Err(LoadError::MissingMessages)
    );
}

fn raw(doc: &str, parts: &[&str]) -> RawMessage {
    RawMessage {
        doc: doc.to_string(),
        parts: parts.iter().map(|p| p.to_string()).collect(),
    }
}

#[test]
fn opencode_sorts_by_timestamp() {
    // Fed in reverse chronological order, the result is ascending.
    let msgs = vec![
        raw(
            r#"{"id":"m2","role":"assistant","time":{"created":1719859300000}}"#,
            &[r#"{"type":"text","text":"second"}"#],
        ),
        raw(
            r#"{"id":"m1","role":"user","time":{"created":1719859200000}}"#,
            &[r#"{"type":"text","text":"first"}"#],
        ),
    ];
    let out = opencode::load_messages(&msgs);
    assert_eq!(out.len(), 2);
    assert_eq!(out[0].content, "first");
    assert_eq!(out[0].ts, Some(1719859200000));
    assert_eq!(out[1].content, "second");
    assert_eq!(out[1].ts, Some(1719859300000));
}

#[test]
fn opencode_non_text_parts_excluded() {
    // A message whose part directory holds only non-text parts is dropped.
    let msgs = vec![
        raw(
            r#"{"id":"m1","role":"assistant","time":{"created":1719859200000}}"#,
            &[r#"{"type":"tool","text":"x"}"#, r#"{"type":"step-start"}"#],
        ),
        raw(
            r#"{"id":"m2","role":"assistant","time":{"created":1719859300000}}"#,
            &[r#"{"type":"text","text":"kept"}"#],
        ),
    ];
    let out = opencode::load_messages(&msgs);
    assert_eq!(out.len(), 1);
    assert_eq!(out[0].content, "kept");
}

#[test]
fn opencode_joins_parts_with_newline() {
    let msgs = vec![raw(
        r#"{"id":"m1","role":"user","time":{"created":1719859200000}}"#,
        &[
            r#"{"type":"text","text":"a"}"#,
            r#"{"type":"tool","text":"skip"}"#,
            r#"{"type":"text","text":"b"}"#,
        ],
    )];
    let out = opencode::load_messages(&msgs);
    assert_eq!(out.len(), 1);
    assert_eq!(out[0].content, "a\nb");
}

#[test]
fn opencode_missing_timestamp_is_none() {
    let msgs = vec![raw(
        r#"{"id":"m1","role":"user"}"#,
        &[r#"{"type":"text","text":"x"}"#],
    )];
    let out = opencode::load_messages(&msgs);
    assert_eq!(out.len(), 1);
    assert_eq!(out[0].ts, None);
}

#[test]
fn registry_dispatch_unknown_provider() {
    let r = registry::load_messages("nonesuch", &LoadInput::Lines(Vec::new()));
    assert_eq!(r, Err(LoadError::UnknownProvider));
}

#[test]
fn registry_dispatch_locator_mismatch() {
    let r = registry::load_messages("scribe", &LoadInput::Document("{}".to_string()));
    assert_eq!(r, Err(LoadError::LocatorMismatch));
    let r2 = registry::load_messages("opencode", &LoadInput::Lines(Vec::new()));
    assert_eq!(r2, Err(LoadError::LocatorMismatch));
}

#[test]
fn registry_dispatch_routes_to_adapter() {
    let ls = lines(&[r#"{"message":{"role":"user","content":"hi"}}"#]);
    let r = registry::load_messages("scribe", &LoadInput::Lines(ls)).unwrap();
    assert_eq!(r.len(), 1);
    assert_eq!(r[0].content, "hi");
    let r2 = registry::load_messages("gemini", &LoadInput::Document("{broken".to_string()));
    assert_eq!(r2, Err(LoadError::DocumentParse));
}

#[test]
fn load_error_messages() {
    assert_eq!(LoadError::UnknownProvider.message(), "Unknown provider");
    assert_eq!(LoadError::LocatorMismatch.message(), "Locator does not match provider");
    assert_eq!(LoadError::DocumentParse.message(), "Failed to parse session JSON");
    assert_eq!(LoadError::MissingMessages.message(), "No messages array found");
}
