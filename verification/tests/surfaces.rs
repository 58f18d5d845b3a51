use axiomsync::editor::{SaveAction, SaveEvent, SaveFailure, SaveRun, SaveStage};
use axiomsync::cli::{
    resolve_viewer_binary_candidate, bool_to_count, ensure_single_source_selection, parse_min_match_tokens, parse_positive_usize,
    parse_runtime_hint_kind, parse_runtime_hint_token, parse_search_budget,
    validate_add_ingest_flags, validate_document_preview_source_selection,
    validate_document_save_source_selection, RuntimeHintKind, SearchBudget,
};
use axiomsync::editor::{
    check_expected_etag, markdown_etag, reindex_failure_message, scope_root_error,
    validate_editor_content, validate_editor_target, EditorErrorKind, EditorMode, EditorTarget,
};
use axiomsync::kernel::{
    append_raw_events, plan_ingest, search_entries, IngestRejection, RawEventBatch,
    RawEventEnvelope, SearchRequest,
};
use axiomsync::json::JsonValue;
use axiomsync::om_bridge::{
    OmObserveBufferRequestedV1, OmReflectRequestedV1, OmReplayModeV1, OmScope, OmScopeV1,
    OM_OUTBOX_SCHEMA_VERSION_V1,
};
use axiomsync::scope::Scope;
use axiomsync::sink::{AxiomSync, CursorError, SourceCursorInput};

#[test]
fn min_match_tokens_parser_messages() {
    assert_eq!(parse_min_match_tokens("3"), Ok(3));
    assert_eq!(
        parse_min_match_tokens("1"),
        Err("min-match-tokens must be >= 2, got 1".to_string())
    );
    assert_eq!(
        parse_min_match_tokens("x"),
        Err("invalid integer value 'x'".to_string())
    );
    assert_eq!(parse_positive_usize("+7"), Ok(7));
    assert_eq!(parse_positive_usize("0"), Err("value must be >= 1".to_string()));
    assert_eq!(
        parse_positive_usize("-1"),
        Err("invalid integer value: -1".to_string())
    );
}

#[test]
fn add_flags_and_source_selection() {
    assert_eq!(
        validate_add_ingest_flags(false, true, &vec![]),
        Err("--include-hidden requires --markdown-only".to_string())
    );
    assert_eq!(
        validate_add_ingest_flags(false, false, &vec!["*.tmp".to_string()]),
        Err("--exclude requires --markdown-only".to_string())
    );
    assert_eq!(validate_add_ingest_flags(true, true, &vec!["x".to_string()]), Ok(()));
    assert!(parse_search_budget(None, None, None).is_none());
    assert_eq!(
        parse_search_budget(Some(5), None, None),
        Some(SearchBudget { max_ms: Some(5), max_nodes: None, max_depth: None })
    );
    assert_eq!(bool_to_count(true), 1);
    assert_eq!(ensure_single_source_selection(1, "m", "x"), Ok(()));
    assert_eq!(ensure_single_source_selection(0, "m", "x"), Err("m".to_string()));
    assert_eq!(ensure_single_source_selection(2, "m", "x"), Err("x".to_string()));
    assert!(validate_document_save_source_selection(Some("c"), None, false).is_ok());
    assert_eq!(
        validate_document_save_source_selection(None, None, false),
        Err("document save content source is required: use one of --content, --from <path>, --stdin".to_string())
    );
    assert_eq!(
        validate_document_preview_source_selection(Some("u"), Some("c"), None, false),
        Err("document preview accepts exactly one source: choose one of --uri, --content, --from, --stdin".to_string())
    );
}

#[test]
fn runtime_hint_parsing() {
    assert_eq!(parse_runtime_hint_kind(" Obs "), Ok(RuntimeHintKind::Observation));
    assert_eq!(parse_runtime_hint_kind("next"), Ok(RuntimeHintKind::SuggestedResponse));
    assert_eq!(
        parse_runtime_hint_kind("bogus"),
        Err("invalid runtime hint kind 'bogus'".to_string())
    );
    let hint = parse_runtime_hint_token("observation: from cli ", Some("cli:hint")).expect("hint");
    assert_eq!(hint.kind, RuntimeHintKind::Observation);
    assert_eq!(hint.text, "from cli");
    assert_eq!(hint.source.as_deref(), Some("cli:hint"));
    assert_eq!(
        parse_runtime_hint_token("nocolon", None),
        Err("invalid --hint value 'nocolon': expected KIND:TEXT".to_string())
    );
    assert_eq!(
        parse_runtime_hint_token("task:  ", None),
        Err("invalid --hint value 'task:  ': text must not be empty".to_string())
    );
}

#[test]
fn editor_target_checks_in_order() {
    let target = |scope, exists, is_dir, name| EditorTarget {
        uri: "axiom://resources/docs/a.md",
        scope,
        exists,
        is_dir,
        name,
    };
    let ok = validate_editor_target(&target(Scope::Resources, true, false, Some("A.MD")), EditorMode::Markdown, true);
    assert_eq!(ok, Ok("md".to_string()));
    let e = validate_editor_target(&target(Scope::Temp, true, false, Some("a.md")), EditorMode::Document, false)
        .expect_err("scope");
    assert_eq!(e.kind, EditorErrorKind::PermissionDenied);
    assert_eq!(e.message, "document editor does not allow scope: temp");
    let e = validate_editor_target(&target(Scope::User, false, false, Some("a.md")), EditorMode::Document, false)
        .expect_err("missing");
    assert_eq!(e.kind, EditorErrorKind::NotFound);
    let e = validate_editor_target(&target(Scope::User, true, false, Some(".overview.md")), EditorMode::Markdown, false)
        .expect_err("tier");
    assert_eq!(e.message, "markdown editor cannot modify generated tier file: axiom://resources/docs/a.md");
    let e = validate_editor_target(&target(Scope::Agent, true, false, Some("a.jsonl")), EditorMode::Document, true)
        .expect_err("save ext");
    assert_eq!(
        e.message,
        "document save supports .md/.markdown/.json/.yaml/.yml targets: axiom://resources/docs/a.md"
    );
    assert_eq!(
        validate_editor_target(&target(Scope::Agent, true, false, Some("a.jsonl")), EditorMode::Document, false),
        Ok("jsonl".to_string())
    );
    assert_eq!(EditorMode::Document.format_for_extension("yml"), "yaml");
    assert!(!EditorMode::Document.is_editable_extension("xml"));
}

#[test]
fn editor_content_and_etags() {
    assert!(validate_editor_content(EditorMode::Document, "json", "{\"a\":1}").is_ok());
    let e = validate_editor_content(EditorMode::Document, "json", "{").expect_err("bad json");
    assert!(e.message.starts_with("invalid json content for document save: "));
    assert!(validate_editor_content(EditorMode::Markdown, "json", "{").is_ok());
    let e = validate_editor_content(EditorMode::Document, "yaml", "a: [").expect_err("bad yaml");
    assert!(e.message.starts_with("invalid yaml content for document save: "));
    let etag = markdown_etag("hello");
    assert_eq!(etag, "ea8f163db38682925e4491c5e58d4bb3506ef8c14eb78a86e908c5624a67200f");
    assert_eq!(markdown_etag("").len(), 64);
    assert!(check_expected_etag("u", &etag, Some(&etag)).is_ok());
    let e = check_expected_etag("u", &etag, Some("nope")).expect_err("conflict");
    assert_eq!(e.kind, EditorErrorKind::Conflict);
    assert_eq!(e.message, "etag mismatch for u");
    assert!(check_expected_etag("u", &etag, None).is_ok());
    assert_eq!(scope_root_error(EditorMode::Document).message, "document target must not be a scope root");
    assert_eq!(
        reindex_failure_message(EditorMode::Markdown, "u", "boom", None, Some("again")),
        "markdown save failed during reindex for u: reindex_err=boom; rollback_write=ok; rollback_reindex=err:again"
    );
}

fn event(connector: &str, kind: &str) -> RawEventEnvelope {
    RawEventEnvelope {
        source_kind: "chat".to_string(),
        connector: connector.to_string(),
        session_kind: "thread".to_string(),
        external_session_key: None,
        external_entry_key: None,
        event_kind: kind.to_string(),
        observed_at: "2026-01-01T00:00:00Z".to_string(),
        captured_at: None,
        workspace_root: None,
        content_hash: None,
        dedupe_key: None,
        payload: JsonValue::Null,
        raw_payload: None,
        artifacts: Vec::new(),
    }
}

#[test]
fn ingest_plan_partitions_events() {
    let batch = RawEventBatch {
        batch_id: "b".to_string(),
        events: vec![event("slack", "message"), event(" ", "message"), event("slack", "\t"), event("x", "y")],
    };
    let plan = plan_ingest(batch);
    assert_eq!(plan.accepted.len(), 2);
    assert_eq!(
        plan.rejected,
        vec![(1, IngestRejection::MissingConnector), (2, IngestRejection::MissingEventKind)]
    );
    assert_eq!(IngestRejection::MissingEventKind.message(), "missing event_kind");
    assert!(plan.projection_required);
    let empty = plan_ingest(RawEventBatch { batch_id: "e".to_string(), events: vec![] });
    assert!(!empty.projection_required);
    let resp = append_raw_events(&RawEventBatch { batch_id: "c".to_string(), events: vec![event("a", "b")] });
    assert_eq!(resp.accepted, 1);
    assert_eq!(resp.rejected, 0);
    assert!(resp.projection_required);
    let hits = search_entries(&SearchRequest {
        query: "q".to_string(),
        session_kind: None,
        connector: None,
        workspace_root: None,
        limit: Some(3),
    });
    assert!(hits.hits.is_empty());
}

#[test]
fn cursor_plans_validate_fields() {
    let app = AxiomSync::new();
    let input = SourceCursorInput {
        connector: "slack".to_string(),
        cursor_key: "channel".to_string(),
        cursor_value: "42".to_string(),
        updated_at_ms: 7,
    };
    let plan = app.plan_upsert_source_cursor(&input).expect("plan");
    assert_eq!(plan.row.connector, "slack");
    assert_eq!(plan.row.updated_at_ms, 7);
    assert!(plan.validate().is_ok());
    let mut bad = input.clone();
    bad.cursor_key = "  ".to_string();
    assert_eq!(app.plan_upsert_source_cursor(&bad), Err(CursorError::CursorKeyRequired));
    bad.connector = String::new();
    assert_eq!(bad.validate(), Err(CursorError::ConnectorRequired));
    assert_eq!(CursorError::CursorValueRequired.message(), "cursor_value required");
}

#[test]
fn bridge_payloads_carry_the_schema_version() {
    let ev = OmObserveBufferRequestedV1::new("k", 3, "t".to_string(), Some("s"));
    assert_eq!(ev.schema_version, OM_OUTBOX_SCHEMA_VERSION_V1);
    assert_eq!(ev.scope_key, "k");
    assert_eq!(ev.session_id.as_deref(), Some("s"));
    let r = OmReflectRequestedV1::new("k2", 9, "now".to_string());
    assert_eq!(r.expected_generation, 9);
    assert_eq!(OmReplayModeV1::default(), OmReplayModeV1::Full);
    assert_eq!(OmReplayModeV1::OmOnly.as_str(), "om_only");
    assert_eq!(OmScopeV1::Thread.to_engine_scope(), OmScope::Thread);
}

#[test]
fn viewer_binary_candidate_uses_default_when_unset() {
    assert_eq!(resolve_viewer_binary_candidate(None), "axiomnexus-webd");
}

#[test]
fn viewer_binary_candidate_uses_default_for_blank_value() {
    assert_eq!(resolve_viewer_binary_candidate(Some("   ")), "axiomnexus-webd");
}

#[test]
fn viewer_binary_candidate_uses_trimmed_override() {
    assert_eq!(resolve_viewer_binary_candidate(Some(" /tmp/viewer ")), "/tmp/viewer");
}

#[test]
fn save_writes_reindexes_and_reads_back_the_tag() {
    let uri = "axiom://resources/docs/a.md";
    let (run, a) = SaveRun::start(EditorMode::Markdown, uri.to_string(), "new".to_string(), Some(markdown_etag("old")));
    assert_eq!(a, SaveAction::Read);
    let (run, a) = run.step(SaveEvent::ReadDone(Ok("old".to_string())));
    assert_eq!(a, SaveAction::Write("new".to_string()));
    let (run, a) = run.step(SaveEvent::WriteDone(Ok(())));
    assert_eq!(a, SaveAction::Reindex);
    let (run, a) = run.step(SaveEvent::ReindexDone(Ok(())));
    assert_eq!(a, SaveAction::Read);
    let (run, a) = run.step(SaveEvent::ReadDone(Ok("new".to_string())));
    assert_eq!(a, SaveAction::Succeed { etag: markdown_etag("new") });
    assert_eq!(run.stage, SaveStage::Finished);
    let (_, a) = run.step(SaveEvent::WriteDone(Ok(())));
    assert_eq!(a, SaveAction::Ignore);
}

#[test]
fn save_refuses_a_stale_tag_and_rolls_back_a_failed_reindex() {
    let uri = "axiom://resources/docs/a.md";
    let (run, _) = SaveRun::start(EditorMode::Markdown, uri.to_string(), "new".to_string(), Some("stale".to_string()));
    let (_, a) = run.step(SaveEvent::ReadDone(Ok("old".to_string())));
    match a {
        SaveAction::Fail(SaveFailure::Conflict(err)) => {
            assert_eq!(err.kind, EditorErrorKind::Conflict);
            assert_eq!(err.message, format!("etag mismatch for {uri}"));
        }
        other => panic!("unexpected {other:?}"),
    }
    let (run, _) = SaveRun::start(EditorMode::Markdown, uri.to_string(), "new".to_string(), None);
    let (run, _) = run.step(SaveEvent::ReadDone(Ok("old".to_string())));
    let (run, _) = run.step(SaveEvent::WriteDone(Ok(())));
    let (run, a) = run.step(SaveEvent::ReindexDone(Err("index down".to_string())));
    assert_eq!(a, SaveAction::Write("old".to_string()));
    let (run, a) = run.step(SaveEvent::WriteDone(Ok(())));
    assert_eq!(a, SaveAction::Reindex);
    let (_, a) = run.step(SaveEvent::ReindexDone(Err("still down".to_string())));
    assert_eq!(
        a,
        SaveAction::Fail(SaveFailure::Internal(format!(
            "markdown save failed during reindex for {uri}: reindex_err=index down; rollback_write=ok; rollback_reindex=err:still down"
        )))
    );
}
