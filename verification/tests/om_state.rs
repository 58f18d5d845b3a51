use axiomsync::migration::{
    entry_id_for_record, finish_om_v2_migration, has_column, missing_continuation_issue,
    missing_entry_issue, om_v2_integrity_issues, plan_om_v2_writes, protocol_meta_issue,
    protocol_meta_matches, required_columns, start_om_v2_migration, validate_status_domain,
    MigrationRecord, MigrationStart,
};
use axiomsync::migration::OmOriginType;
use axiomsync::om_state::{
    ContinuationCandidate,
    bool_to_i64, continuation_confidence_milli, continuation_source_kind_from_storage,
    continuation_source_kind_to_storage, elapsed_millis_u64, i64_to_u32_saturating,
    i64_to_u64_saturating, normalize_optional_text, outbox_action, plan_append_om_observation_chunk,
    plan_buffer_om_reflection, plan_om_reflection_apply, reflect_buffer_request_is_live,
    reflect_request_is_live, reflection_metric_deltas, u64_to_i64_saturating,
    usize_to_i64_saturating, ActiveOmEntryRow, BufferReflectionPlan, ChunkAppendPlan,
    OmContinuationSourceKind, OmReflectionApplyOutcome, OutboxAction, ReflectionApplyPlan,
    ReflectionApplyRecordState,
};

fn row(id: &str, text: &str) -> ActiveOmEntryRow {
    ActiveOmEntryRow { entry_id: id.to_string(), text: text.to_string() }
}

fn strings(v: &[&str]) -> Vec<String> {
    v.iter().map(|s| s.to_string()).collect()
}

#[test]
fn reflection_apply_supersedes_covered_entries() {
    let record = ReflectionApplyRecordState { generation_count: 4, last_applied_outbox_event_id: Some(7) };
    let entries = vec![row("e1", "first"), row("e2", "second"), row("e3", "  "), row("e4", "fourth")];
    let plan = plan_om_reflection_apply(
        "session:s1",
        4,
        9,
        "  summary  ",
        &strings(&[" e2 ", "missing", "", "e4"]),
        None,
        None,
        Some(record),
        &entries,
    );
    match plan {
        ReflectionApplyPlan::Apply(w) => {
            assert_eq!(w.reflection_entry_id, "reflection:session:s1:9");
            assert_eq!(w.reflection_text.as_deref(), Some("summary"));
            assert_eq!(w.superseded_entry_ids, strings(&["e2", "e4"]));
            assert_eq!(w.event_id, "outbox:9");
            assert_eq!(w.generation_count, 5);
            assert_eq!(w.last_applied_outbox_event_id, 9);
            assert_eq!(w.active_observations, "summary\n\nfirst");
        }
        other => panic!("unexpected plan {other:?}"),
    }
}

#[test]
fn blank_reflection_keeps_every_entry() {
    let record = ReflectionApplyRecordState { generation_count: 0, last_applied_outbox_event_id: None };
    let plan = plan_om_reflection_apply(
        "k",
        0,
        -3,
        " ",
        &strings(&["a"]),
        None,
        Some("   "),
        Some(record),
        &vec![row("a", "one"), row("b", "two")],
    );
    match plan {
        ReflectionApplyPlan::Apply(w) => {
            assert_eq!(w.reflection_text, None);
            assert!(w.superseded_entry_ids.is_empty());
            assert_eq!(w.active_observations, "one\n\ntwo");
            assert_eq!(w.event_id, "outbox:-3");
            assert_eq!(w.reflection_entry_id, "reflection:k:-3");
            assert_eq!(w.continuation, None);
        }
        other => panic!("unexpected plan {other:?}"),
    }
}

#[test]
fn reflection_guards_come_in_order() {
    let applied = ReflectionApplyRecordState { generation_count: 2, last_applied_outbox_event_id: Some(5) };
    assert_eq!(
        plan_om_reflection_apply("k", 9, 5, "x", &vec![], None, None, Some(applied), &vec![]),
        ReflectionApplyPlan::IdempotentEvent
    );
    assert_eq!(
        plan_om_reflection_apply("k", 9, 6, "x", &vec![], None, None, Some(applied), &vec![]),
        ReflectionApplyPlan::StaleGeneration
    );
    assert_eq!(
        plan_om_reflection_apply("k", 9, 6, "x", &vec![], None, None, None, &vec![]),
        ReflectionApplyPlan::RecordNotFound("om record not found for scope_key=k".to_string())
    );
    assert_eq!(reflection_metric_deltas(OmReflectionApplyOutcome::StaleGeneration), (0, 1, 0));
    assert_eq!(reflection_metric_deltas(OmReflectionApplyOutcome::Applied), (1, 0, 0));
    assert_eq!(reflection_metric_deltas(OmReflectionApplyOutcome::IdempotentEvent), (0, 0, 1));
}

#[test]
fn replaying_an_applied_event_is_idempotent() {
    let before = ReflectionApplyRecordState { generation_count: 1, last_applied_outbox_event_id: None };
    let plan = plan_om_reflection_apply("k", 1, 11, "r", &vec![], None, None, Some(before), &vec![]);
    let after = match plan {
        ReflectionApplyPlan::Apply(w) => ReflectionApplyRecordState {
            generation_count: w.generation_count,
            last_applied_outbox_event_id: Some(w.last_applied_outbox_event_id),
        },
        other => panic!("unexpected plan {other:?}"),
    };
    assert_eq!(
        plan_om_reflection_apply("k", 1, 11, "r", &vec![], None, None, Some(after), &vec![]),
        ReflectionApplyPlan::IdempotentEvent
    );
    assert_eq!(
        plan_om_reflection_apply("k", 1, 12, "r", &vec![], None, None, Some(after), &vec![]),
        ReflectionApplyPlan::StaleGeneration
    );
}

#[test]
fn buffer_and_chunk_plans() {
    assert_eq!(plan_buffer_om_reflection("k", 1, Some((2, None))), BufferReflectionPlan::StaleGeneration);
    assert_eq!(
        plan_buffer_om_reflection("k", 1, Some((1, Some("kept".to_string())))),
        BufferReflectionPlan::AlreadyBuffered
    );
    assert_eq!(plan_buffer_om_reflection("k", 1, Some((1, Some(" ".to_string())))), BufferReflectionPlan::Store);
    assert!(matches!(plan_buffer_om_reflection("k", 1, None), BufferReflectionPlan::RecordNotFound(_)));

    assert_eq!(
        plan_append_om_observation_chunk("k", 3, Some(("r1".to_string(), 3)), "r1", false),
        ChunkAppendPlan::Insert
    );
    assert_eq!(
        plan_append_om_observation_chunk("k", 3, Some(("r1".to_string(), 3)), "r1", true),
        ChunkAppendPlan::AlreadyApplied
    );
    assert_eq!(
        plan_append_om_observation_chunk("k", 0, Some(("r1".to_string(), -4)), "r2", false),
        ChunkAppendPlan::RecordMismatch(
            "om observation chunk record_id mismatch for scope_key=k: expected r1, got r2".to_string()
        )
    );
    assert_eq!(
        plan_append_om_observation_chunk("k", 1, Some(("r1".to_string(), 5_000_000_000)), "r1", false),
        ChunkAppendPlan::StaleGeneration
    );
}

#[test]
fn saturating_conversions_clamp() {
    assert_eq!(i64_to_u32_saturating(-5), 0);
    assert_eq!(i64_to_u32_saturating(5_000_000_000), u32::MAX);
    assert_eq!(i64_to_u32_saturating(42), 42);
    assert_eq!(i64_to_u64_saturating(-1), 0);
    assert_eq!(i64_to_u64_saturating(9), 9);
    assert_eq!(usize_to_i64_saturating(usize::MAX), i64::MAX);
    assert_eq!(u64_to_i64_saturating(u64::MAX), i64::MAX);
    assert_eq!(u64_to_i64_saturating(3), 3);
    assert_eq!(elapsed_millis_u64(u128::MAX), u64::MAX);
    assert_eq!(elapsed_millis_u64(12), 12);
    assert_eq!(bool_to_i64(true), 1);
    assert_eq!(bool_to_i64(false), 0);
}

#[test]
fn continuation_helpers() {
    assert_eq!(normalize_optional_text(Some("  task ")).as_deref(), Some("task"));
    assert_eq!(normalize_optional_text(Some("   ")), None);
    assert_eq!(normalize_optional_text(None), None);
    assert_eq!(continuation_confidence_milli(Some("a"), Some("b")), 920);
    assert_eq!(continuation_confidence_milli(Some("a"), Some(" ")), 820);
    assert_eq!(continuation_confidence_milli(None, None), 0);
    assert_eq!(
        continuation_source_kind_from_storage(" reflection "),
        OmContinuationSourceKind::Reflector
    );
    assert_eq!(
        continuation_source_kind_from_storage("observer_interval"),
        OmContinuationSourceKind::ObserverLlm
    );
    for kind in [
        OmContinuationSourceKind::ObserverLlm,
        OmContinuationSourceKind::ObserverDeterministic,
        OmContinuationSourceKind::Reflector,
        OmContinuationSourceKind::ExplicitUserTask,
    ] {
        assert_eq!(
            continuation_source_kind_from_storage(continuation_source_kind_to_storage(kind)),
            kind
        );
    }
}

#[test]
fn outbox_events_route_by_type() {
    assert_eq!(outbox_action("semantic_scan", false), OutboxAction::SemanticScan);
    assert_eq!(outbox_action("delete", true), OutboxAction::Done);
    assert_eq!(outbox_action("om_reflect_requested", true), OutboxAction::Reflect);
    assert_eq!(outbox_action("om_reflect_requested", false), OutboxAction::Done);
    assert_eq!(outbox_action("om_observe_buffer_requested", true), OutboxAction::ObserveBuffer);
    assert_eq!(outbox_action("om_reflect_buffer_requested", true), OutboxAction::ReflectBuffer);
    assert_eq!(outbox_action("other", true), OutboxAction::Unhandled);
    assert!(reflect_buffer_request_is_live(Some((2, None)), 2));
    assert!(!reflect_buffer_request_is_live(Some((2, Some("x"))), 2));
    assert!(reflect_buffer_request_is_live(Some((2, Some(" "))), 2));
    assert!(!reflect_buffer_request_is_live(None, 2));
    assert!(reflect_request_is_live(Some(4), 4));
    assert!(!reflect_request_is_live(Some(3), 4));
}

fn migration_record(
    scope_key: &str,
    observations: &str,
    task: Option<&str>,
    response: Option<&str>,
) -> MigrationRecord {
    MigrationRecord {
        scope_key: scope_key.to_string(),
        canonical_thread_id: format!("thread-{scope_key}"),
        generation_count: 2,
        origin_type: OmOriginType::Initial,
        active_observations: observations.to_string(),
        current_task: task.map(str::to_string),
        suggested_response: response.map(str::to_string),
        created_at_micros: 1_700_000_000_000_000,
        created_at: "2023-11-14T22:13:20+00:00".to_string(),
        updated_at: "2023-11-14T22:20:00+00:00".to_string(),
    }
}

#[test]
fn migration_plan_counts_and_finishes() {
    let records = vec![
        migration_record("a", "obs", Some(" task "), None),
        migration_record("b", "  ", Some(" "), None),
    ];
    match start_om_v2_migration(&records, true, "v2", "rev", false, false) {
        MigrationStart::Finished(r) => {
            assert!(r.dry_run);
            assert_eq!(r.records_scanned, 2);
            assert_eq!(r.entries_planned, 1);
            assert_eq!(r.continuation_planned, 1);
            assert!(r.protocol_meta_updated);
            assert!(r.integrity_ok);
        }
        other => panic!("unexpected {other:?}"),
    }
    match start_om_v2_migration(&records, false, "v2", "rev", true, true) {
        MigrationStart::Finished(r) => assert!(r.already_applied),
        other => panic!("unexpected {other:?}"),
    }
    let report = match start_om_v2_migration(&records, false, "v2", "rev", true, false) {
        MigrationStart::Apply(r) => r,
        other => panic!("unexpected {other:?}"),
    };
    let err = finish_om_v2_migration(
        report.clone(),
        vec![missing_entry_issue("a"), missing_continuation_issue("a", "t1")],
    )
    .expect_err("integrity");
    assert_eq!(
        err,
        "om v2 one-shot migration integrity check failed: missing om_entries row for scope_key=a; missing om_continuation_state row for scope_key=a canonical_thread_id=t1"
    );
    let done = finish_om_v2_migration(report.clone(), vec![]).expect("ok");
    assert!(done.integrity_ok);
    assert!(done.protocol_meta_updated);
    assert_eq!(done.entries_upserted, 1);
    assert_eq!(done.continuation_upserted, 1);
    assert_eq!(done.records_scanned, 2);
    assert_eq!(done.protocol_version, "v2");
    assert_eq!(done.episodic_rev, "rev");
    assert!(!done.already_applied);
    assert!(!done.dry_run);
    assert_eq!(protocol_meta_issue(Some(("v2", "rev")), "v2", "rev"), None);
    assert_eq!(
        protocol_meta_issue(Some(("v1", "rev")), "v2", "rev").as_deref(),
        Some("om_protocol_meta mismatch: protocol_version=v1, episodic_rev=rev")
    );
    assert_eq!(
        protocol_meta_issue(None, "v2", "rev").as_deref(),
        Some("missing om_protocol_meta row")
    );
    assert_eq!(entry_id_for_record("s:1", 3, -17), "omv2:s:1:3:-17");
}

#[test]
fn status_domain_reports_sorted_distinct_offenders() {
    let allowed = strings(&["new", "done"]);
    assert!(validate_status_domain(&strings(&[" NEW", "done"]), &allowed, "p").is_ok());
    let err = validate_status_domain(&strings(&["zeta", "Alpha ", "zeta", "new", "alpha"]), &allowed, "unsupported outbox schema")
        .expect_err("invalid");
    assert_eq!(err, "unsupported outbox schema: invalid status value(s): alpha, zeta");
    let cols = required_columns();
    assert_eq!(cols.len(), 11);
    assert_eq!(cols[0].column, "next_attempt_at");
    assert!(has_column(&strings(&["id", "lane"]), "lane"));
    assert!(!has_column(&strings(&["id"]), "lane"));
}

#[test]
fn applied_reflection_resets_buffering_and_proposes_the_context_continuation() {
    let record = ReflectionApplyRecordState { generation_count: 0, last_applied_outbox_event_id: None };
    let plan = plan_om_reflection_apply(
        "session:s-reflect",
        0,
        41,
        "compact",
        &vec![],
        Some("Primary: consolidate observations"),
        Some("Ask user to confirm next action"),
        Some(record),
        &vec![],
    );
    match plan {
        ReflectionApplyPlan::Apply(w) => {
            assert_eq!(w.generation_count, 1);
            assert_eq!(w.last_applied_outbox_event_id, 41);
            assert_eq!(w.origin_type, OmOriginType::Reflection);
            assert_eq!(w.active_observations, "compact");
            assert_eq!(w.event_id, "outbox:41");
            assert!(w.superseded_entry_ids.is_empty());
            assert!(!w.is_reflecting);
            assert!(!w.is_buffering_reflection);
            assert_eq!(w.buffered_reflection, None);
            assert_eq!(w.buffered_reflection_tokens, None);
            assert_eq!(w.buffered_reflection_input_tokens, None);
            assert_eq!(w.reflected_observation_line_count, None);
            assert_eq!(
                w.continuation,
                Some(ContinuationCandidate {
                    current_task: Some("Primary: consolidate observations".to_string()),
                    suggested_response: Some("Ask user to confirm next action".to_string()),
                    confidence_milli: 920,
                    source_kind: OmContinuationSourceKind::Reflector,
                })
            );
        }
        other => panic!("unexpected plan {other:?}"),
    }
}

#[test]
fn migration_writes_cover_observations_and_continuations() {
    let mut reflected = migration_record("b", "  second  ", None, Some(" reply "));
    reflected.origin_type = OmOriginType::Reflection;
    let records = vec![
        migration_record("a", "first", Some("task"), Some("reply")),
        reflected,
        migration_record("c", " ", None, None),
    ];
    let w = plan_om_v2_writes(&records, "v2", "rev");
    assert_eq!(w.entries.len(), 2);
    assert_eq!(w.entries[0].entry_id, "omv2:a:2:1700000000000000");
    assert_eq!(w.entries[0].priority, "medium");
    assert_eq!(w.entries[0].origin_kind, "observation");
    assert_eq!(w.entries[0].canonical_thread_id, "thread-a");
    assert_eq!(w.entries[1].text, "second");
    assert_eq!(w.entries[1].origin_kind, "reflection");
    assert_eq!(w.continuations.len(), 2);
    assert_eq!(w.continuations[0].confidence_milli, 920);
    assert_eq!(w.continuations[1].current_task, None);
    assert_eq!(w.continuations[1].suggested_response.as_deref(), Some("reply"));
    assert_eq!(w.continuations[1].confidence_milli, 820);
    assert_eq!(w.continuations[1].source_kind, "migration");
    assert_eq!(w.continuations[1].updated_at, "2023-11-14T22:20:00+00:00");
    assert_eq!((w.protocol_version.as_str(), w.episodic_rev.as_str()), ("v2", "rev"));
}

#[test]
fn migration_integrity_lists_missing_rows_and_passes_when_written() {
    let records = vec![
        migration_record("a", "first", Some("task"), None),
        migration_record("b", "second", None, None),
    ];
    let issues = om_v2_integrity_issues(
        Some(("v1", "rev")),
        "v2",
        "rev",
        &records,
        &vec![true, false],
        &vec![false, false],
    );
    assert_eq!(
        issues,
        vec![
            "om_protocol_meta mismatch: protocol_version=v1, episodic_rev=rev".to_string(),
            "missing om_continuation_state row for scope_key=a canonical_thread_id=thread-a".to_string(),
            "missing om_entries row for scope_key=b".to_string(),
        ]
    );
    assert!(om_v2_integrity_issues(Some(("v2", "rev")), "v2", "rev", &records, &vec![true, true], &vec![true, true])
        .is_empty());
}

#[test]
fn second_apply_finds_the_first_applied() {
    let records = vec![migration_record("a", "first", Some("task"), Some("reply"))];
    let first = match start_om_v2_migration(&records, false, "v2", "rev", false, false) {
        MigrationStart::Apply(r) => r,
        other => panic!("unexpected {other:?}"),
    };
    let w = plan_om_v2_writes(&records, "v2", "rev");
    let r1 = finish_om_v2_migration(first, vec![]).expect("ok");
    assert_eq!((r1.entries_upserted, r1.continuation_upserted), (1, 1));
    let stored = Some((w.protocol_version.as_str(), w.episodic_rev.as_str()));
    let matches = protocol_meta_matches(stored, "v2", "rev");
    assert!(matches);
    match start_om_v2_migration(&records, false, "v2", "rev", matches, true) {
        MigrationStart::Finished(r2) => {
            assert!(r2.already_applied);
            assert_eq!((r2.entries_upserted, r2.continuation_upserted), (0, 0));
            assert!(!r2.protocol_meta_updated);
        }
        other => panic!("unexpected {other:?}"),
    }
}
