use axiomsync::expansion::{
    convergence_check_due, expansion_node_step, identifier_fast_path_allowed, ExpansionProgress,
    NodeAction, StopReason,
};
use axiomsync::cli::SearchBudget;
use axiomsync::expansion::{
    global_rank_floor, is_identifier_style_query, update_convergence_state, upsert_hit_if_higher,
    uri_in_target_optimized, uri_matches_filter_projection, uri_matches_query_bounds_optimized,
    ContextHit, HitSet, GLOBAL_RANK_FLOOR_DEFAULT, GLOBAL_RANK_FLOOR_IDENTIFIER_QUERY,
};
use axiomsync::planner::{
    collect_scope_names, dedup_and_limit_queries, is_om_hint, merge_non_om_hints, normalize_scopes,
    plan_queries, query_intent, PlannedQuery, SearchOptions,
};
use axiomsync::scope::Scope;

/// An order key for a finite score: a higher score gives a higher key.
fn score_key(score: f32) -> u32 {
    let bits = score.to_bits();
    if bits & 0x8000_0000 != 0 {
        !bits
    } else {
        bits | 0x8000_0000
    }
}

fn score_of(key: u32) -> f32 {
    if key & 0x8000_0000 != 0 {
        f32::from_bits(key & 0x7fff_ffff)
    } else {
        f32::from_bits(!key)
    }
}

fn hit(uri: &str, score: f32) -> ContextHit {
    ContextHit {
        uri: uri.to_string(),
        score: score_key(score),
        abstract_text: String::new(),
        context_type: "resource".to_string(),
    }
}

#[test]
fn identifier_style_query_detection_is_explicit() {
    assert!(is_identifier_style_query("projectlogbook"));
    assert!(is_identifier_style_query("mcpintegration"));
    assert!(!is_identifier_style_query("mcp integration"));
    assert!(!is_identifier_style_query("docs"));
}

#[test]
fn global_rank_floor_uses_identifier_budget_for_dense_tokens() {
    assert_eq!(
        global_rank_floor("projectlogbook"),
        GLOBAL_RANK_FLOOR_IDENTIFIER_QUERY
    );
    assert_eq!(global_rank_floor("qa"), GLOBAL_RANK_FLOOR_DEFAULT);
    assert_eq!(global_rank_floor("qa guide"), GLOBAL_RANK_FLOOR_DEFAULT);
}

#[test]
fn upsert_hit_if_higher_keeps_max_score_per_uri() {
    let mut selected = HitSet::new();
    upsert_hit_if_higher(&mut selected, hit("axiom://resources/docs/a.md", 0.21));
    upsert_hit_if_higher(&mut selected, hit("axiom://resources/docs/a.md", 0.39));
    upsert_hit_if_higher(&mut selected, hit("axiom://resources/docs/a.md", 0.22));

    assert_eq!(selected.len(), 1);
    assert!(
        (score_of(
            selected
                .get("axiom://resources/docs/a.md")
                .expect("selected hit")
                .score
        ) - 0.39)
            .abs()
            < 0.0001
    );
}

#[test]
fn convergence_topk_is_deterministic_for_equal_scores() {
    let mut selected = HitSet::new();
    upsert_hit_if_higher(&mut selected, hit("axiom://resources/docs/b.md", 0.7));
    upsert_hit_if_higher(&mut selected, hit("axiom://resources/docs/a.md", 0.7));
    upsert_hit_if_higher(&mut selected, hit("axiom://resources/docs/c.md", 0.2));

    let mut previous_topk = Vec::new();
    let mut stable_rounds = 0;
    assert!(!update_convergence_state(
        &selected,
        2,
        &mut previous_topk,
        &mut stable_rounds,
        2
    ));
    assert_eq!(
        previous_topk,
        vec![
            "axiom://resources/docs/a.md".to_string(),
            "axiom://resources/docs/b.md".to_string()
        ]
    );
    assert_eq!(stable_rounds, 0);

    assert!(!update_convergence_state(
        &selected,
        2,
        &mut previous_topk,
        &mut stable_rounds,
        2
    ));
    assert_eq!(stable_rounds, 1);

    assert!(update_convergence_state(
        &selected,
        2,
        &mut previous_topk,
        &mut stable_rounds,
        2
    ));
    assert_eq!(stable_rounds, 2);
}

#[test]
fn convergence_resets_when_top_changes() {
    let mut selected = HitSet::new();
    upsert_hit_if_higher(&mut selected, hit("axiom://resources/a", 0.5));
    let mut previous = vec!["axiom://resources/a".to_string()];
    let mut rounds = 5u32;
    assert!(update_convergence_state(&selected, 1, &mut previous, &mut rounds, 3));
    assert_eq!(rounds, 6);
    upsert_hit_if_higher(&mut selected, hit("axiom://resources/b", 0.9));
    assert!(!update_convergence_state(&selected, 1, &mut previous, &mut rounds, 3));
    assert_eq!(rounds, 0);
    assert_eq!(previous, vec!["axiom://resources/b".to_string()]);
}

#[test]
fn lower_score_never_replaces_a_hit() {
    let mut selected = HitSet::new();
    let mut first = hit("axiom://user/x", 0.8);
    first.abstract_text = "kept".to_string();
    upsert_hit_if_higher(&mut selected, first);
    upsert_hit_if_higher(&mut selected, hit("axiom://user/x", 0.8));
    upsert_hit_if_higher(&mut selected, hit("axiom://user/x", -1.0));
    assert_eq!(selected.get("axiom://user/x").expect("hit").abstract_text, "kept");
    assert!(selected.get("axiom://user/y").is_none());
}

#[test]
fn uri_bounds_respect_scopes_target_and_projection() {
    let planned = PlannedQuery::new("primary", "q".to_string(), vec![Scope::Resources], 1);
    assert!(uri_matches_query_bounds_optimized(
        "axiom://resources/docs/a.md",
        &planned,
        Some("axiom://resources/docs"),
        Some("axiom://resources/docs/")
    ));
    assert!(!uri_matches_query_bounds_optimized(
        "axiom://user/docs/a.md",
        &planned,
        None,
        None
    ));
    assert!(!uri_in_target_optimized(
        "axiom://resources/docsx",
        Some("axiom://resources/docs"),
        Some("axiom://resources/docs/")
    ));
    assert!(uri_in_target_optimized("anything", None, Some("p/")));
    let allowed = vec!["axiom://resources/a".to_string()];
    assert!(uri_matches_filter_projection("axiom://resources/a", Some(&allowed)));
    assert!(!uri_matches_filter_projection("axiom://resources/b", Some(&allowed)));
    assert!(uri_matches_filter_projection("axiom://resources/b", None));
}

#[test]
fn normalize_scopes_is_value_based_and_sorted() {
    let scopes = normalize_scopes(vec![
        Scope::Resources,
        Scope::User,
        Scope::Resources,
        Scope::Agent,
    ]);
    assert_eq!(scopes, vec![Scope::Agent, Scope::Resources, Scope::User]);
}

#[test]
fn dedup_queries_ignores_scope_order_after_normalization() {
    let queries = vec![
        PlannedQuery::new(
            "primary",
            "oauth flow".to_string(),
            vec![Scope::User, Scope::Resources],
            1,
        ),
        PlannedQuery::new(
            "primary",
            "OAUTH FLOW".to_string(),
            vec![Scope::Resources, Scope::User],
            1,
        ),
    ];
    let deduped = dedup_and_limit_queries(queries, 5);
    assert_eq!(deduped.len(), 1);
}

#[test]
fn collect_scope_names_returns_sorted_distinct_names() {
    let planned = vec![
        PlannedQuery::new(
            "primary",
            "q".to_string(),
            vec![Scope::Resources, Scope::User],
            1,
        ),
        PlannedQuery::new(
            "secondary",
            "q2".to_string(),
            vec![Scope::Agent, Scope::User],
            2,
        ),
    ];
    let names = collect_scope_names(&planned);
    assert_eq!(
        names,
        vec![
            "agent".to_string(),
            "resources".to_string(),
            "user".to_string()
        ]
    );
}

#[test]
fn query_intent_parses_skill_and_memory_flags() {
    let skill = query_intent("show skill docs");
    assert!(skill.wants_skill);
    assert!(!skill.wants_memory);

    let memory = query_intent("memory preference profile");
    assert!(!memory.wants_skill);
    assert!(memory.wants_memory);
}

#[test]
fn is_om_hint_is_case_insensitive_and_trim_aware() {
    assert!(is_om_hint("om: hint"));
    assert!(is_om_hint("  Om: hint"));
    assert!(is_om_hint("\tOM: hint"));
    assert!(!is_om_hint("hint om: value"));
    assert!(!is_om_hint("memo: hint"));
}

#[test]
fn merge_non_om_hints_skips_om_prefixed_entries() {
    let hints = vec![
        "recent one".to_string(),
        "  om: long memory".to_string(),
        " recent two ".to_string(),
        " ".to_string(),
    ];
    assert_eq!(merge_non_om_hints(&hints), "recent one recent two");
}

#[test]
fn plan_queries_expands_session_search_and_drops_duplicates() {
    let options = SearchOptions {
        query: "remember my preference".to_string(),
        request_type: "search".to_string(),
        target_scope: None,
        session: Some("s1".to_string()),
        session_hints: vec!["focus on rust".to_string(), "om: user likes tea".to_string()],
    };
    let planned = plan_queries(&options);
    let kinds: Vec<&str> = planned.iter().map(|q| q.kind.as_str()).collect();
    assert_eq!(kinds, vec!["primary", "session_om", "session_recent"]);
    assert_eq!(planned[1].query, "remember my preference user likes tea");
    assert_eq!(planned[2].query, "remember my preference focus on rust");
    for q in &planned {
        assert_eq!(q.scopes, vec![Scope::Agent, Scope::User]);
    }
    assert_eq!(planned.iter().map(|q| q.priority).collect::<Vec<u8>>(), vec![1, 2, 2]);
}

#[test]
fn plan_queries_keeps_only_primary_for_non_search_requests() {
    let options = SearchOptions {
        query: "skill lookup".to_string(),
        request_type: "find".to_string(),
        target_scope: None,
        session: Some("s1".to_string()),
        session_hints: vec!["extra".to_string()],
    };
    let planned = plan_queries(&options);
    assert_eq!(planned.len(), 1);
    assert_eq!(planned[0].kind, "primary");
    assert_eq!(planned[0].query, "skill lookup");
    assert_eq!(planned[0].scopes, vec![Scope::Agent]);
}

#[test]
fn fast_path_opts_out_when_time_or_nodes_are_bounded() {
    let id = "projectlogbook";
    assert!(identifier_fast_path_allowed(&None, id));
    let depth_only = Some(SearchBudget { max_ms: None, max_nodes: None, max_depth: Some(2) });
    assert!(identifier_fast_path_allowed(&depth_only, id));
    let timed = Some(SearchBudget { max_ms: Some(50), max_nodes: None, max_depth: None });
    assert!(!identifier_fast_path_allowed(&timed, id));
    let counted = Some(SearchBudget { max_ms: None, max_nodes: Some(10), max_depth: None });
    assert!(!identifier_fast_path_allowed(&counted, id));
    assert!(!identifier_fast_path_allowed(&None, "how do refunds work"));
}

#[test]
fn expansion_steps_stop_on_budgets_and_skip_deep_or_visited_nodes() {
    let p = ExpansionProgress::start();
    let (p1, a1) = expansion_node_step(p, 5, Some(100), 2, 1, 3, false);
    assert_eq!(a1, NodeAction::Expand);
    assert_eq!((p1.round, p1.explored, p1.stop_reason), (1, 1, StopReason::QueueEmpty));
    let (p2, a2) = expansion_node_step(p1, 5, Some(100), 2, 4, 3, false);
    assert_eq!(a2, NodeAction::Skip);
    assert_eq!(p2.stop_reason, StopReason::MaxDepth);
    assert_eq!(p2.stop_reason.as_str(), "max_depth");
    let (p3, a3) = expansion_node_step(p2, 5, Some(100), 2, 1, 3, true);
    assert_eq!((a3, p3), (NodeAction::Skip, p2));
    let (p4, _) = expansion_node_step(p3, 5, None, 2, 1, 3, false);
    let (p5, a5) = expansion_node_step(p4, 5, None, 2, 1, 3, false);
    assert_eq!(a5, NodeAction::Stop);
    assert_eq!(p5.stop_reason.as_str(), "budget_nodes");
    assert_eq!(p5.explored, 2);
    let (p6, a6) = expansion_node_step(p, 100, Some(100), 2, 1, 3, false);
    assert_eq!(a6, NodeAction::Stop);
    assert_eq!(p6.stop_reason.as_str(), "budget_ms");
    assert!(convergence_check_due(8));
    assert!(!convergence_check_due(9));
}
