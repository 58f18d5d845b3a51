use axiomsync::observer::{
    buffered_observations_text, normalize_observation_text, normalize_text,
    observed_message_ids_set, plan_observer_continuation_updates, truncate_chars, OmObserverMode,
    ThreadContinuation,
};
use axiomsync::prompt_policy::{
    parse_prompt_signature_entry_header, parse_prompt_signature_field,
    parse_prompt_signature_policy_map, prompt_contract_signature_changed_without_version_bump,
};

fn chars(s: &str) -> Vec<char> {
    s.chars().collect()
}

fn text(v: &[char]) -> String {
    v.iter().collect()
}

fn thread(id: &str, task: Option<&str>, resp: Option<&str>) -> ThreadContinuation {
    ThreadContinuation {
        canonical_thread_id: id.to_string(),
        current_task: task.map(str::to_string),
        suggested_response: resp.map(str::to_string),
    }
}

#[test]
fn observer_mode_parsing() {
    assert_eq!(OmObserverMode::parse(None), OmObserverMode::Auto);
    assert_eq!(OmObserverMode::parse(Some(" LOCAL ")), OmObserverMode::Deterministic);
    assert_eq!(OmObserverMode::parse(Some("model")), OmObserverMode::Llm);
    assert_eq!(OmObserverMode::parse(Some("other")), OmObserverMode::Auto);
}

#[test]
fn observation_text_helpers() {
    assert_eq!(normalize_text("  a \n b\t c "), "a b c");
    assert_eq!(normalize_observation_text(" one \n\n  two\r\n   \n"), "one\ntwo");
    assert_eq!(truncate_chars("héllo", 2), "hé");
    assert_eq!(truncate_chars("ab", 5), "ab");
    assert_eq!(
        buffered_observations_text(&vec![" a ".to_string(), "  ".to_string(), "b".to_string()]),
        "a\n\nb"
    );
    let ids = observed_message_ids_set(
        &vec!["m1".to_string(), " ".to_string(), "m2".to_string(), "m1".to_string()],
        &vec![vec!["m2".to_string(), "m3".to_string()], vec![String::new()]],
    );
    assert_eq!(ids, vec!["m1".to_string(), "m2".to_string(), "m3".to_string()]);
}

#[test]
fn continuation_updates_merge_threads_and_primary() {
    let threads = vec![
        thread("t2", Some(" second "), None),
        thread("t1", None, Some("reply")),
        thread("t3", Some(" "), Some("  ")),
        thread("t2", Some("latest"), Some("r2")),
    ];
    let updates = plan_observer_continuation_updates(false, &threads, "t1", Some("primary task"), Some("ignored"), false);
    let got: Vec<(String, Option<String>, Option<String>, u16)> = updates
        .iter()
        .map(|u| (u.canonical_thread_id.clone(), u.current_task.clone(), u.suggested_response.clone(), u.confidence_milli))
        .collect();
    assert_eq!(
        got,
        vec![
            ("t1".to_string(), Some("primary task".to_string()), Some("reply".to_string()), 920),
            ("t2".to_string(), Some("latest".to_string()), Some("r2".to_string()), 920),
        ]
    );
    assert!(updates.iter().all(|u| u.source_kind == "observer"));

    let skipped = plan_observer_continuation_updates(false, &threads, "t9", None, Some("x"), true);
    let ids: Vec<&str> = skipped.iter().map(|u| u.canonical_thread_id.as_str()).collect();
    assert_eq!(ids, vec!["t2"]);
    assert_eq!(skipped[0].suggested_response, None);
    assert_eq!(skipped[0].confidence_milli, 820);
    assert_eq!(skipped[0].source_kind, "observer_interval");

    let session = plan_observer_continuation_updates(true, &threads, "s", None, None, false);
    assert_eq!(session.len(), 1);
    assert_eq!(session[0].canonical_thread_id, "s");
    assert_eq!(session[0].confidence_milli, 0);
}

#[test]
fn prompt_signature_lines_parse() {
    let (c, p) = parse_prompt_signature_entry_header(&chars(
        "(\"v1\", \"p2\") => Some(PromptContractSignatures {",
    ))
    .expect("header");
    assert_eq!((text(&c), text(&p)), ("v1".to_string(), "p2".to_string()));
    assert!(parse_prompt_signature_entry_header(&chars("(v1, p2) => Some(PromptContractSignatures {")).is_none());
    let (f, v) = parse_prompt_signature_field(&chars("observer_blake3: \"abc\",")).expect("field");
    assert_eq!((text(&f), text(&v)), ("observer_blake3".to_string(), "abc".to_string()));
    assert!(parse_prompt_signature_field(&chars("observer: \"abc\"")).is_none());
}

const POLICY: &str = r#"
match key {
    ("c1", "p1") => Some(PromptContractSignatures {
        reflector_blake3: "r1",
        observer_blake3: "o1",
    }),
    ("c2", "p1") => Some(PromptContractSignatures {
        observer_blake3: "o2",
    }),
    _ => None,
}
"#;

#[test]
fn prompt_signature_policy_table() {
    let policy = parse_prompt_signature_policy_map(POLICY).expect("policy");
    assert_eq!(policy.entries.len(), 2);
    let fields: Vec<(String, String)> = policy.entries[0].1.fields.clone();
    assert_eq!(
        fields,
        vec![
            ("observer_blake3".to_string(), "o1".to_string()),
            ("reflector_blake3".to_string(), "r1".to_string()),
        ]
    );
    let changed = parse_prompt_signature_policy_map(&POLICY.replace("\"o2\"", "\"o3\"")).expect("policy");
    assert!(prompt_contract_signature_changed_without_version_bump(&policy, &changed));
    let bumped = parse_prompt_signature_policy_map(&POLICY.replace("(\"c2\", \"p1\")", "(\"c3\", \"p1\")").replace("\"o2\"", "\"o3\"")).expect("policy");
    assert!(!prompt_contract_signature_changed_without_version_bump(&policy, &bumped));
    assert_eq!(
        parse_prompt_signature_policy_map("nothing here").err().as_deref(),
        Some("prompt_signature_policy_entries_not_found")
    );
    assert_eq!(
        parse_prompt_signature_policy_map("(\"a\", \"b\") => Some(PromptContractSignatures {\n})").err().as_deref(),
        Some("prompt_signature_policy_entry_missing_signatures:a/b")
    );
    assert_eq!(
        parse_prompt_signature_policy_map("(\"a\", \"b\") => Some(PromptContractSignatures {\nx_blake3: \"1\"").err().as_deref(),
        Some("prompt_signature_policy_entry_not_closed")
    );
    let dup = format!("{POLICY}\n(\"c1\", \"p1\") => Some(PromptContractSignatures {{\nx_blake3: \"9\"\n}})");
    assert_eq!(
        parse_prompt_signature_policy_map(&dup).err().as_deref(),
        Some("prompt_signature_policy_duplicate_version_tuple")
    );
}
