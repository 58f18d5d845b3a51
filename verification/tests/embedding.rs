use axiomsync::embedding::{
    feature_bucket, semantic_features, ActiveEmbedder, EmbedderRuntimeConfig, EmbeddingRuntime,
    HashEmbedder, SemanticLiteEmbedder,
};
use axiomsync::tokenize::{
    canonicalize_semantic_token, char_ngrams, resolve_embedder_kind, split_identifier_like,
    stem_suffix, tokenize_features, tokenize_set, tokenize_vec, EmbedderKind,
};

#[test]
fn tokenization_is_lowercase_and_split() {
    let tokens = tokenize_set("OAuth-flow, API");
    assert!(tokens.contains("oauth"));
    assert!(tokens.contains("flow"));
    assert!(tokens.contains("api"));
}

#[test]
fn tokenizer_preserves_symbolic_tokens() {
    let features = tokenize_features("src/client/search/mod.rs serde_json::from_str");
    assert!(
        features
            .symbolic
            .contains(&"src/client/search/mod.rs".to_string())
    );
    assert!(
        features
            .symbolic
            .contains(&"serde_json::from_str".to_string())
    );
}

#[test]
fn tokenizer_splits_identifier_variants() {
    let features = tokenize_features("om_hint_bounds search.omHint.maxChars");
    for token in ["om", "hint", "bounds", "search", "max", "chars"] {
        assert!(features.plain.contains(&token.to_string()));
    }
    assert!(features.symbolic.contains(&"om_hint_bounds".to_string()));
    assert!(
        features
            .symbolic
            .contains(&"search.omhint.maxchars".to_string())
    );
}

#[test]
fn tokenizer_keeps_unicode_terms() {
    let features = tokenize_features("한글 검색 OAuth");
    assert!(features.plain.contains(&"한글".to_string()));
    assert!(features.plain.contains(&"검색".to_string()));
    assert!(features.symbolic.contains(&"한글".to_string()));
    assert!(features.symbolic.contains(&"검색".to_string()));
    assert!(features.plain.contains(&"oauth".to_string()));
}

#[test]
fn resolve_embedder_kind_defaults_to_semantic_lite() {
    assert_eq!(resolve_embedder_kind(None), EmbedderKind::SemanticLite);
    assert_eq!(
        resolve_embedder_kind(Some("unknown")),
        EmbedderKind::SemanticLite
    );
    assert_eq!(
        resolve_embedder_kind(Some("semantic")),
        EmbedderKind::SemanticLite
    );
    assert_eq!(resolve_embedder_kind(Some("hash")), EmbedderKind::Hash);
    assert_eq!(
        resolve_embedder_kind(Some("semantic-model-http")),
        EmbedderKind::SemanticModelHttp
    );
}

#[test]
fn embedder_kind_names_round_trip() {
    for kind in [EmbedderKind::SemanticLite, EmbedderKind::Hash, EmbedderKind::SemanticModelHttp] {
        assert_eq!(resolve_embedder_kind(Some(kind.as_str())), kind);
    }
    assert_eq!(resolve_embedder_kind(Some("  OLLAMA ")), EmbedderKind::SemanticModelHttp);
    assert_eq!(resolve_embedder_kind(Some("deterministic")), EmbedderKind::Hash);
}

#[test]
fn token_vector_lists_plain_then_symbolic() {
    let tokens = tokenize_vec("Hello");
    assert_eq!(tokens, vec!["hello".to_string(), "hello".to_string()]);
    let set = tokenize_set("Hello hello");
    assert_eq!(set.len(), 1);
}

#[test]
fn identifier_parts_split_on_case_and_digits() {
    let parts: Vec<String> = split_identifier_like(&"parseHTTPResponse2".chars().collect())
        .iter()
        .map(|p| p.iter().collect())
        .collect();
    assert!(parts.contains(&"parse".to_string()));
    assert!(!parts.is_empty());
}

#[test]
fn semantic_helpers_normalize_tokens() {
    assert_eq!(stem_suffix("x"), "x");
    assert!(!canonicalize_semantic_token("login").is_empty());
    let grams = char_ngrams("abcd", 3);
    assert_eq!(grams, vec!["abc".to_string(), "bcd".to_string()]);
}

#[test]
fn record_strict_embedder_error_keeps_first_reason() {
    let mut runtime = EmbeddingRuntime::new();
    runtime.clear_embedding_strict_error();
    runtime.record_strict_embedder_error("first");
    runtime.record_strict_embedder_error("second");
    let reason = runtime.embedding_strict_error().expect("reason");
    assert_eq!(reason, "first");
    runtime.clear_embedding_strict_error();
}

#[test]
fn runtime_config_is_fixed_once() {
    let mut runtime = EmbeddingRuntime::new();
    let mut config = EmbedderRuntimeConfig::default_config();
    config.kind = Some("hash".to_string());
    assert!(runtime.configure_runtime(config.clone()).is_ok());
    assert!(runtime.configure_runtime(config.clone()).is_ok());
    let err = runtime
        .configure_runtime(EmbedderRuntimeConfig::default_config())
        .expect_err("conflict");
    assert!(err.contains("config conflict"));
    runtime.install_embedder(None);
    assert_eq!(runtime.embedder, Some(ActiveEmbedder::Hash));
    let profile = runtime.embedding_profile().expect("profile");
    assert_eq!(profile.provider, "hash");
    assert_eq!(profile.vector_version, "hash-v1");
    assert_eq!(profile.dim, 64);
}

#[test]
fn model_setup_failure_falls_back_and_records_in_strict_mode() {
    let mut runtime = EmbeddingRuntime::new();
    let mut config = EmbedderRuntimeConfig::default_config();
    config.kind = Some("ollama".to_string());
    config.strict = true;
    runtime.configure_runtime(config).expect("configure");
    runtime.install_embedder(Some(Err("no server".to_string())));
    assert_eq!(runtime.embedder, Some(ActiveEmbedder::SemanticLite));
    assert_eq!(
        runtime.embedding_strict_error().as_deref(),
        Some("semantic-model-http initialization failed: no server")
    );
    let mut lazy = EmbeddingRuntime::new();
    assert!(!lazy.embedding_strict_mode());
    assert!(lazy.configure_runtime(EmbedderRuntimeConfig::default_config()).is_ok());
}

#[test]
fn semantic_features_list_tokens_trigrams_and_pairs() {
    let features = semantic_features("zebra");
    assert_eq!(features.len(), 9);
    assert_eq!(features[0], ("zebra".to_string(), 1000));
    assert_eq!(features[1], ("tri:zeb".to_string(), 350));
    assert_eq!(features[8], ("bi:zebra_zebra".to_string(), 800));
    assert!(feature_bucket("zebra") < 64);
    assert_eq!(feature_bucket("zebra"), feature_bucket("zebra"));
}

#[test]
fn local_embedders_name_themselves() {
    assert_eq!(HashEmbedder.provider(), "hash");
    assert_eq!(HashEmbedder.vector_version(), "hash-v1");
    assert_eq!(SemanticLiteEmbedder.provider(), "semantic-lite");
    assert_eq!(SemanticLiteEmbedder.vector_version(), "semantic-lite-v1");
}

#[test]
fn model_setup_success_installs_the_model_embedder_once() {
    let mut runtime = EmbeddingRuntime::new();
    let mut config = EmbedderRuntimeConfig::default_config();
    config.kind = Some("semantic-model-http".to_string());
    runtime.configure_runtime(config).expect("configure");
    runtime.install_embedder(Some(Ok("semantic-model-http:m:/api/embeddings".to_string())));
    assert_eq!(
        runtime.embedder,
        Some(ActiveEmbedder::SemanticModelHttp {
            vector_version: "semantic-model-http:m:/api/embeddings".to_string()
        })
    );
    assert_eq!(runtime.embedding_strict_error(), None);
    runtime.install_embedder(Some(Err("late".to_string())));
    assert_eq!(runtime.embedding_profile().expect("profile").provider, "semantic-model-http");
    assert_eq!(runtime.embedding_strict_error(), None);
}

#[test]
fn model_setup_failure_without_strict_mode_records_nothing() {
    let mut runtime = EmbeddingRuntime::new();
    let mut config = EmbedderRuntimeConfig::default_config();
    config.kind = Some("semantic-model-http".to_string());
    runtime.configure_runtime(config).expect("configure");
    runtime.install_embedder(Some(Err("no server".to_string())));
    assert_eq!(runtime.embedder, Some(ActiveEmbedder::SemanticLite));
    assert_eq!(runtime.embedding_strict_error(), None);
}
