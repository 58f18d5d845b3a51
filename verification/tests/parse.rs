use axiomsync::json::{dominant_keys, normalize_scalar_text, JsonValue};
use axiomsync::parse::{config_document, extension_of, jsonl_document, ParserRegistry};
use axiomsync::xml::{flatten_xml, parse_xml_attributes, pop_xml_stack, split_xml_tag};

fn chars(s: &str) -> Vec<char> {
    s.chars().collect()
}

fn text(v: &[char]) -> String {
    v.iter().collect()
}

#[test]
fn markdown_parser_extracts_title() {
    let registry = ParserRegistry::new();
    let parsed = registry.parse_file("readme.md", b"# Hello\n\nThis is a markdown file.");

    assert_eq!(parsed.parser, "markdown");
    assert_eq!(parsed.title.as_deref(), Some("Hello"));
    assert!(parsed.is_text);
    assert!(parsed.normalized_text.is_some());
}

#[test]
fn text_parser_handles_plain_text() {
    let registry = ParserRegistry::new();
    let parsed = registry.parse_file("notes.txt", b"first line\nsecond line");

    assert_eq!(parsed.parser, "text");
    assert_eq!(parsed.line_count, 2);
    assert_eq!(parsed.title.as_deref(), Some("first line"));
    assert_eq!(
        parsed.normalized_text.as_deref(),
        Some("first line\nsecond line")
    );
}

#[test]
fn binary_parser_detects_non_utf8() {
    let registry = ParserRegistry::new();
    let parsed = registry.parse_file("image.bin", &[0xff, 0xfe, 0xfd]);

    assert_eq!(parsed.parser, "binary");
    assert!(!parsed.is_text);
    assert!(parsed.normalized_text.is_none());
}

#[test]
fn markdown_parser_keeps_yaml_frontmatter_content() {
    let registry = ParserRegistry::new();
    let parsed = registry.parse_file(
        "note.md",
        b"---\ntype: area\ntags: [rust]\n---\n# Real Title\n\nBody",
    );

    assert_eq!(parsed.title.as_deref(), Some("Real Title"));
    let normalized = parsed.normalized_text.expect("normalized");
    assert!(normalized.contains("type: area"));
    assert!(normalized.contains("# Real Title"));
}

#[test]
fn markdown_parser_keeps_leading_metadata_lines() {
    let registry = ParserRegistry::new();
    let parsed = registry.parse_file(
        "note.md",
        "> 작성일: 2026-02-15\n> tags: rust\n# 제목\n본문".as_bytes(),
    );

    assert_eq!(parsed.title.as_deref(), Some("제목"));
    let normalized = parsed.normalized_text.expect("normalized");
    assert!(normalized.contains("tags: rust"));
    assert!(normalized.contains("# 제목"));
}

#[test]
fn markdown_parser_ignores_rule_line_when_guessing_title() {
    let registry = ParserRegistry::new();
    let parsed = registry.parse_file("note.md", b"---\n\nIntro line\nBody");
    assert_eq!(parsed.title.as_deref(), Some("Intro line"));
}

#[test]
fn parser_json_keypath_flatten() {
    let registry = ParserRegistry::new();
    let parsed = registry.parse_file(
        "config.json",
        br#"{"name":"oauth","oauth":{"client_id":"abc","enabled":true}}"#,
    );
    assert_eq!(parsed.parser, "json");
    assert!(parsed.tags.contains(&"json".to_string()));
    assert!(parsed.tags.contains(&"config".to_string()));
    let normalized = parsed.normalized_text.expect("normalized");
    assert!(normalized.contains("$.oauth.client_id=abc"));
    assert!(normalized.contains("$.oauth.enabled=true"));
    assert_eq!(parsed.title.as_deref(), Some("oauth"));
}

#[test]
fn parser_yaml_keypath_flatten() {
    let registry = ParserRegistry::new();
    let parsed = registry.parse_file(
        "settings.yaml",
        b"name: runtime\nqueue:\n  dead_letter_rate: 0.01\n",
    );
    assert_eq!(parsed.parser, "yaml");
    assert!(parsed.tags.contains(&"yaml".to_string()));
    assert!(parsed.tags.contains(&"config".to_string()));
    let normalized = parsed.normalized_text.expect("normalized");
    assert!(normalized.contains("$.queue.dead_letter_rate=0.01"));
    assert_eq!(parsed.title.as_deref(), Some("runtime"));
}

#[test]
fn parser_jsonl_histogram_preview() {
    let registry = ParserRegistry::new();
    let parsed = registry.parse_file(
        "events.jsonl",
        b"{\"id\":\"a1\",\"status\":\"ok\"}\n{\"id\":\"a2\",\"status\":\"fail\",\"worker\":\"w1\"}\n",
    );
    assert_eq!(parsed.parser, "jsonl");
    let normalized = parsed.normalized_text.expect("normalized");
    assert!(normalized.contains("jsonl.records=2"));
    assert!(normalized.contains("jsonl.keys=id,status,worker"));
    assert!(normalized.contains("$[1].id=a1"));
    assert!(parsed.text_preview.contains("jsonl.records=2"));
}

#[test]
fn parser_xml_path_flatten() {
    let registry = ParserRegistry::new();
    let parsed = registry.parse_file(
        "schema.xml",
        br#"<root><title>Search Contract</title><item id="x1">alpha</item></root>"#,
    );
    assert_eq!(parsed.parser, "xml");
    let normalized = parsed.normalized_text.expect("normalized");
    assert!(normalized.contains("/root/title=Search Contract"));
    assert!(normalized.contains("/root/item/@id=x1"));
    assert!(normalized.contains("/root/item=alpha"));
    assert_eq!(parsed.title.as_deref(), Some("Search Contract"));
}

#[test]
fn parser_toml_keypath_flatten() {
    let registry = ParserRegistry::new();
    let parsed = registry.parse_file(
        "Cargo.TOML",
        b"title = \"  Demo  \"\n[server]\nport = 8080\nhosts = [\"a\", \"b\"]\n",
    );
    assert_eq!(parsed.parser, "toml");
    assert_eq!(parsed.title.as_deref(), Some("Demo"));
    assert_eq!(
        parsed.normalized_text.as_deref(),
        Some("$.server.hosts[0]=a\n$.server.hosts[1]=b\n$.server.port=8080\n$.title=Demo")
    );
    assert_eq!(parsed.line_count, 4);
}

#[test]
fn malformed_json_falls_back_to_plain_text() {
    let registry = ParserRegistry::new();
    let parsed = registry.parse_file("broken.json", b"{not json\nsecond");
    assert_eq!(parsed.parser, "text");
    assert_eq!(parsed.title.as_deref(), Some("{not json"));
    assert_eq!(parsed.line_count, 2);
}

#[test]
fn non_utf8_json_is_binary() {
    let registry = ParserRegistry::new();
    let parsed = registry.parse_file("data.json", &[0x7b, 0xff]);
    assert_eq!(parsed.parser, "binary");
    assert_eq!(parsed.text_preview, "binary file (2 bytes)");
    assert_eq!(parsed.tags, vec!["binary".to_string()]);
}

#[test]
fn empty_containers_flatten_to_markers() {
    let registry = ParserRegistry::new();
    let parsed = registry.parse_file("empty.json", b"{\"a\":{},\"b\":[]}");
    assert_eq!(parsed.normalized_text.as_deref(), Some("$.a={}\n$.b=[]"));
    let root = registry.parse_file("root.json", b"{}");
    assert_eq!(root.normalized_text.as_deref(), Some("$={}"));
    assert_eq!(root.title, None);
}

#[test]
fn config_document_takes_the_parsed_tree() {
    let tree = JsonValue::Object(vec![
        ("b".to_string(), JsonValue::Str("  two   words ".to_string())),
        ("a".to_string(), JsonValue::Array(vec![JsonValue::Null, JsonValue::Bool(false)])),
        ("id".to_string(), JsonValue::Number("7".to_string())),
    ]);
    let doc = config_document("json", "ignored", Some(tree));
    assert_eq!(
        doc.normalized_text.as_deref(),
        Some("$.a[0]=null\n$.a[1]=false\n$.b=two words\n$.id=7")
    );
    assert_eq!(doc.title, None);
    assert_eq!(doc.tags, vec!["json".to_string(), "config".to_string()]);
    let fallback = config_document("yaml", "plain words", None);
    assert_eq!(fallback.parser, "text");
}

#[test]
fn jsonl_document_counts_and_ranks_keys() {
    let rec = |pairs: &[(&str, &str)]| {
        Some(JsonValue::Object(
            pairs
                .iter()
                .map(|(k, v)| (k.to_string(), JsonValue::Str(v.to_string())))
                .collect(),
        ))
    };
    let parsed = vec![
        rec(&[("z", "1"), ("name", "first")]),
        None,
        rec(&[("z", "2"), ("a", "x")]),
    ];
    let doc = jsonl_document("l0\n\nl2", &parsed);
    assert_eq!(doc.parser, "jsonl");
    assert_eq!(doc.title.as_deref(), Some("first"));
    assert_eq!(
        doc.normalized_text.as_deref(),
        Some("jsonl.records=2\njsonl.keys=z,a,name\n$[1].name=first\n$[1].z=1\n$[3].a=x\n$[3].z=2")
    );
    let none = jsonl_document("a\nb", &vec![None, None]);
    assert_eq!(none.parser, "text");
}

#[test]
fn dominant_keys_orders_by_count_then_key() {
    let hist = vec![
        (chars("b"), 2usize),
        (chars("a"), 2usize),
        (chars("c"), 5usize),
        (chars("d"), 1usize),
    ];
    let keys: Vec<String> = dominant_keys(&hist, 3).iter().map(|k| text(k)).collect();
    assert_eq!(keys, vec!["c", "a", "b"]);
    assert!(dominant_keys(&hist, 0).is_empty());
}

#[test]
fn structured_preview_keeps_twelve_lines() {
    let mut body = String::from("{");
    for i in 0..20 {
        if i > 0 {
            body.push(',');
        }
        body.push_str(&format!("\"k{:02}\":{}", i, i));
    }
    body.push('}');
    let registry = ParserRegistry::new();
    let parsed = registry.parse_file("many.json", body.as_bytes());
    assert_eq!(parsed.line_count, 20);
    assert_eq!(parsed.text_preview.lines().count(), 12);
    assert!(parsed.text_preview.ends_with("$.k11=11"));
}

#[test]
fn xml_flatten_handles_comments_self_closing_and_mismatched_tags() {
    let lines = flatten_xml(&chars(
        "<?xml version=\"1.0\"?><!-- note --><a x='1' y=2><b/>text<c k=\"v  w\"/></b></a>tail",
    ));
    let got: Vec<String> = lines.iter().map(|l| text(l)).collect();
    assert_eq!(
        got,
        vec!["/a/@x=1", "/a/@y=2", "/a=text", "/a/c/@k=v w"]
    );
    let unterminated = flatten_xml(&chars("<a>x<!-- open"));
    let got: Vec<String> = unterminated.iter().map(|l| text(l)).collect();
    assert_eq!(got, vec!["/a=x"]);
}

#[test]
fn xml_attributes_skip_names_without_values() {
    let attrs = parse_xml_attributes(&chars("flag a = \"q r\" =x b='' c=plain"));
    let got: Vec<(String, String)> = attrs.iter().map(|(k, v)| (text(k), text(v))).collect();
    assert_eq!(
        got,
        vec![
            ("a".to_string(), "q r".to_string()),
            ("b".to_string(), String::new()),
            ("c".to_string(), "plain".to_string()),
        ]
    );
}

#[test]
fn xml_tag_split_and_stack_pop() {
    let (name, attrs) = split_xml_tag(&chars("item  id=\"1\" "));
    assert_eq!(text(&name), "item");
    assert_eq!(text(&attrs), "id=\"1\"");
    let mut stack = vec![chars("a"), chars("b"), chars("c")];
    pop_xml_stack(&mut stack, &chars("b"));
    assert_eq!(stack, vec![chars("a")]);
    pop_xml_stack(&mut stack, &chars("zz"));
    assert_eq!(stack, vec![chars("a")]);
}

#[test]
fn extension_is_taken_from_the_file_name() {
    assert_eq!(text(&extension_of("dir.v2/readme")), "");
    assert_eq!(text(&extension_of("a/b/c.Tar.GZ")), "GZ");
    assert_eq!(text(&extension_of(".bashrc")), "");
    assert_eq!(text(&extension_of("notes.")), "");
    let registry = ParserRegistry::new();
    assert_eq!(registry.parse_file("DOC.MD", b"# T").parser, "markdown");
    assert_eq!(registry.parse_file("x.yml", b"a: 1").parser, "yaml");
}

#[test]
fn scalar_text_collapses_whitespace_and_caps_length() {
    assert_eq!(text(&normalize_scalar_text(&chars("  a \t b\n c  "))), "a b c");
    let long = "x".repeat(300);
    assert_eq!(normalize_scalar_text(&chars(&long)).len(), 240);
}
