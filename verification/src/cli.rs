use vstd::prelude::*;

use crate::text::{
    ascii_lowercase, chars_eq_str, chars_of, dec, extend_chars, extend_str, find_char,
    first_index_of, lemma_first_index_of, parse_usize, parse_usize_chars, push_dec, string_of,
    sub_vec, to_ascii_lowercase, trim, trim_range,
};

verus! {

// ---------------------------------------------------------------------------
// Argument shapes of the command line
// ---------------------------------------------------------------------------

/// How `add --wait` waits.
#[derive(Debug, Clone, Copy, PartialEq, Eq, Structural)]
pub enum AddWaitModeArg {
    Relaxed,
    Strict,
}

/// `add`: ingest a local path or URL.
#[derive(Debug, Clone, PartialEq, Eq)]
pub struct AddArgs {
    pub source: String,
    pub target: Option<String>,
    pub wait: bool,
    pub markdown_only: bool,
    pub exclude: Vec<String>,
    pub include_hidden: bool,
    pub wait_mode: AddWaitModeArg,
}

/// `ls`.
#[derive(Debug, Clone, PartialEq, Eq)]
pub struct ListArgs {
    pub uri: String,
    pub recursive: bool,
}

/// `glob`.
#[derive(Debug, Clone, PartialEq, Eq)]
pub struct GlobArgs {
    pub pattern: String,
    pub uri: Option<String>,
}

/// A command that takes one URI.
#[derive(Debug, Clone, PartialEq, Eq)]
pub struct UriArg {
    pub uri: String,
}

/// `rm`.
#[derive(Debug, Clone, PartialEq, Eq)]
pub struct RemoveArgs {
    pub uri: String,
    pub recursive: bool,
}

/// `mv`.
#[derive(Debug, Clone, PartialEq, Eq)]
pub struct MoveArgs {
    pub from_uri: String,
    pub to_uri: String,
}

/// `find`.
#[derive(Debug, Clone, PartialEq, Eq)]
pub struct FindArgs {
    pub query: String,
    pub target: Option<String>,
    pub limit: usize,
    pub tags: Vec<String>,
    pub mime: Option<String>,
    pub budget_ms: Option<u64>,
    pub budget_nodes: Option<usize>,
    pub budget_depth: Option<usize>,
}

/// `reconcile`.
#[derive(Debug, Clone, PartialEq, Eq)]
pub struct ReconcileArgs {
    pub dry_run: bool,
    pub scopes: Vec<String>,
    pub max_drift_sample: usize,
}

/// `export`.
#[derive(Debug, Clone, PartialEq, Eq)]
pub struct ExportArgs {
    pub uri: String,
    pub to: String,
}

/// `import`.
#[derive(Debug, Clone, PartialEq, Eq)]
pub struct ImportArgs {
    pub file: String,
    pub parent: String,
    pub force: bool,
    pub vectorize: bool,
}

/// `web`.
#[derive(Debug, Clone, PartialEq, Eq)]
pub struct WebArgs {
    pub host: String,
    pub port: u16,
}

/// How a document is loaded or saved.
#[derive(Debug, Clone, Copy, PartialEq, Eq, Structural)]
pub enum DocumentMode {
    Document,
    Markdown,
}

/// The `document` subcommands.
#[derive(Debug, Clone, PartialEq, Eq)]
pub enum DocumentCommand {
    Load { uri: String, mode: DocumentMode },
    Preview { uri: Option<String>, content: Option<String>, from: Option<String>, stdin: bool },
    Save {
        uri: String,
        mode: DocumentMode,
        content: Option<String>,
        from: Option<String>,
        stdin: bool,
        expected_etag: Option<String>,
    },
}

/// `document`.
#[derive(Debug, Clone, PartialEq, Eq)]
pub struct DocumentArgs {
    pub command: DocumentCommand,
}

/// The `ontology` subcommands.
#[derive(Debug, Clone, PartialEq, Eq)]
pub enum OntologyCommand {
    Validate { uri: Option<String> },
    Pressure {
        uri: Option<String>,
        min_action_types: usize,
        min_invariants: usize,
        min_action_invariant_total: usize,
        min_link_types_per_object_basis_points: u32,
    },
    Trend { history_dir: String, min_samples: usize, consecutive_v2_candidate: usize },
    ActionValidate {
        uri: Option<String>,
        action_id: String,
        queue_event_type: String,
        input_json: Option<String>,
        input_file: Option<String>,
        input_stdin: bool,
    },
    ActionEnqueue {
        uri: Option<String>,
        target_uri: String,
        action_id: String,
        queue_event_type: String,
        input_json: Option<String>,
        input_file: Option<String>,
        input_stdin: bool,
    },
    InvariantCheck { uri: Option<String>, enforce: bool },
}

/// `ontology`.
#[derive(Debug, Clone, PartialEq, Eq)]
pub struct OntologyArgs {
    pub command: OntologyCommand,
}

/// The `relation` subcommands.
#[derive(Debug, Clone, PartialEq, Eq)]
pub enum RelationCommand {
    List { owner_uri: String },
    Link { owner_uri: String, relation_id: String, uris: Vec<String>, reason: String },
    Unlink { owner_uri: String, relation_id: String },
}

/// `relation`.
#[derive(Debug, Clone, PartialEq, Eq)]
pub struct RelationArgs {
    pub command: RelationCommand,
}

/// The security audit mode of the release gate.
#[derive(Debug, Clone, Copy, PartialEq, Eq, Structural)]
pub enum ReleaseSecurityAuditModeArg {
    Offline,
    Strict,
}

/// The security audit mode of `security audit`.
#[derive(Debug, Clone, Copy, PartialEq, Eq, Structural)]
pub enum SecurityAuditModeArg {
    Offline,
    Strict,
}

/// The `security` subcommands.
#[derive(Debug, Clone, PartialEq, Eq)]
pub enum SecurityCommand {
    Audit { workspace_dir: Option<String>, mode: SecurityAuditModeArg, enforce: bool },
}

/// `security`.
#[derive(Debug, Clone, PartialEq, Eq)]
pub struct SecurityArgs {
    pub command: SecurityCommand,
}

/// The `trace` subcommands.
#[derive(Debug, Clone, PartialEq, Eq)]
pub enum TraceCommand {
    Requests { limit: usize, operation: Option<String>, status: Option<String> },
    List { limit: usize },
    Get { trace_id: String },
    Replay { trace_id: String, limit: Option<usize> },
    Stats { limit: usize, include_replays: bool },
    Snapshot { limit: usize, include_replays: bool },
    Snapshots { limit: usize },
    Trend { limit: usize, request_type: Option<String> },
    Evidence { trace_limit: usize, request_limit: usize, enforce: bool },
}

/// `trace`.
#[derive(Debug, Clone, PartialEq, Eq)]
pub struct TraceArgs {
    pub command: TraceCommand,
}

// ---------------------------------------------------------------------------
// Value parsers
// ---------------------------------------------------------------------------

/// `--min-match-tokens`: an integer of at least 2.
pub open spec fn min_match_tokens_result(raw: Seq<char>) -> Result<usize, Seq<char>> {
    match parse_usize(raw) {
        None => Err("invalid integer value '"@ + raw + "'"@),
        Some(v) => if v < 2 {
            Err("min-match-tokens must be >= 2, got "@ + dec(v as nat))
        } else {
            Ok(v)
        },
    }
}

pub fn parse_min_match_tokens(raw: &str) -> (r: Result<usize, String>)
    ensures
        match r {
            Ok(v) => min_match_tokens_result(raw@) == Ok::<usize, Seq<char>>(v),
            Err(m) => min_match_tokens_result(raw@) == Err::<usize, Seq<char>>(m@),
        },
{
    let v = chars_of(raw);
    match parse_usize_chars(&v) {
        None => {
            let mut m = chars_of("invalid integer value '");
            extend_chars(&mut m, &v);
            extend_str(&mut m, "'");
            Err(string_of(&m))
        },
        Some(value) => {
            if value < 2 {
                let mut m = chars_of("min-match-tokens must be >= 2, got ");
                push_dec(&mut m, value as u64);
                Err(string_of(&m))
            } else {
                Ok(value)
            }
        },
    }
}

/// A count given on the command line: an integer of at least 1.
pub open spec fn positive_usize_result(raw: Seq<char>) -> Result<usize, Seq<char>> {
    match parse_usize(raw) {
        None => Err("invalid integer value: "@ + raw),
        Some(v) => if v == 0 {
            Err("value must be >= 1"@)
        } else {
            Ok(v)
        },
    }
}

pub fn parse_positive_usize(raw: &str) -> (r: Result<usize, String>)
    ensures
        match r {
            Ok(v) => positive_usize_result(raw@) == Ok::<usize, Seq<char>>(v),
            Err(m) => positive_usize_result(raw@) == Err::<usize, Seq<char>>(m@),
        },
{
    let v = chars_of(raw);
    match parse_usize_chars(&v) {
        None => {
            let mut m = chars_of("invalid integer value: ");
            extend_chars(&mut m, &v);
            Err(string_of(&m))
        },
        Some(value) => {
            if value == 0 {
                Err(string_of(&chars_of("value must be >= 1")))
            } else {
                Ok(value)
            }
        },
    }
}

// ---------------------------------------------------------------------------
// Flag checks
// ---------------------------------------------------------------------------

/// `--include-hidden` and `--exclude` only make sense with `--markdown-only`.
pub open spec fn add_ingest_flags_result(markdown_only: bool, include_hidden: bool, n_exclude: nat) -> Result<
    (),
    Seq<char>,
> {
    if include_hidden && !markdown_only {
        Err("--include-hidden requires --markdown-only"@)
    } else if n_exclude > 0 && !markdown_only {
        Err("--exclude requires --markdown-only"@)
    } else {
        Ok(())
    }
}

pub fn validate_add_ingest_flags(markdown_only: bool, include_hidden: bool, exclude: &Vec<String>) -> (r: Result<
    (),
    String,
>)
    ensures
        match r {
            Ok(()) => add_ingest_flags_result(markdown_only, include_hidden, exclude@.len()) is Ok,
            Err(m) => add_ingest_flags_result(markdown_only, include_hidden, exclude@.len())
                == Err::<(), Seq<char>>(m@),
        },
{
    if include_hidden && !markdown_only {
        return Err(string_of(&chars_of("--include-hidden requires --markdown-only")));
    }
    if exclude.len() > 0 && !markdown_only {
        return Err(string_of(&chars_of("--exclude requires --markdown-only")));
    }
    Ok(())
}

/// The traversal bounds a search asks for.
#[derive(Debug, Clone, Copy, PartialEq, Eq, Structural)]
pub struct SearchBudget {
    pub max_ms: Option<u64>,
    pub max_nodes: Option<usize>,
    pub max_depth: Option<usize>,
}

/// A budget when any bound is given; none otherwise.
pub fn parse_search_budget(budget_ms: Option<u64>, budget_nodes: Option<usize>, budget_depth: Option<usize>) -> (r: Option<
    SearchBudget,
>)
    ensures
        r == (if budget_ms is None && budget_nodes is None && budget_depth is None {
            None
        } else {
            Some(SearchBudget { max_ms: budget_ms, max_nodes: budget_nodes, max_depth: budget_depth })
        }),
{
    if budget_ms.is_none() && budget_nodes.is_none() && budget_depth.is_none() {
        return None;
    }
    Some(SearchBudget { max_ms: budget_ms, max_nodes: budget_nodes, max_depth: budget_depth })
}

pub fn bool_to_count(value: bool) -> (r: u8)
    ensures
        r == (if value {
            1u8
        } else {
            0u8
        }),
{
    if value {
        1
    } else {
        0
    }
}

/// Exactly one source must be chosen.
pub open spec fn single_source_result(selected: u8, missing: Seq<char>, multiple: Seq<char>) -> Result<
    (),
    Seq<char>,
> {
    if selected == 0 {
        Err(missing)
    } else if selected > 1 {
        Err(multiple)
    } else {
        Ok(())
    }
}

pub fn ensure_single_source_selection(selected: u8, missing_message: &str, multiple_message: &str) -> (r: Result<
    (),
    String,
>)
    ensures
        match r {
            Ok(()) => single_source_result(selected, missing_message@, multiple_message@) is Ok,
            Err(m) => single_source_result(selected, missing_message@, multiple_message@)
                == Err::<(), Seq<char>>(m@),
        },
{
    if selected == 0 {
        return Err(string_of(&chars_of(missing_message)));
    }
    if selected > 1 {
        return Err(string_of(&chars_of(multiple_message)));
    }
    Ok(())
}

/// `document save` takes exactly one of `--content`, `--from`, `--stdin`.
pub fn validate_document_save_source_selection(
    inline: Option<&str>,
    from: Option<&str>,
    stdin: bool,
) -> (r: Result<(), String>)
    ensures
        ({
            let n = (if inline is Some { 1int } else { 0 }) + (if from is Some { 1int } else { 0 })
                + (if stdin { 1int } else { 0 });
            match r {
                Ok(()) => n == 1,
                Err(m) => (n == 0
                    && m@
                    == "document save content source is required: use one of --content, --from <path>, --stdin"@)
                    || (n > 1
                    && m@
                    == "document save accepts exactly one content source: choose one of --content, --from, --stdin"@),
            }
        }),
{
    let selected = bool_to_count(inline.is_some()) + bool_to_count(from.is_some()) + bool_to_count(
        stdin,
    );
    ensure_single_source_selection(
        selected,
        "document save content source is required: use one of --content, --from <path>, --stdin",
        "document save accepts exactly one content source: choose one of --content, --from, --stdin",
    )
}

/// `document preview` takes exactly one of `--uri`, `--content`, `--from`,
/// `--stdin`.
pub fn validate_document_preview_source_selection(
    uri: Option<&str>,
    inline: Option<&str>,
    from: Option<&str>,
    stdin: bool,
) -> (r: Result<(), String>)
    ensures
        ({
            let n = (if uri is Some { 1int } else { 0 }) + (if inline is Some { 1int } else { 0 }) + (
            if from is Some { 1int } else { 0 }) + (if stdin { 1int } else { 0 });
            match r {
                Ok(()) => n == 1,
                Err(m) => (n == 0
                    && m@
                    == "document preview source is required: use one of --uri, --content, --from <path>, --stdin"@)
                    || (n > 1
                    && m@
                    == "document preview accepts exactly one source: choose one of --uri, --content, --from, --stdin"@),
            }
        }),
{
    let selected = bool_to_count(uri.is_some()) + bool_to_count(inline.is_some()) + bool_to_count(
        from.is_some(),
    ) + bool_to_count(stdin);
    ensure_single_source_selection(
        selected,
        "document preview source is required: use one of --uri, --content, --from <path>, --stdin",
        "document preview accepts exactly one source: choose one of --uri, --content, --from, --stdin",
    )
}

// ---------------------------------------------------------------------------
// Runtime hints
// ---------------------------------------------------------------------------

/// What a runtime hint tells the search.
#[derive(Debug, Clone, Copy, PartialEq, Eq, Structural)]
pub enum RuntimeHintKind {
    Observation,
    CurrentTask,
    SuggestedResponse,
    External,
}

/// A hint given to a search at run time.
#[derive(Debug, Clone, PartialEq, Eq)]
pub struct RuntimeHint {
    pub kind: RuntimeHintKind,
    pub text: String,
    pub source: Option<String>,
}

/// The kind a hint names, ASCII case and surrounding whitespace ignored.
pub open spec fn hint_kind_of(name: Seq<char>) -> Option<RuntimeHintKind> {
    let n = ascii_lowercase(trim(name));
    if n == "observation"@ || n == "obs"@ {
        Some(RuntimeHintKind::Observation)
    } else if n == "current_task"@ || n == "current-task"@ || n == "task"@ {
        Some(RuntimeHintKind::CurrentTask)
    } else if n == "suggested_response"@ || n == "suggested-response"@ || n == "suggested"@ || n
        == "next"@ {
        Some(RuntimeHintKind::SuggestedResponse)
    } else if n == "external"@ || n == "ext"@ {
        Some(RuntimeHintKind::External)
    } else {
        None
    }
}

/// The name a hint kind has in hint records.
pub open spec fn runtime_hint_kind_name(k: RuntimeHintKind) -> Seq<char> {
    match k {
        RuntimeHintKind::Observation => "observation"@,
        RuntimeHintKind::CurrentTask => "current_task"@,
        RuntimeHintKind::SuggestedResponse => "suggested_response"@,
        RuntimeHintKind::External => "external"@,
    }
}

/// Every hint kind's own name, with any surrounding whitespace and in any
/// ASCII case, parses back to that kind.
pub proof fn lemma_hint_kind_names_round_trip(k: RuntimeHintKind, raw: Seq<char>)
    requires
        ascii_lowercase(trim(raw)) == runtime_hint_kind_name(k),
    ensures
        hint_kind_of(raw) == Some(k),
{
    reveal_strlit("observation");
    reveal_strlit("obs");
    reveal_strlit("current_task");
    reveal_strlit("current-task");
    reveal_strlit("task");
    reveal_strlit("suggested_response");
    reveal_strlit("suggested-response");
    reveal_strlit("suggested");
    reveal_strlit("next");
    reveal_strlit("external");
    reveal_strlit("ext");
    let n = ascii_lowercase(trim(raw));
    assert("observation"@.len() == 11 && "obs"@.len() == 3 && "current_task"@.len() == 12);
    assert("current-task"@.len() == 12 && "task"@.len() == 4 && "suggested"@.len() == 9);
    assert("suggested_response"@.len() == 18 && "suggested-response"@.len() == 18);
    assert("next"@.len() == 4 && "external"@.len() == 8 && "ext"@.len() == 3);
    match k {
        RuntimeHintKind::Observation => {},
        RuntimeHintKind::CurrentTask => {
            assert(n != "observation"@ && n != "obs"@);
        },
        RuntimeHintKind::SuggestedResponse => {
            assert(n != "observation"@ && n != "obs"@ && n != "current_task"@);
            assert(n != "current-task"@ && n != "task"@);
        },
        RuntimeHintKind::External => {
            assert(n != "observation"@ && n != "obs"@ && n != "current_task"@);
            assert(n != "current-task"@ && n != "task"@ && n != "suggested"@ && n != "next"@);
            assert(n != "suggested_response"@ && n != "suggested-response"@);
        },
    }
}

pub fn parse_runtime_hint_kind(raw: &str) -> (r: Result<RuntimeHintKind, String>)
    ensures
        match r {
            Ok(k) => hint_kind_of(raw@) == Some(k),
            Err(m) => hint_kind_of(raw@) is None && m@ == "invalid runtime hint kind '"@ + raw@
                + "'"@,
        },
{
    let v = chars_of(raw);
    let (a, b) = trim_range(&v, 0, v.len());
    assert(v@.subrange(0, v@.len() as int) =~= v@);
    let n = to_ascii_lowercase(&sub_vec(&v, a, b));
    if chars_eq_str(&n, "observation") || chars_eq_str(&n, "obs") {
        Ok(RuntimeHintKind::Observation)
    } else if chars_eq_str(&n, "current_task") || chars_eq_str(&n, "current-task")
        || chars_eq_str(&n, "task") {
        Ok(RuntimeHintKind::CurrentTask)
    } else if chars_eq_str(&n, "suggested_response") || chars_eq_str(&n, "suggested-response")
        || chars_eq_str(&n, "suggested") || chars_eq_str(&n, "next") {
        Ok(RuntimeHintKind::SuggestedResponse)
    } else if chars_eq_str(&n, "external") || chars_eq_str(&n, "ext") {
        Ok(RuntimeHintKind::External)
    } else {
        let mut m = chars_of("invalid runtime hint kind '");
        extend_chars(&mut m, &v);
        extend_str(&mut m, "'");
        Err(string_of(&m))
    }
}

pub open spec fn opt_src_view(o: Option<&str>) -> Option<Seq<char>> {
    match o {
        Some(s) => Some(s@),
        None => None,
    }
}

pub open spec fn opt_owned_view(o: Option<String>) -> Option<Seq<char>> {
    match o {
        Some(s) => Some(s@),
        None => None,
    }
}

/// A `KIND:TEXT` hint: split at the first `:`; the kind must be known and
/// the text, trimmed, must not be empty.
pub open spec fn hint_token_result(raw: Seq<char>) -> Result<(RuntimeHintKind, Seq<char>), Seq<char>> {
    match first_index_of(raw, ':') {
        None => Err("invalid --hint value '"@ + raw + "': expected KIND:TEXT"@),
        Some(p) => match hint_kind_of(raw.take(p as int)) {
            None => Err("invalid runtime hint kind '"@ + raw.take(p as int) + "'"@),
            Some(k) => {
                let text = trim(raw.skip(p as int + 1));
                if text.len() == 0 {
                    Err("invalid --hint value '"@ + raw + "': text must not be empty"@)
                } else {
                    Ok((k, text))
                }
            },
        },
    }
}

pub fn parse_runtime_hint_token(raw: &str, source: Option<&str>) -> (r: Result<RuntimeHint, String>)
    ensures
        match r {
            Ok(h) => hint_token_result(raw@) == Ok::<(RuntimeHintKind, Seq<char>), Seq<char>>(
                (h.kind, h.text@),
            ) && opt_owned_view(h.source) == opt_src_view(source),
            Err(m) => hint_token_result(raw@) == Err::<(RuntimeHintKind, Seq<char>), Seq<char>>(m@),
        },
{
    let v = chars_of(raw);
    let found = find_char(&v, ':', 0);
    assert(v@.skip(0) =~= v@);
    match found {
        None => {
            let mut m = chars_of("invalid --hint value '");
            extend_chars(&mut m, &v);
            extend_str(&mut m, "': expected KIND:TEXT");
            Err(string_of(&m))
        },
        Some(p) => {
            let n = v.len();
            let kind_raw = string_of(&sub_vec(&v, 0, p));
            assert(kind_raw@ =~= v@.take(p as int));
            let kind = match parse_runtime_hint_kind(kind_raw.as_str()) {
                Ok(k) => k,
                Err(m) => {
                    return Err(m);
                },
            };
            let (a, b) = trim_range(&v, p + 1, n);
            assert(v@.skip(p + 1) =~= v@.subrange(p + 1, v@.len() as int));
            if a >= b {
                let mut m = chars_of("invalid --hint value '");
                extend_chars(&mut m, &v);
                extend_str(&mut m, "': text must not be empty");
                return Err(string_of(&m));
            }
            let src = match source {
                Some(s) => Some(string_of(&chars_of(s))),
                None => None,
            };
            Ok(RuntimeHint { kind, text: string_of(&sub_vec(&v, a, b)), source: src })
        },
    }
}

// ---------------------------------------------------------------------------
// Web viewer
// ---------------------------------------------------------------------------

/// The viewer program: the configured one, trimmed, unless it is blank;
/// `axiomnexus-webd` otherwise.
pub fn resolve_viewer_binary_candidate(raw: Option<&str>) -> (r: String)
    ensures
        r@ == match raw {
            Some(s) => if trim(s@).len() > 0 {
                trim(s@)
            } else {
                "axiomnexus-webd"@
            },
            None => "axiomnexus-webd"@,
        },
{
    if let Some(s) = raw {
        let v = chars_of(s);
        let (a, b) = trim_range(&v, 0, v.len());
        assert(v@.subrange(0, v@.len() as int) =~= v@);
        if a < b {
            return string_of(&sub_vec(&v, a, b));
        }
    }
    string_of(&chars_of("axiomnexus-webd"))
}

} // verus!
