use vstd::prelude::*;

use crate::json::json_document;
use crate::parse::extension;
use crate::scope::{scope_name, Scope};
use crate::text::{ascii_lowercase, chars_eq_str, chars_of, extend_str, string_of, to_ascii_lowercase};

verus! {

/// Which editor a request goes through.
#[derive(Debug, Clone, Copy, PartialEq, Eq, Structural)]
pub enum EditorMode {
    Markdown,
    Document,
}

pub open spec fn one_of(s: Seq<char>, names: Seq<Seq<char>>) -> bool {
    names.contains(s)
}

impl EditorMode {
    pub fn load_operation(self) -> (r: &'static str)
        ensures
            r@ == match self {
                EditorMode::Markdown => "markdown.load"@,
                EditorMode::Document => "document.load"@,
            },
    {
        match self {
            EditorMode::Markdown => "markdown.load",
            EditorMode::Document => "document.load",
        }
    }

    pub fn save_operation(self) -> (r: &'static str)
        ensures
            r@ == match self {
                EditorMode::Markdown => "markdown.save"@,
                EditorMode::Document => "document.save"@,
            },
    {
        match self {
            EditorMode::Markdown => "markdown.save",
            EditorMode::Document => "document.save",
        }
    }

    pub open spec fn label_text(self) -> Seq<char> {
        match self {
            EditorMode::Markdown => "markdown"@,
            EditorMode::Document => "document"@,
        }
    }

    pub fn label(self) -> (r: &'static str)
        ensures
            r@ == self.label_text(),
    {
        match self {
            EditorMode::Markdown => "markdown",
            EditorMode::Document => "document",
        }
    }

    /// The extensions a mode can open.
    pub open spec fn loadable(self, ext: Seq<char>) -> bool {
        match self {
            EditorMode::Markdown => ext == "md"@ || ext == "markdown"@,
            EditorMode::Document => ext == "md"@ || ext == "markdown"@ || ext == "json"@ || ext
                == "yaml"@ || ext == "yml"@ || ext == "jsonl"@ || ext == "xml"@ || ext == "txt"@
                || ext == "text"@,
        }
    }

    /// The extensions a mode can write; they are also the editable ones.
    pub open spec fn savable(self, ext: Seq<char>) -> bool {
        match self {
            EditorMode::Markdown => ext == "md"@ || ext == "markdown"@,
            EditorMode::Document => ext == "md"@ || ext == "markdown"@ || ext == "json"@ || ext
                == "yaml"@ || ext == "yml"@,
        }
    }

    pub fn supports_load_extension(self, ext: &str) -> (r: bool)
        ensures
            r == self.loadable(ext@),
    {
        let e = chars_of(ext);
        match self {
            EditorMode::Markdown => chars_eq_str(&e, "md") || chars_eq_str(&e, "markdown"),
            EditorMode::Document => chars_eq_str(&e, "md") || chars_eq_str(&e, "markdown")
                || chars_eq_str(&e, "json") || chars_eq_str(&e, "yaml") || chars_eq_str(&e, "yml")
                || chars_eq_str(&e, "jsonl") || chars_eq_str(&e, "xml") || chars_eq_str(&e, "txt")
                || chars_eq_str(&e, "text"),
        }
    }

    pub fn supports_save_extension(self, ext: &str) -> (r: bool)
        ensures
            r == self.savable(ext@),
    {
        let e = chars_of(ext);
        match self {
            EditorMode::Markdown => chars_eq_str(&e, "md") || chars_eq_str(&e, "markdown"),
            EditorMode::Document => chars_eq_str(&e, "md") || chars_eq_str(&e, "markdown")
                || chars_eq_str(&e, "json") || chars_eq_str(&e, "yaml") || chars_eq_str(&e, "yml"),
        }
    }

    pub fn is_editable_extension(self, ext: &str) -> (r: bool)
        ensures
            r == self.savable(ext@),
    {
        self.supports_save_extension(ext)
    }

    pub open spec fn load_refusal(self, uri: Seq<char>) -> Seq<char> {
        match self {
            EditorMode::Markdown => "markdown editor only supports .md/.markdown targets: "@ + uri,
            EditorMode::Document => "document load supports .md/.markdown/.json/.yaml/.yml/.jsonl/.xml/.txt targets: "@
                + uri,
        }
    }

    pub open spec fn save_refusal(self, uri: Seq<char>) -> Seq<char> {
        match self {
            EditorMode::Markdown => "markdown editor only supports .md/.markdown targets: "@ + uri,
            EditorMode::Document => "document save supports .md/.markdown/.json/.yaml/.yml targets: "@
                + uri,
        }
    }

    pub fn unsupported_load_target_message(self, uri: &str) -> (r: String)
        ensures
            r@ == self.load_refusal(uri@),
    {
        let mut m = match self {
            EditorMode::Markdown => chars_of("markdown editor only supports .md/.markdown targets: "),
            EditorMode::Document => chars_of(
                "document load supports .md/.markdown/.json/.yaml/.yml/.jsonl/.xml/.txt targets: ",
            ),
        };
        extend_str(&mut m, uri);
        string_of(&m)
    }

    pub fn unsupported_save_target_message(self, uri: &str) -> (r: String)
        ensures
            r@ == self.save_refusal(uri@),
    {
        let mut m = match self {
            EditorMode::Markdown => chars_of("markdown editor only supports .md/.markdown targets: "),
            EditorMode::Document => chars_of(
                "document save supports .md/.markdown/.json/.yaml/.yml targets: ",
            ),
        };
        extend_str(&mut m, uri);
        string_of(&m)
    }

    pub open spec fn format_name(ext: Seq<char>) -> Seq<char> {
        if ext == "md"@ || ext == "markdown"@ {
            "markdown"@
        } else if ext == "json"@ {
            "json"@
        } else if ext == "yaml"@ || ext == "yml"@ {
            "yaml"@
        } else if ext == "jsonl"@ {
            "jsonl"@
        } else if ext == "xml"@ {
            "xml"@
        } else {
            "text"@
        }
    }

    /// The format a document of that extension is shown as.
    pub fn format_for_extension(self, ext: &str) -> (r: &'static str)
        ensures
            r@ == Self::format_name(ext@),
    {
        let e = chars_of(ext);
        if chars_eq_str(&e, "md") || chars_eq_str(&e, "markdown") {
            "markdown"
        } else if chars_eq_str(&e, "json") {
            "json"
        } else if chars_eq_str(&e, "yaml") || chars_eq_str(&e, "yml") {
            "yaml"
        } else if chars_eq_str(&e, "jsonl") {
            "jsonl"
        } else if chars_eq_str(&e, "xml") {
            "xml"
        } else {
            "text"
        }
    }
}

/// Which formats a mode writes back: the Markdown editor saves whatever it
/// can open; the document editor saves the documents it can open that it
/// shows as Markdown, JSON or YAML, and no others (not JSON lines, XML or
/// plain text).
pub proof fn lemma_savable_formats(mode: EditorMode, ext: Seq<char>)
    ensures
        mode.savable(ext) <==> mode.loadable(ext) && match mode {
            EditorMode::Markdown => true,
            EditorMode::Document => {
                let f = EditorMode::format_name(ext);
                f == "markdown"@ || f == "json"@ || f == "yaml"@
            },
        },
{
    reveal_strlit("md");
    reveal_strlit("markdown");
    reveal_strlit("json");
    reveal_strlit("yaml");
    reveal_strlit("yml");
    reveal_strlit("jsonl");
    reveal_strlit("xml");
    reveal_strlit("txt");
    reveal_strlit("text");
    assert("md"@.len() == 2 && "markdown"@.len() == 8 && "json"@.len() == 4);
    assert("yaml"@.len() == 4 && "yml"@.len() == 3 && "jsonl"@.len() == 5);
    assert("xml"@.len() == 3 && "txt"@.len() == 3 && "text"@.len() == 4);
    assert("json"@[0] == 'j' && "yaml"@[0] == 'y' && "yml"@[0] == 'y' && "xml"@[0] == 'x');
    assert("txt"@[0] == 't' && "text"@[0] == 't');
    if ext == "jsonl"@ {
        assert(ext != "json"@ && ext != "md"@ && ext != "markdown"@ && ext != "yaml"@);
        assert(ext != "yml"@);
    } else if ext == "xml"@ {
        assert(ext != "json"@ && ext != "md"@ && ext != "markdown"@ && ext != "yaml"@);
        assert(ext != "yml"@ && ext != "jsonl"@);
    } else if ext == "txt"@ || ext == "text"@ {
        assert(ext != "json"@ && ext != "md"@ && ext != "markdown"@ && ext != "yaml"@);
        assert(ext != "yml"@ && ext != "jsonl"@ && ext != "xml"@);
        assert(EditorMode::format_name(ext) == "text"@);
        assert("text"@ != "json"@ && "text"@ != "yaml"@ && "text"@ != "markdown"@);
    }
}

/// The kind of refusal an editor request meets.
#[derive(Debug, Clone, Copy, PartialEq, Eq, Structural)]
pub enum EditorErrorKind {
    PermissionDenied,
    NotFound,
    Validation,
    Conflict,
}

/// What an editor request is refused with.
#[derive(Debug, Clone, PartialEq, Eq)]
pub struct EditorError {
    pub kind: EditorErrorKind,
    pub message: String,
}

fn editor_error(kind: EditorErrorKind, message: Vec<char>) -> (e: EditorError)
    ensures
        e.kind == kind,
        e.message@ == message@,
{
    EditorError { kind, message: string_of(&message) }
}

/// What the editor knows of a target before it checks it.
pub struct EditorTarget<'a> {
    /// The target URI as text.
    pub uri: &'a str,
    /// The scope the URI is in.
    pub scope: Scope,
    /// Whether the target exists.
    pub exists: bool,
    /// Whether the target is a directory.
    pub is_dir: bool,
    /// The URI's last segment, if it has one.
    pub name: Option<&'a str>,
}

/// The checks a target goes through, in order: an editable scope, an
/// existing file with a name, not a generated tier file, and an extension
/// the mode supports for the operation. Gives the extension, lower-cased.
pub open spec fn target_check(t: EditorTarget, mode: EditorMode, for_save: bool) -> Result<
    Seq<char>,
    (EditorErrorKind, Seq<char>),
> {
    let label = mode.label_text();
    if !(t.scope == Scope::Resources || t.scope == Scope::User || t.scope == Scope::Agent
        || t.scope == Scope::Session) {
        Err(
            (
                EditorErrorKind::PermissionDenied,
                label + " editor does not allow scope: "@ + scope_name(t.scope),
            ),
        )
    } else if !t.exists {
        Err((EditorErrorKind::NotFound, t.uri@))
    } else if t.is_dir {
        Err((EditorErrorKind::Validation, label + " target must be a file: "@ + t.uri@))
    } else {
        match t.name {
            None => Err(
                (EditorErrorKind::Validation, label + " target must include a filename: "@ + t.uri@),
            ),
            Some(name) => if name@ == ".abstract.md"@ || name@ == ".overview.md"@ {
                Err(
                    (
                        EditorErrorKind::PermissionDenied,
                        label + " editor cannot modify generated tier file: "@ + t.uri@,
                    ),
                )
            } else {
                let ext = ascii_lowercase(extension(name@));
                if for_save && !mode.savable(ext) {
                    Err((EditorErrorKind::Validation, mode.save_refusal(t.uri@)))
                } else if !for_save && !mode.loadable(ext) {
                    Err((EditorErrorKind::Validation, mode.load_refusal(t.uri@)))
                } else {
                    Ok(ext)
                }
            },
        }
    }
}

/// A target the document editor can open, and shows as Markdown, JSON or
/// YAML, it can also save, under the same extension.
pub proof fn lemma_openable_structured_document_is_savable(t: EditorTarget, ext: Seq<char>)
    requires
        target_check(t, EditorMode::Document, false) == Ok::<Seq<char>, (EditorErrorKind, Seq<char>)>(
            ext,
        ),
        EditorMode::format_name(ext) == "markdown"@ || EditorMode::format_name(ext) == "json"@
            || EditorMode::format_name(ext) == "yaml"@,
    ensures
        target_check(t, EditorMode::Document, true) == Ok::<Seq<char>, (EditorErrorKind, Seq<char>)>(
            ext,
        ),
{
    lemma_savable_formats(EditorMode::Document, ext);
}

pub fn validate_editor_target(t: &EditorTarget, mode: EditorMode, for_save: bool) -> (r: Result<
    String,
    EditorError,
>)
    ensures
        match r {
            Ok(ext) => target_check(*t, mode, for_save) == Ok::<
                Seq<char>,
                (EditorErrorKind, Seq<char>),
            >(ext@),
            Err(e) => target_check(*t, mode, for_save) == Err::<
                Seq<char>,
                (EditorErrorKind, Seq<char>),
            >((e.kind, e.message@)),
        },
{
    let label = mode.label();
    if !(t.scope == Scope::Resources || t.scope == Scope::User || t.scope == Scope::Agent
        || t.scope == Scope::Session) {
        let mut m = chars_of(label);
        extend_str(&mut m, " editor does not allow scope: ");
        extend_str(&mut m, t.scope.as_str());
        return Err(editor_error(EditorErrorKind::PermissionDenied, m));
    }
    if !t.exists {
        return Err(editor_error(EditorErrorKind::NotFound, chars_of(t.uri)));
    }
    if t.is_dir {
        let mut m = chars_of(label);
        extend_str(&mut m, " target must be a file: ");
        extend_str(&mut m, t.uri);
        return Err(editor_error(EditorErrorKind::Validation, m));
    }
    let name = match t.name {
        None => {
            let mut m = chars_of(label);
            extend_str(&mut m, " target must include a filename: ");
            extend_str(&mut m, t.uri);
            return Err(editor_error(EditorErrorKind::Validation, m));
        },
        Some(n) => n,
    };
    let nv = chars_of(name);
    if chars_eq_str(&nv, ".abstract.md") || chars_eq_str(&nv, ".overview.md") {
        let mut m = chars_of(label);
        extend_str(&mut m, " editor cannot modify generated tier file: ");
        extend_str(&mut m, t.uri);
        return Err(editor_error(EditorErrorKind::PermissionDenied, m));
    }
    let ext = string_of(&to_ascii_lowercase(&crate::parse::extension_of(name)));
    if for_save {
        if !mode.supports_save_extension(ext.as_str()) {
            let m = mode.unsupported_save_target_message(t.uri);
            return Err(EditorError { kind: EditorErrorKind::Validation, message: m });
        }
    } else {
        if !mode.supports_load_extension(ext.as_str()) {
            let m = mode.unsupported_load_target_message(t.uri);
            return Err(EditorError { kind: EditorErrorKind::Validation, message: m });
        }
    }
    Ok(ext)
}

// ---------------------------------------------------------------------------
// Content checks
// ---------------------------------------------------------------------------

/// serde_json's error text for a text that does not parse as JSON.
pub uninterp spec fn json_error_text(text: Seq<char>) -> Option<Seq<char>>;

/// serde_norway's error text for a text that does not parse as YAML.
pub uninterp spec fn yaml_error_text(text: Seq<char>) -> Option<Seq<char>>;

pub open spec fn opt_string(o: Option<String>) -> Option<Seq<char>> {
    match o {
        Some(s) => Some(s@),
        None => None,
    }
}

/// serde_json's `from_str::<Value>`: the error's text when the text does not
/// parse; nothing when it does.
#[verifier::external_body]
fn json_syntax_error(text: &str) -> (r: Option<String>)
    ensures
        opt_string(r) == json_error_text(text@),
        r is None <==> json_document(text@) is Some,
{
    match serde_json::from_str::<serde_json::Value>(text) {
        Ok(_) => None,
        Err(err) => Some(err.to_string()),
    }
}

/// serde_norway's `from_str::<Value>`: the error's text when the text does
/// not parse; nothing when it does.
#[verifier::external_body]
fn yaml_syntax_error(text: &str) -> (r: Option<String>)
    ensures
        opt_string(r) == yaml_error_text(text@),
{
    match serde_norway::from_str::<serde_norway::Value>(text) {
        Ok(_) => None,
        Err(err) => Some(err.to_string()),
    }
}

/// Saving through the document editor needs valid JSON in `.json` files
/// and valid YAML in `.yaml`/`.yml` files; the Markdown editor checks
/// nothing.
pub open spec fn content_check(mode: EditorMode, ext: Seq<char>, content: Seq<char>) -> Option<
    Seq<char>,
> {
    if mode == EditorMode::Document && ext == "json"@ {
        match json_error_text(content) {
            Some(e) => Some("invalid json content for document save: "@ + e),
            None => None,
        }
    } else if mode == EditorMode::Document && (ext == "yaml"@ || ext == "yml"@) {
        match yaml_error_text(content) {
            Some(e) => Some("invalid yaml content for document save: "@ + e),
            None => None,
        }
    } else {
        None
    }
}

pub fn validate_editor_content(mode: EditorMode, ext: &str, content: &str) -> (r: Result<(), EditorError>)
    ensures
        match r {
            Ok(()) => content_check(mode, ext@, content@) is None,
            Err(e) => e.kind == EditorErrorKind::Validation && content_check(mode, ext@, content@)
                == Some(e.message@),
        },
{
    let e = chars_of(ext);
    if mode == EditorMode::Document && chars_eq_str(&e, "json") {
        match json_syntax_error(content) {
            Some(err) => {
                let mut m = chars_of("invalid json content for document save: ");
                extend_str(&mut m, err.as_str());
                Err(editor_error(EditorErrorKind::Validation, m))
            },
            None => Ok(()),
        }
    } else if mode == EditorMode::Document && (chars_eq_str(&e, "yaml") || chars_eq_str(&e, "yml")) {
        match yaml_syntax_error(content) {
            Some(err) => {
                let mut m = chars_of("invalid yaml content for document save: ");
                extend_str(&mut m, err.as_str());
                Err(editor_error(EditorErrorKind::Validation, m))
            },
            None => Ok(()),
        }
    } else {
        Ok(())
    }
}

// ---------------------------------------------------------------------------
// Entity tags
// ---------------------------------------------------------------------------

/// The BLAKE3 hash of a text's UTF-8 bytes.
pub uninterp spec fn blake3_text_digest(text: Seq<char>) -> Seq<u8>;

/// blake3's `hash` over the text's bytes; the digest is 32 bytes long.
#[verifier::external_body]
pub(crate) fn blake3_digest(text: &str) -> (r: Vec<u8>)
    ensures
        r@ == blake3_text_digest(text@),
        r@.len() == 32,
{
    blake3::hash(text.as_bytes()).as_bytes().to_vec()
}

pub open spec fn hex_digit(n: u8) -> char {
    if n < 10 {
        (('0' as u8) + n) as char
    } else {
        (('a' as u8) + n - 10) as char
    }
}

/// Lower-case hexadecimal, two digits per byte, high nibble first.
pub open spec fn hex_of(bytes: Seq<u8>) -> Seq<char>
    decreases bytes.len(),
{
    if bytes.len() == 0 {
        Seq::empty()
    } else {
        hex_of(bytes.drop_last()) + seq![hex_digit(bytes.last() / 16), hex_digit(bytes.last() % 16)]
    }
}

fn hex_digit_exec(n: u8) -> (c: char)
    requires
        n < 16,
    ensures
        c == hex_digit(n),
{
    let table = ['0', '1', '2', '3', '4', '5', '6', '7', '8', '9', 'a', 'b', 'c', 'd', 'e', 'f'];
    let c = table[n as usize];
    assert(c == hex_digit(n)) by {
        assert(table@[n as int] == c);
    }
    c
}

/// The entity tag of a document: the lower-case hex BLAKE3 digest of its
/// text.
pub fn markdown_etag(content: &str) -> (r: String)
    ensures
        r@ == hex_of(blake3_text_digest(content@)),
        r@.len() == 64,
{
    let d = blake3_digest(content);
    let mut out: Vec<char> = Vec::new();
    let mut i: usize = 0;
    while i < d.len()
        invariant
            i <= d@.len(),
            out@ == hex_of(d@.take(i as int)),
            out@.len() == 2 * i,
        decreases d.len() - i,
    {
        let b = d[i];
        assert(d@.take(i + 1).drop_last() =~= d@.take(i as int));
        assert(d@.take(i + 1).last() == b);
        out.push(hex_digit_exec(b / 16));
        out.push(hex_digit_exec(b % 16));
        i = i + 1;
    }
    assert(d@.take(d@.len() as int) =~= d@);
    string_of(&out)
}

/// A save that names an entity tag is refused when the document changed.
pub fn check_expected_etag(uri: &str, current_etag: &str, expected_etag: Option<&str>) -> (r: Result<
    (),
    EditorError,
>)
    ensures
        match expected_etag {
            Some(e) => if e@ == current_etag@ {
                r is Ok
            } else {
                r matches Err(err) && err.kind == EditorErrorKind::Conflict && err.message@
                    == "etag mismatch for "@ + uri@
            },
            None => r is Ok,
        },
{
    match expected_etag {
        None => Ok(()),
        Some(e) => {
            if chars_eq_str(&chars_of(current_etag), e) {
                Ok(())
            } else {
                let mut m = chars_of("etag mismatch for ");
                extend_str(&mut m, uri);
                Err(editor_error(EditorErrorKind::Conflict, m))
            }
        },
    }
}

/// A save needs a parent to reindex; a scope root has none.
pub fn scope_root_error(mode: EditorMode) -> (e: EditorError)
    ensures
        e.kind == EditorErrorKind::Validation,
        e.message@ == mode.label_text() + " target must not be a scope root"@,
{
    let mut m = chars_of(mode.label());
    extend_str(&mut m, " target must not be a scope root");
    editor_error(EditorErrorKind::Validation, m)
}

/// The report of a save whose reindex failed, with how the rollback went.
pub fn reindex_failure_message(
    mode: EditorMode,
    uri: &str,
    reindex_err: &str,
    rollback_write_err: Option<&str>,
    rollback_reindex_err: Option<&str>,
) -> (r: String)
    ensures
        r@ == mode.label_text() + " save failed during reindex for "@ + uri@ + ": reindex_err="@
            + reindex_err@ + "; rollback_write="@ + match rollback_write_err {
            Some(e) => "err:"@ + e@,
            None => "ok"@,
        } + "; rollback_reindex="@ + match rollback_reindex_err {
            Some(e) => "err:"@ + e@,
            None => "ok_or_skipped"@,
        },
{
    let mut m = chars_of(mode.label());
    extend_str(&mut m, " save failed during reindex for ");
    extend_str(&mut m, uri);
    extend_str(&mut m, ": reindex_err=");
    extend_str(&mut m, reindex_err);
    extend_str(&mut m, "; rollback_write=");
    match rollback_write_err {
        Some(e) => {
            extend_str(&mut m, "err:");
            extend_str(&mut m, e);
        },
        None => extend_str(&mut m, "ok"),
    }
    extend_str(&mut m, "; rollback_reindex=");
    match rollback_reindex_err {
        Some(e) => {
            extend_str(&mut m, "err:");
            extend_str(&mut m, e);
        },
        None => extend_str(&mut m, "ok_or_skipped"),
    }
    string_of(&m)
}


// ---------------------------------------------------------------------------
// The save sequence: write, reindex, and roll back when the reindex fails
// ---------------------------------------------------------------------------

/// Where a save stands. The caller performs each action the save asks for
/// and hands back what came of it.
#[derive(Debug, Clone, PartialEq, Eq)]
pub enum SaveStage {
    /// The document's current text is being read.
    ReadingPrevious,
    /// The new text is being written; the previous one is kept for rollback.
    Writing { previous: String },
    /// The document and its ancestors are being reindexed.
    Reindexing { previous: String },
    /// The reindex failed; the previous text is being written back.
    RollingBackWrite { reindex_err: String },
    /// The previous text is back; it is being reindexed.
    RollingBackReindex { reindex_err: String },
    /// The saved text is being read back for its entity tag.
    ReadingCommitted,
    /// The save is over.
    Finished,
}

/// What came of the action the save asked for.
#[derive(Debug, PartialEq, Eq)]
pub enum SaveEvent {
    ReadDone(Result<String, String>),
    WriteDone(Result<(), String>),
    ReindexDone(Result<(), String>),
}

/// Why a save failed.
#[derive(Debug, Clone, PartialEq, Eq)]
pub enum SaveFailure {
    /// Reading or writing the document failed; the error is passed on.
    Io(String),
    /// The document changed since the caller read it.
    Conflict(EditorError),
    /// The reindex failed; the message tells how the rollback went.
    Internal(String),
}

/// What the save asks for next.
#[derive(Debug, Clone, PartialEq, Eq)]
pub enum SaveAction {
    /// Read the document's text.
    Read,
    /// Write this text to the document.
    Write(String),
    /// Reindex the document with its ancestors.
    Reindex,
    /// The save is done; the saved text has this entity tag.
    Succeed { etag: String },
    /// The save failed.
    Fail(SaveFailure),
    /// The event does not belong to the stage; nothing happens.
    Ignore,
}

/// A save in progress.
#[derive(Debug, Clone, PartialEq, Eq)]
pub struct SaveRun {
    pub mode: EditorMode,
    pub uri: String,
    pub content: String,
    pub expected_etag: Option<String>,
    pub stage: SaveStage,
}

pub open spec fn etag_of(text: Seq<char>) -> Seq<char> {
    hex_of(blake3_text_digest(text))
}

pub open spec fn err_view(e: Result<(), String>) -> Option<Seq<char>> {
    match e {
        Ok(()) => None,
        Err(m) => Some(m@),
    }
}

/// The report of a failed reindex, with how the rollback went.
pub open spec fn reindex_report(
    mode: EditorMode,
    uri: Seq<char>,
    reindex_err: Seq<char>,
    rollback_write_err: Option<Seq<char>>,
    rollback_reindex_err: Option<Seq<char>>,
) -> Seq<char> {
    mode.label_text() + " save failed during reindex for "@ + uri + ": reindex_err="@ + reindex_err
        + "; rollback_write="@ + match rollback_write_err {
        Some(e) => "err:"@ + e,
        None => "ok"@,
    } + "; rollback_reindex="@ + match rollback_reindex_err {
        Some(e) => "err:"@ + e,
        None => "ok_or_skipped"@,
    }
}

/// One step of a save: the stage it moves to and what it asks for.
/// - Reading the previous text: a failed read fails the save; a tag that
///   differs from the expected one fails it as a conflict; otherwise the new
///   text is written.
/// - Writing: a failed write fails the save; otherwise the reindex runs.
/// - Reindexing: success reads the saved text back; failure writes the
///   previous text back.
/// - Rolling back the write: if it fails, the save fails with the report;
///   otherwise the previous text is reindexed.
/// - Rolling back the reindex: the save fails with the report, whatever the
///   reindex gave.
/// - Reading the saved text: its tag ends the save; a failed read fails it.
/// An event that does not belong to the stage changes nothing.
pub open spec fn save_transition(run: SaveRun, event: SaveEvent, next: SaveStage, action: SaveAction) -> bool {
    match (run.stage, event) {
        (SaveStage::ReadingPrevious, SaveEvent::ReadDone(Err(e))) => io_failure(next, action, e@),
        (SaveStage::ReadingPrevious, SaveEvent::ReadDone(Ok(prev))) => if run.expected_etag is Some
            && run.expected_etag->0@ != etag_of(prev@) {
            &&& next == SaveStage::Finished
            &&& action matches SaveAction::Fail(SaveFailure::Conflict(err))
            &&& err.kind == EditorErrorKind::Conflict
            &&& err.message@ == "etag mismatch for "@ + run.uri@
        } else {
            &&& next matches SaveStage::Writing { previous }
            &&& previous@ == prev@
            &&& action matches SaveAction::Write(t)
            &&& t@ == run.content@
        },
        (SaveStage::Writing { previous }, SaveEvent::WriteDone(Err(e))) => io_failure(next, action, e@),
        (SaveStage::Writing { previous }, SaveEvent::WriteDone(Ok(()))) => {
            &&& next matches SaveStage::Reindexing { previous: p }
            &&& p@ == previous@
            &&& action == SaveAction::Reindex
        },
        (SaveStage::Reindexing { previous }, SaveEvent::ReindexDone(Ok(()))) => next
            == SaveStage::ReadingCommitted && action == SaveAction::Read,
        (SaveStage::Reindexing { previous }, SaveEvent::ReindexDone(Err(e))) => {
            &&& next matches SaveStage::RollingBackWrite { reindex_err: r }
            &&& r@ == e@
            &&& action matches SaveAction::Write(t)
            &&& t@ == previous@
        },
        (SaveStage::RollingBackWrite { reindex_err }, SaveEvent::WriteDone(Err(e))) => internal_failure(
            next,
            action,
            reindex_report(run.mode, run.uri@, reindex_err@, Some(e@), None),
        ),
        (SaveStage::RollingBackWrite { reindex_err }, SaveEvent::WriteDone(Ok(()))) => {
            &&& next matches SaveStage::RollingBackReindex { reindex_err: r }
            &&& r@ == reindex_err@
            &&& action == SaveAction::Reindex
        },
        (SaveStage::RollingBackReindex { reindex_err }, SaveEvent::ReindexDone(res)) => internal_failure(
            next,
            action,
            reindex_report(run.mode, run.uri@, reindex_err@, None, err_view(res)),
        ),
        (SaveStage::ReadingCommitted, SaveEvent::ReadDone(Ok(text))) => {
            &&& next == SaveStage::Finished
            &&& action matches SaveAction::Succeed { etag }
            &&& etag@ == etag_of(text@)
        },
        (SaveStage::ReadingCommitted, SaveEvent::ReadDone(Err(e))) => io_failure(next, action, e@),
        _ => next == run.stage && action == SaveAction::Ignore,
    }
}

/// The save ends, passing on an I/O error.
pub open spec fn io_failure(next: SaveStage, action: SaveAction, e: Seq<char>) -> bool {
    &&& next == SaveStage::Finished
    &&& action matches SaveAction::Fail(SaveFailure::Io(m))
    &&& m@ == e
}

/// The save ends with a reindex report.
pub open spec fn internal_failure(next: SaveStage, action: SaveAction, report: Seq<char>) -> bool {
    &&& next == SaveStage::Finished
    &&& action matches SaveAction::Fail(SaveFailure::Internal(m))
    &&& m@ == report
}

fn copy_string(s: &String) -> (r: String)
    ensures
        r@ == s@,
{
    string_of(&chars_of(s.as_str()))
}

fn rollback_failure(
    mode: EditorMode,
    uri: &String,
    reindex_err: &String,
    write_err: Option<&str>,
    reindex2_err: Option<&str>,
) -> (a: SaveAction)
    ensures
        internal_failure(SaveStage::Finished, a, reindex_report(
            mode,
            uri@,
            reindex_err@,
            match write_err {
                Some(e) => Some(e@),
                None => None,
            },
            match reindex2_err {
                Some(e) => Some(e@),
                None => None,
            },
        )),
{
    SaveAction::Fail(
        SaveFailure::Internal(
            reindex_failure_message(mode, uri.as_str(), reindex_err.as_str(), write_err, reindex2_err),
        ),
    )
}

impl SaveRun {
    /// Starts a save whose target and content were checked: it first reads
    /// the document's current text.
    pub fn start(mode: EditorMode, uri: String, content: String, expected_etag: Option<String>) -> (r: (
        SaveRun,
        SaveAction,
    ))
        ensures
            r.0 == (SaveRun { mode, uri, content, expected_etag, stage: SaveStage::ReadingPrevious }),
            r.1 == SaveAction::Read,
    {
        (SaveRun { mode, uri, content, expected_etag, stage: SaveStage::ReadingPrevious }, SaveAction::Read)
    }

    /// Takes what came of the last action and says what to do next.
    pub fn step(self, event: SaveEvent) -> (r: (SaveRun, SaveAction))
        ensures
            r.0.mode == self.mode,
            r.0.uri == self.uri,
            r.0.content == self.content,
            r.0.expected_etag == self.expected_etag,
            save_transition(self, event, r.0.stage, r.1),
    {
        let SaveRun { mode, uri, content, expected_etag, stage } = self;
        let ghost run = self;
        let (next, action) = match (stage, event) {
            (SaveStage::ReadingPrevious, SaveEvent::ReadDone(Err(e))) => (
                SaveStage::Finished,
                SaveAction::Fail(SaveFailure::Io(e)),
            ),
            (SaveStage::ReadingPrevious, SaveEvent::ReadDone(Ok(prev))) => {
                let tag = markdown_etag(prev.as_str());
                let conflict = match &expected_etag {
                    Some(t) => check_expected_etag(uri.as_str(), tag.as_str(), Some(t.as_str())),
                    None => Ok(()),
                };
                match conflict {
                    Err(err) => (SaveStage::Finished, SaveAction::Fail(SaveFailure::Conflict(err))),
                    Ok(()) => {
                        let w = copy_string(&content);
                        (SaveStage::Writing { previous: prev }, SaveAction::Write(w))
                    },
                }
            },
            (SaveStage::Writing { previous }, SaveEvent::WriteDone(Err(e))) => (
                SaveStage::Finished,
                SaveAction::Fail(SaveFailure::Io(e)),
            ),
            (SaveStage::Writing { previous }, SaveEvent::WriteDone(Ok(()))) => (
                SaveStage::Reindexing { previous },
                SaveAction::Reindex,
            ),
            (SaveStage::Reindexing { previous }, SaveEvent::ReindexDone(Ok(()))) => (
                SaveStage::ReadingCommitted,
                SaveAction::Read,
            ),
            (SaveStage::Reindexing { previous }, SaveEvent::ReindexDone(Err(e))) => (
                SaveStage::RollingBackWrite { reindex_err: e },
                SaveAction::Write(previous),
            ),
            (SaveStage::RollingBackWrite { reindex_err }, SaveEvent::WriteDone(Err(e))) => {
                let a = rollback_failure(mode, &uri, &reindex_err, Some(e.as_str()), None);
                (SaveStage::Finished, a)
            },
            (SaveStage::RollingBackWrite { reindex_err }, SaveEvent::WriteDone(Ok(()))) => (
                SaveStage::RollingBackReindex { reindex_err },
                SaveAction::Reindex,
            ),
            (SaveStage::RollingBackReindex { reindex_err }, SaveEvent::ReindexDone(res)) => {
                let a = match &res {
                    Ok(()) => rollback_failure(mode, &uri, &reindex_err, None, None),
                    Err(e) => rollback_failure(mode, &uri, &reindex_err, None, Some(e.as_str())),
                };
                (SaveStage::Finished, a)
            },
            (SaveStage::ReadingCommitted, SaveEvent::ReadDone(Ok(text))) => (
                SaveStage::Finished,
                SaveAction::Succeed { etag: markdown_etag(text.as_str()) },
            ),
            (SaveStage::ReadingCommitted, SaveEvent::ReadDone(Err(e))) => (
                SaveStage::Finished,
                SaveAction::Fail(SaveFailure::Io(e)),
            ),
            (stage, _) => (stage, SaveAction::Ignore),
        };
        (SaveRun { mode, uri, content, expected_etag, stage: next }, action)
    }
}

} // verus!
