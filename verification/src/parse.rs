use vstd::prelude::*;
use vstd::utf8::{decode_utf8, valid_utf8};

use crate::json::{
    dominant, dominant_keys, flatten, flatten_into, hist_view, index_path, infer_title_from_json_value,
    json_document, json_title, read_json, read_toml, read_yaml, tally_keys, toml_document, top_keys,
    update_top_level_key_histogram, yaml_document, JsonValue,
};
use crate::xml::{flatten_xml, infer_xml_title, xml_lines, xml_title};
use crate::text::{
    ascii_lowercase, chars_eq_str, chars_of, dec, extend_chars, extend_str, find_char, join_chars, join_prefix, join_with,
    first_index_of, is_whitespace, lines, push_dec, split_lines, split_words, starts_with,
    starts_with_chars, string_of, string_of_range, sub_vec, take_chars, take_prefix, to_ascii_lowercase, trim, trim_range,
    vecs_view, words,
};

verus! {

// ---------------------------------------------------------------------------
// Byte decoding
// ---------------------------------------------------------------------------

/// What std's `String::from_utf8_lossy` returns for a byte sequence.
pub uninterp spec fn lossy_decode(bytes: Seq<u8>) -> Seq<char>;

/// std's `str::from_utf8`: the text when the bytes are valid UTF-8.
#[verifier::external_body]
pub fn utf8_text(bytes: &[u8]) -> (r: Option<&str>)
    ensures
        r is Some <==> valid_utf8(bytes@),
        r matches Some(s) ==> s@ == decode_utf8(bytes@),
{
    std::str::from_utf8(bytes).ok()
}

/// std's `String::from_utf8_lossy`: invalid sequences become U+FFFD; valid
/// UTF-8 decodes unchanged.
#[verifier::external_body]
pub fn utf8_lossy(bytes: &[u8]) -> (r: String)
    ensures
        r@ == lossy_decode(bytes@),
        valid_utf8(bytes@) ==> r@ == decode_utf8(bytes@),
{
    String::from_utf8_lossy(bytes).into_owned()
}

// ---------------------------------------------------------------------------
// Parsed documents
// ---------------------------------------------------------------------------

/// What a parser extracted from a file.
#[derive(Debug, Clone)]
pub struct ParsedDocument {
    pub parser: String,
    pub is_text: bool,
    pub title: Option<String>,
    pub text_preview: String,
    pub normalized_text: Option<String>,
    pub line_count: usize,
    pub tags: Vec<String>,
}

/// The mathematical content of a parsed document.
pub struct DocView {
    pub parser: Seq<char>,
    pub is_text: bool,
    pub title: Option<Seq<char>>,
    pub text_preview: Seq<char>,
    pub normalized_text: Option<Seq<char>>,
    pub line_count: nat,
    pub tags: Seq<Seq<char>>,
}

pub open spec fn opt_view(o: Option<String>) -> Option<Seq<char>> {
    match o {
        Some(s) => Some(s@),
        None => None,
    }
}

pub open spec fn strings_view(v: Seq<String>) -> Seq<Seq<char>> {
    v.map_values(|s: String| s@)
}

impl View for ParsedDocument {
    type V = DocView;

    open spec fn view(&self) -> DocView {
        DocView {
            parser: self.parser@,
            is_text: self.is_text,
            title: opt_view(self.title),
            text_preview: self.text_preview@,
            normalized_text: opt_view(self.normalized_text),
            line_count: self.line_count as nat,
            tags: strings_view(self.tags@),
        }
    }
}

fn take_chars_exec(v: &Vec<char>, n: usize) -> (r: String)
    ensures
        r@ == take_chars(v@, n as nat),
{
    if v.len() <= n {
        assert(v@.subrange(0, v@.len() as int) =~= v@);
        string_of_range(v, 0, v.len())
    } else {
        string_of_range(v, 0, n)
    }
}

fn single_tag(tag: &str) -> (v: Vec<String>)
    ensures
        strings_view(v@) == seq![tag@],
{
    let mut v: Vec<String> = Vec::new();
    v.push(string_of(&chars_of(tag)));
    assert(strings_view(v@) =~= seq![tag@]);
    v
}

fn two_tags(a: &str, b: &str) -> (v: Vec<String>)
    ensures
        strings_view(v@) == seq![a@, b@],
{
    let mut v: Vec<String> = Vec::new();
    v.push(string_of(&chars_of(a)));
    v.push(string_of(&chars_of(b)));
    assert(strings_view(v@) =~= seq![a@, b@]);
    v
}

fn str_string(s: &str) -> (r: String)
    ensures
        r@ == s@,
{
    string_of(&chars_of(s))
}

// ---------------------------------------------------------------------------
// Binary files
// ---------------------------------------------------------------------------

pub open spec fn binary_doc(len: nat) -> DocView {
    DocView {
        parser: "binary"@,
        is_text: false,
        title: None,
        text_preview: "binary file ("@ + dec(len) + " bytes)"@,
        normalized_text: None,
        line_count: 0,
        tags: seq!["binary"@],
    }
}

pub fn parse_binary(bytes: &[u8]) -> (d: ParsedDocument)
    ensures
        d@ == binary_doc(bytes@.len()),
{
    let mut preview: Vec<char> = Vec::new();
    extend_str(&mut preview, "binary file (");
    push_dec(&mut preview, bytes.len() as u64);
    extend_str(&mut preview, " bytes)");
    ParsedDocument {
        parser: str_string("binary"),
        is_text: false,
        title: None,
        text_preview: string_of(&preview),
        normalized_text: None,
        line_count: 0,
        tags: single_tag("binary"),
    }
}

// ---------------------------------------------------------------------------
// Plain text
// ---------------------------------------------------------------------------

/// The first line that is not blank, trimmed.
pub open spec fn first_nonblank_line(ls: Seq<Seq<char>>) -> Option<Seq<char>>
    decreases ls.len(),
{
    if ls.len() == 0 {
        None
    } else if trim(ls[0]).len() > 0 {
        Some(trim(ls[0]))
    } else {
        first_nonblank_line(ls.drop_first())
    }
}

pub open spec fn plain_doc(text: Seq<char>) -> DocView {
    DocView {
        parser: "text"@,
        is_text: true,
        title: first_nonblank_line(lines(text)),
        text_preview: take_chars(text, 240),
        normalized_text: Some(text),
        line_count: lines(text).len(),
        tags: seq!["text"@],
    }
}

fn first_nonblank(ls: &Vec<Vec<char>>) -> (r: Option<String>)
    ensures
        opt_view(r) == first_nonblank_line(vecs_view(ls@)),
{
    let ghost all = vecs_view(ls@);
    let mut i: usize = 0;
    assert(all.skip(0) =~= all);
    while i < ls.len()
        invariant
            i <= ls@.len(),
            all == vecs_view(ls@),
            first_nonblank_line(all) == first_nonblank_line(all.skip(i as int)),
        decreases ls.len() - i,
    {
        assert(all.skip(i as int)[0] == ls@[i as int]@);
        let (a, b) = trim_range(&ls[i], 0, ls[i].len());
        assert(ls@[i as int]@.subrange(0, ls@[i as int]@.len() as int) =~= ls@[i as int]@);
        if a < b {
            return Some(string_of_range(&ls[i], a, b));
        }
        assert(all.skip(i as int).drop_first() =~= all.skip(i + 1));
        i = i + 1;
    }
    assert(all.skip(i as int) =~= Seq::<Seq<char>>::empty());
    None
}

pub fn parse_plain_text(text: &str) -> (d: ParsedDocument)
    ensures
        d@ == plain_doc(text@),
{
    let v = chars_of(text);
    let ls = split_lines(&v);
    ParsedDocument {
        parser: str_string("text"),
        is_text: true,
        title: first_nonblank(&ls),
        text_preview: take_chars_exec(&v, 240),
        normalized_text: Some(string_of(&v)),
        line_count: ls.len(),
        tags: single_tag("text"),
    }
}

// ---------------------------------------------------------------------------
// Markdown
// ---------------------------------------------------------------------------

/// A thematic break: three or more of the same '-', '_' or '*'.
pub open spec fn is_rule_line(t: Seq<char>) -> bool {
    &&& t.len() >= 3
    &&& (t[0] == '-' || t[0] == '_' || t[0] == '*')
    &&& forall|i: int| 0 <= i < t.len() ==> #[trigger] t[i] == t[0]
}

pub fn is_markdown_rule_line(t: &Vec<char>) -> (r: bool)
    ensures
        r == is_rule_line(t@),
{
    if t.len() < 3 {
        return false;
    }
    let first = t[0];
    if !(first == '-' || first == '_' || first == '*') {
        return false;
    }
    let mut i: usize = 0;
    while i < t.len()
        invariant
            i <= t@.len(),
            first == t@[0],
            forall|k: int| 0 <= k < i ==> t@[k] == first,
        decreases t.len() - i,
    {
        if t[i] != first {
            return false;
        }
        i = i + 1;
    }
    true
}

/// Without a leading byte-order mark.
pub open spec fn strip_bom(s: Seq<char>) -> Seq<char> {
    if s.len() > 0 && s[0] == '\u{feff}' {
        s.drop_first()
    } else {
        s
    }
}

/// The title of a Markdown text: the first "# " heading, else the first
/// line that is neither blank nor a thematic break.
pub open spec fn md_title_scan(ls: Seq<Seq<char>>, i: int, title: Option<Seq<char>>) -> Option<
    Seq<char>,
>
    decreases ls.len() - i,
{
    if i < 0 || i >= ls.len() {
        title
    } else {
        let t = trim(ls[i]);
        if starts_with(t, "# "@) {
            Some(trim(t.skip(2)))
        } else if t.len() > 0 && title is None && !is_rule_line(t) {
            md_title_scan(ls, i + 1, Some(t))
        } else {
            md_title_scan(ls, i + 1, title)
        }
    }
}

pub open spec fn markdown_doc(text: Seq<char>) -> DocView {
    let n = strip_bom(text);
    DocView {
        parser: "markdown"@,
        is_text: true,
        title: md_title_scan(lines(n), 0, None),
        text_preview: take_chars(n, 240),
        normalized_text: Some(n),
        line_count: lines(n).len(),
        tags: seq!["markdown"@],
    }
}

pub fn normalize_markdown_for_indexing(raw: &Vec<char>) -> (r: Vec<char>)
    ensures
        r@ == strip_bom(raw@),
{
    if raw.len() > 0 && raw[0] == '\u{feff}' {
        assert(raw@.drop_first() =~= raw@.subrange(1, raw@.len() as int));
        sub_vec(raw, 1, raw.len())
    } else {
        assert(raw@.subrange(0, raw@.len() as int) =~= raw@);
        sub_vec(raw, 0, raw.len())
    }
}

fn markdown_title(ls: &Vec<Vec<char>>) -> (r: Option<String>)
    ensures
        opt_view(r) == md_title_scan(vecs_view(ls@), 0, None),
{
    let ghost all = vecs_view(ls@);
    let mut title: Option<String> = None;
    let mut i: usize = 0;
    let hash = chars_of("# ");
    proof {
        reveal_strlit("# ");
    }
    while i < ls.len()
        invariant
            i <= ls@.len(),
            all == vecs_view(ls@),
            hash@ == "# "@,
            hash@.len() == 2,
            md_title_scan(all, 0, None) == md_title_scan(all, i as int, opt_view(title)),
        decreases ls.len() - i,
    {
        let line = &ls[i];
        assert(all[i as int] == line@);
        let (a, b) = trim_range(line, 0, line.len());
        assert(line@.subrange(0, line@.len() as int) =~= line@);
        let t = sub_vec(line, a, b);
        if starts_with_chars(&t, &hash) {
            let (x, y) = trim_range(&t, 2, t.len());
            assert(t@.skip(2) =~= t@.subrange(2, t@.len() as int));
            return Some(string_of_range(&t, x, y));
        }
        if t.len() > 0 && title.is_none() && !is_markdown_rule_line(&t) {
            title = Some(string_of(&t));
        }
        i = i + 1;
    }
    title
}

pub fn parse_markdown(bytes: &[u8]) -> (d: ParsedDocument)
    ensures
        d@ == markdown_doc(lossy_decode(bytes@)),
{
    let text = utf8_lossy(bytes);
    let raw = chars_of(text.as_str());
    let normalized = normalize_markdown_for_indexing(&raw);
    let ls = split_lines(&normalized);
    ParsedDocument {
        parser: str_string("markdown"),
        is_text: true,
        title: markdown_title(&ls),
        text_preview: take_chars_exec(&normalized, 240),
        normalized_text: Some(string_of(&normalized)),
        line_count: ls.len(),
        tags: single_tag("markdown"),
    }
}

// ---------------------------------------------------------------------------
// Structured documents
// ---------------------------------------------------------------------------

/// The first twelve lines joined with newlines, at most 240 characters.
pub open spec fn preview_of_lines(ls: Seq<Seq<char>>) -> Seq<char> {
    let n = if ls.len() < 12 {
        ls.len() as int
    } else {
        12
    };
    take_chars(join_with(ls.take(n), "\n"@), 240)
}

/// A document made of key-path lines.
pub open spec fn structured_doc(
    parser: Seq<char>,
    title: Option<Seq<char>>,
    ls: Seq<Seq<char>>,
    tags: Seq<Seq<char>>,
) -> DocView {
    DocView {
        parser,
        is_text: true,
        title,
        text_preview: preview_of_lines(ls),
        normalized_text: Some(join_with(ls, "\n"@)),
        line_count: ls.len(),
        tags,
    }
}

pub open spec fn opt_chars_view(o: Option<Vec<char>>) -> Option<Seq<char>> {
    match o {
        Some(v) => Some(v@),
        None => None,
    }
}

fn opt_string(o: Option<Vec<char>>) -> (r: Option<String>)
    ensures
        opt_view(r) == opt_chars_view(o),
{
    match o {
        Some(v) => Some(string_of(&v)),
        None => None,
    }
}

pub fn preview_from_lines(ls: &Vec<Vec<char>>) -> (r: String)
    ensures
        r@ == preview_of_lines(vecs_view(ls@)),
{
    let n: usize = if ls.len() < 12 {
        ls.len()
    } else {
        12
    };
    let joined = join_prefix(ls, n, "\n");
    string_of(&take_prefix(&joined, 240))
}

pub fn structured_document(
    parser: &str,
    title: Option<Vec<char>>,
    ls: Vec<Vec<char>>,
    tags: Vec<String>,
) -> (d: ParsedDocument)
    ensures
        d@ == structured_doc(parser@, opt_chars_view(title), vecs_view(ls@), strings_view(tags@)),
{
    let normalized = join_chars(&ls, "\n");
    ParsedDocument {
        parser: str_string(parser),
        is_text: true,
        title: opt_string(title),
        text_preview: preview_from_lines(&ls),
        normalized_text: Some(string_of(&normalized)),
        line_count: ls.len(),
        tags,
    }
}

/// The key-path lines of a parsed configuration; `$={}` when there are none.
pub open spec fn config_lines(v: JsonValue) -> Seq<Seq<char>> {
    let ls = flatten(v, "$"@);
    if ls.len() == 0 {
        seq!["$={}"@]
    } else {
        ls
    }
}

/// A JSON, YAML or TOML file, given the tree its parser read (`None` when
/// the text did not parse).
pub open spec fn config_doc(parser: Seq<char>, text: Seq<char>, parsed: Option<JsonValue>) -> DocView {
    match parsed {
        None => plain_doc(text),
        Some(v) => structured_doc(parser, json_title(v), config_lines(v), seq![parser, "config"@]),
    }
}

/// Builds the document of a configuration file from the text and what its
/// parser made of it.
pub fn config_document(parser: &str, text: &str, parsed: Option<JsonValue>) -> (d: ParsedDocument)
    ensures
        d@ == config_doc(parser@, text@, parsed),
{
    match parsed {
        None => parse_plain_text(text),
        Some(v) => {
            let mut ls: Vec<Vec<char>> = Vec::new();
            let root = chars_of("$");
            flatten_into(&v, &root, &mut ls);
            assert(vecs_view(ls@) =~= flatten(v, "$"@));
            if ls.len() == 0 {
                ls.push(chars_of("$={}"));
                assert(vecs_view(ls@) =~= seq!["$={}"@]);
            }
            let title = infer_title_from_json_value(&v);
            structured_document(parser, title, ls, two_tags(parser, "config"))
        },
    }
}

/// The document of a JSON, YAML or TOML file: binary when the bytes are not
/// UTF-8, else built from `parsed`, what the format's parser made of the text.
pub open spec fn config_file_doc(parser: Seq<char>, bytes: Seq<u8>, parsed: Option<JsonValue>) -> DocView {
    if !valid_utf8(bytes) {
        binary_doc(bytes.len())
    } else {
        config_doc(parser, decode_utf8(bytes), parsed)
    }
}

pub fn parse_json(bytes: &[u8]) -> (d: ParsedDocument)
    ensures
        d@ == config_file_doc("json"@, bytes@, json_document(decode_utf8(bytes@))),
{
    match utf8_text(bytes) {
        None => parse_binary(bytes),
        Some(text) => config_document("json", text, read_json(text)),
    }
}

pub fn parse_yaml(bytes: &[u8]) -> (d: ParsedDocument)
    ensures
        d@ == config_file_doc("yaml"@, bytes@, yaml_document(decode_utf8(bytes@))),
{
    match utf8_text(bytes) {
        None => parse_binary(bytes),
        Some(text) => config_document("yaml", text, read_yaml(text)),
    }
}

pub fn parse_toml(bytes: &[u8]) -> (d: ParsedDocument)
    ensures
        d@ == config_file_doc("toml"@, bytes@, toml_document(decode_utf8(bytes@))),
{
    match utf8_text(bytes) {
        None => parse_binary(bytes),
        Some(text) => config_document("toml", text, read_toml(text)),
    }
}

// ---------------------------------------------------------------------------
// JSON Lines
// ---------------------------------------------------------------------------

/// What a pass over the lines of a JSON Lines file has gathered.
pub struct JsonlTally {
    pub records: nat,
    pub title: Option<Seq<char>>,
    pub hist: Seq<(Seq<char>, nat)>,
    pub lines: Seq<Seq<char>>,
}

pub open spec fn parsed_at(parsed: Seq<Option<JsonValue>>, i: int) -> Option<JsonValue> {
    if 0 <= i < parsed.len() {
        parsed[i]
    } else {
        None
    }
}

/// Line `idx` (0-based): blank lines and lines that did not parse are
/// skipped; a record counts, offers its title if none was found yet, counts
/// its member names and is flattened under `$[idx + 1]`.
pub open spec fn jsonl_step(t: JsonlTally, line: Seq<char>, parsed: Option<JsonValue>, idx: nat) -> JsonlTally {
    if trim(line).len() == 0 {
        t
    } else {
        match parsed {
            None => t,
            Some(v) => JsonlTally {
                records: t.records + 1,
                title: if t.title is None {
                    json_title(v)
                } else {
                    t.title
                },
                hist: tally_keys(t.hist, top_keys(v)),
                lines: t.lines + flatten(v, index_path("$"@, idx + 1)),
            },
        }
    }
}

/// The tally of the first `n` lines.
pub open spec fn jsonl_tally(ls: Seq<Seq<char>>, parsed: Seq<Option<JsonValue>>, n: int) -> JsonlTally
    decreases n,
{
    if n <= 0 {
        JsonlTally { records: 0, title: None, hist: Seq::empty(), lines: Seq::empty() }
    } else {
        jsonl_step(jsonl_tally(ls, parsed, n - 1), ls[n - 1], parsed_at(parsed, n - 1), (n - 1) as nat)
    }
}

proof fn lemma_jsonl_records(ls: Seq<Seq<char>>, parsed: Seq<Option<JsonValue>>, n: int)
    ensures
        jsonl_tally(ls, parsed, n).records <= if n < 0 {
            0
        } else {
            n
        },
    decreases n,
{
    if n > 0 {
        lemma_jsonl_records(ls, parsed, n - 1);
    }
}

/// The document of a JSON Lines text, given what the JSON parser made of
/// each line (`parsed[i]` for line `i`; missing entries count as unparsed).
/// With no record it is plain text; otherwise the lines are a record count,
/// the eight dominant member names when there are any, then every record's
/// key paths.
pub open spec fn jsonl_doc(text: Seq<char>, parsed: Seq<Option<JsonValue>>) -> DocView {
    let ls = lines(text);
    let t = jsonl_tally(ls, parsed, ls.len() as int);
    if t.records == 0 {
        plain_doc(text)
    } else {
        let keys = dominant(t.hist, 8);
        let count_line = "jsonl.records="@ + dec(t.records);
        let head = if keys.len() > 0 {
            seq![count_line, "jsonl.keys="@ + join_with(keys, ","@)]
        } else {
            seq![count_line]
        };
        structured_doc("jsonl"@, t.title, head + t.lines, seq!["jsonl"@, "data"@])
    }
}

/// Builds the document of a JSON Lines text from the parse of each line.
pub fn jsonl_document(text: &str, parsed: &Vec<Option<JsonValue>>) -> (d: ParsedDocument)
    ensures
        d@ == jsonl_doc(text@, parsed@),
{
    let v = chars_of(text);
    let ls = split_lines(&v);
    let ghost lv = vecs_view(ls@);
    let mut records: usize = 0;
    let mut title: Option<Vec<char>> = None;
    let mut hist: Vec<(Vec<char>, usize)> = Vec::new();
    let mut body: Vec<Vec<char>> = Vec::new();
    let mut i: usize = 0;
    assert(hist_view(hist@) =~= Seq::<(Seq<char>, nat)>::empty());
    assert(vecs_view(body@) =~= Seq::<Seq<char>>::empty());
    while i < ls.len()
        invariant
            i <= ls@.len(),
            lv == vecs_view(ls@),
            lv == lines(text@),
            ({
                let t = jsonl_tally(lv, parsed@, i as int);
                &&& records as nat == t.records
                &&& opt_chars_view(title) == t.title
                &&& hist_view(hist@) == t.hist
                &&& vecs_view(body@) == t.lines
            }),
        decreases ls.len() - i,
    {
        proof {
            lemma_jsonl_records(lv, parsed@, i as int);
        }
        assert(lv[i as int] == ls@[i as int]@);
        let (a, b) = trim_range(&ls[i], 0, ls[i].len());
        assert(ls@[i as int]@.subrange(0, ls@[i as int]@.len() as int) =~= ls@[i as int]@);
        if a < b && i < parsed.len() {
            match &parsed[i] {
                Some(value) => {
                    records = records + 1;
                    if title.is_none() {
                        title = infer_title_from_json_value(value);
                    }
                    update_top_level_key_histogram(value, &mut hist);
                    let mut path = chars_of("$[");
                    push_dec(&mut path, (i + 1) as u64);
                    extend_str(&mut path, "]");
                    proof {
                        reveal_strlit("$[");
                        reveal_strlit("$");
                        reveal_strlit("[");
                    }
                    assert(path@ =~= index_path("$"@, (i + 1) as nat));
                    let ghost before = vecs_view(body@);
                    flatten_into(value, &path, &mut body);
                },
                None => {},
            }
        }
        i = i + 1;
    }
    let ghost t = jsonl_tally(lv, parsed@, lv.len() as int);
    if records == 0 {
        return parse_plain_text(text);
    }
    let keys = dominant_keys(&hist, 8);
    let ghost spec_keys = dominant(t.hist, 8);
    assert(vecs_view(keys@) == spec_keys);
    let ghost count_spec = "jsonl.records="@ + dec(t.records);
    let mut out: Vec<Vec<char>> = Vec::new();
    let mut count_line = chars_of("jsonl.records=");
    push_dec(&mut count_line, records as u64);
    assert(count_line@ == count_spec);
    out.push(count_line);
    if keys.len() > 0 {
        let mut key_line = chars_of("jsonl.keys=");
        let joined = join_chars(&keys, ",");
        extend_chars(&mut key_line, &joined);
        out.push(key_line);
        assert(vecs_view(out@) =~= seq![count_spec, "jsonl.keys="@ + join_with(spec_keys, ","@)]);
    } else {
        assert(vecs_view(out@) =~= seq![count_spec]);
    }
    let ghost head = vecs_view(out@);
    let mut k: usize = 0;
    while k < body.len()
        invariant
            k <= body@.len(),
            vecs_view(out@) == head + vecs_view(body@).take(k as int),
        decreases body.len() - k,
    {
        let line = sub_vec(&body[k], 0, body[k].len());
        assert(body@[k as int]@.subrange(0, body@[k as int]@.len() as int) =~= body@[k as int]@);
        let ghost before = vecs_view(out@);
        out.push(line);
        assert(vecs_view(out@) =~= before.push(line@));
        assert(vecs_view(out@) =~= head + vecs_view(body@).take(k + 1));
        k = k + 1;
    }
    assert(vecs_view(body@).take(body@.len() as int) =~= vecs_view(body@));
    structured_document("jsonl", title, out, two_tags("jsonl", "data"))
}

/// The JSON parse of each line of a text (blank lines are not parsed).
pub open spec fn jsonl_parses(ls: Seq<Seq<char>>) -> Seq<Option<JsonValue>> {
    ls.map_values(
        |l: Seq<char>|
            if trim(l).len() > 0 {
                json_document(trim(l))
            } else {
                None
            },
    )
}

pub fn parse_jsonl(bytes: &[u8]) -> (d: ParsedDocument)
    ensures
        d@ == if !valid_utf8(bytes@) {
            binary_doc(bytes@.len())
        } else {
            jsonl_doc(decode_utf8(bytes@), jsonl_parses(lines(decode_utf8(bytes@))))
        },
{
    match utf8_text(bytes) {
        None => parse_binary(bytes),
        Some(text) => {
            let v = chars_of(text);
            let ls = split_lines(&v);
            let ghost lv = vecs_view(ls@);
            let mut parsed: Vec<Option<JsonValue>> = Vec::new();
            let mut i: usize = 0;
            while i < ls.len()
                invariant
                    i <= ls@.len(),
                    lv == vecs_view(ls@),
                    parsed@ == jsonl_parses(lv).take(i as int),
                decreases ls.len() - i,
            {
                let (a, b) = trim_range(&ls[i], 0, ls[i].len());
                assert(ls@[i as int]@.subrange(0, ls@[i as int]@.len() as int) =~= ls@[i as int]@);
                assert(lv[i as int] == ls@[i as int]@);
                if a < b {
                    let line = string_of_range(&ls[i], a, b);
                    parsed.push(read_json(line.as_str()));
                } else {
                    parsed.push(None);
                }
                assert(parsed@ =~= jsonl_parses(lv).take(i + 1));
                i = i + 1;
            }
            assert(jsonl_parses(lv).take(ls@.len() as int) =~= jsonl_parses(lv));
            jsonl_document(text, &parsed)
        },
    }
}

// ---------------------------------------------------------------------------
// XML
// ---------------------------------------------------------------------------

/// The document of an XML file: binary when the bytes are not UTF-8, plain
/// text when no key-path line comes out of it.
pub open spec fn xml_doc(bytes: Seq<u8>) -> DocView {
    if !valid_utf8(bytes) {
        binary_doc(bytes.len())
    } else {
        let text = decode_utf8(bytes);
        let ls = xml_lines(text);
        if ls.len() == 0 {
            plain_doc(text)
        } else {
            structured_doc("xml"@, xml_title(ls), ls, seq!["xml"@, "data"@])
        }
    }
}

pub fn parse_xml(bytes: &[u8]) -> (d: ParsedDocument)
    ensures
        d@ == xml_doc(bytes@),
{
    match utf8_text(bytes) {
        None => parse_binary(bytes),
        Some(text) => {
            let v = chars_of(text);
            let ls = flatten_xml(&v);
            if ls.len() == 0 {
                return parse_plain_text(text);
            }
            let title = infer_xml_title(&ls);
            structured_document("xml", title, ls, two_tags("xml", "data"))
        },
    }
}

// ---------------------------------------------------------------------------
// Dispatch by extension
// ---------------------------------------------------------------------------

/// The index of the last `c` in `s`.
pub open spec fn last_index_of(s: Seq<char>, c: char) -> Option<int>
    decreases s.len(),
{
    if s.len() == 0 {
        None
    } else if s.last() == c {
        Some(s.len() - 1)
    } else {
        last_index_of(s.drop_last(), c)
    }
}

proof fn lemma_last_index_of(s: Seq<char>, c: char)
    ensures
        last_index_of(s, c) matches Some(k) ==> 0 <= k < s.len() && s[k] == c,
    decreases s.len(),
{
    if s.len() > 0 && s.last() != c {
        lemma_last_index_of(s.drop_last(), c);
    }
}

fn last_index_exec(v: &Vec<char>, c: char) -> (r: Option<usize>)
    ensures
        match r {
            Some(k) => last_index_of(v@, c) == Some(k as int) && k < v@.len(),
            None => last_index_of(v@, c) is None,
        },
{
    let mut k = v.len();
    assert(v@.take(k as int) =~= v@);
    while k > 0
        invariant
            k <= v@.len(),
            last_index_of(v@, c) == last_index_of(v@.take(k as int), c),
        decreases k,
    {
        assert(v@.take(k as int).last() == v@[k - 1]);
        if v[k - 1] == c {
            return Some(k - 1);
        }
        assert(v@.take(k as int).drop_last() =~= v@.take(k - 1));
        k = k - 1;
    }
    None
}

/// The last `/`-separated segment of a path.
pub open spec fn file_name(path: Seq<char>) -> Seq<char> {
    match last_index_of(path, '/') {
        Some(k) => path.skip(k + 1),
        None => path,
    }
}

/// The extension of a path: what follows the last `.` of its file name, when
/// that `.` is not the name's first character; empty otherwise.
pub open spec fn extension(path: Seq<char>) -> Seq<char> {
    let f = file_name(path);
    match last_index_of(f, '.') {
        Some(k) => if k > 0 {
            f.skip(k + 1)
        } else {
            Seq::empty()
        },
        None => Seq::empty(),
    }
}

pub fn extension_of(path: &str) -> (r: Vec<char>)
    ensures
        r@ == extension(path@),
{
    let p = chars_of(path);
    let slash = last_index_exec(&p, '/');
    let name = match slash {
        Some(k) => {
            let plen = p.len();
            assert(k < plen);
            let n = sub_vec(&p, k + 1, plen);
            assert(n@ =~= p@.skip(k + 1));
            n
        },
        None => {
            assert(p@.subrange(0, p@.len() as int) =~= p@);
            sub_vec(&p, 0, p.len())
        },
    };
    match last_index_exec(&name, '.') {
        Some(k) => if k > 0 {
            let e = sub_vec(&name, k + 1, name.len());
            assert(e@ =~= name@.skip(k + 1));
            e
        } else {
            Vec::new()
        },
        None => Vec::new(),
    }
}

/// The document a file's name and bytes give: Markdown, JSON, YAML, TOML,
/// JSON Lines or XML by the extension (ASCII case ignored); any other file is
/// plain text when it is UTF-8 and binary otherwise.
pub open spec fn file_doc(path: Seq<char>, bytes: Seq<u8>) -> DocView {
    let ext = ascii_lowercase(extension(path));
    if ext == "md"@ || ext == "markdown"@ {
        markdown_doc(lossy_decode(bytes))
    } else if ext == "json"@ {
        config_file_doc("json"@, bytes, json_document(decode_utf8(bytes)))
    } else if ext == "yaml"@ || ext == "yml"@ {
        config_file_doc("yaml"@, bytes, yaml_document(decode_utf8(bytes)))
    } else if ext == "toml"@ {
        config_file_doc("toml"@, bytes, toml_document(decode_utf8(bytes)))
    } else if ext == "jsonl"@ {
        if !valid_utf8(bytes) {
            binary_doc(bytes.len())
        } else {
            jsonl_doc(decode_utf8(bytes), jsonl_parses(lines(decode_utf8(bytes))))
        }
    } else if ext == "xml"@ {
        xml_doc(bytes)
    } else if valid_utf8(bytes) {
        plain_doc(decode_utf8(bytes))
    } else {
        binary_doc(bytes.len())
    }
}

/// Chooses a parser for each file.
#[derive(Debug, Clone, Copy, Default)]
pub struct ParserRegistry;

impl ParserRegistry {
    pub fn new() -> (r: Self) {
        ParserRegistry
    }

    /// Parses a file by its name's extension.
    pub fn parse_file(&self, path: &str, bytes: &[u8]) -> (d: ParsedDocument)
        ensures
            d@ == file_doc(path@, bytes@),
    {
        let ext = to_ascii_lowercase(&extension_of(path));
        if chars_eq_str(&ext, "md") || chars_eq_str(&ext, "markdown") {
            parse_markdown(bytes)
        } else if chars_eq_str(&ext, "json") {
            parse_json(bytes)
        } else if chars_eq_str(&ext, "yaml") || chars_eq_str(&ext, "yml") {
            parse_yaml(bytes)
        } else if chars_eq_str(&ext, "toml") {
            parse_toml(bytes)
        } else if chars_eq_str(&ext, "jsonl") {
            parse_jsonl(bytes)
        } else if chars_eq_str(&ext, "xml") {
            parse_xml(bytes)
        } else {
            match utf8_text(bytes) {
                Some(text) => parse_plain_text(text),
                None => parse_binary(bytes),
            }
        }
    }
}

} // verus!
