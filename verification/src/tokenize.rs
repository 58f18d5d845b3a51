use vstd::prelude::*;

use crate::text::{
    char_width, ends_with, ends_with_chars, string_of_range, utf8_len, utf8_len_capped, ascii_lowercase, char_lowercase, chars_eq, chars_eq_str, chars_of, extend_chars,
    is_alphanumeric, is_lowercase, is_uppercase, lowercase_of_char, lowercase_of_str,
    split_words, str_lowercase, string_of, to_ascii_lowercase, trim, trim_range,
    unicode_alphanumeric, unicode_lowercase, unicode_uppercase, words,
};

verus! {

// ---------------------------------------------------------------------------
// Embedder selection
// ---------------------------------------------------------------------------

/// The embedders the runtime can be configured with.
#[derive(Debug, Clone, Copy, PartialEq, Eq, Structural)]
pub enum EmbedderKind {
    SemanticLite,
    Hash,
    SemanticModelHttp,
}

pub open spec fn embedder_kind_name(kind: EmbedderKind) -> Seq<char> {
    match kind {
        EmbedderKind::SemanticLite => "semantic-lite"@,
        EmbedderKind::Hash => "hash"@,
        EmbedderKind::SemanticModelHttp => "semantic-model-http"@,
    }
}

impl EmbedderKind {
    pub fn as_str(self) -> (s: &'static str)
        ensures
            s@ == embedder_kind_name(self),
    {
        match self {
            EmbedderKind::SemanticLite => "semantic-lite",
            EmbedderKind::Hash => "hash",
            EmbedderKind::SemanticModelHttp => "semantic-model-http",
        }
    }
}

/// The embedder a configured name selects: the name is trimmed and
/// lower-cased (ASCII); unknown or missing names select semantic-lite.
pub open spec fn embedder_kind_of(raw: Option<Seq<char>>) -> EmbedderKind {
    match raw {
        Some(r) => {
            let v = ascii_lowercase(trim(r));
            if v == "semantic"@ || v == "semantic-lite"@ {
                EmbedderKind::SemanticLite
            } else if v == "hash"@ || v == "deterministic"@ {
                EmbedderKind::Hash
            } else if v == "semantic-model"@ || v == "semantic-model-http"@ || v == "model-http"@
                || v == "ollama"@ {
                EmbedderKind::SemanticModelHttp
            } else {
                EmbedderKind::SemanticLite
            }
        },
        None => EmbedderKind::SemanticLite,
    }
}

pub fn resolve_embedder_kind(raw: Option<&str>) -> (kind: EmbedderKind)
    ensures
        kind == embedder_kind_of(
            match raw {
                Some(r) => Some(r@),
                None => None,
            },
        ),
{
    match raw {
        None => EmbedderKind::SemanticLite,
        Some(r) => {
            let all = chars_of(r);
            let (a, b) = trim_range(&all, 0, all.len());
            assert(all@.subrange(0, all@.len() as int) =~= all@);
            let t = crate::text::sub_vec(&all, a, b);
            let v = to_ascii_lowercase(&t);
            if chars_eq_str(&v, "semantic") || chars_eq_str(&v, "semantic-lite") {
                EmbedderKind::SemanticLite
            } else if chars_eq_str(&v, "hash") || chars_eq_str(&v, "deterministic") {
                EmbedderKind::Hash
            } else if chars_eq_str(&v, "semantic-model") || chars_eq_str(&v, "semantic-model-http")
                || chars_eq_str(&v, "model-http") || chars_eq_str(&v, "ollama") {
                EmbedderKind::SemanticModelHttp
            } else {
                EmbedderKind::SemanticLite
            }
        },
    }
}

// ---------------------------------------------------------------------------
// Identifier splitting
// ---------------------------------------------------------------------------

/// A camel-case boundary before `c[idx]`: an upper-case character after a
/// lower-case one, or the last capital of an acronym that a lower-case
/// character follows ("HTTPServer" splits before "Server").
pub open spec fn camel_boundary(c: Seq<char>, idx: int) -> bool {
    &&& 0 < idx < c.len()
    &&& unicode_uppercase(c[idx])
    &&& (unicode_lowercase(c[idx - 1]) || (idx >= 2 && unicode_uppercase(c[idx - 1])
        && unicode_uppercase(c[idx - 2]) && idx + 1 < c.len() && unicode_lowercase(c[idx + 1])))
}

pub fn should_split_camel_boundary(chars: &Vec<char>, idx: usize) -> (r: bool)
    requires
        idx < chars@.len(),
    ensures
        r == camel_boundary(chars@, idx as int),
{
    if idx == 0 {
        return false;
    }
    let ch = chars[idx];
    if !is_uppercase(ch) {
        return false;
    }
    let prev = chars[idx - 1];
    is_lowercase(prev) || (idx >= 2 && is_uppercase(prev) && is_uppercase(chars[idx - 2]) && idx
        < chars.len() - 1 && is_lowercase(chars[idx + 1]))
}

/// Adds `cur` to `out` when it is not empty.
pub open spec fn flush(out: Seq<Seq<char>>, cur: Seq<char>) -> Seq<Seq<char>> {
    if cur.len() > 0 {
        out.push(cur)
    } else {
        out
    }
}

/// Left-to-right scan that splits an identifier into lower-cased parts at
/// non-alphanumeric characters and camel-case boundaries.
pub open spec fn ident_scan(c: Seq<char>, i: int, cur: Seq<char>, out: Seq<Seq<char>>) -> Seq<
    Seq<char>,
>
    decreases c.len() - i,
{
    if i < 0 || i >= c.len() {
        flush(out, cur)
    } else if !unicode_alphanumeric(c[i]) {
        ident_scan(c, i + 1, Seq::empty(), flush(out, cur))
    } else if camel_boundary(c, i) {
        ident_scan(c, i + 1, char_lowercase(c[i]), flush(out, cur))
    } else {
        ident_scan(c, i + 1, cur + char_lowercase(c[i]), out)
    }
}

/// The lower-cased parts of an identifier-like word.
pub open spec fn identifier_parts(raw: Seq<char>) -> Seq<Seq<char>> {
    ident_scan(raw, 0, Seq::empty(), Seq::empty())
}

pub open spec fn vecs_view(v: Seq<Vec<char>>) -> Seq<Seq<char>> {
    v.map_values(|w: Vec<char>| w@)
}

pub fn flush_token(out: &mut Vec<Vec<char>>, current: &mut Vec<char>)
    ensures
        vecs_view(final(out)@) == flush(vecs_view(old(out)@), old(current)@),
        final(current)@ == Seq::<char>::empty(),
{
    if current.len() == 0 {
        return ;
    }
    let ghost before = vecs_view(out@);
    let mut taken: Vec<char> = Vec::new();
    std::mem::swap(current, &mut taken);
    out.push(taken);
    assert(vecs_view(out@) =~= before.push(taken@));
}

pub fn split_identifier_like(raw: &Vec<char>) -> (out: Vec<Vec<char>>)
    ensures
        vecs_view(out@) == identifier_parts(raw@),
{
    let mut out: Vec<Vec<char>> = Vec::new();
    let mut current: Vec<char> = Vec::new();
    let mut idx: usize = 0;
    assert(vecs_view(out@) =~= Seq::<Seq<char>>::empty());
    while idx < raw.len()
        invariant
            idx <= raw@.len(),
            identifier_parts(raw@) == ident_scan(raw@, idx as int, current@, vecs_view(out@)),
        decreases raw.len() - idx,
    {
        let ch = raw[idx];
        if !is_alphanumeric(ch) {
            flush_token(&mut out, &mut current);
        } else {
            if should_split_camel_boundary(raw, idx) {
                flush_token(&mut out, &mut current);
            }
            let lower = lowercase_of_char(ch);
            extend_chars(&mut current, &lower);
        }
        idx = idx + 1;
    }
    flush_token(&mut out, &mut current);
    out
}

// ---------------------------------------------------------------------------
// Tokenization
// ---------------------------------------------------------------------------

pub open spec fn is_ascii_punct(c: char) -> bool {
    ('!' <= c <= '/') || (':' <= c <= '@') || ('[' <= c <= '`') || ('{' <= c <= '~')
}

/// ASCII punctuation that tokenization strips from word edges; `_`, `-`,
/// `.`, `/` and `:` stay because identifiers and paths use them.
pub open spec fn edge_punct(c: char) -> bool {
    is_ascii_punct(c) && !(c == '_' || c == '-' || c == '.' || c == '/' || c == ':')
}

fn is_edge_punct(c: char) -> (r: bool)
    ensures
        r == edge_punct(c),
{
    let p = ('!' <= c && c <= '/') || (':' <= c && c <= '@') || ('[' <= c && c <= '`') || ('{'
        <= c && c <= '~');
    p && !(c == '_' || c == '-' || c == '.' || c == '/' || c == ':')
}

pub open spec fn strip_punct_start(s: Seq<char>) -> Seq<char>
    decreases s.len(),
{
    if s.len() > 0 && edge_punct(s[0]) {
        strip_punct_start(s.drop_first())
    } else {
        s
    }
}

pub open spec fn strip_punct_end(s: Seq<char>) -> Seq<char>
    decreases s.len(),
{
    if s.len() > 0 && edge_punct(s.last()) {
        strip_punct_end(s.drop_last())
    } else {
        s
    }
}

/// A word without the edge punctuation on both sides.
pub open spec fn strip_punct(s: Seq<char>) -> Seq<char> {
    strip_punct_end(strip_punct_start(s))
}

fn strip_punct_exec(v: &Vec<char>) -> (out: Vec<char>)
    ensures
        out@ == strip_punct(v@),
{
    let n = v.len();
    let mut a: usize = 0;
    assert(v@.subrange(0, n as int) =~= v@);
    while a < n && is_edge_punct(v[a])
        invariant
            a <= n == v@.len(),
            strip_punct_start(v@) == strip_punct_start(v@.subrange(a as int, n as int)),
        decreases n - a,
    {
        assert(v@.subrange(a as int, n as int).drop_first() =~= v@.subrange(a + 1, n as int));
        a = a + 1;
    }
    let mut b = n;
    while b > a && is_edge_punct(v[b - 1])
        invariant
            a <= b <= n == v@.len(),
            strip_punct_end(v@.subrange(a as int, n as int)) == strip_punct_end(
                v@.subrange(a as int, b as int),
            ),
        decreases b - a,
    {
        assert(v@.subrange(a as int, b as int).drop_last() =~= v@.subrange(a as int, b - 1));
        b = b - 1;
    }
    crate::text::sub_vec(v, a, b)
}

pub open spec fn has_alphanumeric(s: Seq<char>) -> bool {
    exists|i: int| 0 <= i < s.len() && unicode_alphanumeric(#[trigger] s[i])
}

fn has_alphanumeric_exec(v: &Vec<char>) -> (r: bool)
    ensures
        r == has_alphanumeric(v@),
{
    let mut i: usize = 0;
    while i < v.len()
        invariant
            i <= v@.len(),
            forall|k: int| 0 <= k < i ==> !unicode_alphanumeric(#[trigger] v@[k]),
        decreases v.len() - i,
    {
        if is_alphanumeric(v[i]) {
            return true;
        }
        i = i + 1;
    }
    false
}

/// Plain tokens (identifier parts) and symbolic tokens (whole lower-cased
/// words that hold an alphanumeric character) of the first words.
pub open spec fn features_of(ws: Seq<Seq<char>>) -> (Seq<Seq<char>>, Seq<Seq<char>>)
    decreases ws.len(),
{
    if ws.len() == 0 {
        (Seq::empty(), Seq::empty())
    } else {
        let prev = features_of(ws.drop_last());
        let t = strip_punct(ws.last());
        if t.len() == 0 {
            prev
        } else {
            let lowered = str_lowercase(t);
            (
                prev.0 + identifier_parts(t),
                if has_alphanumeric(lowered) {
                    prev.1.push(lowered)
                } else {
                    prev.1
                },
            )
        }
    }
}

/// The two token streams of a text.
#[derive(Debug, Clone, Default, PartialEq, Eq)]
pub struct TokenFeatures {
    pub plain: Vec<String>,
    pub symbolic: Vec<String>,
}

pub open spec fn strings_view(v: Seq<String>) -> Seq<Seq<char>> {
    v.map_values(|s: String| s@)
}

fn push_strings(out: &mut Vec<String>, parts: &Vec<Vec<char>>)
    ensures
        strings_view(final(out)@) == strings_view(old(out)@) + vecs_view(parts@),
{
    let mut i: usize = 0;
    let ghost start = strings_view(out@);
    while i < parts.len()
        invariant
            i <= parts@.len(),
            strings_view(out@) == start + vecs_view(parts@).subrange(0, i as int),
        decreases parts.len() - i,
    {
        let s = string_of(&parts[i]);
        let ghost before = strings_view(out@);
        out.push(s);
        assert(strings_view(out@) =~= before.push(parts@[i as int]@));
        assert(vecs_view(parts@).subrange(0, i + 1) =~= vecs_view(parts@).subrange(0, i as int).push(
            parts@[i as int]@,
        ));
        i = i + 1;
    }
    assert(vecs_view(parts@).subrange(0, parts@.len() as int) =~= vecs_view(parts@));
}

/// Splits a text into words, strips edge punctuation, and collects the
/// identifier parts of each word (plain) and each lower-cased word that
/// holds an alphanumeric character (symbolic).
pub fn tokenize_features(text: &str) -> (f: TokenFeatures)
    ensures
        strings_view(f.plain@) == features_of(words(text@)).0,
        strings_view(f.symbolic@) == features_of(words(text@)).1,
{
    let chars = chars_of(text);
    let ws = split_words(&chars);
    let ghost all = vecs_view(ws@);
    let mut plain: Vec<String> = Vec::new();
    let mut symbolic: Vec<String> = Vec::new();
    let mut i: usize = 0;
    assert(strings_view(plain@) =~= Seq::<Seq<char>>::empty());
    assert(strings_view(symbolic@) =~= Seq::<Seq<char>>::empty());
    while i < ws.len()
        invariant
            i <= ws@.len(),
            all == vecs_view(ws@),
            all == words(text@),
            strings_view(plain@) == features_of(all.subrange(0, i as int)).0,
            strings_view(symbolic@) == features_of(all.subrange(0, i as int)).1,
        decreases ws.len() - i,
    {
        assert(all.subrange(0, i + 1).drop_last() =~= all.subrange(0, i as int));
        assert(all.subrange(0, i + 1).last() == ws@[i as int]@);
        let trimmed = strip_punct_exec(&ws[i]);
        if trimmed.len() > 0 {
            let trimmed_str = string_of(&trimmed);
            let lowered = lowercase_of_str(trimmed_str.as_str());
            let lowered_chars = chars_of(lowered.as_str());
            if has_alphanumeric_exec(&lowered_chars) {
                let ghost before = strings_view(symbolic@);
                symbolic.push(lowered);
                assert(strings_view(symbolic@) =~= before.push(str_lowercase(trimmed@)));
            }
            let parts = split_identifier_like(&trimmed);
            push_strings(&mut plain, &parts);
        }
        i = i + 1;
    }
    assert(all.subrange(0, ws@.len() as int) =~= all);
    TokenFeatures { plain, symbolic }
}

/// All tokens of a text: the plain ones, then the symbolic ones.
pub fn tokenize_vec(text: &str) -> (tokens: Vec<String>)
    ensures
        strings_view(tokens@) == features_of(words(text@)).0 + features_of(words(text@)).1,
{
    let features = tokenize_features(text);
    let mut tokens = features.plain;
    let ghost p = strings_view(tokens@);
    let mut rest = features.symbolic;
    let ghost s = strings_view(rest@);
    tokens.append(&mut rest);
    assert(strings_view(tokens@) =~= p + s);
    tokens
}


// ---------------------------------------------------------------------------
// Token sets
// ---------------------------------------------------------------------------

/// A set of tokens, each held once.
#[derive(Debug)]
pub struct TokenSet {
    tokens: Vec<String>,
}

impl View for TokenSet {
    type V = Set<Seq<char>>;

    closed spec fn view(&self) -> Set<Seq<char>> {
        strings_view(self.tokens@).to_set()
    }
}

impl TokenSet {
    pub closed spec fn wf(&self) -> bool {
        strings_view(self.tokens@).no_duplicates()
    }

    pub closed spec fn spec_len(&self) -> nat {
        self.tokens@.len()
    }

    /// Whether the set holds `token`.
    pub fn contains(&self, token: &str) -> (r: bool)
        ensures
            r == self@.contains(token@),
    {
        let t = chars_of(token);
        let mut i: usize = 0;
        while i < self.tokens.len()
            invariant
                i <= self.tokens@.len(),
                t@ == token@,
                forall|k: int| 0 <= k < i ==> self.tokens@[k]@ != token@,
            decreases self.tokens.len() - i,
        {
            let v = chars_of(self.tokens[i].as_str());
            assert(v@ == self.tokens@[i as int]@);
            if chars_eq(&v, &t) {
                assert(strings_view(self.tokens@)[i as int] == token@);
                return true;
            }
            i = i + 1;
        }
        assert(!strings_view(self.tokens@).contains(token@)) by {
            if strings_view(self.tokens@).contains(token@) {
                let k = choose|k: int|
                    0 <= k < strings_view(self.tokens@).len() && strings_view(self.tokens@)[k]
                        == token@;
                assert(self.tokens@[k]@ == token@);
            }
        }
        false
    }

    /// The number of distinct tokens.
    pub fn len(&self) -> (n: usize)
        requires
            self.wf(),
        ensures
            n == self@.len(),
    {
        proof {
            strings_view(self.tokens@).unique_seq_to_set();
        }
        self.tokens.len()
    }
}

/// The distinct tokens of a text.
pub fn tokenize_set(text: &str) -> (set: TokenSet)
    ensures
        set.wf(),
        set@ == (features_of(words(text@)).0 + features_of(words(text@)).1).to_set(),
{
    let all = tokenize_vec(text);
    let ghost src = strings_view(all@);
    let mut tokens: Vec<String> = Vec::new();
    let mut set = TokenSet { tokens };
    let mut i: usize = 0;
    assert(strings_view(set.tokens@) =~= Seq::<Seq<char>>::empty());
    while i < all.len()
        invariant
            i <= all@.len(),
            src == strings_view(all@),
            strings_view(set.tokens@).no_duplicates(),
            strings_view(set.tokens@).to_set() == src.subrange(0, i as int).to_set(),
        decreases all.len() - i,
    {
        assert(src.subrange(0, i + 1) =~= src.subrange(0, i as int).push(src[i as int]));
        let ghost old_set = strings_view(set.tokens@).to_set();
        assert(all@[i as int]@ == src[i as int]);
        if !set.contains(all[i].as_str()) {
            let copy = string_of(&chars_of(all[i].as_str()));
            let ghost before = strings_view(set.tokens@);
            set.tokens.push(copy);
            assert(strings_view(set.tokens@) =~= before.push(src[i as int]));
            assert(strings_view(set.tokens@).to_set() =~= old_set.insert(src[i as int])) by {
                assert forall|x: Seq<char>| strings_view(set.tokens@).to_set().contains(x) <==> old_set.insert(src[i as int]).contains(x) by {
                    if before.contains(x) {
                        let k = choose|k: int| 0 <= k < before.len() && #[trigger] before[k] == x;
                        assert(strings_view(set.tokens@)[k] == x);
                    }
                    if strings_view(set.tokens@).contains(x) && x != src[i as int] {
                        let k = choose|k: int| 0 <= k < strings_view(set.tokens@).len() && #[trigger] strings_view(set.tokens@)[k] == x;
                        assert(before[k] == x);
                    }
                    if x == src[i as int] {
                        assert(strings_view(set.tokens@)[before.len() as int] == x);
                    }
                }
            }
        } else {
            assert(old_set.insert(src[i as int]) =~= old_set);
        }
        assert(src.subrange(0, i + 1).to_set() =~= src.subrange(0, i as int).to_set().insert(src[i as int])) by {
            let p = src.subrange(0, i as int);
            let q = src.subrange(0, i + 1);
            assert forall|x: Seq<char>| q.to_set().contains(x) <==> p.to_set().insert(src[i as int]).contains(x) by {
                if q.contains(x) {
                    let k = choose|k: int| 0 <= k < q.len() && #[trigger] q[k] == x;
                    if k < i {
                        assert(p[k] == x);
                    }
                }
                if p.contains(x) {
                    let k = choose|k: int| 0 <= k < p.len() && #[trigger] p[k] == x;
                    assert(q[k] == x);
                }
                if x == src[i as int] {
                    assert(q[i as int] == x);
                }
            }
        }
        assert(strings_view(set.tokens@).to_set() =~= src.subrange(0, i + 1).to_set());
        i = i + 1;
    }
    assert(src.subrange(0, all@.len() as int) =~= src);
    set
}

// ---------------------------------------------------------------------------
// Semantic tokens
// ---------------------------------------------------------------------------

/// Drops the first of the suffixes "ing", "ed", "es", "s" that the token
/// ends with when at least three bytes remain; tokens of at most four bytes
/// stay as they are.
pub open spec fn stem_of(token: Seq<char>) -> Seq<char> {
    let n = token.len() as int;
    if utf8_len(token) <= 4 {
        token
    } else if ends_with(token, "ing"@) && utf8_len(token.subrange(0, n - 3)) >= 3 {
        token.subrange(0, n - 3)
    } else if ends_with(token, "ed"@) && utf8_len(token.subrange(0, n - 2)) >= 3 {
        token.subrange(0, n - 2)
    } else if ends_with(token, "es"@) && utf8_len(token.subrange(0, n - 2)) >= 3 {
        token.subrange(0, n - 2)
    } else if ends_with(token, "s"@) && utf8_len(token.subrange(0, n - 1)) >= 3 {
        token.subrange(0, n - 1)
    } else {
        token
    }
}

fn try_strip(v: &Vec<char>, suffix: &str) -> (r: Option<usize>)
    ensures
        match r {
            Some(n) => ends_with(v@, suffix@) && n == v@.len() - suffix@.len() && utf8_len(
                v@.subrange(0, n as int),
            ) >= 3,
            None => !(ends_with(v@, suffix@) && utf8_len(
                v@.subrange(0, v@.len() - suffix@.len()),
            ) >= 3),
        },
{
    let suf = chars_of(suffix);
    if !ends_with_chars(v, &suf) {
        return None;
    }
    let n = v.len() - suf.len();
    if utf8_len_capped(v, n, 3) >= 3 {
        Some(n)
    } else {
        None
    }
}

/// A word of at least three bytes followed by "ing" stems to the word:
/// the suffix is dropped, whatever the word is.
pub proof fn lemma_stem_drops_ing(t: Seq<char>)
    requires
        utf8_len(t) >= 3,
    ensures
        stem_of(t + "ing"@) == t,
{
    reveal_strlit("ing");
    let w = t + "ing"@;
    let n = w.len() as int;
    let ti = t.push('i');
    let tin = ti.push('n');
    assert(w =~= tin.push('g'));
    assert(w.drop_last() =~= tin);
    assert(tin.drop_last() =~= ti);
    assert(ti.drop_last() =~= t);
    assert(char_width('i') == 1 && char_width('n') == 1 && char_width('g') == 1);
    assert(w.last() == 'g' && tin.last() == 'n' && ti.last() == 'i');
    assert(utf8_len(ti) == utf8_len(t) + 1);
    assert(utf8_len(tin) == utf8_len(ti) + 1);
    assert(utf8_len(w) == utf8_len(tin) + 1);
    assert(w.subrange(n - 3, n) =~= "ing"@);
    assert(w.subrange(0, n - 3) =~= t);
}

pub fn stem_suffix(token: &str) -> (r: String)
    ensures
        r@ == stem_of(token@),
{
    let v = chars_of(token);
    assert(v@.subrange(0, v@.len() as int) =~= v@);
    if utf8_len_capped(&v, v.len(), 5) <= 4 {
        return string_of(&v);
    }
    proof {
        reveal_strlit("ing");
        reveal_strlit("ed");
        reveal_strlit("es");
        reveal_strlit("s");
    }
    let cut = match try_strip(&v, "ing") {
        Some(n) => n,
        None => match try_strip(&v, "ed") {
            Some(n) => n,
            None => match try_strip(&v, "es") {
                Some(n) => n,
                None => match try_strip(&v, "s") {
                    Some(n) => n,
                    None => v.len(),
                },
            },
        },
    };
    string_of_range(&v, 0, cut)
}

/// Synonyms that semantic tokens fold together.
pub open spec fn canonical_of(t: Seq<char>) -> Seq<char> {
    if t == "auth"@ || t == "oauth"@ || t == "authenticate"@ || t == "authentication"@ || t
        == "authorize"@ || t == "authorization"@ || t == "login"@ || t == "signin"@ || t
        == "credential"@ || t == "token"@ {
        "identity"@
    } else if t == "storage"@ || t == "store"@ || t == "cache"@ || t == "cached"@ || t
        == "database"@ || t == "db"@ || t == "persist"@ || t == "persistence"@ {
        "storage"@
    } else if t == "error"@ || t == "errors"@ || t == "failure"@ || t == "fail"@ || t
        == "failed"@ || t == "panic"@ || t == "incident"@ {
        "failure"@
    } else if t == "latency"@ || t == "throughput"@ || t == "performance"@ || t == "slow"@ || t
        == "fast"@ {
        "performance"@
    } else {
        t
    }
}

/// The semantic form of a token: trimmed, folded to its synonym group, then
/// stemmed; blank tokens become empty.
pub open spec fn semantic_token_of(token: Seq<char>) -> Seq<char> {
    let t = trim(token);
    if t.len() == 0 {
        Seq::empty()
    } else {
        stem_of(canonical_of(t))
    }
}

fn is_any(v: &Vec<char>, options: &[&str]) -> (r: bool)
    ensures
        r == exists|k: int| 0 <= k < options@.len() && v@ == (#[trigger] options@[k])@,
{
    let mut k: usize = 0;
    while k < options.len()
        invariant
            k <= options@.len(),
            forall|m: int| 0 <= m < k ==> v@ != (#[trigger] options@[m])@,
        decreases options.len() - k,
    {
        if chars_eq_str(v, options[k]) {
            return true;
        }
        k = k + 1;
    }
    false
}

pub fn canonicalize_semantic_token(token: &str) -> (r: String)
    ensures
        r@ == semantic_token_of(token@),
{
    let all = chars_of(token);
    let (a, b) = trim_range(&all, 0, all.len());
    assert(all@.subrange(0, all@.len() as int) =~= all@);
    if a == b {
        return String::new();
    }
    let t = crate::text::sub_vec(&all, a, b);
    let identity = ["auth", "oauth", "authenticate", "authentication", "authorize",
        "authorization", "login", "signin", "credential", "token"];
    let storage = ["storage", "store", "cache", "cached", "database", "db", "persist",
        "persistence"];
    let failure = ["error", "errors", "failure", "fail", "failed", "panic", "incident"];
    let performance = ["latency", "throughput", "performance", "slow", "fast"];
    let canonical: Vec<char> = if is_any(&t, &identity) {
        assert(identity@[0]@ == "auth"@);
        chars_of("identity")
    } else if is_any(&t, &storage) {
        chars_of("storage")
    } else if is_any(&t, &failure) {
        chars_of("failure")
    } else if is_any(&t, &performance) {
        chars_of("performance")
    } else {
        t
    };
    proof {
        let tt = trim(token@);
        assert(tt == t@);
        assert((exists|k: int| 0 <= k < identity@.len() && tt == (#[trigger] identity@[k])@) <==> (
        tt == "auth"@ || tt == "oauth"@ || tt == "authenticate"@ || tt == "authentication"@ || tt
            == "authorize"@ || tt == "authorization"@ || tt == "login"@ || tt == "signin"@ || tt
            == "credential"@ || tt == "token"@)) by {
            if tt == "auth"@ { assert(tt == identity@[0]@); }
            if tt == "oauth"@ { assert(tt == identity@[1]@); }
            if tt == "authenticate"@ { assert(tt == identity@[2]@); }
            if tt == "authentication"@ { assert(tt == identity@[3]@); }
            if tt == "authorize"@ { assert(tt == identity@[4]@); }
            if tt == "authorization"@ { assert(tt == identity@[5]@); }
            if tt == "login"@ { assert(tt == identity@[6]@); }
            if tt == "signin"@ { assert(tt == identity@[7]@); }
            if tt == "credential"@ { assert(tt == identity@[8]@); }
            if tt == "token"@ { assert(tt == identity@[9]@); }
        }
        assert((exists|k: int| 0 <= k < storage@.len() && tt == (#[trigger] storage@[k])@) <==> (
        tt == "storage"@ || tt == "store"@ || tt == "cache"@ || tt == "cached"@ || tt
            == "database"@ || tt == "db"@ || tt == "persist"@ || tt == "persistence"@)) by {
            if tt == "storage"@ { assert(tt == storage@[0]@); }
            if tt == "store"@ { assert(tt == storage@[1]@); }
            if tt == "cache"@ { assert(tt == storage@[2]@); }
            if tt == "cached"@ { assert(tt == storage@[3]@); }
            if tt == "database"@ { assert(tt == storage@[4]@); }
            if tt == "db"@ { assert(tt == storage@[5]@); }
            if tt == "persist"@ { assert(tt == storage@[6]@); }
            if tt == "persistence"@ { assert(tt == storage@[7]@); }
        }
        assert((exists|k: int| 0 <= k < failure@.len() && tt == (#[trigger] failure@[k])@) <==> (
        tt == "error"@ || tt == "errors"@ || tt == "failure"@ || tt == "fail"@ || tt
            == "failed"@ || tt == "panic"@ || tt == "incident"@)) by {
            if tt == "error"@ { assert(tt == failure@[0]@); }
            if tt == "errors"@ { assert(tt == failure@[1]@); }
            if tt == "failure"@ { assert(tt == failure@[2]@); }
            if tt == "fail"@ { assert(tt == failure@[3]@); }
            if tt == "failed"@ { assert(tt == failure@[4]@); }
            if tt == "panic"@ { assert(tt == failure@[5]@); }
            if tt == "incident"@ { assert(tt == failure@[6]@); }
        }
        assert((exists|k: int| 0 <= k < performance@.len() && tt == (#[trigger] performance@[k])@) <==> (
        tt == "latency"@ || tt == "throughput"@ || tt == "performance"@ || tt == "slow"@ || tt
            == "fast"@)) by {
            if tt == "latency"@ { assert(tt == performance@[0]@); }
            if tt == "throughput"@ { assert(tt == performance@[1]@); }
            if tt == "performance"@ { assert(tt == performance@[2]@); }
            if tt == "slow"@ { assert(tt == performance@[3]@); }
            if tt == "fast"@ { assert(tt == performance@[4]@); }
        }
        assert(canonical@ == canonical_of(tt));
    }
    let c = string_of(&canonical);
    stem_suffix(c.as_str())
}

/// The character n-grams of a token; a token shorter than `n` is its own
/// only n-gram.
pub open spec fn ngrams_of(token: Seq<char>, n: nat) -> Seq<Seq<char>> {
    if token.len() < n {
        seq![token]
    } else {
        Seq::new((token.len() - n + 1) as nat, |i: int| token.subrange(i, i + n))
    }
}

pub fn char_ngrams(token: &str, n: usize) -> (out: Vec<String>)
    ensures
        strings_view(out@) == ngrams_of(token@, n as nat),
{
    let chars = chars_of(token);
    let mut out: Vec<String> = Vec::new();
    if chars.len() < n {
        out.push(string_of(&chars));
        assert(strings_view(out@) =~= ngrams_of(token@, n as nat));
        return out;
    }
    let last = chars.len() - n;
    let mut i: usize = 0;
    loop
        invariant_except_break
            strings_view(out@).len() == i,
            forall|k: int| 0 <= k < i ==> #[trigger] strings_view(out@)[k] == chars@.subrange(k, k + n),
        invariant
            last + n == chars@.len(),
            last + n == chars.len(),
            i <= last,
        ensures
            strings_view(out@).len() == last + 1,
            forall|k: int| 0 <= k <= last ==> #[trigger] strings_view(out@)[k] == chars@.subrange(k, k + n),
        decreases last - i,
    {
        let ghost before = strings_view(out@);
        out.push(string_of_range(&chars, i, i + n));
        assert(strings_view(out@) =~= before.push(chars@.subrange(i as int, i + n)));
        if i == last {
            break;
        }
        i = i + 1;
    }
    assert(strings_view(out@) =~= ngrams_of(token@, n as nat));
    out
}

} // verus!
