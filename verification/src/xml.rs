use vstd::prelude::*;

use crate::json::{normalize_scalar_text, normalized_scalar};
use crate::text::{
    chars_eq, chars_of, ends_with, ends_with_chars, extend_chars, extend_str, find_char,
    first_index_of, is_ascii_whitespace, is_ascii_ws, is_whitespace, is_ws, join_chars, join_with,
    occurs_at, occurs_at_exec, split_words, sub_vec, trim, trim_range, vecs_view, words,
};

verus! {

// ---------------------------------------------------------------------------
// Scanning
// ---------------------------------------------------------------------------

/// The character classes the scanners run over.
pub enum CharClass {
    /// ASCII whitespace.
    AsciiSpace,
    /// Anything but ASCII whitespace and `=`.
    NameChar,
    /// Anything but ASCII whitespace.
    NonSpace,
    /// Anything but Unicode whitespace.
    NonUnicodeSpace,
    /// Anything but the given character.
    Not(char),
}

pub open spec fn in_class(k: CharClass, c: char) -> bool {
    match k {
        CharClass::AsciiSpace => is_ascii_ws(c),
        CharClass::NameChar => !is_ascii_ws(c) && c != '=',
        CharClass::NonSpace => !is_ascii_ws(c),
        CharClass::NonUnicodeSpace => !is_ws(c),
        CharClass::Not(d) => c != d,
    }
}

/// The first index at or after `i` whose character is not in class `k`, or
/// the end.
pub open spec fn scan_while(s: Seq<char>, i: int, k: CharClass) -> int
    decreases s.len() - i,
{
    if 0 <= i < s.len() && in_class(k, s[i]) {
        scan_while(s, i + 1, k)
    } else {
        i
    }
}

pub proof fn lemma_scan_while(s: Seq<char>, i: int, k: CharClass)
    requires
        0 <= i <= s.len(),
    ensures
        i <= scan_while(s, i, k) <= s.len(),
        forall|j: int| i <= j < scan_while(s, i, k) ==> in_class(k, #[trigger] s[j]),
        scan_while(s, i, k) < s.len() ==> !in_class(k, s[scan_while(s, i, k)]),
    decreases s.len() - i,
{
    if i < s.len() && in_class(k, s[i]) {
        lemma_scan_while(s, i + 1, k);
    }
}

/// Past the ASCII whitespace at `i`.
pub open spec fn skip_ws(s: Seq<char>, i: int) -> int {
    scan_while(s, i, CharClass::AsciiSpace)
}

/// The end of an attribute name: the next ASCII whitespace or `=`.
pub open spec fn key_end(s: Seq<char>, i: int) -> int {
    scan_while(s, i, CharClass::NameChar)
}

/// The end of an unquoted attribute value: the next ASCII whitespace.
pub open spec fn value_end(s: Seq<char>, i: int) -> int {
    scan_while(s, i, CharClass::NonSpace)
}

/// The next `d` at or after `i`, or the end.
pub open spec fn until(s: Seq<char>, i: int, d: char) -> int {
    scan_while(s, i, CharClass::Not(d))
}

pub proof fn lemma_skip_ws(s: Seq<char>, i: int)
    requires
        0 <= i <= s.len(),
    ensures
        i <= skip_ws(s, i) <= s.len(),
        skip_ws(s, i) < s.len() ==> !is_ascii_ws(s[skip_ws(s, i)]),
{
    lemma_scan_while(s, i, CharClass::AsciiSpace);
}

pub proof fn lemma_key_end(s: Seq<char>, i: int)
    requires
        0 <= i <= s.len(),
    ensures
        i <= key_end(s, i) <= s.len(),
        key_end(s, i) < s.len() ==> (is_ascii_ws(s[key_end(s, i)]) || s[key_end(s, i)] == '='),
{
    lemma_scan_while(s, i, CharClass::NameChar);
}

pub proof fn lemma_value_end(s: Seq<char>, i: int)
    requires
        0 <= i <= s.len(),
    ensures
        i <= value_end(s, i) <= s.len(),
        i < s.len() && !is_ascii_ws(s[i]) ==> i < value_end(s, i),
{
    lemma_scan_while(s, i, CharClass::NonSpace);
}

pub proof fn lemma_until(s: Seq<char>, i: int, d: char)
    requires
        0 <= i <= s.len(),
    ensures
        i <= until(s, i, d) <= s.len(),
        i < s.len() && s[i] != d ==> i < until(s, i, d),
{
    lemma_scan_while(s, i, CharClass::Not(d));
}

fn skip_ws_exec(v: &Vec<char>, i: usize) -> (r: usize)
    requires
        i <= v@.len(),
    ensures
        r == skip_ws(v@, i as int),
        i <= r <= v@.len(),
{
    let mut k = i;
    while k < v.len() && is_ascii_whitespace(v[k])
        invariant
            i <= k <= v@.len(),
            skip_ws(v@, i as int) == skip_ws(v@, k as int),
        decreases v.len() - k,
    {
        k = k + 1;
    }
    k
}

fn key_end_exec(v: &Vec<char>, i: usize) -> (r: usize)
    requires
        i <= v@.len(),
    ensures
        r == key_end(v@, i as int),
        i <= r <= v@.len(),
{
    let mut k = i;
    while k < v.len() && !is_ascii_whitespace(v[k]) && v[k] != '='
        invariant
            i <= k <= v@.len(),
            key_end(v@, i as int) == key_end(v@, k as int),
        decreases v.len() - k,
    {
        k = k + 1;
    }
    k
}

fn value_end_exec(v: &Vec<char>, i: usize) -> (r: usize)
    requires
        i <= v@.len(),
    ensures
        r == value_end(v@, i as int),
        i <= r <= v@.len(),
{
    let mut k = i;
    while k < v.len() && !is_ascii_whitespace(v[k])
        invariant
            i <= k <= v@.len(),
            value_end(v@, i as int) == value_end(v@, k as int),
        decreases v.len() - k,
    {
        k = k + 1;
    }
    k
}

fn until_exec(v: &Vec<char>, i: usize, d: char) -> (r: usize)
    requires
        i <= v@.len(),
    ensures
        r == until(v@, i as int, d),
        i <= r <= v@.len(),
        r < v@.len() ==> v@[r as int] == d,
{
    let mut k = i;
    while k < v.len() && v[k] != d
        invariant
            i <= k <= v@.len(),
            until(v@, i as int, d) == until(v@, k as int, d),
        decreases v.len() - k,
    {
        k = k + 1;
    }
    k
}

/// The first position at or after `i` where `p` occurs in `s`.
pub open spec fn find_seq(s: Seq<char>, p: Seq<char>, i: int) -> Option<int>
    decreases s.len() + 1 - i,
{
    if i < 0 || i > s.len() {
        None
    } else if occurs_at(s, p, i) {
        Some(i)
    } else {
        find_seq(s, p, i + 1)
    }
}

pub proof fn lemma_find_seq(s: Seq<char>, p: Seq<char>, i: int)
    ensures
        find_seq(s, p, i) matches Some(k) ==> i <= k && occurs_at(s, p, k),
    decreases s.len() + 1 - i,
{
    if 0 <= i <= s.len() && !occurs_at(s, p, i) {
        lemma_find_seq(s, p, i + 1);
    }
}

fn find_seq_exec(v: &Vec<char>, p: &Vec<char>, i: usize) -> (r: Option<usize>)
    ensures
        match r {
            Some(k) => find_seq(v@, p@, i as int) == Some(k as int),
            None => find_seq(v@, p@, i as int) is None,
        },
{
    if i > v.len() {
        return None;
    }
    let mut k = i;
    while k < v.len()
        invariant
            i <= k <= v@.len(),
            find_seq(v@, p@, i as int) == find_seq(v@, p@, k as int),
        decreases v.len() - k,
    {
        if occurs_at_exec(v, p, k) {
            return Some(k);
        }
        k = k + 1;
    }
    if occurs_at_exec(v, p, k) {
        return Some(k);
    }
    assert(find_seq(v@, p@, k + 1) is None);
    None
}

// ---------------------------------------------------------------------------
// Tags and attributes
// ---------------------------------------------------------------------------

/// The first whitespace-separated word, or nothing.
pub open spec fn tag_name(raw: Seq<char>) -> Seq<char> {
    let ws = words(raw);
    if ws.len() > 0 {
        ws[0]
    } else {
        Seq::empty()
    }
}

pub fn parse_xml_tag_name(raw: &Vec<char>) -> (r: Vec<char>)
    ensures
        r@ == tag_name(raw@),
{
    let ws = split_words(raw);
    if ws.len() > 0 {
        assert(ws@.map_values(|w: Vec<char>| w@)[0] == ws@[0]@);
        sub_vec(&ws[0], 0, ws[0].len())
    } else {
        Vec::new()
    }
}

/// Where the name of a tag body ends: at its first whitespace character.
pub open spec fn name_end(body: Seq<char>) -> int {
    scan_while(body, 0, CharClass::NonUnicodeSpace)
}

/// The name of a tag body: everything before its first whitespace.
pub open spec fn tag_body_name(body: Seq<char>) -> Seq<char> {
    body.take(name_end(body))
}

/// The attributes of a tag body: everything after its first whitespace,
/// trimmed.
pub open spec fn tag_body_attrs(body: Seq<char>) -> Seq<char> {
    let n = name_end(body);
    if n < body.len() {
        trim(body.skip(n + 1))
    } else {
        Seq::empty()
    }
}

pub fn split_xml_tag(body: &Vec<char>) -> (r: (Vec<char>, Vec<char>))
    ensures
        r.0@ == tag_body_name(body@),
        r.1@ == tag_body_attrs(body@),
{
    let mut n: usize = 0;
    while n < body.len() && !is_whitespace(body[n])
        invariant
            n <= body@.len(),
            name_end(body@) == scan_while(body@, n as int, CharClass::NonUnicodeSpace),
        decreases body.len() - n,
    {
        n = n + 1;
    }
    let name = sub_vec(body, 0, n);
    if n < body.len() {
        let (a, b) = trim_range(body, n + 1, body.len());
        assert(body@.skip(n + 1) =~= body@.subrange(n + 1, body@.len() as int));
        (name, sub_vec(body, a, b))
    } else {
        (name, Vec::new())
    }
}

/// The `(name, value)` pairs of an attribute list, scanned from `i` on.
/// Names end at ASCII whitespace or `=`; a name without `=` is skipped;
/// values are quoted with `"` or `'`, or run to the next ASCII whitespace;
/// pairs with an empty name are dropped; values are normalized.
pub open spec fn attr_scan(r: Seq<char>, i: int, out: Seq<(Seq<char>, Seq<char>)>) -> Seq<
    (Seq<char>, Seq<char>),
>
    decreases r.len() - i,
{
    if i < 0 || i >= r.len() {
        out
    } else {
        let a = skip_ws(r, i);
        if a >= r.len() {
            out
        } else {
            let ke = key_end(r, a);
            let key = trim(r.subrange(a, ke));
            let b = skip_ws(r, ke);
            proof {
                lemma_skip_ws(r, i);
                lemma_key_end(r, a);
                lemma_skip_ws(r, ke);
            }
            if b >= r.len() || r[b] != '=' {
                if b > i {
                    attr_scan(r, b, out)
                } else {
                    out
                }
            } else {
                let c = skip_ws(r, b + 1);
                proof {
                    lemma_skip_ws(r, b + 1);
                }
                if c >= r.len() {
                    out
                } else {
                    let q = r[c];
                    let quoted = q == '"' || q == '\'';
                    let e = if quoted {
                        until(r, c + 1, q)
                    } else {
                        value_end(r, c)
                    };
                    proof {
                        lemma_until(r, c + 1, q);
                        lemma_value_end(r, c);
                    }
                    let value = if quoted {
                        r.subrange(c + 1, e)
                    } else {
                        r.subrange(c, e)
                    };
                    let next = if quoted && e < r.len() {
                        e + 1
                    } else {
                        e
                    };
                    let out2 = if key.len() > 0 {
                        out.push((key, normalized_scalar(value)))
                    } else {
                        out
                    };
                    if next > i {
                        attr_scan(r, next, out2)
                    } else {
                        out2
                    }
                }
            }
        }
    }
}

pub open spec fn pairs_view(v: Seq<(Vec<char>, Vec<char>)>) -> Seq<(Seq<char>, Seq<char>)> {
    v.map_values(|p: (Vec<char>, Vec<char>)| (p.0@, p.1@))
}

pub fn parse_xml_attributes(raw: &Vec<char>) -> (out: Vec<(Vec<char>, Vec<char>)>)
    ensures
        pairs_view(out@) == attr_scan(raw@, 0, Seq::empty()),
{
    let ghost r = raw@;
    let mut out: Vec<(Vec<char>, Vec<char>)> = Vec::new();
    let mut i: usize = 0;
    assert(pairs_view(out@) =~= Seq::<(Seq<char>, Seq<char>)>::empty());
    while i < raw.len()
        invariant
            i <= raw@.len(),
            r == raw@,
            attr_scan(r, 0, Seq::empty()) == attr_scan(r, i as int, pairs_view(out@)),
        decreases raw.len() - i,
    {
        let a = skip_ws_exec(raw, i);
        if a >= raw.len() {
            return out;
        }
        let ke = key_end_exec(raw, a);
        let (ka, kb) = trim_range(raw, a, ke);
        let key = sub_vec(raw, ka, kb);
        let b = skip_ws_exec(raw, ke);
        proof {
            lemma_skip_ws(r, i as int);
            lemma_key_end(r, a as int);
            lemma_skip_ws(r, ke as int);
        }
        if b >= raw.len() || raw[b] != '=' {
            assert(b > i);
            i = b;
        } else {
            let c = skip_ws_exec(raw, b + 1);
            if c >= raw.len() {
                return out;
            }
            let q = raw[c];
            let quoted = q == '"' || q == '\'';
            let e = if quoted {
                until_exec(raw, c + 1, q)
            } else {
                value_end_exec(raw, c)
            };
            proof {
                lemma_until(r, c + 1, q);
                lemma_value_end(r, c as int);
            }
            let value = if quoted {
                sub_vec(raw, c + 1, e)
            } else {
                sub_vec(raw, c, e)
            };
            let next = if quoted && e < raw.len() {
                e + 1
            } else {
                e
            };
            if key.len() > 0 {
                let nv = normalize_scalar_text(&value);
                let ghost before = pairs_view(out@);
                out.push((key, nv));
                assert(pairs_view(out@) =~= before.push((key@, nv@)));
            }
            assert(next > i);
            i = next;
        }
    }
    out
}

/// The slash-joined path of the open elements: `/a/b/c`.
pub open spec fn xml_path(stack: Seq<Seq<char>>) -> Seq<char> {
    "/"@ + join_with(stack, "/"@)
}

fn xml_path_exec(stack: &Vec<Vec<char>>) -> (out: Vec<char>)
    ensures
        out@ == xml_path(vecs_view(stack@)),
{
    let mut out = chars_of("/");
    let joined = join_chars(stack, "/");
    extend_chars(&mut out, &joined);
    out
}

/// The index of the last element equal to `x`.
pub open spec fn last_index(s: Seq<Seq<char>>, x: Seq<char>) -> Option<int>
    decreases s.len(),
{
    if s.len() == 0 {
        None
    } else if s.last() == x {
        Some(s.len() - 1)
    } else {
        last_index(s.drop_last(), x)
    }
}

proof fn lemma_last_index(s: Seq<Seq<char>>, x: Seq<char>)
    ensures
        last_index(s, x) matches Some(p) ==> 0 <= p < s.len(),
    decreases s.len(),
{
    if s.len() > 0 && s.last() != x {
        lemma_last_index(s.drop_last(), x);
    }
}

/// Closing a tag closes the innermost open element of that name and every
/// element opened inside it; a name that is not open changes nothing.
pub open spec fn pop_xml(stack: Seq<Seq<char>>, closing: Seq<char>) -> Seq<Seq<char>> {
    match last_index(stack, closing) {
        Some(p) => stack.take(p),
        None => stack,
    }
}

pub fn pop_xml_stack(stack: &mut Vec<Vec<char>>, closing: &Vec<char>)
    ensures
        vecs_view(final(stack)@) == pop_xml(vecs_view(old(stack)@), closing@),
{
    let ghost s0 = vecs_view(stack@);
    let mut k = stack.len();
    proof {
        assert(s0.take(k as int) =~= s0);
    }
    while k > 0 && !chars_eq(&stack[k - 1], closing)
        invariant
            k <= stack@.len(),
            s0 == vecs_view(stack@),
            last_index(s0, closing@) == last_index(s0.take(k as int), closing@),
        decreases k,
    {
        assert(s0.take(k as int).last() == stack@[k - 1]@);
        assert(s0.take(k as int).drop_last() =~= s0.take(k - 1));
        k = k - 1;
    }
    if k > 0 {
        assert(s0.take(k as int).last() == stack@[k - 1]@);
        stack.truncate(k - 1);
        assert(vecs_view(stack@) =~= s0.take(k - 1));
    } else {
        assert(s0.take(0) =~= Seq::<Seq<char>>::empty());
    }
}

// ---------------------------------------------------------------------------
// Flattening
// ---------------------------------------------------------------------------

/// One line `path/@name=value` per attribute.
pub open spec fn attr_lines(path: Seq<char>, attrs: Seq<(Seq<char>, Seq<char>)>) -> Seq<Seq<char>> {
    attrs.map_values(|p: (Seq<char>, Seq<char>)| path + "/@"@ + p.0 + "="@ + p.1)
}

/// A left-to-right scan of an XML text from `i`, with the open elements in
/// `stack` and the lines so far in `out`. Comments, declarations and
/// processing instructions are skipped; an opening tag pushes its name and
/// writes its attributes; a closing tag pops as `pop_xml` says; text inside
/// an element is written as `path=value`. An unterminated comment or tag
/// ends the scan.
pub open spec fn xml_scan(s: Seq<char>, i: int, stack: Seq<Seq<char>>, out: Seq<Seq<char>>) -> Seq<
    Seq<char>,
>
    decreases s.len() - i,
{
    if i < 0 || i >= s.len() {
        out
    } else if s[i] == '<' {
        if occurs_at(s, "<!--"@, i) {
            proof {
                lemma_find_seq(s, "-->"@, i + 4);
                reveal_strlit("-->");
            }
            match find_seq(s, "-->"@, i + 4) {
                Some(e) => xml_scan(s, e + 3, stack, out),
                None => out,
            }
        } else {
            let c = until(s, i, '>');
            proof {
                lemma_until(s, i, '>');
            }
            if c >= s.len() {
                out
            } else {
                let token = trim(s.subrange(i + 1, c));
                if token.len() == 0 || token[0] == '?' || token[0] == '!' {
                    xml_scan(s, c + 1, stack, out)
                } else if token[0] == '/' {
                    xml_scan(s, c + 1, pop_xml(stack, tag_name(token.drop_first())), out)
                } else {
                    let self_closing = token.last() == '/';
                    let body = if self_closing {
                        trim(token.drop_last())
                    } else {
                        token
                    };
                    let name = tag_body_name(body);
                    if name.len() == 0 {
                        xml_scan(s, c + 1, stack, out)
                    } else {
                        let opened = stack.push(name);
                        let lines = attr_lines(
                            xml_path(opened),
                            attr_scan(tag_body_attrs(body), 0, Seq::empty()),
                        );
                        xml_scan(
                            s,
                            c + 1,
                            if self_closing {
                                stack
                            } else {
                                opened
                            },
                            out + lines,
                        )
                    }
                }
            }
        }
    } else {
        let e = until(s, i, '<');
        proof {
            lemma_until(s, i, '<');
        }
        let v = trim(s.subrange(i, e));
        let out2 = if v.len() > 0 && stack.len() > 0 {
            out.push(xml_path(stack) + "="@ + normalized_scalar(v))
        } else {
            out
        };
        xml_scan(s, e, stack, out2)
    }
}

/// The key-path lines of an XML text.
pub open spec fn xml_lines(s: Seq<char>) -> Seq<Seq<char>> {
    xml_scan(s, 0, Seq::empty(), Seq::empty())
}

fn push_attr_lines(out: &mut Vec<Vec<char>>, path: &Vec<char>, attrs: &Vec<(Vec<char>, Vec<char>)>)
    ensures
        vecs_view(final(out)@) == vecs_view(old(out)@) + attr_lines(path@, pairs_view(attrs@)),
{
    let ghost start = vecs_view(out@);
    let ghost all = attr_lines(path@, pairs_view(attrs@));
    let mut k: usize = 0;
    while k < attrs.len()
        invariant
            k <= attrs@.len(),
            all == attr_lines(path@, pairs_view(attrs@)),
            vecs_view(out@) == start + all.take(k as int),
        decreases attrs.len() - k,
    {
        let mut line: Vec<char> = Vec::new();
        extend_chars(&mut line, path);
        extend_str(&mut line, "/@");
        extend_chars(&mut line, &attrs[k].0);
        extend_str(&mut line, "=");
        extend_chars(&mut line, &attrs[k].1);
        assert(line@ =~= all[k as int]);
        let ghost before = vecs_view(out@);
        out.push(line);
        assert(vecs_view(out@) =~= before.push(line@));
        assert(all.take(k + 1) =~= all.take(k as int).push(all[k as int]));
        assert(vecs_view(out@) =~= start + all.take(k + 1));
        k = k + 1;
    }
    assert(all.take(attrs@.len() as int) =~= all);
}

pub fn flatten_xml(text: &Vec<char>) -> (out: Vec<Vec<char>>)
    ensures
        vecs_view(out@) == xml_lines(text@),
{
    let ghost s = text@;
    let mut out: Vec<Vec<char>> = Vec::new();
    let mut stack: Vec<Vec<char>> = Vec::new();
    let mut i: usize = 0;
    let open_comment = chars_of("<!--");
    let close_comment = chars_of("-->");
    proof {
        reveal_strlit("<!--");
        reveal_strlit("-->");
        assert(vecs_view(out@) =~= Seq::<Seq<char>>::empty());
        assert(vecs_view(stack@) =~= Seq::<Seq<char>>::empty());
    }
    while i < text.len()
        invariant
            i <= text@.len(),
            s == text@,
            open_comment@ == "<!--"@,
            close_comment@ == "-->"@,
            open_comment@.len() == 4,
            close_comment@.len() == 3,
            xml_lines(s) == xml_scan(s, i as int, vecs_view(stack@), vecs_view(out@)),
        decreases text.len() - i,
    {
        if text[i] == '<' {
            if occurs_at_exec(text, &open_comment, i) {
                proof {
                    lemma_find_seq(s, "-->"@, i + 4);
                }
                match find_seq_exec(text, &close_comment, i + 4) {
                    Some(e) => {
                        i = e + 3;
                    },
                    None => {
                        return out;
                    },
                }
            } else {
                let c = until_exec(text, i, '>');
                if c >= text.len() {
                    return out;
                }
                let (ta, tb) = trim_range(text, i + 1, c);
                let token = sub_vec(text, ta, tb);
                if token.len() == 0 || token[0] == '?' || token[0] == '!' {
                    i = c + 1;
                } else if token[0] == '/' {
                    let rest = sub_vec(&token, 1, token.len());
                    assert(rest@ =~= token@.drop_first());
                    let closing = parse_xml_tag_name(&rest);
                    pop_xml_stack(&mut stack, &closing);
                    i = c + 1;
                } else {
                    let self_closing = token[token.len() - 1] == '/';
                    let body = if self_closing {
                        let (ba, bb) = trim_range(&token, 0, token.len() - 1);
                        assert(token@.drop_last() =~= token@.subrange(0, token@.len() - 1));
                        sub_vec(&token, ba, bb)
                    } else {
                        token
                    };
                    let (name, attrs) = split_xml_tag(&body);
                    if name.len() > 0 {
                        let ghost st = vecs_view(stack@);
                        stack.push(name);
                        assert(vecs_view(stack@) =~= st.push(name@));
                        let path = xml_path_exec(&stack);
                        let pairs = parse_xml_attributes(&attrs);
                        push_attr_lines(&mut out, &path, &pairs);
                        if self_closing {
                            stack.pop();
                            assert(vecs_view(stack@) =~= st);
                        }
                    }
                    i = c + 1;
                }
            }
        } else {
            let e = until_exec(text, i, '<');
            proof {
                lemma_until(s, i as int, '<');
            }
            let (va, vb) = trim_range(text, i, e);
            if va < vb && stack.len() > 0 {
                let mut line = xml_path_exec(&stack);
                extend_str(&mut line, "=");
                let value = sub_vec(text, va, vb);
                let norm = normalize_scalar_text(&value);
                extend_chars(&mut line, &norm);
                let ghost before = vecs_view(out@);
                out.push(line);
                assert(vecs_view(out@) =~= before.push(line@));
            }
            i = e;
        }
    }
    out
}

// ---------------------------------------------------------------------------
// Titles
// ---------------------------------------------------------------------------

/// The value of the first line whose path ends in `/title`, `/name` or `/id`.
pub open spec fn xml_title_scan(ls: Seq<Seq<char>>) -> Option<Seq<char>>
    decreases ls.len(),
{
    if ls.len() == 0 {
        None
    } else {
        let l = ls[0];
        match first_index_of(l, '=') {
            Some(p) => {
                let path = l.take(p as int);
                if ends_with(path, "/title"@) || ends_with(path, "/name"@) || ends_with(
                    path,
                    "/id"@,
                ) {
                    Some(l.skip(p as int + 1))
                } else {
                    xml_title_scan(ls.drop_first())
                }
            },
            None => xml_title_scan(ls.drop_first()),
        }
    }
}

/// That value, unless it is blank.
pub open spec fn xml_title(ls: Seq<Seq<char>>) -> Option<Seq<char>> {
    match xml_title_scan(ls) {
        Some(v) => if trim(v).len() > 0 {
            Some(v)
        } else {
            None
        },
        None => None,
    }
}

pub fn infer_xml_title(ls: &Vec<Vec<char>>) -> (r: Option<Vec<char>>)
    ensures
        match r {
            Some(t) => xml_title(vecs_view(ls@)) == Some(t@),
            None => xml_title(vecs_view(ls@)) is None,
        },
{
    let ghost all = vecs_view(ls@);
    let t_title = chars_of("/title");
    let t_name = chars_of("/name");
    let t_id = chars_of("/id");
    let mut i: usize = 0;
    assert(all.skip(0) =~= all);
    while i < ls.len()
        invariant
            i <= ls@.len(),
            all == vecs_view(ls@),
            t_title@ == "/title"@,
            t_name@ == "/name"@,
            t_id@ == "/id"@,
            xml_title_scan(all) == xml_title_scan(all.skip(i as int)),
        decreases ls.len() - i,
    {
        let l = &ls[i];
        assert(all.skip(i as int)[0] == l@);
        assert(all.skip(i as int).drop_first() =~= all.skip(i + 1));
        let found = find_char(l, '=', 0);
        match found {
            Some(p) => {
                let n = l.len();
                assert(p < n);
                let after = p + 1;
                assert(l@.skip(0) =~= l@);
                let path = sub_vec(l, 0, p);
                assert(path@ =~= l@.take(p as int));
                if ends_with_chars(&path, &t_title) || ends_with_chars(&path, &t_name)
                    || ends_with_chars(&path, &t_id) {
                    let v = sub_vec(l, after, n);
                    assert(v@ =~= l@.skip(p + 1));
                    let (a, b) = trim_range(&v, 0, v.len());
                    assert(v@.subrange(0, v@.len() as int) =~= v@);
                    if a < b {
                        return Some(v);
                    }
                    return None;
                }
            },
            None => {
                assert(l@.skip(0) =~= l@);
            },
        }
        i = i + 1;
    }
    assert(all.skip(i as int) =~= Seq::<Seq<char>>::empty());
    None
}

} // verus!
