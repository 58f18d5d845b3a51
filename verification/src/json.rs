use vstd::prelude::*;

use crate::text::{
    chars_eq, chars_eq_str, chars_lt, chars_of, dec, extend_chars, extend_str, join_chars,
    join_with, push_dec, seq_lt, split_words, sub_vec, take_chars, take_prefix, trim, trim_range,
    vecs_view, words,
};

verus! {

// ---------------------------------------------------------------------------
// The library's JSON tree
// ---------------------------------------------------------------------------

/// A parsed structured document (JSON, YAML or TOML), held as plain values.
#[derive(Debug, PartialEq)]
pub enum JsonValue {
    Null,
    Bool(bool),
    /// The number as serde_json prints it.
    Number(String),
    Str(String),
    Array(Vec<JsonValue>),
    /// The members of an object, in the order the parser hands them out.
    Object(Vec<(String, JsonValue)>),
}

#[verifier::external_type_specification]
#[verifier::external_body]
pub struct ExSerdeJsonValue(serde_json::Value);

/// Moves a `serde_json::Value` into a `JsonValue`, variant for variant.
#[verifier::external_body]
fn from_serde(v: serde_json::Value) -> JsonValue {
    match v {
        serde_json::Value::Null => JsonValue::Null,
        serde_json::Value::Bool(b) => JsonValue::Bool(b),
        serde_json::Value::Number(n) => JsonValue::Number(n.to_string()),
        serde_json::Value::String(s) => JsonValue::Str(s),
        serde_json::Value::Array(a) => JsonValue::Array(a.into_iter().map(from_serde).collect()),
        serde_json::Value::Object(m) => JsonValue::Object(
            m.into_iter().map(|(k, x)| (k, from_serde(x))).collect(),
        ),
    }
}

/// The tree serde_json's `from_str::<Value>` reads from a text, if it parses.
pub uninterp spec fn json_document(text: Seq<char>) -> Option<JsonValue>;

/// The tree serde_norway's `from_str::<Value>` reads from a text, carried
/// over by serde_json's `to_value`, if both succeed.
pub uninterp spec fn yaml_document(text: Seq<char>) -> Option<JsonValue>;

/// The tree toml's `Value::from_str` reads from a text, carried over by
/// serde_json's `to_value`, if both succeed.
pub uninterp spec fn toml_document(text: Seq<char>) -> Option<JsonValue>;

/// serde_json's `from_str::<serde_json::Value>`; `None` where it fails.
#[verifier::external_body]
pub fn read_json(text: &str) -> (r: Option<JsonValue>)
    ensures
        r == json_document(text@),
{
    match serde_json::from_str::<serde_json::Value>(text) {
        Ok(v) => Some(from_serde(v)),
        Err(_) => None,
    }
}

/// serde_norway's `from_str::<serde_norway::Value>`, then serde_json's
/// `to_value`; `None` where either fails.
#[verifier::external_body]
pub fn read_yaml(text: &str) -> (r: Option<JsonValue>)
    ensures
        r == yaml_document(text@),
{
    match serde_norway::from_str::<serde_norway::Value>(text) {
        Ok(v) => match serde_json::to_value(v) {
            Ok(j) => Some(from_serde(j)),
            Err(_) => None,
        },
        Err(_) => None,
    }
}

/// toml's `Value::from_str` (a whole document), then serde_json's
/// `to_value`; `None` where either fails.
#[verifier::external_body]
pub fn read_toml(text: &str) -> (r: Option<JsonValue>)
    ensures
        r == toml_document(text@),
{
    match text.parse::<toml::Value>() {
        Ok(v) => match serde_json::to_value(v) {
            Ok(j) => Some(from_serde(j)),
            Err(_) => None,
        },
        Err(_) => None,
    }
}

// ---------------------------------------------------------------------------
// Scalars
// ---------------------------------------------------------------------------

/// Whitespace runs collapsed to single spaces, ends trimmed, at most 240
/// characters.
pub open spec fn normalized_scalar(raw: Seq<char>) -> Seq<char> {
    take_chars(join_with(words(raw), " "@), 240)
}

pub fn normalize_scalar_text(raw: &Vec<char>) -> (out: Vec<char>)
    ensures
        out@ == normalized_scalar(raw@),
{
    let ws = split_words(raw);
    assert(ws@.map_values(|w: Vec<char>| w@) =~= vecs_view(ws@));
    let joined = join_chars(&ws, " ");
    take_prefix(&joined, 240)
}

/// How a leaf is written after `=`.
pub open spec fn scalar_text(v: JsonValue) -> Seq<char> {
    match v {
        JsonValue::Str(s) => normalized_scalar(s@),
        JsonValue::Bool(b) => if b {
            "true"@
        } else {
            "false"@
        },
        JsonValue::Number(n) => n@,
        JsonValue::Null => "null"@,
        _ => "{}"@,
    }
}

fn scalar_text_exec(v: &JsonValue) -> (out: Vec<char>)
    ensures
        out@ == scalar_text(*v),
{
    match v {
        JsonValue::Str(s) => normalize_scalar_text(&chars_of(s.as_str())),
        JsonValue::Bool(b) => if *b {
            chars_of("true")
        } else {
            chars_of("false")
        },
        JsonValue::Number(n) => chars_of(n.as_str()),
        JsonValue::Null => chars_of("null"),
        _ => chars_of("{}"),
    }
}

// ---------------------------------------------------------------------------
// Object members
// ---------------------------------------------------------------------------

/// The index of the first member named `k` at or after `i`.
pub open spec fn entry_index_from(es: Seq<(String, JsonValue)>, k: Seq<char>, i: int) -> Option<
    int,
>
    decreases es.len() - i,
{
    if i < 0 || i >= es.len() {
        None
    } else if es[i].0@ == k {
        Some(i)
    } else {
        entry_index_from(es, k, i + 1)
    }
}

/// The index of the first member named `k` (what a map's `get` finds).
pub open spec fn entry_index(es: Seq<(String, JsonValue)>, k: Seq<char>) -> Option<int> {
    entry_index_from(es, k, 0)
}

fn find_entry(es: &Vec<(String, JsonValue)>, k: &Vec<char>) -> (r: Option<usize>)
    ensures
        match r {
            Some(i) => entry_index(es@, k@) == Some(i as int) && i < es@.len(),
            None => entry_index(es@, k@) is None,
        },
{
    let mut i: usize = 0;
    while i < es.len()
        invariant
            i <= es@.len(),
            entry_index(es@, k@) == entry_index_from(es@, k@, i as int),
        decreases es.len() - i,
    {
        let name = chars_of(es[i].0.as_str());
        if chars_eq(&name, k) {
            return Some(i);
        }
        i = i + 1;
    }
    None
}

pub open spec fn keys_of(es: Seq<(String, JsonValue)>) -> Seq<Seq<char>> {
    es.map_values(|e: (String, JsonValue)| e.0@)
}

/// Stable insertion of `k` into `s`: after every key not greater than it.
pub open spec fn insert_key(s: Seq<Seq<char>>, k: Seq<char>) -> Seq<Seq<char>>
    decreases s.len(),
{
    if s.len() > 0 && seq_lt(k, s.last()) {
        insert_key(s.drop_last(), k).push(s.last())
    } else {
        s.push(k)
    }
}

/// The keys in ascending order (what std's `sort` gives).
pub open spec fn sort_keys(s: Seq<Seq<char>>) -> Seq<Seq<char>>
    decreases s.len(),
{
    if s.len() == 0 {
        s
    } else {
        insert_key(sort_keys(s.drop_last()), s.last())
    }
}

proof fn lemma_insert_key(s: Seq<Seq<char>>, x: Seq<char>, k: int)
    requires
        0 <= k <= s.len(),
        forall|j: int| k <= j < s.len() ==> seq_lt(x, #[trigger] s[j]),
        k == 0 || !seq_lt(x, s[k - 1]),
    ensures
        insert_key(s, x) == s.subrange(0, k).push(x) + s.subrange(k, s.len() as int),
    decreases s.len(),
{
    if s.len() > k {
        lemma_insert_key(s.drop_last(), x, k);
        assert(s.drop_last().subrange(0, k) =~= s.subrange(0, k));
        assert(s.drop_last().subrange(k, s.len() - 1).push(s.last()) =~= s.subrange(
            k,
            s.len() as int,
        ));
        assert(insert_key(s, x) =~= s.subrange(0, k).push(x) + s.subrange(k, s.len() as int));
    } else {
        assert(s.subrange(0, k) =~= s);
        assert(s.subrange(k, s.len() as int) =~= Seq::<Seq<char>>::empty());
        assert(insert_key(s, x) =~= s.subrange(0, k).push(x) + s.subrange(k, s.len() as int));
    }
}

/// Sorts character strings in ascending order.
pub fn sort_strings(items: Vec<Vec<char>>) -> (out: Vec<Vec<char>>)
    ensures
        vecs_view(out@) == sort_keys(vecs_view(items@)),
{
    let ghost all = vecs_view(items@);
    let mut out: Vec<Vec<char>> = Vec::new();
    let mut rest = items;
    let ghost n = all.len();
    assert(all.subrange(0, 0) =~= Seq::<Seq<char>>::empty());
    while rest.len() > 0
        invariant
            rest@.len() <= n,
            n == all.len(),
            forall|j: int| 0 <= j < rest@.len() ==> rest@[j]@ == all[(n - rest@.len()) + j],
            vecs_view(out@) == sort_keys(all.subrange(0, n - rest@.len())),
        decreases rest.len(),
    {
        let ghost i = n - rest@.len();
        let x = rest.remove(0);
        assert(x@ == all[i]);
        let mut k = out.len();
        while k > 0 && chars_lt(&x, &out[k - 1])
            invariant
                k <= out@.len(),
                forall|j: int| k <= j < out@.len() ==> seq_lt(x@, #[trigger] out@[j]@),
            decreases k,
        {
            k = k - 1;
        }
        proof {
            let s = vecs_view(out@);
            assert forall|j: int| k <= j < s.len() implies seq_lt(x@, #[trigger] s[j]) by {
                assert(s[j] == out@[j]@);
            }
            if k > 0 {
                assert(s[k - 1] == out@[k - 1]@);
            }
            lemma_insert_key(s, x@, k as int);
            assert(all.subrange(0, i + 1).drop_last() =~= all.subrange(0, i));
            assert(all.subrange(0, i + 1).last() == all[i]);
        }
        let ghost before = vecs_view(out@);
        out.insert(k, x);
        assert(vecs_view(out@) =~= before.subrange(0, k as int).push(x@) + before.subrange(
            k as int,
            before.len() as int,
        ));
    }
    assert(all.subrange(0, n as int) =~= all);
    out
}

/// The member names of an object, sorted.
fn sorted_keys(es: &Vec<(String, JsonValue)>) -> (out: Vec<Vec<char>>)
    ensures
        vecs_view(out@) == sort_keys(keys_of(es@)),
{
    let mut names: Vec<Vec<char>> = Vec::new();
    let mut i: usize = 0;
    while i < es.len()
        invariant
            i <= es@.len(),
            vecs_view(names@) == keys_of(es@).take(i as int),
        decreases es.len() - i,
    {
        let ghost before = vecs_view(names@);
        names.push(chars_of(es[i].0.as_str()));
        assert(vecs_view(names@) =~= before.push(keys_of(es@)[i as int]));
        assert(keys_of(es@).take(i + 1) =~= keys_of(es@).take(i as int).push(keys_of(es@)[i as int]));
        i = i + 1;
    }
    assert(keys_of(es@).take(es@.len() as int) =~= keys_of(es@));
    sort_strings(names)
}

// ---------------------------------------------------------------------------
// Flattening to key paths
// ---------------------------------------------------------------------------

/// The path of an object member: `$.key` at the root, `path.key` below it.
pub open spec fn key_path(path: Seq<char>, key: Seq<char>) -> Seq<char> {
    if path == "$"@ {
        "$."@ + key
    } else {
        path + "."@ + key
    }
}

/// The path of an array element: `path[i]`.
pub open spec fn index_path(path: Seq<char>, i: nat) -> Seq<char> {
    path + "["@ + dec(i) + "]"@
}

/// One line `path=value` per leaf, members in key order, elements in order;
/// an empty object gives `path={}` and an empty array `path=[]`.
pub open spec fn flatten(v: JsonValue, path: Seq<char>) -> Seq<Seq<char>>
    decreases v, 0int,
{
    match v {
        JsonValue::Object(es) => if es.len() == 0 {
            seq![path + "={}"@]
        } else {
            flatten_members(es, sort_keys(keys_of(es@)), path)
        },
        JsonValue::Array(items) => if items.len() == 0 {
            seq![path + "=[]"@]
        } else {
            flatten_items(items, 0, path)
        },
        _ => seq![path + "="@ + scalar_text(v)],
    }
}

/// The lines of the members named by `keys`, in that order.
pub open spec fn flatten_members(
    es: Vec<(String, JsonValue)>,
    keys: Seq<Seq<char>>,
    path: Seq<char>,
) -> Seq<Seq<char>>
    decreases es, keys.len(),
{
    if keys.len() == 0 {
        Seq::empty()
    } else {
        let rest = flatten_members(es, keys.drop_first(), path);
        match entry_index(es@, keys[0]) {
            Some(i) => if 0 <= i < es@.len() {
                flatten(es@[i].1, key_path(path, keys[0])) + rest
            } else {
                rest
            },
            None => rest,
        }
    }
}

/// The lines of the elements from index `i` on.
pub open spec fn flatten_items(items: Vec<JsonValue>, i: int, path: Seq<char>) -> Seq<Seq<char>>
    decreases items, items@.len() - i,
{
    if i < 0 || i >= items@.len() {
        Seq::empty()
    } else {
        flatten(items@[i], index_path(path, i as nat)) + flatten_items(items, i + 1, path)
    }
}

fn key_path_exec(path: &Vec<char>, key: &Vec<char>) -> (out: Vec<char>)
    ensures
        out@ == key_path(path@, key@),
{
    let mut out: Vec<char> = Vec::new();
    if chars_eq_str(path, "$") {
        extend_str(&mut out, "$.");
    } else {
        extend_chars(&mut out, path);
        extend_str(&mut out, ".");
    }
    extend_chars(&mut out, key);
    out
}

fn index_path_exec(path: &Vec<char>, i: usize) -> (out: Vec<char>)
    ensures
        out@ == index_path(path@, i as nat),
{
    let mut out: Vec<char> = Vec::new();
    extend_chars(&mut out, path);
    extend_str(&mut out, "[");
    push_dec(&mut out, i as u64);
    extend_str(&mut out, "]");
    out
}

fn leaf_line(path: &Vec<char>, tail: &str, value: &Vec<char>) -> (out: Vec<char>)
    ensures
        out@ == path@ + tail@ + value@,
{
    let mut out: Vec<char> = Vec::new();
    extend_chars(&mut out, path);
    extend_str(&mut out, tail);
    extend_chars(&mut out, value);
    out
}

/// Appends the flattened lines of `v` under `path` to `out`.
pub fn flatten_into(v: &JsonValue, path: &Vec<char>, out: &mut Vec<Vec<char>>)
    ensures
        vecs_view(final(out)@) == vecs_view(old(out)@) + flatten(*v, path@),
    decreases v,
{
    let ghost start = vecs_view(out@);
    match v {
        JsonValue::Object(es) => {
            if es.len() == 0 {
                let line = leaf_line(path, "={}", &Vec::new());
                out.push(line);
                assert(vecs_view(out@) =~= start + flatten(*v, path@));
                return ;
            }
            let keys = sorted_keys(es);
            let ghost ks = vecs_view(keys@);
            let mut j: usize = 0;
            assert(ks.skip(0) =~= ks);
            while j < keys.len()
                invariant
                    j <= keys@.len(),
                    ks == vecs_view(keys@),
                    ks == sort_keys(keys_of(es@)),
                    *v == JsonValue::Object(*es),
                    start + flatten_members(*es, ks, path@) == vecs_view(out@)
                        + flatten_members(*es, ks.skip(j as int), path@),
                decreases keys.len() - j,
            {
                let ghost tail = ks.skip(j as int);
                assert(tail[0] == keys@[j as int]@);
                assert(tail.drop_first() =~= ks.skip(j + 1));
                let ghost before = vecs_view(out@);
                match find_entry(es, &keys[j]) {
                    Some(i) => {
                        let child = key_path_exec(path, &keys[j]);
                        assert(decreases_to!(*v => (*v)->Object_0));
                        assert(decreases_to!(*es => es@));
                        assert(decreases_to!(es@ => es@[i as int]));
                        assert(decreases_to!(es@[i as int] => es@[i as int].1));
                        flatten_into(&es[i].1, &child, out);
                        assert(vecs_view(out@) + flatten_members(*es, ks.skip(j + 1), path@)
                            =~= before + flatten_members(*es, tail, path@));
                    },
                    None => {},
                }
                j = j + 1;
            }
            assert(ks.skip(keys@.len() as int) =~= Seq::<Seq<char>>::empty());
            assert(vecs_view(out@) =~= start + flatten(*v, path@));
        },
        JsonValue::Array(items) => {
            if items.len() == 0 {
                let line = leaf_line(path, "=[]", &Vec::new());
                out.push(line);
                assert(vecs_view(out@) =~= start + flatten(*v, path@));
                return ;
            }
            let mut i: usize = 0;
            while i < items.len()
                invariant
                    i <= items@.len(),
                    *v == JsonValue::Array(*items),
                    start + flatten_items(*items, 0, path@) == vecs_view(out@) + flatten_items(
                        *items,
                        i as int,
                        path@,
                    ),
                decreases items.len() - i,
            {
                let ghost before = vecs_view(out@);
                let child = index_path_exec(path, i);
                assert(decreases_to!(*v => (*v)->Array_0));
                assert(decreases_to!(*items => items@));
                assert(decreases_to!(items@ => items@[i as int]));
                flatten_into(&items[i], &child, out);
                assert(vecs_view(out@) + flatten_items(*items, i + 1, path@) =~= before
                    + flatten_items(*items, i as int, path@));
                i = i + 1;
            }
            assert(vecs_view(out@) =~= start + flatten(*v, path@));
        },
        _ => {
            let value = scalar_text_exec(v);
            let line = leaf_line(path, "=", &value);
            out.push(line);
            assert(vecs_view(out@) =~= start + flatten(*v, path@));
        },
    }
}

// ---------------------------------------------------------------------------
// Titles
// ---------------------------------------------------------------------------

/// The trimmed text of member `key`, when it is a string that is not blank.
pub open spec fn title_field(es: Seq<(String, JsonValue)>, key: Seq<char>) -> Option<Seq<char>> {
    match entry_index(es, key) {
        Some(i) => if 0 <= i < es.len() {
            match es[i].1 {
                JsonValue::Str(s) => if trim(s@).len() > 0 {
                    Some(trim(s@))
                } else {
                    None
                },
                _ => None,
            }
        } else {
            None
        },
        None => None,
    }
}

/// The title of an object: its `title`, else `name`, else `id` member.
pub open spec fn json_title(v: JsonValue) -> Option<Seq<char>> {
    match v {
        JsonValue::Object(es) => match title_field(es@, "title"@) {
            Some(t) => Some(t),
            None => match title_field(es@, "name"@) {
                Some(t) => Some(t),
                None => title_field(es@, "id"@),
            },
        },
        _ => None,
    }
}

/// The first member named `k` is at `j`.
proof fn lemma_entry_index_at(es: Seq<(String, JsonValue)>, k: Seq<char>, i: int, j: int)
    requires
        0 <= i <= j < es.len(),
        es[j].0@ == k,
        forall|m: int| i <= m < j ==> es[m].0@ != k,
    ensures
        entry_index_from(es, k, i) == Some(j),
    decreases j - i,
{
    if i < j {
        lemma_entry_index_at(es, k, i + 1, j);
    }
}

/// No member is named `k`.
proof fn lemma_entry_index_none(es: Seq<(String, JsonValue)>, k: Seq<char>, i: int)
    requires
        0 <= i,
        forall|m: int| i <= m < es.len() ==> es[m].0@ != k,
    ensures
        entry_index_from(es, k, i) is None,
    decreases es.len() - i,
{
    if i < es.len() {
        lemma_entry_index_none(es, k, i + 1);
    }
}

/// Whether the first member named `k` holds a string with text in it.
pub open spec fn has_text_member(es: Seq<(String, JsonValue)>, k: Seq<char>) -> bool {
    exists|j: int|
        #![trigger es[j]]
        {
            &&& 0 <= j < es.len()
            &&& es[j].0@ == k
            &&& forall|m: int| 0 <= m < j ==> es[m].0@ != k
            &&& es[j].1 matches JsonValue::Str(s)
            &&& trim(s@).len() > 0
        }
}

/// The title of an object comes from its members: a first `title` member
/// holding text gives the title, trimmed. Without one, a first `name`
/// member holding text does, and without either a first `id` member
/// holding text does.
pub proof fn lemma_object_title_members(v: Vec<(String, JsonValue)>, k: Seq<char>, j: int, s: String)
    requires
        k == "title"@ || k == "name"@ || k == "id"@,
        0 <= j < v@.len(),
        v@[j].0@ == k,
        forall|m: int| 0 <= m < j ==> v@[m].0@ != k,
        v@[j].1 == JsonValue::Str(s),
        trim(s@).len() > 0,
        k != "title"@ ==> !has_text_member(v@, "title"@),
        k == "id"@ ==> !has_text_member(v@, "name"@),
    ensures
        json_title(JsonValue::Object(v)) == Some(trim(s@)),
{
    let es = v@;
    lemma_entry_index_at(es, k, 0, j);
    assert(title_field(es, k) == Some(trim(s@)));
    assert forall|k2: Seq<char>| (k2 == "title"@ || k2 == "name"@) && k2 != k && !has_text_member(
        es,
        k2,
    ) implies #[trigger] title_field(es, k2) is None by {
        match entry_index(es, k2) {
            Some(i) => {
                lemma_entry_index_facts(es, k2, 0);
                if 0 <= i < es.len() {
                    match es[i].1 {
                        JsonValue::Str(t) => {
                            if trim(t@).len() > 0 {
                                assert(has_text_member(es, k2));
                            }
                        },
                        _ => {},
                    }
                }
            },
            None => {},
        }
    }
    reveal_strlit("title");
    reveal_strlit("name");
    reveal_strlit("id");
    assert("title"@.len() == 5 && "name"@.len() == 4 && "id"@.len() == 2);
    if k == "name"@ {
        assert(title_field(es, "title"@) is None);
    } else if k == "id"@ {
        assert(title_field(es, "title"@) is None);
        assert(title_field(es, "name"@) is None);
    }
}

/// What `entry_index_from` finds is the first member with that name.
proof fn lemma_entry_index_facts(es: Seq<(String, JsonValue)>, k: Seq<char>, i: int)
    requires
        0 <= i,
    ensures
        entry_index_from(es, k, i) matches Some(j) ==> i <= j < es.len() && es[j].0@ == k && (
        forall|m: int| i <= m < j ==> es[m].0@ != k),
    decreases es.len() - i,
{
    if i < es.len() {
        lemma_entry_index_facts(es, k, i + 1);
    }
}

fn title_field_exec(es: &Vec<(String, JsonValue)>, key: &str) -> (r: Option<Vec<char>>)
    ensures
        match r {
            Some(t) => title_field(es@, key@) == Some(t@),
            None => title_field(es@, key@) is None,
        },
{
    let k = chars_of(key);
    match find_entry(es, &k) {
        Some(i) => match &es[i].1 {
            JsonValue::Str(s) => {
                let c = chars_of(s.as_str());
                let (a, b) = trim_range(&c, 0, c.len());
                assert(c@.subrange(0, c@.len() as int) =~= c@);
                if a < b {
                    Some(sub_vec(&c, a, b))
                } else {
                    None
                }
            },
            _ => None,
        },
        None => None,
    }
}

pub fn infer_title_from_json_value(v: &JsonValue) -> (r: Option<Vec<char>>)
    ensures
        match r {
            Some(t) => json_title(*v) == Some(t@),
            None => json_title(*v) is None,
        },
{
    match v {
        JsonValue::Object(es) => {
            match title_field_exec(es, "title") {
                Some(t) => {
                    return Some(t);
                },
                None => {},
            }
            match title_field_exec(es, "name") {
                Some(t) => {
                    return Some(t);
                },
                None => {},
            }
            title_field_exec(es, "id")
        },
        _ => None,
    }
}

// ---------------------------------------------------------------------------
// Key histograms
// ---------------------------------------------------------------------------

/// The member names of an object; nothing for other values.
pub open spec fn top_keys(v: JsonValue) -> Seq<Seq<char>> {
    match v {
        JsonValue::Object(es) => keys_of(es@),
        _ => Seq::empty(),
    }
}

/// One more, unless the counter is full.
pub open spec fn sat_inc(n: nat) -> nat {
    if n < usize::MAX {
        n + 1
    } else {
        n
    }
}

/// The index of the first entry for key `k` at or after `i`.
pub open spec fn hist_index_from(h: Seq<(Seq<char>, nat)>, k: Seq<char>, i: int) -> Option<int>
    decreases h.len() - i,
{
    if i < 0 || i >= h.len() {
        None
    } else if h[i].0 == k {
        Some(i)
    } else {
        hist_index_from(h, k, i + 1)
    }
}

proof fn lemma_hist_index_from(h: Seq<(Seq<char>, nat)>, k: Seq<char>, i: int)
    ensures
        hist_index_from(h, k, i) matches Some(j) ==> 0 <= i <= j < h.len() && h[j].0 == k,
    decreases h.len() - i,
{
    if 0 <= i < h.len() && h[i].0 != k {
        lemma_hist_index_from(h, k, i + 1);
    }
}

/// Counts one more occurrence of `k`: new keys go at the end with count 1.
pub open spec fn tally_key(h: Seq<(Seq<char>, nat)>, k: Seq<char>) -> Seq<(Seq<char>, nat)> {
    match hist_index_from(h, k, 0) {
        Some(j) => h.update(j, (k, sat_inc(h[j].1))),
        None => h.push((k, 1)),
    }
}

/// Counts each of `ks`, in order.
pub open spec fn tally_keys(h: Seq<(Seq<char>, nat)>, ks: Seq<Seq<char>>) -> Seq<
    (Seq<char>, nat),
>
    decreases ks.len(),
{
    if ks.len() == 0 {
        h
    } else {
        tally_keys(tally_key(h, ks[0]), ks.drop_first())
    }
}

pub open spec fn hist_view(v: Seq<(Vec<char>, usize)>) -> Seq<(Seq<char>, nat)> {
    v.map_values(|p: (Vec<char>, usize)| (p.0@, p.1 as nat))
}

fn tally_key_exec(h: &mut Vec<(Vec<char>, usize)>, k: Vec<char>)
    ensures
        hist_view(final(h)@) == tally_key(hist_view(old(h)@), k@),
{
    let ghost h0 = hist_view(h@);
    let mut i: usize = 0;
    while i < h.len()
        invariant
            i <= h@.len(),
            h0 == hist_view(h@),
            h0 == hist_view(old(h)@),
            hist_index_from(h0, k@, 0) == hist_index_from(h0, k@, i as int),
        decreases h.len() - i,
    {
        if chars_eq(&h[i].0, &k) {
            assert(hist_index_from(h0, k@, i as int) == Some(i as int));
            assert(h0[i as int].0 == k@);
            let ghost kv = k@;
            let c = h[i].1;
            let n = if c < usize::MAX {
                c + 1
            } else {
                c
            };
            h.set(i, (k, n));
            assert(hist_view(h@) =~= h0.update(i as int, (kv, sat_inc(h0[i as int].1))));
            assert(tally_key(h0, kv) == h0.update(i as int, (kv, sat_inc(h0[i as int].1))));
            assert(h0 == hist_view(old(h)@));
            assert(kv == k@);
            assert(hist_view(h@) == tally_key(hist_view(old(h)@), k@));
            return ;
        }
        i = i + 1;
    }
    let ghost before = hist_view(h@);
    h.push((k, 1));
    assert(hist_view(h@) =~= before.push((k@, 1)));
}

/// Counts the member names of `v` into `h`.
pub fn update_top_level_key_histogram(v: &JsonValue, h: &mut Vec<(Vec<char>, usize)>)
    ensures
        hist_view(final(h)@) == tally_keys(hist_view(old(h)@), top_keys(*v)),
{
    match v {
        JsonValue::Object(es) => {
            let ghost ks = keys_of(es@);
            let ghost h0 = hist_view(h@);
            let mut i: usize = 0;
            assert(ks.skip(0) =~= ks);
            while i < es.len()
                invariant
                    i <= es@.len(),
                    ks == keys_of(es@),
                    tally_keys(h0, ks) == tally_keys(hist_view(h@), ks.skip(i as int)),
                decreases es.len() - i,
            {
                let k = chars_of(es[i].0.as_str());
                assert(ks.skip(i as int)[0] == k@);
                assert(ks.skip(i as int).drop_first() =~= ks.skip(i + 1));
                tally_key_exec(h, k);
                i = i + 1;
            }
            assert(ks.skip(es@.len() as int) =~= Seq::<Seq<char>>::empty());
        },
        _ => {},
    }
}

/// `a` comes before `b` in a dominance ranking: a higher count, or the same
/// count and a smaller key.
pub open spec fn ranks_before(a: (Seq<char>, nat), b: (Seq<char>, nat)) -> bool {
    a.1 > b.1 || (a.1 == b.1 && seq_lt(a.0, b.0))
}

/// The index of the first entry that no other entry ranks before.
pub open spec fn best_index(h: Seq<(Seq<char>, nat)>) -> int
    decreases h.len(),
{
    if h.len() <= 1 {
        0
    } else {
        let j = best_index(h.drop_last());
        if ranks_before(h.last(), h[j]) {
            h.len() - 1
        } else {
            j
        }
    }
}

proof fn lemma_best_index(h: Seq<(Seq<char>, nat)>)
    requires
        h.len() > 0,
    ensures
        0 <= best_index(h) < h.len(),
    decreases h.len(),
{
    if h.len() > 1 {
        lemma_best_index(h.drop_last());
    }
}

/// The keys with the highest counts, at most `limit` of them, highest first
/// and ties in key order.
pub open spec fn dominant(h: Seq<(Seq<char>, nat)>, limit: nat) -> Seq<Seq<char>>
    decreases limit,
{
    if limit == 0 || h.len() == 0 {
        Seq::empty()
    } else {
        let j = best_index(h);
        seq![h[j].0] + dominant(h.remove(j), (limit - 1) as nat)
    }
}

fn ranks_before_exec(a: &(Vec<char>, usize), b: &(Vec<char>, usize)) -> (r: bool)
    ensures
        r == ranks_before((a.0@, a.1 as nat), (b.0@, b.1 as nat)),
{
    a.1 > b.1 || (a.1 == b.1 && chars_lt(&a.0, &b.0))
}

fn best_index_exec(h: &Vec<(Vec<char>, usize)>) -> (r: usize)
    requires
        h@.len() > 0,
    ensures
        r == best_index(hist_view(h@)),
        r < h@.len(),
{
    let ghost hv = hist_view(h@);
    let mut j: usize = 0;
    let mut n: usize = 1;
    assert(hv.take(1).len() == 1);
    while n < h.len()
        invariant
            1 <= n <= h@.len(),
            hv == hist_view(h@),
            j < n,
            j == best_index(hv.take(n as int)),
        decreases h.len() - n,
    {
        assert(hv.take(n + 1).drop_last() =~= hv.take(n as int));
        assert(hv.take(n + 1).last() == hv[n as int]);
        assert(hv.take(n + 1)[j as int] == hv[j as int]);
        if ranks_before_exec(&h[n], &h[j]) {
            j = n;
        }
        n = n + 1;
    }
    assert(hv.take(h@.len() as int) =~= hv);
    j
}

/// The `limit` dominant keys of a histogram.
pub fn dominant_keys(h: &Vec<(Vec<char>, usize)>, limit: usize) -> (out: Vec<Vec<char>>)
    ensures
        vecs_view(out@) == dominant(hist_view(h@), limit as nat),
{
    let mut rest: Vec<(Vec<char>, usize)> = Vec::new();
    let mut i: usize = 0;
    while i < h.len()
        invariant
            i <= h@.len(),
            hist_view(rest@) == hist_view(h@).take(i as int),
        decreases h.len() - i,
    {
        let k = sub_vec(&h[i].0, 0, h[i].0.len());
        assert(h@[i as int].0@.subrange(0, h@[i as int].0@.len() as int) =~= h@[i as int].0@);
        let ghost before = hist_view(rest@);
        rest.push((k, h[i].1));
        assert(hist_view(rest@) =~= before.push(hist_view(h@)[i as int]));
        assert(hist_view(h@).take(i + 1) =~= hist_view(h@).take(i as int).push(
            hist_view(h@)[i as int],
        ));
        i = i + 1;
    }
    assert(hist_view(h@).take(h@.len() as int) =~= hist_view(h@));
    let ghost whole = dominant(hist_view(h@), limit as nat);
    let mut out: Vec<Vec<char>> = Vec::new();
    let mut left = limit;
    assert(vecs_view(out@) + dominant(hist_view(rest@), left as nat) =~= whole);
    while left > 0 && rest.len() > 0
        invariant
            left <= limit,
            vecs_view(out@) + dominant(hist_view(rest@), left as nat) == whole,
        decreases left,
    {
        let ghost rv = hist_view(rest@);
        let j = best_index_exec(&rest);
        let (k, _c) = rest.remove(j);
        assert(hist_view(rest@) =~= rv.remove(j as int));
        let ghost before = vecs_view(out@);
        out.push(k);
        assert(vecs_view(out@) =~= before.push(rv[j as int].0));
        assert(dominant(rv, left as nat) =~= seq![rv[j as int].0] + dominant(
            rv.remove(j as int),
            (left - 1) as nat,
        ));
        left = left - 1;
    }
    assert(dominant(hist_view(rest@), left as nat) =~= Seq::<Seq<char>>::empty());
    assert(vecs_view(out@) =~= whole);
    out
}

} // verus!
