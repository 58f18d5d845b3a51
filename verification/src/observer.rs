use vstd::prelude::*;

use crate::om_bridge::OmScope;
use crate::om_state::{continuation_confidence_milli, normalize_optional_text, normalized_optional, opt_view};
use crate::sorted_map::{keys_ascending, lemma_sorted_put_ascending, lemma_sorted_put_at, sorted_put};
use crate::text::{
    ascii_lowercase, chars_eq, chars_eq_str, chars_lt, chars_of, extend_chars, is_blank,
    is_blank_str, join_chars, join_with, lines, seq_lt, split_lines, split_words, string_of,
    sub_vec, take_chars, take_prefix, to_ascii_lowercase, trim, trim_range, vecs_view, words,
};

verus! {

/// The record a session's observational memory is kept under.
#[derive(Debug, Clone, PartialEq, Eq)]
pub struct OmScopeBinding {
    pub scope: OmScope,
    pub scope_key: String,
    pub session_id: Option<String>,
    pub thread_id: Option<String>,
    pub resource_id: Option<String>,
}

// ---------------------------------------------------------------------------
// Observer mode
// ---------------------------------------------------------------------------

/// How observations are produced.
#[derive(Debug, Clone, Copy, PartialEq, Eq, Structural)]
pub enum OmObserverMode {
    Auto,
    Deterministic,
    Llm,
}

pub open spec fn observer_mode_of(raw: Option<Seq<char>>) -> OmObserverMode {
    let v = ascii_lowercase(
        trim(
            match raw {
                Some(r) => r,
                None => "auto"@,
            },
        ),
    );
    if v == "deterministic"@ || v == "local"@ || v == "draft"@ {
        OmObserverMode::Deterministic
    } else if v == "llm"@ || v == "model"@ {
        OmObserverMode::Llm
    } else {
        OmObserverMode::Auto
    }
}

impl OmObserverMode {
    /// The mode a setting names (ASCII case and surrounding whitespace
    /// ignored); unknown or missing settings mean automatic.
    pub fn parse(raw: Option<&str>) -> (r: Self)
        ensures
            r == observer_mode_of(opt_view(raw)),
    {
        let v = match raw {
            Some(r) => chars_of(r),
            None => chars_of("auto"),
        };
        let (a, b) = trim_range(&v, 0, v.len());
        assert(v@.subrange(0, v@.len() as int) =~= v@);
        let n = to_ascii_lowercase(&sub_vec(&v, a, b));
        if chars_eq_str(&n, "deterministic") || chars_eq_str(&n, "local") || chars_eq_str(&n, "draft") {
            OmObserverMode::Deterministic
        } else if chars_eq_str(&n, "llm") || chars_eq_str(&n, "model") {
            OmObserverMode::Llm
        } else {
            OmObserverMode::Auto
        }
    }
}

// ---------------------------------------------------------------------------
// Observation text
// ---------------------------------------------------------------------------

/// Whitespace runs collapsed to single spaces, ends trimmed.
pub fn normalize_text(text: &str) -> (r: String)
    ensures
        r@ == join_with(words(text@), " "@),
{
    let v = chars_of(text);
    let ws = split_words(&v);
    assert(ws@.map_values(|w: Vec<char>| w@) =~= vecs_view(ws@));
    string_of(&join_chars(&ws, " "))
}

/// The lines that are not blank, trimmed.
pub open spec fn kept_lines(ls: Seq<Seq<char>>) -> Seq<Seq<char>>
    decreases ls.len(),
{
    if ls.len() == 0 {
        Seq::empty()
    } else if trim(ls.last()).len() == 0 {
        kept_lines(ls.drop_last())
    } else {
        kept_lines(ls.drop_last()).push(trim(ls.last()))
    }
}

fn keep_trimmed(parts: &Vec<Vec<char>>) -> (out: Vec<Vec<char>>)
    ensures
        vecs_view(out@) == kept_lines(vecs_view(parts@)),
{
    let ghost all = vecs_view(parts@);
    let mut out: Vec<Vec<char>> = Vec::new();
    let mut i: usize = 0;
    assert(all.take(0) =~= Seq::<Seq<char>>::empty());
    while i < parts.len()
        invariant
            i <= parts@.len(),
            all == vecs_view(parts@),
            vecs_view(out@) == kept_lines(all.take(i as int)),
        decreases parts.len() - i,
    {
        assert(all.take(i + 1).drop_last() =~= all.take(i as int));
        assert(all.take(i + 1).last() == parts@[i as int]@);
        let (a, b) = trim_range(&parts[i], 0, parts[i].len());
        assert(parts@[i as int]@.subrange(0, parts@[i as int]@.len() as int) =~= parts@[i as int]@);
        if a < b {
            let ghost before = vecs_view(out@);
            out.push(sub_vec(&parts[i], a, b));
            assert(vecs_view(out@) =~= before.push(trim(parts@[i as int]@)));
        }
        i = i + 1;
    }
    assert(all.take(parts@.len() as int) =~= all);
    out
}

/// The non-blank lines, trimmed, one per line.
pub fn normalize_observation_text(text: &str) -> (r: String)
    ensures
        r@ == join_with(kept_lines(lines(text@)), "\n"@),
{
    let v = chars_of(text);
    let ls = split_lines(&v);
    string_of(&join_chars(&keep_trimmed(&ls), "\n"))
}

/// At most the first `max_chars` characters.
pub fn truncate_chars(text: &str, max_chars: usize) -> (r: String)
    ensures
        r@ == take_chars(text@, max_chars as nat),
{
    string_of(&take_prefix(&chars_of(text), max_chars))
}

pub open spec fn strings_view(v: Seq<String>) -> Seq<Seq<char>> {
    v.map_values(|s: String| s@)
}

/// The observations of buffered chunks, trimmed, blank ones left out,
/// separated by blank lines.
pub fn buffered_observations_text(chunk_observations: &Vec<String>) -> (r: String)
    ensures
        r@ == join_with(kept_lines(strings_view(chunk_observations@)), "\n\n"@),
{
    let mut parts: Vec<Vec<char>> = Vec::new();
    let mut i: usize = 0;
    while i < chunk_observations.len()
        invariant
            i <= chunk_observations@.len(),
            vecs_view(parts@) == strings_view(chunk_observations@).take(i as int),
        decreases chunk_observations.len() - i,
    {
        let ghost before = vecs_view(parts@);
        parts.push(chars_of(chunk_observations[i].as_str()));
        assert(vecs_view(parts@) =~= before.push(strings_view(chunk_observations@)[i as int]));
        assert(strings_view(chunk_observations@).take(i + 1) =~= strings_view(chunk_observations@).take(
            i as int,
        ).push(strings_view(chunk_observations@)[i as int]));
        i = i + 1;
    }
    assert(strings_view(chunk_observations@).take(chunk_observations@.len() as int) =~= strings_view(
        chunk_observations@,
    ));
    string_of(&join_chars(&keep_trimmed(&parts), "\n\n"))
}

/// The message ids already observed: the activated ones and those of the
/// buffered chunks, blank ones left out, each once, in first-seen order.
pub fn observed_message_ids_set(activated_ids: &Vec<String>, buffered_chunk_ids: &Vec<Vec<String>>) -> (out: Vec<String>)
    ensures
        strings_view(out@).no_duplicates(),
        forall|x: Seq<char>| #[trigger] strings_view(out@).contains(x) <==> (!is_blank(x) && (
        strings_view(activated_ids@).contains(x) || exists|c: int|
            0 <= c < buffered_chunk_ids@.len() && #[trigger] strings_view(
                buffered_chunk_ids@[c]@,
            ).contains(x))),
{
    let mut out: Vec<String> = Vec::new();
    let mut i: usize = 0;
    while i < activated_ids.len()
        invariant
            i <= activated_ids@.len(),
            strings_view(out@).no_duplicates(),
            forall|x: Seq<char>| #[trigger] strings_view(out@).contains(x) <==> (!is_blank(x) && exists|
                k: int,
            | 0 <= k < i && activated_ids@[k]@ == x),
        decreases activated_ids.len() - i,
    {
        add_id(&mut out, &activated_ids[i]);
        proof {
            assert forall|x: Seq<char>| #[trigger] strings_view(out@).contains(x) <==> (!is_blank(x)
                && exists|k: int| 0 <= k < i + 1 && activated_ids@[k]@ == x) by {
                if exists|k: int| 0 <= k < i + 1 && activated_ids@[k]@ == x {
                    let k = choose|k: int| 0 <= k < i + 1 && activated_ids@[k]@ == x;
                    if k < i {
                    }
                }
            }
        }
        i = i + 1;
    }
    proof {
        assert forall|x: Seq<char>| (exists|k: int| 0 <= k < activated_ids@.len() && activated_ids@[k]@ == x)
            <==> strings_view(activated_ids@).contains(x) by {
            if exists|k: int| 0 <= k < activated_ids@.len() && activated_ids@[k]@ == x {
                let k = choose|k: int| 0 <= k < activated_ids@.len() && activated_ids@[k]@ == x;
                assert(strings_view(activated_ids@)[k] == x);
            }
            if strings_view(activated_ids@).contains(x) {
                let k = choose|k: int| 0 <= k < strings_view(activated_ids@).len() && strings_view(activated_ids@)[k] == x;
                assert(activated_ids@[k]@ == x);
            }
        }
    }
    let ghost base = strings_view(out@);
    let mut c: usize = 0;
    while c < buffered_chunk_ids.len()
        invariant
            c <= buffered_chunk_ids@.len(),
            strings_view(out@).no_duplicates(),
            forall|x: Seq<char>| #[trigger] strings_view(out@).contains(x) <==> (!is_blank(x) && (
            strings_view(activated_ids@).contains(x) || exists|d: int|
                0 <= d < c && #[trigger] strings_view(buffered_chunk_ids@[d]@).contains(x))),
        decreases buffered_chunk_ids.len() - c,
    {
        let ids = &buffered_chunk_ids[c];
        let mut j: usize = 0;
        while j < ids.len()
            invariant
                j <= ids@.len(),
                ids == buffered_chunk_ids@[c as int],
                c < buffered_chunk_ids@.len(),
                strings_view(out@).no_duplicates(),
                forall|x: Seq<char>| #[trigger] strings_view(out@).contains(x) <==> (!is_blank(x) && (
                strings_view(activated_ids@).contains(x) || (exists|d: int|
                    0 <= d < c && #[trigger] strings_view(buffered_chunk_ids@[d]@).contains(x))
                    || exists|k: int| 0 <= k < j && ids@[k]@ == x)),
            decreases ids.len() - j,
        {
            add_id(&mut out, &ids[j]);
            proof {
                assert forall|x: Seq<char>| #[trigger] strings_view(out@).contains(x) <==> (!is_blank(x)
                    && (strings_view(activated_ids@).contains(x) || (exists|d: int|
                    0 <= d < c && #[trigger] strings_view(buffered_chunk_ids@[d]@).contains(x))
                    || exists|k: int| 0 <= k < j + 1 && ids@[k]@ == x)) by {
                    if exists|k: int| 0 <= k < j + 1 && ids@[k]@ == x {
                        let k = choose|k: int| 0 <= k < j + 1 && ids@[k]@ == x;
                        if k < j {
                        }
                    }
                }
            }
            j = j + 1;
        }
        proof {
            assert forall|x: Seq<char>| #[trigger] strings_view(out@).contains(x) <==> (!is_blank(x) && (
            strings_view(activated_ids@).contains(x) || exists|d: int|
                0 <= d < c + 1 && #[trigger] strings_view(buffered_chunk_ids@[d]@).contains(x))) by {
                let here = exists|k: int| 0 <= k < ids@.len() && ids@[k]@ == x;
                if here {
                    let k = choose|k: int| 0 <= k < ids@.len() && ids@[k]@ == x;
                    assert(strings_view(ids@)[k] == x);
                    assert(strings_view(buffered_chunk_ids@[c as int]@).contains(x));
                }
                if strings_view(buffered_chunk_ids@[c as int]@).contains(x) {
                    let k = choose|k: int| 0 <= k < strings_view(ids@).len() && strings_view(ids@)[k] == x;
                    assert(ids@[k]@ == x);
                }
            }
        }
        c = c + 1;
    }
    out
}

fn add_id(out: &mut Vec<String>, id: &String)
    requires
        strings_view(old(out)@).no_duplicates(),
    ensures
        strings_view(final(out)@).no_duplicates(),
        forall|x: Seq<char>| #[trigger] strings_view(final(out)@).contains(x) <==> (strings_view(
            old(out)@,
        ).contains(x) || (x == id@ && !is_blank(id@))),
{
    if is_blank_str(id.as_str()) {
        return ;
    }
    let v = chars_of(id.as_str());
    let mut k: usize = 0;
    while k < out.len()
        invariant
            k <= out@.len(),
            v@ == id@,
            out@ == old(out)@,
            strings_view(out@).no_duplicates(),
            forall|m: int| 0 <= m < k ==> out@[m]@ != id@,
        decreases out.len() - k,
    {
        if chars_eq(&chars_of(out[k].as_str()), &v) {
            assert(strings_view(out@)[k as int] == id@);
            return ;
        }
        k = k + 1;
    }
    let ghost before = strings_view(out@);
    assert(!before.contains(id@)) by {
        if before.contains(id@) {
            let m = choose|m: int| 0 <= m < before.len() && before[m] == id@;
            assert(out@[m]@ == id@);
        }
    }
    out.push(string_of(&v));
    assert(strings_view(out@) =~= before.push(id@));
    assert forall|x: Seq<char>| #[trigger] strings_view(out@).contains(x) <==> (before.contains(x) || x
        == id@) by {
        if strings_view(out@).contains(x) {
            let m = choose|m: int| 0 <= m < strings_view(out@).len() && strings_view(out@)[m] == x;
            if m < before.len() {
                assert(before[m] == x);
            }
        }
        if before.contains(x) {
            let m = choose|m: int| 0 <= m < before.len() && before[m] == x;
            assert(strings_view(out@)[m] == x);
        }
        if x == id@ {
            assert(strings_view(out@)[before.len() as int] == x);
        }
    }
}

// ---------------------------------------------------------------------------
// Continuation updates after an observer pass
// ---------------------------------------------------------------------------

/// What an observer pass says about one thread (its canonical id resolved).
#[derive(Debug, Clone, PartialEq, Eq)]
pub struct ThreadContinuation {
    pub canonical_thread_id: String,
    pub current_task: Option<String>,
    pub suggested_response: Option<String>,
}

/// A continuation state to store.
#[derive(Debug, Clone, PartialEq, Eq)]
pub struct ContinuationUpdate {
    pub canonical_thread_id: String,
    pub current_task: Option<String>,
    pub suggested_response: Option<String>,
    pub confidence_milli: u16,
    pub source_kind: &'static str,
}

pub type HintPair = (Option<Seq<char>>, Option<Seq<char>>);

pub open spec fn opt_string_view(o: Option<String>) -> Option<Seq<char>> {
    match o {
        Some(s) => Some(s@),
        None => None,
    }
}

/// The hints a thread contributes: its task, and its suggested response
/// unless responses are skipped; both trimmed, blank ones dropped.
pub open spec fn thread_hints(t: ThreadContinuation, allow_response: bool) -> HintPair {
    (
        normalized_optional(opt_string_view(t.current_task)),
        if allow_response {
            normalized_optional(opt_string_view(t.suggested_response))
        } else {
            None
        },
    )
}

/// The hints by thread after the first `n` threads: a thread with any hint
/// replaces what an earlier one with the same id gave.
pub open spec fn thread_hint_map(ts: Seq<ThreadContinuation>, n: int, allow_response: bool) -> Seq<
    (Seq<char>, HintPair),
>
    decreases n,
{
    if n <= 0 {
        Seq::empty()
    } else {
        let prev = thread_hint_map(ts, n - 1, allow_response);
        let h = thread_hints(ts[n - 1], allow_response);
        if h.0 is None && h.1 is None {
            prev
        } else {
            sorted_put(prev, ts[n - 1].canonical_thread_id@, h)
        }
    }
}

pub open spec fn lookup_hint(s: Seq<(Seq<char>, HintPair)>, k: Seq<char>) -> HintPair
    decreases s.len(),
{
    if s.len() == 0 {
        (None, None)
    } else if s[0].0 == k {
        s[0].1
    } else {
        lookup_hint(s.drop_first(), k)
    }
}

pub open spec fn or_else(a: Option<Seq<char>>, b: Option<Seq<char>>) -> Option<Seq<char>> {
    if a is Some {
        a
    } else {
        b
    }
}

/// The hints by thread for a non-session scope: the threads' own hints,
/// with the pass's primary hints filling what the primary thread lacks.
pub open spec fn continuation_hint_map(
    ts: Seq<ThreadContinuation>,
    primary_thread_id: Seq<char>,
    primary: HintPair,
    allow_response: bool,
) -> Seq<(Seq<char>, HintPair)> {
    let m = thread_hint_map(ts, ts.len() as int, allow_response);
    if primary.0 is None && primary.1 is None {
        m
    } else {
        let cur = lookup_hint(m, primary_thread_id);
        sorted_put(m, primary_thread_id, (or_else(cur.0, primary.0), or_else(cur.1, primary.1)))
    }
}

pub open spec fn confidence_of(h: HintPair) -> u16 {
    if h.0 is Some && h.1 is Some {
        920
    } else if h.0 is Some || h.1 is Some {
        820
    } else {
        0
    }
}

pub open spec fn updates_view(v: Seq<ContinuationUpdate>) -> Seq<(Seq<char>, HintPair)> {
    v.map_values(
        |u: ContinuationUpdate|
            (u.canonical_thread_id@, (opt_string_view(u.current_task), opt_string_view(u.suggested_response))),
    )
}

pub open spec fn source_kind_for(skip_continuation_hints: bool) -> Seq<char> {
    if skip_continuation_hints {
        "observer_interval"@
    } else {
        "observer"@
    }
}

fn opt_str(o: &Option<String>) -> (r: Option<&str>)
    ensures
        opt_view(r) == opt_string_view(*o),
{
    match o {
        Some(s) => Some(s.as_str()),
        None => None,
    }
}

fn hints_exec(task: Option<&str>, response: Option<&str>, allow_response: bool) -> (r: (Option<String>, Option<String>))
    ensures
        opt_string_view(r.0) == normalized_optional(opt_view(task)),
        opt_string_view(r.1) == if allow_response {
            normalized_optional(opt_view(response))
        } else {
            None
        },
{
    let t = normalize_optional_text(task);
    let r = if allow_response {
        normalize_optional_text(response)
    } else {
        None
    };
    (t, r)
}

pub open spec fn hint_list_view(v: Seq<(String, (Option<String>, Option<String>))>) -> Seq<
    (Seq<char>, HintPair),
> {
    v.map_values(
        |e: (String, (Option<String>, Option<String>))|
            (e.0@, (opt_string_view(e.1.0), opt_string_view(e.1.1))),
    )
}

fn put_hint(list: &mut Vec<(String, (Option<String>, Option<String>))>, k: &str, h: (Option<String>, Option<String>))
    ensures
        hint_list_view(final(list)@) == sorted_put(
            hint_list_view(old(list)@),
            k@,
            (opt_string_view(h.0), opt_string_view(h.1)),
        ),
{
    let ghost s = hint_list_view(list@);
    let ghost w = (opt_string_view(h.0), opt_string_view(h.1));
    let kv = chars_of(k);
    let mut p: usize = 0;
    while p < list.len() && chars_lt(&chars_of(list[p].0.as_str()), &kv)
        invariant
            p <= list@.len(),
            s == hint_list_view(list@),
            kv@ == k@,
            forall|i: int| 0 <= i < p ==> seq_lt(#[trigger] s[i].0, k@),
        decreases list.len() - p,
    {
        p = p + 1;
    }
    proof {
        lemma_sorted_put_at(s, k@, w, p as int);
    }
    if p < list.len() && chars_eq(&chars_of(list[p].0.as_str()), &kv) {
        list.set(p, (string_of(&kv), h));
        assert(hint_list_view(list@) =~= s.update(p as int, (k@, w)));
    } else {
        list.insert(p, (string_of(&kv), h));
        assert(hint_list_view(list@) =~= s.insert(p as int, (k@, w)));
    }
}

fn lookup_hint_exec(list: &Vec<(String, (Option<String>, Option<String>))>, k: &str) -> (r: (
    Option<String>,
    Option<String>,
))
    ensures
        (opt_string_view(r.0), opt_string_view(r.1)) == lookup_hint(hint_list_view(list@), k@),
{
    let ghost s = hint_list_view(list@);
    let kv = chars_of(k);
    let mut i: usize = 0;
    assert(s.skip(0) =~= s);
    while i < list.len()
        invariant
            i <= list@.len(),
            s == hint_list_view(list@),
            kv@ == k@,
            lookup_hint(s, k@) == lookup_hint(s.skip(i as int), k@),
        decreases list.len() - i,
    {
        assert(s.skip(i as int)[0] == s[i as int]);
        if chars_eq(&chars_of(list[i].0.as_str()), &kv) {
            let a = match &list[i].1.0 {
                Some(x) => Some(string_of(&chars_of(x.as_str()))),
                None => None,
            };
            let b = match &list[i].1.1 {
                Some(x) => Some(string_of(&chars_of(x.as_str()))),
                None => None,
            };
            return (a, b);
        }
        assert(s.skip(i as int).drop_first() =~= s.skip(i + 1));
        i = i + 1;
    }
    assert(s.skip(i as int).len() == 0);
    (None, None)
}

/// The continuation states an observer pass stores. In the session scope
/// there is one, for the session's thread, whatever its hints; in other
/// scopes there is one per thread with a hint, in thread id order, the
/// primary hints filling gaps of the primary thread. Suggested responses
/// are dropped when continuation hints are skipped, and the source is then
/// `observer_interval` instead of `observer`.
pub fn plan_observer_continuation_updates(
    session_scope: bool,
    threads: &Vec<ThreadContinuation>,
    primary_thread_id: &str,
    primary_task: Option<&str>,
    primary_response: Option<&str>,
    skip_continuation_hints: bool,
) -> (out: Vec<ContinuationUpdate>)
    ensures
        ({
            let allow = !skip_continuation_hints;
            let primary = (
                normalized_optional(opt_view(primary_task)),
                if allow {
                    normalized_optional(opt_view(primary_response))
                } else {
                    None
                },
            );
            &&& updates_view(out@) == if session_scope {
                seq![(primary_thread_id@, primary)]
            } else {
                continuation_hint_map(threads@, primary_thread_id@, primary, allow)
            }
            &&& forall|i: int| 0 <= i < out@.len() ==> #[trigger] out@[i].confidence_milli == confidence_of(updates_view(out@)[i].1)
            &&& forall|i: int| 0 <= i < out@.len() ==> (#[trigger] out@[i].source_kind)@ == source_kind_for(skip_continuation_hints)
        }),
{
    let allow = !skip_continuation_hints;
    let kind: &'static str = if skip_continuation_hints {
        "observer_interval"
    } else {
        "observer"
    };
    let (pt, pr) = hints_exec(primary_task, primary_response, allow);
    let mut list: Vec<(String, (Option<String>, Option<String>))> = Vec::new();
    if session_scope {
        list.push((string_of(&chars_of(primary_thread_id)), (pt, pr)));
        assert(hint_list_view(list@) =~= seq![(primary_thread_id@, (opt_string_view(pt), opt_string_view(pr)))]);
    } else {
        let mut i: usize = 0;
        assert(hint_list_view(list@) =~= Seq::<(Seq<char>, HintPair)>::empty());
        while i < threads.len()
            invariant
                i <= threads@.len(),
                hint_list_view(list@) == thread_hint_map(threads@, i as int, allow),
            decreases threads.len() - i,
        {
            let t = &threads[i];
            let h = hints_exec(opt_str(&t.current_task), opt_str(&t.suggested_response), allow);
            if h.0.is_some() || h.1.is_some() {
                put_hint(&mut list, t.canonical_thread_id.as_str(), h);
            }
            i = i + 1;
        }
        if pt.is_some() || pr.is_some() {
            let cur = lookup_hint_exec(&list, primary_thread_id);
            let a = match cur.0 {
                Some(x) => Some(x),
                None => pt,
            };
            let b = match cur.1 {
                Some(x) => Some(x),
                None => pr,
            };
            put_hint(&mut list, primary_thread_id, (a, b));
        }
    }
    let ghost lv = hint_list_view(list@);
    let mut out: Vec<ContinuationUpdate> = Vec::new();
    let mut k: usize = 0;
    while k < list.len()
        invariant
            k <= list@.len(),
            lv == hint_list_view(list@),
            kind@ == source_kind_for(skip_continuation_hints),
            updates_view(out@) == lv.take(k as int),
            forall|i: int| 0 <= i < out@.len() ==> #[trigger] out@[i].confidence_milli == confidence_of(updates_view(out@)[i].1),
            forall|i: int| 0 <= i < out@.len() ==> (#[trigger] out@[i].source_kind)@ == source_kind_for(skip_continuation_hints),
        decreases list.len() - k,
    {
        let e = &list[k];
        let task = match &e.1.0 {
            Some(x) => Some(string_of(&chars_of(x.as_str()))),
            None => None,
        };
        let resp = match &e.1.1 {
            Some(x) => Some(string_of(&chars_of(x.as_str()))),
            None => None,
        };
        let conf: u16 = if task.is_some() && resp.is_some() {
            920
        } else if task.is_some() || resp.is_some() {
            820
        } else {
            0
        };
        let ghost before = updates_view(out@);
        out.push(
            ContinuationUpdate {
                canonical_thread_id: string_of(&chars_of(e.0.as_str())),
                current_task: task,
                suggested_response: resp,
                confidence_milli: conf,
                source_kind: kind,
            },
        );
        assert(updates_view(out@) =~= before.push(lv[k as int]));
        assert(lv.take(k + 1) =~= lv.take(k as int).push(lv[k as int]));
        k = k + 1;
    }
    assert(lv.take(list@.len() as int) =~= lv);
    out
}

proof fn lemma_thread_hint_map_ascending(ts: Seq<ThreadContinuation>, n: int, allow: bool)
    ensures
        keys_ascending(thread_hint_map(ts, n, allow)),
    decreases n,
{
    if n > 0 {
        lemma_thread_hint_map_ascending(ts, n - 1, allow);
        let prev = thread_hint_map(ts, n - 1, allow);
        lemma_sorted_put_ascending(prev, ts[n - 1].canonical_thread_id@, thread_hints(ts[n - 1], allow));
    }
}

/// Outside the session scope, each thread gets at most one update and the
/// updates come in ascending thread id order.
pub proof fn lemma_continuation_updates_ascending(
    ts: Seq<ThreadContinuation>,
    primary_thread_id: Seq<char>,
    primary: HintPair,
    allow: bool,
)
    ensures
        keys_ascending(continuation_hint_map(ts, primary_thread_id, primary, allow)),
{
    lemma_thread_hint_map_ascending(ts, ts.len() as int, allow);
    let m = thread_hint_map(ts, ts.len() as int, allow);
    let cur = lookup_hint(m, primary_thread_id);
    lemma_sorted_put_ascending(m, primary_thread_id, (or_else(cur.0, primary.0), or_else(cur.1, primary.1)));
}

} // verus!
