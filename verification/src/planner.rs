use vstd::prelude::*;

use crate::scope::{Scope, scope_name};
use crate::text::{
    ascii_lower, ascii_lowercase, chars_eq, chars_eq_str, chars_lt, chars_of, contains_chars,
    contains_seq, extend_chars, find_char, first_index_of, lemma_seq_lt_irreflexive,
    lowercase_of_str, push_char, seq_lt, starts_with, starts_with_chars, str_lowercase, string_of,
    string_of_range, sub_vec, to_ascii_lower_char, to_ascii_lowercase, trim, trim_range,
    trim_start,
};

verus! {

// ---------------------------------------------------------------------------
// Scope sets
// ---------------------------------------------------------------------------

/// The position of a scope when scopes are sorted by name.
pub open spec fn scope_rank(s: Scope) -> nat {
    match s {
        Scope::Agent => 0,
        Scope::Queue => 1,
        Scope::Resources => 2,
        Scope::Session => 3,
        Scope::Temp => 4,
        Scope::User => 5,
    }
}

pub open spec fn scope_of_rank(r: nat) -> Scope {
    if r == 0 {
        Scope::Agent
    } else if r == 1 {
        Scope::Queue
    } else if r == 2 {
        Scope::Resources
    } else if r == 3 {
        Scope::Session
    } else if r == 4 {
        Scope::Temp
    } else {
        Scope::User
    }
}

/// The scopes of `s` whose rank is at least `r`, once each, by rank.
pub open spec fn scopes_from_rank(s: Seq<Scope>, r: nat) -> Seq<Scope>
    decreases 6 - r,
{
    if r >= 6 {
        Seq::empty()
    } else if s.contains(scope_of_rank(r)) {
        seq![scope_of_rank(r)] + scopes_from_rank(s, r + 1)
    } else {
        scopes_from_rank(s, r + 1)
    }
}

/// The scopes of `s` sorted by name, without duplicates.
pub open spec fn normalized_scopes(s: Seq<Scope>) -> Seq<Scope> {
    scopes_from_rank(s, 0)
}

/// Strictly increasing by name: sorted and free of duplicates.
pub open spec fn scopes_strictly_sorted(s: Seq<Scope>) -> bool {
    forall|i: int, j: int| 0 <= i < j < s.len() ==> seq_lt(scope_name(s[i]), scope_name(s[j]))
}

/// Lemma: the name order of scopes is the order of their ranks.
pub proof fn lemma_scope_name_order(a: Scope, b: Scope)
    ensures
        seq_lt(scope_name(a), scope_name(b)) <==> scope_rank(a) < scope_rank(b),
{
    let x = scope_name(a);
    let y = scope_name(b);
    assert(x.len() > 0 && y.len() > 0);
    assert(x[0] == y[0] <==> a == b);
    if a == b {
        lemma_seq_lt_irreflexive(x);
    } else {
        assert((x[0] < y[0]) <==> scope_rank(a) < scope_rank(b));
    }
}

proof fn lemma_scopes_from_rank(s: Seq<Scope>, r: nat)
    ensures
        forall|k: int|
            0 <= k < scopes_from_rank(s, r).len() ==> scope_rank(
                #[trigger] scopes_from_rank(s, r)[k],
            ) >= r,
        forall|i: int, j: int|
            0 <= i < j < scopes_from_rank(s, r).len() ==> scope_rank(scopes_from_rank(s, r)[i])
                < scope_rank(scopes_from_rank(s, r)[j]),
        forall|x: Scope|
            #[trigger] scopes_from_rank(s, r).contains(x) <==> (s.contains(x) && scope_rank(x)
                >= r),
    decreases 6 - r,
{
    if r < 6 {
        lemma_scopes_from_rank(s, r + 1);
        let rest = scopes_from_rank(s, r + 1);
        assert forall|x: Scope| #[trigger]
            scopes_from_rank(s, r).contains(x) <==> (s.contains(x) && scope_rank(x) >= r) by {
            if scope_rank(x) == r {
                assert(x == scope_of_rank(r));
            }
            if s.contains(scope_of_rank(r)) {
                assert(scopes_from_rank(s, r) == seq![scope_of_rank(r)] + rest);
                if rest.contains(x) {
                    let k = choose|k: int| 0 <= k < rest.len() && rest[k] == x;
                    assert(scopes_from_rank(s, r)[k + 1] == x);
                }
                if scopes_from_rank(s, r).contains(x) && x != scope_of_rank(r) {
                    let k = choose|k: int|
                        0 <= k < scopes_from_rank(s, r).len() && scopes_from_rank(s, r)[k] == x;
                    assert(rest[k - 1] == x);
                }
                if x == scope_of_rank(r) {
                    assert(scopes_from_rank(s, r)[0] == x);
                }
            }
        }
    } else {
        assert forall|x: Scope| #[trigger]
            scopes_from_rank(s, r).contains(x) <==> (s.contains(x) && scope_rank(x) >= r) by {
            assert(scope_rank(x) < 6);
        }
    }
}

/// Law: normalized scopes hold the same scopes as the input, each once,
/// sorted by name.
pub proof fn lemma_normalized_scopes(s: Seq<Scope>)
    ensures
        normalized_scopes(s).to_set() == s.to_set(),
        scopes_strictly_sorted(normalized_scopes(s)),
{
    lemma_scopes_from_rank(s, 0);
    let n = normalized_scopes(s);
    assert(n.to_set() =~= s.to_set());
    assert forall|i: int, j: int| 0 <= i < j < n.len() implies seq_lt(
        scope_name(n[i]),
        scope_name(n[j]),
    ) by {
        lemma_scope_name_order(n[i], n[j]);
    }
}

/// Law: normalizing twice changes nothing.
pub proof fn lemma_normalized_scopes_idempotent(s: Seq<Scope>)
    ensures
        normalized_scopes(normalized_scopes(s)) == normalized_scopes(s),
{
    lemma_scopes_from_rank(s, 0);
    lemma_scopes_from_rank(normalized_scopes(s), 0);
    lemma_normalized_equal_sets(normalized_scopes(s), s, 0);
}

proof fn lemma_normalized_equal_sets(a: Seq<Scope>, b: Seq<Scope>, r: nat)
    requires
        forall|x: Scope| a.contains(x) <==> b.contains(x),
    ensures
        scopes_from_rank(a, r) == scopes_from_rank(b, r),
    decreases 6 - r,
{
    if r < 6 {
        lemma_normalized_equal_sets(a, b, r + 1);
    }
}

fn scope_of_rank_exec(r: u8) -> (s: Scope)
    ensures
        s == scope_of_rank(r as nat),
{
    if r == 0 {
        Scope::Agent
    } else if r == 1 {
        Scope::Queue
    } else if r == 2 {
        Scope::Resources
    } else if r == 3 {
        Scope::Session
    } else if r == 4 {
        Scope::Temp
    } else {
        Scope::User
    }
}

fn contains_scope(scopes: &Vec<Scope>, s: Scope) -> (r: bool)
    ensures
        r == scopes@.contains(s),
{
    let mut i: usize = 0;
    while i < scopes.len()
        invariant
            i <= scopes@.len(),
            forall|k: int| 0 <= k < i ==> scopes@[k] != s,
        decreases scopes.len() - i,
    {
        if scopes[i] == s {
            assert(scopes@[i as int] == s);
            return true;
        }
        i = i + 1;
    }
    false
}

fn scopes_eq(a: &Vec<Scope>, b: &Vec<Scope>) -> (r: bool)
    ensures
        r == (a@ == b@),
{
    if a.len() != b.len() {
        return false;
    }
    let mut i: usize = 0;
    while i < a.len()
        invariant
            a@.len() == b@.len(),
            i <= a@.len(),
            forall|k: int| 0 <= k < i ==> a@[k] == b@[k],
        decreases a.len() - i,
    {
        if a[i] != b[i] {
            return false;
        }
        i = i + 1;
    }
    assert(a@ =~= b@);
    true
}

fn copy_scopes(a: &Vec<Scope>) -> (out: Vec<Scope>)
    ensures
        out@ == a@,
{
    let mut out: Vec<Scope> = Vec::new();
    let mut i: usize = 0;
    while i < a.len()
        invariant
            i <= a@.len(),
            out@ == a@.subrange(0, i as int),
        decreases a.len() - i,
    {
        out.push(a[i]);
        assert(a@.subrange(0, i + 1) =~= a@.subrange(0, i as int).push(a@[i as int]));
        i = i + 1;
    }
    assert(a@.subrange(0, a@.len() as int) =~= a@);
    out
}

/// Sorts scopes by name and drops duplicates: the result holds exactly the
/// scopes of the input, each once, in strictly increasing name order.
pub fn normalize_scopes(scopes: Vec<Scope>) -> (out: Vec<Scope>)
    ensures
        out@ == normalized_scopes(scopes@),
        out@.to_set() == scopes@.to_set(),
        scopes_strictly_sorted(out@),
{
    let mut out: Vec<Scope> = Vec::new();
    let mut r: u8 = 0;
    while r < 6
        invariant
            r <= 6,
            out@ + scopes_from_rank(scopes@, r as nat) == normalized_scopes(scopes@),
        decreases 6 - r,
    {
        let s = scope_of_rank_exec(r);
        if contains_scope(&scopes, s) {
            let ghost before = out@;
            out.push(s);
            assert(before + scopes_from_rank(scopes@, r as nat) =~= out@ + scopes_from_rank(
                scopes@,
                (r + 1) as nat,
            ));
        }
        r = r + 1;
    }
    assert(out@ =~= normalized_scopes(scopes@));
    proof {
        lemma_normalized_scopes(scopes@);
    }
    out
}

// ---------------------------------------------------------------------------
// Planned queries
// ---------------------------------------------------------------------------

/// One query of a retrieval plan.
#[derive(Debug)]
pub struct PlannedQuery {
    pub kind: String,
    pub query: String,
    pub scopes: Vec<Scope>,
    pub priority: u8,
}

/// The mathematical content of a planned query.
pub struct QueryView {
    pub kind: Seq<char>,
    pub query: Seq<char>,
    pub scopes: Seq<Scope>,
    pub priority: u8,
}

impl View for PlannedQuery {
    type V = QueryView;

    open spec fn view(&self) -> QueryView {
        QueryView {
            kind: self.kind@,
            query: self.query@,
            scopes: self.scopes@,
            priority: self.priority,
        }
    }
}

pub open spec fn query_view(kind: Seq<char>, query: Seq<char>, scopes: Seq<Scope>, priority: u8) -> QueryView {
    QueryView { kind, query, scopes: normalized_scopes(scopes), priority }
}

pub open spec fn views_of(v: Seq<PlannedQuery>) -> Seq<QueryView> {
    v.map_values(|q: PlannedQuery| q@)
}

impl PlannedQuery {
    /// A planned query with its scopes normalized.
    pub fn new(kind: &str, query: String, scopes: Vec<Scope>, priority: u8) -> (q: Self)
        ensures
            q@ == query_view(kind@, query@, scopes@, priority),
    {
        PlannedQuery {
            kind: string_of(&chars_of(kind)),
            query,
            scopes: normalize_scopes(scopes),
            priority,
        }
    }
}

/// The order in which plans are sorted: by priority, then kind, then query.
pub open spec fn query_lt(a: QueryView, b: QueryView) -> bool {
    ||| a.priority < b.priority
    ||| a.priority == b.priority && seq_lt(a.kind, b.kind)
    ||| a.priority == b.priority && a.kind == b.kind && seq_lt(a.query, b.query)
}

/// Stable insertion of `x` into `s`: after every element that is not
/// greater than `x`.
pub open spec fn insert_stable(s: Seq<QueryView>, x: QueryView) -> Seq<QueryView>
    decreases s.len(),
{
    if s.len() > 0 && query_lt(x, s.last()) {
        insert_stable(s.drop_last(), x).push(s.last())
    } else {
        s.push(x)
    }
}

/// The stable sort of `s` by `query_lt` (the order std's `sort_by` gives).
pub open spec fn sort_queries(s: Seq<QueryView>) -> Seq<QueryView>
    decreases s.len(),
{
    if s.len() == 0 {
        s
    } else {
        insert_stable(sort_queries(s.drop_last()), s.last())
    }
}

proof fn lemma_insert_stable(s: Seq<QueryView>, x: QueryView, k: int)
    requires
        0 <= k <= s.len(),
        forall|j: int| k <= j < s.len() ==> query_lt(x, #[trigger] s[j]),
        k == 0 || !query_lt(x, s[k - 1]),
    ensures
        insert_stable(s, x) == s.subrange(0, k).push(x) + s.subrange(k, s.len() as int),
    decreases s.len(),
{
    if s.len() > k {
        lemma_insert_stable(s.drop_last(), x, k);
        assert(s.drop_last().subrange(0, k) =~= s.subrange(0, k));
        assert(s.drop_last().subrange(k, s.len() - 1).push(s.last()) =~= s.subrange(
            k,
            s.len() as int,
        ));
        assert(insert_stable(s, x) =~= s.subrange(0, k).push(x) + s.subrange(k, s.len() as int));
    } else {
        assert(s.subrange(0, k) =~= s);
        assert(s.subrange(k, s.len() as int) =~= Seq::<QueryView>::empty());
        assert(insert_stable(s, x) =~= s.subrange(0, k).push(x) + s.subrange(k, s.len() as int));
    }
}

fn string_chars(s: &String) -> (v: Vec<char>)
    ensures
        v@ == s@,
{
    chars_of(s.as_str())
}

fn query_lt_exec(a: &PlannedQuery, b: &PlannedQuery) -> (r: bool)
    ensures
        r == query_lt(a@, b@),
{
    if a.priority < b.priority {
        return true;
    }
    if a.priority != b.priority {
        return false;
    }
    let ak = string_chars(&a.kind);
    let bk = string_chars(&b.kind);
    if chars_lt(&ak, &bk) {
        return true;
    }
    if !chars_eq(&ak, &bk) {
        return false;
    }
    let aq = string_chars(&a.query);
    let bq = string_chars(&b.query);
    chars_lt(&aq, &bq)
}

/// Sorts planned queries stably by priority, kind and query.
pub fn sort_planned(planned: Vec<PlannedQuery>) -> (out: Vec<PlannedQuery>)
    ensures
        views_of(out@) == sort_queries(views_of(planned@)),
{
    let mut out: Vec<PlannedQuery> = Vec::new();
    let mut rest = planned;
    let ghost all = views_of(rest@);
    let ghost n = all.len();
    assert(views_of(out@) =~= sort_queries(all.subrange(0, 0)));
    while rest.len() > 0
        invariant
            rest@.len() <= n,
            n == all.len(),
            forall|j: int| 0 <= j < rest@.len() ==> rest@[j]@ == all[(n - rest@.len()) + j],
            views_of(out@) == sort_queries(all.subrange(0, n - rest@.len())),
        decreases rest.len(),
    {
        let ghost i = n - rest@.len();
        let x = rest.remove(0);
        assert(x@ == all[i]);
        let mut k = out.len();
        while k > 0 && query_lt_exec(&x, &out[k - 1])
            invariant
                k <= out@.len(),
                forall|j: int| k <= j < out@.len() ==> query_lt(x@, #[trigger] out@[j]@),
            decreases k,
        {
            k = k - 1;
        }
        proof {
            let s = views_of(out@);
            assert forall|j: int| k <= j < s.len() implies query_lt(x@, #[trigger] s[j]) by {
                assert(s[j] == out@[j]@);
            }
            if k > 0 {
                assert(s[k - 1] == out@[k - 1]@);
            }
            lemma_insert_stable(s, x@, k as int);
            assert(all.subrange(0, i + 1).drop_last() =~= all.subrange(0, i));
            assert(all.subrange(0, i + 1).last() == all[i]);
        }
        let ghost before = views_of(out@);
        out.insert(k, x);
        assert(views_of(out@) =~= before.subrange(0, k as int).push(x@) + before.subrange(
            k as int,
            before.len() as int,
        ));
    }
    assert(all.subrange(0, n as int) =~= all);
    out
}


// ---------------------------------------------------------------------------
// De-duplication
// ---------------------------------------------------------------------------

/// Two planned queries are duplicates when their lower-cased queries and
/// their scopes agree.
pub open spec fn same_query_key(a: QueryView, b: QueryView) -> bool {
    str_lowercase(a.query) == str_lowercase(b.query) && a.scopes == b.scopes
}

pub open spec fn key_seen(out: Seq<QueryView>, x: QueryView) -> bool {
    exists|j: int| 0 <= j < out.len() && same_query_key(#[trigger] out[j], x)
}

/// Keeps the first query of each key, in order, and stops once `max_len`
/// queries are kept.
pub open spec fn dedup_scan(s: Seq<QueryView>, i: int, out: Seq<QueryView>, max_len: nat) -> Seq<
    QueryView,
>
    decreases s.len() - i,
{
    if i < 0 || i >= s.len() {
        out
    } else if key_seen(out, s[i]) {
        dedup_scan(s, i + 1, out, max_len)
    } else if out.len() + 1 >= max_len {
        out.push(s[i])
    } else {
        dedup_scan(s, i + 1, out.push(s[i]), max_len)
    }
}

/// The plan used when nothing else remains.
pub open spec fn fallback_query() -> QueryView {
    query_view("primary"@, Seq::empty(), seq![Scope::Resources], 1)
}

/// Sorted, de-duplicated and limited plan.
pub open spec fn dedup_and_limit(s: Seq<QueryView>, max_len: nat) -> Seq<QueryView> {
    let out = dedup_scan(sort_queries(s), 0, Seq::empty(), max_len);
    if out.len() == 0 {
        seq![fallback_query()]
    } else {
        out
    }
}

fn lowered_query(q: &PlannedQuery) -> (v: Vec<char>)
    ensures
        v@ == str_lowercase(q.query@),
{
    let l = lowercase_of_str(q.query.as_str());
    string_chars(&l)
}

/// Sorts the plan by priority, kind and query, keeps the first query of
/// each (lower-cased query, scopes) key, stops after `max_len` queries, and
/// falls back to an empty primary query over resources when nothing is left.
pub fn dedup_and_limit_queries(planned: Vec<PlannedQuery>, max_len: usize) -> (out: Vec<
    PlannedQuery,
>)
    ensures
        views_of(out@) == dedup_and_limit(views_of(planned@), max_len as nat),
{
    let ghost input = views_of(planned@);
    let mut sorted = sort_planned(planned);
    let ghost s = views_of(sorted@);
    let mut out: Vec<PlannedQuery> = Vec::new();
    let mut keys: Vec<(Vec<char>, Vec<Scope>)> = Vec::new();
    let ghost n = s.len();
    assert(views_of(out@) =~= Seq::<QueryView>::empty());
    assert(s.subrange(0, 0) =~= Seq::<QueryView>::empty());
    let mut done = false;
    while sorted.len() > 0 && !done
        invariant
            sorted@.len() <= n,
            n == s.len(),
            forall|j: int| 0 <= j < sorted@.len() ==> sorted@[j]@ == s[(n - sorted@.len()) + j],
            keys@.len() == out@.len(),
            forall|j: int|
                0 <= j < keys@.len() ==> (#[trigger] keys@[j]).0@ == str_lowercase(
                    out@[j]@.query,
                ) && keys@[j].1@ == out@[j]@.scopes,
            !done ==> dedup_scan(s, 0, Seq::empty(), max_len as nat) == dedup_scan(
                s,
                n - sorted@.len(),
                views_of(out@),
                max_len as nat,
            ),
            done ==> dedup_scan(s, 0, Seq::empty(), max_len as nat) == views_of(out@),
        decreases sorted.len(),
    {
        let ghost i = n - sorted@.len();
        let item = sorted.remove(0);
        assert(item@ == s[i]);
        let lowered = lowered_query(&item);
        let mut seen = false;
        let mut j: usize = 0;
        while j < keys.len()
            invariant
                j <= keys@.len(),
                keys@.len() == out@.len(),
                forall|m: int|
                    0 <= m < keys@.len() ==> (#[trigger] keys@[m]).0@ == str_lowercase(
                        out@[m]@.query,
                    ) && keys@[m].1@ == out@[m]@.scopes,
                lowered@ == str_lowercase(item@.query),
                seen ==> key_seen(views_of(out@), item@),
                !seen ==> forall|m: int| 0 <= m < j ==> !same_query_key(out@[m]@, item@),
            decreases keys.len() - j,
        {
            if !seen && chars_eq(&keys[j].0, &lowered) && scopes_eq(&keys[j].1, &item.scopes) {
                seen = true;
                assert(views_of(out@)[j as int] == out@[j as int]@);
            }
            j = j + 1;
        }
        if seen {
            assert(dedup_scan(s, i, views_of(out@), max_len as nat) == dedup_scan(
                s,
                i + 1,
                views_of(out@),
                max_len as nat,
            ));
        } else {
            assert(!key_seen(views_of(out@), item@)) by {
                assert forall|m: int| 0 <= m < views_of(out@).len() implies !same_query_key(
                    #[trigger] views_of(out@)[m],
                    item@,
                ) by {
                    assert(views_of(out@)[m] == out@[m]@);
                }
            }
            let ghost before = views_of(out@);
            let scopes_copy = copy_scopes(&item.scopes);
            keys.push((lowered, scopes_copy));
            out.push(item);
            assert(views_of(out@) =~= before.push(s[i]));
            if out.len() >= max_len {
                done = true;
            }
        }
    }
    let ghost kept = dedup_scan(s, 0, Seq::empty(), max_len as nat);
    assert(kept == views_of(out@));
    if out.len() == 0 {
        let mut scopes: Vec<Scope> = Vec::new();
        scopes.push(Scope::Resources);
        assert(scopes@ =~= seq![Scope::Resources]);
        out.push(PlannedQuery::new("primary", String::new(), scopes, 1));
        assert(views_of(out@) =~= seq![fallback_query()]);
    }
    out
}

// ---------------------------------------------------------------------------
// Query intent
// ---------------------------------------------------------------------------

/// Which focused plans a query asks for.
#[derive(Debug, Clone, Copy)]
pub struct QueryIntent {
    pub wants_skill: bool,
    pub wants_memory: bool,
}

/// A query wants skills when its lower-cased text mentions "skill", and
/// memory when it mentions "memory", "preference" or "prefer".
pub open spec fn intent_of(query: Seq<char>) -> QueryIntent {
    let q = str_lowercase(query);
    QueryIntent {
        wants_skill: contains_seq(q, "skill"@),
        wants_memory: contains_seq(q, "memory"@) || contains_seq(q, "preference"@) || contains_seq(
            q,
            "prefer"@,
        ),
    }
}

pub fn query_intent(query: &str) -> (intent: QueryIntent)
    ensures
        intent == intent_of(query@),
{
    let lowered = lowercase_of_str(query);
    let q = string_chars(&lowered);
    let wants_skill = contains_chars(&q, &chars_of("skill"));
    let wants_memory = contains_chars(&q, &chars_of("memory")) || contains_chars(
        &q,
        &chars_of("preference"),
    ) || contains_chars(&q, &chars_of("prefer"));
    QueryIntent { wants_skill, wants_memory }
}

/// The scopes a query starts from: the target's scope, else agent for skill
/// queries, user and agent for memory queries, resources otherwise.
pub open spec fn intent_scopes_of(intent: QueryIntent, target: Option<Scope>) -> Seq<Scope> {
    match target {
        Some(t) => seq![t],
        None => if intent.wants_skill {
            seq![Scope::Agent]
        } else if intent.wants_memory {
            seq![Scope::User, Scope::Agent]
        } else {
            seq![Scope::Resources]
        },
    }
}

pub fn intent_scopes(intent: QueryIntent, target: Option<Scope>) -> (out: Vec<Scope>)
    ensures
        out@ == intent_scopes_of(intent, target),
{
    let mut out: Vec<Scope> = Vec::new();
    match target {
        Some(t) => {
            out.push(t);
        },
        None => {
            if intent.wants_skill {
                out.push(Scope::Agent);
            } else if intent.wants_memory {
                out.push(Scope::User);
                out.push(Scope::Agent);
            } else {
                out.push(Scope::Resources);
            }
        },
    }
    assert(out@ =~= intent_scopes_of(intent, target));
    out
}

// ---------------------------------------------------------------------------
// Session hints
// ---------------------------------------------------------------------------

/// A hint is an OM hint when, after leading whitespace, it starts with
/// "om:" in any ASCII case.
pub open spec fn is_om_hint_text(text: Seq<char>) -> bool {
    let t = trim_start(text);
    t.len() >= 3 && ascii_lower(t[0]) == 'o' && ascii_lower(t[1]) == 'm' && t[2] == ':'
}

pub fn is_om_hint(text: &str) -> (r: bool)
    ensures
        r == is_om_hint_text(text@),
{
    let v = chars_of(text);
    let (a, _b) = trim_range(&v, 0, v.len());
    assert(v@.subrange(0, v@.len() as int) =~= v@);
    let ghost t = trim_start(v@);
    assert(t =~= v@.subrange(a as int, v@.len() as int));
    if v.len() - a < 3 {
        return false;
    }
    to_ascii_lower_char(v[a]) == 'o' && to_ascii_lower_char(v[a + 1]) == 'm' && v[a + 2] == ':'
}

/// The trimmed hints that are neither OM hints nor blank, in order.
pub open spec fn kept_hints(hints: Seq<Seq<char>>) -> Seq<Seq<char>>
    decreases hints.len(),
{
    if hints.len() == 0 {
        Seq::empty()
    } else {
        let prev = kept_hints(hints.drop_last());
        let h = hints.last();
        if is_om_hint_text(h) || trim(h).len() == 0 {
            prev
        } else {
            prev.push(trim(h))
        }
    }
}

/// Joins parts with a single space.
pub open spec fn join_spaced(parts: Seq<Seq<char>>) -> Seq<char>
    decreases parts.len(),
{
    if parts.len() == 0 {
        Seq::empty()
    } else if parts.len() == 1 {
        parts[0]
    } else {
        join_spaced(parts.drop_last()).push(' ') + parts.last()
    }
}

pub open spec fn strings_view(v: Seq<String>) -> Seq<Seq<char>> {
    v.map_values(|s: String| s@)
}

/// The non-OM, non-blank hints, trimmed and joined with single spaces.
pub fn merge_non_om_hints(hints: &Vec<String>) -> (out: String)
    ensures
        out@ == join_spaced(kept_hints(strings_view(hints@))),
{
    let mut out: Vec<char> = Vec::new();
    let mut count: usize = 0;
    let mut i: usize = 0;
    let ghost all = strings_view(hints@);
    while i < hints.len()
        invariant
            i <= hints@.len(),
            all == strings_view(hints@),
            out@ == join_spaced(kept_hints(all.subrange(0, i as int))),
            count == kept_hints(all.subrange(0, i as int)).len(),
            count <= i,
        decreases hints.len() - i,
    {
        let ghost prev = kept_hints(all.subrange(0, i as int));
        assert(all.subrange(0, i + 1).drop_last() =~= all.subrange(0, i as int));
        assert(all.subrange(0, i + 1).last() == hints@[i as int]@);
        let h = &hints[i];
        if !is_om_hint(h.as_str()) {
            let v = string_chars(h);
            let (a, b) = trim_range(&v, 0, v.len());
            assert(v@.subrange(0, v@.len() as int) =~= v@);
            if a < b {
                if count > 0 {
                    out.push(' ');
                }
                let piece = sub_vec(&v, a, b);
                extend_chars(&mut out, &piece);
                count = count + 1;
                proof {
                    let next = prev.push(trim(hints@[i as int]@));
                    assert(next.drop_last() =~= prev);
                }
            }
        }
        i = i + 1;
    }
    assert(all.subrange(0, hints@.len() as int) =~= all);
    string_of(&out)
}

/// The text of an OM hint: trimmed, without an "om:" prefix (the part
/// before the first colon, trimmed, equal to "om" in any ASCII case).
pub open spec fn om_hint_body(text: Seq<char>) -> Seq<char> {
    let t = trim(text);
    match first_index_of(t, ':') {
        Some(p) => if ascii_lowercase(trim(t.subrange(0, p as int))) == "om"@ {
            trim(t.subrange(p as int + 1, t.len() as int))
        } else {
            t
        },
        None => t,
    }
}

pub open spec fn normalized_om_hint(text: Seq<char>) -> Option<Seq<char>> {
    if om_hint_body(text).len() == 0 {
        None
    } else {
        Some(om_hint_body(text))
    }
}

pub fn normalize_om_hint(text: &str) -> (r: Option<String>)
    ensures
        match r {
            Some(s) => normalized_om_hint(text@) == Some(s@),
            None => normalized_om_hint(text@) is None,
        },
{
    let all = chars_of(text);
    let (a, b) = trim_range(&all, 0, all.len());
    assert(all@.subrange(0, all@.len() as int) =~= all@);
    let t = sub_vec(&all, a, b);
    let ghost tt = trim(text@);
    assert(t@ == tt);
    assert(t@.skip(0) =~= t@);
    let found = find_char(&t, ':', 0);
    let (lo, hi) = match found {
        Some(p) => {
            let (pa, pb) = trim_range(&t, 0, p);
            let prefix = sub_vec(&t, pa, pb);
            let lowered = to_ascii_lowercase(&prefix);
            if chars_eq_str(&lowered, "om") {
                let (x, y) = trim_range(&t, p + 1, t.len());
                proof {
                    assert(first_index_of(tt, ':') == Some(p as nat));
                    assert(ascii_lowercase(trim(tt.subrange(0, p as int))) == "om"@);
                    assert(om_hint_body(text@) == trim(tt.subrange(p + 1, tt.len() as int)));
                }
                (x, y)
            } else {
                proof {
                    assert(first_index_of(tt, ':') == Some(p as nat));
                    assert(om_hint_body(text@) == tt);
                    assert(t@.subrange(0, t@.len() as int) =~= t@);
                }
                (0, t.len())
            }
        },
        None => {
            proof {
                assert(first_index_of(tt, ':') is None);
                assert(om_hint_body(text@) == tt);
                assert(t@.subrange(0, t@.len() as int) =~= t@);
            }
            (0, t.len())
        },
    };
    assert(t@.subrange(lo as int, hi as int) == om_hint_body(text@));
    assert(t@.subrange(0, t@.len() as int) =~= t@);
    if lo == hi {
        None
    } else {
        Some(string_of_range(&t, lo, hi))
    }
}

// ---------------------------------------------------------------------------
// Scope names of a plan and URI scope checks
// ---------------------------------------------------------------------------

/// All scopes of a plan, query by query.
pub open spec fn all_scopes(s: Seq<QueryView>) -> Seq<Scope>
    decreases s.len(),
{
    if s.len() == 0 {
        Seq::empty()
    } else {
        all_scopes(s.drop_last()) + s.last().scopes
    }
}

pub open spec fn scope_names(s: Seq<Scope>) -> Seq<Seq<char>> {
    s.map_values(|x: Scope| scope_name(x))
}

/// The names of the scopes a plan touches, sorted and distinct.
pub fn collect_scope_names(planned_queries: &Vec<PlannedQuery>) -> (out: Vec<String>)
    ensures
        strings_view(out@) == scope_names(normalized_scopes(all_scopes(views_of(planned_queries@)))),
{
    let mut scopes: Vec<Scope> = Vec::new();
    let mut i: usize = 0;
    let ghost all = views_of(planned_queries@);
    while i < planned_queries.len()
        invariant
            i <= planned_queries@.len(),
            all == views_of(planned_queries@),
            scopes@ == all_scopes(all.subrange(0, i as int)),
        decreases planned_queries.len() - i,
    {
        let q = &planned_queries[i];
        let mut k: usize = 0;
        let ghost start = scopes@;
        while k < q.scopes.len()
            invariant
                k <= q.scopes@.len(),
                scopes@ == start + q.scopes@.subrange(0, k as int),
            decreases q.scopes.len() - k,
        {
            scopes.push(q.scopes[k]);
            assert(q.scopes@.subrange(0, k + 1) =~= q.scopes@.subrange(0, k as int).push(
                q.scopes@[k as int],
            ));
            k = k + 1;
        }
        assert(q.scopes@.subrange(0, q.scopes@.len() as int) =~= q.scopes@);
        assert(all.subrange(0, i + 1).drop_last() =~= all.subrange(0, i as int));
        assert(all.subrange(0, i + 1).last() == q@);
        i = i + 1;
    }
    assert(all.subrange(0, planned_queries@.len() as int) =~= all);
    let normalized = normalize_scopes(scopes);
    let mut out: Vec<String> = Vec::new();
    let mut j: usize = 0;
    while j < normalized.len()
        invariant
            j <= normalized@.len(),
            strings_view(out@) == scope_names(normalized@.subrange(0, j as int)),
        decreases normalized.len() - j,
    {
        let name = string_of(&chars_of(normalized[j].as_str()));
        let ghost before = strings_view(out@);
        out.push(name);
        assert(strings_view(out@) =~= before.push(scope_name(normalized@[j as int])));
        assert(scope_names(normalized@.subrange(0, j + 1)) =~= scope_names(
            normalized@.subrange(0, j as int),
        ).push(scope_name(normalized@[j as int])));
        j = j + 1;
    }
    assert(normalized@.subrange(0, normalized@.len() as int) =~= normalized@);
    out
}

/// The scope segment of an `axiom://` URI: what comes before the first '/'
/// after the scheme.
pub open spec fn uri_scope_segment(uri: Seq<char>) -> Option<Seq<char>> {
    if starts_with(uri, "axiom://"@) {
        let tail = uri.skip(8);
        match first_index_of(tail, '/') {
            Some(p) => Some(tail.take(p as int)),
            None => Some(tail),
        }
    } else {
        None
    }
}

pub fn get_scope_str_from_uri(uri: &str) -> (r: Option<String>)
    ensures
        match r {
            Some(s) => uri_scope_segment(uri@) == Some(s@),
            None => uri_scope_segment(uri@) is None,
        },
{
    let v = chars_of(uri);
    let prefix = chars_of("axiom://");
    proof {
        reveal_strlit("axiom://");
    }
    if !starts_with_chars(&v, &prefix) {
        return None;
    }
    assert(prefix@.len() == 8);
    let found = find_char(&v, '/', 8);
    let end = match found {
        Some(p) => p,
        None => v.len(),
    };
    proof {
        let tail = v@.skip(8);
        match first_index_of(tail, '/') {
            Some(p) => {
                assert(end == p + 8);
                assert(tail.take(p as int) =~= v@.subrange(8, end as int));
            },
            None => {
                assert(tail =~= v@.subrange(8, end as int));
            },
        }
    }
    Some(string_of_range(&v, 8, end))
}

/// Whether a URI falls in one of the scopes (every URI does when no scope
/// is given).
pub open spec fn uri_in_scopes_spec(uri: Seq<char>, scopes: Seq<Scope>) -> bool {
    if scopes.len() == 0 {
        true
    } else {
        match uri_scope_segment(uri) {
            Some(seg) => exists|k: int| 0 <= k < scopes.len() && scope_name(scopes[k]) == seg,
            None => false,
        }
    }
}

pub fn uri_in_scopes(uri: &str, scopes: &Vec<Scope>) -> (r: bool)
    ensures
        r == uri_in_scopes_spec(uri@, scopes@),
{
    if scopes.len() == 0 {
        return true;
    }
    let seg = match get_scope_str_from_uri(uri) {
        Some(s) => string_chars(&s),
        None => {
            return false;
        },
    };
    let mut k: usize = 0;
    while k < scopes.len()
        invariant
            k <= scopes@.len(),
            uri_scope_segment(uri@) == Some(seg@),
            forall|m: int| 0 <= m < k ==> scope_name(scopes@[m]) != seg@,
        decreases scopes.len() - k,
    {
        let name = chars_of(scopes[k].as_str());
        if chars_eq(&name, &seg) {
            return true;
        }
        k = k + 1;
    }
    false
}


// ---------------------------------------------------------------------------
// Planning
// ---------------------------------------------------------------------------

/// What the planner reads of a search request.
#[derive(Debug)]
pub struct SearchOptions {
    pub query: String,
    pub request_type: String,
    /// The scope of the target URI, when the search is bounded by one.
    pub target_scope: Option<Scope>,
    pub session: Option<String>,
    pub session_hints: Vec<String>,
}

/// The first hint that is an OM hint.
pub open spec fn first_om_hint(hints: Seq<Seq<char>>) -> Option<Seq<char>>
    decreases hints.len(),
{
    if hints.len() == 0 {
        None
    } else if is_om_hint_text(hints[0]) {
        Some(hints[0])
    } else {
        first_om_hint(hints.drop_first())
    }
}

/// The queries a search request expands to, before sorting and
/// de-duplication.
pub open spec fn plan_candidates(
    query: Seq<char>,
    request_type: Seq<char>,
    target: Option<Scope>,
    has_session: bool,
    hints: Seq<Seq<char>>,
) -> Seq<QueryView> {
    let intent = intent_of(query);
    let base = intent_scopes_of(intent, target);
    let primary = seq![query_view("primary"@, query, base, 1)];
    if !starts_with(request_type, "search"@) {
        primary
    } else {
        let merged = join_spaced(kept_hints(hints));
        let s1 = if merged.len() > 0 {
            primary.push(
                query_view(
                    if has_session {
                        "session_recent"@
                    } else {
                        "runtime_hints"@
                    },
                    query.push(' ') + merged,
                    base,
                    2,
                ),
            )
        } else {
            primary
        };
        let s2 = match first_om_hint(hints) {
            Some(h) => match normalized_om_hint(h) {
                Some(n) => if has_session {
                    s1.push(
                        query_view(
                            "session_om"@,
                            query.push(' ') + n,
                            if target is Some {
                                base
                            } else {
                                seq![Scope::User, Scope::Agent]
                            },
                            2,
                        ),
                    )
                } else {
                    s1
                },
                None => s1,
            },
            None => s1,
        };
        let s3 = if target is None && intent.wants_skill {
            s2.push(query_view("skill_focus"@, query, seq![Scope::Agent], 2))
        } else {
            s2
        };
        if target is None && (intent.wants_memory || has_session) {
            s3.push(query_view("memory_focus"@, query, seq![Scope::User, Scope::Agent], 3))
        } else {
            s3
        }
    }
}

/// The plan of a search request: its candidate queries, sorted,
/// de-duplicated, at most five (one for requests that are not searches).
pub open spec fn plan_of(
    query: Seq<char>,
    request_type: Seq<char>,
    target: Option<Scope>,
    has_session: bool,
    hints: Seq<Seq<char>>,
) -> Seq<QueryView> {
    dedup_and_limit(
        plan_candidates(query, request_type, target, has_session, hints),
        if starts_with(request_type, "search"@) {
            5
        } else {
            1
        },
    )
}

proof fn lemma_insert_stable_keeps(s: Seq<QueryView>, x: QueryView)
    ensures
        insert_stable(s, x).len() == s.len() + 1,
        insert_stable(s, x).contains(x),
        forall|y: QueryView| s.contains(y) ==> #[trigger] insert_stable(s, x).contains(y),
    decreases s.len(),
{
    if s.len() > 0 && query_lt(x, s.last()) {
        let p = s.drop_last();
        let r = insert_stable(p, x);
        lemma_insert_stable_keeps(p, x);
        let out = r.push(s.last());
        assert(insert_stable(s, x) == out);
        let kx = choose|k: int| 0 <= k < r.len() && r[k] == x;
        assert(out[kx] == x);
        assert forall|y: QueryView| s.contains(y) implies #[trigger] insert_stable(s, x).contains(y) by {
            let k = choose|k: int| 0 <= k < s.len() && s[k] == y;
            if k == s.len() - 1 {
                assert(out[r.len() as int] == y);
            } else {
                assert(p[k] == y);
                assert(p.contains(y));
                assert(insert_stable(p, x).contains(y));
                let k2 = choose|k2: int| 0 <= k2 < r.len() && r[k2] == y;
                assert(out[k2] == y);
            }
        }
    } else {
        let out = s.push(x);
        assert(out[s.len() as int] == x);
        assert forall|y: QueryView| s.contains(y) implies #[trigger] insert_stable(s, x).contains(y) by {
            let k = choose|k: int| 0 <= k < s.len() && s[k] == y;
            assert(out[k] == y);
        }
    }
}

/// Sorting keeps every query and their number.
proof fn lemma_sort_queries_keeps(s: Seq<QueryView>)
    ensures
        sort_queries(s).len() == s.len(),
        forall|y: QueryView| s.contains(y) ==> #[trigger] sort_queries(s).contains(y),
    decreases s.len(),
{
    if s.len() > 0 {
        let p = s.drop_last();
        lemma_sort_queries_keeps(p);
        lemma_insert_stable_keeps(sort_queries(p), s.last());
        assert forall|y: QueryView| s.contains(y) implies #[trigger] sort_queries(s).contains(y) by {
            let k = choose|k: int| 0 <= k < s.len() && s[k] == y;
            if k < s.len() - 1 {
                assert(p[k] == y);
                assert(p.contains(y));
                assert(sort_queries(p).contains(y));
            }
        }
    }
}

proof fn lemma_key_seen_push(out: Seq<QueryView>, y: QueryView, x: QueryView)
    requires
        key_seen(out, x) || y == x,
    ensures
        key_seen(out.push(y), x),
{
    if key_seen(out, x) {
        let j = choose|j: int| 0 <= j < out.len() && same_query_key(#[trigger] out[j], x);
        assert(out.push(y)[j] == out[j]);
    } else {
        assert(out.push(y)[out.len() as int] == x);
        assert(same_query_key(out.push(y)[out.len() as int], x));
    }
}

/// When no more queries come than the limit allows, de-duplication keeps a
/// query of every key that occurs.
proof fn lemma_dedup_keeps_key(s: Seq<QueryView>, i: int, out: Seq<QueryView>, max_len: nat, x: QueryView)
    requires
        0 <= i <= s.len(),
        out.len() + (s.len() - i) <= max_len,
        key_seen(out, x) || exists|j: int| i <= j < s.len() && s[j] == x,
    ensures
        key_seen(dedup_scan(s, i, out, max_len), x),
    decreases s.len() - i,
{
    if i < s.len() {
        let seen_here = key_seen(out, x) || s[i] == x;
        if key_seen(out, s[i]) {
            if s[i] == x {
                assert(key_seen(out, x));
            }
            lemma_dedup_keeps_key(s, i + 1, out, max_len, x);
        } else if out.len() + 1 >= max_len {
            if !key_seen(out, x) {
                let j = choose|j: int| i <= j < s.len() && s[j] == x;
                assert(j == i);
            }
            lemma_key_seen_push(out, s[i], x);
        } else {
            if seen_here {
                lemma_key_seen_push(out, s[i], x);
            }
            lemma_dedup_keeps_key(s, i + 1, out.push(s[i]), max_len, x);
        }
    }
}

/// A search request with a session and no target scope always keeps a
/// query over the memory scopes: the plan holds a query whose text is the
/// request's (up to case) over the agent and user scopes, whatever the
/// query and the hints. (It is the `memory_focus` query, unless an earlier
/// query has the same text and scopes.)
pub proof fn lemma_session_search_plans_memory_query(
    query: Seq<char>,
    request_type: Seq<char>,
    hints: Seq<Seq<char>>,
)
    requires
        starts_with(request_type, "search"@),
    ensures
        exists|i: int|
            0 <= i < plan_of(query, request_type, None, true, hints).len() && #[trigger] str_lowercase(
                plan_of(query, request_type, None, true, hints)[i].query,
            ) == str_lowercase(query) && plan_of(query, request_type, None, true, hints)[i].scopes
                == seq![Scope::Agent, Scope::User],
{
    let c = plan_candidates(query, request_type, None, true, hints);
    let m = query_view("memory_focus"@, query, seq![Scope::User, Scope::Agent], 3);
    assert(c.len() <= 5);
    assert(c[c.len() - 1] == m);
    assert(c.contains(m));
    lemma_sort_queries_keeps(c);
    let sorted = sort_queries(c);
    assert(sorted.contains(m));
    assert(Seq::<QueryView>::empty().len() + (sorted.len() - 0) <= 5);
    lemma_dedup_keeps_key(sorted, 0, Seq::empty(), 5, m);
    let out = dedup_scan(sorted, 0, Seq::empty(), 5);
    let j = choose|j: int| 0 <= j < out.len() && same_query_key(#[trigger] out[j], m);
    assert(out.len() > 0);
    assert(plan_of(query, request_type, None, true, hints) == out);
    assert(normalized_scopes(seq![Scope::User, Scope::Agent]) =~= seq![Scope::Agent, Scope::User])
        by {
        let t = seq![Scope::User, Scope::Agent];
        assert(t[0] == Scope::User && t[1] == Scope::Agent);
        assert(t.contains(Scope::Agent) && t.contains(Scope::User));
        assert(!t.contains(Scope::Queue) && !t.contains(Scope::Resources));
        assert(!t.contains(Scope::Session) && !t.contains(Scope::Temp));
        reveal_with_fuel(scopes_from_rank, 7);
    }
    assert(str_lowercase(out[j].query) == str_lowercase(query));
}

fn copy_string(s: &String) -> (r: String)
    ensures
        r@ == s@,
{
    string_of(&string_chars(s))
}

fn joined_query(query: &String, extra: &String) -> (r: String)
    ensures
        r@ == query@.push(' ') + extra@,
{
    let mut v = string_chars(query);
    v.push(' ');
    let e = string_chars(extra);
    extend_chars(&mut v, &e);
    string_of(&v)
}

fn scopes_two(a: Scope, b: Scope) -> (v: Vec<Scope>)
    ensures
        v@ == seq![a, b],
{
    let mut v: Vec<Scope> = Vec::new();
    v.push(a);
    v.push(b);
    assert(v@ =~= seq![a, b]);
    v
}

fn scopes_one(a: Scope) -> (v: Vec<Scope>)
    ensures
        v@ == seq![a],
{
    let mut v: Vec<Scope> = Vec::new();
    v.push(a);
    assert(v@ =~= seq![a]);
    v
}

fn find_om_hint(hints: &Vec<String>) -> (r: Option<usize>)
    ensures
        match first_om_hint(strings_view(hints@)) {
            Some(h) => r matches Some(i) && i < hints@.len() && hints@[i as int]@ == h,
            None => r is None,
        },
{
    let ghost all = strings_view(hints@);
    let mut i: usize = 0;
    assert(all.skip(0) =~= all);
    while i < hints.len()
        invariant
            i <= hints@.len(),
            all == strings_view(hints@),
            first_om_hint(all) == first_om_hint(all.skip(i as int)),
        decreases hints.len() - i,
    {
        assert(all.skip(i as int)[0] == hints@[i as int]@);
        if is_om_hint(hints[i].as_str()) {
            return Some(i);
        }
        assert(all.skip(i as int).drop_first() =~= all.skip(i + 1));
        i = i + 1;
    }
    assert(all.skip(i as int) =~= Seq::<Seq<char>>::empty());
    None
}

/// Expands a search request into the queries to run.
pub fn plan_queries(options: &SearchOptions) -> (out: Vec<PlannedQuery>)
    ensures
        views_of(out@) == plan_of(
            options.query@,
            options.request_type@,
            options.target_scope,
            options.session is Some,
            strings_view(options.session_hints@),
        ),
{
    let ghost q = options.query@;
    let ghost hints = strings_view(options.session_hints@);
    let ghost target = options.target_scope;
    let ghost has_session = options.session is Some;
    let ghost candidates = plan_candidates(q, options.request_type@, target, has_session, hints);
    let intent = query_intent(options.query.as_str());
    let has_session_context = options.session.is_some();
    let mut planned: Vec<PlannedQuery> = Vec::new();
    let base = intent_scopes(intent, options.target_scope);
    planned.push(PlannedQuery::new("primary", copy_string(&options.query), base, 1));
    let ghost primary = views_of(planned@);
    let rt = string_chars(&options.request_type);
    let is_search = starts_with_chars(&rt, &chars_of("search"));
    if !is_search {
        assert(views_of(planned@) =~= candidates);
        return dedup_and_limit_queries(planned, 1);
    }
    let hint_text = merge_non_om_hints(&options.session_hints);
    if string_chars(&hint_text).len() > 0 {
        let kind = if has_session_context {
            "session_recent"
        } else {
            "runtime_hints"
        };
        let ghost before = views_of(planned@);
        let base2 = intent_scopes(intent, options.target_scope);
        planned.push(PlannedQuery::new(kind, joined_query(&options.query, &hint_text), base2, 2));
        assert(views_of(planned@) =~= before.push(views_of(planned@).last()));
    }
    let ghost s1 = views_of(planned@);
    assert(s1 == (if join_spaced(kept_hints(hints)).len() > 0 {
        primary.push(
            query_view(
                if has_session {
                    "session_recent"@
                } else {
                    "runtime_hints"@
                },
                q.push(' ') + join_spaced(kept_hints(hints)),
                intent_scopes_of(intent_of(q), target),
                2,
            ),
        )
    } else {
        primary
    }));
    if has_session_context {
        match find_om_hint(&options.session_hints) {
            Some(i) => {
                match normalize_om_hint(options.session_hints[i].as_str()) {
                    Some(om_hint) => {
                        let om_scopes = if options.target_scope.is_some() {
                            intent_scopes(intent, options.target_scope)
                        } else {
                            scopes_two(Scope::User, Scope::Agent)
                        };
                        let ghost before = views_of(planned@);
                        planned.push(
                            PlannedQuery::new(
                                "session_om",
                                joined_query(&options.query, &om_hint),
                                om_scopes,
                                2,
                            ),
                        );
                        assert(views_of(planned@) =~= before.push(views_of(planned@).last()));
                    },
                    None => {},
                }
            },
            None => {},
        }
    }
    if options.target_scope.is_none() {
        if intent.wants_skill {
            let ghost before = views_of(planned@);
            planned.push(
                PlannedQuery::new(
                    "skill_focus",
                    copy_string(&options.query),
                    scopes_one(Scope::Agent),
                    2,
                ),
            );
            assert(views_of(planned@) =~= before.push(views_of(planned@).last()));
        }
        if intent.wants_memory || has_session_context {
            let ghost before = views_of(planned@);
            planned.push(
                PlannedQuery::new(
                    "memory_focus",
                    copy_string(&options.query),
                    scopes_two(Scope::User, Scope::Agent),
                    3,
                ),
            );
            assert(views_of(planned@) =~= before.push(views_of(planned@).last()));
        }
    }
    assert(views_of(planned@) =~= candidates);
    dedup_and_limit_queries(planned, 5)
}

} // verus!
