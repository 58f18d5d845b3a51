use vstd::prelude::*;

use crate::cli::SearchBudget;
use crate::json::{dominant, dominant_keys, hist_view};
use crate::planner::{uri_in_scopes, uri_in_scopes_spec, PlannedQuery};
use crate::text::{
    chars_eq, chars_of, is_alphanumeric, is_whitespace, is_ws, starts_with, starts_with_chars,
    string_of, trim, trim_range, unicode_alphanumeric, vecs_view,
};

verus! {

pub const GLOBAL_RANK_FLOOR_DEFAULT: usize = 128;

pub const GLOBAL_RANK_FLOOR_IDENTIFIER_QUERY: usize = 256;

// ---------------------------------------------------------------------------
// Query shape
// ---------------------------------------------------------------------------

/// The number of alphanumeric characters of `s`.
pub open spec fn alnum_count(s: Seq<char>) -> nat
    decreases s.len(),
{
    if s.len() == 0 {
        0
    } else {
        alnum_count(s.drop_last()) + if unicode_alphanumeric(s.last()) {
            1nat
        } else {
            0nat
        }
    }
}

/// A query that looks like one identifier: no whitespace inside the trimmed
/// text and at least six alphanumeric characters.
pub open spec fn identifier_style(q: Seq<char>) -> bool {
    let t = trim(q);
    &&& t.len() > 0
    &&& forall|i: int| 0 <= i < t.len() ==> !is_ws(#[trigger] t[i])
    &&& alnum_count(t) >= 6
}

pub fn is_identifier_style_query(query: &str) -> (r: bool)
    ensures
        r == identifier_style(query@),
{
    let v = chars_of(query);
    let (a, b) = trim_range(&v, 0, v.len());
    assert(v@.subrange(0, v@.len() as int) =~= v@);
    let ghost t = v@.subrange(a as int, b as int);
    if a >= b {
        return false;
    }
    let mut i = a;
    let mut count: usize = 0;
    while i < b
        invariant
            a <= i <= b <= v@.len(),
            t == v@.subrange(a as int, b as int),
            t == trim(query@),
            count as nat == alnum_count(t.take(i - a)),
            count <= i - a,
            forall|k: int| 0 <= k < i - a ==> !is_ws(#[trigger] t[k]),
        decreases b - i,
    {
        let c = v[i];
        assert(t[i - a] == c);
        if is_whitespace(c) {
            assert(is_ws(t[i - a]));
            return false;
        }
        assert(t.take(i - a + 1).drop_last() =~= t.take(i - a));
        if is_alphanumeric(c) {
            count = count + 1;
        }
        i = i + 1;
    }
    assert(t.take(t.len() as int) =~= t);
    count >= 6
}

/// How many ranked records a search first asks the index for.
pub fn global_rank_floor(query: &str) -> (r: usize)
    ensures
        r == if identifier_style(query@) {
            GLOBAL_RANK_FLOOR_IDENTIFIER_QUERY
        } else {
            GLOBAL_RANK_FLOOR_DEFAULT
        },
{
    if is_identifier_style_query(query) {
        GLOBAL_RANK_FLOOR_IDENTIFIER_QUERY
    } else {
        GLOBAL_RANK_FLOOR_DEFAULT
    }
}

// ---------------------------------------------------------------------------
// URI bounds
// ---------------------------------------------------------------------------

/// Inside the target: the target itself or below `prefix`; anything when
/// either is missing.
pub open spec fn in_target(uri: Seq<char>, target: Option<Seq<char>>, prefix: Option<Seq<char>>) -> bool {
    match (target, prefix) {
        (Some(t), Some(p)) => uri == t || starts_with(uri, p),
        _ => true,
    }
}

pub open spec fn opt_str(o: Option<&str>) -> Option<Seq<char>> {
    match o {
        Some(s) => Some(s@),
        None => None,
    }
}

pub fn uri_in_target_optimized(uri: &str, target_str: Option<&str>, target_prefix: Option<&str>) -> (r: bool)
    ensures
        r == in_target(uri@, opt_str(target_str), opt_str(target_prefix)),
{
    match (target_str, target_prefix) {
        (Some(t), Some(p)) => {
            let u = chars_of(uri);
            chars_eq(&u, &chars_of(t)) || starts_with_chars(&u, &chars_of(p))
        },
        _ => true,
    }
}

/// Within the plan's scopes and the target.
pub fn uri_matches_query_bounds_optimized(
    uri: &str,
    planned: &PlannedQuery,
    target_str: Option<&str>,
    target_prefix: Option<&str>,
) -> (r: bool)
    ensures
        r == (uri_in_scopes_spec(uri@, planned.scopes@) && in_target(
            uri@,
            opt_str(target_str),
            opt_str(target_prefix),
        )),
{
    if !uri_in_scopes(uri, &planned.scopes) {
        return false;
    }
    uri_in_target_optimized(uri, target_str, target_prefix)
}

pub open spec fn strings_of(v: Seq<String>) -> Seq<Seq<char>> {
    v.map_values(|s: String| s@)
}

fn listed(uri: &str, allowed: &Vec<String>) -> (r: bool)
    ensures
        r == strings_of(allowed@).contains(uri@),
{
    let u = chars_of(uri);
    let mut i: usize = 0;
    while i < allowed.len()
        invariant
            i <= allowed@.len(),
            u@ == uri@,
            forall|k: int| 0 <= k < i ==> allowed@[k]@ != uri@,
        decreases allowed.len() - i,
    {
        if chars_eq(&chars_of(allowed[i].as_str()), &u) {
            assert(strings_of(allowed@)[i as int] == uri@);
            return true;
        }
        i = i + 1;
    }
    assert forall|k: int| 0 <= k < strings_of(allowed@).len() implies strings_of(allowed@)[k]
        != uri@ by {
        assert(strings_of(allowed@)[k] == allowed@[k]@);
    }
    false
}

/// Inside the filter's projection: anything when there is no filter.
pub fn uri_matches_filter_projection(uri: &str, filter_projection: Option<&Vec<String>>) -> (r: bool)
    ensures
        r == match filter_projection {
            Some(allowed) => strings_of(allowed@).contains(uri@),
            None => true,
        },
{
    match filter_projection {
        None => true,
        Some(allowed) => listed(uri, allowed),
    }
}

// ---------------------------------------------------------------------------
// Selected hits
// ---------------------------------------------------------------------------

/// A retrieved context. `score` is an order key: a higher key is a better
/// score.
#[derive(Debug, Clone, PartialEq, Eq)]
pub struct ContextHit {
    pub uri: String,
    pub score: u32,
    pub abstract_text: String,
    pub context_type: String,
}

/// The best hit found so far for each URI.
pub struct HitSet {
    hits: Vec<ContextHit>,
}

pub open spec fn uris_distinct(s: Seq<ContextHit>) -> bool {
    forall|i: int, j: int| 0 <= i < j < s.len() ==> #[trigger] s[i].uri@ != #[trigger] s[j].uri@
}

/// The hits of `s` by URI.
pub open spec fn hit_map(s: Seq<ContextHit>) -> Map<Seq<char>, ContextHit>
    decreases s.len(),
{
    if s.len() == 0 {
        Map::empty()
    } else {
        hit_map(s.drop_last()).insert(s.last().uri@, s.last())
    }
}

/// With distinct URIs, the map holds one hit per element, and its domain is
/// finite.
proof fn lemma_hit_map_len(s: Seq<ContextHit>)
    requires
        uris_distinct(s),
    ensures
        hit_map(s).dom().finite(),
        hit_map(s).dom().len() == s.len(),
    decreases s.len(),
{
    if s.len() > 0 {
        let p = s.drop_last();
        assert(uris_distinct(p)) by {
            assert forall|i: int, j: int| 0 <= i < j < p.len() implies #[trigger] p[i].uri@
                != #[trigger] p[j].uri@ by {
                assert(p[i] == s[i] && p[j] == s[j]);
            }
        }
        lemma_hit_map_len(p);
        lemma_hit_map_dom(p, s.last().uri@);
        if hit_map(p).contains_key(s.last().uri@) {
            let i = choose|i: int| 0 <= i < p.len() && #[trigger] p[i].uri@ == s.last().uri@;
            assert(p[i] == s[i]);
            assert(s[i].uri@ != s[s.len() - 1].uri@);
        }
    }
}

proof fn lemma_hit_map_dom(s: Seq<ContextHit>, u: Seq<char>)
    ensures
        hit_map(s).contains_key(u) <==> exists|i: int| 0 <= i < s.len() && #[trigger] s[i].uri@ == u,
    decreases s.len(),
{
    if s.len() > 0 {
        lemma_hit_map_dom(s.drop_last(), u);
        if hit_map(s.drop_last()).contains_key(u) {
            let i = choose|i: int| 0 <= i < s.drop_last().len() && #[trigger] s.drop_last()[i].uri@ == u;
            assert(s[i].uri@ == u);
        }
        if exists|i: int| 0 <= i < s.len() && #[trigger] s[i].uri@ == u {
            let i = choose|i: int| 0 <= i < s.len() && #[trigger] s[i].uri@ == u;
            if i < s.len() - 1 {
                assert(s.drop_last()[i].uri@ == u);
            }
        }
    }
}

proof fn lemma_hit_map_at(s: Seq<ContextHit>, i: int)
    requires
        uris_distinct(s),
        0 <= i < s.len(),
    ensures
        hit_map(s).contains_key(s[i].uri@),
        hit_map(s)[s[i].uri@] == s[i],
    decreases s.len(),
{
    if i < s.len() - 1 {
        lemma_hit_map_at(s.drop_last(), i);
        assert(s.drop_last()[i] == s[i]);
        assert(s.last().uri@ != s[i].uri@);
    }
}

proof fn lemma_hit_map_update(s: Seq<ContextHit>, i: int, h: ContextHit)
    requires
        uris_distinct(s),
        0 <= i < s.len(),
        s[i].uri@ == h.uri@,
    ensures
        hit_map(s.update(i, h)) == hit_map(s).insert(h.uri@, h),
    decreases s.len(),
{
    if i == s.len() - 1 {
        assert(s.update(i, h).drop_last() =~= s.drop_last());
        assert(hit_map(s.update(i, h)) =~= hit_map(s).insert(h.uri@, h));
    } else {
        lemma_hit_map_update(s.drop_last(), i, h);
        assert(s.update(i, h).drop_last() =~= s.drop_last().update(i, h));
        assert(s.last().uri@ != h.uri@);
        assert(hit_map(s.update(i, h)) =~= hit_map(s).insert(h.uri@, h));
    }
}

impl HitSet {
    /// No URI is selected twice.
    pub open spec fn wf(&self) -> bool {
        uris_distinct(self.entries())
    }

    /// The hits in the order they were first selected.
    pub closed spec fn entries(&self) -> Seq<ContextHit> {
        self.hits@
    }

    pub open spec fn view(&self) -> Map<Seq<char>, ContextHit> {
        hit_map(self.entries())
    }

    pub fn new() -> (s: Self)
        ensures
            s.wf(),
            s.view() == Map::<Seq<char>, ContextHit>::empty(),
            s.entries().len() == 0,
    {
        HitSet { hits: Vec::new() }
    }

    pub fn len(&self) -> (n: usize)
        ensures
            n == self.entries().len(),
            self.wf() ==> n == self.view().dom().len(),
    {
        proof {
            if self.wf() {
                lemma_hit_map_len(self.entries());
            }
        }
        self.hits.len()
    }

    fn index_of(&self, uri: &Vec<char>) -> (r: Option<usize>)
        ensures
            match r {
                Some(i) => i < self.entries().len() && self.entries()[i as int].uri@ == uri@,
                None => forall|k: int| 0 <= k < self.entries().len() ==> self.entries()[k].uri@ != uri@,
            },
    {
        let mut i: usize = 0;
        while i < self.hits.len()
            invariant
                i <= self.hits@.len(),
                forall|k: int| 0 <= k < i ==> self.hits@[k].uri@ != uri@,
            decreases self.hits.len() - i,
        {
            if chars_eq(&chars_of(self.hits[i].uri.as_str()), uri) {
                return Some(i);
            }
            i = i + 1;
        }
        None
    }

    /// The selected hit for `uri`, if any.
    pub fn get(&self, uri: &str) -> (r: Option<&ContextHit>)
        requires
            self.wf(),
        ensures
            match r {
                Some(h) => self.view().contains_key(uri@) && self.view()[uri@] == *h,
                None => !self.view().contains_key(uri@),
            },
    {
        proof {
            lemma_hit_map_dom(self.hits@, uri@);
        }
        match self.index_of(&chars_of(uri)) {
            Some(i) => {
                proof {
                    lemma_hit_map_at(self.hits@, i as int);
                }
                Some(&self.hits[i])
            },
            None => None,
        }
    }

    /// `(uri, score)` for each hit, in selection order.
    pub fn scored_uris(&self) -> (out: Vec<(Vec<char>, usize)>)
        ensures
            hist_view(out@) == score_pairs(self.entries()),
    {
        let mut out: Vec<(Vec<char>, usize)> = Vec::new();
        let mut i: usize = 0;
        while i < self.hits.len()
            invariant
                i <= self.hits@.len(),
                hist_view(out@) == score_pairs(self.hits@).take(i as int),
            decreases self.hits.len() - i,
        {
            let ghost before = hist_view(out@);
            out.push((chars_of(self.hits[i].uri.as_str()), self.hits[i].score as usize));
            assert(hist_view(out@) =~= before.push(score_pairs(self.hits@)[i as int]));
            assert(score_pairs(self.hits@).take(i + 1) =~= score_pairs(self.hits@).take(
                i as int,
            ).push(score_pairs(self.hits@)[i as int]));
            i = i + 1;
        }
        assert(score_pairs(self.hits@).take(self.hits@.len() as int) =~= score_pairs(self.hits@));
        out
    }
}

/// `(uri, score)` for each hit.
pub open spec fn score_pairs(s: Seq<ContextHit>) -> Seq<(Seq<char>, nat)> {
    s.map_values(|h: ContextHit| (h.uri@, h.score as nat))
}

/// What an upsert leaves: the new hit where the URI is new or the new score
/// is higher; otherwise the selection as it was.
pub open spec fn upserted(m: Map<Seq<char>, ContextHit>, hit: ContextHit) -> Map<Seq<char>, ContextHit> {
    if m.contains_key(hit.uri@) && hit.score <= m[hit.uri@].score {
        m
    } else {
        m.insert(hit.uri@, hit)
    }
}

/// Keeps, for each URI, the hit with the highest score.
pub fn upsert_hit_if_higher(selected: &mut HitSet, hit: ContextHit)
    requires
        old(selected).wf(),
    ensures
        final(selected).wf(),
        final(selected).view() == upserted(old(selected).view(), hit),
{
    proof {
        lemma_hit_map_dom(selected.hits@, hit.uri@);
    }
    let u = chars_of(hit.uri.as_str());
    match selected.index_of(&u) {
        Some(i) => {
            proof {
                lemma_hit_map_at(selected.hits@, i as int);
            }
            if hit.score > selected.hits[i].score {
                let ghost s0 = selected.hits@;
                proof {
                    lemma_hit_map_update(s0, i as int, hit);
                    assert forall|a: int, b: int| 0 <= a < b < s0.len() implies #[trigger] s0.update(
                        i as int,
                        hit,
                    )[a].uri@ != #[trigger] s0.update(i as int, hit)[b].uri@ by {}
                }
                selected.hits.set(i, hit);
            }
        },
        None => {
            let ghost s0 = selected.hits@;
            proof {
                assert forall|a: int, b: int| 0 <= a < b < s0.push(hit).len() implies #[trigger] s0.push(
                    hit,
                )[a].uri@ != #[trigger] s0.push(hit)[b].uri@ by {
                    if b == s0.len() {
                        assert(s0[a].uri@ != hit.uri@);
                    }
                }
                assert(s0.push(hit).drop_last() =~= s0);
            }
            selected.hits.push(hit);
        },
    }
}

/// An upsert never lowers the score kept for a URI and never drops a URI.
pub proof fn lemma_upsert_monotone(m: Map<Seq<char>, ContextHit>, hit: ContextHit, u: Seq<char>)
    requires
        m.contains_key(u),
    ensures
        upserted(m, hit).contains_key(u),
        upserted(m, hit)[u].score >= m[u].score,
{
}

// ---------------------------------------------------------------------------
// Convergence
// ---------------------------------------------------------------------------

/// The `limit` best URIs: highest score first, ties in URI order.
pub open spec fn top_uris(selected: HitSet, limit: nat) -> Seq<Seq<char>> {
    dominant(score_pairs(selected.entries()), limit)
}

/// One more, unless the counter is full.
pub open spec fn rounds_inc(n: u32) -> u32 {
    if n < u32::MAX {
        (n + 1) as u32
    } else {
        n
    }
}

fn same_uris(a: &Vec<Vec<char>>, b: &Vec<String>) -> (r: bool)
    ensures
        r == (vecs_view(a@) == strings_of(b@)),
{
    if a.len() != b.len() {
        assert(vecs_view(a@).len() != strings_of(b@).len());
        return false;
    }
    let mut i: usize = 0;
    while i < a.len()
        invariant
            i <= a@.len(),
            a@.len() == b@.len(),
            forall|k: int| 0 <= k < i ==> a@[k]@ == b@[k]@,
        decreases a.len() - i,
    {
        if !chars_eq(&a[i], &chars_of(b[i].as_str())) {
            assert(vecs_view(a@)[i as int] != strings_of(b@)[i as int]);
            return false;
        }
        i = i + 1;
    }
    assert(vecs_view(a@) =~= strings_of(b@));
    true
}

/// Records the current top `limit` URIs: a round with the same top list as
/// the previous one counts as stable, a changed list resets the count. Says
/// whether the count has reached `max_convergence_rounds`.
pub fn update_convergence_state(
    selected: &HitSet,
    limit: usize,
    previous_topk: &mut Vec<String>,
    stable_rounds: &mut u32,
    max_convergence_rounds: u32,
) -> (converged: bool)
    ensures
        strings_of(final(previous_topk)@) == top_uris(*selected, limit as nat),
        *final(stable_rounds) == if top_uris(*selected, limit as nat) == strings_of(
            old(previous_topk)@,
        ) {
            rounds_inc(*old(stable_rounds))
        } else {
            0
        },
        converged == (*final(stable_rounds) >= max_convergence_rounds),
{
    let pairs = selected.scored_uris();
    let topk = dominant_keys(&pairs, limit);
    if same_uris(&topk, previous_topk) {
        if *stable_rounds < u32::MAX {
            *stable_rounds = *stable_rounds + 1;
        }
    } else {
        *stable_rounds = 0;
    }
    let mut next: Vec<String> = Vec::new();
    let mut i: usize = 0;
    while i < topk.len()
        invariant
            i <= topk@.len(),
            strings_of(next@) == vecs_view(topk@).take(i as int),
        decreases topk.len() - i,
    {
        let ghost before = strings_of(next@);
        next.push(string_of(&topk[i]));
        assert(strings_of(next@) =~= before.push(vecs_view(topk@)[i as int]));
        assert(vecs_view(topk@).take(i + 1) =~= vecs_view(topk@).take(i as int).push(
            vecs_view(topk@)[i as int],
        ));
        i = i + 1;
    }
    assert(vecs_view(topk@).take(topk@.len() as int) =~= vecs_view(topk@));
    *previous_topk = next;
    *stable_rounds >= max_convergence_rounds
}

/// Two rounds over the same selection: the second one counts as stable.
pub proof fn lemma_convergence_repeats(selected: HitSet, limit: nat, previous: Seq<Seq<char>>, rounds: u32)
    requires
        previous == top_uris(selected, limit),
    ensures
        (if top_uris(selected, limit) == previous {
            rounds_inc(rounds)
        } else {
            0
        }) == rounds_inc(rounds),
{
}


// ---------------------------------------------------------------------------
// The identifier fast path and the steps of the expansion loop
// ---------------------------------------------------------------------------

/// Whether a query may take the identifier fast path: not when the caller
/// bounded the time or the nodes (only the traversal loop enforces those),
/// and only for identifier-style queries.
pub open spec fn fast_path_allowed(budget: Option<SearchBudget>, query: Seq<char>) -> bool {
    let bounded = match budget {
        Some(b) => b.max_ms is Some || b.max_nodes is Some,
        None => false,
    };
    !bounded && identifier_style(query)
}

pub fn identifier_fast_path_allowed(budget: &Option<SearchBudget>, query: &str) -> (r: bool)
    ensures
        r == fast_path_allowed(*budget, query@),
{
    match budget {
        Some(b) => {
            if b.max_ms.is_some() || b.max_nodes.is_some() {
                return false;
            }
        },
        None => {},
    }
    is_identifier_style_query(query)
}

/// Why the expansion loop ended (or, for `MaxDepth`, the last node it
/// passed over for being too deep).
#[derive(Debug, Clone, Copy, PartialEq, Eq, Structural)]
pub enum StopReason {
    QueueEmpty,
    BudgetMs,
    BudgetNodes,
    MaxDepth,
    Converged,
}

impl StopReason {
    pub fn as_str(self) -> (r: &'static str)
        ensures
            r@ == match self {
                StopReason::QueueEmpty => "queue_empty"@,
                StopReason::BudgetMs => "budget_ms"@,
                StopReason::BudgetNodes => "budget_nodes"@,
                StopReason::MaxDepth => "max_depth"@,
                StopReason::Converged => "converged"@,
            },
    {
        match self {
            StopReason::QueueEmpty => "queue_empty",
            StopReason::BudgetMs => "budget_ms",
            StopReason::BudgetNodes => "budget_nodes",
            StopReason::MaxDepth => "max_depth",
            StopReason::Converged => "converged",
        }
    }
}

/// The loop's counters: rounds run, nodes explored, and the stop reason so
/// far (`QueueEmpty` until something else happens).
#[derive(Debug, Clone, Copy, PartialEq, Eq, Structural)]
pub struct ExpansionProgress {
    pub round: u32,
    pub explored: usize,
    pub stop_reason: StopReason,
}

/// What the loop does with the node it popped.
#[derive(Debug, Clone, Copy, PartialEq, Eq, Structural)]
pub enum NodeAction {
    /// The loop ends.
    Stop,
    /// The node is passed over.
    Skip,
    /// The node's children are examined.
    Expand,
}

impl ExpansionProgress {
    pub fn start() -> (p: Self)
        ensures
            p.round == 0 && p.explored == 0 && p.stop_reason == StopReason::QueueEmpty,
    {
        ExpansionProgress { round: 0, explored: 0, stop_reason: StopReason::QueueEmpty }
    }
}

/// The loop's decision on a popped node, in order: the time budget spent
/// stops it; the node budget spent stops it; a node below the depth bound
/// is passed over (and remembered as the stop reason); a node visited before
/// is passed over; any other node is expanded, counting one more round and
/// one more explored node (both saturating).
pub open spec fn node_step(
    p: ExpansionProgress,
    elapsed_ms: u128,
    time_budget_ms: Option<u64>,
    node_budget: usize,
    node_depth: usize,
    depth_budget: usize,
    visited_before: bool,
) -> (ExpansionProgress, NodeAction) {
    if time_budget_ms is Some && elapsed_ms >= time_budget_ms->0 {
        (ExpansionProgress { stop_reason: StopReason::BudgetMs, ..p }, NodeAction::Stop)
    } else if p.explored >= node_budget {
        (ExpansionProgress { stop_reason: StopReason::BudgetNodes, ..p }, NodeAction::Stop)
    } else if node_depth > depth_budget {
        (ExpansionProgress { stop_reason: StopReason::MaxDepth, ..p }, NodeAction::Skip)
    } else if visited_before {
        (p, NodeAction::Skip)
    } else {
        (
            ExpansionProgress {
                round: if p.round < u32::MAX {
                    (p.round + 1) as u32
                } else {
                    p.round
                },
                explored: (p.explored + 1) as usize,
                stop_reason: p.stop_reason,
            },
            NodeAction::Expand,
        )
    }
}

pub fn expansion_node_step(
    p: ExpansionProgress,
    elapsed_ms: u128,
    time_budget_ms: Option<u64>,
    node_budget: usize,
    node_depth: usize,
    depth_budget: usize,
    visited_before: bool,
) -> (r: (ExpansionProgress, NodeAction))
    ensures
        r == node_step(
            p,
            elapsed_ms,
            time_budget_ms,
            node_budget,
            node_depth,
            depth_budget,
            visited_before,
        ),
        r.1 == NodeAction::Expand ==> r.0.explored <= node_budget,
{
    match time_budget_ms {
        Some(max_ms) => {
            if elapsed_ms >= max_ms as u128 {
                return (ExpansionProgress { stop_reason: StopReason::BudgetMs, ..p }, NodeAction::Stop);
            }
        },
        None => {},
    }
    if p.explored >= node_budget {
        return (ExpansionProgress { stop_reason: StopReason::BudgetNodes, ..p }, NodeAction::Stop);
    }
    if node_depth > depth_budget {
        return (ExpansionProgress { stop_reason: StopReason::MaxDepth, ..p }, NodeAction::Skip);
    }
    if visited_before {
        return (p, NodeAction::Skip);
    }
    let round = if p.round < u32::MAX {
        p.round + 1
    } else {
        p.round
    };
    (ExpansionProgress { round, explored: p.explored + 1, stop_reason: p.stop_reason }, NodeAction::Expand)
}

/// The loop checks for convergence every eighth round.
pub fn convergence_check_due(round: u32) -> (r: bool)
    ensures
        r == (round % 8 == 0),
{
    round % 8 == 0
}

/// However many nodes are popped, the loop explores at most its node
/// budget: from counters within the budget, every step stays within it.
pub proof fn lemma_node_step_keeps_budget(
    p: ExpansionProgress,
    elapsed_ms: u128,
    time_budget_ms: Option<u64>,
    node_budget: usize,
    node_depth: usize,
    depth_budget: usize,
    visited_before: bool,
)
    requires
        p.explored <= node_budget,
    ensures
        node_step(p, elapsed_ms, time_budget_ms, node_budget, node_depth, depth_budget, visited_before).0.explored
            <= node_budget,
        node_step(p, elapsed_ms, time_budget_ms, node_budget, node_depth, depth_budget, visited_before).1
            == NodeAction::Expand ==> node_step(
            p,
            elapsed_ms,
            time_budget_ms,
            node_budget,
            node_depth,
            depth_budget,
            visited_before,
        ).0.explored == p.explored + 1,
{
}

} // verus!
