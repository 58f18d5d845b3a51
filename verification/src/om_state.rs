use vstd::prelude::*;

use crate::migration::OmOriginType;

use crate::text::{
    chars_eq, chars_of, dec, extend_chars, extend_str, is_blank, join_chars, join_with, push_dec,
    string_of, sub_vec, trim, trim_range, vecs_view,
};

verus! {

// ---------------------------------------------------------------------------
// Saturating conversions
// ---------------------------------------------------------------------------

pub fn i64_to_u32_saturating(value: i64) -> (r: u32)
    ensures
        r == if value <= 0 {
            0
        } else if value > u32::MAX {
            u32::MAX
        } else {
            value as u32
        },
{
    if value <= 0 {
        0
    } else if value > u32::MAX as i64 {
        u32::MAX
    } else {
        value as u32
    }
}

pub fn i64_to_u64_saturating(value: i64) -> (r: u64)
    ensures
        r == if value <= 0 {
            0
        } else {
            value as u64
        },
{
    if value <= 0 {
        0
    } else {
        value as u64
    }
}

pub fn usize_to_i64_saturating(value: usize) -> (r: i64)
    ensures
        r == if value > i64::MAX {
            i64::MAX
        } else {
            value as i64
        },
{
    if value as u64 > i64::MAX as u64 {
        i64::MAX
    } else {
        value as i64
    }
}

pub fn u64_to_i64_saturating(value: u64) -> (r: i64)
    ensures
        r == if value > i64::MAX {
            i64::MAX
        } else {
            value as i64
        },
{
    if value > i64::MAX as u64 {
        i64::MAX
    } else {
        value as i64
    }
}

pub fn elapsed_millis_u64(value: u128) -> (r: u64)
    ensures
        r == if value > u64::MAX {
            u64::MAX
        } else {
            value as u64
        },
{
    if value > u64::MAX as u128 {
        u64::MAX
    } else {
        value as u64
    }
}

pub fn bool_to_i64(value: bool) -> (r: i64)
    ensures
        r == if value {
            1i64
        } else {
            0i64
        },
{
    if value {
        1
    } else {
        0
    }
}

// ---------------------------------------------------------------------------
// Continuation hints
// ---------------------------------------------------------------------------

pub open spec fn normalized_optional(raw: Option<Seq<char>>) -> Option<Seq<char>> {
    match raw {
        Some(s) => if trim(s).len() > 0 {
            Some(trim(s))
        } else {
            None
        },
        None => None,
    }
}

pub open spec fn opt_view(o: Option<&str>) -> Option<Seq<char>> {
    match o {
        Some(s) => Some(s@),
        None => None,
    }
}

pub open spec fn opt_string_view(o: Option<String>) -> Option<Seq<char>> {
    match o {
        Some(s) => Some(s@),
        None => None,
    }
}

/// The text trimmed, or nothing when it is missing or blank.
pub fn normalize_optional_text(raw: Option<&str>) -> (r: Option<String>)
    ensures
        opt_string_view(r) == normalized_optional(opt_view(raw)),
{
    match raw {
        None => None,
        Some(s) => {
            let v = chars_of(s);
            let (a, b) = trim_range(&v, 0, v.len());
            assert(v@.subrange(0, v@.len() as int) =~= v@);
            if a < b {
                Some(string_of(&sub_vec(&v, a, b)))
            } else {
                None
            }
        },
    }
}

/// Who produced a continuation hint.
#[derive(Debug, Clone, Copy, PartialEq, Eq, Structural)]
pub enum OmContinuationSourceKind {
    ObserverLlm,
    ObserverDeterministic,
    Reflector,
    ExplicitUserTask,
}

/// The source kind a stored name stands for; unknown names count as the
/// LLM observer.
pub open spec fn source_kind_of(raw: Seq<char>) -> OmContinuationSourceKind {
    let t = trim(raw);
    if t == "reflection"@ {
        OmContinuationSourceKind::Reflector
    } else if t == "explicit_user_task"@ {
        OmContinuationSourceKind::ExplicitUserTask
    } else if t == "observer_deterministic"@ {
        OmContinuationSourceKind::ObserverDeterministic
    } else {
        OmContinuationSourceKind::ObserverLlm
    }
}

pub fn continuation_source_kind_from_storage(raw: &str) -> (r: OmContinuationSourceKind)
    ensures
        r == source_kind_of(raw@),
{
    let v = chars_of(raw);
    let (a, b) = trim_range(&v, 0, v.len());
    assert(v@.subrange(0, v@.len() as int) =~= v@);
    let t = sub_vec(&v, a, b);
    if chars_eq(&t, &chars_of("reflection")) {
        OmContinuationSourceKind::Reflector
    } else if chars_eq(&t, &chars_of("explicit_user_task")) {
        OmContinuationSourceKind::ExplicitUserTask
    } else if chars_eq(&t, &chars_of("observer_deterministic")) {
        OmContinuationSourceKind::ObserverDeterministic
    } else {
        OmContinuationSourceKind::ObserverLlm
    }
}

pub open spec fn source_kind_name(k: OmContinuationSourceKind) -> Seq<char> {
    match k {
        OmContinuationSourceKind::ObserverLlm => "observer_llm"@,
        OmContinuationSourceKind::ObserverDeterministic => "observer_deterministic"@,
        OmContinuationSourceKind::Reflector => "reflection"@,
        OmContinuationSourceKind::ExplicitUserTask => "explicit_user_task"@,
    }
}

pub fn continuation_source_kind_to_storage(value: OmContinuationSourceKind) -> (r: &'static str)
    ensures
        r@ == source_kind_name(value),
{
    match value {
        OmContinuationSourceKind::ObserverLlm => "observer_llm",
        OmContinuationSourceKind::ObserverDeterministic => "observer_deterministic",
        OmContinuationSourceKind::Reflector => "reflection",
        OmContinuationSourceKind::ExplicitUserTask => "explicit_user_task",
    }
}

/// Storing a source kind and reading it back gives the same kind.
pub proof fn lemma_source_kind_round_trip(k: OmContinuationSourceKind)
    ensures
        source_kind_of(source_kind_name(k)) == k,
{
    reveal_strlit("observer_llm");
    reveal_strlit("observer_deterministic");
    reveal_strlit("reflection");
    reveal_strlit("explicit_user_task");
    let n = source_kind_name(k);
    assert(!crate::text::is_ws(n[0]) && !crate::text::is_ws(n.last()));
    assert(trim(n) == n);
}

/// How sure a continuation is, in thousandths: both hints 920, one 820,
/// none 0.
pub fn continuation_confidence_milli(current_task: Option<&str>, suggested_response: Option<&str>) -> (r: u16)
    ensures
        r == if normalized_optional(opt_view(current_task)) is Some && normalized_optional(
            opt_view(suggested_response),
        ) is Some {
            920u16
        } else if normalized_optional(opt_view(current_task)) is Some || normalized_optional(
            opt_view(suggested_response),
        ) is Some {
            820u16
        } else {
            0u16
        },
{
    let has_task = normalize_optional_text(current_task).is_some();
    let has_response = normalize_optional_text(suggested_response).is_some();
    if has_task && has_response {
        920
    } else if has_task || has_response {
        820
    } else {
        0
    }
}

// ---------------------------------------------------------------------------
// Signed numbers
// ---------------------------------------------------------------------------

/// The decimal text of an integer, with `-` before a negative one.
pub open spec fn signed_dec(n: int) -> Seq<char> {
    if n < 0 {
        "-"@ + dec((-n) as nat)
    } else {
        dec(n as nat)
    }
}

pub fn push_i64(out: &mut Vec<char>, n: i64)
    ensures
        final(out)@ == old(out)@ + signed_dec(n as int),
{
    if n < 0 {
        let m: u64 = (-(n + 1)) as u64 + 1;
        extend_str(out, "-");
        push_dec(out, m);
        proof {
            reveal_strlit("-");
        }
        assert(final(out)@ =~= old(out)@ + signed_dec(n as int)) by {
            assert(m as nat == (-n) as nat);
        }
    } else {
        push_dec(out, n as u64);
    }
}

// ---------------------------------------------------------------------------
// Applying a reflection with compare-and-swap
// ---------------------------------------------------------------------------

/// How a reflection apply ended.
#[derive(Debug, Clone, Copy, PartialEq, Eq, Structural)]
pub enum OmReflectionApplyOutcome {
    Applied,
    StaleGeneration,
    IdempotentEvent,
}

/// The counters an outcome adds to: (applied, stale, idempotent).
pub fn reflection_metric_deltas(outcome: OmReflectionApplyOutcome) -> (r: (u64, u64, u64))
    ensures
        r == match outcome {
            OmReflectionApplyOutcome::Applied => (1u64, 0u64, 0u64),
            OmReflectionApplyOutcome::StaleGeneration => (0u64, 1u64, 0u64),
            OmReflectionApplyOutcome::IdempotentEvent => (0u64, 0u64, 1u64),
        },
{
    match outcome {
        OmReflectionApplyOutcome::Applied => (1, 0, 0),
        OmReflectionApplyOutcome::StaleGeneration => (0, 1, 0),
        OmReflectionApplyOutcome::IdempotentEvent => (0, 0, 1),
    }
}

/// What an apply reads of the scope's record.
#[derive(Debug, Clone, Copy, PartialEq, Eq, Structural)]
pub struct ReflectionApplyRecordState {
    pub generation_count: u32,
    pub last_applied_outbox_event_id: Option<i64>,
}

/// The continuation kept for one canonical thread of a scope.
#[derive(Debug, Clone)]
pub struct OmContinuationState {
    pub canonical_thread_id: String,
    pub current_task: Option<String>,
    pub suggested_response: Option<String>,
}

/// An entry of the scope that no reflection has superseded yet.
#[derive(Debug, Clone, PartialEq, Eq)]
pub struct ActiveOmEntryRow {
    pub entry_id: String,
    pub text: String,
}

/// The continuation an applied reflection proposes for the record's thread:
/// the context's task and suggested response, trimmed, with the confidence
/// they earn, from the reflector. The stored row is this candidate merged
/// with the thread's current row by the continuation policy.
#[derive(Debug, Clone, PartialEq, Eq)]
pub struct ContinuationCandidate {
    pub current_task: Option<String>,
    pub suggested_response: Option<String>,
    pub confidence_milli: u16,
    pub source_kind: OmContinuationSourceKind,
}

/// The writes an applied reflection makes.
#[derive(Debug, Clone, PartialEq, Eq)]
pub struct ReflectionWrite {
    /// The id of the reflection's own entry.
    pub reflection_entry_id: String,
    /// The reflection, trimmed; none when it is blank (then no entry, no
    /// supersession and no event row is written).
    pub reflection_text: Option<String>,
    /// The active entries the reflection supersedes, in their order.
    pub superseded_entry_ids: Vec<String>,
    /// The id of the reflection event row.
    pub event_id: String,
    pub generation_count: u32,
    pub last_applied_outbox_event_id: i64,
    /// The record's new observations.
    pub active_observations: String,
    /// Where the record's observations now come from.
    pub origin_type: OmOriginType,
    /// The record's reflecting flag after the apply.
    pub is_reflecting: bool,
    /// The record's reflection-buffering flag after the apply.
    pub is_buffering_reflection: bool,
    /// The record's buffered reflection after the apply.
    pub buffered_reflection: Option<String>,
    pub buffered_reflection_tokens: Option<u32>,
    pub buffered_reflection_input_tokens: Option<u32>,
    pub reflected_observation_line_count: Option<u32>,
    /// The continuation to merge into the thread's row; none when the
    /// context has neither a task nor a suggested response.
    pub continuation: Option<ContinuationCandidate>,
}

/// What applying a reflection does.
#[derive(Debug, Clone, PartialEq, Eq)]
pub enum ReflectionApplyPlan {
    RecordNotFound(String),
    IdempotentEvent,
    StaleGeneration,
    Apply(ReflectionWrite),
}

/// The outcome the guards give: the event was applied before, or the
/// generation moved on, or the apply goes ahead. `None` when there is no
/// record.
pub open spec fn reflection_outcome(
    record: Option<ReflectionApplyRecordState>,
    expected_generation: u32,
    outbox_event_id: i64,
) -> Option<OmReflectionApplyOutcome> {
    match record {
        None => None,
        Some(r) => if r.last_applied_outbox_event_id == Some(outbox_event_id) {
            Some(OmReflectionApplyOutcome::IdempotentEvent)
        } else if r.generation_count != expected_generation {
            Some(OmReflectionApplyOutcome::StaleGeneration)
        } else {
            Some(OmReflectionApplyOutcome::Applied)
        },
    }
}

pub open spec fn rows_view(v: Seq<ActiveOmEntryRow>) -> Seq<(Seq<char>, Seq<char>)> {
    v.map_values(|r: ActiveOmEntryRow| (r.entry_id@, r.text@))
}

pub open spec fn strings_view(v: Seq<String>) -> Seq<Seq<char>> {
    v.map_values(|s: String| s@)
}

/// Whether `id` is among the requested ids, which are trimmed and where
/// blank ones count for nothing.
pub open spec fn requested(covers: Seq<Seq<char>>, id: Seq<char>) -> bool {
    exists|k: int| 0 <= k < covers.len() && trim(covers[k]).len() > 0 && #[trigger] trim(covers[k]) == id
}

/// The ids of the active entries that are requested, in entry order.
pub open spec fn covered_ids(rows: Seq<(Seq<char>, Seq<char>)>, covers: Seq<Seq<char>>) -> Seq<Seq<char>>
    decreases rows.len(),
{
    if rows.len() == 0 {
        Seq::empty()
    } else if requested(covers, rows.last().0) {
        covered_ids(rows.drop_last(), covers).push(rows.last().0)
    } else {
        covered_ids(rows.drop_last(), covers)
    }
}

/// The texts of the active entries that stay: all of them when the
/// reflection is blank, else those not requested.
pub open spec fn kept_texts(rows: Seq<(Seq<char>, Seq<char>)>, covers: Seq<Seq<char>>, reflecting: bool) -> Seq<
    Seq<char>,
>
    decreases rows.len(),
{
    if rows.len() == 0 {
        Seq::empty()
    } else if reflecting && requested(covers, rows.last().0) {
        kept_texts(rows.drop_last(), covers, reflecting)
    } else {
        kept_texts(rows.drop_last(), covers, reflecting).push(rows.last().1)
    }
}

/// The parts that are not blank.
pub open spec fn nonblank(parts: Seq<Seq<char>>) -> Seq<Seq<char>>
    decreases parts.len(),
{
    if parts.len() == 0 {
        Seq::empty()
    } else if is_blank(parts.last()) {
        nonblank(parts.drop_last())
    } else {
        nonblank(parts.drop_last()).push(parts.last())
    }
}

/// The record's observations after a reflection: the trimmed reflection,
/// then the texts that stay, blank ones left out, separated by blank lines.
pub open spec fn merged_observations(
    reflection: Seq<char>,
    rows: Seq<(Seq<char>, Seq<char>)>,
    covers: Seq<Seq<char>>,
) -> Seq<char> {
    let r = trim(reflection);
    let head = if r.len() > 0 {
        seq![r]
    } else {
        Seq::empty()
    };
    join_with(nonblank(head + kept_texts(rows, covers, r.len() > 0)), "\n\n"@)
}

/// One more generation, unless the counter is full.
pub open spec fn next_generation(g: u32) -> u32 {
    if g < u32::MAX {
        (g + 1) as u32
    } else {
        g
    }
}

/// The continuation candidate of a reflection's context: none when both the
/// task and the suggested response are blank or absent; otherwise both,
/// trimmed, with confidence 920 when both are given and 820 when one is,
/// from the reflector.
pub open spec fn reflection_continuation(
    c: Option<ContinuationCandidate>,
    current_task: Option<&str>,
    suggested_response: Option<&str>,
) -> bool {
    let t = normalized_optional(opt_view(current_task));
    let r = normalized_optional(opt_view(suggested_response));
    match c {
        None => t is None && r is None,
        Some(c) => {
            &&& (t is Some || r is Some)
            &&& opt_string_view(c.current_task) == t
            &&& opt_string_view(c.suggested_response) == r
            &&& c.confidence_milli == if t is Some && r is Some {
                920u16
            } else {
                820u16
            }
            &&& c.source_kind == OmContinuationSourceKind::Reflector
        },
    }
}

fn is_requested(covers: &Vec<String>, id: &Vec<char>) -> (r: bool)
    ensures
        r == requested(strings_view(covers@), id@),
{
    let ghost cs = strings_view(covers@);
    let mut k: usize = 0;
    while k < covers.len()
        invariant
            k <= covers@.len(),
            cs == strings_view(covers@),
            forall|j: int| 0 <= j < k ==> !(trim(cs[j]).len() > 0 && #[trigger] trim(cs[j]) == id@),
        decreases covers.len() - k,
    {
        let c = chars_of(covers[k].as_str());
        assert(cs[k as int] == c@);
        let (a, b) = trim_range(&c, 0, c.len());
        assert(c@.subrange(0, c@.len() as int) =~= c@);
        if a < b && chars_eq(&sub_vec(&c, a, b), id) {
            return true;
        }
        k = k + 1;
    }
    false
}

fn push_string(out: &mut Vec<String>, v: &Vec<char>)
    ensures
        strings_view(final(out)@) == strings_view(old(out)@).push(v@),
{
    let ghost before = strings_view(out@);
    out.push(string_of(v));
    assert(strings_view(out@) =~= before.push(v@));
}

/// Decides what applying `reflection` for outbox event `outbox_event_id`
/// does to the scope's record, given the record, its active entries and the
/// apply context's task and suggested response. The record's token count
/// and the canonical thread of the continuation row are left to the caller,
/// which owns the token estimator and the thread resolution.
pub fn plan_om_reflection_apply(
    scope_key: &str,
    expected_generation: u32,
    outbox_event_id: i64,
    reflection: &str,
    covers_entry_ids: &Vec<String>,
    current_task: Option<&str>,
    suggested_response: Option<&str>,
    record: Option<ReflectionApplyRecordState>,
    active_entries: &Vec<ActiveOmEntryRow>,
) -> (plan: ReflectionApplyPlan)
    ensures
        match plan {
            ReflectionApplyPlan::RecordNotFound(m) => record is None && m@
                == "om record not found for scope_key="@ + scope_key@,
            ReflectionApplyPlan::IdempotentEvent => reflection_outcome(
                record,
                expected_generation,
                outbox_event_id,
            ) == Some(OmReflectionApplyOutcome::IdempotentEvent),
            ReflectionApplyPlan::StaleGeneration => reflection_outcome(
                record,
                expected_generation,
                outbox_event_id,
            ) == Some(OmReflectionApplyOutcome::StaleGeneration),
            ReflectionApplyPlan::Apply(w) => {
                let rows = rows_view(active_entries@);
                let covers = strings_view(covers_entry_ids@);
                let r = trim(reflection@);
                &&& reflection_outcome(record, expected_generation, outbox_event_id) == Some(
                    OmReflectionApplyOutcome::Applied,
                )
                &&& w.reflection_entry_id@ == "reflection:"@ + scope_key@ + ":"@ + signed_dec(
                    outbox_event_id as int,
                )
                &&& opt_string_view(w.reflection_text) == normalized_optional(Some(reflection@))
                &&& strings_view(w.superseded_entry_ids@) == if r.len() > 0 {
                    covered_ids(rows, covers)
                } else {
                    Seq::empty()
                }
                &&& w.event_id@ == "outbox:"@ + signed_dec(outbox_event_id as int)
                &&& w.generation_count == next_generation(expected_generation)
                &&& w.last_applied_outbox_event_id == outbox_event_id
                &&& w.active_observations@ == merged_observations(reflection@, rows, covers)
                &&& w.origin_type == OmOriginType::Reflection
                &&& !w.is_reflecting
                &&& !w.is_buffering_reflection
                &&& w.buffered_reflection is None
                &&& w.buffered_reflection_tokens is None
                &&& w.buffered_reflection_input_tokens is None
                &&& w.reflected_observation_line_count is None
                &&& reflection_continuation(w.continuation, current_task, suggested_response)
            },
        },
{
    let state = match record {
        None => {
            let mut m = chars_of("om record not found for scope_key=");
            extend_str(&mut m, scope_key);
            return ReflectionApplyPlan::RecordNotFound(string_of(&m));
        },
        Some(s) => s,
    };
    if state.last_applied_outbox_event_id == Some(outbox_event_id) {
        return ReflectionApplyPlan::IdempotentEvent;
    }
    if state.generation_count != expected_generation {
        return ReflectionApplyPlan::StaleGeneration;
    }
    let ghost rows = rows_view(active_entries@);
    let ghost covers = strings_view(covers_entry_ids@);
    let rv = chars_of(reflection);
    let (ra, rb) = trim_range(&rv, 0, rv.len());
    assert(rv@.subrange(0, rv@.len() as int) =~= rv@);
    let refl = sub_vec(&rv, ra, rb);
    let reflecting = ra < rb;
    let mut covered: Vec<String> = Vec::new();
    let mut parts: Vec<Vec<char>> = Vec::new();
    if reflecting {
        parts.push(sub_vec(&rv, ra, rb));
    }
    let ghost head = vecs_view(parts@);
    assert(head == (if trim(reflection@).len() > 0 {
        seq![trim(reflection@)]
    } else {
        Seq::<Seq<char>>::empty()
    }));
    let mut i: usize = 0;
    assert(rows.take(0) =~= Seq::<(Seq<char>, Seq<char>)>::empty());
    while i < active_entries.len()
        invariant
            i <= active_entries@.len(),
            rows == rows_view(active_entries@),
            covers == strings_view(covers_entry_ids@),
            reflecting == (trim(reflection@).len() > 0),
            strings_view(covered@) == covered_ids(rows.take(i as int), covers),
            vecs_view(parts@) == head + kept_texts(rows.take(i as int), covers, reflecting),
        decreases active_entries.len() - i,
    {
        let id = chars_of(active_entries[i].entry_id.as_str());
        let text = chars_of(active_entries[i].text.as_str());
        assert(rows.take(i + 1).drop_last() =~= rows.take(i as int));
        assert(rows.take(i + 1).last() == (id@, text@));
        let asked = is_requested(covers_entry_ids, &id);
        if asked {
            push_string(&mut covered, &id);
        }
        if !(reflecting && asked) {
            let ghost before = vecs_view(parts@);
            parts.push(text);
            assert(vecs_view(parts@) =~= before.push(text@));
        }
        i = i + 1;
    }
    assert(rows.take(active_entries@.len() as int) =~= rows);
    let mut kept: Vec<Vec<char>> = Vec::new();
    let mut k: usize = 0;
    let ghost all_parts = vecs_view(parts@);
    assert(all_parts.take(0) =~= Seq::<Seq<char>>::empty());
    while k < parts.len()
        invariant
            k <= parts@.len(),
            all_parts == vecs_view(parts@),
            vecs_view(kept@) == nonblank(all_parts.take(k as int)),
        decreases parts.len() - k,
    {
        assert(all_parts.take(k + 1).drop_last() =~= all_parts.take(k as int));
        assert(all_parts.take(k + 1).last() == parts@[k as int]@);
        let (a, b) = trim_range(&parts[k], 0, parts[k].len());
        assert(parts@[k as int]@.subrange(0, parts@[k as int]@.len() as int) =~= parts@[k as int]@);
        if a < b {
            let ghost before = vecs_view(kept@);
            kept.push(sub_vec(&parts[k], 0, parts[k].len()));
            assert(vecs_view(kept@) =~= before.push(parts@[k as int]@));
        }
        k = k + 1;
    }
    assert(all_parts.take(parts@.len() as int) =~= all_parts);
    let merged = join_chars(&kept, "\n\n");
    let task = normalize_optional_text(current_task);
    let response = normalize_optional_text(suggested_response);
    let continuation = if task.is_some() || response.is_some() {
        Some(
            ContinuationCandidate {
                current_task: task,
                suggested_response: response,
                confidence_milli: continuation_confidence_milli(current_task, suggested_response),
                source_kind: OmContinuationSourceKind::Reflector,
            },
        )
    } else {
        None
    };
    let mut entry_id = chars_of("reflection:");
    extend_str(&mut entry_id, scope_key);
    extend_str(&mut entry_id, ":");
    push_i64(&mut entry_id, outbox_event_id);
    let mut event_id = chars_of("outbox:");
    push_i64(&mut event_id, outbox_event_id);
    let generation: u32 = if state.generation_count < u32::MAX {
        state.generation_count + 1
    } else {
        state.generation_count
    };
    let superseded = if reflecting {
        covered
    } else {
        let none: Vec<String> = Vec::new();
        assert(strings_view(none@) =~= Seq::<Seq<char>>::empty());
        none
    };
    ReflectionApplyPlan::Apply(
        ReflectionWrite {
            reflection_entry_id: string_of(&entry_id),
            reflection_text: if reflecting {
                Some(string_of(&refl))
            } else {
                None
            },
            superseded_entry_ids: superseded,
            event_id: string_of(&event_id),
            generation_count: generation,
            last_applied_outbox_event_id: outbox_event_id,
            active_observations: string_of(&merged),
            origin_type: OmOriginType::Reflection,
            is_reflecting: false,
            is_buffering_reflection: false,
            buffered_reflection: None,
            buffered_reflection_tokens: None,
            buffered_reflection_input_tokens: None,
            reflected_observation_line_count: None,
            continuation,
        },
    )
}

/// Replaying an event after it was applied changes nothing: the record the
/// apply leaves behind answers the same event as already applied.
pub proof fn lemma_reflection_replay_is_idempotent(
    record: ReflectionApplyRecordState,
    expected_generation: u32,
    outbox_event_id: i64,
    later_expected: u32,
)
    requires
        reflection_outcome(Some(record), expected_generation, outbox_event_id) == Some(
            OmReflectionApplyOutcome::Applied,
        ),
    ensures
        reflection_outcome(
            Some(
                ReflectionApplyRecordState {
                    generation_count: next_generation(expected_generation),
                    last_applied_outbox_event_id: Some(outbox_event_id),
                },
            ),
            later_expected,
            outbox_event_id,
        ) == Some(OmReflectionApplyOutcome::IdempotentEvent),
{
}

/// After an apply, the generation the caller expected is stale for any other
/// event (as long as the counter is not full).
pub proof fn lemma_reflection_apply_advances_generation(
    record: ReflectionApplyRecordState,
    expected_generation: u32,
    outbox_event_id: i64,
    other_event: i64,
)
    requires
        reflection_outcome(Some(record), expected_generation, outbox_event_id) == Some(
            OmReflectionApplyOutcome::Applied,
        ),
        expected_generation < u32::MAX,
        other_event != outbox_event_id,
    ensures
        reflection_outcome(
            Some(
                ReflectionApplyRecordState {
                    generation_count: next_generation(expected_generation),
                    last_applied_outbox_event_id: Some(outbox_event_id),
                },
            ),
            expected_generation,
            other_event,
        ) == Some(OmReflectionApplyOutcome::StaleGeneration),
{
}

/// Every superseded id is the id of an active entry.
pub proof fn lemma_covered_ids_are_active(rows: Seq<(Seq<char>, Seq<char>)>, covers: Seq<Seq<char>>, j: int)
    requires
        0 <= j < covered_ids(rows, covers).len(),
    ensures
        exists|i: int| 0 <= i < rows.len() && #[trigger] rows[i].0 == covered_ids(rows, covers)[j],
    decreases rows.len(),
{
    let prev = covered_ids(rows.drop_last(), covers);
    if j < prev.len() {
        lemma_covered_ids_are_active(rows.drop_last(), covers, j);
        let i = choose|i: int| 0 <= i < rows.drop_last().len() && #[trigger] rows.drop_last()[i].0 == prev[j];
        assert(rows[i].0 == prev[j]);
    } else {
        assert(rows[rows.len() - 1].0 == covered_ids(rows, covers)[j]);
    }
}

// ---------------------------------------------------------------------------
// Buffering a reflection and appending observation chunks
// ---------------------------------------------------------------------------

/// What buffering a reflection does to the record.
#[derive(Debug, Clone, PartialEq, Eq)]
pub enum BufferReflectionPlan {
    /// There is no record for the scope.
    RecordNotFound(String),
    /// The generation moved on: nothing is written; the answer is `false`.
    StaleGeneration,
    /// A reflection is already buffered: only the buffering flag is cleared;
    /// the answer is `false`.
    AlreadyBuffered,
    /// The reflection is stored (if the generation still matches when it is
    /// written).
    Store,
}

/// Decides a reflection buffer write from the record's generation and the
/// reflection it already buffers.
pub fn plan_buffer_om_reflection(
    scope_key: &str,
    expected_generation: u32,
    record: Option<(u32, Option<String>)>,
) -> (plan: BufferReflectionPlan)
    ensures
        match record {
            None => plan matches BufferReflectionPlan::RecordNotFound(m) && m@
                == "om record not found for scope_key="@ + scope_key@,
            Some((g, buffered)) => if g != expected_generation {
                plan == BufferReflectionPlan::StaleGeneration
            } else if (buffered matches Some(b) && !is_blank(b@)) {
                plan == BufferReflectionPlan::AlreadyBuffered
            } else {
                plan == BufferReflectionPlan::Store
            },
        },
{
    match record {
        None => {
            let mut m = chars_of("om record not found for scope_key=");
            extend_str(&mut m, scope_key);
            BufferReflectionPlan::RecordNotFound(string_of(&m))
        },
        Some((g, buffered)) => {
            if g != expected_generation {
                return BufferReflectionPlan::StaleGeneration;
            }
            match buffered {
                Some(b) => {
                    if !crate::text::is_blank_str(b.as_str()) {
                        return BufferReflectionPlan::AlreadyBuffered;
                    }
                    BufferReflectionPlan::Store
                },
                None => BufferReflectionPlan::Store,
            }
        },
    }
}

/// What appending an observation chunk under an outbox event does.
#[derive(Debug, Clone, PartialEq, Eq)]
pub enum ChunkAppendPlan {
    RecordNotFound(String),
    /// The generation moved on: nothing is written; the answer is `false`.
    StaleGeneration,
    /// The chunk belongs to another record.
    RecordMismatch(String),
    /// The event was applied before: nothing is written; the answer is
    /// `false`.
    AlreadyApplied,
    /// The chunk, its entry and the event marker are written; the answer is
    /// `true`.
    Insert,
}

/// Decides an observation chunk append from the scope's record (its id and
/// stored generation), the chunk's record id and whether the event was
/// already applied.
pub fn plan_append_om_observation_chunk(
    scope_key: &str,
    expected_generation: u32,
    record: Option<(String, i64)>,
    chunk_record_id: &str,
    event_already_applied: bool,
) -> (plan: ChunkAppendPlan)
    ensures
        match record {
            None => plan matches ChunkAppendPlan::RecordNotFound(m) && m@
                == "om record not found for scope_key="@ + scope_key@,
            Some((id, raw)) => {
                let g = if raw <= 0 {
                    0
                } else if raw > u32::MAX {
                    u32::MAX as int
                } else {
                    raw as int
                };
                if g != expected_generation {
                    plan == ChunkAppendPlan::StaleGeneration
                } else if chunk_record_id@ != id@ {
                    plan matches ChunkAppendPlan::RecordMismatch(m) && m@
                        == "om observation chunk record_id mismatch for scope_key="@ + scope_key@
                        + ": expected "@ + id@ + ", got "@ + chunk_record_id@
                } else if event_already_applied {
                    plan == ChunkAppendPlan::AlreadyApplied
                } else {
                    plan == ChunkAppendPlan::Insert
                }
            },
        },
{
    match record {
        None => {
            let mut m = chars_of("om record not found for scope_key=");
            extend_str(&mut m, scope_key);
            ChunkAppendPlan::RecordNotFound(string_of(&m))
        },
        Some((id, raw)) => {
            let g = i64_to_u32_saturating(raw);
            if g != expected_generation {
                return ChunkAppendPlan::StaleGeneration;
            }
            let idv = chars_of(id.as_str());
            let cv = chars_of(chunk_record_id);
            if !chars_eq(&cv, &idv) {
                let mut m = chars_of("om observation chunk record_id mismatch for scope_key=");
                extend_str(&mut m, scope_key);
                extend_str(&mut m, ": expected ");
                extend_chars(&mut m, &idv);
                extend_str(&mut m, ", got ");
                extend_chars(&mut m, &cv);
                return ChunkAppendPlan::RecordMismatch(string_of(&m));
            }
            if event_already_applied {
                ChunkAppendPlan::AlreadyApplied
            } else {
                ChunkAppendPlan::Insert
            }
        },
    }
}

// ---------------------------------------------------------------------------
// Outbox dispatch
// ---------------------------------------------------------------------------

/// What the mirror does with an outbox event.
#[derive(Debug, Clone, Copy, PartialEq, Eq, Structural)]
pub enum OutboxAction {
    /// Rebuild the index under the event's URI.
    SemanticScan,
    /// Nothing to do; the event counts as handled.
    Done,
    ReflectBuffer,
    ObserveBuffer,
    Reflect,
    /// Not an event the mirror knows; it is not handled.
    Unhandled,
}

pub open spec fn outbox_action_of(event_type: Seq<char>, om_enabled: bool) -> OutboxAction {
    if event_type == "semantic_scan"@ {
        OutboxAction::SemanticScan
    } else if event_type == "upsert"@ || event_type == "reindex"@ || event_type == "delete"@ {
        OutboxAction::Done
    } else if event_type == "om_reflect_buffer_requested"@ {
        if om_enabled {
            OutboxAction::ReflectBuffer
        } else {
            OutboxAction::Done
        }
    } else if event_type == "om_observe_buffer_requested"@ {
        if om_enabled {
            OutboxAction::ObserveBuffer
        } else {
            OutboxAction::Done
        }
    } else if event_type == "om_reflect_requested"@ {
        if om_enabled {
            OutboxAction::Reflect
        } else {
            OutboxAction::Done
        }
    } else {
        OutboxAction::Unhandled
    }
}

/// Routes an outbox event by its type; memory events are skipped as handled
/// while observational memory is off.
pub fn outbox_action(event_type: &str, om_enabled: bool) -> (r: OutboxAction)
    ensures
        r == outbox_action_of(event_type@, om_enabled),
{
    let t = chars_of(event_type);
    if chars_eq(&t, &chars_of("semantic_scan")) {
        OutboxAction::SemanticScan
    } else if chars_eq(&t, &chars_of("upsert")) || chars_eq(&t, &chars_of("reindex")) || chars_eq(
        &t,
        &chars_of("delete"),
    ) {
        OutboxAction::Done
    } else if chars_eq(&t, &chars_of("om_reflect_buffer_requested")) {
        if om_enabled {
            OutboxAction::ReflectBuffer
        } else {
            OutboxAction::Done
        }
    } else if chars_eq(&t, &chars_of("om_observe_buffer_requested")) {
        if om_enabled {
            OutboxAction::ObserveBuffer
        } else {
            OutboxAction::Done
        }
    } else if chars_eq(&t, &chars_of("om_reflect_requested")) {
        if om_enabled {
            OutboxAction::Reflect
        } else {
            OutboxAction::Done
        }
    } else {
        OutboxAction::Unhandled
    }
}

/// Whether a buffered-reflection request still has work: the record exists,
/// its generation is the expected one and nothing is buffered yet.
pub fn reflect_buffer_request_is_live(record: Option<(u32, Option<&str>)>, expected_generation: u32) -> (r: bool)
    ensures
        r == match record {
            None => false,
            Some((g, buffered)) => g == expected_generation && match buffered {
                Some(b) => is_blank(b@),
                None => true,
            },
        },
{
    match record {
        None => false,
        Some((g, buffered)) => g == expected_generation && match buffered {
            Some(b) => crate::text::is_blank_str(b),
            None => true,
        },
    }
}

/// Whether a reflection request still has work: the record exists and its
/// generation is the expected one.
pub fn reflect_request_is_live(record_generation: Option<u32>, expected_generation: u32) -> (r: bool)
    ensures
        r == (record_generation == Some(expected_generation)),
{
    match record_generation {
        None => false,
        Some(g) => g == expected_generation,
    }
}

} // verus!
