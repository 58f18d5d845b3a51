use vstd::prelude::*;

use crate::json::{sort_keys, sort_strings};
use crate::om_state::{normalized_optional, opt_view, push_i64, signed_dec};
use crate::text::{
    ascii_lowercase, chars_eq, chars_of, dec, extend_chars, extend_str, is_blank, is_blank_str,
    join_chars, join_with, push_dec, string_of, sub_vec, to_ascii_lowercase, trim, trim_range,
    vecs_view,
};

verus! {

// ---------------------------------------------------------------------------
// Schema checks
// ---------------------------------------------------------------------------

/// A column the store cannot work without, and what is said when it is
/// missing.
pub struct RequiredColumn {
    pub table: &'static str,
    pub column: &'static str,
    pub message: &'static str,
}

/// The columns a migrated store must have, in the order they are checked:
/// (table, column, message when missing).
pub open spec fn column_rules() -> Seq<(Seq<char>, Seq<char>, Seq<char>)> {
    seq![
        ("outbox"@, "next_attempt_at"@, "unsupported outbox schema: next_attempt_at is missing; reset workspace state database"@),
        ("outbox"@, "lane"@, "unsupported outbox schema: lane is missing; reset workspace state database"@),
        ("om_records"@, "last_activated_message_ids_json"@, "unsupported om_records schema: last_activated_message_ids_json is missing; reset workspace state database"@),
        ("om_records"@, "current_task"@, "unsupported om_records schema: current_task is missing; reset workspace state database"@),
        ("om_records"@, "suggested_response"@, "unsupported om_records schema: suggested_response is missing; reset workspace state database"@),
        ("om_records"@, "observer_trigger_count_total"@, "unsupported om_records schema: observer_trigger_count_total is missing; reset workspace state database"@),
        ("om_records"@, "reflector_trigger_count_total"@, "unsupported om_records schema: reflector_trigger_count_total is missing; reset workspace state database"@),
        ("om_records"@, "buffered_reflection_tokens"@, "unsupported om_records schema: buffered_reflection_tokens is missing; reset workspace state database"@),
        ("om_records"@, "buffered_reflection_input_tokens"@, "unsupported om_records schema: buffered_reflection_input_tokens is missing; reset workspace state database"@),
        ("om_records"@, "reflected_observation_line_count"@, "unsupported om_records schema: reflected_observation_line_count is missing; reset workspace state database"@),
        ("reconcile_runs"@, "status"@, "unsupported reconcile_runs schema: status is missing; reset workspace state database"@)
    ]
}

pub open spec fn rules_view(v: Seq<RequiredColumn>) -> Seq<(Seq<char>, Seq<char>, Seq<char>)> {
    v.map_values(|c: RequiredColumn| (c.table@, c.column@, c.message@))
}

pub fn required_columns() -> (r: Vec<RequiredColumn>)
    ensures
        rules_view(r@) == column_rules(),
{
    let mut r: Vec<RequiredColumn> = Vec::new();
    r.push(RequiredColumn { table: "outbox", column: "next_attempt_at", message: "unsupported outbox schema: next_attempt_at is missing; reset workspace state database" });
    r.push(RequiredColumn { table: "outbox", column: "lane", message: "unsupported outbox schema: lane is missing; reset workspace state database" });
    r.push(RequiredColumn { table: "om_records", column: "last_activated_message_ids_json", message: "unsupported om_records schema: last_activated_message_ids_json is missing; reset workspace state database" });
    r.push(RequiredColumn { table: "om_records", column: "current_task", message: "unsupported om_records schema: current_task is missing; reset workspace state database" });
    r.push(RequiredColumn { table: "om_records", column: "suggested_response", message: "unsupported om_records schema: suggested_response is missing; reset workspace state database" });
    r.push(RequiredColumn { table: "om_records", column: "observer_trigger_count_total", message: "unsupported om_records schema: observer_trigger_count_total is missing; reset workspace state database" });
    r.push(RequiredColumn { table: "om_records", column: "reflector_trigger_count_total", message: "unsupported om_records schema: reflector_trigger_count_total is missing; reset workspace state database" });
    r.push(RequiredColumn { table: "om_records", column: "buffered_reflection_tokens", message: "unsupported om_records schema: buffered_reflection_tokens is missing; reset workspace state database" });
    r.push(RequiredColumn { table: "om_records", column: "buffered_reflection_input_tokens", message: "unsupported om_records schema: buffered_reflection_input_tokens is missing; reset workspace state database" });
    r.push(RequiredColumn { table: "om_records", column: "reflected_observation_line_count", message: "unsupported om_records schema: reflected_observation_line_count is missing; reset workspace state database" });
    r.push(RequiredColumn { table: "reconcile_runs", column: "status", message: "unsupported reconcile_runs schema: status is missing; reset workspace state database" });
    assert(rules_view(r@) =~= column_rules());
    r
}

/// A required column passes when the table has it.
pub fn ensure_required_column(has_column: bool, error_message: &str) -> (r: Result<(), String>)
    ensures
        match r {
            Ok(()) => has_column,
            Err(m) => !has_column && m@ == error_message@,
        },
{
    if has_column {
        Ok(())
    } else {
        Err(string_of(&chars_of(error_message)))
    }
}

/// Whether a table's column list names the column.
pub fn has_column(columns: &Vec<String>, column: &str) -> (r: bool)
    ensures
        r == exists|i: int| 0 <= i < columns@.len() && #[trigger] columns@[i]@ == column@,
{
    let c = chars_of(column);
    let mut i: usize = 0;
    while i < columns.len()
        invariant
            i <= columns@.len(),
            c@ == column@,
            forall|k: int| 0 <= k < i ==> columns@[k]@ != column@,
        decreases columns.len() - i,
    {
        if chars_eq(&chars_of(columns[i].as_str()), &c) {
            return true;
        }
        i = i + 1;
    }
    false
}

/// The statuses an outbox row may have (the schema's check constraint).
pub fn outbox_status_domain_values() -> (r: Vec<&'static str>)
    ensures
        r@.map_values(|s: &'static str| s@) == seq!["new"@, "processing"@, "done"@, "dead_letter"@],
{
    let r = vec!["new", "processing", "done", "dead_letter"];
    assert(r@.map_values(|s: &'static str| s@) =~= seq!["new"@, "processing"@, "done"@, "dead_letter"@]);
    r
}

/// The statuses a reconcile run may have (the schema's check constraint).
pub fn reconcile_run_status_domain_values() -> (r: Vec<&'static str>)
    ensures
        r@.map_values(|s: &'static str| s@) == seq!["running"@, "dry_run"@, "success"@, "failed"@],
{
    let r = vec!["running", "dry_run", "success", "failed"];
    assert(r@.map_values(|s: &'static str| s@) =~= seq!["running"@, "dry_run"@, "success"@, "failed"@]);
    r
}

/// Each run of equal neighbours kept once.
pub open spec fn dedup_adjacent(s: Seq<Seq<char>>) -> Seq<Seq<char>>
    decreases s.len(),
{
    if s.len() == 0 {
        s
    } else {
        let prev = dedup_adjacent(s.drop_last());
        if prev.len() > 0 && prev.last() == s.last() {
            prev
        } else {
            prev.push(s.last())
        }
    }
}

pub open spec fn strings_view(v: Seq<String>) -> Seq<Seq<char>> {
    v.map_values(|s: String| s@)
}

/// A stored status, as it is compared: trimmed and ASCII lower-cased.
pub open spec fn normalized_status(v: Seq<char>) -> Seq<char> {
    ascii_lowercase(trim(v))
}

/// The normalized values that are not allowed, in order of appearance.
pub open spec fn invalid_statuses(values: Seq<Seq<char>>, allowed: Seq<Seq<char>>) -> Seq<Seq<char>>
    decreases values.len(),
{
    if values.len() == 0 {
        Seq::empty()
    } else {
        let prev = invalid_statuses(values.drop_last(), allowed);
        let v = normalized_status(values.last());
        if allowed.contains(v) {
            prev
        } else {
            prev.push(v)
        }
    }
}

/// The verdict on a status column: every distinct value, normalized, must
/// be allowed; otherwise the offenders are listed once each, sorted.
pub open spec fn status_domain_check(values: Seq<Seq<char>>, allowed: Seq<Seq<char>>, prefix: Seq<char>) -> Result<
    (),
    Seq<char>,
> {
    let bad = dedup_adjacent(sort_keys(invalid_statuses(values, allowed)));
    if bad.len() == 0 {
        Ok(())
    } else {
        Err(prefix + ": invalid status value(s): "@ + join_with(bad, ", "@))
    }
}

fn is_allowed(allowed: &Vec<String>, v: &Vec<char>) -> (r: bool)
    ensures
        r == strings_view(allowed@).contains(v@),
{
    let mut i: usize = 0;
    while i < allowed.len()
        invariant
            i <= allowed@.len(),
            forall|k: int| 0 <= k < i ==> allowed@[k]@ != v@,
        decreases allowed.len() - i,
    {
        if chars_eq(&chars_of(allowed[i].as_str()), v) {
            assert(strings_view(allowed@)[i as int] == v@);
            return true;
        }
        i = i + 1;
    }
    assert forall|k: int| 0 <= k < strings_view(allowed@).len() implies strings_view(allowed@)[k]
        != v@ by {
        assert(strings_view(allowed@)[k] == allowed@[k]@);
    }
    false
}

/// Checks the distinct values found in a status column.
pub fn validate_status_domain(values: &Vec<String>, allowed: &Vec<String>, error_prefix: &str) -> (r: Result<
    (),
    String,
>)
    ensures
        match r {
            Ok(()) => status_domain_check(strings_view(values@), strings_view(allowed@), error_prefix@)
                is Ok,
            Err(m) => status_domain_check(strings_view(values@), strings_view(allowed@), error_prefix@)
                == Err::<(), Seq<char>>(m@),
        },
{
    let ghost vs = strings_view(values@);
    let ghost al = strings_view(allowed@);
    let mut invalid: Vec<Vec<char>> = Vec::new();
    let mut i: usize = 0;
    assert(vs.take(0) =~= Seq::<Seq<char>>::empty());
    while i < values.len()
        invariant
            i <= values@.len(),
            vs == strings_view(values@),
            al == strings_view(allowed@),
            vecs_view(invalid@) == invalid_statuses(vs.take(i as int), al),
        decreases values.len() - i,
    {
        let raw = chars_of(values[i].as_str());
        assert(vs.take(i + 1).drop_last() =~= vs.take(i as int));
        assert(vs.take(i + 1).last() == raw@);
        let (a, b) = trim_range(&raw, 0, raw.len());
        assert(raw@.subrange(0, raw@.len() as int) =~= raw@);
        let v = to_ascii_lowercase(&sub_vec(&raw, a, b));
        if !is_allowed(allowed, &v) {
            let ghost before = vecs_view(invalid@);
            invalid.push(v);
            assert(vecs_view(invalid@) =~= before.push(normalized_status(raw@)));
        }
        i = i + 1;
    }
    assert(vs.take(values@.len() as int) =~= vs);
    let sorted = sort_strings(invalid);
    let ghost ss = vecs_view(sorted@);
    let mut bad: Vec<Vec<char>> = Vec::new();
    let mut k: usize = 0;
    assert(ss.take(0) =~= Seq::<Seq<char>>::empty());
    while k < sorted.len()
        invariant
            k <= sorted@.len(),
            ss == vecs_view(sorted@),
            vecs_view(bad@) == dedup_adjacent(ss.take(k as int)),
        decreases sorted.len() - k,
    {
        assert(ss.take(k + 1).drop_last() =~= ss.take(k as int));
        assert(ss.take(k + 1).last() == sorted@[k as int]@);
        let n = bad.len();
        if n > 0 && chars_eq(&bad[n - 1], &sorted[k]) {
            assert(vecs_view(bad@).last() == bad@[n - 1]@);
        } else {
            if n > 0 {
                assert(vecs_view(bad@).last() == bad@[n - 1]@);
            }
            let ghost before = vecs_view(bad@);
            bad.push(sub_vec(&sorted[k], 0, sorted[k].len()));
            assert(sorted@[k as int]@.subrange(0, sorted@[k as int]@.len() as int) =~= sorted@[k as int]@);
            assert(vecs_view(bad@) =~= before.push(sorted@[k as int]@));
        }
        k = k + 1;
    }
    assert(ss.take(sorted@.len() as int) =~= ss);
    if bad.len() == 0 {
        return Ok(());
    }
    let mut m = chars_of(error_prefix);
    extend_str(&mut m, ": invalid status value(s): ");
    let joined = join_chars(&bad, ", ");
    extend_chars(&mut m, &joined);
    Err(string_of(&m))
}

// ---------------------------------------------------------------------------
// The one-shot move of records to entries
// ---------------------------------------------------------------------------

/// Where a record's observations came from.
#[derive(Debug, Clone, Copy, PartialEq, Eq, Structural)]
pub enum OmOriginType {
    Initial,
    Reflection,
}

pub fn entry_origin_kind(origin: OmOriginType) -> (r: &'static str)
    ensures
        r@ == match origin {
            OmOriginType::Initial => "observation"@,
            OmOriginType::Reflection => "reflection"@,
        },
{
    match origin {
        OmOriginType::Initial => "observation",
        OmOriginType::Reflection => "reflection",
    }
}

/// A record has a continuation to carry over when it has a task or a
/// suggested response that is not blank.
pub fn has_continuation_candidate(current_task: Option<&str>, suggested_response: Option<&str>) -> (r: bool)
    ensures
        r == (normalized_optional(opt_view(current_task)) is Some || normalized_optional(
            opt_view(suggested_response),
        ) is Some),
{
    crate::om_state::normalize_optional_text(current_task).is_some()
        || crate::om_state::normalize_optional_text(suggested_response).is_some()
}

/// The id of the entry a record's observations move to:
/// `omv2:{scope_key}:{generation}:{created_at in microseconds}`.
pub fn entry_id_for_record(scope_key: &str, generation_count: u32, created_at_micros: i64) -> (r: String)
    ensures
        r@ == "omv2:"@ + scope_key@ + ":"@ + dec(generation_count as nat) + ":"@ + signed_dec(
            created_at_micros as int,
        ),
{
    let mut m = chars_of("omv2:");
    extend_str(&mut m, scope_key);
    extend_str(&mut m, ":");
    push_dec(&mut m, generation_count as u64);
    extend_str(&mut m, ":");
    push_i64(&mut m, created_at_micros);
    string_of(&m)
}

/// What the migration reads of a record to plan.
pub struct MigrationRecord {
    pub scope_key: String,
    /// The canonical thread of the record, as the scope binding resolves it.
    pub canonical_thread_id: String,
    pub generation_count: u32,
    pub origin_type: OmOriginType,
    pub active_observations: String,
    pub current_task: Option<String>,
    pub suggested_response: Option<String>,
    /// The record's creation time, in microseconds and as RFC 3339 text.
    pub created_at_micros: i64,
    pub created_at: String,
    /// The record's last update, as RFC 3339 text.
    pub updated_at: String,
}

/// What the migration did or would do.
#[derive(Debug, Clone, PartialEq, Eq)]
pub struct OmV2MigrationReport {
    pub dry_run: bool,
    pub already_applied: bool,
    pub records_scanned: usize,
    pub entries_planned: usize,
    pub continuation_planned: usize,
    pub entries_upserted: usize,
    pub continuation_upserted: usize,
    pub protocol_meta_updated: bool,
    pub integrity_ok: bool,
    pub protocol_version: String,
    pub episodic_rev: String,
    pub issues: Vec<String>,
}

pub open spec fn opt_str_view(o: Option<String>) -> Option<Seq<char>> {
    match o {
        Some(s) => Some(s@),
        None => None,
    }
}

/// The records among the first `n` whose observations are not blank.
pub open spec fn entries_planned(rs: Seq<MigrationRecord>, n: int) -> nat
    decreases n,
{
    if n <= 0 {
        0
    } else {
        entries_planned(rs, n - 1) + if is_blank(rs[n - 1].active_observations@) {
            0nat
        } else {
            1nat
        }
    }
}

/// The records among the first `n` that carry a continuation.
pub open spec fn continuation_planned(rs: Seq<MigrationRecord>, n: int) -> nat
    decreases n,
{
    if n <= 0 {
        0
    } else {
        continuation_planned(rs, n - 1) + if normalized_optional(
            opt_str_view(rs[n - 1].current_task),
        ) is Some || normalized_optional(opt_str_view(rs[n - 1].suggested_response)) is Some {
            1nat
        } else {
            0nat
        }
    }
}

/// How the migration goes on after planning.
#[derive(Debug, Clone, PartialEq, Eq)]
pub enum MigrationStart {
    /// Nothing is written: the report is final.
    Finished(OmV2MigrationReport),
    /// The records are moved; the report is completed afterwards.
    Apply(OmV2MigrationReport),
}

fn opt_as_str(o: &Option<String>) -> (r: Option<&str>)
    ensures
        opt_view(r) == opt_str_view(*o),
{
    match o {
        Some(s) => Some(s.as_str()),
        None => None,
    }
}

/// The report a migration run starts with, and whether it goes on to apply:
/// the counts of what would move; a dry run ends here (the protocol row
/// would be written unless it matches); a run whose protocol row matches and
/// whose applied marker is present ends as already applied; any other run
/// goes on to apply.
pub open spec fn start_outcome(
    records: Seq<MigrationRecord>,
    dry_run: bool,
    protocol_version: Seq<char>,
    episodic_rev: Seq<char>,
    meta_matches: bool,
    applied_marker_present: bool,
    r: MigrationStart,
) -> bool {
    let rep = match r {
        MigrationStart::Finished(rep) => rep,
        MigrationStart::Apply(rep) => rep,
    };
    &&& rep.dry_run == dry_run
    &&& rep.records_scanned == records.len()
    &&& rep.entries_planned == entries_planned(records, records.len() as int)
    &&& rep.continuation_planned == continuation_planned(records, records.len() as int)
    &&& rep.entries_upserted == 0
    &&& rep.continuation_upserted == 0
    &&& rep.protocol_version@ == protocol_version
    &&& rep.episodic_rev@ == episodic_rev
    &&& rep.issues@.len() == 0
    &&& if dry_run {
        r is Finished && rep.protocol_meta_updated == !meta_matches && rep.integrity_ok
            && !rep.already_applied
    } else if meta_matches && applied_marker_present {
        r is Finished && rep.already_applied && rep.integrity_ok && !rep.protocol_meta_updated
    } else {
        r is Apply && !rep.already_applied && !rep.integrity_ok && !rep.protocol_meta_updated
    }
}

/// Plans the one-shot migration: counts what would move; a dry run ends
/// here (the protocol row would be written unless it matches); a run whose
/// protocol row matches and whose applied marker is present ends as
/// already applied; any other run goes on to apply.
pub fn start_om_v2_migration(
    records: &Vec<MigrationRecord>,
    dry_run: bool,
    protocol_version: &str,
    episodic_rev: &str,
    meta_matches: bool,
    applied_marker_present: bool,
) -> (r: MigrationStart)
    ensures
        start_outcome(
            records@,
            dry_run,
            protocol_version@,
            episodic_rev@,
            meta_matches,
            applied_marker_present,
            r,
        ),
{
    let mut entries: usize = 0;
    let mut continuations: usize = 0;
    let mut i: usize = 0;
    while i < records.len()
        invariant
            i <= records@.len(),
            entries == entries_planned(records@, i as int),
            continuations == continuation_planned(records@, i as int),
            entries <= i,
            continuations <= i,
        decreases records.len() - i,
    {
        if !is_blank_str(records[i].active_observations.as_str()) {
            entries = entries + 1;
        }
        if has_continuation_candidate(
            opt_as_str(&records[i].current_task),
            opt_as_str(&records[i].suggested_response),
        ) {
            continuations = continuations + 1;
        }
        i = i + 1;
    }
    let mut report = OmV2MigrationReport {
        dry_run,
        already_applied: false,
        records_scanned: records.len(),
        entries_planned: entries,
        continuation_planned: continuations,
        entries_upserted: 0,
        continuation_upserted: 0,
        protocol_meta_updated: false,
        integrity_ok: false,
        protocol_version: string_of(&chars_of(protocol_version)),
        episodic_rev: string_of(&chars_of(episodic_rev)),
        issues: Vec::new(),
    };
    if dry_run {
        report.protocol_meta_updated = !meta_matches;
        report.integrity_ok = true;
        return MigrationStart::Finished(report);
    }
    if meta_matches && applied_marker_present {
        report.already_applied = true;
        report.integrity_ok = true;
        return MigrationStart::Finished(report);
    }
    MigrationStart::Apply(report)
}

/// The issue with the stored protocol row, if any.
pub fn protocol_meta_issue(meta: Option<(&str, &str)>, protocol_version: &str, episodic_rev: &str) -> (r: Option<String>)
    ensures
        match meta {
            None => r matches Some(m) && m@ == "missing om_protocol_meta row"@,
            Some((p, e)) => if p@ == protocol_version@ && e@ == episodic_rev@ {
                r is None
            } else {
                r matches Some(m) && m@ == "om_protocol_meta mismatch: protocol_version="@ + p@
                    + ", episodic_rev="@ + e@
            },
        },
{
    match meta {
        None => Some(string_of(&chars_of("missing om_protocol_meta row"))),
        Some((p, e)) => {
            if chars_eq(&chars_of(p), &chars_of(protocol_version)) && chars_eq(
                &chars_of(e),
                &chars_of(episodic_rev),
            ) {
                None
            } else {
                let mut m = chars_of("om_protocol_meta mismatch: protocol_version=");
                extend_str(&mut m, p);
                extend_str(&mut m, ", episodic_rev=");
                extend_str(&mut m, e);
                Some(string_of(&m))
            }
        },
    }
}

/// The issue for a record whose entry is missing.
pub fn missing_entry_issue(scope_key: &str) -> (r: String)
    ensures
        r@ == "missing om_entries row for scope_key="@ + scope_key@,
{
    let mut m = chars_of("missing om_entries row for scope_key=");
    extend_str(&mut m, scope_key);
    string_of(&m)
}

/// The issue for a record whose continuation is missing.
pub fn missing_continuation_issue(scope_key: &str, canonical_thread_id: &str) -> (r: String)
    ensures
        r@ == "missing om_continuation_state row for scope_key="@ + scope_key@
            + " canonical_thread_id="@ + canonical_thread_id@,
{
    let mut m = chars_of("missing om_continuation_state row for scope_key=");
    extend_str(&mut m, scope_key);
    extend_str(&mut m, " canonical_thread_id=");
    extend_str(&mut m, canonical_thread_id);
    string_of(&m)
}

/// Completes an applied migration with the integrity issues found after
/// the writes: every planned entry and continuation was written and the
/// protocol row updated; it succeeds only when there are no issues.
pub fn finish_om_v2_migration(report: OmV2MigrationReport, issues: Vec<String>) -> (r: Result<
    OmV2MigrationReport,
    String,
>)
    ensures
        match r {
            Ok(rep) => {
                &&& issues@.len() == 0
                &&& rep.integrity_ok
                &&& rep.issues@.len() == 0
                &&& rep.protocol_meta_updated
                &&& rep.entries_upserted == report.entries_planned
                &&& rep.continuation_upserted == report.continuation_planned
                &&& rep.dry_run == report.dry_run
                &&& rep.already_applied == report.already_applied
                &&& rep.records_scanned == report.records_scanned
                &&& rep.entries_planned == report.entries_planned
                &&& rep.continuation_planned == report.continuation_planned
                &&& rep.protocol_version == report.protocol_version
                &&& rep.episodic_rev == report.episodic_rev
            },
            Err(m) => issues@.len() > 0 && m@ == "om v2 one-shot migration integrity check failed: "@
                + join_with(strings_view(issues@), "; "@),
        },
{
    if issues.len() == 0 {
        let mut rep = report;
        rep.entries_upserted = rep.entries_planned;
        rep.continuation_upserted = rep.continuation_planned;
        rep.protocol_meta_updated = true;
        rep.integrity_ok = true;
        rep.issues = issues;
        return Ok(rep);
    }
    let mut parts: Vec<Vec<char>> = Vec::new();
    let mut i: usize = 0;
    while i < issues.len()
        invariant
            i <= issues@.len(),
            vecs_view(parts@) == strings_view(issues@).take(i as int),
        decreases issues.len() - i,
    {
        let ghost before = vecs_view(parts@);
        parts.push(chars_of(issues[i].as_str()));
        assert(vecs_view(parts@) =~= before.push(strings_view(issues@)[i as int]));
        assert(strings_view(issues@).take(i + 1) =~= strings_view(issues@).take(i as int).push(
            strings_view(issues@)[i as int],
        ));
        i = i + 1;
    }
    assert(strings_view(issues@).take(issues@.len() as int) =~= strings_view(issues@));
    let mut m = chars_of("om v2 one-shot migration integrity check failed: ");
    let joined = join_chars(&parts, "; ");
    extend_chars(&mut m, &joined);
    Err(string_of(&m))
}


// ---------------------------------------------------------------------------
// The rows an applied migration writes, and the check that follows
// ---------------------------------------------------------------------------

/// The entry a record's observations move to.
#[derive(Debug, Clone, PartialEq, Eq)]
pub struct OmV2EntryWrite {
    pub entry_id: String,
    pub scope_key: String,
    pub canonical_thread_id: String,
    pub priority: String,
    /// The record's observations, trimmed.
    pub text: String,
    pub origin_kind: String,
    pub created_at: String,
}

/// The continuation row a record's task and suggested response move to.
#[derive(Debug, Clone, PartialEq, Eq)]
pub struct OmV2ContinuationWrite {
    pub scope_key: String,
    pub canonical_thread_id: String,
    pub current_task: Option<String>,
    pub suggested_response: Option<String>,
    pub confidence_milli: u16,
    pub source_kind: String,
    pub updated_at: String,
}

/// Every row an applied migration writes: the entries and continuations in
/// record order, then the protocol row.
#[derive(Debug, Clone, PartialEq, Eq)]
pub struct OmV2Writes {
    pub entries: Vec<OmV2EntryWrite>,
    pub continuations: Vec<OmV2ContinuationWrite>,
    pub protocol_version: String,
    pub episodic_rev: String,
}

pub ghost struct EntryWriteView {
    pub entry_id: Seq<char>,
    pub scope_key: Seq<char>,
    pub canonical_thread_id: Seq<char>,
    pub priority: Seq<char>,
    pub text: Seq<char>,
    pub origin_kind: Seq<char>,
    pub created_at: Seq<char>,
}

pub ghost struct ContinuationWriteView {
    pub scope_key: Seq<char>,
    pub canonical_thread_id: Seq<char>,
    pub current_task: Option<Seq<char>>,
    pub suggested_response: Option<Seq<char>>,
    pub confidence_milli: u16,
    pub source_kind: Seq<char>,
    pub updated_at: Seq<char>,
}

pub open spec fn entry_write_view(w: OmV2EntryWrite) -> EntryWriteView {
    EntryWriteView {
        entry_id: w.entry_id@,
        scope_key: w.scope_key@,
        canonical_thread_id: w.canonical_thread_id@,
        priority: w.priority@,
        text: w.text@,
        origin_kind: w.origin_kind@,
        created_at: w.created_at@,
    }
}

pub open spec fn continuation_write_view(w: OmV2ContinuationWrite) -> ContinuationWriteView {
    ContinuationWriteView {
        scope_key: w.scope_key@,
        canonical_thread_id: w.canonical_thread_id@,
        current_task: opt_str_view(w.current_task),
        suggested_response: opt_str_view(w.suggested_response),
        confidence_milli: w.confidence_milli,
        source_kind: w.source_kind@,
        updated_at: w.updated_at@,
    }
}

pub open spec fn origin_kind_name(origin: OmOriginType) -> Seq<char> {
    match origin {
        OmOriginType::Initial => "observation"@,
        OmOriginType::Reflection => "reflection"@,
    }
}

/// The id `omv2:{scope_key}:{generation}:{created_at in microseconds}`.
pub open spec fn record_entry_id(r: MigrationRecord) -> Seq<char> {
    "omv2:"@ + r.scope_key@ + ":"@ + dec(r.generation_count as nat) + ":"@ + signed_dec(
        r.created_at_micros as int,
    )
}

/// Whether a record carries a continuation to move.
pub open spec fn has_continuation(r: MigrationRecord) -> bool {
    normalized_optional(opt_str_view(r.current_task)) is Some || normalized_optional(
        opt_str_view(r.suggested_response),
    ) is Some
}

/// The entries the first `n` records move to: one for each record whose
/// observations are not blank, of medium priority.
pub open spec fn entry_writes(rs: Seq<MigrationRecord>, n: int) -> Seq<EntryWriteView>
    decreases n,
{
    if n <= 0 {
        Seq::empty()
    } else {
        let r = rs[n - 1];
        let before = entry_writes(rs, n - 1);
        if is_blank(r.active_observations@) {
            before
        } else {
            before.push(
                EntryWriteView {
                    entry_id: record_entry_id(r),
                    scope_key: r.scope_key@,
                    canonical_thread_id: r.canonical_thread_id@,
                    priority: "medium"@,
                    text: trim(r.active_observations@),
                    origin_kind: origin_kind_name(r.origin_type),
                    created_at: r.created_at@,
                },
            )
        }
    }
}

/// The continuation rows the first `n` records move to: one for each record
/// with a task or suggested response, both trimmed, confidence 920 with
/// both and 820 with one, from the migration.
pub open spec fn continuation_writes(rs: Seq<MigrationRecord>, n: int) -> Seq<ContinuationWriteView>
    decreases n,
{
    if n <= 0 {
        Seq::empty()
    } else {
        let r = rs[n - 1];
        let before = continuation_writes(rs, n - 1);
        let t = normalized_optional(opt_str_view(r.current_task));
        let s = normalized_optional(opt_str_view(r.suggested_response));
        if t is None && s is None {
            before
        } else {
            before.push(
                ContinuationWriteView {
                    scope_key: r.scope_key@,
                    canonical_thread_id: r.canonical_thread_id@,
                    current_task: t,
                    suggested_response: s,
                    confidence_milli: if t is Some && s is Some {
                        920u16
                    } else {
                        820u16
                    },
                    source_kind: "migration"@,
                    updated_at: r.updated_at@,
                },
            )
        }
    }
}

fn copy_str(s: &str) -> (r: String)
    ensures
        r@ == s@,
{
    string_of(&chars_of(s))
}

/// The rows an applied migration writes for `records`, and the protocol row.
pub fn plan_om_v2_writes(records: &Vec<MigrationRecord>, protocol_version: &str, episodic_rev: &str) -> (w:
    OmV2Writes)
    ensures
        w.entries@.map_values(|e: OmV2EntryWrite| entry_write_view(e)) == entry_writes(
            records@,
            records@.len() as int,
        ),
        w.continuations@.map_values(|c: OmV2ContinuationWrite| continuation_write_view(c))
            == continuation_writes(records@, records@.len() as int),
        w.protocol_version@ == protocol_version@,
        w.episodic_rev@ == episodic_rev@,
{
    let mut entries: Vec<OmV2EntryWrite> = Vec::new();
    let mut continuations: Vec<OmV2ContinuationWrite> = Vec::new();
    let mut i: usize = 0;
    while i < records.len()
        invariant
            i <= records@.len(),
            entries@.map_values(|e: OmV2EntryWrite| entry_write_view(e)) == entry_writes(
                records@,
                i as int,
            ),
            continuations@.map_values(|c: OmV2ContinuationWrite| continuation_write_view(c))
                == continuation_writes(records@, i as int),
        decreases records.len() - i,
    {
        let r = &records[i];
        if !is_blank_str(r.active_observations.as_str()) {
            let ghost before = entries@.map_values(|e: OmV2EntryWrite| entry_write_view(e));
            let e = OmV2EntryWrite {
                entry_id: entry_id_for_record(
                    r.scope_key.as_str(),
                    r.generation_count,
                    r.created_at_micros,
                ),
                scope_key: copy_str(r.scope_key.as_str()),
                canonical_thread_id: copy_str(r.canonical_thread_id.as_str()),
                priority: copy_str("medium"),
                text: crate::text::trim_str(r.active_observations.as_str()),
                origin_kind: copy_str(entry_origin_kind(r.origin_type)),
                created_at: copy_str(r.created_at.as_str()),
            };
            entries.push(e);
            assert(entries@.map_values(|e: OmV2EntryWrite| entry_write_view(e)) =~= before.push(
                entry_write_view(e),
            ));
        }
        let task = crate::om_state::normalize_optional_text(opt_as_str(&r.current_task));
        let response = crate::om_state::normalize_optional_text(
            opt_as_str(&r.suggested_response),
        );
        if task.is_some() || response.is_some() {
            let ghost before = continuations@.map_values(
                |c: OmV2ContinuationWrite| continuation_write_view(c),
            );
            let c = OmV2ContinuationWrite {
                scope_key: copy_str(r.scope_key.as_str()),
                canonical_thread_id: copy_str(r.canonical_thread_id.as_str()),
                current_task: task,
                suggested_response: response,
                confidence_milli: crate::om_state::continuation_confidence_milli(
                    opt_as_str(&r.current_task),
                    opt_as_str(&r.suggested_response),
                ),
                source_kind: copy_str("migration"),
                updated_at: copy_str(r.updated_at.as_str()),
            };
            continuations.push(c);
            assert(continuations@.map_values(|c: OmV2ContinuationWrite| continuation_write_view(c))
                =~= before.push(continuation_write_view(c)));
        }
        i = i + 1;
    }
    OmV2Writes {
        entries,
        continuations,
        protocol_version: copy_str(protocol_version),
        episodic_rev: copy_str(episodic_rev),
    }
}

/// Each record of the plan's counts has its row: as many entries are
/// written as were counted, and as many continuations.
pub proof fn lemma_writes_match_planned_counts(rs: Seq<MigrationRecord>, n: int)
    requires
        0 <= n <= rs.len(),
    ensures
        entry_writes(rs, n).len() == entries_planned(rs, n),
        continuation_writes(rs, n).len() == continuation_planned(rs, n),
    decreases n,
{
    if n > 0 {
        lemma_writes_match_planned_counts(rs, n - 1);
    }
}

/// Whether the stored protocol row is the one the migration writes.
pub open spec fn meta_row_matches(
    meta: Option<(Seq<char>, Seq<char>)>,
    protocol_version: Seq<char>,
    episodic_rev: Seq<char>,
) -> bool {
    meta == Some((protocol_version, episodic_rev))
}

pub open spec fn meta_view(meta: Option<(&str, &str)>) -> Option<(Seq<char>, Seq<char>)> {
    match meta {
        Some((p, e)) => Some((p@, e@)),
        None => None,
    }
}

/// Whether the stored protocol row matches the version and revision.
pub fn protocol_meta_matches(meta: Option<(&str, &str)>, protocol_version: &str, episodic_rev: &str) -> (r:
    bool)
    ensures
        r == meta_row_matches(meta_view(meta), protocol_version@, episodic_rev@),
{
    match meta {
        None => false,
        Some((p, e)) => chars_eq(&chars_of(p), &chars_of(protocol_version)) && chars_eq(
            &chars_of(e),
            &chars_of(episodic_rev),
        ),
    }
}

/// The issue with the stored protocol row, if any.
pub open spec fn meta_issue_of(
    meta: Option<(Seq<char>, Seq<char>)>,
    protocol_version: Seq<char>,
    episodic_rev: Seq<char>,
) -> Seq<Seq<char>> {
    match meta {
        None => seq!["missing om_protocol_meta row"@],
        Some((p, e)) => if p == protocol_version && e == episodic_rev {
            Seq::empty()
        } else {
            seq!["om_protocol_meta mismatch: protocol_version="@ + p + ", episodic_rev="@ + e]
        },
    }
}

/// The issues of the first `n` records: a record with observations whose
/// entry row is missing, and a record with a continuation whose row is
/// missing, each give one.
pub open spec fn record_issues(
    rs: Seq<MigrationRecord>,
    entry_present: Seq<bool>,
    continuation_present: Seq<bool>,
    n: int,
) -> Seq<Seq<char>>
    decreases n,
{
    if n <= 0 {
        Seq::empty()
    } else {
        let r = rs[n - 1];
        let a = if !is_blank(r.active_observations@) && !entry_present[n - 1] {
            seq!["missing om_entries row for scope_key="@ + r.scope_key@]
        } else {
            Seq::empty()
        };
        let b = if has_continuation(r) && !continuation_present[n - 1] {
            seq![
                "missing om_continuation_state row for scope_key="@ + r.scope_key@
                    + " canonical_thread_id="@ + r.canonical_thread_id@,
            ]
        } else {
            Seq::empty()
        };
        record_issues(rs, entry_present, continuation_present, n - 1) + a + b
    }
}

fn push_issue(out: &mut Vec<String>, m: String)
    ensures
        strings_view(final(out)@) == strings_view(old(out)@).push(m@),
{
    let ghost before = strings_view(out@);
    out.push(m);
    assert(strings_view(out@) =~= before.push(m@));
}

/// The integrity check after an apply: the protocol row first, then, record
/// by record, each row that should have been written and is not there.
/// `entry_present[i]` and `continuation_present[i]` say whether record
/// `i`'s entry and continuation rows were found.
pub fn om_v2_integrity_issues(
    meta: Option<(&str, &str)>,
    protocol_version: &str,
    episodic_rev: &str,
    records: &Vec<MigrationRecord>,
    entry_present: &Vec<bool>,
    continuation_present: &Vec<bool>,
) -> (issues: Vec<String>)
    requires
        entry_present@.len() == records@.len(),
        continuation_present@.len() == records@.len(),
    ensures
        strings_view(issues@) == meta_issue_of(meta_view(meta), protocol_version@, episodic_rev@)
            + record_issues(
            records@,
            entry_present@,
            continuation_present@,
            records@.len() as int,
        ),
{
    let mut issues: Vec<String> = Vec::new();
    match protocol_meta_issue(meta, protocol_version, episodic_rev) {
        Some(m) => push_issue(&mut issues, m),
        None => {},
    }
    let ghost head = strings_view(issues@);
    assert(head =~= meta_issue_of(meta_view(meta), protocol_version@, episodic_rev@));
    let mut i: usize = 0;
    while i < records.len()
        invariant
            i <= records@.len(),
            entry_present@.len() == records@.len(),
            continuation_present@.len() == records@.len(),
            head == meta_issue_of(meta_view(meta), protocol_version@, episodic_rev@),
            strings_view(issues@) == head + record_issues(
                records@,
                entry_present@,
                continuation_present@,
                i as int,
            ),
        decreases records.len() - i,
    {
        let r = &records[i];
        let ghost before = strings_view(issues@);
        if !is_blank_str(r.active_observations.as_str()) && !entry_present[i] {
            push_issue(&mut issues, missing_entry_issue(r.scope_key.as_str()));
        }
        let ghost mid = strings_view(issues@);
        if has_continuation_candidate(opt_as_str(&r.current_task), opt_as_str(&r.suggested_response))
            && !continuation_present[i] {
            push_issue(
                &mut issues,
                missing_continuation_issue(r.scope_key.as_str(), r.canonical_thread_id.as_str()),
            );
        }
        assert(strings_view(issues@) =~= head + record_issues(
            records@,
            entry_present@,
            continuation_present@,
            i + 1,
        ));
        i = i + 1;
    }
    issues
}

/// When every row the plan writes is found, no record gives an issue.
pub proof fn lemma_written_rows_pass_integrity(
    rs: Seq<MigrationRecord>,
    entry_present: Seq<bool>,
    continuation_present: Seq<bool>,
    n: int,
)
    requires
        0 <= n <= rs.len(),
        entry_present.len() == rs.len(),
        continuation_present.len() == rs.len(),
        forall|i: int| 0 <= i < n ==> #[trigger] entry_present[i],
        forall|i: int| 0 <= i < n ==> #[trigger] continuation_present[i],
    ensures
        record_issues(rs, entry_present, continuation_present, n) == Seq::<Seq<char>>::empty(),
    decreases n,
{
    if n > 0 {
        lemma_written_rows_pass_integrity(rs, entry_present, continuation_present, n - 1);
        assert(entry_present[n - 1]);
        assert(continuation_present[n - 1]);
        assert(record_issues(rs, entry_present, continuation_present, n) =~= Seq::<
            Seq<char>,
        >::empty());
    }
}

/// The protocol row an apply writes is the one the check expects.
pub proof fn lemma_written_protocol_row_passes_integrity(w: OmV2Writes)
    ensures
        meta_issue_of(Some((w.protocol_version@, w.episodic_rev@)), w.protocol_version@, w.episodic_rev@)
            == Seq::<Seq<char>>::empty(),
        meta_row_matches(Some((w.protocol_version@, w.episodic_rev@)), w.protocol_version@, w.episodic_rev@),
{
}

/// A second apply after a first one: once the protocol row the first apply
/// wrote (its version and revision) is stored and its applied marker is
/// set, a run that is not a dry run finds the migration applied. It ends at
/// once, counts nothing as written and writes no protocol row.
pub proof fn lemma_second_apply_finds_migration_applied(
    records: Seq<MigrationRecord>,
    protocol_version: Seq<char>,
    episodic_rev: Seq<char>,
    r: MigrationStart,
)
    requires
        start_outcome(
            records,
            false,
            protocol_version,
            episodic_rev,
            meta_row_matches(Some((protocol_version, episodic_rev)), protocol_version, episodic_rev),
            true,
            r,
        ),
    ensures
        r matches MigrationStart::Finished(rep) && rep.already_applied && rep.integrity_ok
            && rep.entries_upserted == 0 && rep.continuation_upserted == 0
            && !rep.protocol_meta_updated && !rep.dry_run,
{
}

} // verus!
