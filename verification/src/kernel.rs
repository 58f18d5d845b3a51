use vstd::prelude::*;

use crate::json::JsonValue;
use crate::text::{chars_of, is_blank, is_blank_str, string_of};

verus! {

// ---------------------------------------------------------------------------
// Domain records
// ---------------------------------------------------------------------------

/// A file or link attached to a raw event.
#[derive(Debug, Clone)]
pub struct RawArtifactEnvelope {
    pub artifact_kind: String,
    pub uri: String,
    pub mime_type: Option<String>,
    pub sha256: Option<String>,
    pub size_bytes: Option<i64>,
}

/// One event as a connector captured it. Times are RFC 3339 text.
#[derive(Debug)]
pub struct RawEventEnvelope {
    pub source_kind: String,
    pub connector: String,
    pub session_kind: String,
    pub external_session_key: Option<String>,
    pub external_entry_key: Option<String>,
    pub event_kind: String,
    pub observed_at: String,
    pub captured_at: Option<String>,
    pub workspace_root: Option<String>,
    pub content_hash: Option<String>,
    pub dedupe_key: Option<String>,
    pub payload: JsonValue,
    pub raw_payload: Option<JsonValue>,
    pub artifacts: Vec<RawArtifactEnvelope>,
}

/// The events a connector hands over at once.
#[derive(Debug)]
pub struct RawEventBatch {
    pub batch_id: String,
    pub events: Vec<RawEventEnvelope>,
}

/// A session as the projection keeps it.
#[derive(Debug, Clone)]
pub struct SessionRecord {
    pub session_id: String,
    pub session_kind: String,
    pub external_session_key: Option<String>,
    pub title: Option<String>,
    pub workspace_root: Option<String>,
}

/// An entry of a session.
#[derive(Debug)]
pub struct EntryRecord {
    pub entry_id: String,
    pub session_id: String,
    pub seq_no: i64,
    pub entry_kind: String,
    pub actor_id: Option<String>,
    pub text_body: Option<String>,
    pub metadata_json: JsonValue,
}

// ---------------------------------------------------------------------------
// Ingest planning
// ---------------------------------------------------------------------------

/// Why an event of a batch was turned away.
#[derive(Debug, Clone, Copy, PartialEq, Eq, Structural)]
pub enum IngestRejection {
    MissingConnector,
    MissingEventKind,
}

impl IngestRejection {
    pub open spec fn text(self) -> Seq<char> {
        match self {
            IngestRejection::MissingConnector => "missing connector"@,
            IngestRejection::MissingEventKind => "missing event_kind"@,
        }
    }

    /// The reason as it is reported.
    pub fn message(self) -> (r: String)
        ensures
            r@ == self.text(),
    {
        match self {
            IngestRejection::MissingConnector => string_of(&chars_of("missing connector")),
            IngestRejection::MissingEventKind => string_of(&chars_of("missing event_kind")),
        }
    }
}

/// How a batch splits into events to store and events turned away.
pub struct IngestPlan {
    pub accepted: Vec<RawEventEnvelope>,
    pub rejected: Vec<(usize, IngestRejection)>,
    pub projection_required: bool,
}

/// The verdict on one event: a blank connector, then a blank event kind,
/// turns it away.
pub open spec fn event_verdict(e: RawEventEnvelope) -> Option<IngestRejection> {
    if is_blank(e.connector@) {
        Some(IngestRejection::MissingConnector)
    } else if is_blank(e.event_kind@) {
        Some(IngestRejection::MissingEventKind)
    } else {
        None
    }
}

/// The events of `es` that pass, in order.
pub open spec fn accepted_events(es: Seq<RawEventEnvelope>) -> Seq<RawEventEnvelope>
    decreases es.len(),
{
    if es.len() == 0 {
        Seq::empty()
    } else if event_verdict(es.last()) is None {
        accepted_events(es.drop_last()).push(es.last())
    } else {
        accepted_events(es.drop_last())
    }
}

/// The index and reason of each event of `es` that is turned away, in order.
pub open spec fn rejected_events(es: Seq<RawEventEnvelope>) -> Seq<(usize, IngestRejection)>
    decreases es.len(),
{
    if es.len() == 0 {
        Seq::empty()
    } else {
        match event_verdict(es.last()) {
            Some(r) => rejected_events(es.drop_last()).push(((es.len() - 1) as usize, r)),
            None => rejected_events(es.drop_last()),
        }
    }
}

/// Splits a batch: every event lands in exactly one of the two lists, and a
/// projection is needed exactly when something was accepted.
pub fn plan_ingest(batch: RawEventBatch) -> (plan: IngestPlan)
    ensures
        plan.accepted@ == accepted_events(batch.events@),
        plan.rejected@ == rejected_events(batch.events@),
        plan.projection_required == (plan.accepted@.len() > 0),
{
    let ghost all = batch.events@;
    let mut accepted: Vec<RawEventEnvelope> = Vec::new();
    let mut rejected: Vec<(usize, IngestRejection)> = Vec::new();
    let mut events = batch.events;
    let mut taken: Vec<RawEventEnvelope> = Vec::new();
    let mut idx: usize = 0;
    let n = events.len();
    assert(all.take(0) =~= Seq::<RawEventEnvelope>::empty());
    while events.len() > 0
        invariant
            idx + events@.len() == n,
            n == all.len(),
            events@ == all.skip(idx as int),
            accepted@ == accepted_events(all.take(idx as int)),
            rejected@ == rejected_events(all.take(idx as int)),
        decreases events.len(),
    {
        let event = events.remove(0);
        assert(event == all[idx as int]);
        assert(all.take(idx + 1).drop_last() =~= all.take(idx as int));
        assert(all.take(idx + 1).last() == all[idx as int]);
        assert(events@ =~= all.skip(idx + 1));
        if is_blank_str(event.connector.as_str()) {
            rejected.push((idx, IngestRejection::MissingConnector));
        } else if is_blank_str(event.event_kind.as_str()) {
            rejected.push((idx, IngestRejection::MissingEventKind));
        } else {
            accepted.push(event);
        }
        idx = idx + 1;
    }
    assert(all.take(n as int) =~= all);
    IngestPlan { projection_required: accepted.len() > 0, accepted, rejected }
}

/// Every event of a batch is either accepted or rejected, never both, and
/// the two lists together are as long as the batch.
pub proof fn lemma_ingest_partition(es: Seq<RawEventEnvelope>)
    ensures
        accepted_events(es).len() + rejected_events(es).len() == es.len(),
    decreases es.len(),
{
    if es.len() > 0 {
        lemma_ingest_partition(es.drop_last());
    }
}

// ---------------------------------------------------------------------------
// HTTP sink and query answers
// ---------------------------------------------------------------------------

/// The state the HTTP sink handlers share.
#[derive(Debug, Clone, Copy)]
pub struct AppState;

/// The answer to a raw-event append.
#[derive(Debug, Clone, PartialEq, Eq)]
pub struct AppendRawEventsResponse {
    pub accepted: usize,
    pub rejected: usize,
    pub projection_required: bool,
}

/// The answer to a raw-event append: every event of the batch is taken.
pub fn append_raw_events(batch: &RawEventBatch) -> (r: AppendRawEventsResponse)
    ensures
        r.accepted == batch.events@.len(),
        r.rejected == 0,
        r.projection_required == (batch.events@.len() > 0),
{
    let accepted = batch.events.len();
    AppendRawEventsResponse { accepted, rejected: 0, projection_required: accepted > 0 }
}

/// The state the HTTP query handlers share.
#[derive(Debug, Clone, Copy)]
pub struct QueryState;

/// A search over entries.
#[derive(Debug, Clone)]
pub struct SearchRequest {
    pub query: String,
    pub session_kind: Option<String>,
    pub connector: Option<String>,
    pub workspace_root: Option<String>,
    pub limit: Option<usize>,
}

/// One search result.
#[derive(Debug, Clone)]
pub struct SearchHit {
    pub id: String,
    pub kind: String,
    pub title: String,
    pub snippet: String,
}

/// The results of a search.
#[derive(Debug, Clone)]
pub struct SearchResponse {
    pub hits: Vec<SearchHit>,
}

/// The answer to an entry search: the entry index is not wired in, so no
/// entry matches.
pub fn search_entries(req: &SearchRequest) -> (r: SearchResponse)
    ensures
        r.hits@.len() == 0,
{
    SearchResponse { hits: Vec::new() }
}

// ---------------------------------------------------------------------------
// Rebuilds
// ---------------------------------------------------------------------------

/// The sessions whose derived records are rebuilt.
#[derive(Debug, Clone)]
pub struct DeriveScope {
    pub session_ids: Vec<String>,
}

/// Rebuilds the derived records of a scope. No derivation step is defined
/// yet, so nothing changes.
pub fn rebuild_derivations(scope: DeriveScope) {
}

/// The sessions whose projection is rebuilt.
#[derive(Debug, Clone)]
pub struct ProjectionScope {
    pub session_ids: Vec<String>,
}

/// Rebuilds the projection of a scope. No projection step is defined yet, so
/// nothing changes.
pub fn rebuild_projection(scope: ProjectionScope) {
}

} // verus!
