use vstd::prelude::*;

use crate::text::{chars_of, string_of};

verus! {

/// The version written into every outbox payload of this schema.
pub const OM_OUTBOX_SCHEMA_VERSION_V1: u8 = 1;

/// The scopes the observational-memory engine keeps records for.
#[derive(Debug, Clone, Copy, PartialEq, Eq, Structural)]
pub enum OmScope {
    Session,
    Thread,
    Resource,
}

/// A scope as the bridge protocol names it.
#[derive(Debug, Clone, Copy, PartialEq, Eq, Structural)]
pub enum OmScopeV1 {
    Session,
    Thread,
    Resource,
}

impl OmScopeV1 {
    pub open spec fn engine_scope(self) -> OmScope {
        match self {
            OmScopeV1::Session => OmScope::Session,
            OmScopeV1::Thread => OmScope::Thread,
            OmScopeV1::Resource => OmScope::Resource,
        }
    }

    /// The engine scope of the same name.
    pub fn to_engine_scope(self) -> (r: OmScope)
        ensures
            r == self.engine_scope(),
    {
        match self {
            OmScopeV1::Session => OmScope::Session,
            OmScopeV1::Thread => OmScope::Thread,
            OmScopeV1::Resource => OmScope::Resource,
        }
    }
}

pub open spec fn opt_str_view(o: Option<&str>) -> Option<Seq<char>> {
    match o {
        Some(s) => Some(s@),
        None => None,
    }
}

pub open spec fn opt_string_view(o: Option<String>) -> Option<Seq<char>> {
    match o {
        Some(s) => Some(s@),
        None => None,
    }
}

fn owned(s: &str) -> (r: String)
    ensures
        r@ == s@,
{
    string_of(&chars_of(s))
}

fn owned_opt(o: Option<&str>) -> (r: Option<String>)
    ensures
        opt_string_view(r) == opt_str_view(o),
{
    match o {
        Some(s) => Some(owned(s)),
        None => None,
    }
}

/// Asks for the buffered observations of a scope to be processed.
#[derive(Debug, Clone, PartialEq, Eq)]
pub struct OmObserveBufferRequestedV1 {
    pub schema_version: u8,
    pub scope_key: String,
    pub expected_generation: u32,
    pub requested_at: String,
    pub session_id: Option<String>,
}

impl OmObserveBufferRequestedV1 {
    pub fn new(
        scope_key: &str,
        expected_generation: u32,
        requested_at: String,
        session_id: Option<&str>,
    ) -> (r: Self)
        ensures
            r.schema_version == OM_OUTBOX_SCHEMA_VERSION_V1,
            r.scope_key@ == scope_key@,
            r.expected_generation == expected_generation,
            r.requested_at == requested_at,
            opt_string_view(r.session_id) == opt_str_view(session_id),
    {
        OmObserveBufferRequestedV1 {
            schema_version: OM_OUTBOX_SCHEMA_VERSION_V1,
            scope_key: owned(scope_key),
            expected_generation,
            requested_at,
            session_id: owned_opt(session_id),
        }
    }
}

/// Asks for the buffered reflection of a scope to be applied.
#[derive(Debug, Clone, PartialEq, Eq)]
pub struct OmReflectBufferRequestedV1 {
    pub schema_version: u8,
    pub scope_key: String,
    pub expected_generation: u32,
    pub requested_at: String,
}

impl OmReflectBufferRequestedV1 {
    pub fn new(scope_key: &str, expected_generation: u32, requested_at: String) -> (r: Self)
        ensures
            r.schema_version == OM_OUTBOX_SCHEMA_VERSION_V1,
            r.scope_key@ == scope_key@,
            r.expected_generation == expected_generation,
            r.requested_at == requested_at,
    {
        OmReflectBufferRequestedV1 {
            schema_version: OM_OUTBOX_SCHEMA_VERSION_V1,
            scope_key: owned(scope_key),
            expected_generation,
            requested_at,
        }
    }
}

/// Asks for a reflection pass over a scope.
#[derive(Debug, Clone, PartialEq, Eq)]
pub struct OmReflectRequestedV1 {
    pub schema_version: u8,
    pub scope_key: String,
    pub expected_generation: u32,
    pub requested_at: String,
}

impl OmReflectRequestedV1 {
    pub fn new(scope_key: &str, expected_generation: u32, requested_at: String) -> (r: Self)
        ensures
            r.schema_version == OM_OUTBOX_SCHEMA_VERSION_V1,
            r.scope_key@ == scope_key@,
            r.expected_generation == expected_generation,
            r.requested_at == requested_at,
    {
        OmReflectRequestedV1 {
            schema_version: OM_OUTBOX_SCHEMA_VERSION_V1,
            scope_key: owned(scope_key),
            expected_generation,
            requested_at,
        }
    }
}

/// What a hint read hands back for a scope.
#[derive(Debug, Clone, PartialEq, Eq, Default)]
pub struct OmHintReadStateV1 {
    pub scope_key: String,
    pub hint: Option<String>,
    pub snapshot_version: Option<String>,
    pub materialized_at: Option<String>,
    pub activated_message_ids: Vec<String>,
    pub buffered_chunk_ids: Vec<String>,
    pub selected_entry_ids: Vec<String>,
    pub observation_tokens_active: u32,
    pub observer_trigger_count_total: u32,
    pub reflector_trigger_count_total: u32,
}

/// Which record a caller binds a request to.
#[derive(Debug, Clone, PartialEq, Eq)]
pub struct OmScopeBindingInputV1 {
    pub scope: OmScopeV1,
    pub thread_id: Option<String>,
    pub resource_id: Option<String>,
}

/// A message to append to a session.
#[derive(Debug, Clone, PartialEq, Eq)]
pub struct OmMessageAppendRequestV1 {
    pub session_id: String,
    pub role: String,
    pub text: String,
    pub scope_binding: Option<OmScopeBindingInputV1>,
}

/// Where an appended message went.
#[derive(Debug, Clone, PartialEq, Eq)]
pub struct OmMessageAppendResultV1 {
    pub session_id: String,
    pub message_id: String,
    pub scope_key: String,
}

/// A request for the hint of a session.
#[derive(Debug, Clone, PartialEq, Eq)]
pub struct OmHintReadRequestV1 {
    pub session_id: String,
    pub scope_binding: Option<OmScopeBindingInputV1>,
}

/// What enqueuing an outbox event gave.
#[derive(Debug, Clone, PartialEq, Eq)]
pub struct OmOutboxEnqueueResultV1 {
    pub event_id: i64,
    pub event_type: String,
    pub scope_key: String,
}

/// Which outbox events a replay takes.
#[derive(Debug, Clone, Copy, PartialEq, Eq, Structural)]
pub enum OmReplayModeV1 {
    Full,
    OmOnly,
}

impl Default for OmReplayModeV1 {
    fn default() -> (r: Self)
        ensures
            r == OmReplayModeV1::Full,
    {
        OmReplayModeV1::Full
    }
}

impl OmReplayModeV1 {
    pub open spec fn name(self) -> Seq<char> {
        match self {
            OmReplayModeV1::Full => "full"@,
            OmReplayModeV1::OmOnly => "om_only"@,
        }
    }

    /// The wire name of the mode.
    pub fn as_str(self) -> (r: &'static str)
        ensures
            r@ == self.name(),
    {
        match self {
            OmReplayModeV1::Full => "full",
            OmReplayModeV1::OmOnly => "om_only",
        }
    }
}

/// A request to replay outbox events.
#[derive(Debug, Clone, PartialEq, Eq)]
pub struct OmReplayRequestV1 {
    pub limit: usize,
    pub include_dead_letter: bool,
    pub mode: OmReplayModeV1,
}

/// What a replay did.
#[derive(Debug, Clone, PartialEq, Eq, Default)]
pub struct OmReplayResultV1 {
    pub fetched: usize,
    pub processed: usize,
    pub done: usize,
    pub dead_letter: usize,
    pub requeued: usize,
    pub skipped: usize,
    pub scanned_count: Option<usize>,
    pub om_candidate_count: Option<usize>,
}

} // verus!
