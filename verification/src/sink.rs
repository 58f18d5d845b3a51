use vstd::prelude::*;

use crate::text::{chars_of, is_blank, is_blank_str, string_of};

verus! {

/// A connector's position in its source.
#[derive(Debug, Clone, PartialEq, Eq)]
pub struct SourceCursorInput {
    pub connector: String,
    pub cursor_key: String,
    pub cursor_value: String,
    pub updated_at_ms: i64,
}

/// The stored form of a cursor.
#[derive(Debug, Clone, PartialEq, Eq)]
pub struct SourceCursorRow {
    pub connector: String,
    pub cursor_key: String,
    pub cursor_value: String,
    pub updated_at_ms: i64,
}

/// The write a cursor update makes.
#[derive(Debug, Clone, PartialEq, Eq)]
pub struct SourceCursorUpsertPlan {
    pub row: SourceCursorRow,
}

/// Why a cursor is refused: the first of its fields that is blank.
#[derive(Debug, Clone, Copy, PartialEq, Eq, Structural)]
pub enum CursorError {
    ConnectorRequired,
    CursorKeyRequired,
    CursorValueRequired,
}

impl CursorError {
    pub open spec fn text(self) -> Seq<char> {
        match self {
            CursorError::ConnectorRequired => "connector required"@,
            CursorError::CursorKeyRequired => "cursor_key required"@,
            CursorError::CursorValueRequired => "cursor_value required"@,
        }
    }

    /// The refusal as it is reported.
    pub fn message(self) -> (r: String)
        ensures
            r@ == self.text(),
    {
        match self {
            CursorError::ConnectorRequired => string_of(&chars_of("connector required")),
            CursorError::CursorKeyRequired => string_of(&chars_of("cursor_key required")),
            CursorError::CursorValueRequired => string_of(&chars_of("cursor_value required")),
        }
    }
}

/// The verdict on a cursor's three text fields: each must hold something
/// other than whitespace, checked in order.
pub open spec fn cursor_check(connector: Seq<char>, key: Seq<char>, value: Seq<char>) -> Result<
    (),
    CursorError,
> {
    if is_blank(connector) {
        Err(CursorError::ConnectorRequired)
    } else if is_blank(key) {
        Err(CursorError::CursorKeyRequired)
    } else if is_blank(value) {
        Err(CursorError::CursorValueRequired)
    } else {
        Ok(())
    }
}

fn check_cursor(connector: &str, key: &str, value: &str) -> (r: Result<(), CursorError>)
    ensures
        r == cursor_check(connector@, key@, value@),
{
    if is_blank_str(connector) {
        Err(CursorError::ConnectorRequired)
    } else if is_blank_str(key) {
        Err(CursorError::CursorKeyRequired)
    } else if is_blank_str(value) {
        Err(CursorError::CursorValueRequired)
    } else {
        Ok(())
    }
}

impl SourceCursorInput {
    pub fn validate(&self) -> (r: Result<(), CursorError>)
        ensures
            r == cursor_check(self.connector@, self.cursor_key@, self.cursor_value@),
    {
        check_cursor(self.connector.as_str(), self.cursor_key.as_str(), self.cursor_value.as_str())
    }
}

impl SourceCursorUpsertPlan {
    pub fn validate(&self) -> (r: Result<(), CursorError>)
        ensures
            r == cursor_check(self.row.connector@, self.row.cursor_key@, self.row.cursor_value@),
    {
        check_cursor(
            self.row.connector.as_str(),
            self.row.cursor_key.as_str(),
            self.row.cursor_value.as_str(),
        )
    }
}

fn copy_string(s: &String) -> (r: String)
    ensures
        r@ == s@,
{
    string_of(&chars_of(s.as_str()))
}

/// The sink service: the planning half of its operations.
#[derive(Debug, Clone, Copy)]
pub struct AxiomSync;

impl AxiomSync {
    pub fn new() -> (r: Self) {
        AxiomSync
    }

    /// The upsert a valid cursor makes: the cursor's fields, unchanged.
    pub fn plan_upsert_source_cursor(&self, input: &SourceCursorInput) -> (r: Result<
        SourceCursorUpsertPlan,
        CursorError,
    >)
        ensures
            match r {
                Ok(plan) => cursor_check(input.connector@, input.cursor_key@, input.cursor_value@)
                    is Ok && plan.row.connector@ == input.connector@ && plan.row.cursor_key@
                    == input.cursor_key@ && plan.row.cursor_value@ == input.cursor_value@
                    && plan.row.updated_at_ms == input.updated_at_ms,
                Err(e) => cursor_check(input.connector@, input.cursor_key@, input.cursor_value@)
                    == Err::<(), CursorError>(e),
            },
    {
        match input.validate() {
            Err(e) => Err(e),
            Ok(()) => Ok(
                SourceCursorUpsertPlan {
                    row: SourceCursorRow {
                        connector: copy_string(&input.connector),
                        cursor_key: copy_string(&input.cursor_key),
                        cursor_value: copy_string(&input.cursor_value),
                        updated_at_ms: input.updated_at_ms,
                    },
                },
            ),
        }
    }
}

/// A plan made from a valid cursor passes the plan's own check.
pub proof fn lemma_planned_cursor_validates(input: SourceCursorInput, plan: SourceCursorUpsertPlan)
    requires
        cursor_check(input.connector@, input.cursor_key@, input.cursor_value@) is Ok,
        plan.row.connector@ == input.connector@,
        plan.row.cursor_key@ == input.cursor_key@,
        plan.row.cursor_value@ == input.cursor_value@,
    ensures
        cursor_check(plan.row.connector@, plan.row.cursor_key@, plan.row.cursor_value@) is Ok,
{
}

/// The sink subcommands; each names the JSON file it reads.
#[derive(Debug, Clone, PartialEq, Eq)]
pub enum SinkCommand {
    PlanAppendRawEvents { file: String },
    ApplyIngestPlan { file: String },
    PlanUpsertSourceCursor { file: String },
    ApplySourceCursorPlan { file: String },
}

/// The arguments of the `sink` command.
#[derive(Debug, Clone, PartialEq, Eq)]
pub struct SinkArgs {
    pub command: SinkCommand,
}

} // verus!
