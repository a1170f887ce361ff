//! The operations that clients asked for and that are not over.

use vstd::prelude::*;
use uuid::Uuid;
use crate::action::{ExecuteParams, OperationView, operation_of, operation_result};
use crate::events::is_final_status;
use crate::launch::LaunchBackend;
use crate::model::OperationResult;
use crate::table::Table;
use crate::text::{concat, is_hex_digit};

verus! {

/// A universally unique identifier of random bits, as it is written down: digits
/// in lower case and hyphens.
pub open spec fn is_random_uuid(text: Seq<char>) -> bool {
    &&& text.len() == 36
    &&& forall|i: int|
        0 <= i < 36 ==> if i == 8 || i == 13 || i == 18 || i == 23 {
            #[trigger] text[i] == '-'
        } else {
            is_hex_digit(text[i]) && !('A' <= text[i] <= 'F')
        }
    &&& text[14] == '4'
    &&& (text[19] == '8' || text[19] == '9' || text[19] == 'a' || text[19] == 'b')
}

/// `Uuid::new_v4`, written down by its `Display`: some identifier of random bits.
/// Which one is up to the system's source of random numbers.
#[verifier::external_body]
fn random_uuid() -> (id: String)
    ensures
        is_random_uuid(id@),
{
    Uuid::new_v4().to_string()
}

/// The name of a new operation.
pub fn new_operation_id() -> (id: String)
    ensures
        exists|unique: Seq<char>| #[trigger]
            is_random_uuid(unique) && id@ == "operation-"@ + unique,
{
    let unique = random_uuid();
    concat("operation-", unique.as_str())
}

/// The client saw another list than there is now.
#[derive(Debug, Clone, Copy, PartialEq, Eq, Structural)]
pub struct StaleRevision;

impl StaleRevision {
    pub fn message(&self) -> (text: &'static str)
        ensures
            text@ == "application state changed; refresh and retry"@,
    {
        "application state changed; refresh and retry"
    }
}

/// A client that says which list it saw must have seen this one.
pub open spec fn is_stale(expected: Option<u64>, revision: u64) -> bool {
    match expected {
        Some(e) => e != revision,
        None => false,
    }
}

/// Operations by name.
pub type Active = Map<Seq<char>, OperationView>;

/// An operation that is accepted is active.
pub open spec fn accepting(active: Active, record: OperationView) -> Active {
    active.insert(record.id, record)
}

/// An operation that ends is no longer active; only an active one can end.
pub open spec fn ending(active: Active, id: Seq<char>) -> (Active, bool) {
    (active.remove(id), active.contains_key(id))
}

/// An accepted operation ends, and it ends once: whichever of its result and its
/// cancellation comes first is reported, and nothing after it.
pub proof fn lemma_ends_once(active: Active, record: OperationView)
    ensures
        ending(accepting(active, record), record.id).1,
        !ending(ending(accepting(active, record), record.id).0, record.id).1,
{
}

/// What happens to one operation leaves the others as they are.
pub proof fn lemma_others_untouched(active: Active, record: OperationView, other: Seq<char>)
    requires
        other != record.id,
    ensures
        accepting(active, record).contains_key(other) == active.contains_key(other),
        ending(active, record.id).0.contains_key(other) == active.contains_key(other),
        active.contains_key(other) ==> accepting(active, record)[other] == active[other]
            && ending(active, record.id).0[other] == active[other],
{
}

/// The operations that are not over.
#[derive(Debug)]
pub struct Operations {
    pub active: Table<String, OperationResult>,
}

impl View for Operations {
    type V = Active;

    open spec fn view(&self) -> Active {
        self.active@.map_values(|record: OperationResult| record@)
    }
}

/// The record of an operation that was accepted.
pub open spec fn accepted_record(id: Seq<char>, params: ExecuteParams) -> OperationView {
    operation_of(
        id,
        params.action,
        params.target_id@,
        "accepted"@,
        "Operation accepted"@,
        None,
    )
}

/// The record of an operation that was cancelled.
pub open spec fn cancelled_record(accepted: OperationView) -> OperationView {
    OperationView { status: "cancelled"@, message: "Operation cancelled"@, ..accepted }
}

/// The record of an operation that has begun.
pub fn running(id: &str, params: &ExecuteParams) -> (record: OperationResult)
    ensures
        record@ == operation_of(
            id@,
            params.action,
            params.target_id@,
            "running"@,
            "Operation running"@,
            None,
        ),
{
    operation_result(
        id,
        params.action,
        params.target_id.as_str(),
        "running",
        "Operation running",
        None,
    )
}

/// The record of an operation that was carried out.
pub fn completed(
    id: &str,
    params: &ExecuteParams,
    message: &str,
    launch: Option<LaunchBackend>,
) -> (record: OperationResult)
    ensures
        record@ == operation_of(
            id@,
            params.action,
            params.target_id@,
            "completed"@,
            message@,
            launch,
        ),
        is_final_status(record@.status),
{
    operation_result(
        id,
        params.action,
        params.target_id.as_str(),
        "completed",
        message,
        launch,
    )
}

/// The record of an operation that could not be carried out.
pub fn failed(id: &str, params: &ExecuteParams, message: &str) -> (record: OperationResult)
    ensures
        record@ == operation_of(
            id@,
            params.action,
            params.target_id@,
            "failed"@,
            message@,
            None,
        ),
        is_final_status(record@.status),
{
    operation_result(id, params.action, params.target_id.as_str(), "failed", message, None)
}

impl Operations {
    pub open spec fn wf(&self) -> bool {
        self.active.wf()
    }

    pub fn new() -> (operations: Self)
        ensures
            operations.wf(),
            operations@ == Map::<Seq<char>, OperationView>::empty(),
    {
        let operations = Operations { active: Table::new() };
        assert(operations@ =~= Map::<Seq<char>, OperationView>::empty());
        operations
    }

    /// Accepts an operation under a name, unless the client saw another list.
    pub fn accept(&mut self, id: String, params: &ExecuteParams, revision: u64) -> (record: Result<
        OperationResult,
        StaleRevision,
    >)
        requires
            old(self).wf(),
        ensures
            final(self).wf(),
            match record {
                Err(_) => is_stale(params.expected_revision, revision) && *final(self)
                    == *old(self),
                Ok(r) => {
                    &&& !is_stale(params.expected_revision, revision)
                    &&& r@ == accepted_record(id@, *params)
                    &&& final(self)@ == accepting(old(self)@, r@)
                },
            },
    {
        if let Some(expected) = params.expected_revision {
            if expected != revision {
                return Err(StaleRevision);
            }
        }
        let record = operation_result(
            id.as_str(),
            params.action,
            params.target_id.as_str(),
            "accepted",
            "Operation accepted",
            None,
        );
        let _ = self.active.insert(id, record.copied());
        assert(self@ =~= accepting(old(self)@, record@));
        Ok(record)
    }

    /// Ends an operation with its result. The result is to be reported, unless
    /// the operation was cancelled before.
    pub fn finish(&mut self, record: OperationResult) -> (report: Option<OperationResult>)
        requires
            old(self).wf(),
        ensures
            final(self).wf(),
            final(self)@ == ending(old(self)@, record@.id).0,
            match report {
                Some(r) => ending(old(self)@, record@.id).1 && r@ == record@,
                None => !ending(old(self)@, record@.id).1,
            },
    {
        let found = self.active.remove(&record.id);
        assert(self@ =~= ending(old(self)@, record@.id).0);
        match found {
            Some(_) => Some(record),
            None => None,
        }
    }

    /// Ends an operation without a result, if it is not over.
    pub fn cancel(&mut self, id: &String) -> (report: Option<OperationResult>)
        requires
            old(self).wf(),
        ensures
            final(self).wf(),
            final(self)@ == ending(old(self)@, id@).0,
            match report {
                Some(r) => ending(old(self)@, id@).1 && r@ == cancelled_record(old(self)@[id@])
                    && is_final_status(r@.status),
                None => !ending(old(self)@, id@).1,
            },
    {
        let found = self.active.remove(id);
        assert(self@ =~= ending(old(self)@, id@).0);
        match found {
            Some(record) => {
                let mut cancelled = record;
                cancelled.status = "cancelled".to_owned();
                cancelled.message = "Operation cancelled".to_owned();
                Some(cancelled)
            },
            None => None,
        }
    }
}

} // verus!
