//! Failure aggregation: every stage of the pipeline reports failed units of
//! work into an append-only log instead of aborting the run.

use vstd::prelude::*;

verus! {

/// The error taxonomy of the pipeline. Every failure is non-fatal to the run
/// and is isolated to its owning unit of work.
#[derive(Clone, Copy, PartialEq, Eq, Debug)]
pub enum FailKind {
    /// Network or timeout failure surfaced by the transport layer.
    Transport,
    /// No matching distribution format in a metadata lookup.
    Resolution,
    /// Malformed binary payload.
    Decode,
    /// Empty or malformed graph where content was expected.
    Structure,
    /// Non-2xx response to a publish attempt.
    PublishRejected,
}

/// One failed operation with its context. Immutable once recorded.
pub struct FailureRecord {
    pub kind: FailKind,
    /// Scene the failure belongs to, if any.
    pub scene_id: Option<u64>,
    /// Content identifier the failure belongs to, if any.
    pub content_id: Option<String>,
    /// Free-form human-readable context.
    pub detail: String,
}

impl FailureRecord {
    pub open spec fn matches(
        &self,
        kind: FailKind,
        scene_id: Option<u64>,
        content_id: Option<Seq<char>>,
    ) -> bool {
        &&& self.kind == kind
        &&& self.scene_id == scene_id
        &&& match (self.content_id, content_id) {
            (Some(a), Some(b)) => a@ == b,
            (None, None) => true,
            _ => false,
        }
    }
}

/// Append-only sink of failure records, drained once at the end of a run (or
/// at decision points). Ordering within one producer is emission order.
pub struct FailureLog {
    records: Vec<FailureRecord>,
}

impl FailureLog {
    pub closed spec fn view(&self) -> Seq<FailureRecord> {
        self.records@
    }

    pub fn new() -> (r: FailureLog)
        ensures
            r@ == Seq::<FailureRecord>::empty(),
    {
        FailureLog { records: Vec::new() }
    }

    pub fn push(&mut self, record: FailureRecord)
        ensures
            final(self)@ == old(self)@.push(record),
    {
        self.records.push(record);
    }

    pub fn len(&self) -> (r: usize)
        ensures
            r == self@.len(),
    {
        self.records.len()
    }

    pub fn get(&self, i: usize) -> (r: &FailureRecord)
        requires
            i < self@.len(),
        ensures
            *r == self@[i as int],
    {
        &self.records[i]
    }

    /// Hands the collected records out, leaving the log empty.
    pub fn drain(&mut self) -> (r: Vec<FailureRecord>)
        ensures
            r@ == old(self)@,
            final(self)@ == Seq::<FailureRecord>::empty(),
    {
        let mut out: Vec<FailureRecord> = Vec::new();
        std::mem::swap(&mut out, &mut self.records);
        out
    }
}

} // verus!
