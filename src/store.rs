//! Decisions around writing records to the store: when to try a record again,
//! and what the run reports once every record has been tried.
use vstd::prelude::*;

verus! {

/// How many times one record is tried before it counts as failed.
pub const MAX_WRITE_ATTEMPTS: u32 = 3;

/// What to do after one attempt to write a record.
#[derive(PartialEq, Eq, Structural, Debug, Clone, Copy)]
pub enum WriteStep {
    /// The record is stored: go on with the next one.
    Written,
    /// The write failed and attempts are left: try the same record again.
    Retry,
    /// The write failed for the last time: note the record as lost.
    Failed,
}

/// The step after attempt number `attempt` (counting from one) to write a
/// record, which `succeeded` or not.
pub fn after_write(succeeded: bool, attempt: u32) -> (s: WriteStep)
    ensures
        s == (if succeeded {
            WriteStep::Written
        } else if attempt < MAX_WRITE_ATTEMPTS {
            WriteStep::Retry
        } else {
            WriteStep::Failed
        }),
{
    if succeeded {
        WriteStep::Written
    } else if attempt < MAX_WRITE_ATTEMPTS {
        WriteStep::Retry
    } else {
        WriteStep::Failed
    }
}

/// The positions, in order, of the records that were not stored.
pub open spec fn failed_positions(stored: Seq<bool>) -> Seq<usize>
    decreases stored.len(),
{
    if stored.len() == 0 {
        seq![]
    } else if stored.last() {
        failed_positions(stored.drop_last())
    } else {
        failed_positions(stored.drop_last()).push((stored.len() - 1) as usize)
    }
}

/// How an export ended.
pub struct ExportReport {
    /// Records stored.
    pub written: usize,
    /// Positions of the records that could not be stored.
    pub failed: Vec<usize>,
}

impl ExportReport {
    /// Whether every record was stored: only then did the dump succeed.
    pub fn is_complete(&self) -> (r: bool)
        ensures
            r == (self.failed@.len() == 0),
    {
        self.failed.len() == 0
    }
}

/// The report for an export where `stored[i]` tells whether record `i` was
/// stored in the end.
pub fn summarize_export(stored: &Vec<bool>) -> (r: ExportReport)
    ensures
        r.failed@ == failed_positions(stored@),
        r.written + r.failed@.len() == stored@.len(),
{
    let mut failed: Vec<usize> = Vec::new();
    let mut written: usize = 0;
    let mut i: usize = 0;
    assert(stored@.take(0) =~= Seq::<bool>::empty());
    while i < stored.len()
        invariant
            i <= stored@.len(),
            failed@ == failed_positions(stored@.take(i as int)),
            written + failed@.len() == i,
        decreases stored@.len() - i,
    {
        assert(stored@.take(i + 1).drop_last() =~= stored@.take(i as int));
        assert(stored@.take(i + 1).last() == stored@[i as int]);
        if stored[i] {
            written = written + 1;
        } else {
            failed.push(i);
        }
        i = i + 1;
    }
    assert(stored@.take(i as int) =~= stored@);
    ExportReport { written, failed }
}

} // verus!
