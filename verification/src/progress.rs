//! Progress tracking for an import: a running byte total published to an
//! observer, best-effort and self-disabling on the first failed publication.

use vstd::prelude::*;

verus! {

/// The running result of an import operation.
#[derive(Clone, Copy, Debug, PartialEq, Eq, Structural)]
pub struct ImportProgress {
    /// Number of bytes downloaded (approximate).
    pub processed_bytes: u64,
}

impl Default for ImportProgress {
    /// A fresh progress record: nothing processed yet.
    fn default() -> (r: Self)
        ensures
            r.processed_bytes == 0,
    {
        ImportProgress { processed_bytes: 0 }
    }
}

/// The decision state of a progress-tracking reader: the running total and
/// whether an observer is still listening.
pub struct ProgressTracker {
    pub progress: ImportProgress,
    pub publishing: bool,
}

impl ProgressTracker {
    /// A fresh tracker: zero bytes, publication still on.
    pub fn new() -> (r: ProgressTracker)
        ensures
            r.progress.processed_bytes == 0,
            r.publishing,
    {
        ProgressTracker { progress: ImportProgress { processed_bytes: 0 }, publishing: true }
    }

    /// Record one successful read: the total grows by exactly the number of
    /// bytes newly filled, so totals never decrease.
    pub fn record_read(&mut self, newly_filled: u64)
        requires
            old(self).progress.processed_bytes + newly_filled <= u64::MAX,
        ensures
            final(self).progress.processed_bytes == old(self).progress.processed_bytes
                + newly_filled,
            final(self).publishing == old(self).publishing,
    {
        self.progress = ImportProgress {
            processed_bytes: self.progress.processed_bytes + newly_filled,
        };
    }

    /// The current total, for publication to the observer.
    pub fn snapshot(&self) -> (r: ImportProgress)
        ensures
            r == self.progress,
    {
        self.progress
    }

    /// Whether a publication should still be attempted.
    pub fn should_publish(&self) -> (r: bool)
        ensures
            r == self.publishing,
    {
        self.publishing
    }

    /// Note a failed publication: reporting is best-effort, so after one
    /// failure no further attempt is made for the life of the stream.
    pub fn publication_failed(&mut self)
        ensures
            !final(self).publishing,
            final(self).progress == old(self).progress,
    {
        self.publishing = false;
    }
}

/// The sum of a sequence of byte counts.
pub open spec fn sum_of(reads: Seq<u64>) -> int
    decreases reads.len(),
{
    if reads.len() == 0 {
        0
    } else {
        sum_of(reads.drop_last()) + reads.last()
    }
}

/// The total after a run of recorded reads, starting from `start`.
pub open spec fn total_after(start: int, reads: Seq<u64>) -> int
    decreases reads.len(),
{
    if reads.len() == 0 {
        start
    } else {
        total_after(start, reads.drop_last()) + reads.last()
    }
}

/// Progress totals are monotonically non-decreasing across successive reads,
/// and by stream end equal the sum of the bytes delivered: after any run of
/// reads the total is the starting total plus the sum of the run, and every
/// prefix of the run yields a total no larger than the whole run's.
pub proof fn lemma_progress_totals(start: int, reads: Seq<u64>)
    ensures
        total_after(start, reads) == start + sum_of(reads),
        forall|i: int|
            0 <= i <= reads.len() ==> #[trigger] total_after(start, reads.take(i)) <= total_after(
                start,
                reads,
            ),
    decreases reads.len(),
{
    if reads.len() == 0 {
        assert(reads.take(0) =~= reads);
    } else {
        lemma_progress_totals(start, reads.drop_last());
        assert forall|i: int| 0 <= i <= reads.len() implies #[trigger] total_after(
            start,
            reads.take(i),
        ) <= total_after(start, reads) by {
            if i == reads.len() {
                assert(reads.take(i) =~= reads);
            } else {
                assert(reads.take(i) =~= reads.drop_last().take(i));
            }
        }
    }
}

} // verus!
