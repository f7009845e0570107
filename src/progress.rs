use vstd::prelude::*;

verus! {

/// Counters kept by the reader stage: data lines consumed, and records among
/// them that passed the selection.
#[derive(Debug, Clone, Copy, PartialEq, Eq, Structural)]
pub struct ReadProgress {
    pub selected: u64,
    pub read: u64,
}

impl Default for ReadProgress {
    fn default() -> (r: ReadProgress)
        ensures
            r.selected == 0,
            r.read == 0,
    {
        ReadProgress { selected: 0, read: 0 }
    }
}

/// Counts one more consumed line, and one more selected record if `selected`.
pub fn update_progress(progress: &mut ReadProgress, selected: bool)
    requires
        old(progress).read < u64::MAX,
        selected ==> old(progress).selected < u64::MAX,
    ensures
        final(progress).read == old(progress).read + 1,
        final(progress).selected == old(progress).selected + if selected {
            1int
        } else {
            0int
        },
        old(progress).selected <= old(progress).read ==> (final(progress).selected
            <= final(progress).read),
{
    if selected {
        progress.selected = progress.selected + 1;
    }
    progress.read = progress.read + 1;
}

/// Adds the rows one bulk write reported to the shared written total.
pub fn record_written(count: &mut u64, records: usize)
    requires
        old(count) + records <= u64::MAX,
    ensures
        *final(count) == *old(count) + records,
{
    *count = *count + records as u64;
}

} // verus!
