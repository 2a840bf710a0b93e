use vstd::prelude::*;

verus! {

/// Length of a regular slice of the source, in seconds (30 minutes).
pub const CHUNK_SECONDS: u64 = 1800;

/// A remainder at most this long becomes the final segment whole (45 minutes).
pub const MERGE_THRESHOLD_SECONDS: u64 = 2700;

/// The segments tile `[0, total)`: the first starts at 0, each starts where
/// the previous one ends, and the last ends at `total`.
pub open spec fn tiles(r: Seq<(u64, u64)>, total: nat) -> bool {
    &&& (r.len() == 0 <==> total == 0)
    &&& (r.len() > 0 ==> r[0].0 == 0)
    &&& forall|i: int| 0 <= i < r.len() - 1 ==> #[trigger] r[i + 1].0 == r[i].0 + r[i].1
    &&& (r.len() > 0 ==> r.last().0 + r.last().1 == total)
}

/// The planning rule: every segment but the last is a regular slice, cut only
/// while more than the merge threshold remained; the last holds the whole
/// remainder, which is never empty and never above the threshold.
pub open spec fn follows_rule(r: Seq<(u64, u64)>, total: nat) -> bool {
    &&& forall|i: int|
        0 <= i < r.len() - 1 ==> (#[trigger] r[i]).1 == CHUNK_SECONDS && total - r[i].0
            > MERGE_THRESHOLD_SECONDS
    &&& (r.len() > 0 ==> 0 < r.last().1 <= MERGE_THRESHOLD_SECONDS)
}

/// Splits `total_duration_seconds` into ordered `(start, length)` segments.
pub fn calculate_chunks(total: u64) -> (r: Vec<(u64, u64)>)
    ensures
        tiles(r@, total as nat),
        follows_rule(r@, total as nat),
        forall|i: int|
            0 <= i < r@.len() ==> 0 < (#[trigger] r@[i]).1 <= CHUNK_SECONDS
                + MERGE_THRESHOLD_SECONDS,
{
    let mut chunks: Vec<(u64, u64)> = Vec::new();
    let mut current_time: u64 = 0;
    while current_time < total
        invariant
            current_time <= total,
            chunks@.len() == 0 <==> current_time == 0,
            chunks@.len() > 0 ==> chunks@[0].0 == 0,
            chunks@.len() > 0 ==> chunks@.last().0 + chunks@.last().1 == current_time,
            forall|i: int|
                0 <= i < chunks@.len() - 1 ==> #[trigger] chunks@[i + 1].0 == chunks@[i].0
                    + chunks@[i].1,
            forall|i: int|
                0 <= i < chunks@.len() ==> (#[trigger] chunks@[i]).1 == CHUNK_SECONDS
                    && total - chunks@[i].0 > MERGE_THRESHOLD_SECONDS,
        decreases total - current_time,
    {
        let remaining = total - current_time;
        if remaining <= MERGE_THRESHOLD_SECONDS {
            let ghost before = chunks@;
            chunks.push((current_time, remaining));
            assert(forall|i: int| 0 <= i < before.len() ==> chunks@[i] == before[i]);
            assert(forall|i: int|
                0 <= i < chunks@.len() - 1 ==> #[trigger] chunks@[i + 1].0 == chunks@[i].0
                    + chunks@[i].1);
            return chunks;
        } else {
            let ghost before = chunks@;
            chunks.push((current_time, CHUNK_SECONDS));
            assert(forall|i: int| 0 <= i < before.len() ==> chunks@[i] == before[i]);
            current_time = current_time + CHUNK_SECONDS;
        }
    }
    chunks
}

} // verus!
