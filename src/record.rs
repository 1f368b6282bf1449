//! Records, batching settings, and the bounds that an emitted batch must keep.

use vstd::prelude::*;

verus! {

/// One unit of input data: its identity (used to finalize it) and the
/// number of bytes it weighs for batching.
#[derive(Clone, Copy, Debug, PartialEq, Eq, Structural)]
pub struct Record {
    pub id: u64,
    pub byte_size: usize,
}

/// The size policy handed to the batcher, which bounds every batch.
#[derive(Clone, Copy, Debug, PartialEq, Eq, Structural)]
pub struct BatcherSettings {
    /// Largest total byte size of one batch.
    pub size_limit: usize,
    /// Largest number of records in one batch.
    pub item_limit: usize,
    /// Longest time a batch waits before it is flushed, in milliseconds.
    pub timeout_ms: u64,
}

/// The identities of a sequence of records, in order.
pub open spec fn ids_of(rs: Seq<Record>) -> Seq<u64> {
    rs.map_values(|r: Record| r.id)
}

/// The sum of the byte sizes of a sequence of records.
pub open spec fn total_size(rs: Seq<Record>) -> int
    decreases rs.len(),
{
    if rs.len() == 0 {
        0
    } else {
        total_size(rs.drop_last()) + rs.last().byte_size
    }
}

/// A batch keeps the settings' bounds: it is not empty, and neither its
/// number of records nor its total size exceeds the limits.
pub open spec fn within_bounds(settings: BatcherSettings, rs: Seq<Record>) -> bool {
    &&& rs.len() > 0
    &&& rs.len() <= settings.item_limit
    &&& total_size(rs) <= settings.size_limit
}

/// The total size of a prefix never exceeds that of the whole sequence.
pub proof fn lemma_total_size_prefix(rs: Seq<Record>, k: int)
    requires
        0 <= k <= rs.len(),
    ensures
        0 <= total_size(rs.take(k)) <= total_size(rs),
    decreases rs.len(),
{
    if rs.len() > 0 {
        if k == rs.len() {
            assert(rs.take(k) =~= rs);
            lemma_total_size_prefix(rs.drop_last(), k - 1);
            assert(rs.drop_last().take(k - 1) =~= rs.drop_last());
        } else {
            lemma_total_size_prefix(rs.drop_last(), k);
            assert(rs.drop_last().take(k) =~= rs.take(k));
        }
    }
}

/// Whether a batch keeps the bounds of `settings`.
pub fn check_bounds(settings: &BatcherSettings, records: &Vec<Record>) -> (r: bool)
    ensures
        r == within_bounds(*settings, records@),
{
    if records.len() == 0 || records.len() > settings.item_limit {
        return false;
    }
    let mut sum: usize = 0;
    let mut i: usize = 0;
    while i < records.len()
        invariant
            i <= records.len(),
            sum == total_size(records@.take(i as int)),
            sum <= settings.size_limit,
        decreases records.len() - i,
    {
        assert(records@.take(i + 1).drop_last() =~= records@.take(i as int));
        let size = records[i].byte_size;
        if size > settings.size_limit - sum {
            proof {
                lemma_total_size_prefix(records@, i + 1);
            }
            return false;
        }
        sum = sum + size;
        i = i + 1;
    }
    assert(records@.take(i as int) =~= records@);
    true
}

/// The identities of `records`, in order.
pub fn record_ids(records: &Vec<Record>) -> (r: Vec<u64>)
    ensures
        r@ == ids_of(records@),
{
    let mut ids: Vec<u64> = Vec::new();
    let mut i: usize = 0;
    while i < records.len()
        invariant
            i <= records.len(),
            ids@ == ids_of(records@.take(i as int)),
        decreases records.len() - i,
    {
        assert(records@.take(i + 1) =~= records@.take(i as int).push(records@[i as int]));
        ids.push(records[i].id);
        assert(ids@ =~= ids_of(records@.take(i + 1)));
        i = i + 1;
    }
    assert(records@.take(i as int) =~= records@);
    ids
}

} // verus!
