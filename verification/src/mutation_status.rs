//! Row counts of a mutation, gathered from the parts that carried it out.
use vstd::prelude::*;

verus! {

/// How many rows a mutation inserted, deleted and updated.
#[derive(Debug)]
pub struct MutationStatus {
    pub insert_rows: u64,
    pub deleted_rows: u64,
    pub update_rows: u64,
}

/// The counts of a [`MutationStatus`] as mathematical integers.
pub struct RowCounts {
    pub insert_rows: int,
    pub deleted_rows: int,
    pub update_rows: int,
}

impl RowCounts {
    pub open spec fn zero() -> RowCounts {
        RowCounts { insert_rows: 0, deleted_rows: 0, update_rows: 0 }
    }

    pub open spec fn plus(self, other: RowCounts) -> RowCounts {
        RowCounts {
            insert_rows: self.insert_rows + other.insert_rows,
            deleted_rows: self.deleted_rows + other.deleted_rows,
            update_rows: self.update_rows + other.update_rows,
        }
    }

    /// Whether a [`MutationStatus`] can hold the counts.
    pub open spec fn fits(self) -> bool {
        &&& 0 <= self.insert_rows <= u64::MAX
        &&& 0 <= self.deleted_rows <= u64::MAX
        &&& 0 <= self.update_rows <= u64::MAX
    }
}

impl View for MutationStatus {
    type V = RowCounts;

    open spec fn view(&self) -> RowCounts {
        RowCounts {
            insert_rows: self.insert_rows as int,
            deleted_rows: self.deleted_rows as int,
            update_rows: self.update_rows as int,
        }
    }
}

impl Clone for MutationStatus {
    fn clone(&self) -> (status: MutationStatus)
        ensures
            status == *self,
    {
        MutationStatus {
            insert_rows: self.insert_rows,
            deleted_rows: self.deleted_rows,
            update_rows: self.update_rows,
        }
    }
}

impl Default for MutationStatus {
    fn default() -> (status: MutationStatus)
        ensures
            status@ == RowCounts::zero(),
            status.insert_rows == 0,
            status.deleted_rows == 0,
            status.update_rows == 0,
    {
        MutationStatus { insert_rows: 0, deleted_rows: 0, update_rows: 0 }
    }
}

impl MutationStatus {
    /// Adds each of the other counts to its own.
    pub fn merge_mutation_status(&mut self, mutation_status: MutationStatus)
        requires
            old(self)@.plus(mutation_status@).fits(),
        ensures
            final(self)@ == old(self)@.plus(mutation_status@),
            final(self).insert_rows == old(self).insert_rows + mutation_status.insert_rows,
            final(self).deleted_rows == old(self).deleted_rows + mutation_status.deleted_rows,
            final(self).update_rows == old(self).update_rows + mutation_status.update_rows,
    {
        self.insert_rows += mutation_status.insert_rows;
        self.deleted_rows += mutation_status.deleted_rows;
        self.update_rows += mutation_status.update_rows;
    }
}

/// The total of a list of counts, merged one after the other from the left.
pub open spec fn total(parts: Seq<RowCounts>) -> RowCounts
    decreases parts.len(),
{
    if parts.len() == 0 {
        RowCounts::zero()
    } else {
        total(parts.drop_last()).plus(parts.last())
    }
}

/// The default status is neutral, and neither the order nor the grouping of merges
/// changes the outcome.
pub proof fn law_merge_is_a_sum(a: RowCounts, b: RowCounts, c: RowCounts)
    ensures
        RowCounts::zero().plus(a) == a,
        a.plus(RowCounts::zero()) == a,
        a.plus(b) == b.plus(a),
        a.plus(b).plus(c) == a.plus(b.plus(c)),
{
}

/// Parts may be gathered in batches: merging the totals of two lists gives the total
/// of the lists joined.
pub proof fn law_totals_merge(left: Seq<RowCounts>, right: Seq<RowCounts>)
    ensures
        total(left + right) == total(left).plus(total(right)),
    decreases right.len(),
{
    if right.len() == 0 {
        assert(left + right =~= left);
    } else {
        law_totals_merge(left, right.drop_last());
        assert((left + right).drop_last() =~= left + right.drop_last());
    }
}

/// A merge adds like to like: each count of the outcome is the sum of the two counts of
/// the same name. It is possible just where each sum is a `u64`.
pub proof fn law_merge_adds_like_to_like(
    before: MutationStatus,
    other: MutationStatus,
    after: MutationStatus,
)
    requires
        after@ == before@.plus(other@),
    ensures
        after.insert_rows == before.insert_rows + other.insert_rows,
        after.deleted_rows == before.deleted_rows + other.deleted_rows,
        after.update_rows == before.update_rows + other.update_rows,
{
}

/// A merge is asked for nothing but that each sum is a `u64`.
pub proof fn law_merge_needs_no_more_than_room(before: MutationStatus, other: MutationStatus)
    ensures
        before@.plus(other@).fits() <==> before.insert_rows + other.insert_rows <= u64::MAX
            && before.deleted_rows + other.deleted_rows <= u64::MAX && before.update_rows
            + other.update_rows <= u64::MAX,
{
}

/// One more part adds its counts to the total, and no part at all gives none.
pub proof fn law_total_grows_by_each_part(parts: Seq<RowCounts>, part: RowCounts)
    ensures
        total(Seq::<RowCounts>::empty()) == (RowCounts {
            insert_rows: 0,
            deleted_rows: 0,
            update_rows: 0,
        }),
        total(parts.push(part)).insert_rows == total(parts).insert_rows + part.insert_rows,
        total(parts.push(part)).deleted_rows == total(parts).deleted_rows + part.deleted_rows,
        total(parts.push(part)).update_rows == total(parts).update_rows + part.update_rows,
{
    assert(parts.push(part).drop_last() =~= parts);
}

} // verus!
