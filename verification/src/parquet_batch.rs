//! Reading the metadata of many Parquet files, in batches.
use vstd::prelude::*;

use crate::error::ErrorCode;
use crate::text::decimal;
use crate::text::decimal_text;
use crate::text::signed_decimal;
use crate::text::signed_decimal_text;

verus! {

/// How many files one batch reads.
pub const BATCH_SIZE: usize = 100;

/// How much memory has to be left once the metadata of a batch is loaded.
pub const MIN_FREE_MEMORY: i64 = 104_857_600;

/// A limit as the signed number that memory usage is compared with.
pub open spec fn signed_limit(limit: u64) -> int {
    if limit <= i64::MAX {
        limit as int
    } else {
        limit - 0x1_0000_0000_0000_0000
    }
}

/// The error of a batch that leaves too little memory.
pub open spec fn is_out_of_memory(error: ErrorCode, max_memory_usage: u64, used: i64) -> bool {
    error matches ErrorCode::Internal(text) && text@
        == "not enough memory to load parquet file metas, max_memory_usage = "@ + decimal(
        max_memory_usage as nat,
    ) + ", used = "@ + signed_decimal(used as int) + "."@
}

/// Whether enough memory is left under the limit.
pub open spec fn has_memory(max_memory_usage: u64, used: i64) -> bool {
    signed_limit(max_memory_usage) - used >= MIN_FREE_MEMORY
}

/// Whether what is left under the limit is a number that memory is counted with.
pub open spec fn free_memory_fits(max_memory_usage: u64, used: i64) -> bool {
    i64::MIN <= signed_limit(max_memory_usage) - used <= i64::MAX
}

/// Check that enough memory is left.
pub fn check_memory(max_memory_usage: u64, used: i64) -> (res: Result<(), ErrorCode>)
    requires
        free_memory_fits(max_memory_usage, used),
    ensures
        match res {
            Ok(()) => has_memory(max_memory_usage, used),
            Err(error) => !has_memory(max_memory_usage, used) && is_out_of_memory(
                error,
                max_memory_usage,
                used,
            ),
        },
        max_memory_usage <= i64::MAX ==> (res is Ok <==> max_memory_usage - used >= 104_857_600),
        max_memory_usage > i64::MAX ==> (res is Ok <==> max_memory_usage
            - 0x1_0000_0000_0000_0000 - used >= 104_857_600),
{
    let limit: i64 = max_memory_usage as i64;
    assert(limit == (if max_memory_usage <= 0x7fff_ffff_ffff_ffff {
        max_memory_usage as int
    } else {
        max_memory_usage - 0x1_0000_0000_0000_0000
    })) by (bit_vector)
        requires
            limit == max_memory_usage as i64,
    ;
    if limit - used < MIN_FREE_MEMORY {
        let mut text = String::from_str(
            "not enough memory to load parquet file metas, max_memory_usage = ",
        );
        text.append(decimal_text(max_memory_usage).as_str());
        text.append(", used = ");
        text.append(signed_decimal_text(used).as_str());
        text.append(".");
        Err(ErrorCode::Internal(text))
    } else {
        Ok(())
    }
}

/// How far a batch has come. `M` is the metadata of one file.
pub enum MetasBatch<M> {
    /// The files are read one after the other; `metas` is what came of the first ones.
    Reading { file_infos: Vec<(String, u64)>, metas: Vec<M> },
    /// All files are read; the memory in use is to be measured.
    Measuring { metas: Vec<M> },
    /// Nothing is left to do.
    Done(Result<Vec<M>, ErrorCode>),
}

impl<M> MetasBatch<M> {
    /// A batch that reads has a file to read.
    pub open spec fn wf(self) -> bool {
        self matches MetasBatch::Reading { file_infos, metas } ==> metas@.len() < file_infos@.len()
    }

    /// The batch with these files that has read metadata so far.
    pub open spec fn is_at(self, files: Seq<(String, u64)>, metas: Seq<M>) -> bool {
        if metas.len() < files.len() {
            self matches MetasBatch::Reading { file_infos, metas: read } && file_infos@ == files
                && read@ == metas
        } else {
            self matches MetasBatch::Measuring { metas: read } && read@ == metas
        }
    }

    /// The path and the size of the file that is read next.
    pub open spec fn next_file(self) -> Option<(Seq<char>, u64)> {
        match self {
            MetasBatch::Reading { file_infos, metas } => Some(
                (file_infos@[metas@.len() as int].0@, file_infos@[metas@.len() as int].1),
            ),
            _ => None,
        }
    }

    /// What follows the outcome of reading a file.
    pub open spec fn is_after_read(
        self,
        before: MetasBatch<M>,
        outcome: Result<M, ErrorCode>,
    ) -> bool {
        match outcome {
            Ok(meta) => self.is_at(before->file_infos@, before->Reading_metas@.push(meta)),
            Err(error) => self == MetasBatch::<M>::Done(Err(error)),
        }
    }

    /// What follows how much memory is in use.
    pub open spec fn is_after_memory(
        self,
        before: MetasBatch<M>,
        max_memory_usage: u64,
        used: i64,
    ) -> bool {
        if has_memory(max_memory_usage, used) {
            self == MetasBatch::<M>::Done(Ok(before->Measuring_metas))
        } else {
            self matches MetasBatch::Done(Err(error)) && is_out_of_memory(
                error,
                max_memory_usage,
                used,
            )
        }
    }

    /// Starts a batch.
    pub fn start(file_infos: Vec<(String, u64)>) -> (batch: MetasBatch<M>)
        ensures
            batch.wf(),
            batch.is_at(file_infos@, seq![]),
            file_infos@.len() == 0 ==> (batch matches MetasBatch::Measuring { metas }
                && metas@.len() == 0),
            file_infos@.len() > 0 ==> (batch matches MetasBatch::Reading {
                file_infos: files,
                metas,
            } && files == file_infos && metas@.len() == 0),
    {
        if file_infos.len() == 0 {
            MetasBatch::Measuring { metas: Vec::new() }
        } else {
            MetasBatch::Reading { file_infos, metas: Vec::new() }
        }
    }

    /// The path and the size of the file to read next.
    pub fn file(&self) -> (file: Option<(&str, u64)>)
        requires
            self.wf(),
        ensures
            match file {
                Some((path, size)) => self.next_file() == Some((path@, size)),
                None => self.next_file() is None,
            },
            self matches MetasBatch::Reading { file_infos, metas } ==> (file matches Some(
                (path, size),
            ) && path@ == file_infos@[metas@.len() as int].0@ && size
                == file_infos@[metas@.len() as int].1),
            !(self is Reading) ==> file is None,
    {
        match self {
            MetasBatch::Reading { file_infos, metas } => {
                let info = &file_infos[metas.len()];
                Some((info.0.as_str(), info.1))
            },
            _ => None,
        }
    }

    /// Takes in what came of reading the file. The first failure ends the batch.
    pub fn on_read(self, outcome: Result<M, ErrorCode>) -> (batch: MetasBatch<M>)
        requires
            self.wf(),
            self is Reading,
        ensures
            batch.wf(),
            batch.is_after_read(self, outcome),
            match outcome {
                Ok(meta) => if self->Reading_metas@.len() + 1 < self->file_infos@.len() {
                    batch matches MetasBatch::Reading { file_infos, metas } && file_infos
                        == self->file_infos && metas@ == self->Reading_metas@.push(meta)
                } else {
                    batch matches MetasBatch::Measuring { metas } && metas@
                        == self->Reading_metas@.push(meta)
                },
                Err(error) => batch == MetasBatch::<M>::Done(Err(error)),
            },
    {
        match self {
            MetasBatch::Reading { file_infos, mut metas } => match outcome {
                Err(error) => MetasBatch::Done(Err(error)),
                Ok(meta) => {
                    metas.push(meta);
                    if metas.len() < file_infos.len() {
                        MetasBatch::Reading { file_infos, metas }
                    } else {
                        MetasBatch::Measuring { metas }
                    }
                },
            },
            other => other,
        }
    }

    /// Takes in how much memory is in use once all files are read.
    pub fn on_memory(self, max_memory_usage: u64, used: i64) -> (batch: MetasBatch<M>)
        requires
            self is Measuring,
            free_memory_fits(max_memory_usage, used),
        ensures
            batch.wf(),
            batch.is_after_memory(self, max_memory_usage, used),
            if has_memory(max_memory_usage, used) {
                batch == MetasBatch::<M>::Done(Ok(self->Measuring_metas))
            } else {
                batch matches MetasBatch::Done(Err(error)) && is_out_of_memory(
                    error,
                    max_memory_usage,
                    used,
                )
            },
            max_memory_usage <= i64::MAX && max_memory_usage - used >= 104_857_600 ==> batch
                == MetasBatch::<M>::Done(Ok(self->Measuring_metas)),
            max_memory_usage <= i64::MAX && max_memory_usage - used < 104_857_600 ==> (
            batch matches MetasBatch::Done(Err(error)) && error is Internal),
    {
        match self {
            MetasBatch::Measuring { metas } => match check_memory(max_memory_usage, used) {
                Ok(()) => MetasBatch::Done(Ok(metas)),
                Err(error) => MetasBatch::Done(Err(error)),
            },
            other => other,
        }
    }
}

/// How many batches read `n` files. There is one even for no file at all.
pub open spec fn batch_count(n: nat) -> nat {
    if n <= BATCH_SIZE {
        1
    } else {
        (n + BATCH_SIZE - 1) as nat / BATCH_SIZE as nat
    }
}

/// The `i`th batch of a list: the files from `BATCH_SIZE` times `i` on, at most
/// `BATCH_SIZE` of them.
pub open spec fn batch<T>(items: Seq<T>, i: int) -> Seq<T> {
    items.subrange(
        BATCH_SIZE * i,
        if BATCH_SIZE * (i + 1) < items.len() {
            BATCH_SIZE * (i + 1)
        } else {
            items.len() as int
        },
    )
}

/// Splits a list of files into batches.
pub fn plan_batches<T>(file_infos: Vec<T>) -> (batches: Vec<Vec<T>>)
    ensures
        batches@.len() == batch_count(file_infos@.len()),
        forall|i: int|
            0 <= i < batches@.len() ==> #[trigger] batches@[i]@ == batch(file_infos@, i),
        file_infos@.len() <= 100 ==> batches@.len() == 1 && batches@[0]@ == file_infos@,
        file_infos@.len() > 100 ==> batches@.len() == (file_infos@.len() - 1) / 100 + 1,
        forall|k: int|
            0 <= k < file_infos@.len() ==> batches@[k / 100]@[k % 100]
                == #[trigger] file_infos@[k],
{
    let ghost all = file_infos@;
    let mut rest = file_infos;
    let mut batches: Vec<Vec<T>> = Vec::new();
    while rest.len() > BATCH_SIZE
        invariant
            BATCH_SIZE * batches@.len() <= all.len(),
            batches@.len() > 0 ==> BATCH_SIZE * batches@.len() < all.len(),
            rest@ == all.skip(BATCH_SIZE * batches@.len()),
            forall|i: int| 0 <= i < batches@.len() ==> #[trigger] batches@[i]@ == batch(all, i),
        decreases rest@.len(),
    {
        let tail = rest.split_off(BATCH_SIZE);
        batches.push(rest);
        rest = tail;
    }
    batches.push(rest);
    assert forall|k: int| 0 <= k < all.len() implies batches@[k / 100]@[k % 100]
        == #[trigger] all[k] by {
        law_file_is_in_the_batch_of_its_hundred(all, k);
        assert(batches@[k / 100]@ == batch(all, k / 100));
    }
    batches
}

/// The values of all outcomes, one after the other.
pub open spec fn joined<M>(outcomes: Seq<Result<Vec<M>, ErrorCode>>) -> Seq<M>
    decreases outcomes.len(),
{
    if outcomes.len() == 0 {
        seq![]
    } else {
        joined(outcomes.drop_last()) + outcomes.last()->Ok_0@
    }
}

/// Puts the outcomes of all batches together: their values one after the other, or
/// the first error.
pub fn collect_batches<M>(outcomes: Vec<Result<Vec<M>, ErrorCode>>) -> (metas: Result<
    Vec<M>,
    ErrorCode,
>)
    ensures
        match metas {
            Ok(metas) => metas@ == joined(outcomes@) && forall|i: int|
                0 <= i < outcomes@.len() ==> #[trigger] outcomes@[i] is Ok,
            Err(error) => exists|i: int|
                0 <= i < outcomes@.len() && #[trigger] outcomes@[i] == Err::<Vec<M>, ErrorCode>(
                    error,
                ) && forall|j: int| 0 <= j < i ==> #[trigger] outcomes@[j] is Ok,
        },
{
    let ghost all = outcomes@;
    let mut metas: Vec<M> = Vec::new();
    for outcome in it: outcomes
        invariant
            it.seq() == all,
            metas@ == joined(all.take(it.index() as int)),
            forall|j: int| 0 <= j < it.index() ==> #[trigger] all[j] is Ok,
    {
        match outcome {
            Ok(mut values) => {
                proof {
                    let i = it.index() as int;
                    assert(all.take(i + 1).drop_last() =~= all.take(i));
                }
                metas.append(&mut values);
            },
            Err(error) => {
                return Err(error);
            },
        }
    }
    assert(all.take(all.len() as int) =~= all);
    Ok(metas)
}

/// Batches lose nothing and keep the order: where each batch yields one value for each
/// of its files, what is put together is one value for each file, in order.
pub proof fn law_batches_keep_order<M>(metas: Seq<M>, outcomes: Seq<Result<Vec<M>, ErrorCode>>)
    requires
        outcomes.len() == batch_count(metas.len()),
        forall|i: int|
            0 <= i < outcomes.len() ==> (#[trigger] outcomes[i] matches Ok(values) && values@
                == batch(metas, i)),
    ensures
        joined(outcomes) == metas,
{
    lemma_joined_batches(metas, outcomes, outcomes.len() as int);
    assert(outcomes.take(outcomes.len() as int) =~= outcomes);
}

proof fn lemma_joined_batches<M>(
    metas: Seq<M>,
    outcomes: Seq<Result<Vec<M>, ErrorCode>>,
    n: int,
)
    requires
        outcomes.len() == batch_count(metas.len()),
        forall|i: int|
            0 <= i < outcomes.len() ==> (#[trigger] outcomes[i] matches Ok(values) && values@
                == batch(metas, i)),
        0 <= n <= outcomes.len(),
    ensures
        joined(outcomes.take(n)) == metas.take(
            if BATCH_SIZE * n < metas.len() {
                BATCH_SIZE * n
            } else {
                metas.len() as int
            },
        ),
    decreases n,
{
    if n > 0 {
        lemma_joined_batches(metas, outcomes, n - 1);
        assert(outcomes.take(n).drop_last() =~= outcomes.take(n - 1));
        assert(joined(outcomes.take(n)) =~= metas.take(
            if BATCH_SIZE * n < metas.len() {
                BATCH_SIZE * n
            } else {
                metas.len() as int
            },
        ));
    }
}

/// A batch goes through its files in order: after the first `n` were read, it stands
/// at the next one, or measures the memory when there is none.
pub proof fn law_batch_reads_each_file_once<M>(
    files: Seq<(String, u64)>,
    metas: Seq<M>,
    states: Seq<MetasBatch<M>>,
)
    requires
        states.len() == metas.len() + 1,
        metas.len() <= files.len(),
        states[0].is_at(files, seq![]),
        forall|i: int|
            0 <= i < metas.len() ==> (#[trigger] states[i] is Reading ==> states[i
                + 1].is_after_read(states[i], Ok(metas[i]))),
    ensures
        forall|i: int|
            0 <= i < metas.len() ==> (#[trigger] states[i]).next_file() == Some(
                (files[i].0@, files[i].1),
            ),
        states.last().is_at(files, metas),
    decreases metas.len(),
{
    if metas.len() > 0 {
        law_batch_reads_each_file_once(files, metas.drop_last(), states.drop_last());
        let i = metas.len() - 1;
        assert(metas.drop_last().push(metas[i]) =~= metas);
        assert forall|j: int| 0 <= j < metas.len() implies (#[trigger] states[j]).next_file()
            == Some((files[j].0@, files[j].1)) by {
            if j < i {
                assert(states.drop_last()[j] == states[j]);
            }
        }
    } else {
        assert(metas =~= seq![]);
    }
}

/// A batch is given its metadata exactly where the limit, taken as a signed number, leaves
/// 100 MiB above what is in use. So only the difference of the two matters, and a greater
/// limit or a smaller use never turns success into failure.
pub proof fn law_memory_is_what_the_limit_leaves(
    max_memory_usage: u64,
    used: i64,
    other_limit: u64,
    other_used: i64,
)
    ensures
        max_memory_usage <= i64::MAX ==> (has_memory(max_memory_usage, used) <==> max_memory_usage
            >= used + 100 * 1024 * 1024),
        max_memory_usage > i64::MAX ==> (has_memory(max_memory_usage, used) <==> max_memory_usage
            >= used + 100 * 1024 * 1024 + 0x1_0000_0000_0000_0000),
        (max_memory_usage <= i64::MAX <==> other_limit <= i64::MAX) && max_memory_usage - used
            == other_limit - other_used ==> has_memory(max_memory_usage, used) == has_memory(
            other_limit,
            other_used,
        ),
        max_memory_usage <= other_limit <= i64::MAX && other_used <= used && has_memory(
            max_memory_usage,
            used,
        ) ==> has_memory(other_limit, other_used),
        max_memory_usage <= i64::MAX ==> (free_memory_fits(max_memory_usage, used)
            <==> max_memory_usage - used <= i64::MAX),
        max_memory_usage > i64::MAX ==> (free_memory_fits(max_memory_usage, used)
            <==> max_memory_usage - used >= 0x8000_0000_0000_0000),
{
}

/// Once all files are read, the batch ends: with just the metadata that was read where
/// the limit leaves 100 MiB, and else with an error that names the limit and the use.
pub proof fn law_batch_ends_with_its_metadata_or_out_of_memory<M>(
    before: MetasBatch<M>,
    after: MetasBatch<M>,
    max_memory_usage: u64,
    used: i64,
)
    requires
        before is Measuring,
        after.is_after_memory(before, max_memory_usage, used),
    ensures
        after is Done,
        max_memory_usage <= i64::MAX && max_memory_usage >= used + 104_857_600 ==> after
            == MetasBatch::<M>::Done(Ok(before->Measuring_metas)),
        max_memory_usage > i64::MAX && max_memory_usage >= used + 104_857_600
            + 0x1_0000_0000_0000_0000 ==> after == MetasBatch::<M>::Done(
            Ok(before->Measuring_metas),
        ),
        (max_memory_usage <= i64::MAX && max_memory_usage < used + 104_857_600) || (
        max_memory_usage > i64::MAX && max_memory_usage < used + 104_857_600
            + 0x1_0000_0000_0000_0000) ==> (after matches MetasBatch::Done(Err(ErrorCode::Internal(text))) && text@
            == "not enough memory to load parquet file metas, max_memory_usage = "@ + decimal(
            max_memory_usage as nat,
        ) + ", used = "@ + signed_decimal(used as int) + "."@),
{
}

/// A file that was read adds its metadata behind what was read before, and the rest of the
/// batch stays as it is. A file that could not be read ends the batch with its error.
pub proof fn law_read_file_adds_its_metadata<M>(
    before: MetasBatch<M>,
    after: MetasBatch<M>,
    outcome: Result<M, ErrorCode>,
    read: Seq<M>,
)
    requires
        before is Reading,
        before.wf(),
        after.is_after_read(before, outcome),
        after matches MetasBatch::Reading { file_infos, metas } ==> read == metas@,
        after matches MetasBatch::Measuring { metas } ==> read == metas@,
    ensures
        outcome matches Err(error) ==> after == MetasBatch::<M>::Done(Err(error)),
        outcome matches Ok(meta) ==> {
            &&& !(after is Done)
            &&& read.len() == before->Reading_metas@.len() + 1
            &&& read.last() == meta
            &&& forall|i: int|
                0 <= i < before->Reading_metas@.len() ==> #[trigger] read[i]
                    == before->Reading_metas@[i]
            &&& after is Reading <==> read.len() < before->file_infos@.len()
            &&& after is Reading ==> after->file_infos@ == before->file_infos@
        },
        before.next_file() == Some(
            (
                before->file_infos@[before->Reading_metas@.len() as int].0@,
                before->file_infos@[before->Reading_metas@.len() as int].1,
            ),
        ),
{
}

/// The files of a list fall into batches of 100, in order: file `k` is file `k % 100` of
/// batch `k / 100`. No more than 100 files make one batch. Else every batch but the last
/// has 100 files, and the last has what is left.
pub proof fn law_file_is_in_the_batch_of_its_hundred<T>(files: Seq<T>, k: int)
    requires
        0 <= k < files.len(),
    ensures
        0 <= k / 100 < batch_count(files.len()),
        k % 100 < batch(files, k / 100).len() <= 100,
        batch(files, k / 100)[k % 100] == files[k],
        batch_count(files.len()) == (files.len() - 1) / 100 + 1,
        k / 100 < batch_count(files.len()) - 1 ==> batch(files, k / 100).len() == 100,
        k / 100 == batch_count(files.len()) - 1 ==> batch(files, k / 100).len() == files.len() - 100
            * (k / 100),
{
}

/// No file at all makes one batch, which is empty.
pub proof fn law_no_file_makes_one_batch<T>()
    ensures
        batch_count(0) == 1,
        batch(Seq::<T>::empty(), 0).len() == 0,
{
}

/// What is put together of two lists of outcomes is what is put together of the one, and
/// then of the other. A single outcome gives just its values.
pub proof fn law_outcomes_are_put_together_in_order<M>(
    left: Seq<Result<Vec<M>, ErrorCode>>,
    right: Seq<Result<Vec<M>, ErrorCode>>,
    values: Vec<M>,
)
    ensures
        joined(Seq::<Result<Vec<M>, ErrorCode>>::empty()) == Seq::<M>::empty(),
        joined(seq![Ok::<Vec<M>, ErrorCode>(values)]) == values@,
        joined(left + right) == joined(left) + joined(right),
    decreases right.len(),
{
    let one = seq![Ok::<Vec<M>, ErrorCode>(values)];
    assert(one.drop_last() =~= seq![]);
    assert(joined(one.drop_last()) =~= seq![]);
    assert(joined(one) =~= values@);
    if right.len() == 0 {
        assert(left + right =~= left);
        assert(joined(left) + joined(right) =~= joined(left));
    } else {
        law_outcomes_are_put_together_in_order(left, right.drop_last(), values);
        assert((left + right).drop_last() =~= left + right.drop_last());
        assert(joined(left + right) =~= joined(left) + joined(right));
    }
}

/// A batch starts with its first file and nothing read, and with nothing but the memory to
/// measure where it has no file.
pub proof fn law_batch_starts_with_its_first_file<M>(
    batch: MetasBatch<M>,
    files: Seq<(String, u64)>,
)
    requires
        batch.is_at(files, Seq::empty()),
    ensures
        files.len() == 0 ==> (batch matches MetasBatch::Measuring { metas } && metas@.len() == 0),
        files.len() > 0 ==> (batch matches MetasBatch::Reading { file_infos, metas } && file_infos@
            == files && metas@.len() == 0),
        files.len() > 0 ==> batch.next_file() == Some((files[0].0@, files[0].1)),
        batch.wf(),
{
}

/// A batch is in order as long as there is a file to read while it reads.
pub proof fn law_batch_in_order_has_a_file_to_read<M>(batch: MetasBatch<M>)
    ensures
        batch matches MetasBatch::Reading { file_infos, metas } ==> (batch.wf() <==> metas@.len()
            < file_infos@.len()),
        !(batch is Reading) ==> batch.wf() && batch.next_file() is None,
{
}

} // verus!
