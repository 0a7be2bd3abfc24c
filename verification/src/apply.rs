//! Applying entries of a raft log to a state machine, one after the other.
use vstd::prelude::*;

use crate::log_id::LogId;

verus! {

/// An entry of a raft log.
pub struct Entry<D> {
    pub log_id: LogId,
    pub payload: D,
}

/// Why a state machine stopped.
pub enum StorageError<X> {
    /// The entry with this id could not be applied.
    Apply { log_id: LogId, source: X },
}

/// How far applying entries has come. `R` is what applying one entry gives, `X` why it
/// fails.
pub enum ApplyEntries<R, X> {
    /// `results` is what the entries so far gave; the next one is needed, if there is any.
    NeedEntry { results: Vec<R> },
    /// The entry with the id `log_id` is to be applied.
    Applying { log_id: LogId, results: Vec<R> },
    /// No entry is left to apply.
    Done(Result<Vec<R>, StorageError<X>>),
}

impl<R, X> ApplyEntries<R, X> {
    /// The entries so far gave these results.
    pub open spec fn is_at(self, given: Seq<R>) -> bool {
        self matches ApplyEntries::NeedEntry { results } && results@ == given
    }

    /// What follows the next entry, or that there is none.
    pub open spec fn is_after_entry(
        self,
        before: ApplyEntries<R, X>,
        entry: Option<LogId>,
    ) -> bool {
        match entry {
            Some(log_id) => self == (ApplyEntries::<R, X>::Applying {
                log_id,
                results: before->NeedEntry_results,
            }),
            None => self == ApplyEntries::<R, X>::Done(Ok(before->NeedEntry_results)),
        }
    }

    /// What follows the outcome of applying an entry.
    pub open spec fn is_after(self, before: ApplyEntries<R, X>, outcome: Result<R, X>) -> bool {
        match outcome {
            Ok(result) => self.is_at(before->Applying_results@.push(result)),
            Err(source) => self == ApplyEntries::<R, X>::Done(
                Err(StorageError::Apply { log_id: before->log_id, source }),
            ),
        }
    }

    /// Starts with no results.
    pub fn start() -> (next: ApplyEntries<R, X>)
        ensures
            next.is_at(seq![]),
            next matches ApplyEntries::NeedEntry { results } && results@.len() == 0,
    {
        ApplyEntries::NeedEntry { results: Vec::new() }
    }

    /// Takes in the next entry, or that there is none.
    pub fn on_entry<D>(self, entry: Option<&Entry<D>>) -> (next: ApplyEntries<R, X>)
        requires
            self is NeedEntry,
        ensures
            next.is_after_entry(
                self,
                match entry {
                    Some(entry) => Some(entry.log_id),
                    None => None,
                },
            ),
            match entry {
                Some(entry) => next == (ApplyEntries::<R, X>::Applying {
                    log_id: entry.log_id,
                    results: self->NeedEntry_results,
                }),
                None => next == ApplyEntries::<R, X>::Done(Ok(self->NeedEntry_results)),
            },
    {
        match self {
            ApplyEntries::NeedEntry { results } => match entry {
                Some(entry) => ApplyEntries::Applying { log_id: entry.log_id, results },
                None => ApplyEntries::Done(Ok(results)),
            },
            other => other,
        }
    }

    /// Takes in what came of applying the entry. The first failure puts an end to it.
    pub fn on_applied(self, outcome: Result<R, X>) -> (next: ApplyEntries<R, X>)
        requires
            self is Applying,
        ensures
            next.is_after(self, outcome),
            match outcome {
                Ok(result) => next matches ApplyEntries::NeedEntry { results } && results@
                    == self->Applying_results@.push(result),
                Err(source) => next == ApplyEntries::<R, X>::Done(
                    Err(StorageError::Apply { log_id: self->log_id, source }),
                ),
            },
    {
        match self {
            ApplyEntries::Applying { log_id, mut results } => match outcome {
                Ok(result) => {
                    results.push(result);
                    ApplyEntries::NeedEntry { results }
                },
                Err(source) => ApplyEntries::Done(Err(StorageError::Apply { log_id, source })),
            },
            other => other,
        }
    }
}

/// The values of outcomes that all are `Ok`.
pub open spec fn values<R, X>(outcomes: Seq<Result<R, X>>) -> Seq<R> {
    outcomes.map_values(|outcome: Result<R, X>| outcome->Ok_0)
}

/// A way of applying the first of some entries: the states in which an entry is needed,
/// those in which one is applied, and what came of it.
pub open spec fn is_run<D, R, X>(
    entries: Seq<Entry<D>>,
    needing: Seq<ApplyEntries<R, X>>,
    applying: Seq<ApplyEntries<R, X>>,
    outcomes: Seq<Result<R, X>>,
) -> bool {
    &&& outcomes.len() <= entries.len()
    &&& applying.len() == outcomes.len()
    &&& needing.len() == outcomes.len() + 1
    &&& needing[0].is_at(seq![])
    &&& forall|i: int|
        0 <= i < outcomes.len() ==> (#[trigger] needing[i]) is NeedEntry
            && applying[i].is_after_entry(needing[i], Some(entries[i].log_id)) && needing[i
            + 1].is_after(applying[i], outcomes[i])
}

/// Entries are applied in order and each once, up to the first failure, and a failure
/// is reported with the id of the entry that failed. Without one, there is a result
/// for each entry so far, in order, and these are the outcome where no entry is left.
pub proof fn law_entries_apply_in_order_up_to_a_failure<D, R, X>(
    entries: Seq<Entry<D>>,
    needing: Seq<ApplyEntries<R, X>>,
    applying: Seq<ApplyEntries<R, X>>,
    outcomes: Seq<Result<R, X>>,
)
    requires
        is_run(entries, needing, applying, outcomes),
    ensures
        forall|i: int| 0 <= i < outcomes.len() - 1 ==> #[trigger] outcomes[i] is Ok,
        if outcomes.len() > 0 && outcomes.last() is Err {
            needing.last() == ApplyEntries::<R, X>::Done(
                Err(
                    StorageError::Apply {
                        log_id: entries[outcomes.len() - 1].log_id,
                        source: outcomes.last()->Err_0,
                    },
                ),
            )
        } else {
            &&& needing.last().is_at(values(outcomes))
            &&& forall|end: ApplyEntries<R, X>| #[trigger]
                end.is_after_entry(needing.last(), None) ==> (end matches ApplyEntries::Done(
                    Ok(results),
                ) && results@ == values(outcomes))
        },
    decreases outcomes.len(),
{
    if outcomes.len() == 0 {
        assert(values(outcomes) =~= seq![]);
    } else {
        let i = outcomes.len() - 1;
        assert(needing[i] is NeedEntry);
        let needed = needing.drop_last();
        assert(forall|j: int| 0 <= j < i ==> #[trigger] needed[j] == needing[j]);
        law_entries_apply_in_order_up_to_a_failure(
            entries,
            needed,
            applying.drop_last(),
            outcomes.drop_last(),
        );
        assert(needed.last() == needing[i]);
        if outcomes[i] is Ok {
            assert(values(outcomes) =~= values(outcomes.drop_last()).push(outcomes[i]->Ok_0));
        }
        assert forall|j: int| 0 <= j < i implies #[trigger] outcomes[j] is Ok by {
            if j < i - 1 {
                assert(outcomes.drop_last()[j] == outcomes[j]);
            } else {
                assert(outcomes.drop_last().last() == outcomes[j]);
            }
        }
    }
}

/// An entry that is taken in is the one that is applied, with the results so far. Without
/// an entry the results so far are the outcome.
pub proof fn law_entry_that_is_taken_in_is_applied<R, X>(
    before: ApplyEntries<R, X>,
    after: ApplyEntries<R, X>,
    entry: Option<LogId>,
)
    requires
        before is NeedEntry,
        after.is_after_entry(before, entry),
    ensures
        entry matches Some(log_id) ==> (after matches ApplyEntries::Applying {
            log_id: id,
            results,
        } && id == log_id && results@ == before->NeedEntry_results@),
        entry is None ==> (after matches ApplyEntries::Done(Ok(results)) && results@
            == before->NeedEntry_results@),
{
}

/// A result goes behind those before it, and a failure is reported with the id of the
/// entry that was applied and with its cause.
pub proof fn law_result_goes_behind_those_before<R, X>(
    before: ApplyEntries<R, X>,
    after: ApplyEntries<R, X>,
    outcome: Result<R, X>,
)
    requires
        before is Applying,
        after.is_after(before, outcome),
    ensures
        outcome matches Ok(result) ==> (after matches ApplyEntries::NeedEntry { results }
            && results@.len() == before->Applying_results@.len() + 1 && results@.last() == result
            && results@.drop_last() =~= before->Applying_results@),
        outcome matches Err(cause) ==> (after matches ApplyEntries::Done(
            Err(StorageError::Apply { log_id, source }),
        ) && log_id == before->log_id && source == cause),
{
}

/// A whole run in one: where the first outcomes all are results, those results are kept in
/// order, one for each entry.
pub proof fn law_results_are_those_of_the_entries<D, R, X>(
    entries: Seq<Entry<D>>,
    needing: Seq<ApplyEntries<R, X>>,
    applying: Seq<ApplyEntries<R, X>>,
    outcomes: Seq<Result<R, X>>,
    given: Vec<R>,
)
    requires
        outcomes.len() <= entries.len(),
        applying.len() == outcomes.len(),
        needing.len() == outcomes.len() + 1,
        needing[0].is_at(seq![]),
        forall|i: int|
            0 <= i < outcomes.len() ==> (#[trigger] needing[i]) is NeedEntry
                && applying[i].is_after_entry(needing[i], Some(entries[i].log_id)) && needing[i
                + 1].is_after(applying[i], outcomes[i]),
        needing.last() == (ApplyEntries::<R, X>::NeedEntry { results: given }),
    ensures
        given@.len() == outcomes.len(),
        forall|i: int|
            0 <= i < outcomes.len() ==> #[trigger] outcomes[i] == Ok::<R, X>(given@[i]),
{
    law_entries_apply_in_order_up_to_a_failure(entries, needing, applying, outcomes);
    assert forall|i: int| 0 <= i < outcomes.len() implies #[trigger] outcomes[i] == Ok::<R, X>(
        given@[i],
    ) by {
        assert(given@[i] == values(outcomes)[i]);
    }
}

} // verus!
