//! The state machine of a raft log.
use std::time::Duration;

use vstd::prelude::*;

use crate::error::ErrorCode;
use crate::leveled_map::Level;
use crate::leveled_map::LeveledMap;
use crate::leveled_map::SysData;
use crate::leveled_map::DB;
use crate::log_id::applied_ge;
use crate::log_id::applied_le;
use crate::log_id::law_applied_is_a_total_order;
use crate::log_id::LogId;

verus! {

/// A state machine: its data, since when to clean up expired keys, and who is told of
/// changes.
///
/// `P` is the system data apart from the log position, `E` an entry of a level, `F` the
/// file of a snapshot, and `C` a subscriber.
pub struct SMV003<P, E, F, C> {
    pub levels: LeveledMap<P, E, F>,
    /// Since when to start cleaning expired keys.
    pub cleanup_start_time_ms: Duration,
    /// Who is told when a change is applied.
    pub on_change_applied: Option<C>,
}

/// The length of a duration in nanoseconds.
pub uninterp spec fn nanoseconds(duration: Duration) -> nat;

/// `std::time::Duration::ZERO`. Trusted: it is a duration of no time.
#[verifier::external_body]
fn no_time() -> (duration: Duration)
    ensures
        nanoseconds(duration) == 0,
{
    Duration::ZERO
}

/// `std::time::Duration::as_nanos`. Trusted: it gives the length of the duration in
/// nanoseconds.
pub assume_specification [ Duration::as_nanos ](duration: &Duration) -> (n: u128)
    ensures
        n == nanoseconds(*duration),
;

impl<P: Default, E, F, C> SMV003<P, E, F, C> {
    /// Whether the state machine is as new: without data and subscriber, and cleaning up
    /// from the start of time on.
    pub open spec fn is_default(self) -> bool {
        &&& self.levels.is_default()
        &&& nanoseconds(self.cleanup_start_time_ms) == 0
        &&& self.on_change_applied is None
    }
}

impl<P: Default, E, F, C> Default for SMV003<P, E, F, C> {
    fn default() -> (sm: SMV003<P, E, F, C>)
        ensures
            sm.is_default(),
            sm.levels.writable.sys_data.last_applied is None,
            sm.levels.writable.entries@.len() == 0,
            sm.levels.immutable@.len() == 0,
            sm.levels.persisted is None,
            nanoseconds(sm.cleanup_start_time_ms) == 0,
            sm.on_change_applied is None,
    {
        SMV003 {
            levels: LeveledMap::default(),
            cleanup_start_time_ms: no_time(),
            on_change_applied: None,
        }
    }
}

/// Read access to the keys and values of a state machine.
pub struct SMV003KVApi<'a, P, E, F, C> {
    pub sm: &'a SMV003<P, E, F, C>,
}

impl<P, E, F, C> SMV003<P, E, F, C> {
    /// The last log entry that was applied.
    pub open spec fn last_applied(self) -> Option<LogId> {
        self.levels.last_applied()
    }

    /// The state machine with other data.
    pub open spec fn with_levels(self, levels: LeveledMap<P, E, F>) -> SMV003<P, E, F, C> {
        SMV003 { levels, ..self }
    }

    /// The state machine with other system data.
    pub open spec fn with_sys_data(self, sys_data: SysData<P>) -> SMV003<P, E, F, C> {
        self.with_levels(
            LeveledMap { writable: Level { sys_data, ..self.levels.writable }, ..self.levels },
        )
    }

    /// Whether a snapshot is older than the data of the state machine, or as old. To a
    /// state machine that has applied nothing no snapshot is.
    pub open spec fn is_ahead_of(self, db: DB<P, F>) -> bool {
        self.last_applied() is Some && applied_le(db.sys_data.last_applied, self.last_applied())
    }

    pub fn kv_api(&self) -> (api: SMV003KVApi<'_, P, E, F, C>)
        ensures
            *api.sm == *self,
    {
        SMV003KVApi { sm: self }
    }

    pub fn user_map(&self) -> (levels: &LeveledMap<P, E, F>)
        ensures
            *levels == self.levels,
    {
        &self.levels
    }

    pub fn user_map_mut(&mut self) -> (levels: &mut LeveledMap<P, E, F>)
        ensures
            *levels == old(self).levels,
            *final(self) == old(self).with_levels(*final(levels)),
            final(self).levels == *final(levels),
            final(self).cleanup_start_time_ms == old(self).cleanup_start_time_ms,
            final(self).on_change_applied == old(self).on_change_applied,
    {
        &mut self.levels
    }

    pub fn expire_map(&self) -> (levels: &LeveledMap<P, E, F>)
        ensures
            *levels == self.levels,
    {
        &self.levels
    }

    pub fn expire_map_mut(&mut self) -> (levels: &mut LeveledMap<P, E, F>)
        ensures
            *levels == old(self).levels,
            *final(self) == old(self).with_levels(*final(levels)),
            final(self).levels == *final(levels),
            final(self).cleanup_start_time_ms == old(self).cleanup_start_time_ms,
            final(self).on_change_applied == old(self).on_change_applied,
    {
        &mut self.levels
    }

    pub fn cleanup_start_timestamp(&self) -> (timestamp: Duration)
        ensures
            timestamp == self.cleanup_start_time_ms,
    {
        self.cleanup_start_time_ms
    }

    /// Since when to start cleaning expired keys, in nanoseconds.
    pub fn cleanup_start_nanos(&self) -> (n: u128)
        ensures
            n == nanoseconds(self.cleanup_start_time_ms),
    {
        self.cleanup_start_time_ms.as_nanos()
    }

    pub fn set_cleanup_start_timestamp(&mut self, timestamp: Duration)
        ensures
            *final(self) == (SMV003 { cleanup_start_time_ms: timestamp, ..*old(self) }),
    {
        self.cleanup_start_time_ms = timestamp;
    }

    pub fn sys_data_ref(&self) -> (sys_data: &SysData<P>)
        ensures
            *sys_data == self.levels.writable.sys_data,
    {
        &self.levels.writable_ref().sys_data
    }

    pub fn sys_data_mut(&mut self) -> (sys_data: &mut SysData<P>)
        ensures
            *sys_data == old(self).levels.writable.sys_data,
            *final(self) == old(self).with_sys_data(*final(sys_data)),
            final(self).levels.writable.sys_data == *final(sys_data),
            final(self).levels.writable.entries == old(self).levels.writable.entries,
            final(self).levels.immutable == old(self).levels.immutable,
            final(self).levels.persisted == old(self).levels.persisted,
            final(self).cleanup_start_time_ms == old(self).cleanup_start_time_ms,
            final(self).on_change_applied == old(self).on_change_applied,
    {
        &mut self.levels.writable.sys_data
    }

    pub fn into_levels(self) -> (levels: LeveledMap<P, E, F>)
        ensures
            levels == self.levels,
    {
        self.levels
    }

    pub fn levels(&self) -> (levels: &LeveledMap<P, E, F>)
        ensures
            *levels == self.levels,
    {
        &self.levels
    }

    pub fn levels_mut(&mut self) -> (levels: &mut LeveledMap<P, E, F>)
        ensures
            *levels == old(self).levels,
            *final(self) == old(self).with_levels(*final(levels)),
            final(self).levels == *final(levels),
            final(self).cleanup_start_time_ms == old(self).cleanup_start_time_ms,
            final(self).on_change_applied == old(self).on_change_applied,
    {
        &mut self.levels
    }

    pub fn set_on_change_applied(&mut self, on_change_applied: C)
        ensures
            *final(self) == (SMV003 { on_change_applied: Some(on_change_applied), ..*old(self) }),
    {
        self.on_change_applied = Some(on_change_applied);
    }

    /// Who is to be told of a change, and what. Without a subscriber, nobody.
    pub fn on_change_applied<V>(&self, change: (String, Option<V>, Option<V>)) -> (call: Option<
        (&C, (String, Option<V>, Option<V>)),
    >)
        ensures
            match call {
                Some((subscriber, told)) => self.on_change_applied == Some(*subscriber) && told
                    == change,
                None => self.on_change_applied is None,
            },
    {
        match &self.on_change_applied {
            // No subscribers, do nothing.
            None => None,
            Some(subscriber) => Some((subscriber, change)),
        }
    }

    /// How the subscriber is shown when the state machine is printed.
    pub fn subscriber_label(&self) -> (label: Option<&'static str>)
        ensures
            match label {
                Some(label) => self.on_change_applied is Some && label@ == "is_set"@,
                None => self.on_change_applied is None,
            },
    {
        match &self.on_change_applied {
            None => None,
            Some(_) => Some("is_set"),
        }
    }

    /// Replace all the state machine data with the given one.
    /// The input is a multi-level data. It must not be older.
    pub fn replace(&mut self, level: LeveledMap<P, E, F>)
        requires
            applied_le(old(self).last_applied(), level.last_applied()),
        ensures
            *final(self) == old(self).with_levels(level),
            final(self).levels == level,
            final(self).cleanup_start_time_ms == old(self).cleanup_start_time_ms,
            final(self).on_change_applied == old(self).on_change_applied,
    {
        self.levels = level;
    }
}

impl<P, E, F, C> SMV003<P, E, F, C> {
    /// Whether installing a snapshot is skipped: whether the snapshot is older than the
    /// state machine, or as old.
    pub fn ignores_snapshot(&self, db: &DB<P, F>) -> (ignored: bool)
        ensures
            ignored == self.is_ahead_of(*db),
            self.levels.writable.sys_data.last_applied is None ==> !ignored,
            self.levels.writable.sys_data.last_applied is Some
                && db.sys_data.last_applied is None ==> ignored,
            self.levels.writable.sys_data.last_applied matches Some(own) ==> (
            db.sys_data.last_applied matches Some(other) ==> ignored == other.le(own)),
    {
        self.sys_data_ref().last_applied_ref().is_some() && applied_ge(
            self.sys_data_ref().last_applied_ref(),
            db.sys_data.last_applied_ref(),
        )
    }

    /// Install and replace state machine with the content of a snapshot.
    ///
    /// A snapshot that is not newer than the state machine is ignored. One is installed
    /// in any case where the state machine has applied nothing yet: it may hold data
    /// though nothing was applied to it either.
    pub fn install_snapshot_v003(&mut self, db: DB<P, F>) -> (res: Result<(), ErrorCode>)
        ensures
            res is Ok,
            final(self).is_after_install(*old(self), db),
            final(self).cleanup_start_time_ms == old(self).cleanup_start_time_ms,
            final(self).on_change_applied == old(self).on_change_applied,
            final(self).levels == old(self).levels || (final(self).levels.persisted == Some(db)
                && final(self).levels.writable.sys_data == db.sys_data
                && final(self).levels.writable.entries@.len() == 0
                && final(self).levels.immutable@.len() == 0),
            old(self).levels.writable.sys_data.last_applied is None ==> final(self).levels.persisted == Some(db),
    {
        if self.ignores_snapshot(&db) {
            return Ok(());
        }
        self.levels = LeveledMap::from_snapshot(db);
        Ok(())
    }

    /// What installing a snapshot comes to.
    pub open spec fn is_after_install(self, before: SMV003<P, E, F, C>, db: DB<P, F>) -> bool {
        if before.is_ahead_of(db) {
            self == before
        } else {
            self.levels.holds_just(db) && self == before.with_levels(self.levels)
        }
    }

    /// What freezing the level that is written to comes to.
    pub open spec fn is_after_freeze(self, before: SMV003<P, E, F, C>) -> bool {
        self.levels.is_frozen(before.levels) && self == before.with_levels(self.levels)
    }

    pub fn freeze_writable(&mut self)
        ensures
            final(self).is_after_freeze(*old(self)),
            final(self).levels.immutable@ == old(self).levels.immutable@.push(
                old(self).levels.writable,
            ),
            final(self).levels.persisted == old(self).levels.persisted,
            final(self).levels.writable.sys_data == old(self).levels.writable.sys_data,
            final(self).levels.writable.entries@.len() == 0,
            final(self).cleanup_start_time_ms == old(self).cleanup_start_time_ms,
            final(self).on_change_applied == old(self).on_change_applied,
    {
        self.levels.freeze_writable();
    }
}

impl<P, E, F: Clone, C> SMV003<P, E, F, C> {
    /// A copy of the snapshot below the levels.
    pub fn get_snapshot(&self) -> (db: Option<DB<P, F>>)
        ensures
            match (self.levels.persisted, db) {
                (Some(persisted), Some(db)) => persisted.cloned_as(db) && db.sys_data
                    == persisted.sys_data && cloned(persisted.file, db.file),
                (None, None) => true,
                _ => false,
            },
    {
        match self.levels.persisted() {
            Some(db) => Some(db.clone()),
            None => None,
        }
    }
}

/// A way of changing the data of a state machine as a whole.
pub enum Change<P, E, F> {
    Install(DB<P, F>),
    Replace(LeveledMap<P, E, F>),
    Freeze,
}

impl<P, E, F, C> SMV003<P, E, F, C> {
    /// What a change comes to.
    pub open spec fn is_after(self, before: SMV003<P, E, F, C>, change: Change<P, E, F>) -> bool {
        match change {
            Change::Install(db) => self.is_after_install(before, db),
            Change::Replace(level) => applied_le(before.last_applied(), level.last_applied())
                && self == before.with_levels(level),
            Change::Freeze => self.is_after_freeze(before),
        }
    }
}

/// A state machine is never taken back in the log, whatever is installed, replaced or
/// frozen, and in whatever order.
pub proof fn law_last_applied_never_goes_back<P, E, F, C>(
    states: Seq<SMV003<P, E, F, C>>,
    changes: Seq<Change<P, E, F>>,
    from: int,
    to: int,
)
    requires
        states.len() == changes.len() + 1,
        forall|i: int|
            0 <= i < changes.len() ==> states[i + 1].is_after(#[trigger] states[i], changes[i]),
        0 <= from <= to < states.len(),
    ensures
        applied_le(states[from].last_applied(), states[to].last_applied()),
    decreases to - from,
{
    if from < to {
        law_last_applied_never_goes_back(states, changes, from, to - 1);
        assert(states[to].is_after(states[to - 1], changes[to - 1]));
        lemma_change_does_not_go_back(states[to - 1], states[to], changes[to - 1]);
        law_applied_is_a_total_order(
            states[from].last_applied(),
            states[to - 1].last_applied(),
            states[to].last_applied(),
        );
    }
}

proof fn lemma_change_does_not_go_back<P, E, F, C>(
    before: SMV003<P, E, F, C>,
    after: SMV003<P, E, F, C>,
    change: Change<P, E, F>,
)
    requires
        after.is_after(before, change),
    ensures
        applied_le(before.last_applied(), after.last_applied()),
{
}

/// After a snapshot was offered, the state machine stands where the later of the two
/// stood in the log.
pub proof fn law_install_keeps_the_later<P, E, F, C>(
    before: SMV003<P, E, F, C>,
    after: SMV003<P, E, F, C>,
    db: DB<P, F>,
)
    requires
        after.is_after_install(before, db),
    ensures
        after.last_applied() == (if applied_le(
            before.last_applied(),
            db.sys_data.last_applied,
        ) {
            db.sys_data.last_applied
        } else {
            before.last_applied()
        }),
{
}

/// Offering a snapshot again, right after it was offered, changes nothing. Where neither
/// the snapshot nor the state machine had applied anything, it is installed again, with
/// the same outcome: system data, entries, snapshot, cleanup time and subscriber are as
/// they were.
pub proof fn law_install_is_idempotent<P, E, F, C>(
    before: SMV003<P, E, F, C>,
    once: SMV003<P, E, F, C>,
    twice: SMV003<P, E, F, C>,
    db: DB<P, F>,
)
    requires
        once.is_after_install(before, db),
        twice.is_after_install(once, db),
    ensures
        db.sys_data.last_applied is Some || before.last_applied() is Some ==> twice == once,
        twice.levels.writable.sys_data == once.levels.writable.sys_data,
        twice.levels.writable.entries@ == once.levels.writable.entries@,
        twice.levels.immutable@ == once.levels.immutable@,
        twice.levels.persisted == once.levels.persisted,
        twice.cleanup_start_time_ms == once.cleanup_start_time_ms,
        twice.on_change_applied == once.on_change_applied,
{
    assert(twice.levels.immutable@ =~= once.levels.immutable@);
    assert(twice.levels.writable.entries@ =~= once.levels.writable.entries@);
}

/// A snapshot is ignored just where something was applied to the state machine and the
/// snapshot is not ahead of that. Then nothing changes. Else the snapshot that was offered
/// is all there is afterwards: it lies below the levels, the system data is its own, and no
/// entry is left, whatever the state machine held. Cleanup time and subscriber stay in
/// either case.
pub proof fn law_install_replaces_all_data_or_none<P, E, F, C>(
    before: SMV003<P, E, F, C>,
    after: SMV003<P, E, F, C>,
    db: DB<P, F>,
)
    requires
        after.is_after_install(before, db),
    ensures
        after.cleanup_start_time_ms == before.cleanup_start_time_ms,
        after.on_change_applied == before.on_change_applied,
        match (before.levels.writable.sys_data.last_applied, db.sys_data.last_applied) {
            (Some(own), Some(offered)) => if offered.term != own.term {
                offered.term < own.term
            } else if offered.node_id != own.node_id {
                offered.node_id < own.node_id
            } else {
                offered.index <= own.index
            },
            (Some(_), None) => true,
            (None, _) => false,
        } ==> after.levels == before.levels,
        match (before.levels.writable.sys_data.last_applied, db.sys_data.last_applied) {
            (Some(own), Some(offered)) => if offered.term != own.term {
                offered.term > own.term
            } else if offered.node_id != own.node_id {
                offered.node_id > own.node_id
            } else {
                offered.index > own.index
            },
            (Some(_), None) => false,
            (None, _) => true,
        } ==> after.levels.persisted == Some(db) && after.levels.writable.sys_data == db.sys_data
            && after.levels.writable.entries@ == Seq::<E>::empty() && after.levels.immutable@
            == Seq::<Level<P, E>>::empty(),
{
    assert(after.levels.immutable@.len() == 0 ==> after.levels.immutable@ =~= seq![]);
    assert(after.levels.writable.entries@.len() == 0 ==> after.levels.writable.entries@
        =~= seq![]);
}

/// Two state machines that both take a snapshot hold the same data afterwards, whatever
/// each of them held before.
pub proof fn law_installed_data_does_not_depend_on_the_data_before<P, E, F, C>(
    before: SMV003<P, E, F, C>,
    after: SMV003<P, E, F, C>,
    other_before: SMV003<P, E, F, C>,
    other_after: SMV003<P, E, F, C>,
    db: DB<P, F>,
)
    requires
        after.is_after_install(before, db),
        other_after.is_after_install(other_before, db),
        before.levels.writable.sys_data.last_applied is None || after.levels != before.levels,
        other_before.levels.writable.sys_data.last_applied is None || other_after.levels
            != other_before.levels,
    ensures
        after.levels.persisted == other_after.levels.persisted,
        after.levels.writable.sys_data == other_after.levels.writable.sys_data,
        after.levels.writable.entries@ == other_after.levels.writable.entries@,
        after.levels.immutable@ == other_after.levels.immutable@,
{
    assert(after.levels.immutable@ =~= other_after.levels.immutable@);
    assert(after.levels.writable.entries@ =~= other_after.levels.writable.entries@);
}

/// Replacing data and reaching for it touch nothing else of the state machine.
pub proof fn law_other_levels_change_nothing_else<P, E, F, C>(
    sm: SMV003<P, E, F, C>,
    levels: LeveledMap<P, E, F>,
    sys_data: SysData<P>,
)
    ensures
        sm.with_levels(levels).levels == levels,
        sm.with_levels(levels).cleanup_start_time_ms == sm.cleanup_start_time_ms,
        sm.with_levels(levels).on_change_applied == sm.on_change_applied,
        sm.with_sys_data(sys_data).levels.writable.sys_data == sys_data,
        sm.with_sys_data(sys_data).levels.writable.entries == sm.levels.writable.entries,
        sm.with_sys_data(sys_data).levels.immutable == sm.levels.immutable,
        sm.with_sys_data(sys_data).levels.persisted == sm.levels.persisted,
        sm.with_sys_data(sys_data).cleanup_start_time_ms == sm.cleanup_start_time_ms,
        sm.with_sys_data(sys_data).on_change_applied == sm.on_change_applied,
        sm.last_applied() == sm.levels.writable.sys_data.last_applied,
{
}

/// Freezing the level that is written to loses no data, and changes neither the log
/// position nor the cleanup time nor the subscriber.
pub proof fn law_freezing_keeps_the_state_machine<P, E, F, C>(
    before: SMV003<P, E, F, C>,
    after: SMV003<P, E, F, C>,
)
    requires
        after.is_after_freeze(before),
    ensures
        after.levels.immutable@ == before.levels.immutable@.push(before.levels.writable),
        after.levels.persisted == before.levels.persisted,
        after.levels.writable.sys_data == before.levels.writable.sys_data,
        after.levels.writable.entries@.len() == 0,
        after.cleanup_start_time_ms == before.cleanup_start_time_ms,
        after.on_change_applied == before.on_change_applied,
{
}

/// A new state machine holds nothing, cleans up from the start of time on, and tells
/// nobody.
pub proof fn law_new_state_machine_holds_nothing<P: Default, E, F, C>(sm: SMV003<P, E, F, C>)
    requires
        sm.is_default(),
    ensures
        sm.levels.writable.sys_data.last_applied is None,
        sm.levels.writable.entries@.len() == 0,
        sm.levels.immutable@.len() == 0,
        sm.levels.persisted is None,
        nanoseconds(sm.cleanup_start_time_ms) == 0,
        sm.on_change_applied is None,
{
}

} // verus!
