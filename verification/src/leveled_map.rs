//! The data of a state machine, in levels.
use std::sync::Arc;

use vstd::prelude::*;

use crate::log_id::LogId;

verus! {

/// What a state machine knows of itself: how far the log is applied, and the rest, which
/// copies share.
#[derive(Debug)]
pub struct SysData<P> {
    pub last_applied: Option<LogId>,
    pub rest: Arc<P>,
}

/// `Arc::clone`. Trusted: it gives another pointer to the same value.
#[verifier::external_body]
fn share<P>(value: &Arc<P>) -> (shared: Arc<P>)
    ensures
        shared == *value,
{
    Arc::clone(value)
}

impl<P> SysData<P> {
    /// The last log entry that was applied.
    pub fn last_applied_ref(&self) -> (last_applied: &Option<LogId>)
        ensures
            *last_applied == self.last_applied,
    {
        &self.last_applied
    }
}

impl<P: Default> SysData<P> {
    /// Whether nothing was applied, and the rest is a default.
    pub open spec fn is_default(self) -> bool {
        self.last_applied is None && call_ensures(P::default, (), *self.rest)
    }
}

impl<P: Default> Default for SysData<P> {
    fn default() -> (sys_data: SysData<P>)
        ensures
            sys_data.is_default(),
            sys_data.last_applied is None,
            call_ensures(P::default, (), *sys_data.rest),
    {
        SysData { last_applied: None, rest: Arc::new(P::default()) }
    }
}

impl<P> Clone for SysData<P> {
    fn clone(&self) -> (copy: SysData<P>)
        ensures
            copy == *self,
    {
        SysData { last_applied: self.last_applied, rest: share(&self.rest) }
    }
}

/// A snapshot on disk: what it knows of the state machine, and its file.
#[derive(Debug)]
pub struct DB<P, F> {
    pub sys_data: SysData<P>,
    pub file: F,
}

impl<P, F: Clone> DB<P, F> {
    /// Whether `copy` is a clone.
    pub open spec fn cloned_as(self, copy: DB<P, F>) -> bool {
        copy.sys_data == self.sys_data && cloned(self.file, copy.file)
    }
}

impl<P, F: Clone> Clone for DB<P, F> {
    fn clone(&self) -> (copy: DB<P, F>)
        ensures
            self.cloned_as(copy),
            copy.sys_data == self.sys_data,
            cloned(self.file, copy.file),
    {
        DB { sys_data: self.sys_data.clone(), file: self.file.clone() }
    }
}

/// One level of data.
#[derive(Debug)]
pub struct Level<P, E> {
    pub sys_data: SysData<P>,
    pub entries: Vec<E>,
}

impl<P: Default, E> Default for Level<P, E> {
    fn default() -> (level: Level<P, E>)
        ensures
            level.sys_data.is_default(),
            level.sys_data.last_applied is None,
            level.entries@.len() == 0,
    {
        Level { sys_data: SysData::default(), entries: Vec::new() }
    }
}

/// Levels of data: one that is written to, older ones that do not change any more, the
/// oldest first, and below them a snapshot on disk.
#[derive(Debug)]
pub struct LeveledMap<P, E, F> {
    pub writable: Level<P, E>,
    pub immutable: Vec<Level<P, E>>,
    pub persisted: Option<DB<P, F>>,
}

impl<P, E, F> LeveledMap<P, E, F> {
    /// The last log entry that was applied.
    pub open spec fn last_applied(self) -> Option<LogId> {
        self.writable.sys_data.last_applied
    }

    /// The level that is written to.
    pub fn writable_ref(&self) -> (writable: &Level<P, E>)
        ensures
            *writable == self.writable,
    {
        &self.writable
    }

    /// The level that is written to, to change it.
    pub fn writable_mut(&mut self) -> (writable: &mut Level<P, E>)
        ensures
            *writable == old(self).writable,
            *final(self) == (LeveledMap { writable: *final(writable), ..*old(self) }),
    {
        &mut self.writable
    }

    /// The snapshot below the levels.
    pub fn persisted(&self) -> (persisted: Option<&DB<P, F>>)
        ensures
            match persisted {
                Some(db) => self.persisted == Some(*db),
                None => self.persisted is None,
            },
    {
        self.persisted.as_ref()
    }
}

impl<P: Default, E, F> LeveledMap<P, E, F> {
    /// Whether the map holds nothing: one level without entries, and no snapshot.
    pub open spec fn is_default(self) -> bool {
        &&& self.writable.sys_data.is_default()
        &&& self.writable.entries@.len() == 0
        &&& self.immutable@.len() == 0
        &&& self.persisted is None
    }
}

impl<P: Default, E, F> Default for LeveledMap<P, E, F> {
    fn default() -> (levels: LeveledMap<P, E, F>)
        ensures
            levels.is_default(),
            levels.writable.sys_data.last_applied is None,
            levels.writable.entries@.len() == 0,
            levels.immutable@.len() == 0,
            levels.persisted is None,
    {
        LeveledMap { writable: Level::default(), immutable: Vec::new(), persisted: None }
    }
}

impl<P, E, F> LeveledMap<P, E, F> {
    /// Whether the map is `before` with the level that was written to frozen, and an
    /// empty one with the same system data above it.
    pub open spec fn is_frozen(self, before: LeveledMap<P, E, F>) -> bool {
        &&& self.immutable@ == before.immutable@.push(before.writable)
        &&& self.persisted == before.persisted
        &&& self.writable.entries@.len() == 0
        &&& self.writable.sys_data == before.writable.sys_data
    }

    /// Puts an end to writing to the topmost level, and starts an empty one with the
    /// same system data above it.
    pub fn freeze_writable(&mut self)
        ensures
            final(self).is_frozen(*old(self)),
            final(self).immutable@ == old(self).immutable@.push(old(self).writable),
            final(self).persisted == old(self).persisted,
            final(self).writable.sys_data == old(self).writable.sys_data,
            final(self).writable.entries@.len() == 0,
    {
        let sys_data = self.writable.sys_data.clone();
        let mut level: Level<P, E> = Level { sys_data, entries: Vec::new() };
        std::mem::swap(&mut level, &mut self.writable);
        self.immutable.push(level);
    }

    /// The map that holds the content of a snapshot and nothing else.
    pub fn from_snapshot(db: DB<P, F>) -> (levels: LeveledMap<P, E, F>)
        ensures
            levels.holds_just(db),
            levels.persisted == Some(db),
            levels.immutable@.len() == 0,
            levels.writable.entries@.len() == 0,
            levels.writable.sys_data == db.sys_data,
    {
        LeveledMap {
            writable: Level { sys_data: db.sys_data.clone(), entries: Vec::new() },
            immutable: Vec::new(),
            persisted: Some(db),
        }
    }

    /// Whether the map holds the content of a snapshot and nothing else.
    pub open spec fn holds_just(self, db: DB<P, F>) -> bool {
        &&& self.persisted == Some(db)
        &&& self.immutable@.len() == 0
        &&& self.writable.entries@.len() == 0
        &&& self.writable.sys_data == db.sys_data
    }
}

/// A map that was made of a snapshot holds the snapshot as it was given, its system data,
/// and no entries of its own.
pub proof fn law_map_of_a_snapshot_holds_the_snapshot<P, E, F>(
    levels: LeveledMap<P, E, F>,
    db: DB<P, F>,
)
    requires
        levels.holds_just(db),
    ensures
        levels.persisted == Some(db),
        levels.writable.sys_data == db.sys_data,
        levels.last_applied() == db.sys_data.last_applied,
        levels.writable.entries@ =~= Seq::<E>::empty(),
        levels.immutable@ =~= Seq::<Level<P, E>>::empty(),
{
}

/// Freezing loses nothing: the level that was written to becomes the topmost frozen one,
/// the frozen ones below it and the snapshot stay, and the new level has the same system
/// data and no entries.
pub proof fn law_freezing_keeps_all_data<P, E, F>(
    before: LeveledMap<P, E, F>,
    after: LeveledMap<P, E, F>,
)
    requires
        after.is_frozen(before),
    ensures
        after.immutable@.len() == before.immutable@.len() + 1,
        after.immutable@.last() == before.writable,
        forall|i: int|
            0 <= i < before.immutable@.len() ==> #[trigger] after.immutable@[i]
                == before.immutable@[i],
        after.persisted == before.persisted,
        after.writable.sys_data == before.writable.sys_data,
        after.writable.entries@ =~= Seq::<E>::empty(),
{
}

/// A new map holds nothing, and nothing was applied to it.
pub proof fn law_new_map_holds_nothing<P: Default, E, F>(levels: LeveledMap<P, E, F>)
    requires
        levels.is_default(),
    ensures
        levels.last_applied() is None,
        call_ensures(P::default, (), *levels.writable.sys_data.rest),
        levels.writable.entries@ =~= Seq::<E>::empty(),
        levels.immutable@ =~= Seq::<Level<P, E>>::empty(),
        levels.persisted is None,
{
}

/// A copy of a snapshot has the same system data, and a clone of the file.
pub proof fn law_copy_of_a_snapshot_is_the_snapshot<P, F: Clone>(db: DB<P, F>, copy: DB<P, F>)
    requires
        db.cloned_as(copy),
    ensures
        copy.sys_data == db.sys_data,
        cloned(db.file, copy.file),
{
}

} // verus!
