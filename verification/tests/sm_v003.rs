use std::sync::Arc;
use std::time::Duration;

use databend_core::leveled_map::Level;
use databend_core::leveled_map::LeveledMap;
use databend_core::leveled_map::SysData;
use databend_core::leveled_map::DB;
use databend_core::log_id::applied_ge;
use databend_core::log_id::LogId;
use databend_core::sm_v003::SMV003;

type Levels = LeveledMap<String, u8, &'static str>;
type Sm = SMV003<String, u8, &'static str, &'static str>;

fn log_id(term: u64, node_id: u64, index: u64) -> Option<LogId> {
    Some(LogId { term, node_id, index })
}

fn sys_data(last_applied: Option<LogId>, rest: &str) -> SysData<String> {
    SysData { last_applied, rest: Arc::new(rest.to_string()) }
}

fn levels(last_applied: Option<LogId>) -> Levels {
    LeveledMap {
        writable: Level { sys_data: sys_data(last_applied, "own"), entries: vec![1, 2] },
        immutable: vec![Level { sys_data: sys_data(None, "older"), entries: vec![3] }],
        persisted: None,
    }
}

fn sm(last_applied: Option<LogId>) -> Sm {
    SMV003 {
        levels: levels(last_applied),
        cleanup_start_time_ms: Duration::from_millis(5),
        on_change_applied: Some("subscriber"),
    }
}

fn db(last_applied: Option<LogId>, file: &'static str) -> DB<String, &'static str> {
    DB { sys_data: sys_data(last_applied, "snapshot"), file }
}

fn assert_unchanged(sm: &Sm) {
    assert_eq!(sm.levels().writable.entries, vec![1, 2]);
    assert_eq!(*sm.sys_data_ref().rest, "own");
    assert_eq!(sm.levels().immutable.len(), 1);
    assert!(sm.get_snapshot().is_none());
}

fn assert_installed(sm: &Sm, last_applied: Option<LogId>, file: &'static str) {
    assert!(sm.levels().writable.entries.is_empty());
    assert!(sm.levels().immutable.is_empty());
    assert_eq!(*sm.sys_data_ref().rest, "snapshot");
    assert_eq!(*sm.sys_data_ref().last_applied_ref(), last_applied);
    let snapshot = sm.get_snapshot().unwrap();
    assert_eq!(snapshot.file, file);
    assert_eq!(snapshot.sys_data.last_applied, last_applied);
    assert_eq!(sm.cleanup_start_timestamp(), Duration::from_millis(5));
    assert!(sm.on_change_applied == Some("subscriber"));
}

#[test]
fn log_ids_are_ordered_by_term_node_and_index() {
    assert!(applied_ge(&log_id(2, 0, 0), &log_id(1, 9, 9)));
    assert!(!applied_ge(&log_id(1, 9, 9), &log_id(2, 0, 0)));
    assert!(applied_ge(&log_id(1, 2, 0), &log_id(1, 1, 9)));
    assert!(!applied_ge(&log_id(1, 1, 9), &log_id(1, 2, 0)));
    assert!(applied_ge(&log_id(1, 1, 2), &log_id(1, 1, 1)));
    assert!(!applied_ge(&log_id(1, 1, 1), &log_id(1, 1, 2)));
    assert!(applied_ge(&log_id(1, 1, 1), &log_id(1, 1, 1)));
}

#[test]
fn nothing_applied_is_behind_everything() {
    assert!(applied_ge(&None, &None));
    assert!(applied_ge(&log_id(0, 0, 0), &None));
    assert!(!applied_ge(&None, &log_id(0, 0, 0)));
}

#[test]
fn a_newer_snapshot_is_installed() {
    let mut sm = sm(log_id(1, 1, 5));
    sm.install_snapshot_v003(db(log_id(1, 1, 6), "new")).unwrap();
    assert_installed(&sm, log_id(1, 1, 6), "new");
}

#[test]
fn an_older_snapshot_is_ignored() {
    let mut sm = sm(log_id(1, 1, 5));
    sm.install_snapshot_v003(db(log_id(1, 1, 4), "old")).unwrap();
    assert_unchanged(&sm);
    sm.install_snapshot_v003(db(None, "old")).unwrap();
    assert_unchanged(&sm);
}

#[test]
fn a_snapshot_of_the_same_position_is_ignored() {
    let mut sm = sm(log_id(1, 1, 5));
    sm.install_snapshot_v003(db(log_id(1, 1, 5), "same")).unwrap();
    assert_unchanged(&sm);
}

#[test]
fn a_state_machine_that_applied_nothing_installs_any_snapshot() {
    let mut fresh = sm(None);
    fresh.install_snapshot_v003(db(None, "imported")).unwrap();
    assert_installed(&fresh, None, "imported");
    let mut fresh = sm(None);
    fresh.install_snapshot_v003(db(log_id(1, 1, 1), "first")).unwrap();
    assert_installed(&fresh, log_id(1, 1, 1), "first");
}

#[test]
fn installing_twice_is_installing_once() {
    let mut sm = sm(None);
    sm.install_snapshot_v003(db(log_id(3, 1, 7), "one")).unwrap();
    sm.levels_mut().writable.entries.push(9);
    sm.install_snapshot_v003(db(log_id(3, 1, 7), "two")).unwrap();
    assert_eq!(sm.levels().writable.entries, vec![9]);
    assert_eq!(sm.get_snapshot().unwrap().file, "one");
}

#[test]
fn installing_twice_before_anything_is_applied_is_installing_once() {
    let mut sm = sm(None);
    sm.install_snapshot_v003(db(None, "imported")).unwrap();
    assert_installed(&sm, None, "imported");
    sm.install_snapshot_v003(db(None, "imported")).unwrap();
    assert_installed(&sm, None, "imported");
}

#[test]
fn a_snapshot_that_is_not_newer_is_told_apart() {
    assert!(sm(log_id(1, 1, 5)).ignores_snapshot(&db(log_id(1, 1, 5), "same")));
    assert!(sm(log_id(1, 1, 5)).ignores_snapshot(&db(None, "old")));
    assert!(!sm(log_id(1, 1, 5)).ignores_snapshot(&db(log_id(1, 1, 6), "new")));
    assert!(!sm(None).ignores_snapshot(&db(None, "imported")));
}

#[test]
fn a_new_state_machine_holds_nothing() {
    let sm = Sm::default();
    assert_eq!(sm.cleanup_start_timestamp(), Duration::ZERO);
    assert_eq!(sm.cleanup_start_timestamp().as_nanos(), 0);
    assert_eq!(sm.cleanup_start_nanos(), 0);
    assert!(sm.on_change_applied.is_none());
    assert!(sm.get_snapshot().is_none());
    assert_eq!(*sm.sys_data_ref().last_applied_ref(), None);
    assert_eq!(*sm.sys_data_ref().rest, "");
    assert!(sm.levels().writable.entries.is_empty());
    assert!(sm.levels().immutable.is_empty());
}

#[test]
fn the_levels_can_be_printed() {
    assert_eq!(
        format!("{:?}", Levels::default()),
        "LeveledMap { writable: Level { sys_data: SysData { last_applied: None, rest: \"\" }, entries: [] }, immutable: [], persisted: None }"
    );
}

#[test]
fn data_is_replaced() {
    let mut sm = sm(log_id(1, 1, 5));
    let mut newer = levels(log_id(1, 1, 6));
    newer.writable.entries = vec![7];
    sm.replace(newer);
    assert_eq!(sm.levels().writable.entries, vec![7]);
    assert_eq!(sm.sys_data_ref().last_applied, log_id(1, 1, 6));
    assert_eq!(sm.cleanup_start_timestamp(), Duration::from_millis(5));
}

#[test]
fn freezing_starts_an_empty_level() {
    let mut sm = sm(log_id(1, 1, 5));
    sm.freeze_writable();
    assert!(sm.levels().writable.entries.is_empty());
    assert_eq!(sm.sys_data_ref().last_applied, log_id(1, 1, 5));
    assert_eq!(*sm.sys_data_ref().rest, "own");
    assert_eq!(sm.levels().immutable.len(), 2);
    assert_eq!(sm.levels().immutable[0].entries, vec![3]);
    assert_eq!(sm.levels().immutable[1].entries, vec![1, 2]);
}

#[test]
fn the_log_position_never_goes_back() {
    let mut sm = sm(log_id(1, 1, 5));
    let mut last = *sm.sys_data_ref().last_applied_ref();
    for offered in [log_id(1, 1, 4), log_id(2, 0, 1), None, log_id(1, 9, 9), log_id(2, 0, 2)] {
        sm.install_snapshot_v003(db(offered, "offered")).unwrap();
        sm.freeze_writable();
        let now = *sm.sys_data_ref().last_applied_ref();
        assert!(applied_ge(&now, &last));
        last = now;
    }
    assert_eq!(last, log_id(2, 0, 2));
}

#[test]
fn a_subscriber_is_told_of_changes() {
    let mut sm = sm(None);
    let change = ("k".to_string(), None, Some(1));
    match sm.on_change_applied(change.clone()) {
        Some((subscriber, told)) => {
            assert_eq!(*subscriber, "subscriber");
            assert_eq!(told, change);
        }
        None => panic!("there is a subscriber"),
    }
    assert_eq!(sm.subscriber_label(), Some("is_set"));
    sm.set_on_change_applied("other");
    assert_eq!(sm.on_change_applied(("k".to_string(), None::<u8>, None)).map(|c| *c.0), Some("other"));
    sm.on_change_applied = None;
    assert!(sm.on_change_applied(change).is_none());
    assert_eq!(sm.subscriber_label(), None);
}

#[test]
fn parts_of_the_state_machine_can_be_reached() {
    let mut sm = sm(log_id(1, 1, 5));
    assert_eq!(sm.kv_api().sm.levels.writable.entries, vec![1, 2]);
    sm.user_map_mut().writable.entries.push(10);
    sm.expire_map_mut().writable.entries.push(11);
    assert_eq!(sm.user_map().writable.entries, vec![1, 2, 10, 11]);
    assert_eq!(sm.expire_map().writable.entries, vec![1, 2, 10, 11]);
    sm.sys_data_mut().rest = Arc::new("changed".to_string());
    assert_eq!(*sm.sys_data_ref().rest, "changed");
    sm.set_cleanup_start_timestamp(Duration::from_millis(8));
    assert_eq!(sm.cleanup_start_timestamp(), Duration::from_millis(8));
    assert_eq!(sm.cleanup_start_nanos(), 8_000_000);
    sm.levels_mut().writable_mut().entries.clear();
    assert!(sm.levels().writable_ref().entries.is_empty());
    assert_eq!(sm.into_levels().immutable.len(), 1);
}
