use snapmirror::inventory::{FileList, TimeStamp};
use snapmirror::planner::{plan, presence, Presence, TransferKind};

fn ts(secs: i64) -> TimeStamp {
    TimeStamp::from_secs(secs)
}

fn list(stamps: &[i64]) -> FileList {
    let mut l = FileList::new();
    for &s in stamps {
        l.insert(ts(s), format!("snap-{}", s));
    }
    l
}

#[test]
fn presence_classifies_every_instant_once() {
    let local = list(&[10, 20, 30]);
    let remote = list(&[5, 20, 40]);
    let p = presence(&local, &remote);
    assert_eq!(
        p,
        vec![
            (ts(5), Presence::Remote),
            (ts(10), Presence::Local),
            (ts(20), Presence::LocalAndRemote),
            (ts(30), Presence::Local),
            (ts(40), Presence::Remote),
        ]
    );
}

#[test]
fn presence_of_empty_inventories_is_empty() {
    let p = presence(&FileList::new(), &FileList::new());
    assert!(p.is_empty());
}

#[test]
fn presence_orders_by_nanoseconds_within_a_second() {
    let mut local = FileList::new();
    local.insert(TimeStamp::new(7, 500), "b".to_string());
    let mut remote = FileList::new();
    remote.insert(TimeStamp::new(7, 499), "a".to_string());
    remote.insert(TimeStamp::new(7, 500), "b".to_string());
    let p = presence(&local, &remote);
    assert_eq!(
        p,
        vec![
            (TimeStamp::new(7, 499), Presence::Remote),
            (TimeStamp::new(7, 500), Presence::LocalAndRemote),
        ]
    );
}

#[test]
fn plan_with_empty_remote_sends_everything_in_a_chain() {
    let p = plan(&list(&[10, 20, 30]), &list(&[]), false);
    assert_eq!(
        p.transfers,
        vec![
            (ts(10), TransferKind::Full),
            (ts(20), TransferKind::DeltaFrom(ts(10))),
            (ts(30), TransferKind::DeltaFrom(ts(20))),
        ]
    );
    assert_eq!(p.last_common, None);
}

#[test]
fn plan_leans_on_the_last_common_snapshot() {
    let p = plan(&list(&[10, 20, 30]), &list(&[10]), false);
    assert_eq!(
        p.transfers,
        vec![
            (ts(20), TransferKind::DeltaFrom(ts(10))),
            (ts(30), TransferKind::DeltaFrom(ts(20))),
        ]
    );
    assert_eq!(p.last_common, Some(ts(10)));
}

#[test]
fn plan_ignores_remote_only_snapshots() {
    let p = plan(&list(&[10, 30]), &list(&[10, 20]), false);
    assert_eq!(p.transfers, vec![(ts(30), TransferKind::DeltaFrom(ts(10)))]);
    assert_eq!(p.last_common, Some(ts(10)));
}

#[test]
fn plan_all_fills_every_gap() {
    let p = plan(&list(&[10, 20, 30, 40]), &list(&[10, 30]), true);
    assert_eq!(
        p.transfers,
        vec![
            (ts(20), TransferKind::DeltaFrom(ts(10))),
            (ts(40), TransferKind::DeltaFrom(ts(20))),
        ]
    );
    assert_eq!(p.last_common, Some(ts(10)));
}

#[test]
fn plan_tip_only_leaves_older_gaps() {
    let p = plan(&list(&[10, 20, 30, 40]), &list(&[10, 30]), false);
    assert_eq!(p.transfers, vec![(ts(40), TransferKind::DeltaFrom(ts(30)))]);
    assert_eq!(p.last_common, Some(ts(30)));
}

#[test]
fn plan_all_without_earlier_snapshot_starts_full() {
    let p = plan(&list(&[10, 20, 30]), &list(&[20]), true);
    assert_eq!(
        p.transfers,
        vec![(ts(10), TransferKind::Full), (ts(30), TransferKind::DeltaFrom(ts(10)))]
    );
    assert_eq!(p.last_common, None);
}

#[test]
fn plan_is_empty_when_the_tip_is_mirrored() {
    let p = plan(&list(&[10, 20, 30]), &list(&[30]), false);
    assert!(p.transfers.is_empty());
    assert_eq!(p.last_common, None);
}

#[test]
fn plan_of_empty_local_is_empty() {
    let p = plan(&list(&[]), &list(&[10]), true);
    assert!(p.transfers.is_empty());
    assert_eq!(p.last_common, None);
}

#[test]
fn plan_is_empty_after_its_transfers_arrived() {
    for all in [false, true] {
        let local = list(&[10, 20, 30, 40]);
        let mut remote = list(&[10, 30]);
        let first = plan(&local, &remote, all);
        assert!(!first.transfers.is_empty());
        for (t, _) in &first.transfers {
            remote.insert(*t, "copy".to_string());
        }
        let second = plan(&local, &remote, all);
        assert!(second.transfers.is_empty());
    }
}
