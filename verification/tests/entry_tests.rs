use std::time::Duration;
use std::time::SystemTime;
use std::time::UNIX_EPOCH;

use dirstate::entry::DirstateEntry;
use dirstate::errors::CommandError;
use dirstate::entry::EntryState;
use dirstate::entry::TruncatedTimestamp;
use dirstate::ref_sharing::PySharedRefCell;
use dirstate::ref_sharing::PySharedState;
use dirstate::ui::local_to_utf8;
use dirstate::ui::utf8_to_local;

#[test]
fn v1_round_trip_canonical_quads() {
    let quads: Vec<(EntryState, i32, i32, i32)> = vec![
        (EntryState::Normal, 0o644, 10, 1000),
        (EntryState::Normal, 0o755, 0, -5),
        (EntryState::Normal, 0o644, 7, -1),
        (EntryState::Normal, 0, -1, -1),
        (EntryState::Normal, 0, -2, -1),
        (EntryState::Added, 0, -1, -1),
        (EntryState::Removed, 0, 0, 0),
        (EntryState::Removed, 0, -1, 0),
        (EntryState::Removed, 0, -2, 0),
        (EntryState::Merged, 0, -2, -1),
    ];
    for (state, mode, size, mtime) in quads {
        let entry = DirstateEntry::from_v1_data(state, mode, size, mtime);
        let (state_byte, mode2, size2, mtime2) = entry.v1_data();
        assert_eq!(state_byte, state.into_byte());
        assert_eq!((mode2, size2, mtime2), (mode, size, mtime));
    }
}

#[test]
fn v2_round_trip() {
    let cases: Vec<(bool, bool, bool, Option<(i32, i32)>, Option<i32>)> = vec![
        (true, true, false, Some((0o644, 42)), Some(77)),
        (true, false, false, None, None),
        (false, true, true, None, None),
        (true, true, true, Some((1, 2)), None),
    ];
    for (w, p1, p2, mode_size, mtime) in cases {
        let entry = DirstateEntry::from_v2_data(w, p1, p2, mode_size, mtime);
        assert_eq!(entry.v2_data(), (w, p1, p2, mode_size, mtime));
    }
}

#[test]
fn ambiguous_mtime_clears() {
    let mut entry = DirstateEntry::from_v1_data(EntryState::Normal, 0o644, 10, 1000);
    assert!(entry.clear_ambiguous_mtime(1000));
    assert_eq!(entry.v1_data(), (b'n', 0o644, 10, -1));
    // a second call has nothing left to clear
    assert!(!entry.clear_ambiguous_mtime(1000));
}

#[test]
fn drop_merge_data_goes_back_to_normal() {
    let mut entry = DirstateEntry::from_v1_data(EntryState::Merged, 0, 0, 0);
    entry.drop_merge_data();
    let (state, _mode, _size, _mtime) = entry.v1_data();
    assert_eq!(state, b'n');
    assert!(!entry.p2_info());
}

#[test]
fn removed_from_other_parent() {
    let entry = DirstateEntry::from_v1_data(EntryState::Removed, 0, -2, 0);
    assert_eq!(entry.v1_data(), (b'r', 0, -2, 0));
    // p2_info also demands the working-directory flag
    assert!(!entry.p2_info());
}

#[test]
fn entry_predicates() {
    let added = DirstateEntry::from_v1_data(EntryState::Added, 0, -1, -1);
    assert!(added.added());
    assert!(added.tracked_in_wdir());
    assert!(!added.removed());
    assert!(!added.maybe_clean());
    assert!(added.any_tracked());

    let clean = DirstateEntry::from_v1_data(EntryState::Normal, 0o644, 5, 9);
    assert!(clean.maybe_clean());
    assert!(clean.p1_tracked());

    let removed = DirstateEntry::new_removed(0);
    assert!(removed.removed());
    assert!(!removed.tracked_in_wdir());
}

#[test]
fn entry_mutators() {
    let mut entry = DirstateEntry::from_v1_data(EntryState::Added, 0, -1, -1);
    entry.set_clean(0o644, 12, 34);
    assert_eq!(entry.v1_data(), (b'n', 0o644, 12, 34));
    entry.set_possibly_dirty();
    assert_eq!(entry.mtime(), -1);
    entry.set_untracked();
    assert!(!entry.tracked_in_wdir());
    entry.set_tracked();
    assert!(entry.tracked_in_wdir());
}

#[test]
fn mode_changed_looks_at_exec_bit() {
    let entry = DirstateEntry::from_v1_data(EntryState::Normal, 0o744, 5, 9);
    assert!(!entry.mode_changed(0o100744));
    assert!(entry.mode_changed(0o100644));
}

#[test]
fn state_bytes() {
    assert_eq!(EntryState::try_from_byte(b'n').unwrap(), EntryState::Normal);
    assert_eq!(EntryState::try_from_byte(b'a').unwrap(), EntryState::Added);
    assert_eq!(EntryState::try_from_byte(b'r').unwrap(), EntryState::Removed);
    assert_eq!(EntryState::try_from_byte(b'm').unwrap(), EntryState::Merged);
    assert!(EntryState::try_from_byte(b'x').is_err());
    assert!(EntryState::Normal.is_tracked());
    assert!(!EntryState::Removed.is_tracked());
}

#[test]
fn truncated_timestamp_construction() {
    let t = TruncatedTimestamp::new_truncate(5, 1);
    assert_eq!(t.truncated_seconds(), 5);
    assert_eq!(t.nanoseconds(), 1);

    // truncation keeps the low 31 bits
    let t = TruncatedTimestamp::new_truncate(0x1_0000_0003, 0);
    assert_eq!(t.truncated_seconds(), 3);

    assert!(TruncatedTimestamp::from_already_truncated(0x7FFF_FFFF, 999_999_999).is_ok());
    assert!(TruncatedTimestamp::from_already_truncated(0x8000_0000, 0).is_err());
    assert!(TruncatedTimestamp::from_already_truncated(0, 1_000_000_000).is_err());
}

#[test]
fn system_time_nanoseconds_stay_in_range() {
    let now = SystemTime::now();
    let t = TruncatedTimestamp::from_system_time(now);
    assert!(t.nanoseconds() < 1_000_000_000);

    let before = UNIX_EPOCH - Duration::new(4, 300_000_000);
    let t = TruncatedTimestamp::from_system_time(before);
    assert!(t.nanoseconds() < 1_000_000_000);
    // 4.3 seconds before the epoch is -5 seconds plus 0.7 seconds
    assert_eq!(t.truncated_seconds(), (-5i64 & 0x7FFF_FFFF) as u32);
    assert_eq!(t.nanoseconds(), 700_000_000);
}

#[test]
fn equal_times_are_very_likely_equal() {
    let now = SystemTime::now();
    let a = TruncatedTimestamp::from_system_time(now);
    let b = TruncatedTimestamp::from_system_time(now);
    assert!(a.very_likely_equal(&b));
}

#[test]
fn borrow_discipline() {
    let mut state = PySharedState::default();
    assert!(state.borrow_mut().is_ok());
    // exclusive: a second mutable borrow is refused
    assert!(state.borrow_mut().is_err());
    // while mutably borrowed, leaking is refused too
    assert!(state.leak_immutable().is_err());
    state.decrease_leak_count(true);

    assert!(state.leak_immutable().is_ok());
    assert!(state.leak_immutable().is_ok());
    // leaks outstanding: the mutable borrow is refused
    assert!(state.borrow_mut().is_err());
    state.decrease_leak_count(false);
    state.decrease_leak_count(false);
    assert!(state.borrow_mut().is_ok());
}

#[test]
fn shared_cell_reads() {
    let cell = PySharedRefCell::new(41u64);
    assert_eq!(*cell.borrow(), 41);
    assert_eq!(cell.py_shared_state.leak_count, 0);
}

#[test]
fn encoding_round_trip() {
    assert_eq!(utf8_to_local("abc"), b"abc".to_vec());
    assert_eq!(local_to_utf8(b"abc"), "abc".to_string());
    assert_eq!(local_to_utf8(&utf8_to_local("dirstate")), "dirstate");
}

#[test]
fn abort_carries_its_message() {
    match CommandError::abort("something went wrong") {
        CommandError::Abort { message } => {
            assert_eq!(message, b"something went wrong".to_vec())
        }
        CommandError::Unimplemented => panic!("expected an abort"),
    }
}
