use sudo_rs::interface::{ProcessId, UserId};
use sudo_rs::record_file::{determine_auth_status, uses_record_file, EmptyRecord, SessionRecordFile};
use sudo_rs::time::{Duration, ProcessCreateTime, SystemTime};
use sudo_rs::timestamp::{CreateResult, RecordScope, SessionRecord, TouchResult};

const HEADER: [u8; 4] = [0xD0, 0x50, 0x01, 0x00];

fn scope(pid: i32) -> RecordScope {
    RecordScope::Ppid {
        group_pid: ProcessId::new(pid),
        init_time: ProcessCreateTime::new(50, 0),
    }
}

fn empty_file() -> SessionRecordFile {
    SessionRecordFile::new(UserId::new(1000), HEADER.to_vec(), Duration::minutes(15))
}

#[test]
fn records_file_with_bad_header_is_reset() {
    let f = SessionRecordFile::new(UserId::new(1000), vec![1, 2, 3, 4, 5], Duration::minutes(15));
    assert_eq!(f.content(), &HEADER.to_vec());
    let f = SessionRecordFile::new(UserId::new(1000), vec![], Duration::minutes(15));
    assert_eq!(f.content(), &HEADER.to_vec());
}

#[test]
fn records_file_with_good_header_is_kept() {
    let mut content = HEADER.to_vec();
    content.extend_from_slice(&[7, 7]);
    let f = SessionRecordFile::new(UserId::new(1000), content.clone(), Duration::minutes(15));
    assert_eq!(f.content(), &content);
}

#[test]
fn create_appends_a_length_prefixed_record() {
    let mut f = empty_file();
    let now = SystemTime::new(1000, 5);
    let r = f.create(scope(42), UserId::new(1000), now);
    assert_eq!(r, Ok(CreateResult::Created { time: now }));

    let record = SessionRecord::init(scope(42), UserId::new(1000), true, now);
    let bytes = record.as_bytes();
    let mut expected = HEADER.to_vec();
    expected.push(bytes.len() as u8);
    expected.push(0);
    expected.extend_from_slice(&bytes);
    assert_eq!(f.content(), &expected);
}

#[test]
fn create_twice_refreshes_the_record() {
    let mut f = empty_file();
    let first = SystemTime::new(1000, 0);
    let later = SystemTime::new(1200, 0);
    f.create(scope(42), UserId::new(1000), first).unwrap();
    let len = f.content().len();
    let r = f.create(scope(42), UserId::new(1000), later);
    assert_eq!(r, Ok(CreateResult::Updated { old_time: first, new_time: later }));
    assert_eq!(f.content().len(), len);
}

#[test]
fn touch_within_timeout_refreshes() {
    let mut f = empty_file();
    let created = SystemTime::new(1000, 0);
    f.create(scope(42), UserId::new(1000), created).unwrap();
    let now = SystemTime::new(1300, 0);
    let r = f.touch(scope(42), UserId::new(1000), now, now);
    assert_eq!(r, Ok(TouchResult::Updated { old_time: created, new_time: now }));
    // the stored time moved: a second touch sees the new one
    let r = f.touch(scope(42), UserId::new(1000), now, now);
    assert_eq!(r, Ok(TouchResult::Updated { old_time: now, new_time: now }));
}

#[test]
fn touch_after_timeout_is_outdated() {
    let mut f = empty_file();
    let created = SystemTime::new(1000, 0);
    f.create(scope(42), UserId::new(1000), created).unwrap();
    let now = SystemTime::new(1000 + 16 * 60, 0);
    let r = f.touch(scope(42), UserId::new(1000), now, now);
    assert_eq!(r, Ok(TouchResult::Outdated { time: created }));
}

#[test]
fn touch_for_other_scope_or_user_is_not_found() {
    let mut f = empty_file();
    let created = SystemTime::new(1000, 0);
    f.create(scope(42), UserId::new(1000), created).unwrap();
    let now = SystemTime::new(1010, 0);
    assert_eq!(f.touch(scope(43), UserId::new(1000), now, now), Ok(TouchResult::NotFound));
    assert_eq!(f.touch(scope(42), UserId::new(1001), now, now), Ok(TouchResult::NotFound));
}

#[test]
fn disabled_record_is_not_found_until_created_again() {
    let mut f = empty_file();
    let created = SystemTime::new(1000, 0);
    f.create(scope(42), UserId::new(1000), created).unwrap();
    f.create(scope(7), UserId::new(1000), created).unwrap();
    assert_eq!(f.disable(scope(42), None), Ok(()));
    let now = SystemTime::new(1010, 0);
    assert_eq!(f.touch(scope(42), UserId::new(1000), now, now), Ok(TouchResult::NotFound));
    // the other scope keeps its record
    assert_eq!(
        f.touch(scope(7), UserId::new(1000), now, now),
        Ok(TouchResult::Updated { old_time: created, new_time: now })
    );
    let r = f.create(scope(42), UserId::new(1000), now);
    assert_eq!(r, Ok(CreateResult::Updated { old_time: created, new_time: now }));
    assert_eq!(
        f.touch(scope(42), UserId::new(1000), now, now),
        Ok(TouchResult::Updated { old_time: now, new_time: now })
    );
}

#[test]
fn disable_for_other_user_keeps_the_record() {
    let mut f = empty_file();
    let created = SystemTime::new(1000, 0);
    f.create(scope(42), UserId::new(1000), created).unwrap();
    let before = f.content().clone();
    assert_eq!(f.disable(scope(42), Some(UserId::new(5))), Ok(()));
    assert_eq!(f.content(), &before);
    assert_eq!(f.disable(scope(42), Some(UserId::new(1000))), Ok(()));
    assert_ne!(f.content(), &before);
    assert_eq!(f.content().len(), before.len());
}

#[test]
fn record_of_length_zero_is_an_error() {
    let mut content = HEADER.to_vec();
    content.extend_from_slice(&[0, 0, 9, 9]);
    let mut f = SessionRecordFile::new(UserId::new(1000), content, Duration::minutes(15));
    let now = SystemTime::new(1010, 0);
    assert_eq!(f.touch(scope(42), UserId::new(1000), now, now), Err(EmptyRecord));
    assert_eq!(f.create(scope(42), UserId::new(1000), now), Err(EmptyRecord));
    assert_eq!(f.disable(scope(42), None), Err(EmptyRecord));
}

#[test]
fn cut_record_is_dropped() {
    let mut content = HEADER.to_vec();
    content.extend_from_slice(&[30, 0, 1, 2, 3]);
    let mut f = SessionRecordFile::new(UserId::new(1000), content.clone(), Duration::minutes(15));
    let now = SystemTime::new(1010, 0);
    assert_eq!(f.touch(scope(42), UserId::new(1000), now, now), Ok(TouchResult::NotFound));
    assert_eq!(f.content(), &HEADER.to_vec());

    let mut f = SessionRecordFile::new(UserId::new(1000), content, Duration::minutes(15));
    assert_eq!(f.create(scope(42), UserId::new(1000), now), Ok(CreateResult::Created { time: now }));
    let bytes = SessionRecord::init(scope(42), UserId::new(1000), true, now).as_bytes();
    assert_eq!(f.content().len(), 4 + 2 + bytes.len());
}

#[test]
fn reset_forgets_all_records() {
    let mut f = empty_file();
    f.create(scope(42), UserId::new(1000), SystemTime::new(1000, 0)).unwrap();
    f.reset();
    assert_eq!(f.content(), &HEADER.to_vec());
    let now = SystemTime::new(1010, 0);
    assert_eq!(f.touch(scope(42), UserId::new(1000), now, now), Ok(TouchResult::NotFound));
}

#[test]
fn auth_status_without_policy_demand() {
    let r = determine_auth_status(false, true, Some(scope(42)), Some(empty_file()), UserId::new(1000), SystemTime::new(10, 0), SystemTime::new(10, 0));
    assert!(!r.must_authenticate);
    assert!(r.record_file.is_none());
    assert!(!uses_record_file(false, true, &Some(scope(42))));
    assert!(!uses_record_file(true, false, &Some(scope(42))));
    assert!(!uses_record_file(true, true, &None));
    assert!(uses_record_file(true, true, &Some(scope(42))));
}

#[test]
fn auth_status_with_fresh_record_skips_authentication() {
    let mut f = empty_file();
    let created = SystemTime::new(1000, 0);
    f.create(scope(42), UserId::new(1000), created).unwrap();
    let now = SystemTime::new(1100, 0);
    let r = determine_auth_status(true, true, Some(scope(42)), Some(f), UserId::new(1000), now, now);
    assert!(!r.must_authenticate);
    let mut kept = r.record_file.unwrap();
    // the record was refreshed to the new time
    assert_eq!(
        kept.touch(scope(42), UserId::new(1000), now, now),
        Ok(TouchResult::Updated { old_time: now, new_time: now })
    );
}

#[test]
fn auth_status_with_old_or_missing_record_asks() {
    let mut f = empty_file();
    f.create(scope(42), UserId::new(1000), SystemTime::new(1000, 0)).unwrap();
    let late = SystemTime::new(1000 + 3600, 0);
    let r = determine_auth_status(true, true, Some(scope(42)), Some(f), UserId::new(1000), late, late);
    assert!(r.must_authenticate);
    assert!(r.record_file.is_some());

    let r = determine_auth_status(true, true, Some(scope(7)), Some(empty_file()), UserId::new(1000), late, late);
    assert!(r.must_authenticate);
    assert!(r.record_file.is_some());

    let r = determine_auth_status(true, true, Some(scope(7)), None, UserId::new(1000), late, late);
    assert!(r.must_authenticate);
    assert!(r.record_file.is_none());

    let r = determine_auth_status(true, false, Some(scope(7)), Some(empty_file()), UserId::new(1000), late, late);
    assert!(r.must_authenticate);
    assert!(r.record_file.is_none());
}

#[test]
fn auth_status_with_damaged_file_asks_and_drops_it() {
    let mut content = HEADER.to_vec();
    content.extend_from_slice(&[0, 0]);
    let f = SessionRecordFile::new(UserId::new(1000), content, Duration::minutes(15));
    let now = SystemTime::new(10, 0);
    let r = determine_auth_status(true, true, Some(scope(42)), Some(f), UserId::new(1000), now, now);
    assert!(r.must_authenticate);
    assert!(r.record_file.is_none());
}
