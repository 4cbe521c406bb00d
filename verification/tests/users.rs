use sudo_rs::interface::{GroupId, UserId};
use sudo_rs::sudoers::matching::{UnixGroup, UnixUser};
use sudo_rs::users::{GroupRecord, UserRecord};

fn alice() -> UserRecord {
    UserRecord {
        uid: 1000,
        gid: 1000,
        name: "alice".to_string(),
        home: "/home/alice".to_string(),
        shell: "/bin/sh".to_string(),
        groups: vec![
            GroupRecord { gid: 27, name: Some("sudo".to_string()) },
            GroupRecord { gid: 44, name: None },
        ],
    }
}

#[test]
fn user_record_answers_by_name_and_id() {
    let u = alice();
    assert!(u.has_name("alice"));
    assert!(!u.has_name("alicia"));
    assert!(u.has_uid(UserId::new(1000)));
    assert!(!u.has_uid(UserId::new(0)));
    assert!(!u.is_root());
    let mut root = alice();
    root.uid = 0;
    assert!(root.is_root());
    assert!(u.is_same(&alice()));
    assert!(!u.is_same(&root));
}

#[test]
fn user_record_answers_group_membership() {
    let u = alice();
    assert!(u.in_group_by_name("sudo"));
    assert!(!u.in_group_by_name("wheel"));
    // the primary group counts by id
    assert!(u.in_group_by_gid(GroupId::new(1000)));
    assert!(u.in_group_by_gid(GroupId::new(44)));
    assert!(!u.in_group_by_gid(GroupId::new(45)));
}

#[test]
fn group_record_gives_id_and_name() {
    let g = GroupRecord { gid: 27, name: Some("sudo".to_string()) };
    assert_eq!(g.as_gid(), GroupId::new(27));
    assert_eq!(g.try_as_name(), Some("sudo".to_string()));
    let g = GroupRecord { gid: 44, name: None };
    assert_eq!(g.try_as_name(), None);
}
