use sudo_rs::time::{Duration, ProcessCreateTime, SystemTime};

#[test]
fn test_new_system_time() {
    assert_eq!(SystemTime::new(-1, 2_000_000_000), SystemTime::new(1, 0));
    assert_eq!(
        SystemTime::new(2, -500_000_000),
        SystemTime::new(1, 500_000_000)
    );
}

#[test]
fn test_time_ops() {
    assert_eq!(
        SystemTime::new(0, 0).checked_add(Duration::from_secs(3)).unwrap(),
        SystemTime::new(3, 0)
    );
    assert_eq!(
        SystemTime::new(0, 500_000_000)
            .checked_add(Duration::from_nanos(2_500_000_000))
            .unwrap(),
        SystemTime::new(3, 0)
    );
    assert_eq!(
        SystemTime::new(10, 0).checked_sub(Duration::from_secs(4)).unwrap(),
        SystemTime::new(6, 0)
    );
    assert_eq!(
        SystemTime::new(10, 0)
            .checked_sub(Duration::from_nanos(3_500_000_000))
            .unwrap(),
        SystemTime::new(6, 500_000_000)
    );
}

#[test]
fn time_overflow_is_none() {
    assert!(SystemTime::new(i64::MAX, 999_999_999)
        .checked_add(Duration::from_nanos(1))
        .is_none());
    assert!(SystemTime::new(i64::MIN, 0)
        .checked_sub(Duration::from_nanos(1))
        .is_none());
    assert_eq!(
        SystemTime::new(i64::MAX, 0)
            .checked_add(Duration::from_nanos(999_999_999))
            .unwrap(),
        SystemTime::new(i64::MAX, 999_999_999)
    );
}

#[test]
fn time_encode_decode() {
    let t = SystemTime::new(1234, 5678);
    let mut bytes = Vec::new();
    t.encode(&mut bytes);
    assert_eq!(bytes.len(), 16);
    let mut pos = 0;
    assert_eq!(SystemTime::decode(&bytes, &mut pos).unwrap(), t);
    assert_eq!(pos, 16);
    let mut pos = 0;
    assert!(SystemTime::decode(&bytes[1..], &mut pos).is_err());

    let p = ProcessCreateTime::new(7, -1);
    assert_eq!(p.secs(), 6);
    let mut bytes = Vec::new();
    p.encode(&mut bytes);
    let mut pos = 0;
    assert_eq!(ProcessCreateTime::decode(&bytes, &mut pos).unwrap(), p);
}

#[test]
fn subtracting_undoes_adding() {
    let cases = [
        (SystemTime::new(5, 999_999_999), Duration::from_nanos(2)),
        (SystemTime::new(-3, 1), Duration::from_secs(7)),
        (SystemTime::new(0, 0), Duration::from_nanos(1_999_999_999)),
        (SystemTime::new(i64::MAX - 1, 500_000_000), Duration::from_nanos(400_000_000)),
    ];
    for (t, d) in cases {
        let u = t.checked_add(d).unwrap();
        assert_eq!(u.checked_sub(d).unwrap(), t);
    }
    assert!(SystemTime::new(i64::MAX, 500_000_000).checked_add(Duration::from_nanos(600_000_000)).is_none());
    assert!(SystemTime::new(i64::MIN, 0).checked_sub(Duration::from_nanos(1)).is_none());
}
