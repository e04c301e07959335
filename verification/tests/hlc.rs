use geo_sidecar::hlc::{HLCTimestamp, HybridLogicalClock};

#[test]
fn test_hlc_now() {
    let mut hlc = HybridLogicalClock::new();
    let ts1 = hlc.now();
    let ts2 = hlc.now();

    // Second timestamp should be greater
    assert!(ts2.is_greater_than(&ts1));
}

#[test]
fn test_hlc_update() {
    let mut hlc = HybridLogicalClock::new();
    let ts1 = hlc.now();

    // Simulate remote timestamp from future
    let remote_ts = HLCTimestamp {
        physical: ts1.physical + 1_000_000, // 1ms in future
        logical: 5,
    };

    let ts2 = hlc.update(remote_ts);
    assert!(ts2.is_greater_than(&ts1));
    assert!(ts2.is_greater_than(&remote_ts));
}

#[test]
fn test_timestamp_serialization() {
    let ts = HLCTimestamp {
        physical: 1234567890,
        logical: 42,
    };

    let bytes = ts.to_bytes();
    let restored = HLCTimestamp::from_bytes(&bytes);

    assert_eq!(ts.physical, restored.physical);
    assert_eq!(ts.logical, restored.logical);
}

#[test]
fn test_timestamp_byte_layout_is_little_endian() {
    let ts = HLCTimestamp {
        physical: 0x0102030405060708,
        logical: 0x1112131415161718,
    };
    let bytes = ts.to_bytes();
    assert_eq!(
        bytes,
        [
            0x08, 0x07, 0x06, 0x05, 0x04, 0x03, 0x02, 0x01, 0x18, 0x17, 0x16, 0x15, 0x14, 0x13,
            0x12, 0x11
        ]
    );
}

#[test]
fn test_compare_orders_physical_before_logical() {
    let a = HLCTimestamp { physical: 1, logical: 9 };
    let b = HLCTimestamp { physical: 2, logical: 0 };
    let c = HLCTimestamp { physical: 2, logical: 1 };
    assert_eq!(a.compare(&b), std::cmp::Ordering::Less);
    assert_eq!(b.compare(&c), std::cmp::Ordering::Less);
    assert_eq!(c.compare(&c), std::cmp::Ordering::Equal);
    assert!(c.is_greater_than(&b));
    assert!(a.is_less_than(&c));
    assert!(!a.is_greater_than(&c));
}
