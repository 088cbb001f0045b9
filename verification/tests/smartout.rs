use moq_core::smartout::{offer_group, SmartOut, SmartWriter};

#[test]
fn dedup_merge_two_sources() {
    // Group arrivals interleaved from two redundant sources:
    //   1(A), 2(A), 2(B), 3(A), 3(B), 4(B)
    // The sink must receive exactly 1, 2, 3, 4, each once, in arrival order.
    let mut out = SmartOut::new(Vec::new());
    let track = "video".to_string();
    let arrivals: Vec<(u64, Vec<u8>)> = vec![
        (1, vec![1u8]),
        (2, vec![2u8]),
        (2, vec![102u8]),
        (3, vec![3u8]),
        (3, vec![103u8]),
        (4, vec![4u8]),
    ];
    let mut wrote_flags = Vec::new();
    for (gid, payload) in &arrivals {
        wrote_flags.push(offer_group(&mut out, &track, *gid, payload));
    }
    assert_eq!(wrote_flags, vec![true, true, false, true, false, true]);
    assert_eq!(out.output(), &vec![1u8, 2, 3, 4]);
    assert_eq!(out.last_group_id(&track), Some(4));
}

#[test]
fn regression_is_written_through() {
    // A lower group id than the last written one is treated as not yet seen.
    let mut out = SmartOut::new(Vec::new());
    let track = "t".to_string();
    assert!(offer_group(&mut out, &track, 5, &vec![5u8]));
    assert!(offer_group(&mut out, &track, 3, &vec![3u8]));
    assert_eq!(out.output(), &vec![5u8, 3]);
    assert_eq!(out.last_group_id(&track), Some(3));
    // Only an exact duplicate of the last value is suppressed: 5 again goes
    // through once history has moved on.
    assert!(offer_group(&mut out, &track, 5, &vec![55u8]));
    assert_eq!(out.output(), &vec![5u8, 3, 55]);
}

#[test]
fn tracks_are_deduplicated_independently() {
    let mut out = SmartOut::new(Vec::new());
    let a = "a".to_string();
    let b = "b".to_string();
    assert_eq!(out.last_group_id(&a), None);
    out.write_group(a.clone(), 7, &vec![10u8]);
    assert_eq!(out.last_group_id(&a), Some(7));
    assert_eq!(out.last_group_id(&b), None);
    out.write_group(b.clone(), 1, &vec![20u8]);
    assert_eq!(out.last_group_id(&a), Some(7));
    assert_eq!(out.last_group_id(&b), Some(1));
    // The same group id on the other track is not a duplicate.
    assert!(offer_group(&mut out, &b, 7, &vec![30u8]));
    assert_eq!(out.output(), &vec![10u8, 20, 30]);
}

#[test]
fn write_group_records_unconditionally() {
    let mut out = SmartOut::new(vec![9u8]);
    let t = "t".to_string();
    out.write_group(t.clone(), 2, &vec![1u8, 2]);
    out.write_group(t.clone(), 2, &vec![3u8]);
    assert_eq!(out.output(), &vec![9u8, 1, 2, 3]);
    assert_eq!(out.last_group_id(&t), Some(2));
}
