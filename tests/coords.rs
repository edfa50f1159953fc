use tileworld::coords::{from_chunk_local, to_chunk_local, CHUNK_SIZE};

#[test]
fn negative_one_is_last_of_previous_chunk() {
    assert_eq!(to_chunk_local(-1), (-1, 63));
}

#[test]
fn split_zero_and_multiples() {
    assert_eq!(to_chunk_local(0), (0, 0));
    assert_eq!(to_chunk_local(64), (1, 0));
    assert_eq!(to_chunk_local(-64), (-1, 0));
    assert_eq!(to_chunk_local(128), (2, 0));
    assert_eq!(to_chunk_local(-128), (-2, 0));
}

#[test]
fn split_negative_across_boundary() {
    assert_eq!(to_chunk_local(-65), (-2, 63));
    assert_eq!(to_chunk_local(-63), (-1, 1));
    assert_eq!(to_chunk_local(63), (0, 63));
    assert_eq!(to_chunk_local(100), (1, 36));
}

#[test]
fn split_extremes() {
    assert_eq!(to_chunk_local(i64::MIN), (i64::MIN / 64, 0));
    assert_eq!(to_chunk_local(i64::MAX), (i64::MAX / 64, 63));
}

#[test]
fn split_then_join_round_trip() {
    for a in [-1000i64, -129, -65, -64, -63, -1, 0, 1, 63, 64, 65, 1000, i64::MIN, i64::MAX] {
        let (c, l) = to_chunk_local(a);
        assert!(l < 64);
        assert_eq!(c * CHUNK_SIZE + l as i64, a);
        assert_eq!(from_chunk_local(c, l), a);
    }
}

#[test]
fn join_then_split_round_trip() {
    assert_eq!(from_chunk_local(-1, 63), -1);
    assert_eq!(from_chunk_local(3, 2), 194);
    assert_eq!(to_chunk_local(from_chunk_local(-7, 5)), (-7, 5));
}
