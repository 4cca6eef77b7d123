use set_deque::keys::key_to_position;
use set_deque::keys::next_after;
use set_deque::keys::position_key;
use set_deque::keys::KEY_WIDTH;
use set_deque::keys::MAX_POSITION;

#[test]
fn position_key_is_big_endian() {
    assert_eq!(position_key(0), vec![0, 0, 0, 0, 0, 0, 0, 0]);
    assert_eq!(position_key(1), vec![0, 0, 0, 0, 0, 0, 0, 1]);
    assert_eq!(position_key(258), vec![0, 0, 0, 0, 0, 0, 1, 2]);
    assert_eq!(
        position_key(0x0102_0304_0506_0708),
        vec![1, 2, 3, 4, 5, 6, 7, 8]
    );
    assert_eq!(
        position_key(MAX_POSITION),
        vec![0x7f, 0xff, 0xff, 0xff, 0xff, 0xff, 0xff, 0xff]
    );
}

#[test]
fn position_key_agrees_with_the_standard_encoding() {
    let samples: [i64; 6] = [0, 1, 255, 256, 1 << 40, i64::MAX];
    for n in samples {
        assert_eq!(position_key(n), n.to_be_bytes().to_vec());
        assert_eq!(position_key(n).len(), KEY_WIDTH);
    }
}

#[test]
fn key_order_is_position_order() {
    let samples: [i64; 7] = [0, 1, 255, 256, 65_535, 65_536, i64::MAX];
    for pair in samples.windows(2) {
        assert!(position_key(pair[0]) < position_key(pair[1]));
    }
}

#[test]
fn key_to_position_inverts_position_key() {
    assert_eq!(key_to_position(&[0, 0, 0, 0, 0, 0, 0, 0]), Some(0));
    assert_eq!(key_to_position(&[0, 0, 0, 0, 0, 0, 1, 2]), Some(258));
    assert_eq!(key_to_position(&[1, 2, 3, 4, 5, 6, 7, 8]), Some(0x0102_0304_0506_0708));
    assert_eq!(key_to_position(&position_key(MAX_POSITION)), Some(MAX_POSITION));
}

#[test]
fn key_to_position_refuses_what_is_no_key() {
    assert_eq!(key_to_position(&[]), None);
    assert_eq!(key_to_position(&[0, 0, 0, 0, 0, 0, 1]), None);
    assert_eq!(key_to_position(&[0, 0, 0, 0, 0, 0, 0, 0, 1]), None);
    assert_eq!(key_to_position(&[0x80, 0, 0, 0, 0, 0, 0, 0]), None);
    assert_eq!(key_to_position(&[0xff; 8]), None);
}

#[test]
fn next_after_starts_at_zero_and_counts_up() {
    assert_eq!(next_after(None), Some(0));
    assert_eq!(next_after(Some(&[0, 0, 0, 0, 0, 0, 0, 0])), Some(1));
    assert_eq!(next_after(Some(&[0, 0, 0, 0, 0, 0, 0, 41])), Some(42));
    assert_eq!(next_after(Some(&[0, 0, 0, 0, 0, 0, 0, 255])), Some(256));
}

#[test]
fn next_after_stops_where_no_position_follows() {
    assert_eq!(next_after(Some(&position_key(MAX_POSITION))), None);
    assert_eq!(next_after(Some(&position_key(MAX_POSITION - 1))), Some(MAX_POSITION));
    assert_eq!(next_after(Some(&[1, 2, 3])), None);
    assert_eq!(next_after(Some(&[0xff; 8])), None);
}
