use embedded_error_chain::error_data::{make_code, make_formatter_idx};
use embedded_error_chain::{ErrorData, ERROR_CHAIN_LEN};

#[test]
fn new_record_gives_its_code_back() {
    for code in 0..16u8 {
        let data = ErrorData::new(code);
        assert_eq!(data.code(), code);
        assert_eq!(data.chain_len(), 0);
        assert_eq!(data.first_formatter_index(), None);
        assert!(!data.chain_full());
    }
}

#[test]
fn new_record_keeps_four_bits_of_the_code() {
    assert_eq!(ErrorData::new(16).code(), 0);
    assert_eq!(ErrorData::new(21).code(), 5);
    assert_eq!(ErrorData::new(255).code(), 15);
    assert!(ErrorData::new(21) == ErrorData::new(5));
}

#[test]
fn field_makers_mask_their_argument() {
    assert_eq!(make_code(0), 0);
    assert_eq!(make_code(15), 15);
    assert_eq!(make_code(0x3a), 0x0a);
    assert_eq!(make_formatter_idx(0), 0);
    assert_eq!(make_formatter_idx(7), 7);
    assert_eq!(make_formatter_idx(0x1d), 5);
}

#[test]
fn set_code_replaces_the_current_code_only() {
    let mut data = ErrorData::new(3);
    data.chain(9, 2);
    let previous = data.set_code(12);
    assert_eq!(previous, 9);
    assert_eq!(data.code(), 12);
    assert_eq!(data.chain_len(), 1);
    assert_eq!(data.first_formatter_index(), Some(2));
    let mut iter = data.iter_chain();
    assert_eq!(iter.next(), Some((3, None)));
    assert_eq!(iter.next(), None);

    let previous = data.set_code(0x17);
    assert_eq!(previous, 12);
    assert_eq!(data.code(), 7);
}

#[test]
fn chain_length_grows_by_one_up_to_the_capacity() {
    let mut data = ErrorData::new(1);
    assert_eq!(data.chain_len(), 0);
    for n in 1..=4usize {
        let evicted = data.push_front(n as u8 + 1, 0);
        assert_eq!(evicted, None);
        assert_eq!(data.chain_len(), n);
        assert_eq!(data.chain_full(), n == ERROR_CHAIN_LEN);
    }
    let evicted = data.push_front(6, 0);
    assert_eq!(evicted, Some((1, 0)));
    assert_eq!(data.chain_len(), 4);
    assert!(data.chain_full());
}

#[test]
fn push_front_moves_every_cause_one_slot_back() {
    let mut data = ErrorData::new(10);
    assert_eq!(data.push_front(11, 5), None);
    assert_eq!(data.push_front(12, 0), None);
    assert_eq!(data.push_front(13, 6), None);

    assert_eq!(data.code(), 13);
    assert_eq!(data.first_formatter_index(), Some(6));
    let mut iter = data.iter_chain();
    assert_eq!(iter.next(), Some((12, Some(0))));
    assert_eq!(iter.next(), Some((11, Some(5))));
    assert_eq!(iter.next(), Some((10, None)));
    assert_eq!(iter.next(), None);
    assert_eq!(iter.next(), None);
}

#[test]
fn fifth_push_hands_back_the_oldest_pair() {
    let mut data = ErrorData::new(1);
    data.chain(2, 3);
    data.chain(3, 4);
    data.chain(4, 5);
    data.chain(5, 6);
    assert!(data.chain_full());

    let evicted = data.push_front(6, 0);
    assert_eq!(evicted, Some((1, 3)));
    assert_eq!(data.code(), 6);
    assert_eq!(data.first_formatter_index(), Some(0));

    let mut iter = data.iter_chain();
    assert_eq!(iter.next(), Some((5, Some(6))));
    assert_eq!(iter.next(), Some((4, Some(5))));
    assert_eq!(iter.next(), Some((3, Some(4))));
    assert_eq!(iter.next(), Some((2, None)));
    assert_eq!(iter.next(), None);

    let evicted = data.push_front(7, 1);
    assert_eq!(evicted, Some((2, 4)));
}

#[test]
fn push_front_masks_code_and_link() {
    let mut data = ErrorData::new(1);
    assert_eq!(data.push_front(0x25, 0x0a), None);
    // 0x25 keeps its low four bits, and 0x0a + 1 its low three.
    assert_eq!(data.code(), 5);
    assert_eq!(data.first_formatter_index(), Some(2));
    assert_eq!(data.chain_len(), 1);
}

#[test]
fn push_front_with_a_link_that_wraps_to_zero_adds_no_cause() {
    let mut data = ErrorData::new(1);
    assert_eq!(data.push_front(2, 7), None);
    assert_eq!(data.code(), 2);
    assert_eq!(data.chain_len(), 0);
    assert_eq!(data.first_formatter_index(), None);
    assert_eq!(data.iter_chain().next(), None);

    let mut data = ErrorData::new(1);
    assert_eq!(data.push_front(2, 255), None);
    assert_eq!(data.chain_len(), 0);
}

#[test]
fn walk_stops_at_the_first_absent_link() {
    let mut data = ErrorData::new(1);
    data.chain(2, 0);
    // A link that wraps to zero leaves a gap before the older cause.
    data.chain(3, 7);
    assert_eq!(data.chain_len(), 0);
    assert_eq!(data.iter_chain().next(), None);
}

#[test]
fn equal_records_compare_equal() {
    let mut a = ErrorData::new(4);
    a.chain(5, 1);
    let mut b = ErrorData::new(4);
    b.chain(5, 1);
    let mut c = ErrorData::new(4);
    c.chain(5, 2);
    assert!(a == b);
    assert!(a != c);
}
