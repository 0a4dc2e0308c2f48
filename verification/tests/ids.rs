use oylswap::id::{join_ids, join_ids_from_tuple, sort_alkanes, AlkaneId};

fn id(block: u128, tx: u128) -> AlkaneId {
    AlkaneId::new(block, tx)
}

#[test]
fn identifiers_are_ordered_by_block_then_tx() {
    assert!(id(1, 9).lt(&id(2, 0)));
    assert!(id(2, 3).lt(&id(2, 4)));
    assert!(!id(2, 4).lt(&id(2, 4)));
    assert!(!id(3, 0).lt(&id(2, 9)));
}

#[test]
fn sorting_a_pair_puts_the_smaller_first() {
    assert_eq!(sort_alkanes((id(2, 5), id(2, 3))), (id(2, 3), id(2, 5)));
    assert_eq!(sort_alkanes((id(2, 3), id(2, 5))), (id(2, 3), id(2, 5)));
    assert_eq!(sort_alkanes((id(4, 0), id(2, 9))), (id(2, 9), id(4, 0)));
}

#[test]
fn sorting_does_not_depend_on_the_order_given() {
    let a = id(7, 1);
    let b = id(2, 8);
    assert_eq!(sort_alkanes((a, b)), sort_alkanes((b, a)));
}

#[test]
fn sorting_a_pair_of_equals_keeps_it() {
    assert_eq!(sort_alkanes((id(2, 3), id(2, 3))), (id(2, 3), id(2, 3)));
}

#[test]
fn byte_form_is_block_then_tx_little_endian() {
    let bytes = id(2, 0x0102).to_bytes();
    assert_eq!(bytes.len(), 32);
    assert_eq!(bytes[0], 2);
    assert!(bytes[1..16].iter().all(|b| *b == 0));
    assert_eq!(bytes[16], 0x02);
    assert_eq!(bytes[17], 0x01);
    assert!(bytes[18..].iter().all(|b| *b == 0));
}

#[test]
fn reading_back_the_byte_form_gives_the_identifier() {
    let one = id(u128::MAX, 77);
    let mut bytes = vec![9u8, 9, 9];
    bytes.extend_from_slice(&one.to_bytes());
    bytes.push(1);
    assert_eq!(AlkaneId::read(&bytes, 3), Some(one));
}

#[test]
fn reading_needs_thirty_two_bytes() {
    let bytes = id(1, 2).to_bytes();
    assert_eq!(AlkaneId::read(&bytes[..31], 0), None);
    assert_eq!(AlkaneId::read(&bytes, 1), None);
    assert_eq!(AlkaneId::read(&bytes, usize::MAX), None);
    assert_eq!(AlkaneId::read(&bytes, 0), Some(id(1, 2)));
}

#[test]
fn joined_identifiers_follow_each_other() {
    let a = id(2, 3);
    let b = id(4, 5);
    let mut expected = a.to_bytes();
    expected.extend_from_slice(&b.to_bytes());
    assert_eq!(join_ids(a, b), expected);
    assert_eq!(join_ids_from_tuple((a, b)), expected);
    assert_eq!(AlkaneId::read(&join_ids(a, b), 32), Some(b));
}
