use drone_network::fragmentation::{fragment_data, MessageConstructor};
use drone_network::FRAGMENT_DSIZE;
use drone_network::wire::Fragment;

#[test]
fn fragments_of_short_message() {
    let data: Vec<u8> = vec![1, 2, 3];
    let frags = fragment_data(&data);
    assert_eq!(frags.len(), 1);
    assert_eq!(frags[0].fragment_index, 0);
    assert_eq!(frags[0].total_n_fragments, 1);
    assert_eq!(frags[0].length, 3);
    assert_eq!(frags[0].data.len(), FRAGMENT_DSIZE);
    assert_eq!(&frags[0].data[..3], &[1, 2, 3]);
    assert!(frags[0].data[3..].iter().all(|b| *b == 0));
}

#[test]
fn fragments_of_exact_block_multiple() {
    let data: Vec<u8> = (0..256u32).map(|i| (i % 251) as u8).collect();
    let frags = fragment_data(&data);
    assert_eq!(frags.len(), 2);
    assert_eq!(frags[1].fragment_index, 1);
    assert_eq!(frags[1].length, 128);
    assert_eq!(frags[1].data, data[128..].to_vec());
}

#[test]
fn fragments_of_empty_message() {
    let data: Vec<u8> = Vec::new();
    let frags = fragment_data(&data);
    assert_eq!(frags.len(), 0);
}

#[test]
fn fragments_rejoin_in_any_order() {
    let data: Vec<u8> = (0..300u32).map(|i| (i * 7 % 256) as u8).collect();
    let frags = fragment_data(&data);
    assert_eq!(frags.len(), 3);
    let mut c = MessageConstructor::new(3);
    let mut frags = frags;
    let last = frags.remove(2);
    let first = frags.remove(0);
    let middle = frags.remove(0);
    assert_eq!(c.add_packet(last), Ok(None));
    assert_eq!(c.completed_up_to, 0);
    assert_eq!(c.add_packet(first), Ok(None));
    assert_eq!(c.completed_up_to, 1);
    let r = c.add_packet(middle).unwrap().unwrap();
    assert_eq!(r.len(), 3 * FRAGMENT_DSIZE);
    assert_eq!(&r[..300], &data[..]);
    assert!(r[300..].iter().all(|b| *b == 0));
    assert_eq!(c.completed_up_to, 3);
}

#[test]
fn two_fragments_join_in_index_order() {
    let f0 = Fragment { fragment_index: 0, total_n_fragments: 2, length: 128, data: vec![1u8; 128] };
    let f1 = Fragment { fragment_index: 1, total_n_fragments: 2, length: 128, data: vec![2u8; 128] };
    let mut c = MessageConstructor::new(2);
    assert_eq!(c.add_packet(f1), Ok(None));
    let r = c.add_packet(f0).unwrap().unwrap();
    let mut expected = vec![1u8; 128];
    expected.extend(vec![2u8; 128]);
    assert_eq!(r, expected);
}

#[test]
fn repeated_fragment_keeps_message_incomplete() {
    let data: Vec<u8> = vec![4; 200];
    let mut frags = fragment_data(&data);
    let second = frags.remove(1);
    let first = frags.remove(0);
    let first_again = fragment_data(&data).remove(0);
    let mut c = MessageConstructor::new(2);
    assert_eq!(c.add_packet(first), Ok(None));
    assert_eq!(c.add_packet(first_again), Ok(None));
    let r = c.add_packet(second).unwrap().unwrap();
    assert_eq!(&r[..200], &data[..]);
}

#[test]
fn constructor_refuses_out_of_range_fragment() {
    let data: Vec<u8> = vec![9; 10];
    let mut frags = fragment_data(&data);
    let mut f = frags.remove(0);
    f.fragment_index = 4;
    let mut c = MessageConstructor::new(1);
    assert!(c.add_packet(f).is_err());
    assert_eq!(c.completed_up_to, 0);
    assert!(c.fragments[0].is_none());
}
