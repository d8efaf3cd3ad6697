//! Padding, blocks and constraints.

use sha3_gadget::constants::KECCAK_ABSORB_BYTES;
use sha3_gadget::padding::{constraints_for_padding, pad_message, split_blocks, HashMode};

fn message(len: usize) -> Vec<Option<u8>> {
    (0..len).map(|i| Some(i as u8)).collect()
}

#[test]
fn one_missing_byte() {
    let input = message(135);
    let sha3 = pad_message(HashMode::Sha3_256, &input);
    let keccak = pad_message(HashMode::Keccak256, &input);
    assert_eq!(sha3.len(), 136);
    assert_eq!(&sha3[..135], &input[..]);
    assert_eq!(sha3[135], Some(0x86));
    assert_eq!(keccak[135], Some(0x81));
}

#[test]
fn two_missing_bytes() {
    let input = message(134);
    assert_eq!(pad_message(HashMode::Sha3_256, &input)[134..], [Some(0x06), Some(0x80)]);
    assert_eq!(pad_message(HashMode::Keccak256, &input)[134..], [Some(0x01), Some(0x80)]);
}

#[test]
fn whole_block_of_padding() {
    for len in [0, 136, 272] {
        let input = message(len);
        let padded = pad_message(HashMode::Sha3_256, &input);
        assert_eq!(padded.len(), len + 136);
        assert_eq!(padded[len], Some(0x06));
        assert_eq!(padded[len + 135], Some(0x80));
        assert!(padded[len + 1..len + 135].iter().all(|b| *b == Some(0x00)));
    }
}

#[test]
fn unknown_bytes_stay_unknown() {
    let padded = pad_message(HashMode::Keccak256, &[None, Some(5), None]);
    assert_eq!(padded[..4], [None, Some(5), None, Some(0x01)]);
}

#[test]
fn padded_messages_are_whole_blocks() {
    for len in 0..300 {
        let padded = pad_message(HashMode::Sha3_256, &message(len));
        assert_eq!(padded.len() % KECCAK_ABSORB_BYTES, 0);
        assert_eq!(split_blocks(&padded).len(), len / 136 + 1);
    }
}

#[test]
fn blocks_keep_the_bytes() {
    let padded = pad_message(HashMode::Sha3_256, &message(200));
    let blocks = split_blocks(&padded);
    assert_eq!(blocks.len(), 2);
    for (k, byte) in padded.iter().enumerate() {
        assert_eq!(blocks[k / 136][k % 136], *byte);
    }
}

#[test]
fn modes_differ_in_the_byte_after_the_message() {
    for len in [0, 1, 134, 135, 136] {
        let sha3 = pad_message(HashMode::Sha3_256, &message(len));
        let keccak = pad_message(HashMode::Keccak256, &message(len));
        for k in 0..sha3.len() {
            assert_eq!(sha3[k] == keccak[k], k != len);
        }
    }
}

#[test]
fn padding_tells_messages_apart() {
    // a message that looks like the padding of a shorter one
    let short = pad_message(HashMode::Sha3_256, &[Some(1)]);
    let long = pad_message(HashMode::Sha3_256, &[Some(1), Some(0x06)]);
    assert_ne!(short, long);
    assert_ne!(
        pad_message(HashMode::Keccak256, &[]),
        pad_message(HashMode::Keccak256, &pad_message(HashMode::Keccak256, &[]))
    );
}

#[test]
fn constraints_follow_the_padding_from_the_end() {
    assert_eq!(constraints_for_padding(HashMode::Sha3_256, 1), vec![(0, 0x86)]);
    assert_eq!(constraints_for_padding(HashMode::Keccak256, 1), vec![(0, 0x81)]);
    assert_eq!(constraints_for_padding(HashMode::Sha3_256, 2), vec![(1, 0x80), (0, 0x06)]);
    assert_eq!(
        constraints_for_padding(HashMode::Keccak256, 4),
        vec![(3, 0x80), (2, 0x00), (1, 0x00), (0, 0x01)]
    );
    assert_eq!(constraints_for_padding(HashMode::Keccak256, 0), vec![]);
}

#[test]
fn constraints_equal_the_padding_bytes() {
    for len in [0, 1, 100, 134, 135] {
        for mode in [HashMode::Sha3_256, HashMode::Keccak256] {
            let padded = pad_message(mode, &message(len));
            let constraints = constraints_for_padding(mode, padded.len() - len);
            assert_eq!(constraints.len(), padded.len() - len);
            for (position, constant) in constraints {
                assert_eq!(padded[len + position], Some(constant));
            }
        }
    }
}
