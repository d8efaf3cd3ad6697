//! Digests over a chip that computes the permutation natively and records the
//! instructions that it is given.

use sha3_gadget::constants::KECCAK_ABSORB_BYTES;
use sha3_gadget::extraction::{digest_one_byte, input_byte};
use sha3_gadget::instructions::Keccackf1600Instructions;
use sha3_gadget::padding::HashMode;
use sha3_gadget::region::{impose_constraints, ConstrainConstant};
use sha3_gadget::sha3_256_gadget::{Keccak256, Sha3Family, Sha3_256};

/// The instructions so far, and the one that fails.
#[derive(Default)]
struct Trace {
    steps: Vec<String>,
    fail_at: Option<usize>,
    cells: usize,
    constraints: Vec<(usize, u8)>,
}

impl Trace {
    fn failing_at(step: usize) -> Self {
        Trace { fail_at: Some(step), ..Trace::default() }
    }

    fn step(&mut self, what: &str) -> Result<(), String> {
        self.steps.push(what.to_string());
        if self.fail_at == Some(self.steps.len() - 1) {
            Err(format!("{what} failed"))
        } else {
            Ok(())
        }
    }
}

#[derive(Clone, Copy, Debug, PartialEq, Eq)]
struct ByteCell {
    cell: usize,
    value: Option<u8>,
}

#[derive(Debug)]
struct NativeChip;

type State = Option<[u64; 25]>;

fn round_constants() -> Vec<u64> {
    let mut lfsr: u8 = 1;
    let mut constants = Vec::new();
    for _ in 0..24 {
        let mut constant: u64 = 0;
        for j in 0..7 {
            if lfsr & 1 == 1 {
                constant |= 1 << ((1u32 << j) - 1);
            }
            let carry = lfsr & 0x80 != 0;
            lfsr <<= 1;
            if carry {
                lfsr ^= 0x71;
            }
        }
        constants.push(constant);
    }
    constants
}

fn permute(mut a: [u64; 25]) -> [u64; 25] {
    for constant in round_constants() {
        let mut c = [0u64; 5];
        for x in 0..5 {
            c[x] = a[x] ^ a[x + 5] ^ a[x + 10] ^ a[x + 15] ^ a[x + 20];
        }
        for x in 0..5 {
            let d = c[(x + 4) % 5] ^ c[(x + 1) % 5].rotate_left(1);
            for y in 0..5 {
                a[x + 5 * y] ^= d;
            }
        }
        let (mut x, mut y) = (1usize, 0usize);
        let mut current = a[1];
        for t in 0..24u32 {
            let (next_x, next_y) = (y, (2 * x + 3 * y) % 5);
            x = next_x;
            y = next_y;
            let moved = a[x + 5 * y];
            a[x + 5 * y] = current.rotate_left(((t + 1) * (t + 2) / 2) % 64);
            current = moved;
        }
        for y in 0..5 {
            let row = [a[5 * y], a[5 * y + 1], a[5 * y + 2], a[5 * y + 3], a[5 * y + 4]];
            for x in 0..5 {
                a[x + 5 * y] = row[x] ^ (!row[(x + 1) % 5] & row[(x + 2) % 5]);
            }
        }
        a[0] ^= constant;
    }
    a
}

fn absorb(state: &State, block: &[ByteCell]) -> State {
    let mut lanes = (*state)?;
    for (i, byte) in block.iter().enumerate() {
        lanes[i / 8] ^= (byte.value? as u64) << (8 * (i % 8));
    }
    Some(lanes)
}

impl Keccackf1600Instructions<Trace> for NativeChip {
    type AssignedByte = ByteCell;
    type AssignedBlock = Vec<ByteCell>;
    type State = State;
    type Digest = Option<Vec<u8>>;
    type Error = String;

    fn assigned_bytes(block: &Vec<ByteCell>) -> [ByteCell; KECCAK_ABSORB_BYTES] {
        block.clone().try_into().unwrap()
    }

    fn assign_message_block(
        &self,
        layouter: &mut Trace,
        bytes: &[Option<u8>; KECCAK_ABSORB_BYTES],
    ) -> Result<Vec<ByteCell>, String> {
        layouter.step("assign")?;
        let first = layouter.cells;
        layouter.cells += bytes.len();
        Ok(bytes
            .iter()
            .enumerate()
            .map(|(i, value)| ByteCell { cell: first + i, value: *value })
            .collect())
    }

    fn constrain_constants(
        &self,
        layouter: &mut Trace,
        bytes: &[ByteCell],
        constraints: &[(usize, u8)],
    ) -> Result<(), String> {
        layouter.step("constrain")?;
        for (position, constant) in constraints {
            assert_eq!(bytes[*position].value, Some(*constant));
            layouter.constraints.push((bytes[*position].cell, *constant));
        }
        Ok(())
    }

    fn initialize_and_absorb(
        &self,
        layouter: &mut Trace,
        block: &Vec<ByteCell>,
    ) -> Result<State, String> {
        layouter.step("initialize")?;
        Ok(absorb(&Some([0; 25]), block))
    }

    fn keccakf_and_absorb(
        &self,
        layouter: &mut Trace,
        state: &State,
        block: Option<&Vec<ByteCell>>,
    ) -> Result<State, String> {
        layouter.step("absorb")?;
        let permuted = state.map(permute);
        Ok(match block {
            Some(block) => absorb(&permuted, block),
            None => permuted,
        })
    }

    fn keccakf(&self, layouter: &mut Trace, state: &State) -> Result<State, String> {
        layouter.step("permute")?;
        Ok(state.map(permute))
    }

    fn squeeze(&self, layouter: &mut Trace, state: &State) -> Result<Option<Vec<u8>>, String> {
        layouter.step("squeeze")?;
        Ok(state.map(|lanes| lanes[..4].iter().flat_map(|lane| lane.to_le_bytes()).collect()))
    }
}

fn known(bytes: &[u8]) -> Vec<Option<u8>> {
    bytes.iter().map(|b| Some(*b)).collect()
}

fn hex(bytes: &[u8]) -> String {
    bytes.iter().map(|b| format!("{b:02x}")).collect()
}

fn sha3(message: &[u8]) -> String {
    let mut trace = Trace::default();
    let (input, digest) =
        Sha3_256::new(NativeChip).digest(&mut trace, &known(message)).unwrap();
    assert_eq!(input.iter().map(|b| b.value).collect::<Vec<_>>(), known(message));
    assert_eq!(input.iter().map(|b| b.cell).collect::<Vec<_>>(), (0..message.len()).collect::<Vec<_>>());
    hex(&digest.unwrap())
}

fn keccak(message: &[u8]) -> String {
    let mut trace = Trace::default();
    let (input, digest) =
        Keccak256::new(NativeChip).digest(&mut trace, &known(message)).unwrap();
    assert_eq!(input.iter().map(|b| b.value).collect::<Vec<_>>(), known(message));
    hex(&digest.unwrap())
}

fn pattern(len: usize) -> Vec<u8> {
    (0..len).map(|i| ((7 * i + 3) % 256) as u8).collect()
}

#[test]
fn sha3_256_of_the_empty_message() {
    assert_eq!(sha3(b""), "a7ffc6f8bf1ed76651c14756a061d662f580ff4de43b49fa82d80a4b80f8434a");
}

#[test]
fn sha3_256_of_abc() {
    assert_eq!(sha3(b"abc"), "3a985da74fe225b2045c172d6bd390bd855f086e3e9d525b46bfe24511431532");
}

#[test]
fn keccak256_of_the_empty_message() {
    assert_eq!(keccak(b""), "c5d2460186f7233c927e7db2dcc703c0e500b653ca82273b7bfad8045d85a470");
}

#[test]
fn keccak256_of_abc() {
    assert_eq!(keccak(b"abc"), "4e03657aea45a94fc7d47ba826c8d667c0d1e6e33a64a036ec44f58fa12d6c45");
}

#[test]
fn sha3_256_around_the_block_length() {
    let expected = [
        (134, "c8883239d2ce058b11d87de7cd74805cb7e073b1b4884636fb2b5d1982c7bb9d"),
        (135, "d9dcf1f98e49a79b0643a9e68fef48079ff8777c5e7e7f93469ded65f192ac71"),
        (136, "743bd32e775ac7387a57d4d574c89ddef5ebcb08bb5cc6b88c55a27b5035cc45"),
        (137, "01d47e8d6dce6e3dcbf1baa6f845b6ace4ef74bd17da8176ecc49bc35dbe5d21"),
        (271, "20bf2d2a8b462cf032927768963867773b04bcfdbf1419d1ac06aa23637e5b19"),
        (272, "ddeb5151c079739970e780e6257d0c4d52d83bf82c6aa8d47d5195530b5d5f4b"),
    ];
    for (len, digest) in expected {
        assert_eq!(sha3(&pattern(len)), digest);
    }
}

#[test]
fn family_agrees_with_the_gadgets() {
    let chip = NativeChip;
    let message = known(&pattern(200));
    for (mode, expected) in [
        (HashMode::Sha3_256, sha3(&pattern(200))),
        (HashMode::Keccak256, keccak(&pattern(200))),
    ] {
        let (_, digest) =
            Sha3Family::new(&chip, mode).digest(&mut Trace::default(), &message).unwrap();
        assert_eq!(hex(&digest.unwrap()), expected);
    }
    assert_ne!(sha3(&pattern(200)), keccak(&pattern(200)));
}

#[test]
fn instructions_come_in_order() {
    let mut trace = Trace::default();
    Sha3_256::new(NativeChip).digest(&mut trace, &known(&pattern(272))).unwrap();
    assert_eq!(
        trace.steps,
        vec![
            "assign", "assign", "assign", "constrain", "initialize", "absorb", "absorb", "permute",
            "squeeze"
        ]
    );
    assert_eq!(trace.constraints.len(), 136);
    assert_eq!(trace.constraints[0], (407, 0x80));
    assert_eq!(trace.constraints[134], (273, 0x00));
    assert_eq!(trace.constraints[135], (272, 0x06));
}

#[test]
fn one_missing_byte_is_constrained_alone() {
    let mut trace = Trace::default();
    Keccak256::new(NativeChip).digest(&mut trace, &known(&pattern(135))).unwrap();
    assert_eq!(trace.steps, vec!["assign", "constrain", "initialize", "permute", "squeeze"]);
    assert_eq!(trace.constraints, vec![(135, 0x81)]);
}

#[test]
fn first_failure_ends_the_run() {
    let names = [
        "assign", "assign", "assign", "constrain", "initialize", "absorb", "absorb", "permute",
        "squeeze",
    ];
    for (step, name) in names.iter().enumerate() {
        let mut trace = Trace::failing_at(step);
        let reply = Sha3_256::new(NativeChip).digest(&mut trace, &known(&pattern(272)));
        assert_eq!(reply.map(|_| ()), Err(format!("{name} failed")));
        assert_eq!(trace.steps.len(), step + 1);
    }
}

#[test]
fn unknown_bytes_are_laid_out_without_a_digest() {
    let mut trace = Trace::default();
    let (input, digest) = Sha3_256::new(NativeChip).digest(&mut trace, &[None, Some(7)]).unwrap();
    assert_eq!(input.iter().map(|b| b.value).collect::<Vec<_>>(), vec![None, Some(7)]);
    assert_eq!(digest, None);
    assert_eq!(trace.constraints.len(), 134);
}

#[test]
fn padding_is_constrained_in_either_mode() {
    let chip = NativeChip;
    let bytes: Vec<ByteCell> = [0x01, 0x00, 0x80]
        .iter()
        .enumerate()
        .map(|(cell, value)| ByteCell { cell, value: Some(*value) })
        .collect();
    let mut trace = Trace::default();
    Sha3Family::new(&chip, HashMode::Keccak256).constrain_padding(&mut trace, &bytes).unwrap();
    assert_eq!(trace.constraints, vec![(2, 0x80), (1, 0x00), (0, 0x01)]);
}

#[test]
fn one_byte_is_digested_from_a_field_element() {
    let mut repr = [0u8; 32];
    repr[0] = 0x61;
    assert_eq!(input_byte(Some(repr)), Some(0x61));
    assert_eq!(input_byte(Some([0; 32])), Some(0));
    assert_eq!(input_byte(None), None);
    let gadget = Sha3_256::new(NativeChip);
    let (input, digest) = digest_one_byte(&gadget, &mut Trace::default(), Some(repr)).unwrap();
    assert_eq!(input, [ByteCell { cell: 0, value: Some(0x61) }]);
    assert_eq!(
        hex(&digest.unwrap()),
        "80084bf2fba02475726feb2cab2d8215eab14bc6bdd8bfb2c8151257032ecd8b"
    );
    let failed = digest_one_byte(&gadget, &mut Trace::failing_at(3), Some(repr));
    assert_eq!(failed.map(|_| ()), Err("permute failed".to_string()));
}

#[test]
fn equal_blocks_stand_in_cells_of_their_own() {
    let message = vec![7u8; 272];
    let mut trace = Trace::default();
    let (input, digest) =
        Sha3_256::new(NativeChip).digest(&mut trace, &known(&message)).unwrap();
    let cells: Vec<usize> = input.iter().map(|b| b.cell).collect();
    assert_eq!(cells, (0..272).collect::<Vec<_>>());
    assert!(input.iter().all(|b| b.value == Some(7)));
    assert_eq!(
        hex(&digest.unwrap()),
        "9cfc80cb52b0330c67173510cb5f210e79b839e6d31959765be477d11379669d"
    );
}

#[test]
fn circuit_depends_on_the_length_and_the_mode() {
    let run = |message: &[Option<u8>]| {
        let mut trace = Trace::default();
        let (input, _) = Keccak256::new(NativeChip).digest(&mut trace, message).unwrap();
        let cells: Vec<usize> = input.iter().map(|b| b.cell).collect();
        (trace.steps, trace.constraints, trace.cells, cells)
    };
    for len in [0, 1, 135, 136, 200] {
        let expected = run(&known(&pattern(len)));
        assert_eq!(run(&vec![None; len]), expected);
        assert_eq!(run(&vec![Some(0xff); len]), expected);
    }
    assert_ne!(run(&known(&pattern(1))), run(&known(&pattern(2))));
}

/// A region that records its constraints and fails at one of them.
struct Recorder {
    imposed: Vec<(char, u8)>,
    fail_at: Option<usize>,
}

impl ConstrainConstant<char> for Recorder {
    type Error = String;

    fn constrain_constant(&mut self, byte: &char, constant: u8) -> Result<(), String> {
        self.imposed.push((*byte, constant));
        if self.fail_at == Some(self.imposed.len() - 1) {
            Err(format!("{byte} failed"))
        } else {
            Ok(())
        }
    }
}

#[test]
fn constraints_are_imposed_in_order() {
    let mut region = Recorder { imposed: vec![], fail_at: None };
    let constraints = [(2, 0x80), (1, 0x00), (0, 0x06)];
    assert_eq!(impose_constraints(&mut region, &['a', 'b', 'c'], &constraints), Ok(()));
    assert_eq!(region.imposed, vec![('c', 0x80), ('b', 0x00), ('a', 0x06)]);
    assert_eq!(impose_constraints(&mut region, &['a'], &[]), Ok(()));
    assert_eq!(region.imposed.len(), 3);
}

#[test]
fn first_failing_constraint_ends_the_work() {
    let constraints = [(2, 0x80), (1, 0x00), (0, 0x06)];
    for (step, name) in ['c', 'b', 'a'].iter().enumerate() {
        let mut region = Recorder { imposed: vec![], fail_at: Some(step) };
        let reply = impose_constraints(&mut region, &['a', 'b', 'c'], &constraints);
        assert_eq!(reply, Err(format!("{name} failed")));
        assert_eq!(region.imposed.len(), step + 1);
    }
}
