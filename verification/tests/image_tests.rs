use lib::cell::Cell;
use lib::image::{challenge_loadable, state_loadable, LoadError, STATE_CELLS};
use lib::machine::{Program, MEM_SIZE};
use lib::pair_iter::PairIter;

#[test]
fn save_then_load_gives_the_machine_back() {
    let mut p = Program::new();
    p.memory[0] = Cell::Data(1234);
    p.memory[MEM_SIZE - 1] = Cell::Reg(5);
    p.regs[7] = Cell::Data(25734);
    p.stack.push(Cell::Noop);
    p.stack.push(Cell::Data(777));
    let image = p.save_state(4321);
    assert_eq!(image.len(), 2 * (STATE_CELLS + 1 + 2));
    assert!(state_loadable(&image));
    let mut q = Program::new();
    assert_eq!(q.load_state(&image), Ok(4321));
    assert_eq!(q.memory, p.memory);
    assert_eq!(q.regs, p.regs);
    assert_eq!(q.stack, p.stack);
}

#[test]
fn saved_bytes_are_little_endian_words() {
    let mut p = Program::new();
    p.memory[0] = Cell::Reg(2);
    let image = p.save_state(0x0102);
    assert_eq!(&image[0..2], &[0x02, 0x80]);
    assert_eq!(&image[2 * STATE_CELLS..2 * STATE_CELLS + 2], &[0x02, 0x01]);
}

#[test]
fn truncated_state_keeps_what_was_read() {
    let mut p = Program::new();
    let bytes = [0x15u8, 0x00, 0x16, 0x00, 0x01];
    assert!(state_loadable(&bytes));
    assert_eq!(p.load_state(&bytes), Err(LoadError::Truncated));
    assert_eq!(p.memory[0], Cell::Noop);
    assert_eq!(p.memory[1], Cell::Data(22));
    assert_eq!(p.memory[2], Cell::Halt);
}

#[test]
fn state_with_bad_word_is_not_loadable() {
    assert!(!state_loadable(&[0x08, 0x80]));
    assert!(state_loadable(&[0x07, 0x80]));
}

#[test]
fn challenge_loads_into_memory_start() {
    let mut p = Program::new();
    p.memory[3] = Cell::Data(99);
    let pc = p.load_challenge(&[0x13, 0x00, 0x41, 0x00, 0x00]);
    assert_eq!(pc, 0);
    assert_eq!(p.memory[0], Cell::Out);
    assert_eq!(p.memory[1], Cell::Data(0x41));
    assert_eq!(p.memory[2], Cell::Halt);
    assert_eq!(p.memory[3], Cell::Data(99));
}

#[test]
fn challenge_must_fit_and_decode() {
    assert!(!challenge_loadable(&[0xff, 0xff]));
    assert!(challenge_loadable(&vec![0u8; 2 * MEM_SIZE]));
    assert!(!challenge_loadable(&vec![0u8; 2 * MEM_SIZE + 2]));
}

#[test]
fn pairs_come_two_at_a_time() {
    let items = [1, 2, 3, 4, 5];
    let mut it = PairIter::new(&items);
    assert_eq!(it.next_pair(), Some((1, 2)));
    assert_eq!(it.next_pair(), Some((3, 4)));
    assert_eq!(it.next_pair(), None);
    assert_eq!(it.next_pair(), None);
}

#[test]
fn patching_a_saved_state_is_preparing_the_teleporter() {
    let mut p = Program::new();
    p.memory[5485] = Cell::decode(4);
    p.memory[5489] = Cell::Call;
    p.memory[5490] = Cell::Data(6027);
    let mut image = p.save_state(17);
    for patch in lib::teleport::teleport_patches() {
        let pos = match patch.position {
            lib::teleport::SeekPos::Start(x) => x as usize,
            _ => unreachable!(),
        };
        let n = patch.expected.len();
        assert!(lib::teleport::needs_patch(&patch, &image[pos..pos + n]));
        image[pos..pos + n].copy_from_slice(&patch.replacement);
    }
    p.prepare_teleporter();
    assert_eq!(image, p.save_state(17));
}
