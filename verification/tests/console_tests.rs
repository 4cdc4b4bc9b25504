use lib::cell::Cell;
use lib::console::{Console, ACK_CALL, REG_8_VALUE, SET_FOUR_BEFORE_CALL};
use lib::machine::{Program, Step};

fn in_program() -> Program {
    let mut p = Program::new();
    let bytes: Vec<u8> = [20u16, 32768, 20, 32769].iter().flat_map(|w| w.to_le_bytes()).collect();
    p.load_challenge(&bytes);
    p
}

#[test]
fn a_byte_goes_into_the_register() {
    let mut p = in_program();
    let mut pc = 0u16;
    assert_eq!(p.step(&mut pc), Step::Input);
    assert_eq!(p.provide_byte(&mut pc, Some(b'x')), Console::Done { prepared: false });
    assert_eq!(pc, 2);
    assert_eq!(p.regs[0], Cell::Data(b'x' as u16));
    assert!(!p.seen_new_line);
}

#[test]
fn carriage_return_is_skipped() {
    let mut p = in_program();
    let mut pc = 0u16;
    assert_eq!(p.provide_byte(&mut pc, Some(b'\r')), Console::NeedByte);
    assert_eq!(pc, 0);
    assert_eq!(p.provide_byte(&mut pc, Some(b'\n')), Console::Done { prepared: false });
    assert_eq!(p.regs[0], Cell::decode(10));
    assert!(p.seen_new_line);
}

#[test]
fn carriage_return_at_end_of_input_is_kept() {
    let mut p = in_program();
    let mut pc = 0u16;
    assert_eq!(p.provide_byte(&mut pc, Some(b'\r')), Console::NeedByte);
    assert_eq!(p.provide_byte(&mut pc, None), Console::Done { prepared: false });
    assert_eq!(p.regs[0], Cell::decode(13));
}

#[test]
fn end_of_input_suspends() {
    let mut p = in_program();
    let mut pc = 0u16;
    assert_eq!(p.provide_byte(&mut pc, None), Console::Suspend);
    assert_eq!(pc, 0);
}

#[test]
fn bang_after_newline_reads_a_command() {
    let mut p = in_program();
    let mut pc = 0u16;
    assert_eq!(p.provide_byte(&mut pc, Some(b'\n')), Console::Done { prepared: false });
    assert!(p.seen_new_line);
    assert_eq!(p.provide_byte(&mut pc, Some(b'!')), Console::NeedLine);
    assert!(p.awaiting_line());
    let line: Vec<char> = "  prepare teleporter \n".chars().collect();
    assert_eq!(p.provide_line(&mut pc, &line), Console::Done { prepared: true });
    assert_eq!(pc, 4);
    assert_eq!(p.regs[1], Cell::decode(10));
    assert_eq!(p.memory[SET_FOUR_BEFORE_CALL as usize], Cell::decode(6));
    assert_eq!(p.memory[ACK_CALL as usize], Cell::Noop);
    assert_eq!(p.memory[ACK_CALL as usize + 1], Cell::Noop);
    assert_eq!(p.regs[7], Cell::Data(REG_8_VALUE));
}

#[test]
fn other_commands_are_hidden() {
    let mut p = in_program();
    let mut pc = 0u16;
    p.provide_byte(&mut pc, Some(b'\n'));
    assert_eq!(p.provide_byte(&mut pc, Some(b'!')), Console::NeedLine);
    let line: Vec<char> = "look\n".chars().collect();
    assert_eq!(p.provide_line(&mut pc, &line), Console::Done { prepared: false });
    assert_eq!(p.regs[1], Cell::decode(10));
    assert_eq!(p.regs[7], Cell::Halt);
}

#[test]
fn bang_elsewhere_is_a_byte() {
    let mut p = in_program();
    let mut pc = 0u16;
    assert_eq!(p.provide_byte(&mut pc, Some(b'!')), Console::Done { prepared: false });
    assert_eq!(p.regs[0], Cell::Data(b'!' as u16));
}
