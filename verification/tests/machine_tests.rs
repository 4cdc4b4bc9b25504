use lib::cell::Cell;
use lib::machine::{binop, BinOp, Fault, Program, Step};

fn program_with(words: &[u16]) -> Program {
    let mut p = Program::new();
    let mut bytes = Vec::new();
    for w in words {
        bytes.extend_from_slice(&w.to_le_bytes());
    }
    assert!(lib::image::challenge_loadable(&bytes));
    let pc = p.load_challenge(&bytes);
    assert_eq!(pc, 0);
    p
}

#[test]
fn example_program_adds_and_outputs() {
    // set r1 'A' - 4; add r0 r1 4; out r0; halt
    let mut p = program_with(&[1, 32769, 61, 9, 32768, 32769, 4, 19, 32768, 0]);
    let mut pc = 0u16;
    assert_eq!(p.step(&mut pc), Step::Running);
    assert_eq!(pc, 3);
    assert_eq!(p.regs[1], Cell::Data(61));
    assert_eq!(p.step(&mut pc), Step::Running);
    assert_eq!(p.regs[0], Cell::Data(65));
    assert_eq!(p.step(&mut pc), Step::Output(b'A'));
    assert_eq!(p.step(&mut pc), Step::Halted);
}

#[test]
fn arithmetic_wraps_modulo_32768() {
    assert_eq!(binop(BinOp::Add, 32758, 15), Some(5));
    assert_eq!(binop(BinOp::Mult, 0x7fff, 0x7fff), Some(1));
    assert_eq!(binop(BinOp::Mod, 10, 3), Some(1));
    assert_eq!(binop(BinOp::Mod, 10, 0), None);
    assert_eq!(binop(BinOp::Eq, 4, 4), Some(1));
    assert_eq!(binop(BinOp::Gt, 3, 4), Some(0));
    assert_eq!(binop(BinOp::And, 0b1100, 0b1010), Some(0b1000));
    assert_eq!(binop(BinOp::Or, 0b1100, 0b1010), Some(0b1110));
}

#[test]
fn not_inverts_fifteen_bits() {
    // not r0 0; halt
    let mut p = program_with(&[14, 32768, 0, 0]);
    let mut pc = 0u16;
    assert_eq!(p.step(&mut pc), Step::Running);
    assert_eq!(p.regs[0], Cell::Data(0x7fff));
}

#[test]
fn push_pop_call_ret() {
    // push 100; pop r2; call 7; halt; ... at 7: ret
    let mut p = program_with(&[2, 100, 3, 32770, 17, 7, 0, 18]);
    let mut pc = 0u16;
    assert_eq!(p.step(&mut pc), Step::Running);
    assert_eq!(p.stack, vec![Cell::Data(100)]);
    assert_eq!(p.step(&mut pc), Step::Running);
    assert_eq!(p.regs[2], Cell::Data(100));
    assert!(p.stack.is_empty());
    assert_eq!(p.step(&mut pc), Step::Running);
    assert_eq!(pc, 7);
    assert_eq!(p.stack, vec![Cell::Jmp]);
    assert_eq!(p.step(&mut pc), Step::Running);
    assert_eq!(pc, 6);
    assert_eq!(p.step(&mut pc), Step::Halted);
}

#[test]
fn ret_on_empty_stack_halts() {
    let mut p = program_with(&[18]);
    let mut pc = 0u16;
    assert_eq!(p.step(&mut pc), Step::Halted);
}

#[test]
fn jumps_test_for_zero() {
    // jt 0 5; jf 0 5; ...
    let mut p = program_with(&[7, 0, 5, 8, 0, 5, 21]);
    let mut pc = 0u16;
    assert_eq!(p.step(&mut pc), Step::Running);
    assert_eq!(pc, 3);
    assert_eq!(p.step(&mut pc), Step::Running);
    assert_eq!(pc, 5);
    // jmp r0 (r0 holds halt = 0)
    let mut q = program_with(&[6, 32768]);
    let mut pc = 0u16;
    assert_eq!(q.step(&mut pc), Step::Running);
    assert_eq!(pc, 0);
}

#[test]
fn memory_reads_and_writes() {
    // wmem 100 42; rmem r0 100
    let mut p = program_with(&[16, 100, 42, 15, 32768, 100]);
    let mut pc = 0u16;
    assert_eq!(p.step(&mut pc), Step::Running);
    assert_eq!(p.memory[100], Cell::Data(42));
    assert_eq!(p.step(&mut pc), Step::Running);
    assert_eq!(p.regs[0], Cell::Data(42));
}

#[test]
fn faults_change_nothing() {
    let mut p = program_with(&[3, 32768]);
    let mut pc = 0u16;
    assert_eq!(p.step(&mut pc), Step::Fault(Fault::EmptyStack));
    assert_eq!(pc, 0);

    let mut p = program_with(&[11, 32768, 5, 0]);
    let mut pc = 0u16;
    assert_eq!(p.step(&mut pc), Step::Fault(Fault::DivideByZero));

    let mut p = program_with(&[19, 300]);
    let mut pc = 0u16;
    assert_eq!(p.step(&mut pc), Step::Fault(Fault::NotAByte(300)));

    let mut p = program_with(&[22]);
    let mut pc = 0u16;
    assert_eq!(p.step(&mut pc), Step::Fault(Fault::InvalidInstruction(Cell::Data(22))));

    // set r0 to register reference 0x8007 via rmem, then or with 0x7fff
    let mut p = program_with(&[15, 32768, 7, 13, 32769, 32768, 0x7fff, 32775]);
    let mut pc = 0u16;
    assert_eq!(p.step(&mut pc), Step::Running);
    assert_eq!(p.regs[0], Cell::Reg(7));
    assert_eq!(p.step(&mut pc), Step::Fault(Fault::ValueOutOfRange(0xffff)));
    assert_eq!(pc, 3);

    let mut p = Program::new();
    let mut pc = 32768u16;
    assert_eq!(p.step(&mut pc), Step::Fault(Fault::PcOutOfRange));
    let mut pc = 32767u16;
    p.memory[32767] = Cell::Out;
    assert_eq!(p.step(&mut pc), Step::Fault(Fault::PcOutOfRange));
}

#[test]
fn address_beyond_memory_faults() {
    // rmem r0 r1 with r1 = register reference 0x8001
    let mut p = program_with(&[15, 32768, 32769]);
    p.regs[1] = Cell::Reg(1);
    let mut pc = 0u16;
    assert_eq!(p.step(&mut pc), Step::Fault(Fault::AddressOutOfRange(0x8001)));
}

#[test]
fn input_waits_on_the_instruction() {
    let mut p = program_with(&[20, 32768]);
    let mut pc = 0u16;
    assert_eq!(p.step(&mut pc), Step::Input);
    assert_eq!(pc, 0);
}

#[test]
fn ternary_reads_its_operands_from_pc() {
    // operands only: r0 <- 7 + 5, starting at address 0
    let mut p = program_with(&[32768, 7, 5]);
    let mut pc = 0u16;
    assert_eq!(p.ternary(&mut pc, BinOp::Add), Step::Running);
    assert_eq!(pc, 3);
    assert_eq!(p.regs[0], Cell::decode(12));
    let mut pc = 0u16;
    assert_eq!(p.ternary(&mut pc, BinOp::Mod), Step::Running);
    assert_eq!(p.regs[0], Cell::decode(2));
    let mut q = program_with(&[32768, 7, 0]);
    let mut pc = 0u16;
    assert_eq!(q.ternary(&mut pc, BinOp::Mod), Step::Fault(Fault::DivideByZero));
    assert_eq!(pc, 3);
    assert_eq!(q.regs[0], Cell::Halt);
}
