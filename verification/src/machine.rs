use vstd::prelude::*;
use crate::cell::{Cell, spec_encode, spec_decode, cell_wf, MAX, REG_END};

verus! {

/// Number of words of memory.
pub const MEM_SIZE: usize = 32768;
/// Number of registers.
pub const NUM_REGS: usize = 8;

/// Why the machine cannot go on.
#[derive(Clone, Copy, Debug, PartialEq, Eq, Structural)]
pub enum Fault {
    /// An instruction or one of its operands lies beyond the memory.
    PcOutOfRange,
    /// `pop` on an empty stack.
    EmptyStack,
    /// `mod` by zero.
    DivideByZero,
    /// A computed value is not a word of the machine.
    ValueOutOfRange(u16),
    /// `rmem` or `wmem` names an address beyond the memory.
    AddressOutOfRange(u16),
    /// `out` of a value that is not a byte.
    NotAByte(u16),
    /// The cell at the program counter is no instruction.
    InvalidInstruction(Cell),
}

/// What one step of the machine did.
#[derive(Clone, Copy, Debug, PartialEq, Eq, Structural)]
pub enum Step {
    /// An instruction ran; the machine goes on.
    Running,
    /// `halt`, or `ret` on an empty stack: the machine stops.
    Halted,
    /// `out`: this byte is to be written; the machine goes on.
    Output(u8),
    /// `in`: the machine waits for input; the program counter stays on the instruction.
    Input,
    /// The machine cannot go on.
    Fault(Fault),
}

/// The abstract state of the machine: memory, registers and stack.
#[verifier::ext_equal]
pub struct Machine {
    pub memory: Seq<Cell>,
    pub regs: Seq<Cell>,
    pub stack: Seq<Cell>,
}

/// Every cell of a sequence is well formed.
pub open spec fn all_wf(s: Seq<Cell>) -> bool {
    forall|i: int| 0 <= i < s.len() ==> cell_wf(#[trigger] s[i])
}

/// Memory and registers have their sizes and every cell is well formed.
pub open spec fn machine_wf(s: Machine) -> bool {
    &&& s.memory.len() == MEM_SIZE
    &&& s.regs.len() == NUM_REGS
    &&& all_wf(s.memory)
    &&& all_wf(s.regs)
    &&& all_wf(s.stack)
}

/// What a cell operand stands for: the register's content for a register,
/// the cell itself otherwise.
pub open spec fn rreg_spec(s: Machine, a: Cell) -> Cell {
    match a {
        Cell::Reg(r) => s.regs[r as int],
        _ => a,
    }
}

/// Writes `b` into the register that `a` names; any other `a` changes nothing.
pub open spec fn wreg_spec(s: Machine, a: Cell, b: Cell) -> Machine {
    match a {
        Cell::Reg(r) => Machine { regs: s.regs.update(r as int, b), ..s },
        _ => s,
    }
}

/// The number an operand stands for.
pub open spec fn value_spec(s: Machine, a: Cell) -> int {
    spec_encode(rreg_spec(s, a))
}

/// How many operand words `step` reads after an instruction (none for `in`,
/// whose operand is read once the input has come).
pub open spec fn operand_count(op: Cell) -> int {
    match op {
        Cell::SetReg => 2,
        Cell::Push => 1,
        Cell::Pop => 1,
        Cell::Eq => 3,
        Cell::Gt => 3,
        Cell::Jmp => 1,
        Cell::Jt => 2,
        Cell::Jf => 2,
        Cell::Add => 3,
        Cell::Mult => 3,
        Cell::Mod => 3,
        Cell::And => 3,
        Cell::Or => 3,
        Cell::Not => 2,
        Cell::Rmem => 2,
        Cell::Wmem => 2,
        Cell::Call => 1,
        Cell::Out => 1,
        _ => 0,
    }
}

/// The three-operand arithmetic and logic instructions.
#[derive(Clone, Copy, Debug, PartialEq, Eq, Structural)]
pub enum BinOp {
    Eq,
    Gt,
    Add,
    Mult,
    Mod,
    And,
    Or,
}

/// The result of a three-operand instruction on the numbers `b` and `c`,
/// before it is decoded; `None` for a division by zero.
pub open spec fn binop_spec(op: BinOp, b: u16, c: u16) -> Option<u16> {
    match op {
        BinOp::Eq => Some(if b == c { 1u16 } else { 0u16 }),
        BinOp::Gt => Some(if b > c { 1u16 } else { 0u16 }),
        BinOp::Add => Some(((b + c) % 0x8000) as u16),
        BinOp::Mult => Some(((b * c) % 0x8000) as u16),
        BinOp::Mod => if c == 0 { None } else { Some((b % c) as u16) },
        BinOp::And => Some(b & c),
        BinOp::Or => Some(b | c),
    }
}

/// Effect of the three operands at `p`, `p + 1`, `p + 2` of a three-operand
/// instruction: the result of `op` on the values of the last two, decoded,
/// goes into the register the first names. Also whether it succeeded.
pub open spec fn operands_spec(s: Machine, p: int, op: BinOp) -> (Machine, Step) {
    let a = s.memory[p];
    let b = value_spec(s, s.memory[p + 1]) as u16;
    let c = value_spec(s, s.memory[p + 2]) as u16;
    match binop_spec(op, b, c) {
        None => (s, Step::Fault(Fault::DivideByZero)),
        Some(v) => if v <= REG_END {
            (wreg_spec(s, a, spec_decode(v)), Step::Running)
        } else {
            (s, Step::Fault(Fault::ValueOutOfRange(v)))
        },
    }
}

/// Effect of a three-operand instruction at `pc` whose operands are in memory.
pub open spec fn ternary_spec(s: Machine, pc: int, op: BinOp) -> (Machine, int, Step) {
    let t = operands_spec(s, pc + 1, op);
    if t.1 == Step::Running {
        (t.0, pc + 4, Step::Running)
    } else {
        (s, pc, t.1)
    }
}

/// Effect of the instruction `op` at `pc`, all of whose operands are in memory.
pub open spec fn exec_spec(s: Machine, pc: int, op: Cell) -> (Machine, int, Step) {
    let m = s.memory;
    match op {
        Cell::Halt => (s, pc + 1, Step::Halted),
        Cell::SetReg => (wreg_spec(s, m[pc + 1], rreg_spec(s, m[pc + 2])), pc + 3, Step::Running),
        Cell::Push => (Machine { stack: s.stack.push(rreg_spec(s, m[pc + 1])), ..s }, pc + 2, Step::Running),
        Cell::Pop => if s.stack.len() == 0 {
            (s, pc, Step::Fault(Fault::EmptyStack))
        } else {
            (wreg_spec(Machine { stack: s.stack.drop_last(), ..s }, m[pc + 1], s.stack.last()), pc + 2, Step::Running)
        },
        Cell::Eq => ternary_spec(s, pc, BinOp::Eq),
        Cell::Gt => ternary_spec(s, pc, BinOp::Gt),
        Cell::Jmp => (s, value_spec(s, m[pc + 1]), Step::Running),
        Cell::Jt => if rreg_spec(s, m[pc + 1]) != Cell::Halt {
            (s, value_spec(s, m[pc + 2]), Step::Running)
        } else {
            (s, pc + 3, Step::Running)
        },
        Cell::Jf => if rreg_spec(s, m[pc + 1]) == Cell::Halt {
            (s, value_spec(s, m[pc + 2]), Step::Running)
        } else {
            (s, pc + 3, Step::Running)
        },
        Cell::Add => ternary_spec(s, pc, BinOp::Add),
        Cell::Mult => ternary_spec(s, pc, BinOp::Mult),
        Cell::Mod => ternary_spec(s, pc, BinOp::Mod),
        Cell::And => ternary_spec(s, pc, BinOp::And),
        Cell::Or => ternary_spec(s, pc, BinOp::Or),
        Cell::Not => {
            let b = value_spec(s, m[pc + 2]) as u16;
            (wreg_spec(s, m[pc + 1], spec_decode(!b & MAX)), pc + 3, Step::Running)
        },
        Cell::Rmem => {
            let b = value_spec(s, m[pc + 2]);
            if b < MEM_SIZE {
                (wreg_spec(s, m[pc + 1], m[b]), pc + 3, Step::Running)
            } else {
                (s, pc, Step::Fault(Fault::AddressOutOfRange(b as u16)))
            }
        },
        Cell::Wmem => {
            let a = value_spec(s, m[pc + 1]);
            if a < MEM_SIZE {
                (Machine { memory: m.update(a, rreg_spec(s, m[pc + 2])), ..s }, pc + 3, Step::Running)
            } else {
                (s, pc, Step::Fault(Fault::AddressOutOfRange(a as u16)))
            }
        },
        Cell::Call => (
            Machine { stack: s.stack.push(spec_decode((pc + 2) as u16)), ..s },
            value_spec(s, m[pc + 1]),
            Step::Running,
        ),
        Cell::Ret => if s.stack.len() == 0 {
            (s, pc + 1, Step::Halted)
        } else {
            (Machine { stack: s.stack.drop_last(), ..s }, spec_encode(s.stack.last()), Step::Running)
        },
        Cell::Out => {
            let v = value_spec(s, m[pc + 1]);
            if v <= 255 {
                (s, pc + 2, Step::Output(v as u8))
            } else {
                (s, pc, Step::Fault(Fault::NotAByte(v as u16)))
            }
        },
        Cell::In => (s, pc, Step::Input),
        Cell::Noop => (s, pc + 1, Step::Running),
        _ => (s, pc, Step::Fault(Fault::InvalidInstruction(op))),
    }
}

/// One step of the machine from the program counter `pc`: the new state, the
/// new program counter and what happened. A fault changes nothing.
pub open spec fn step_spec(s: Machine, pc: int) -> (Machine, int, Step) {
    if !(0 <= pc < MEM_SIZE) {
        (s, pc, Step::Fault(Fault::PcOutOfRange))
    } else if pc + operand_count(s.memory[pc]) >= MEM_SIZE {
        (s, pc, Step::Fault(Fault::PcOutOfRange))
    } else {
        exec_spec(s, pc, s.memory[pc])
    }
}

/// Where the `in` instruction under way stands.
#[derive(Clone, Copy, Debug, PartialEq, Eq, Structural)]
pub enum InputPhase {
    /// No input read yet.
    Start,
    /// A carriage return was read; the byte after it is wanted.
    AfterCr,
    /// A `!` started a command line; the rest of the line is wanted.
    AwaitLine,
}

/// The virtual machine: memory, registers, stack and the console's state.
pub struct Program {
    pub memory: Vec<Cell>,
    pub regs: Vec<Cell>,
    pub stack: Vec<Cell>,
    /// The last byte handed to the program was a newline.
    pub seen_new_line: bool,
    /// Progress of the `in` instruction under way.
    pub phase: InputPhase,
}

/// The number a cell stands for, when it is well formed.
pub fn cell_value(c: Cell) -> (x: u16)
    requires
        cell_wf(c),
    ensures
        x == spec_encode(c),
        x <= REG_END,
{
    c.encode()
}

/// `operand_count` as a machine integer.
fn operands_of(op: Cell) -> (n: usize)
    ensures
        n == operand_count(op),
{
    match op {
        Cell::SetReg => 2,
        Cell::Push => 1,
        Cell::Pop => 1,
        Cell::Eq => 3,
        Cell::Gt => 3,
        Cell::Jmp => 1,
        Cell::Jt => 2,
        Cell::Jf => 2,
        Cell::Add => 3,
        Cell::Mult => 3,
        Cell::Mod => 3,
        Cell::And => 3,
        Cell::Or => 3,
        Cell::Not => 2,
        Cell::Rmem => 2,
        Cell::Wmem => 2,
        Cell::Call => 1,
        Cell::Out => 1,
        _ => 0,
    }
}

/// The arithmetic and logic of the three-operand instructions.
pub fn binop(op: BinOp, b: u16, c: u16) -> (r: Option<u16>)
    ensures
        r == binop_spec(op, b, c),
{
    match op {
        BinOp::Eq => Some(if b == c { 1u16 } else { 0u16 }),
        BinOp::Gt => Some(if b > c { 1u16 } else { 0u16 }),
        BinOp::Add => Some(((b as u32 + c as u32) % 0x8000) as u16),
        BinOp::Mult => {
            assert(b as u32 * c as u32 <= 0xffff * 0xffff) by (nonlinear_arith)
                requires
                    b <= 0xffff,
                    c <= 0xffff,
            ;
            Some(((b as u32 * c as u32) % 0x8000) as u16)
        },
        BinOp::Mod => if c == 0 { None } else { Some(b % c) },
        BinOp::And => Some(b & c),
        BinOp::Or => Some(b | c),
    }
}

impl Program {
    /// The abstract state.
    pub open spec fn model(&self) -> Machine {
        Machine { memory: self.memory@, regs: self.regs@, stack: self.stack@ }
    }

    /// Sizes and cells as `machine_wf` wants them.
    pub open spec fn wf(&self) -> bool {
        machine_wf(self.model())
    }

    /// A machine whose memory and registers hold only `halt` cells, with an
    /// empty stack, waiting for no input.
    pub fn new() -> (p: Program)
        ensures
            p.wf(),
            p.memory@ == Seq::new(MEM_SIZE as nat, |i: int| Cell::Halt),
            p.regs@ == Seq::new(NUM_REGS as nat, |i: int| Cell::Halt),
            p.stack@ == Seq::<Cell>::empty(),
            !p.seen_new_line,
            p.phase == InputPhase::Start,
    {
        let mut memory: Vec<Cell> = Vec::new();
        while memory.len() < MEM_SIZE
            invariant
                memory.len() <= MEM_SIZE,
                forall|i: int| 0 <= i < memory.len() ==> memory@[i] == Cell::Halt,
            decreases MEM_SIZE - memory.len(),
        {
            memory.push(Cell::Halt);
        }
        let mut regs: Vec<Cell> = Vec::new();
        while regs.len() < NUM_REGS
            invariant
                regs.len() <= NUM_REGS,
                forall|i: int| 0 <= i < regs.len() ==> regs@[i] == Cell::Halt,
            decreases NUM_REGS - regs.len(),
        {
            regs.push(Cell::Halt);
        }
        let p = Program {
            memory,
            regs,
            stack: Vec::new(),
            seen_new_line: false,
            phase: InputPhase::Start,
        };
        assert(p.memory@ =~= Seq::new(MEM_SIZE as nat, |i: int| Cell::Halt));
        assert(p.regs@ =~= Seq::new(NUM_REGS as nat, |i: int| Cell::Halt));
        p
    }

    /// The cell at `pc`, moving `pc` past it.
    pub fn next(&self, pc: &mut u16) -> (c: Cell)
        requires
            self.wf(),
            *old(pc) < MEM_SIZE,
        ensures
            c == self.memory@[*old(pc) as int],
            cell_wf(c),
            *final(pc) == *old(pc) + 1,
    {
        let x = self.memory[*pc as usize];
        *pc += 1;
        x
    }

    /// What the operand `a` stands for: a register's content, or `a` itself.
    pub fn rreg(&self, a: Cell) -> (r: Cell)
        requires
            self.wf(),
            cell_wf(a),
        ensures
            r == rreg_spec(self.model(), a),
            cell_wf(r),
    {
        match a {
            Cell::Reg(r) => self.regs[r as usize],
            _ => a,
        }
    }

    /// Writes `b` into the register `a` names; does nothing when `a` is no register.
    pub fn wreg(&mut self, a: Cell, b: Cell)
        requires
            old(self).wf(),
            cell_wf(a),
            cell_wf(b),
        ensures
            final(self).wf(),
            final(self).model() == wreg_spec(old(self).model(), a, b),
            final(self).seen_new_line == old(self).seen_new_line,
            final(self).phase == old(self).phase,
    {
        if let Cell::Reg(r) = a {
            self.regs.set(r as usize, b);
        }
    }

    /// The number the operand `a` stands for.
    fn value(&self, a: Cell) -> (x: u16)
        requires
            self.wf(),
            cell_wf(a),
        ensures
            x == value_spec(self.model(), a),
            x <= REG_END,
    {
        cell_value(self.rreg(a))
    }

    /// A three-operand instruction whose first operand is at `pc`: stores the
    /// result of `op` on the values of the second and third operands into the
    /// register the first names, as `operands_spec` says, and moves `pc` past
    /// the three operands.
    pub fn ternary(&mut self, pc: &mut u16, op: BinOp) -> (r: Step)
        requires
            old(self).wf(),
            *old(pc) + 3 <= MEM_SIZE,
        ensures
            final(self).wf(),
            (final(self).model(), r) == operands_spec(old(self).model(), *old(pc) as int, op),
            *final(pc) == *old(pc) + 3,
            final(self).seen_new_line == old(self).seen_new_line,
            final(self).phase == old(self).phase,
    {
        let a = self.next(pc);
        let x = self.next(pc);
        let b = self.value(x);
        let y = self.next(pc);
        let c = self.value(y);
        match binop(op, b, c) {
            None => Step::Fault(Fault::DivideByZero),
            Some(v) => {
                if v <= REG_END {
                    self.wreg(a, Cell::decode(v));
                    Step::Running
                } else {
                    Step::Fault(Fault::ValueOutOfRange(v))
                }
            },
        }
    }

    /// Runs the instruction at `pc`, as `step_spec` says. On a fault nothing
    /// changes, `pc` included; on `in` the machine waits, with `pc` on the
    /// instruction, for the input that `provide_byte` and `provide_line` take.
    pub fn step(&mut self, pc: &mut u16) -> (r: Step)
        requires
            old(self).wf(),
        ensures
            final(self).wf(),
            (final(self).model(), *final(pc) as int, r) == step_spec(old(self).model(), *old(pc) as int),
            final(self).seen_new_line == old(self).seen_new_line,
            final(self).phase == old(self).phase,
    {
        if *pc as usize >= MEM_SIZE {
            return Step::Fault(Fault::PcOutOfRange);
        }
        let start = *pc;
        let mut p = start;
        let op = self.next(&mut p);
        if p as usize + operands_of(op) > MEM_SIZE {
            return Step::Fault(Fault::PcOutOfRange);
        }
        let ghost s = self.model();
        let r = match op {
            Cell::Halt => Step::Halted,
            Cell::SetReg => {
                let a = self.next(&mut p);
                let b = self.next(&mut p);
                let v = self.rreg(b);
                self.wreg(a, v);
                Step::Running
            },
            Cell::Push => {
                let a = self.next(&mut p);
                let v = self.rreg(a);
                self.stack.push(v);
                Step::Running
            },
            Cell::Pop => {
                let a = self.next(&mut p);
                match self.stack.pop() {
                    None => return Step::Fault(Fault::EmptyStack),
                    Some(top) => {
                        self.wreg(a, top);
                        Step::Running
                    },
                }
            },
            Cell::Eq => self.ternary(&mut p, BinOp::Eq),
            Cell::Gt => self.ternary(&mut p, BinOp::Gt),
            Cell::Jmp => {
                let x = self.next(&mut p);
                p = self.value(x);
                Step::Running
            },
            Cell::Jt => {
                let x = self.next(&mut p);
                let a = self.rreg(x);
                let b = self.next(&mut p);
                if a != Cell::Halt {
                    p = self.value(b);
                }
                Step::Running
            },
            Cell::Jf => {
                let x = self.next(&mut p);
                let a = self.rreg(x);
                let b = self.next(&mut p);
                if a == Cell::Halt {
                    p = self.value(b);
                }
                Step::Running
            },
            Cell::Add => self.ternary(&mut p, BinOp::Add),
            Cell::Mult => self.ternary(&mut p, BinOp::Mult),
            Cell::Mod => self.ternary(&mut p, BinOp::Mod),
            Cell::And => self.ternary(&mut p, BinOp::And),
            Cell::Or => self.ternary(&mut p, BinOp::Or),
            Cell::Not => {
                let a = self.next(&mut p);
                let x = self.next(&mut p);
                let b = self.value(x);
                let v: u16 = !b & MAX;
                assert(v <= MAX) by (bit_vector)
                    requires
                        v == !b & MAX,
                        MAX == 0x7fffu16,
                ;
                self.wreg(a, Cell::decode(v));
                Step::Running
            },
            Cell::Rmem => {
                let a = self.next(&mut p);
                let x = self.next(&mut p);
                let b = self.value(x);
                if b as usize >= MEM_SIZE {
                    return Step::Fault(Fault::AddressOutOfRange(b));
                }
                let v = self.memory[b as usize];
                self.wreg(a, v);
                Step::Running
            },
            Cell::Wmem => {
                let x = self.next(&mut p);
                let a = self.value(x);
                let y = self.next(&mut p);
                let b = self.rreg(y);
                if a as usize >= MEM_SIZE {
                    return Step::Fault(Fault::AddressOutOfRange(a));
                }
                self.memory.set(a as usize, b);
                Step::Running
            },
            Cell::Call => {
                let x = self.next(&mut p);
                let a = self.value(x);
                self.stack.push(Cell::decode(p));
                p = a;
                Step::Running
            },
            Cell::Ret => {
                match self.stack.pop() {
                    None => Step::Halted,
                    Some(c) => {
                        p = cell_value(c);
                        Step::Running
                    },
                }
            },
            Cell::Out => {
                let x = self.next(&mut p);
                let v = self.value(x);
                if v > 255 {
                    return Step::Fault(Fault::NotAByte(v));
                }
                Step::Output(v as u8)
            },
            Cell::In => {
                p = start;
                Step::Input
            },
            Cell::Noop => Step::Running,
            _ => return Step::Fault(Fault::InvalidInstruction(op)),
        };
        if let Step::Fault(_) = r {
            return r;
        }
        *pc = p;
        r
    }
}

} // verus!
