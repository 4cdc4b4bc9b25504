use vstd::prelude::*;
use crate::cell::{Cell, spec_encode, spec_decode, MAX, REG_START, REG_END, cell_wf};
use crate::machine::{Machine, Step, Fault, MEM_SIZE, NUM_REGS, machine_wf, step_spec};

verus! {

// The instruction set, stated by what each numbered instruction does to the
// numbers it works on.

/// The number an operand stands for: a register's content when it names a
/// register, itself otherwise.
pub open spec fn arg(s: Machine, w: Cell) -> int {
    match w {
        Cell::Reg(r) => spec_encode(s.regs[r as int]),
        _ => spec_encode(w),
    }
}

/// `t` is `s` with the number `v` stored into the register that `a` names;
/// nothing changes when `a` names no register.
pub open spec fn stores(s: Machine, t: Machine, a: Cell, v: int) -> bool {
    &&& t.memory == s.memory
    &&& t.stack == s.stack
    &&& t.regs.len() == s.regs.len()
    &&& match a {
        Cell::Reg(r) => {
            &&& spec_encode(t.regs[r as int]) == v
            &&& forall|k: int| 0 <= k < t.regs.len() && k != r ==> t.regs[k] == s.regs[k]
        },
        _ => t.regs == s.regs,
    }
}

/// The instruction at `pc` has the number `op`, and it and three more words
/// lie in memory.
pub open spec fn at(s: Machine, pc: int, op: u16) -> bool {
    &&& machine_wf(s)
    &&& 0 <= pc
    &&& pc + 3 < MEM_SIZE
    &&& s.memory[pc] == spec_decode(op)
}

/// Words 22 to 32767 are numbers, words 32768 to 32775 name the eight
/// registers in order.
pub proof fn law_words(x: u16)
    ensures
        22 <= x <= MAX ==> spec_decode(x) == Cell::Data(x),
        REG_START <= x <= REG_END ==> spec_decode(x) == Cell::Reg((x - REG_START) as u16),
        22 <= x <= MAX ==> arg(Machine { memory: Seq::empty(), regs: Seq::empty(), stack: Seq::empty() }, spec_decode(x)) == x,
{
}

/// 0 `halt`: stops, changing nothing.
pub proof fn law_halt(s: Machine, pc: int)
    requires
        at(s, pc, 0),
    ensures
        step_spec(s, pc).0 == s,
        step_spec(s, pc).2 == Step::Halted,
{
}

/// 1 `set a b`: register `a` gets the value of `b`.
pub proof fn law_set(s: Machine, pc: int)
    requires
        at(s, pc, 1),
    ensures
        step_spec(s, pc).2 == Step::Running,
        step_spec(s, pc).1 == pc + 3,
        stores(s, step_spec(s, pc).0, s.memory[pc + 1], arg(s, s.memory[pc + 2])),
{
}

/// 2 `push a`: the value of `a` goes on top of the stack.
pub proof fn law_push(s: Machine, pc: int)
    requires
        at(s, pc, 2),
    ensures
        step_spec(s, pc).2 == Step::Running,
        step_spec(s, pc).1 == pc + 2,
        step_spec(s, pc).0.memory == s.memory,
        step_spec(s, pc).0.regs == s.regs,
        step_spec(s, pc).0.stack.len() == s.stack.len() + 1,
        step_spec(s, pc).0.stack.drop_last() == s.stack,
        spec_encode(step_spec(s, pc).0.stack.last()) == arg(s, s.memory[pc + 1]),
{
    assert(step_spec(s, pc).0.stack.drop_last() =~= s.stack);
}

/// 3 `pop a`: the top of the stack goes into register `a`; an empty stack
/// is a fault that changes nothing.
pub proof fn law_pop(s: Machine, pc: int)
    requires
        at(s, pc, 3),
    ensures
        s.stack.len() == 0 ==> step_spec(s, pc) == (s, pc, Step::Fault(Fault::EmptyStack)),
        s.stack.len() > 0 ==> {
            &&& step_spec(s, pc).2 == Step::Running
            &&& step_spec(s, pc).1 == pc + 2
            &&& stores(
                Machine { stack: s.stack.drop_last(), ..s },
                step_spec(s, pc).0,
                s.memory[pc + 1],
                spec_encode(s.stack.last()),
            )
        },
{
}

/// The common effect of the three-operand instructions: register `a` gets `v`.
pub open spec fn computes(s: Machine, pc: int, v: int) -> bool {
    &&& step_spec(s, pc).2 == Step::Running
    &&& step_spec(s, pc).1 == pc + 4
    &&& stores(s, step_spec(s, pc).0, s.memory[pc + 1], v)
}

/// 4 `eq a b c`: register `a` gets 1 when `b` equals `c`, 0 otherwise.
pub proof fn law_eq(s: Machine, pc: int)
    requires
        at(s, pc, 4),
    ensures
        computes(s, pc, if arg(s, s.memory[pc + 2]) == arg(s, s.memory[pc + 3]) { 1 } else { 0 }),
{
}

/// 5 `gt a b c`: register `a` gets 1 when `b` is greater than `c`, 0 otherwise.
pub proof fn law_gt(s: Machine, pc: int)
    requires
        at(s, pc, 5),
    ensures
        computes(s, pc, if arg(s, s.memory[pc + 2]) > arg(s, s.memory[pc + 3]) { 1 } else { 0 }),
{
}

/// 6 `jmp a`: jumps to the value of `a`.
pub proof fn law_jmp(s: Machine, pc: int)
    requires
        at(s, pc, 6),
    ensures
        step_spec(s, pc) == (s, arg(s, s.memory[pc + 1]), Step::Running),
{
}

/// 7 `jt a b`: jumps to the value of `b` when the value of `a` is not zero,
/// else goes on past the instruction.
pub proof fn law_jt(s: Machine, pc: int)
    requires
        at(s, pc, 7),
    ensures
        step_spec(s, pc) == (s, if arg(s, s.memory[pc + 1]) != 0 { arg(s, s.memory[pc + 2]) } else { pc + 3 }, Step::Running),
{
}

/// 8 `jf a b`: jumps to the value of `b` when the value of `a` is zero,
/// else goes on past the instruction.
pub proof fn law_jf(s: Machine, pc: int)
    requires
        at(s, pc, 8),
    ensures
        step_spec(s, pc) == (s, if arg(s, s.memory[pc + 1]) == 0 { arg(s, s.memory[pc + 2]) } else { pc + 3 }, Step::Running),
{
}

/// 9 `add a b c`: register `a` gets `b + c` modulo 32768.
pub proof fn law_add(s: Machine, pc: int)
    requires
        at(s, pc, 9),
    ensures
        computes(s, pc, (arg(s, s.memory[pc + 2]) + arg(s, s.memory[pc + 3])) % 32768),
{
}

/// 10 `mult a b c`: register `a` gets `b * c` modulo 32768.
pub proof fn law_mult(s: Machine, pc: int)
    requires
        at(s, pc, 10),
    ensures
        computes(s, pc, (arg(s, s.memory[pc + 2]) * arg(s, s.memory[pc + 3])) % 32768),
{
}

/// 11 `mod a b c`: register `a` gets the remainder of `b` divided by `c`;
/// division by zero is a fault that changes nothing.
pub proof fn law_mod(s: Machine, pc: int)
    requires
        at(s, pc, 11),
    ensures
        arg(s, s.memory[pc + 3]) != 0 ==> computes(s, pc, arg(s, s.memory[pc + 2]) % arg(s, s.memory[pc + 3])),
        arg(s, s.memory[pc + 3]) == 0 ==> step_spec(s, pc) == (s, pc, Step::Fault(Fault::DivideByZero)),
{
}

/// 12 `and a b c`: register `a` gets the bitwise and of `b` and `c`.
pub proof fn law_and(s: Machine, pc: int)
    requires
        at(s, pc, 12),
    ensures
        computes(s, pc, (arg(s, s.memory[pc + 2]) as u16 & arg(s, s.memory[pc + 3]) as u16) as int),
{
    let b = arg(s, s.memory[pc + 2]) as u16;
    let c = arg(s, s.memory[pc + 3]) as u16;
    assert(b & c <= b) by (bit_vector);
}

/// 13 `or a b c`: register `a` gets the bitwise or of `b` and `c`; a result
/// that is no word of the machine is a fault that changes nothing.
pub proof fn law_or(s: Machine, pc: int)
    requires
        at(s, pc, 13),
    ensures
        ({
            let v = arg(s, s.memory[pc + 2]) as u16 | arg(s, s.memory[pc + 3]) as u16;
            &&& v <= REG_END ==> computes(s, pc, v as int)
            &&& v > REG_END ==> step_spec(s, pc) == (s, pc, Step::Fault(Fault::ValueOutOfRange(v)))
        }),
{
}

/// 14 `not a b`: register `a` gets the 15-bit complement of `b`: the two
/// add up to 32767 within 15 bits.
pub proof fn law_not(s: Machine, pc: int)
    requires
        at(s, pc, 14),
    ensures
        step_spec(s, pc).2 == Step::Running,
        step_spec(s, pc).1 == pc + 3,
        exists|v: int|
            0 <= v < 32768 && #[trigger] ((arg(s, s.memory[pc + 2]) % 32768) + v) == 32767 && stores(
                s,
                step_spec(s, pc).0,
                s.memory[pc + 1],
                v,
            ),
{
    let b = arg(s, s.memory[pc + 2]) as u16;
    let v = !b & 0x7fffu16;
    assert(v <= 0x7fff && (b & 0x7fff) + v == 0x7fff) by (bit_vector)
        requires
            v == !b & 0x7fffu16,
    ;
    assert(b & 0x7fff == b % 32768) by (bit_vector);
    assert((arg(s, s.memory[pc + 2]) % 32768) + v == 32767);
}

/// 15 `rmem a b`: register `a` gets the memory word at the address `b`; an
/// address beyond memory is a fault that changes nothing.
pub proof fn law_rmem(s: Machine, pc: int)
    requires
        at(s, pc, 15),
    ensures
        ({
            let b = arg(s, s.memory[pc + 2]);
            &&& b < MEM_SIZE ==> {
                &&& step_spec(s, pc).2 == Step::Running
                &&& step_spec(s, pc).1 == pc + 3
                &&& stores(s, step_spec(s, pc).0, s.memory[pc + 1], spec_encode(s.memory[b]))
            }
            &&& b >= MEM_SIZE ==> step_spec(s, pc) == (s, pc, Step::Fault(Fault::AddressOutOfRange(b as u16)))
        }),
{
}

/// 16 `wmem a b`: the memory word at the address `a` gets the value of `b`;
/// an address beyond memory is a fault that changes nothing.
pub proof fn law_wmem(s: Machine, pc: int)
    requires
        at(s, pc, 16),
    ensures
        ({
            let a = arg(s, s.memory[pc + 1]);
            let t = step_spec(s, pc).0;
            &&& a < MEM_SIZE ==> {
                &&& step_spec(s, pc).2 == Step::Running
                &&& step_spec(s, pc).1 == pc + 3
                &&& t.regs == s.regs
                &&& t.stack == s.stack
                &&& t.memory.len() == s.memory.len()
                &&& spec_encode(t.memory[a]) == arg(s, s.memory[pc + 2])
                &&& forall|k: int| 0 <= k < t.memory.len() && k != a ==> t.memory[k] == s.memory[k]
            }
            &&& a >= MEM_SIZE ==> step_spec(s, pc) == (s, pc, Step::Fault(Fault::AddressOutOfRange(a as u16)))
        }),
{
}

/// 17 `call a`: the address of the next instruction goes on the stack and
/// the machine jumps to the value of `a`.
pub proof fn law_call(s: Machine, pc: int)
    requires
        at(s, pc, 17),
    ensures
        step_spec(s, pc).2 == Step::Running,
        step_spec(s, pc).1 == arg(s, s.memory[pc + 1]),
        step_spec(s, pc).0.memory == s.memory,
        step_spec(s, pc).0.regs == s.regs,
        step_spec(s, pc).0.stack.drop_last() == s.stack,
        step_spec(s, pc).0.stack.len() == s.stack.len() + 1,
        spec_encode(step_spec(s, pc).0.stack.last()) == pc + 2,
{
    assert(step_spec(s, pc).0.stack.drop_last() =~= s.stack);
}

/// 18 `ret`: jumps to the address on top of the stack, removing it; an
/// empty stack halts the machine.
pub proof fn law_ret(s: Machine, pc: int)
    requires
        at(s, pc, 18),
    ensures
        s.stack.len() == 0 ==> step_spec(s, pc).2 == Step::Halted && step_spec(s, pc).0 == s,
        s.stack.len() > 0 ==> step_spec(s, pc) == (
            Machine { stack: s.stack.drop_last(), ..s },
            spec_encode(s.stack.last()),
            Step::Running,
        ),
{
}

/// 19 `out a`: the value of `a` is written as one byte; a value above 255 is
/// a fault that changes nothing.
pub proof fn law_out(s: Machine, pc: int)
    requires
        at(s, pc, 19),
    ensures
        arg(s, s.memory[pc + 1]) <= 255 ==> step_spec(s, pc) == (s, pc + 2, Step::Output(arg(s, s.memory[pc + 1]) as u8)),
        arg(s, s.memory[pc + 1]) > 255 ==> step_spec(s, pc) == (s, pc, Step::Fault(Fault::NotAByte(arg(s, s.memory[pc + 1]) as u16))),
{
}

/// 20 `in a`: the machine waits for input on the instruction.
pub proof fn law_in(s: Machine, pc: int)
    requires
        at(s, pc, 20),
    ensures
        step_spec(s, pc) == (s, pc, Step::Input),
{
}

/// 21 `noop`: goes on to the next word.
pub proof fn law_noop(s: Machine, pc: int)
    requires
        at(s, pc, 21),
    ensures
        step_spec(s, pc) == (s, pc + 1, Step::Running),
{
}

/// A word that is no opcode is no instruction: running it is a fault.
pub proof fn law_not_an_instruction(s: Machine, pc: int, x: u16)
    requires
        at(s, pc, x),
        22 <= x <= REG_END,
    ensures
        step_spec(s, pc) == (s, pc, Step::Fault(Fault::InvalidInstruction(spec_decode(x)))),
{
}

} // verus!
