use vstd::prelude::*;
use crate::cell::{Cell, spec_decode, spec_encode};
use crate::machine::{Program, Machine, InputPhase, Fault, MEM_SIZE, wreg_spec};
use crate::text::{trim, trim_spec};

verus! {

/// The address of the operand that the teleporter's confirmation test sets to 4 before
/// it calls the confirmation routine.
pub const SET_FOUR_BEFORE_CALL: u16 = 5485;
/// The address of the call of the confirmation routine.
pub const ACK_CALL: u16 = 5489;
/// The value of the eighth register for which the confirmation routine returns 6.
pub const REG_8_VALUE: u16 = 25734;

/// What the console wants next, or how the `in` instruction ended.
#[derive(Clone, Copy, Debug, PartialEq, Eq, Structural)]
pub enum Console {
    /// Another byte of input.
    NeedByte,
    /// The rest of a command line.
    NeedLine,
    /// The input has ended: the state is to be saved, with the program
    /// counter on the `in` instruction, and the machine stopped.
    Suspend,
    /// The byte was stored and the program counter moved past the
    /// instruction; `prepared` tells that the teleporter was just prepared.
    Done { prepared: bool },
    /// The machine cannot go on.
    Fault(Fault),
}

/// The command line that prepares the teleporter.
pub open spec fn teleporter_command() -> Seq<char> {
    seq!['p', 'r', 'e', 'p', 'a', 'r', 'e', ' ', 't', 'e', 'l', 'e', 'p', 'o', 'r', 't', 'e', 'r']
}

/// The machine with the teleporter confirmation bypassed: the argument 4 of
/// the test becomes 6 (the value the confirmation must return), its call is
/// replaced by two `noop`s, and the eighth register holds `REG_8_VALUE`.
pub open spec fn prepared_spec(s: Machine) -> Machine {
    Machine {
        memory: s.memory.update(SET_FOUR_BEFORE_CALL as int, spec_decode(6)).update(
            ACK_CALL as int,
            Cell::Noop,
        ).update(ACK_CALL + 1, Cell::Noop),
        regs: s.regs.update(7, spec_decode(REG_8_VALUE)),
        stack: s.stack,
    }
}

impl Program {
    /// Whether the console waits for the rest of a command line.
    pub fn awaiting_line(&self) -> (r: bool)
        ensures
            r == (self.phase == InputPhase::AwaitLine),
    {
        self.phase == InputPhase::AwaitLine
    }

    /// Bypasses the teleporter's confirmation routine, as `prepared_spec` says.
    pub fn prepare_teleporter(&mut self)
        requires
            old(self).wf(),
        ensures
            final(self).wf(),
            final(self).model() == prepared_spec(old(self).model()),
            final(self).seen_new_line == old(self).seen_new_line,
            final(self).phase == old(self).phase,
    {
        self.memory.set(SET_FOUR_BEFORE_CALL as usize, Cell::decode(6));
        self.memory.set(ACK_CALL as usize, Cell::Noop);
        self.memory.set(ACK_CALL as usize + 1, Cell::Noop);
        self.regs.set(7, Cell::decode(REG_8_VALUE));
    }

    /// Ends the `in` instruction at `pc` with the byte `b`: stores it into the
    /// register named by the operand and moves `pc` past the instruction.
    fn finish_input(&mut self, pc: &mut u16, b: u8, prepared: bool) -> (r: Console)
        requires
            old(self).wf(),
        ensures
            final(self).wf(),
            final(self).phase == InputPhase::Start,
            final(self).seen_new_line == (b == 10),
            *old(pc) + 1 < MEM_SIZE ==> {
                &&& r == Console::Done { prepared }
                &&& final(self).model() == wreg_spec(
                    old(self).model(),
                    old(self).memory@[*old(pc) + 1],
                    spec_decode(b as u16),
                )
                &&& *final(pc) == *old(pc) + 2
            },
            *old(pc) + 1 >= MEM_SIZE ==> {
                &&& r == Console::Fault(Fault::PcOutOfRange)
                &&& final(self).model() == old(self).model()
                &&& *final(pc) == *old(pc)
            },
    {
        self.phase = InputPhase::Start;
        self.seen_new_line = b == 10;
        if *pc as usize + 1 >= MEM_SIZE {
            return Console::Fault(Fault::PcOutOfRange);
        }
        let mut p = *pc + 1;
        let a = self.next(&mut p);
        self.wreg(a, Cell::decode(b as u16));
        *pc = p;
        Console::Done { prepared }
    }

    /// Takes the byte `b` as input, as the `in` instruction at `pc` wants it;
    /// `None` stands for the end of the input. A carriage return is skipped in
    /// favour of the byte after it (kept when the input ends there). A `!`
    /// right after a newline starts a command line, which `provide_line`
    /// takes. The end of input before any byte suspends the machine.
    pub fn provide_byte(&mut self, pc: &mut u16, b: Option<u8>) -> (r: Console)
        requires
            old(self).wf(),
            old(self).phase != InputPhase::AwaitLine,
        ensures
            final(self).wf(),
            ({
                let first = old(self).phase == InputPhase::Start;
                let byte: u8 = match b {
                    Some(x) => x,
                    None => 13u8,
                };
                if first && b is None {
                    &&& r == Console::Suspend
                    &&& final(self).model() == old(self).model()
                    &&& *final(pc) == *old(pc)
                    &&& final(self).phase == InputPhase::Start
                    &&& final(self).seen_new_line == old(self).seen_new_line
                } else if first && b == Some(13u8) {
                    &&& r == Console::NeedByte
                    &&& final(self).model() == old(self).model()
                    &&& *final(pc) == *old(pc)
                    &&& final(self).phase == InputPhase::AfterCr
                    &&& final(self).seen_new_line == old(self).seen_new_line
                } else if old(self).seen_new_line && byte == 33 {
                    &&& r == Console::NeedLine
                    &&& final(self).model() == old(self).model()
                    &&& *final(pc) == *old(pc)
                    &&& final(self).phase == InputPhase::AwaitLine
                    &&& final(self).seen_new_line == old(self).seen_new_line
                } else {
                    &&& final(self).phase == InputPhase::Start
                    &&& final(self).seen_new_line == (byte == 10)
                    &&& if *old(pc) + 1 < MEM_SIZE {
                        &&& r == Console::Done { prepared: false }
                        &&& final(self).model() == wreg_spec(
                            old(self).model(),
                            old(self).memory@[*old(pc) + 1],
                            spec_decode(byte as u16),
                        )
                        &&& *final(pc) == *old(pc) + 2
                    } else {
                        &&& r == Console::Fault(Fault::PcOutOfRange)
                        &&& final(self).model() == old(self).model()
                        &&& *final(pc) == *old(pc)
                    }
                }
            }),
    {
        let first = self.phase == InputPhase::Start;
        let byte: u8 = match b {
            None => {
                if first {
                    return Console::Suspend;
                }
                13
            },
            Some(x) => {
                if first && x == 13 {
                    self.phase = InputPhase::AfterCr;
                    return Console::NeedByte;
                }
                x
            },
        };
        if self.seen_new_line && byte == 33 {
            self.phase = InputPhase::AwaitLine;
            return Console::NeedLine;
        }
        self.finish_input(pc, byte, false)
    }

    /// Takes the rest of a command line (empty at the end of the input). When
    /// the line, trimmed of white space, is `prepare teleporter`, the
    /// teleporter is prepared. Either way the program reads a newline in place
    /// of the line.
    pub fn provide_line(&mut self, pc: &mut u16, line: &[char]) -> (r: Console)
        requires
            old(self).wf(),
            old(self).phase == InputPhase::AwaitLine,
        ensures
            final(self).wf(),
            final(self).phase == InputPhase::Start,
            final(self).seen_new_line,
            ({
                let cmd = trim_spec(line@) == teleporter_command();
                let s = if cmd { prepared_spec(old(self).model()) } else { old(self).model() };
                if *old(pc) + 1 < MEM_SIZE {
                    &&& r == Console::Done { prepared: cmd }
                    &&& final(self).model() == wreg_spec(s, s.memory[*old(pc) + 1], spec_decode(10))
                    &&& *final(pc) == *old(pc) + 2
                } else {
                    &&& r == Console::Fault(Fault::PcOutOfRange)
                    &&& final(self).model() == s
                    &&& *final(pc) == *old(pc)
                }
            }),
    {
        let t = trim(line);
        let cmd = is_teleporter_command(&t);
        if cmd {
            self.prepare_teleporter();
        }
        self.finish_input(pc, 10, cmd)
    }
}

/// Whether `s` is the command that prepares the teleporter.
fn is_teleporter_command(s: &Vec<char>) -> (r: bool)
    ensures
        r == (s@ == teleporter_command()),
{
    let target: [char; 18] = [
        'p', 'r', 'e', 'p', 'a', 'r', 'e', ' ', 't', 'e', 'l', 'e', 'p', 'o', 'r', 't', 'e', 'r',
    ];
    assert(target@ =~= teleporter_command());
    if s.len() != 18 {
        return false;
    }
    let mut i: usize = 0;
    while i < 18
        invariant
            s@.len() == 18,
            target@ == teleporter_command(),
            i <= 18,
            forall|k: int| 0 <= k < i ==> s@[k] == target@[k],
        decreases 18 - i,
    {
        if s[i] != target[i] {
            return false;
        }
        i += 1;
    }
    assert(s@ =~= teleporter_command());
    true
}

/// The command is the text `prepare teleporter`.
pub proof fn law_teleporter_command()
    ensures
        teleporter_command() == "prepare teleporter"@,
{
    reveal_strlit("prepare teleporter");
    assert(teleporter_command() =~= "prepare teleporter"@);
}

/// Preparing the teleporter puts 6 at address 5485, two `noop`s (21) at 5489
/// and 5490, and 25734 into the eighth register; nothing else changes.
pub proof fn law_prepare(s: Machine)
    requires
        s.memory.len() == MEM_SIZE,
        s.regs.len() == 8,
    ensures
        ({
            let t = prepared_spec(s);
            &&& spec_encode(t.memory[5485]) == 6
            &&& spec_encode(t.memory[5489]) == 21
            &&& spec_encode(t.memory[5490]) == 21
            &&& spec_encode(t.regs[7]) == 25734
            &&& t.stack == s.stack
            &&& t.memory.len() == s.memory.len()
            &&& t.regs.len() == s.regs.len()
            &&& forall|i: int| 0 <= i < MEM_SIZE && i != 5485 && i != 5489 && i != 5490 ==> #[trigger] t.memory[i] == s.memory[i]
            &&& forall|r: int| 0 <= r < 7 ==> #[trigger] t.regs[r] == s.regs[r]
        }),
{
}

} // verus!
