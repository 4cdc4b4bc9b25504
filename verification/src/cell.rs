use vstd::prelude::*;

verus! {

/// Largest value of a literal number in the machine (15 bits).
pub const MAX: u16 = 0x7fff;
/// Encoding of the first register.
pub const REG_START: u16 = 0x8000;
/// Encoding of the last (eighth) register.
pub const REG_END: u16 = 0x8007;

/// Decoded view of a 16-bit word of the machine: an opcode, a literal
/// number that is not an opcode, or a register reference.
#[derive(Clone, Copy, Debug, PartialEq, Eq, Structural)]
pub enum Cell {
    Halt,
    SetReg,
    Push,
    Pop,
    Eq,
    Gt,
    Jmp,
    Jt,
    Jf,
    Add,
    Mult,
    Mod,
    And,
    Or,
    Not,
    Rmem,
    Wmem,
    Call,
    Ret,
    Out,
    In,
    Noop,
    Data(u16),
    Reg(u16),
}

/// The word a cell stands for.
pub open spec fn spec_encode(c: Cell) -> int {
    match c {
        Cell::Halt => 0,
        Cell::SetReg => 1,
        Cell::Push => 2,
        Cell::Pop => 3,
        Cell::Eq => 4,
        Cell::Gt => 5,
        Cell::Jmp => 6,
        Cell::Jt => 7,
        Cell::Jf => 8,
        Cell::Add => 9,
        Cell::Mult => 10,
        Cell::Mod => 11,
        Cell::And => 12,
        Cell::Or => 13,
        Cell::Not => 14,
        Cell::Rmem => 15,
        Cell::Wmem => 16,
        Cell::Call => 17,
        Cell::Ret => 18,
        Cell::Out => 19,
        Cell::In => 20,
        Cell::Noop => 21,
        Cell::Data(x) => x as int,
        Cell::Reg(r) => r + REG_START,
    }
}

/// The cell a word in `0..=REG_END` decodes to: words below 22 are opcodes,
/// the other literal numbers are data, and the eight words from `REG_START`
/// name the registers.
pub open spec fn spec_decode(x: u16) -> Cell {
    if x == 0 { Cell::Halt }
    else if x == 1 { Cell::SetReg }
    else if x == 2 { Cell::Push }
    else if x == 3 { Cell::Pop }
    else if x == 4 { Cell::Eq }
    else if x == 5 { Cell::Gt }
    else if x == 6 { Cell::Jmp }
    else if x == 7 { Cell::Jt }
    else if x == 8 { Cell::Jf }
    else if x == 9 { Cell::Add }
    else if x == 10 { Cell::Mult }
    else if x == 11 { Cell::Mod }
    else if x == 12 { Cell::And }
    else if x == 13 { Cell::Or }
    else if x == 14 { Cell::Not }
    else if x == 15 { Cell::Rmem }
    else if x == 16 { Cell::Wmem }
    else if x == 17 { Cell::Call }
    else if x == 18 { Cell::Ret }
    else if x == 19 { Cell::Out }
    else if x == 20 { Cell::In }
    else if x == 21 { Cell::Noop }
    else if x <= MAX { Cell::Data(x) }
    else { Cell::Reg((x - REG_START) as u16) }
}

/// A cell that `decode` can produce: data only above the opcodes and within
/// 15 bits, registers only among the eight.
pub open spec fn cell_wf(c: Cell) -> bool {
    match c {
        Cell::Data(x) => 22 <= x <= MAX,
        Cell::Reg(r) => r < 8,
        _ => true,
    }
}

impl Cell {
    /// Decodes a word; words above `REG_END` have no cell.
    pub fn decode(x: u16) -> (c: Cell)
        requires
            x <= REG_END,
        ensures
            c == spec_decode(x),
            cell_wf(c),
            spec_encode(c) == x,
    {
        match x {
            0 => Cell::Halt,
            1 => Cell::SetReg,
            2 => Cell::Push,
            3 => Cell::Pop,
            4 => Cell::Eq,
            5 => Cell::Gt,
            6 => Cell::Jmp,
            7 => Cell::Jt,
            8 => Cell::Jf,
            9 => Cell::Add,
            10 => Cell::Mult,
            11 => Cell::Mod,
            12 => Cell::And,
            13 => Cell::Or,
            14 => Cell::Not,
            15 => Cell::Rmem,
            16 => Cell::Wmem,
            17 => Cell::Call,
            18 => Cell::Ret,
            19 => Cell::Out,
            20 => Cell::In,
            21 => Cell::Noop,
            _ => {
                if x <= MAX {
                    Cell::Data(x)
                } else {
                    Cell::Reg(x - REG_START)
                }
            },
        }
    }

    /// The word this cell stands for.
    pub fn encode(&self) -> (x: u16)
        requires
            self matches Cell::Reg(r) ==> r <= MAX,
        ensures
            x == spec_encode(*self),
    {
        match self {
            Cell::Halt => 0,
            Cell::SetReg => 1,
            Cell::Push => 2,
            Cell::Pop => 3,
            Cell::Eq => 4,
            Cell::Gt => 5,
            Cell::Jmp => 6,
            Cell::Jt => 7,
            Cell::Jf => 8,
            Cell::Add => 9,
            Cell::Mult => 10,
            Cell::Mod => 11,
            Cell::And => 12,
            Cell::Or => 13,
            Cell::Not => 14,
            Cell::Rmem => 15,
            Cell::Wmem => 16,
            Cell::Call => 17,
            Cell::Ret => 18,
            Cell::Out => 19,
            Cell::In => 20,
            Cell::Noop => 21,
            Cell::Data(x) => *x,
            Cell::Reg(x) => *x + REG_START,
        }
    }
}

/// The little-endian 16-bit word made of two bytes.
pub open spec fn le_word(lo: u8, hi: u8) -> int {
    lo + 256 * hi
}

/// The two little-endian bytes of a word.
pub open spec fn le_bytes(x: int) -> Seq<u8> {
    seq![(x % 256) as u8, (x / 256) as u8]
}

/// Reads a little-endian word from two bytes.
pub fn word_from_le_bytes(b: [u8; 2]) -> (x: u16)
    ensures
        x == le_word(b@[0], b@[1]),
{
    b[0] as u16 + 256 * (b[1] as u16)
}

/// Writes a word as two little-endian bytes.
pub fn word_to_le_bytes(x: u16) -> (b: [u8; 2])
    ensures
        b@ == le_bytes(x as int),
        le_word(b@[0], b@[1]) == x,
{
    let b = [(x % 256) as u8, (x / 256) as u8];
    assert(b@ =~= le_bytes(x as int));
    b
}

impl Cell {
    /// Decodes the little-endian word held in two bytes.
    pub fn decode_from_bytes(b: [u8; 2]) -> (c: Cell)
        requires
            le_word(b@[0], b@[1]) <= REG_END,
        ensures
            c == spec_decode(le_word(b@[0], b@[1]) as u16),
            cell_wf(c),
    {
        Cell::decode(word_from_le_bytes(b))
    }

    /// The two little-endian bytes of the word this cell stands for.
    pub fn encode_to_bytes(&self) -> (b: [u8; 2])
        requires
            self matches Cell::Reg(r) ==> r <= MAX,
        ensures
            b@ == le_bytes(spec_encode(*self)),
            le_word(b@[0], b@[1]) == spec_encode(*self),
    {
        word_to_le_bytes(self.encode())
    }
}

/// Decoding undoes encoding: every cell that decoding can produce comes
/// back unchanged from its word.
pub proof fn lemma_decode_encode(c: Cell)
    requires
        cell_wf(c),
    ensures
        0 <= spec_encode(c) <= REG_END,
        spec_decode(spec_encode(c) as u16) == c,
{
}

/// Encoding undoes decoding: every word up to `REG_END` comes back unchanged
/// from its cell, and its cell is well formed.
pub proof fn lemma_encode_decode(x: u16)
    requires
        x <= REG_END,
    ensures
        spec_encode(spec_decode(x)) == x,
        cell_wf(spec_decode(x)),
{
}

/// A cell written as two bytes reads back as the same cell.
pub proof fn lemma_bytes_roundtrip(c: Cell)
    requires
        cell_wf(c),
    ensures
        le_word(le_bytes(spec_encode(c))[0], le_bytes(spec_encode(c))[1]) == spec_encode(c),
        spec_decode(le_word(le_bytes(spec_encode(c))[0], le_bytes(spec_encode(c))[1]) as u16) == c,
{
}

/// Little-endian order: the first byte of a word is its low byte and the
/// second its high byte, and reading the two bytes back weighs the second by 256.
pub proof fn law_little_endian(x: u16, lo: u8, hi: u8)
    ensures
        le_bytes(x as int).len() == 2,
        le_bytes(x as int)[0] as int + 256 * (le_bytes(x as int)[1] as int) == x,
        le_bytes(x as int)[0] < 256,
        le_word(lo, hi) % 256 == lo,
        le_word(lo, hi) / 256 == hi,
{
}

} // verus!
