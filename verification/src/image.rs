use vstd::prelude::*;
use crate::cell::{Cell, spec_encode, spec_decode, le_word, REG_END, lemma_decode_encode};
use crate::machine::{Program, Machine, MEM_SIZE, NUM_REGS, machine_wf, all_wf};
use crate::pair_iter::PairIter;

verus! {

/// Number of cells a saved state holds before its program counter: the
/// memory, then the registers.
pub const STATE_CELLS: usize = 32776;

/// Why a saved state could not be read.
#[derive(Clone, Copy, Debug, PartialEq, Eq, Structural)]
pub enum LoadError {
    /// The bytes end before the program counter.
    Truncated,
}

/// The little-endian words of a byte string; an odd last byte is left out.
pub open spec fn words_of(b: Seq<u8>) -> Seq<u16> {
    Seq::new(b.len() / 2, |i: int| le_word(b[2 * i], b[2 * i + 1]) as u16)
}

/// The bytes of a sequence of words, each in little-endian order.
pub open spec fn bytes_of(ws: Seq<u16>) -> Seq<u8> {
    Seq::new(2 * ws.len(), |i: int| if i % 2 == 0 { (ws[i / 2] % 256) as u8 } else { (ws[i / 2] / 256) as u8 })
}

/// The words cells stand for.
pub open spec fn encode_all(cs: Seq<Cell>) -> Seq<u16> {
    cs.map_values(|c: Cell| spec_encode(c) as u16)
}

/// The cells words decode to.
pub open spec fn decode_all(ws: Seq<u16>) -> Seq<Cell> {
    ws.map_values(|w: u16| spec_decode(w))
}

/// The words of a saved state: memory, registers, the program counter, stack.
pub open spec fn state_words(s: Machine, pc: u16) -> Seq<u16> {
    encode_all(s.memory) + encode_all(s.regs) + seq![pc] + encode_all(s.stack)
}

/// The bytes of a saved state.
pub open spec fn image_spec(s: Machine, pc: u16) -> Seq<u8> {
    bytes_of(state_words(s, pc))
}

/// A program image can be loaded: it fits the memory and every word decodes.
pub open spec fn challenge_ok(b: Seq<u8>) -> bool {
    &&& words_of(b).len() <= MEM_SIZE
    &&& forall|i: int| 0 <= i < words_of(b).len() ==> #[trigger] words_of(b)[i] <= REG_END
}

/// A saved state can be read without a word that does not decode: every
/// word but the program counter is at most `REG_END`.
pub open spec fn state_ok(b: Seq<u8>) -> bool {
    forall|i: int| 0 <= i < words_of(b).len() && i != STATE_CELLS ==> #[trigger] words_of(b)[i] <= REG_END
}

/// What reading the saved state `b` makes of the machine `t`: the cells are
/// read into memory, then registers, as far as the bytes go; when the
/// program counter is there too, it is returned and the remaining words are
/// pushed onto the stack; otherwise the read fails with what was read so far
/// kept.
pub open spec fn load_state_spec(t: Machine, b: Seq<u8>) -> (Machine, Result<u16, LoadError>) {
    let w = words_of(b);
    let n = w.len();
    let k = if n < STATE_CELLS { n } else { STATE_CELLS as nat };
    let memory = if k >= MEM_SIZE {
        decode_all(w.take(MEM_SIZE as int))
    } else {
        decode_all(w.take(k as int)) + t.memory.skip(k as int)
    };
    let regs = if k >= MEM_SIZE {
        decode_all(w.subrange(MEM_SIZE as int, k as int)) + t.regs.skip(k - MEM_SIZE)
    } else {
        t.regs
    };
    if n <= STATE_CELLS {
        (Machine { memory, regs, stack: t.stack }, Err(LoadError::Truncated))
    } else {
        (
            Machine { memory, regs, stack: t.stack + decode_all(w.skip(STATE_CELLS + 1)) },
            Ok(w[STATE_CELLS as int]),
        )
    }
}

/// Halving a byte count: where the pairs of bytes end.
proof fn lemma_half(n: int, i: int)
    requires
        0 <= n,
        0 <= i,
    ensures
        n >= 2 * i + 2 ==> n / 2 >= i + 1,
        2 * i <= n < 2 * i + 2 ==> n / 2 == i,
        n / 2 >= i + 1 ==> n >= 2 * i + 2,
{
    assert(n >= 2 * i + 2 ==> n / 2 >= i + 1) by (nonlinear_arith);
    assert(2 * i <= n < 2 * i + 2 ==> n / 2 == i) by (nonlinear_arith);
    assert(n / 2 >= i + 1 ==> n >= 2 * i + 2) by (nonlinear_arith);
}

/// Reads the word at index `i` of the bytes.
fn word_at(b: &[u8], i: usize) -> (w: u16)
    requires
        2 * i + 1 < b.len(),
    ensures
        w == words_of(b@)[i as int],
{
    b[2 * i] as u16 + 256 * (b[2 * i + 1] as u16)
}

/// Whether `binary` can be loaded as a program: see `challenge_ok`.
pub fn challenge_loadable(binary: &[u8]) -> (r: bool)
    ensures
        r == challenge_ok(binary@),
{
    let n = binary.len() / 2;
    if n > MEM_SIZE {
        return false;
    }
    let mut i: usize = 0;
    while i < n
        invariant
            n == words_of(binary@).len(),
            i <= n,
            forall|j: int| 0 <= j < i ==> #[trigger] words_of(binary@)[j] <= REG_END,
        decreases n - i,
    {
        if word_at(binary, i) > REG_END {
            return false;
        }
        i += 1;
    }
    true
}

/// Whether `savestate` can be read without a word that does not decode: see `state_ok`.
pub fn state_loadable(savestate: &[u8]) -> (r: bool)
    ensures
        r == state_ok(savestate@),
{
    let n = savestate.len() / 2;
    let mut i: usize = 0;
    while i < n
        invariant
            n == words_of(savestate@).len(),
            i <= n,
            forall|j: int| 0 <= j < i && j != STATE_CELLS ==> #[trigger] words_of(savestate@)[j] <= REG_END,
        decreases n - i,
    {
        if i != STATE_CELLS && word_at(savestate, i) > REG_END {
            return false;
        }
        i += 1;
    }
    true
}

impl Program {
    /// Loads a program image into the start of memory, word by word in
    /// little-endian order (an odd last byte is ignored); the rest of the
    /// machine is untouched. The program starts at address 0.
    pub fn load_challenge(&mut self, binary: &[u8]) -> (pc: u16)
        requires
            old(self).wf(),
            challenge_ok(binary@),
        ensures
            final(self).wf(),
            pc == 0,
            final(self).memory@ == decode_all(words_of(binary@)) + old(self).memory@.skip(
                words_of(binary@).len() as int,
            ),
            final(self).regs@ == old(self).regs@,
            final(self).stack@ == old(self).stack@,
            final(self).seen_new_line == old(self).seen_new_line,
            final(self).phase == old(self).phase,
    {
        let ghost w = words_of(binary@);
        let mut it = PairIter::new(binary);
        let mut i: usize = 0;
        loop
            invariant_except_break
                it.remaining() == binary@.skip(2 * i),
            invariant
                w == words_of(binary@),
                old(self).wf(),
                challenge_ok(binary@),
                self.wf(),
                i <= w.len(),
                2 * i <= binary@.len(),
                self.memory@ == decode_all(w.take(i as int)) + old(self).memory@.skip(i as int),
                self.regs@ == old(self).regs@,
                self.stack@ == old(self).stack@,
                self.seen_new_line == old(self).seen_new_line,
                self.phase == old(self).phase,
            ensures
                i == w.len(),
                self.wf(),
                self.memory@ == decode_all(w.take(i as int)) + old(self).memory@.skip(i as int),
                self.regs@ == old(self).regs@,
                self.stack@ == old(self).stack@,
                self.seen_new_line == old(self).seen_new_line,
                self.phase == old(self).phase,
            decreases binary@.len() - 2 * i,
        {
            let ghost before = it.remaining();
            assert(before.len() == binary@.len() - 2 * i);
            let nx = it.next_pair();
            match nx {
                None => {
                    assert(before.len() < 2);
                    proof {
                        lemma_half(binary@.len() as int, i as int);
                    }
                    break;
                },
                Some((a, b)) => {
                    assert(before.len() >= 2);
                    proof {
                        lemma_half(binary@.len() as int, i as int);
                    }
                    assert(a == binary@[2 * i] && b == binary@[2 * i + 1]);
                    assert(w[i as int] <= REG_END);
                    let pair = [a, b];
                    assert(pair@[0] == a && pair@[1] == b);
                    let c = Cell::decode_from_bytes(pair);
                    self.memory.set(i, c);
                    proof {
                        assert(it.remaining() =~= binary@.skip(2 * (i + 1)));
                        assert(self.memory@ =~= decode_all(w.take(i + 1)) + old(self).memory@.skip(i + 1));
                    }
                    i += 1;
                },
            }
        }
        assert(w.take(i as int) =~= w);
        0
    }
}

/// The bytes of `ws`, each word in little-endian order.
pub fn words_to_bytes(ws: &[u16]) -> (r: Vec<u8>)
    ensures
        r@ == bytes_of(ws@),
{
    let mut r: Vec<u8> = Vec::new();
    let mut i: usize = 0;
    while i < ws.len()
        invariant
            i <= ws@.len(),
            r@ == bytes_of(ws@.take(i as int)),
        decreases ws@.len() - i,
    {
        let w = ws[i];
        r.push((w % 256) as u8);
        r.push((w / 256) as u8);
        proof {
            let t = ws@.take(i + 1);
            assert forall|j: int| 0 <= j < 2 * (i + 1) implies #[trigger] r@[j] == bytes_of(t)[j] by {
                if j < 2 * i {
                    assert(ws@.take(i as int)[j / 2] == t[j / 2]);
                }
            }
            assert(r@ =~= bytes_of(t));
        }
        i += 1;
    }
    assert(ws@.take(i as int) =~= ws@);
    r
}

/// Words written as bytes read back as the same words.
pub proof fn lemma_words_of_bytes_of(ws: Seq<u16>)
    ensures
        words_of(bytes_of(ws)) == ws,
{
    let b = bytes_of(ws);
    assert forall|i: int| 0 <= i < ws.len() implies #[trigger] words_of(b)[i] == ws[i] by {
        assert(b[2 * i] == (ws[i] % 256) as u8);
        assert(b[2 * i + 1] == (ws[i] / 256) as u8);
    }
    assert(words_of(b) =~= ws);
}

/// Cells that decoding can produce come back from their words.
pub proof fn lemma_decode_all_encode_all(cs: Seq<Cell>)
    requires
        all_wf(cs),
    ensures
        decode_all(encode_all(cs)) == cs,
        forall|i: int| 0 <= i < cs.len() ==> #[trigger] encode_all(cs)[i] <= REG_END,
{
    assert forall|i: int| 0 <= i < cs.len() implies #[trigger] decode_all(encode_all(cs))[i] == cs[i] && encode_all(cs)[i] <= REG_END by {
        lemma_decode_encode(cs[i]);
    }
    assert(decode_all(encode_all(cs)) =~= cs);
}

impl Program {
    /// The bytes that save the machine with the program counter `pc`: see `image_spec`.
    pub fn save_state(&self, pc: u16) -> (r: Vec<u8>)
        requires
            self.wf(),
        ensures
            r@ == image_spec(self.model(), pc),
    {
        let mut ws: Vec<u16> = Vec::new();
        let mut i: usize = 0;
        while i < self.memory.len()
            invariant
                self.wf(),
                i <= self.memory@.len(),
                ws@ == encode_all(self.memory@.take(i as int)),
            decreases self.memory@.len() - i,
        {
            ws.push(crate::machine::cell_value(self.memory[i]));
            assert(ws@ =~= encode_all(self.memory@.take(i + 1)));
            i += 1;
        }
        assert(self.memory@.take(i as int) =~= self.memory@);
        let ghost m = ws@;
        let mut i: usize = 0;
        while i < self.regs.len()
            invariant
                self.wf(),
                m == encode_all(self.memory@),
                i <= self.regs@.len(),
                ws@ == m + encode_all(self.regs@.take(i as int)),
            decreases self.regs@.len() - i,
        {
            ws.push(crate::machine::cell_value(self.regs[i]));
            assert(ws@ =~= m + encode_all(self.regs@.take(i + 1)));
            i += 1;
        }
        assert(self.regs@.take(i as int) =~= self.regs@);
        ws.push(pc);
        let ghost m2 = ws@;
        let mut i: usize = 0;
        while i < self.stack.len()
            invariant
                self.wf(),
                m2 == encode_all(self.memory@) + encode_all(self.regs@) + seq![pc],
                i <= self.stack@.len(),
                ws@ == m2 + encode_all(self.stack@.take(i as int)),
            decreases self.stack@.len() - i,
        {
            ws.push(crate::machine::cell_value(self.stack[i]));
            assert(ws@ =~= m2 + encode_all(self.stack@.take(i + 1)));
            i += 1;
        }
        assert(self.stack@.take(i as int) =~= self.stack@);
        assert(ws@ =~= state_words(self.model(), pc));
        words_to_bytes(ws.as_slice())
    }

    /// Reads a saved state into the machine, as `load_state_spec` says, and
    /// returns its program counter.
    pub fn load_state(&mut self, savestate: &[u8]) -> (r: Result<u16, LoadError>)
        requires
            old(self).wf(),
            state_ok(savestate@),
        ensures
            final(self).wf(),
            (final(self).model(), r) == load_state_spec(old(self).model(), savestate@),
            final(self).seen_new_line == old(self).seen_new_line,
            final(self).phase == old(self).phase,
    {
        let ghost w = words_of(savestate@);
        let n = savestate.len() / 2;
        let k = if n < STATE_CELLS { n } else { STATE_CELLS };
        let mut i: usize = 0;
        while i < k
            invariant
                w == words_of(savestate@),
                n == w.len(),
                k == (if n < STATE_CELLS { n } else { STATE_CELLS }),
                state_ok(savestate@),
                i <= k,
                self.wf(),
                self.memory@ == (if i <= MEM_SIZE {
                    decode_all(w.take(i as int)) + old(self).memory@.skip(i as int)
                } else {
                    decode_all(w.take(MEM_SIZE as int))
                }),
                self.regs@ == (if i <= MEM_SIZE {
                    old(self).regs@
                } else {
                    decode_all(w.subrange(MEM_SIZE as int, i as int)) + old(self).regs@.skip(i - MEM_SIZE)
                }),
                self.stack@ == old(self).stack@,
                self.seen_new_line == old(self).seen_new_line,
                self.phase == old(self).phase,
                old(self).wf(),
            decreases k - i,
        {
            let x = word_at(savestate, i);
            let c = Cell::decode(x);
            if i < MEM_SIZE {
                self.memory.set(i, c);
                assert(self.memory@ =~= decode_all(w.take(i + 1)) + old(self).memory@.skip(i + 1));
            } else {
                self.regs.set(i - MEM_SIZE, c);
                assert(self.regs@ =~= decode_all(w.subrange(MEM_SIZE as int, i + 1)) + old(self).regs@.skip(i + 1 - MEM_SIZE));
            }
            i += 1;
        }
        if n <= STATE_CELLS {
            return Err(LoadError::Truncated);
        }
        let pc = word_at(savestate, STATE_CELLS);
        let ghost st = self.stack@;
        let ghost mem = self.memory@;
        let ghost regs = self.regs@;
        let mut j: usize = STATE_CELLS + 1;
        while j < n
            invariant
                w == words_of(savestate@),
                n == w.len(),
                n > STATE_CELLS,
                state_ok(savestate@),
                STATE_CELLS + 1 <= j <= n,
                self.wf(),
                self.stack@ == st + decode_all(w.subrange(STATE_CELLS + 1, j as int)),
                self.memory@ == mem,
                self.regs@ == regs,
                self.seen_new_line == old(self).seen_new_line,
                self.phase == old(self).phase,
            decreases n - j,
        {
            let x = word_at(savestate, j);
            let c = Cell::decode(x);
            self.stack.push(c);
            assert(self.stack@ =~= st + decode_all(w.subrange(STATE_CELLS + 1, j + 1)));
            j += 1;
        }
        assert(w.subrange(STATE_CELLS + 1, n as int) =~= w.skip(STATE_CELLS + 1));
        Ok(pc)
    }
}

/// What a saved state is read back as: a machine whose memory, registers
/// and stack were saved with the program counter `pc` is restored with that
/// memory and those registers, its stack pushed onto the reader's, and `pc`
/// returned; and the saved bytes meet `load_state`'s precondition.
pub proof fn lemma_save_load_roundtrip(s: Machine, t: Machine, pc: u16)
    requires
        machine_wf(s),
        machine_wf(t),
    ensures
        state_ok(image_spec(s, pc)),
        load_state_spec(t, image_spec(s, pc)) == (
            Machine { memory: s.memory, regs: s.regs, stack: t.stack + s.stack },
            Ok::<u16, LoadError>(pc),
        ),
{
    let ws = state_words(s, pc);
    lemma_words_of_bytes_of(ws);
    lemma_decode_all_encode_all(s.memory);
    lemma_decode_all_encode_all(s.regs);
    lemma_decode_all_encode_all(s.stack);
    let em = encode_all(s.memory);
    let er = encode_all(s.regs);
    let es = encode_all(s.stack);
    assert(ws.take(MEM_SIZE as int) =~= em);
    assert(ws.subrange(MEM_SIZE as int, STATE_CELLS as int) =~= er);
    assert(ws[STATE_CELLS as int] == pc);
    assert(ws.skip(STATE_CELLS + 1) =~= es);
    assert forall|i: int| 0 <= i < ws.len() && i != STATE_CELLS implies #[trigger] ws[i] <= REG_END by {
        if i < MEM_SIZE {
            assert(ws[i] == em[i]);
        } else if i < STATE_CELLS {
            assert(ws[i] == er[i - MEM_SIZE]);
        } else {
            assert(ws[i] == es[i - STATE_CELLS - 1]);
        }
    }
    assert(t.regs.skip(NUM_REGS as int) =~= Seq::<Cell>::empty());
    assert(decode_all(er) + t.regs.skip(NUM_REGS as int) =~= s.regs);
}

/// Each word of `ws` stands in `bytes_of(ws)` at twice its index, low byte first.
proof fn lemma_bytes_of_at(ws: Seq<u16>, i: int)
    requires
        0 <= i < ws.len(),
    ensures
        bytes_of(ws)[2 * i] as int + 256 * bytes_of(ws)[2 * i + 1] == ws[i],
{
    assert((2 * i) / 2 == i);
    assert((2 * i + 1) / 2 == i);
    assert((2 * i) % 2 == 0);
    assert((2 * i + 1) % 2 == 1);
}

/// Where a saved state keeps each thing, as little-endian words of two
/// bytes: the memory word `i` at byte `2 i`, register `r` after the memory,
/// the program counter after the registers, then the stack from the bottom.
pub proof fn law_image_layout(s: Machine, pc: u16)
    requires
        machine_wf(s),
    ensures
        image_spec(s, pc).len() == 2 * (STATE_CELLS + 1 + s.stack.len()),
        forall|i: int|
            0 <= i < MEM_SIZE ==> image_spec(s, pc)[2 * i] as int + 256 * image_spec(s, pc)[2 * i + 1]
                == #[trigger] spec_encode(s.memory[i]),
        forall|r: int|
            0 <= r < NUM_REGS ==> image_spec(s, pc)[2 * (MEM_SIZE + r)] as int + 256 * image_spec(s, pc)[2 * (
            MEM_SIZE + r) + 1] == #[trigger] spec_encode(s.regs[r]),
        image_spec(s, pc)[2 * STATE_CELLS] as int + 256 * image_spec(s, pc)[2 * STATE_CELLS + 1] == pc,
        forall|k: int|
            0 <= k < s.stack.len() ==> image_spec(s, pc)[2 * (STATE_CELLS + 1 + k)] as int + 256
                * image_spec(s, pc)[2 * (STATE_CELLS + 1 + k) + 1] == #[trigger] spec_encode(s.stack[k]),
{
    let ws = state_words(s, pc);
    lemma_decode_all_encode_all(s.memory);
    lemma_decode_all_encode_all(s.regs);
    lemma_decode_all_encode_all(s.stack);
    assert forall|i: int| 0 <= i < MEM_SIZE implies image_spec(s, pc)[2 * i] as int + 256 * image_spec(s, pc)[2 * i + 1] == #[trigger] spec_encode(s.memory[i]) by {
        lemma_bytes_of_at(ws, i);
        assert(ws[i] == encode_all(s.memory)[i]);
    }
    assert forall|r: int| 0 <= r < NUM_REGS implies image_spec(s, pc)[2 * (MEM_SIZE + r)] as int + 256 * image_spec(s, pc)[2 * (MEM_SIZE + r) + 1] == #[trigger] spec_encode(s.regs[r]) by {
        lemma_bytes_of_at(ws, MEM_SIZE + r);
        assert(ws[MEM_SIZE + r] == encode_all(s.regs)[r]);
    }
    lemma_bytes_of_at(ws, STATE_CELLS as int);
    assert(ws[STATE_CELLS as int] == pc);
    assert forall|k: int| 0 <= k < s.stack.len() implies image_spec(s, pc)[2 * (STATE_CELLS + 1 + k)] as int + 256 * image_spec(s, pc)[2 * (STATE_CELLS + 1 + k) + 1] == #[trigger] spec_encode(s.stack[k]) by {
        lemma_bytes_of_at(ws, STATE_CELLS + 1 + k);
        assert(ws[STATE_CELLS + 1 + k] == encode_all(s.stack)[k]);
    }
}

/// A program image or a saved state is read as little-endian words: word
/// `i` is byte `2 i` plus 256 times byte `2 i + 1`.
pub proof fn law_words_of(b: Seq<u8>)
    ensures
        words_of(b).len() == b.len() / 2,
        forall|i: int| 0 <= i < b.len() / 2 ==> #[trigger] words_of(b)[i] == b[2 * i] as int + 256 * b[2 * i + 1],
{
}

} // verus!
