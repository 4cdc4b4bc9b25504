use vstd::prelude::*;
use crate::cell::{le_bytes, spec_encode, spec_decode, REG_END};
use crate::console::{SET_FOUR_BEFORE_CALL, ACK_CALL, REG_8_VALUE, prepared_spec};
use crate::image::{image_spec, bytes_of, state_words, encode_all};
use crate::machine::{Machine, machine_wf};

verus! {

/// The encoding of `noop`.
pub const NOOP: u16 = 21;

/// A position in a file, as `std::io::SeekFrom` gives one.
#[derive(Clone, Copy, Debug, PartialEq, Eq, Structural)]
pub enum SeekPos {
    Start(u64),
    End(i64),
    Current(i64),
}

/// The word index a byte position from the start of a saved state stands
/// for; 0 for any other position.
pub fn display_position(s: SeekPos) -> (r: u64)
    ensures
        r == (match s {
            SeekPos::Start(x) => x / 2,
            _ => 0,
        }),
{
    match s {
        SeekPos::Start(x) => x / 2,
        _ => 0,
    }
}

/// Which of the teleporter patches.
#[derive(Clone, Copy, Debug, PartialEq, Eq, Structural)]
pub enum PatchKind {
    /// The argument 4 of the teleporter's confirmation test becomes 6.
    SixForFour,
    /// The call of the confirmation routine becomes two `noop`s.
    NoopsForCall,
    /// The eighth register gets the teleporter's value.
    RegisterValue,
}

/// A change to a saved state: where, what must be there, what to write.
pub struct Patch {
    pub kind: PatchKind,
    pub position: SeekPos,
    pub expected: Vec<u8>,
    pub replacement: Vec<u8>,
}

/// The byte offset of the word at index `w` of a saved state.
pub open spec fn offset_of(w: int) -> u64 {
    (2 * w) as u64
}

/// `b` with `r` written at byte `pos`.
pub open spec fn overwrite(b: Seq<u8>, pos: int, r: Seq<u8>) -> Seq<u8> {
    Seq::new(b.len(), |i: int| if pos <= i < pos + r.len() { r[i - pos] } else { b[i] })
}

/// The expected bytes of the call of the confirmation routine: `call 6027`.
pub open spec fn call_bytes() -> Seq<u8> {
    seq![0x11u8, 0u8, 0x8bu8, 0x17u8]
}

/// The two `noop`s that replace it.
pub open spec fn noop_bytes() -> Seq<u8> {
    le_bytes(NOOP as int) + le_bytes(NOOP as int)
}

/// The three patches that prepare the teleporter in a saved state, in the
/// order they are applied: each one's replacement differs from what it
/// expects, so a patched state is left alone the second time.
pub fn teleport_patches() -> (r: Vec<Patch>)
    ensures
        r@.len() == 3,
        r@[0].kind == PatchKind::SixForFour,
        r@[0].position == SeekPos::Start(offset_of(SET_FOUR_BEFORE_CALL as int)),
        r@[0].expected@ == le_bytes(4),
        r@[0].replacement@ == le_bytes(6),
        r@[1].kind == PatchKind::NoopsForCall,
        r@[1].position == SeekPos::Start(offset_of(ACK_CALL as int)),
        r@[1].expected@ == call_bytes(),
        r@[1].replacement@ == noop_bytes(),
        r@[2].kind == PatchKind::RegisterValue,
        r@[2].position == SeekPos::Start(offset_of(REG_END as int)),
        r@[2].expected@ == le_bytes(0),
        r@[2].replacement@ == le_bytes(REG_8_VALUE as int),
        forall|k: int| 0 <= k < 3 ==> #[trigger] r@[k].expected@ != r@[k].replacement@,
{
    let mut r: Vec<Patch> = Vec::new();
    let e0 = vec![4u8, 0u8];
    let s0 = vec![6u8, 0u8];
    assert(e0@ =~= le_bytes(4));
    assert(s0@ =~= le_bytes(6));
    assert(e0@[0] != s0@[0]);
    r.push(Patch {
        kind: PatchKind::SixForFour,
        position: SeekPos::Start(2 * SET_FOUR_BEFORE_CALL as u64),
        expected: e0,
        replacement: s0,
    });
    let e1 = vec![0x11u8, 0u8, 0x8bu8, 0x17u8];
    let s1 = vec![21u8, 0u8, 21u8, 0u8];
    assert(e1@ =~= call_bytes());
    assert(s1@ =~= noop_bytes());
    assert(e1@[0] != s1@[0]);
    r.push(Patch {
        kind: PatchKind::NoopsForCall,
        position: SeekPos::Start(2 * ACK_CALL as u64),
        expected: e1,
        replacement: s1,
    });
    let e2 = vec![0u8, 0u8];
    let s2 = vec![0x86u8, 0x64u8];
    assert(e2@ =~= le_bytes(0));
    assert(s2@ =~= le_bytes(REG_8_VALUE as int));
    assert(e2@[0] != s2@[0]);
    r.push(Patch {
        kind: PatchKind::RegisterValue,
        position: SeekPos::Start(2 * REG_END as u64),
        expected: e2,
        replacement: s2,
    });
    r
}

/// Whether the bytes read at a patch's position are the ones it expects.
pub fn needs_patch(p: &Patch, current: &[u8]) -> (r: bool)
    ensures
        r == (current@ == p.expected@),
{
    if current.len() != p.expected.len() {
        return false;
    }
    let mut i: usize = 0;
    while i < current.len()
        invariant
            current@.len() == p.expected@.len(),
            i <= current@.len(),
            forall|k: int| 0 <= k < i ==> current@[k] == p.expected@[k],
        decreases current@.len() - i,
    {
        if current[i] != p.expected[i] {
            return false;
        }
        i += 1;
    }
    assert(current@ =~= p.expected@);
    true
}

/// Writing a word into a sequence of words writes its two bytes into their bytes.
proof fn lemma_bytes_of_update(ws: Seq<u16>, k: int, x: u16)
    requires
        0 <= k < ws.len(),
    ensures
        bytes_of(ws.update(k, x)) == overwrite(bytes_of(ws), 2 * k, le_bytes(x as int)),
{
    let a = bytes_of(ws.update(k, x));
    let b = overwrite(bytes_of(ws), 2 * k, le_bytes(x as int));
    assert forall|i: int| 0 <= i < a.len() implies #[trigger] a[i] == b[i] by {
        if 2 * k <= i < 2 * k + 2 {
            assert(i / 2 == k);
        } else {
            assert(i / 2 != k);
        }
    }
    assert(a =~= b);
}

/// The three patches do to a saved state what preparing the teleporter
/// does to the running machine: patching the saved bytes of a machine gives
/// the saved bytes of the prepared machine.
pub proof fn lemma_patches_prepare(s: Machine, pc: u16)
    requires
        machine_wf(s),
    ensures
        image_spec(prepared_spec(s), pc) == overwrite(
            overwrite(
                overwrite(image_spec(s, pc), offset_of(SET_FOUR_BEFORE_CALL as int) as int, le_bytes(6)),
                offset_of(ACK_CALL as int) as int,
                noop_bytes(),
            ),
            offset_of(REG_END as int) as int,
            le_bytes(REG_8_VALUE as int),
        ),
{
    let ws = state_words(s, pc);
    let p = prepared_spec(s);
    let w1 = ws.update(5485, 6u16);
    let w2 = w1.update(5489, 21u16);
    let w3 = w2.update(5490, 21u16);
    let w4 = w3.update(32775, 25734u16);
    assert(spec_encode(spec_decode(6)) == 6);
    assert(spec_encode(spec_decode(REG_8_VALUE)) == 25734);
    assert(state_words(p, pc) =~= w4) by {
        assert(encode_all(p.memory) =~= encode_all(s.memory).update(5485, 6u16).update(5489, 21u16).update(5490, 21u16));
        assert(encode_all(p.regs) =~= encode_all(s.regs).update(7, 25734u16));
    }
    lemma_bytes_of_update(ws, 5485, 6u16);
    lemma_bytes_of_update(w1, 5489, 21u16);
    lemma_bytes_of_update(w2, 5490, 21u16);
    lemma_bytes_of_update(w3, 32775, 25734u16);
    let b0 = bytes_of(ws);
    let b1 = overwrite(b0, 10970, le_bytes(6));
    let b3 = overwrite(overwrite(b1, 10978, le_bytes(21)), 10980, le_bytes(21));
    assert(b3 =~= overwrite(b1, 10978, noop_bytes()));
}

} // verus!
