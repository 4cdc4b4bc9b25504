use vstd::prelude::*;

verus! {

broadcast use vstd::seq_lib::group_to_multiset_ensures;

/// The order of pairs: by the first number, then by the second.
pub open spec fn pair_le(a: (u16, u16), b: (u16, u16)) -> bool {
    a.0 < b.0 || (a.0 == b.0 && a.1 <= b.1)
}

/// Pairs are ordered as the numbers `65536 * first + second`: by the first
/// number, and by the second among equal first numbers.
pub proof fn law_pair_order(a: (u16, u16), b: (u16, u16))
    ensures
        pair_le(a, b) <==> a.0 * 65536 + a.1 <= b.0 * 65536 + b.1,
{
}

/// `m` is a least pair of `s`.
pub open spec fn is_least(m: (u16, u16), s: Seq<(u16, u16)>) -> bool {
    s.contains(m) && forall|k: int| 0 <= k < s.len() ==> pair_le(m, #[trigger] s[k])
}

/// Results that come in any order, handed out in the order of their first
/// number: a result waits until every smaller number has been handed out.
pub struct OrderedOutput {
    pending: Vec<(u16, u16)>,
    expected: u32,
}

impl OrderedOutput {
    /// The results received and not yet handed out.
    pub closed spec fn pending(&self) -> Seq<(u16, u16)> {
        self.pending@
    }

    /// The number of the next result to hand out.
    pub closed spec fn expected(&self) -> nat {
        self.expected as nat
    }

    /// The next number fits, one past the largest 16-bit number at most.
    pub open spec fn wf(&self) -> bool {
        self.expected() <= 0x10000
    }

    /// Nothing received, waiting for number 0.
    pub fn new() -> (r: OrderedOutput)
        ensures
            r.wf(),
            r.pending() == Seq::<(u16, u16)>::empty(),
            r.expected() == 0,
    {
        OrderedOutput { pending: Vec::new(), expected: 0 }
    }

    /// Receives the result `a` for the number `x`, then hands out, while the
    /// least pair received has the expected number, that pair, expecting the
    /// next number.
    pub fn push(&mut self, x: u16, a: u16) -> (out: Vec<(u16, u16)>)
        requires
            old(self).wf(),
        ensures
            final(self).wf(),
            final(self).pending().to_multiset().add(out@.to_multiset()) == old(self).pending().push(
                (x, a),
            ).to_multiset(),
            final(self).expected() == old(self).expected() + out@.len(),
            forall|i: int| 0 <= i < out@.len() ==> #[trigger] out@[i].0 == old(self).expected() + i,
            forall|i: int, k: int|
                0 <= i < out@.len() && 0 <= k < final(self).pending().len() ==> pair_le(
                    #[trigger] out@[i],
                    #[trigger] final(self).pending()[k],
                ),
            final(self).pending().len() == 0 || exists|m: (u16, u16)|
                is_least(m, final(self).pending()) && m.0 != final(self).expected(),
    {
        let ghost p0 = self.pending@.push((x, a));
        self.pending.push((x, a));
        let mut out: Vec<(u16, u16)> = Vec::new();
        loop
            invariant
                self.expected <= 0x10000,
                self.pending@.to_multiset().add(out@.to_multiset()) == p0.to_multiset(),
                self.expected == old(self).expected + out@.len(),
                forall|i: int| 0 <= i < out@.len() ==> #[trigger] out@[i].0 == old(self).expected + i,
                forall|i: int, k: int|
                    0 <= i < out@.len() && 0 <= k < self.pending@.len() ==> pair_le(
                        #[trigger] out@[i],
                        #[trigger] self.pending@[k],
                    ),
            ensures
                self.expected <= 0x10000,
                self.pending@.to_multiset().add(out@.to_multiset()) == p0.to_multiset(),
                self.expected == old(self).expected + out@.len(),
                forall|i: int| 0 <= i < out@.len() ==> #[trigger] out@[i].0 == old(self).expected + i,
                forall|i: int, k: int|
                    0 <= i < out@.len() && 0 <= k < self.pending@.len() ==> pair_le(
                        #[trigger] out@[i],
                        #[trigger] self.pending@[k],
                    ),
                self.pending@.len() == 0 || exists|m: (u16, u16)|
                    is_least(m, self.pending@) && m.0 != self.expected,
            decreases self.pending@.len(),
        {
            if self.pending.len() == 0 {
                break;
            }
            let mut mi: usize = 0;
            let mut j: usize = 1;
            while j < self.pending.len()
                invariant
                    0 <= mi < self.pending@.len(),
                    1 <= j <= self.pending@.len(),
                    forall|k: int| 0 <= k < j ==> pair_le(self.pending@[mi as int], #[trigger] self.pending@[k]),
                decreases self.pending@.len() - j,
            {
                let e = self.pending[j];
                let m = self.pending[mi];
                if e.0 < m.0 || (e.0 == m.0 && e.1 < m.1) {
                    mi = j;
                }
                j += 1;
            }
            let m = self.pending[mi];
            if m.0 as u32 != self.expected {
                assert(is_least(m, self.pending@));
                break;
            }
            let ghost before = self.pending@;
            let top = self.pending.remove(mi);
            assert(self.pending@ == before.remove(mi as int));
            assert forall|k: int| 0 <= k < self.pending@.len() implies pair_le(top, #[trigger] self.pending@[k]) by {
                if k < mi {
                    assert(self.pending@[k] == before[k]);
                } else {
                    assert(self.pending@[k] == before[k + 1]);
                }
            }
            assert forall|i: int, k: int|
                0 <= i < out@.len() && 0 <= k < self.pending@.len() implies pair_le(
                    #[trigger] out@[i],
                    #[trigger] self.pending@[k],
                ) by {
                if k < mi {
                    assert(self.pending@[k] == before[k]);
                } else {
                    assert(self.pending@[k] == before[k + 1]);
                }
            }
            out.push(top);
            self.expected = self.expected + 1;
            assert(self.pending@.to_multiset().add(out@.to_multiset()) =~= p0.to_multiset());
        }
        out
    }
}

} // verus!
