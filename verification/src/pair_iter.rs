use vstd::prelude::*;

verus! {

/// The items of `s` taken two at a time; an odd last item is left out.
pub open spec fn pairs_spec<T>(s: Seq<T>) -> Seq<(T, T)> {
    Seq::new(s.len() / 2, |i: int| (s[2 * i], s[2 * i + 1]))
}

/// One call of `next_pair` on the items still to come: what it hands out,
/// and what still comes after it.
pub open spec fn next_pair_spec<T>(r: Seq<T>) -> (Option<(T, T)>, Seq<T>) {
    if r.len() >= 2 {
        (Some((r[0], r[1])), r.skip(2))
    } else {
        (None, Seq::empty())
    }
}

/// The pairs handed out by calling `next_pair` on the items `r` until it
/// returns `None`, in order.
pub open spec fn drain_spec<T>(r: Seq<T>) -> Seq<(T, T)>
    decreases r.len(),
{
    if r.len() >= 2 {
        match next_pair_spec(r).0 {
            Some(p) => seq![p] + drain_spec(next_pair_spec(r).1),
            None => Seq::empty(),
        }
    } else {
        Seq::empty()
    }
}

/// Hands out the items of a slice two at a time, like `chunks(2)` but as
/// pairs, and stops for good at the first incomplete pair.
pub struct PairIter<'a, T> {
    i: &'a [T],
    pos: usize,
}

impl<'a, T: Copy> PairIter<'a, T> {
    /// The items still to come.
    pub closed spec fn remaining(&self) -> Seq<T> {
        if self.pos <= self.i@.len() {
            self.i@.subrange(self.pos as int, self.i@.len() as int)
        } else {
            Seq::empty()
        }
    }

    /// Pairs over all the items of `i`.
    pub fn new(i: &'a [T]) -> (r: PairIter<'a, T>)
        ensures
            r.remaining() == i@,
    {
        let r = PairIter { i, pos: 0 };
        assert(r.remaining() =~= i@);
        r
    }

    /// The next two items, or `None` (for good) when fewer than two remain;
    /// a single remaining item is consumed either way.
    pub fn next_pair(&mut self) -> (r: Option<(T, T)>)
        ensures
            (r, final(self).remaining()) == next_pair_spec(old(self).remaining()),
    {
        let n = self.i.len();
        if self.pos < n && n - self.pos >= 2 {
            let a = self.i[self.pos];
            let b = self.i[self.pos + 1];
            self.pos = self.pos + 2;
            assert(self.remaining() =~= old(self).remaining().skip(2));
            Some((a, b))
        } else {
            self.pos = n;
            assert(self.remaining() =~= Seq::<T>::empty());
            None
        }
    }
}

/// Taking the first pair off the items leaves the pairs of the rest:
/// `next_pair` hands out exactly `pairs_spec` of the items, in order, and
/// then `None`.
pub proof fn lemma_pairs_unfold<T>(s: Seq<T>)
    ensures
        s.len() >= 2 ==> pairs_spec(s) == seq![(s[0], s[1])] + pairs_spec(s.skip(2)),
        s.len() < 2 ==> pairs_spec(s) == Seq::<(T, T)>::empty(),
{
    if s.len() >= 2 {
        let t = s.skip(2);
        assert(t.len() / 2 == s.len() / 2 - 1);
        assert forall|i: int| 0 <= i < s.len() / 2 implies #[trigger] pairs_spec(s)[i] == (seq![(s[0], s[1])] + pairs_spec(t))[i] by {
            if i > 0 {
                assert(t[2 * (i - 1)] == s[2 * i]);
                assert(t[2 * (i - 1) + 1] == s[2 * i + 1]);
            }
        }
        assert(pairs_spec(s) =~= seq![(s[0], s[1])] + pairs_spec(t));
    } else {
        assert(pairs_spec(s) =~= Seq::<(T, T)>::empty());
    }
}

/// Calling `next_pair` on a fresh `PairIter::new(s)` until it returns `None`
/// hands out exactly the pairs of `s`, in order, and an odd last item never;
/// from then on every call returns `None`.
pub proof fn lemma_drain_is_pairs<T>(s: Seq<T>)
    ensures
        drain_spec(s) == pairs_spec(s),
        next_pair_spec(Seq::<T>::empty()) == (None::<(T, T)>, Seq::<T>::empty()),
    decreases s.len(),
{
    lemma_pairs_unfold(s);
    if s.len() >= 2 {
        lemma_drain_is_pairs(s.skip(2));
    }
}

/// The pairs, laid out item after item, are the items up to an odd last one.
pub proof fn law_pairs_cover<T>(s: Seq<T>)
    ensures
        pairs_spec(s).len() * 2 + s.len() % 2 == s.len(),
        forall|i: int|
            0 <= i < 2 * pairs_spec(s).len() ==> #[trigger] s[i] == (if i % 2 == 0 {
                pairs_spec(s)[i / 2].0
            } else {
                pairs_spec(s)[i / 2].1
            }),
{
    assert forall|i: int| 0 <= i < 2 * pairs_spec(s).len() implies #[trigger] s[i] == (if i % 2 == 0 {
        pairs_spec(s)[i / 2].0
    } else {
        pairs_spec(s)[i / 2].1
    }) by {
        if i % 2 == 0 {
            assert(2 * (i / 2) == i);
        } else {
            assert(2 * (i / 2) + 1 == i);
        }
    }
}

} // verus!
