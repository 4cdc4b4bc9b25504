use vstd::prelude::*;
use std::collections::HashMap;

verus! {

broadcast use vstd::std_specs::hash::group_hash_axioms;

/// The results are taken modulo 2^15, as the machine's arithmetic is.
pub const MODULUS: u32 = 0x8000;

/// The Ackermann-like function computed by the teleporter's confirmation test, with the
/// eighth register `x` in place of the constant 1 of `A(m, 0) = A(m - 1, 1)`,
/// and all arithmetic modulo 2^15.
pub open spec fn ack_spec(x: nat, m: nat, n: nat) -> nat
    decreases m, n,
{
    if m == 0 {
        (n + 1) % (MODULUS as nat)
    } else if n == 0 {
        ack_spec(x, (m - 1) as nat, x)
    } else {
        ack_spec(x, (m - 1) as nat, ack_spec(x, m, (n - 1) as nat))
    }
}

/// The routine's recurrence: `A(0, n) = n + 1`, `A(m, 0) = A(m - 1, x)` with
/// the whole register value `x`, and `A(m, n) = A(m - 1, A(m, n - 1))`, all
/// modulo 2^15; every result is a 15-bit number.
pub proof fn law_ack_recurrence(x: nat, m: nat, n: nat)
    ensures
        ack_spec(x, 0, n) == (n + 1) % 32768,
        ack_spec(x, m, n) < 32768,
        m > 0 ==> ack_spec(x, m, 0) == ack_spec(x, (m - 1) as nat, x),
        m > 0 && n > 0 ==> ack_spec(x, m, n) == ack_spec(x, (m - 1) as nat, ack_spec(x, m, (n - 1) as nat)),
    decreases m, n,
{
    if m > 0 {
        if n == 0 {
            law_ack_recurrence(x, (m - 1) as nat, x);
        } else {
            law_ack_recurrence(x, m, (n - 1) as nat);
            law_ack_recurrence(x, (m - 1) as nat, ack_spec(x, m, (n - 1) as nat));
        }
    }
}

/// With `m = 1` the routine adds the register value and one: `A(1, n) =
/// x + n + 1` modulo 2^15, for every register value `x`.
pub proof fn law_ack_one(x: nat, n: nat)
    ensures
        ack_spec(x, 1, n) == (x + n + 1) % 32768,
    decreases n,
{
    if n == 0 {
        assert(ack_spec(x, 1, 0) == ack_spec(x, 0, x));
        assert(ack_spec(x, 0, x) == (x + 1) % 32768);
    } else {
        law_ack_one(x, (n - 1) as nat);
        let prev = ack_spec(x, 1, (n - 1) as nat);
        assert(prev == (x + n) % 32768);
        assert(ack_spec(x, 1, n) == ack_spec(x, 0, prev));
        assert(ack_spec(x, 0, prev) == (prev + 1) % 32768);
        vstd::arithmetic::div_mod::lemma_add_mod_noop((x + n) as int, 1, 32768);
        assert(1int % 32768 == 1);
        assert(((x + n) % 32768) % 32768 == (x + n) % 32768) by {
            vstd::arithmetic::div_mod::lemma_mod_twice((x + n) as int, 32768);
        }
    }
}

/// With `m = 2`: `A(2, n) = (n + 2) * x + n + 1` modulo 2^15, for every
/// register value `x`.
pub proof fn law_ack_two(x: nat, n: nat)
    ensures
        ack_spec(x, 2, n) == ((n + 2) * x + n + 1) % 32768,
    decreases n,
{
    if n == 0 {
        law_ack_one(x, x);
        assert((0nat + 2) * x == x + x) by (nonlinear_arith);
    } else {
        law_ack_two(x, (n - 1) as nat);
        let prev = ack_spec(x, 2, (n - 1) as nat);
        law_ack_one(x, prev);
        let a = ((n - 1 + 2) * x + (n - 1) + 1) as int;
        assert(prev == a % 32768);
        vstd::arithmetic::div_mod::lemma_add_mod_noop((x + 1) as int, a, 32768);
        vstd::arithmetic::div_mod::lemma_mod_twice((x + 1) as int, 32768);
        vstd::arithmetic::div_mod::lemma_add_mod_noop((x + 1) as int, prev as int, 32768);
        vstd::arithmetic::div_mod::lemma_mod_twice(a, 32768);
        assert((n + 1) * x + x == (n + 2) * x) by (nonlinear_arith);
        assert(x + 1 + a == (n + 2) * x + n + 1) by (nonlinear_arith)
            requires
                a == (n + 1) * x + n,
                (n + 1) * x + x == (n + 2) * x,
        ;
    }
}

/// The result by which the confirmation routine accepts the eighth register.
pub const CONFIRMATION: u16 = 6;

/// Whether a result of the confirmation routine accepts the register value.
pub fn confirms(a: u16) -> (r: bool)
    ensures
        r == (a == CONFIRMATION),
{
    a == CONFIRMATION
}

/// The key under which the result for `(m, n)` is remembered.
pub open spec fn memo_key(m: u16, n: u16) -> u32 {
    (m * 0x10000 + n) as u32
}

/// Memoised evaluation of `ack_spec` for one value of the eighth register.
pub struct MemAck {
    mem: HashMap<u32, u16>,
    x: u16,
}

impl MemAck {
    /// The value of the eighth register the results are computed for.
    pub closed spec fn register(&self) -> u16 {
        self.x
    }

    /// The remembered results, keyed by `memo_key`.
    pub closed spec fn memo(&self) -> Map<u32, u16> {
        self.mem@
    }

    /// Every remembered result is the right one.
    pub open spec fn wf(&self) -> bool {
        forall|m: u16, n: u16|
            #[trigger] self.memo().contains_key(memo_key(m, n)) ==> self.memo()[memo_key(m, n)]
                == ack_spec(self.register() as nat, m as nat, n as nat)
    }

    /// An empty memo for the register value 0.
    pub fn new() -> (r: MemAck)
        ensures
            r.wf(),
            r.register() == 0,
            r.memo() == Map::<u32, u16>::empty(),
    {
        MemAck { mem: HashMap::new(), x: 0 }
    }

    /// Forgets every remembered result and switches to the register value `x`.
    pub fn reset(&mut self, x: u16)
        ensures
            final(self).wf(),
            final(self).register() == x,
            final(self).memo() == Map::<u32, u16>::empty(),
    {
        self.mem.clear();
        self.x = x;
    }

    /// `ack_spec(x, m, n)` for the current register value `x`, remembering
    /// every result computed on the way.
    pub fn ack(&mut self, m: u16, n: u16) -> (r: u16)
        requires
            old(self).wf(),
        ensures
            final(self).wf(),
            final(self).register() == old(self).register(),
            r == ack_spec(old(self).register() as nat, m as nat, n as nat),
            final(self).memo().contains_key(memo_key(m, n)),
            old(self).memo().submap_of(final(self).memo()),
            old(self).memo().contains_key(memo_key(m, n)) ==> final(self).memo() == old(self).memo(),
        decreases m, n,
    {
        let key: u32 = m as u32 * 0x10000 + n as u32;
        assert(key == memo_key(m, n));
        let ghost m0 = self.memo();
        match self.mem.get(&key) {
            None => {
                assert(!m0.contains_key(key));
                let r: u16;
                if m == 0 {
                    r = ((n as u32 + 1) % MODULUS) as u16;
                } else if n == 0 {
                    let x = self.x;
                    r = self.ack(m - 1, x);
                } else {
                    let t = self.ack(m, n - 1);
                    let ghost m1 = self.memo();
                    r = self.ack(m - 1, t);
                    proof {
                        vstd::map_lib::lemma_submap_of_trans(m0, m1, self.memo());
                    }
                }
                let ghost prev = self.memo();
                assert(m0.submap_of(prev));
                self.mem.insert(key, r);
                assert(self.memo() == prev.insert(key, r));
                assert(m0.submap_of(self.memo())) by {
                    assert forall|k: u32| #[trigger] m0.contains_key(k) implies self.memo().contains_key(k)
                        && self.memo()[k] == m0[k] by {
                        assert(k != key);
                        assert(m0.dom().contains(k));
                        assert(prev.dom().contains(k));
                        assert(prev[k] == m0[k]);
                    }
                }
                proof {
                    assert forall|m2: u16, n2: u16|
                        #[trigger] self.memo().contains_key(memo_key(m2, n2)) implies self.memo()[memo_key(m2, n2)]
                            == ack_spec(self.register() as nat, m2 as nat, n2 as nat) by {
                        if memo_key(m2, n2) != key {
                            assert(prev.contains_key(memo_key(m2, n2)));
                        } else {
                            assert(m2 == m && n2 == n) by (nonlinear_arith)
                                requires
                                    memo_key(m2, n2) == key,
                                    key == m * 0x10000 + n,
                                    m2 <= 0xffff, n2 <= 0xffff, m <= 0xffff, n <= 0xffff,
                            {}
                        }
                    }
                }
                r
            },
            Some(r) => {
                assert(self.memo().contains_key(memo_key(m, n)));
                *r
            },
        }
    }
}

} // verus!
