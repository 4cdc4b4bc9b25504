use vstd::prelude::*;

verus! {

/// The value the equation on the ruins' wall must reach.
pub const TARGET: i64 = 399;

/// Five places in the equation, each an index of a coin.
pub type Choice = (usize, usize, usize, usize, usize);

/// The equation on the wall: `a + b * c^2 + d^3 - e`.
pub open spec fn equation(a: int, b: int, c: int, d: int, e: int) -> int {
    a + b * (c * c) + d * (d * d) - e
}

/// A choice of five coins whose values are pairwise distinct.
pub open spec fn distinct(v: Seq<i64>, t: Choice) -> bool {
    &&& t.0 < v.len() && t.1 < v.len() && t.2 < v.len() && t.3 < v.len() && t.4 < v.len()
    &&& v[t.0 as int] != v[t.1 as int] && v[t.0 as int] != v[t.2 as int] && v[t.0 as int] != v[t.3 as int]
        && v[t.0 as int] != v[t.4 as int]
    &&& v[t.1 as int] != v[t.2 as int] && v[t.1 as int] != v[t.3 as int] && v[t.1 as int] != v[t.4 as int]
    &&& v[t.2 as int] != v[t.3 as int] && v[t.2 as int] != v[t.4 as int]
    &&& v[t.3 as int] != v[t.4 as int]
}

/// A number that a 64-bit signed integer holds.
pub open spec fn fits(x: int) -> bool {
    i64::MIN <= x <= i64::MAX
}

/// The equation, computed left to right with `c^2` as `c * c` and `d^3` as
/// `d * (d * d)`, never leaves 64 bits.
pub open spec fn evaluates(a: int, b: int, c: int, d: int, e: int) -> bool {
    &&& fits(c * c)
    &&& fits(b * (c * c))
    &&& fits(a + b * (c * c))
    &&& fits(d * d)
    &&& fits(d * (d * d))
    &&& fits(a + b * (c * c) + d * (d * d))
    &&& fits(a + b * (c * c) + d * (d * d) - e)
}

/// The equation never leaves 64 bits on a choice of distinct coins.
pub open spec fn coins_evaluate(v: Seq<i64>) -> bool {
    forall|t: Choice|
        #[trigger] distinct(v, t) ==> evaluates(
            v[t.0 as int] as int,
            v[t.1 as int] as int,
            v[t.2 as int] as int,
            v[t.3 as int] as int,
            v[t.4 as int] as int,
        )
}

/// A choice of five coins that solves the puzzle: the indices name coins,
/// the five coins' values are pairwise distinct, and the equation holds.
pub open spec fn solves(v: Seq<i64>, t: Choice) -> bool {
    &&& distinct(v, t)
    &&& equation(
        v[t.0 as int] as int,
        v[t.1 as int] as int,
        v[t.2 as int] as int,
        v[t.3 as int] as int,
        v[t.4 as int] as int,
    ) == TARGET
}

/// The lexicographic order of choices.
pub open spec fn choice_lt(t: Choice, u: Choice) -> bool {
    ||| t.0 < u.0
    ||| t.0 == u.0 && t.1 < u.1
    ||| t.0 == u.0 && t.1 == u.1 && t.2 < u.2
    ||| t.0 == u.0 && t.1 == u.1 && t.2 == u.2 && t.3 < u.3
    ||| t.0 == u.0 && t.1 == u.1 && t.2 == u.2 && t.3 == u.3 && t.4 < u.4
}

/// `r` lists, in increasing order, exactly the solutions below `bound`.
pub open spec fn solutions_below(v: Seq<i64>, r: Seq<Choice>, bound: Choice) -> bool {
    &&& forall|i: int, k: int| 0 <= i < k < r.len() ==> choice_lt(#[trigger] r[i], #[trigger] r[k])
    &&& forall|t: Choice| #[trigger] r.contains(t) <==> solves(v, t) && choice_lt(t, bound)
}

/// Whether the choice solves the puzzle.
fn is_solution(v: &[i64], t: Choice) -> (r: bool)
    requires
        t.0 < v@.len() && t.1 < v@.len() && t.2 < v@.len() && t.3 < v@.len() && t.4 < v@.len(),
        coins_evaluate(v@),
    ensures
        r == solves(v@, t),
{
    let a = v[t.0];
    let b = v[t.1];
    let c = v[t.2];
    let d = v[t.3];
    let e = v[t.4];
    if a == b || a == c || a == d || a == e || b == c || b == d || b == e || c == d || c == e || d == e {
        return false;
    }
    assert(distinct(v@, t));
    let c2 = c * c;
    let bc2 = b * c2;
    let s1 = a + bc2;
    let d2 = d * d;
    let d3 = d * d2;
    let s2 = s1 + d3;
    let s3 = s2 - e;
    s3 == TARGET
}

/// Every choice of five coins, in lexicographic order of their indices, whose
/// values are pairwise distinct and solve the equation.
pub fn solve_ruins(v: &[i64]) -> (r: Vec<Choice>)
    requires
        coins_evaluate(v@),
    ensures
        forall|i: int, k: int| 0 <= i < k < r@.len() ==> choice_lt(#[trigger] r@[i], #[trigger] r@[k]),
        forall|t: Choice| #[trigger] r@.contains(t) <==> solves(v@, t),
{
    let n = v.len();
    let mut r: Vec<Choice> = Vec::new();
    let mut a: usize = 0;
    while a < n
        invariant
            n == v@.len(),
            coins_evaluate(v@),
            a <= n,
            solutions_below(v@, r@, (a, 0, 0, 0, 0)),
        decreases n - a,
    {
        let mut b: usize = 0;
        while b < n
            invariant
                n == v@.len(),
                coins_evaluate(v@),
                a < n,
                b <= n,
                solutions_below(v@, r@, (a, b, 0, 0, 0)),
            decreases n - b,
        {
            let mut c: usize = 0;
            while c < n
                invariant
                    n == v@.len(),
                    coins_evaluate(v@),
                    a < n,
                    b < n,
                    c <= n,
                    solutions_below(v@, r@, (a, b, c, 0, 0)),
                decreases n - c,
            {
                let mut d: usize = 0;
                while d < n
                    invariant
                        n == v@.len(),
                        coins_evaluate(v@),
                        a < n,
                        b < n,
                        c < n,
                        d <= n,
                        solutions_below(v@, r@, (a, b, c, d, 0)),
                    decreases n - d,
                {
                    let mut e: usize = 0;
                    while e < n
                        invariant
                            n == v@.len(),
                            coins_evaluate(v@),
                            a < n,
                            b < n,
                            c < n,
                            d < n,
                            e <= n,
                            solutions_below(v@, r@, (a, b, c, d, e)),
                        decreases n - e,
                    {
                        let t = (a, b, c, d, e);
                        let ghost before = r@;
                        if is_solution(v, t) {
                            r.push(t);
                            assert forall|u: Choice| #[trigger] r@.contains(u) <==> solves(v@, u) && choice_lt(u, (a, b, c, d, (e + 1) as usize)) by {
                                if r@.contains(u) && u != t {
                                    let k = choose|k: int| 0 <= k < r@.len() && r@[k] == u;
                                    assert(before.contains(u)) by {
                                        assert(before[k] == u);
                                    }
                                }
                                if solves(v@, u) && choice_lt(u, (a, b, c, d, (e + 1) as usize)) && u != t {
                                    assert(before.contains(u));
                                    let k = choose|k: int| 0 <= k < before.len() && before[k] == u;
                                    assert(r@[k] == u);
                                }
                                if u == t {
                                    assert(r@[r@.len() - 1] == t);
                                }
                            }
                            assert forall|i: int, k: int| 0 <= i < k < r@.len() implies choice_lt(#[trigger] r@[i], #[trigger] r@[k]) by {
                                if k == r@.len() - 1 {
                                    assert(before.contains(before[i]));
                                } else {
                                    assert(r@[i] == before[i] && r@[k] == before[k]);
                                }
                            }
                        } else {
                            assert forall|u: Choice| #[trigger] r@.contains(u) <==> solves(v@, u) && choice_lt(u, (a, b, c, d, (e + 1) as usize)) by {}
                        }
                        e += 1;
                    }
                    assert forall|u: Choice| #[trigger] r@.contains(u) <==> solves(v@, u) && choice_lt(u, (a, b, c, (d + 1) as usize, 0)) by {}
                    d += 1;
                }
                assert forall|u: Choice| #[trigger] r@.contains(u) <==> solves(v@, u) && choice_lt(u, (a, b, (c + 1) as usize, 0, 0)) by {}
                c += 1;
            }
            assert forall|u: Choice| #[trigger] r@.contains(u) <==> solves(v@, u) && choice_lt(u, (a, (b + 1) as usize, 0, 0, 0)) by {}
            b += 1;
        }
        assert forall|u: Choice| #[trigger] r@.contains(u) <==> solves(v@, u) && choice_lt(u, ((a + 1) as usize, 0, 0, 0, 0)) by {}
        a += 1;
    }
    assert forall|u: Choice| #[trigger] r@.contains(u) <==> solves(v@, u) by {}
    r
}

/// The equation is `a + b * c^2 + d^3 - e`, with powers as repeated products.
pub proof fn law_equation(a: int, b: int, c: int, d: int, e: int)
    ensures
        equation(a, b, c, d, e) == a + b * vstd::arithmetic::power::pow(c, 2) + vstd::arithmetic::power::pow(d, 3) - e,
{
    reveal(vstd::arithmetic::power::pow);
    assert(vstd::arithmetic::power::pow(c, 2) == c * c) by {
        reveal(vstd::arithmetic::power::pow);
        assert(vstd::arithmetic::power::pow(c, 0) == 1);
        assert(vstd::arithmetic::power::pow(c, 1) == c * 1);
    }
    assert(vstd::arithmetic::power::pow(d, 3) == d * (d * d)) by {
        reveal(vstd::arithmetic::power::pow);
        assert(vstd::arithmetic::power::pow(d, 0) == 1);
        assert(vstd::arithmetic::power::pow(d, 1) == d * 1);
        assert(vstd::arithmetic::power::pow(d, 2) == d * (d * 1));
    }
}

/// Distinct coins: the five values chosen are pairwise different.
pub proof fn law_distinct(v: Seq<i64>, t: Choice)
    ensures
        distinct(v, t) <==> {
            let ix = seq![t.0, t.1, t.2, t.3, t.4];
            &&& forall|p: int| 0 <= p < 5 ==> #[trigger] ix[p] < v.len()
            &&& forall|p: int, q: int|
                0 <= p < q < 5 ==> v[#[trigger] ix[p] as int] != v[#[trigger] ix[q] as int]
        },
{
    let ix = seq![t.0, t.1, t.2, t.3, t.4];
    assert(ix[0] == t.0 && ix[1] == t.1 && ix[2] == t.2 && ix[3] == t.3 && ix[4] == t.4);
}

} // verus!
