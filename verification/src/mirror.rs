use vstd::prelude::*;

verus! {

/// A character as seen in a mirror: `p` and `q` trade places.
pub open spec fn mirrored_char(c: char) -> char {
    if c == 'q' {
        'p'
    } else if c == 'p' {
        'q'
    } else {
        c
    }
}

/// A text as seen in a mirror: reversed, with `p` and `q` traded.
pub open spec fn mirror_spec(s: Seq<char>) -> Seq<char> {
    Seq::new(s.len(), |i: int| mirrored_char(s[s.len() - 1 - i]))
}

/// The code written on the mirror, read as it appears in it.
pub fn mirror(line: &[char]) -> (r: Vec<char>)
    ensures
        r@ == mirror_spec(line@),
{
    let n = line.len();
    let mut r: Vec<char> = Vec::new();
    let mut i: usize = 0;
    while i < n
        invariant
            n == line@.len(),
            i <= n,
            r@.len() == i,
            forall|k: int| 0 <= k < i ==> #[trigger] r@[k] == mirrored_char(line@[n - 1 - k]),
        decreases n - i,
    {
        let c = line[n - 1 - i];
        let m = if c == 'q' {
            'p'
        } else if c == 'p' {
            'q'
        } else {
            c
        };
        r.push(m);
        i += 1;
    }
    assert(r@ =~= mirror_spec(line@));
    r
}

/// Looking twice in the mirror gives the text back.
pub proof fn lemma_mirror_involution(s: Seq<char>)
    ensures
        mirror_spec(mirror_spec(s)) == s,
{
    assert(mirror_spec(mirror_spec(s)) =~= s);
}

/// What the mirror shows: the text back to front, where a `p` is seen as a
/// `q` and a `q` as a `p`, and every other character as itself.
pub proof fn law_mirror(s: Seq<char>)
    ensures
        mirror_spec(s).len() == s.len(),
        forall|i: int|
            0 <= i < s.len() ==> {
                let c = #[trigger] s[s.len() - 1 - i];
                let m = mirror_spec(s)[i];
                &&& (c == 'p' <==> m == 'q')
                &&& (c == 'q' <==> m == 'p')
                &&& (c != 'p' && c != 'q' ==> m == c)
            },
{
}

} // verus!
