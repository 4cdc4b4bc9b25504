use vstd::prelude::*;

verus! {

/// Unicode's `White_Space` property, which `char::is_whitespace` tests.
pub open spec fn is_whitespace_spec(c: char) -> bool {
    let x = c as u32;
    ||| 0x09 <= x <= 0x0d
    ||| x == 0x20
    ||| x == 0x85
    ||| x == 0xa0
    ||| x == 0x1680
    ||| 0x2000 <= x <= 0x200a
    ||| x == 0x2028
    ||| x == 0x2029
    ||| x == 0x202f
    ||| x == 0x205f
    ||| x == 0x3000
}

/// Whether `c` is white space in Unicode's sense.
pub fn is_whitespace(c: char) -> (r: bool)
    ensures
        r == is_whitespace_spec(c),
{
    let x = c as u32;
    (0x09 <= x && x <= 0x0d) || x == 0x20 || x == 0x85 || x == 0xa0 || x == 0x1680 || (0x2000 <= x
        && x <= 0x200a) || x == 0x2028 || x == 0x2029 || x == 0x202f || x == 0x205f || x == 0x3000
}

/// Number of white-space characters at the front of `s`.
pub open spec fn leading_ws(s: Seq<char>) -> nat
    decreases s.len(),
{
    if s.len() > 0 && is_whitespace_spec(s[0]) {
        1 + leading_ws(s.drop_first())
    } else {
        0
    }
}

/// Number of white-space characters at the end of `s`.
pub open spec fn trailing_ws(s: Seq<char>) -> nat
    decreases s.len(),
{
    if s.len() > 0 && is_whitespace_spec(s.last()) {
        1 + trailing_ws(s.drop_last())
    } else {
        0
    }
}

/// `s` without the white space at its ends, as `str::trim` gives it.
pub open spec fn trim_spec(s: Seq<char>) -> Seq<char> {
    let t = s.subrange(leading_ws(s) as int, s.len() as int);
    t.subrange(0, t.len() - trailing_ws(t))
}

/// The count of leading white space is the first index that is no white space.
proof fn lemma_leading_ws_is(s: Seq<char>, k: int)
    requires
        0 <= k <= s.len(),
        forall|i: int| 0 <= i < k ==> is_whitespace_spec(#[trigger] s[i]),
        k < s.len() ==> !is_whitespace_spec(s[k]),
    ensures
        leading_ws(s) == k,
    decreases s.len(),
{
    if k > 0 {
        assert(is_whitespace_spec(s[0]));
        let t = s.drop_first();
        assert forall|i: int| 0 <= i < k - 1 implies is_whitespace_spec(#[trigger] t[i]) by {
            assert(t[i] == s[i + 1]);
        }
        lemma_leading_ws_is(t, k - 1);
    }
}

/// The count of trailing white space is the distance from the last
/// character that is no white space to the end.
proof fn lemma_trailing_ws_is(s: Seq<char>, k: int)
    requires
        0 <= k <= s.len(),
        forall|i: int| s.len() - k <= i < s.len() ==> is_whitespace_spec(#[trigger] s[i]),
        k < s.len() ==> !is_whitespace_spec(s[s.len() - k - 1]),
    ensures
        trailing_ws(s) == k,
    decreases s.len(),
{
    if k > 0 {
        assert(is_whitespace_spec(s[s.len() - 1]));
        let t = s.drop_last();
        assert forall|i: int| t.len() - (k - 1) <= i < t.len() implies is_whitespace_spec(#[trigger] t[i]) by {
            assert(t[i] == s[i]);
        }
        lemma_trailing_ws_is(t, k - 1);
    }
}

/// `s` without the white space at its ends.
pub fn trim(s: &[char]) -> (r: Vec<char>)
    ensures
        r@ == trim_spec(s@),
{
    let n = s.len();
    let mut i: usize = 0;
    while i < n && is_whitespace(s[i])
        invariant
            n == s@.len(),
            i <= n,
            forall|k: int| 0 <= k < i ==> is_whitespace_spec(#[trigger] s@[k]),
        decreases n - i,
    {
        i += 1;
    }
    proof {
        lemma_leading_ws_is(s@, i as int);
    }
    let mut j: usize = n;
    while j > i && is_whitespace(s[j - 1])
        invariant
            n == s@.len(),
            i <= j <= n,
            forall|k: int| j <= k < n ==> is_whitespace_spec(#[trigger] s@[k]),
        decreases j,
    {
        j -= 1;
    }
    let ghost t = s@.subrange(i as int, n as int);
    proof {
        assert forall|k: int| t.len() - (n - j) <= k < t.len() implies is_whitespace_spec(#[trigger] t[k]) by {
            assert(t[k] == s@[i + k]);
        }
        if n - j < t.len() {
            assert(t[t.len() - (n - j) - 1] == s@[j - 1]);
        }
        lemma_trailing_ws_is(t, (n - j) as int);
    }
    let mut r: Vec<char> = Vec::new();
    let mut k: usize = i;
    while k < j
        invariant
            n == s@.len(),
            i <= k <= j <= n,
            r@ == s@.subrange(i as int, k as int),
        decreases j - k,
    {
        r.push(s[k]);
        assert(r@ =~= s@.subrange(i as int, (k + 1) as int));
        k += 1;
    }
    assert(r@ =~= trim_spec(s@));
    r
}

/// The white-space separated words of `s`, as `str::split_whitespace` gives them.
pub open spec fn split_ws_spec(s: Seq<char>) -> Seq<Seq<char>>
    decreases s.len(),
{
    if s.len() == 0 {
        Seq::empty()
    } else {
        let w = split_ws_spec(s.drop_last());
        let c = s.last();
        if is_whitespace_spec(c) {
            w
        } else if s.len() >= 2 && !is_whitespace_spec(s[s.len() - 2]) {
            w.update(w.len() - 1, w.last().push(c))
        } else {
            w.push(seq![c])
        }
    }
}

/// A text that ends in a character that is no white space has a last word,
/// and it ends in that character.
proof fn lemma_split_ws_last(s: Seq<char>)
    requires
        s.len() > 0,
        !is_whitespace_spec(s.last()),
    ensures
        split_ws_spec(s).len() > 0,
        split_ws_spec(s).last().len() > 0,
    decreases s.len(),
{
    if s.len() >= 2 && !is_whitespace_spec(s[s.len() - 2]) {
        let t = s.drop_last();
        assert(t.last() == s[s.len() - 2]);
        lemma_split_ws_last(t);
    }
}

/// Every word of a text has a character.
pub proof fn lemma_split_ws_nonempty(s: Seq<char>)
    ensures
        forall|q: int| 0 <= q < split_ws_spec(s).len() ==> #[trigger] split_ws_spec(s)[q].len() > 0,
    decreases s.len(),
{
    if s.len() > 0 {
        let t = s.drop_last();
        lemma_split_ws_nonempty(t);
        let w = split_ws_spec(t);
        let c = s.last();
        if is_whitespace_spec(c) {
        } else if s.len() >= 2 && !is_whitespace_spec(s[s.len() - 2]) {
            assert(t.last() == s[s.len() - 2]);
            lemma_split_ws_last(t);
            let u = w.update(w.len() - 1, w.last().push(c));
            assert forall|q: int| 0 <= q < u.len() implies #[trigger] u[q].len() > 0 by {
                if q < w.len() - 1 {
                    assert(u[q] == w[q]);
                }
            }
        } else {
            let u = w.push(seq![c]);
            assert forall|q: int| 0 <= q < u.len() implies #[trigger] u[q].len() > 0 by {
                if q < w.len() {
                    assert(u[q] == w[q]);
                }
            }
        }
    }
}

/// The white-space separated words of `s`.
pub fn split_whitespace(s: &[char]) -> (r: Vec<Vec<char>>)
    ensures
        r@.len() == split_ws_spec(s@).len(),
        forall|k: int| 0 <= k < r@.len() ==> #[trigger] r@[k]@ == split_ws_spec(s@)[k],
{
    let mut r: Vec<Vec<char>> = Vec::new();
    let mut i: usize = 0;
    assert(s@.take(0) =~= Seq::<char>::empty());
    while i < s.len()
        invariant
            i <= s@.len(),
            r@.len() == split_ws_spec(s@.take(i as int)).len(),
            forall|k: int| 0 <= k < r@.len() ==> #[trigger] r@[k]@ == split_ws_spec(s@.take(i as int))[k],
        decreases s@.len() - i,
    {
        let c = s[i];
        let ghost t = s@.take(i + 1);
        let ghost prev = split_ws_spec(s@.take(i as int));
        assert(t.drop_last() =~= s@.take(i as int));
        assert(t.last() == c);
        if is_whitespace(c) {
        } else if i > 0 && !is_whitespace(s[i - 1]) {
            assert(t[t.len() - 2] == s@[i - 1]);
            assert(s@.take(i as int).last() == s@[i - 1]);
            proof {
                lemma_split_ws_last(s@.take(i as int));
            }
            let mut last = r.pop().unwrap();
            last.push(c);
            r.push(last);
            assert(split_ws_spec(t) == prev.update(prev.len() - 1, prev.last().push(c)));
        } else {
            let mut w: Vec<char> = Vec::new();
            w.push(c);
            r.push(w);
            assert(w@ =~= seq![c]);
            assert(split_ws_spec(t) == prev.push(seq![c]));
        }
        i += 1;
    }
    assert(s@.take(i as int) =~= s@);
    r
}

/// The value of a string of decimal digits.
pub open spec fn digits_value(d: Seq<char>) -> nat
    decreases d.len(),
{
    if d.len() == 0 {
        0
    } else {
        10 * digits_value(d.drop_last()) + ((d.last() as u32) - ('0' as u32)) as nat
    }
}

/// Whether `c` is an ASCII decimal digit.
pub open spec fn is_digit(c: char) -> bool {
    '0' <= c <= '9'
}

/// Every character of `d` is an ASCII decimal digit.
pub open spec fn all_digits(d: Seq<char>) -> bool {
    forall|i: int| 0 <= i < d.len() ==> is_digit(#[trigger] d[i])
}

/// `s` without a leading `+`.
pub open spec fn unsigned_part(s: Seq<char>) -> Seq<char> {
    if s.len() > 0 && s[0] == '+' {
        s.drop_first()
    } else {
        s
    }
}

/// `s` parsed as a `u16` as `str::parse::<u16>` does: an optional `+`, then
/// at least one ASCII digit and nothing else, of value at most 65535.
pub open spec fn parse_u16_spec(s: Seq<char>) -> Option<u16> {
    let d = unsigned_part(s);
    if d.len() > 0 && all_digits(d) && digits_value(d) <= 0xffff {
        Some(digits_value(d) as u16)
    } else {
        None
    }
}

proof fn lemma_digits_value_grows(d: Seq<char>, k: int)
    requires
        0 <= k <= d.len(),
        forall|i: int| 0 <= i < d.len() ==> is_digit(#[trigger] d[i]),
    ensures
        digits_value(d.take(k)) <= digits_value(d),
    decreases d.len() - k,
{
    if k < d.len() {
        lemma_digits_value_grows(d, k + 1);
        let t = d.take(k + 1);
        assert(t.drop_last() =~= d.take(k));
        assert(t.last() == d[k]);
        assert(is_digit(d[k]));
        assert(digits_value(t) == 10 * digits_value(d.take(k)) + ((d[k] as u32) - ('0' as u32)) as nat);
    } else {
        assert(d.take(k) =~= d);
    }
}

/// Parses `s` as `str::parse::<u16>` does.
pub fn parse_u16(s: &[char]) -> (r: Option<u16>)
    ensures
        r == parse_u16_spec(s@),
{
    let n = s.len();
    let start: usize = if n > 0 && s[0] == '+' { 1 } else { 0 };
    let ghost d = unsigned_part(s@);
    assert(d =~= s@.skip(start as int));
    if start >= n {
        return None;
    }
    let mut v: u32 = 0;
    let mut i: usize = start;
    let mut all_digits = true;
    let mut too_big = false;
    while i < n
        invariant
            n == s@.len(),
            start <= i <= n,
            d == s@.skip(start as int),
            all_digits == (forall|k: int| start <= k < i ==> is_digit(#[trigger] s@[k])),
            !too_big && all_digits ==> v == digits_value(s@.subrange(start as int, i as int)),
            v <= 0xffff,
            too_big ==> all_digits ==> digits_value(s@.subrange(start as int, i as int)) > 0xffff,
        decreases n - i,
    {
        let c = s[i];
        let ghost t = s@.subrange(start as int, i + 1);
        assert(t.drop_last() =~= s@.subrange(start as int, i as int));
        assert(t.last() == c);
        if '0' <= c && c <= '9' {
            proof {
                if all_digits {
                    assert(digits_value(t) == 10 * digits_value(t.drop_last()) + ((c as u32) - ('0' as u32)) as nat);
                }
            }
            if !too_big {
                let nv = 10 * v + (c as u32 - '0' as u32);
                if nv > 0xffff {
                    too_big = true;
                } else {
                    v = nv;
                }
            }
        } else {
            all_digits = false;
        }
        i += 1;
    }
    assert(s@.subrange(start as int, n as int) =~= d);
    if !all_digits {
        assert(!(forall|k: int| 0 <= k < d.len() ==> is_digit(#[trigger] d[k]))) by {
            let k = choose|k: int| start <= k < n && !is_digit(#[trigger] s@[k]);
            assert(d[k - start] == s@[k]);
            assert(!is_digit(d[k - start]));
        }
        return None;
    }
    assert(forall|k: int| 0 <= k < d.len() ==> is_digit(#[trigger] d[k])) by {
        assert forall|k: int| 0 <= k < d.len() implies is_digit(#[trigger] d[k]) by {
            assert(d[k] == s@[k + start]);
        }
    }
    if too_big {
        assert(digits_value(d) > 0xffff);
        return None;
    }
    Some(v as u16)
}

/// The index of the first `c` in `s`, or the length of `s` when there is none.
pub open spec fn index_of(s: Seq<char>, c: char) -> nat
    decreases s.len(),
{
    if s.len() == 0 {
        0
    } else if s[0] == c {
        0
    } else {
        1 + index_of(s.drop_first(), c)
    }
}

/// The first `c` in `s` is at the first index where `c` is.
pub proof fn lemma_index_of_is(s: Seq<char>, c: char, k: int)
    requires
        0 <= k <= s.len(),
        forall|i: int| 0 <= i < k ==> #[trigger] s[i] != c,
        k < s.len() ==> s[k] == c,
    ensures
        index_of(s, c) == k,
    decreases s.len(),
{
    if k > 0 {
        assert(s[0] != c);
        let t = s.drop_first();
        assert forall|i: int| 0 <= i < k - 1 implies #[trigger] t[i] != c by {
            assert(t[i] == s[i + 1]);
        }
        lemma_index_of_is(t, c, k - 1);
    }
}

/// The index of the first `c` in `s`, if any.
pub fn find(s: &[char], c: char) -> (r: Option<usize>)
    ensures
        r == (if index_of(s@, c) < s@.len() { Some(index_of(s@, c) as usize) } else { None::<usize> }),
{
    let mut i: usize = 0;
    while i < s.len()
        invariant
            i <= s@.len(),
            forall|k: int| 0 <= k < i ==> #[trigger] s@[k] != c,
        decreases s@.len() - i,
    {
        if s[i] == c {
            proof {
                lemma_index_of_is(s@, c, i as int);
            }
            return Some(i);
        }
        i += 1;
    }
    proof {
        lemma_index_of_is(s@, c, i as int);
    }
    None
}

proof fn lemma_leading_ws_bound(s: Seq<char>)
    ensures
        leading_ws(s) <= s.len(),
        forall|i: int| 0 <= i < leading_ws(s) ==> is_whitespace_spec(#[trigger] s[i]),
        leading_ws(s) < s.len() ==> !is_whitespace_spec(s[leading_ws(s) as int]),
    decreases s.len(),
{
    if s.len() > 0 && is_whitespace_spec(s[0]) {
        lemma_leading_ws_bound(s.drop_first());
        assert forall|i: int| 0 <= i < leading_ws(s) implies is_whitespace_spec(#[trigger] s[i]) by {
            if i > 0 {
                assert(s[i] == s.drop_first()[i - 1]);
            }
        }
    }
}

proof fn lemma_trailing_ws_bound(s: Seq<char>)
    ensures
        trailing_ws(s) <= s.len(),
        forall|i: int| s.len() - trailing_ws(s) <= i < s.len() ==> is_whitespace_spec(#[trigger] s[i]),
        trailing_ws(s) < s.len() ==> !is_whitespace_spec(s[s.len() - trailing_ws(s) - 1]),
    decreases s.len(),
{
    if s.len() > 0 && is_whitespace_spec(s.last()) {
        lemma_trailing_ws_bound(s.drop_last());
        assert forall|i: int| s.len() - trailing_ws(s) <= i < s.len() implies is_whitespace_spec(#[trigger] s[i]) by {
            if i < s.len() - 1 {
                assert(s[i] == s.drop_last()[i]);
            }
        }
    }
}

/// Trimming keeps a run of `s` and drops only white space around it: what is
/// kept neither starts nor ends with white space.
pub proof fn law_trim(s: Seq<char>)
    ensures
        exists|p: int, q: int|
            #![trigger s.subrange(p, q)]
            0 <= p <= q <= s.len() && trim_spec(s) == s.subrange(p, q) && (forall|k: int|
                0 <= k < p ==> is_whitespace_spec(#[trigger] s[k])) && (forall|k: int|
                q <= k < s.len() ==> is_whitespace_spec(#[trigger] s[k])),
        trim_spec(s).len() > 0 ==> !is_whitespace_spec(trim_spec(s)[0]) && !is_whitespace_spec(
            trim_spec(s).last(),
        ),
{
    lemma_leading_ws_bound(s);
    let p = leading_ws(s) as int;
    let t = s.subrange(p, s.len() as int);
    lemma_trailing_ws_bound(t);
    let q = s.len() - trailing_ws(t);
    assert(trim_spec(s) =~= s.subrange(p, q));
    assert forall|k: int| q <= k < s.len() implies is_whitespace_spec(#[trigger] s[k]) by {
        assert(s[k] == t[k - p]);
    }
    if trim_spec(s).len() > 0 {
        assert(trim_spec(s)[0] == s[p]);
        assert(trim_spec(s).last() == t[t.len() - trailing_ws(t) - 1]);
    }
}

/// Decimal notation: the value of digits written after others is the value
/// of the first ones times ten to the number of the later ones, plus theirs;
/// a single digit stands for itself.
pub proof fn law_decimal(a: Seq<char>, b: Seq<char>)
    ensures
        digits_value(a + b) == digits_value(a) * vstd::arithmetic::power::pow(10, b.len()) + digits_value(b),
        b.len() == 1 && is_digit(b[0]) ==> digits_value(b) == b[0] as u32 - '0' as u32,
    decreases b.len(),
{
    reveal(vstd::arithmetic::power::pow);
    if b.len() == 0 {
        assert(a + b =~= a);
        assert(vstd::arithmetic::power::pow(10, 0) == 1);
        assert(digits_value(a) * 1 == digits_value(a));
    } else {
        let b1 = b.drop_last();
        law_decimal(a, b1);
        assert((a + b).drop_last() =~= a + b1);
        assert((a + b).last() == b.last());
        let p = vstd::arithmetic::power::pow(10, b1.len());
        assert(vstd::arithmetic::power::pow(10, b.len()) == 10 * p);
        let va = digits_value(a);
        let vb1 = digits_value(b1);
        assert(10 * (va * p + vb1) == va * (10 * p) + 10 * vb1) by (nonlinear_arith);
        let dig = ((b.last() as u32) - ('0' as u32)) as nat;
        assert(digits_value(a + b) == 10 * digits_value(a + b1) + dig);
        assert(digits_value(b) == 10 * vb1 + dig);
        if b.len() == 1 {
            assert(b1 =~= Seq::<char>::empty());
        }
    }
}

/// Parsing a number: an optional `+`, then decimal digits of value at most
/// 65535, gives that value; digits of a larger value, or any character that
/// is no digit, give nothing.
pub proof fn law_parse_u16(d: Seq<char>)
    ensures
        d.len() > 0 && all_digits(d) ==> parse_u16_spec(d) == (if digits_value(d) <= 65535 {
            Some(digits_value(d) as u16)
        } else {
            None
        }),
        parse_u16_spec(seq!['+'] + d) == (if d.len() > 0 && all_digits(d) && digits_value(d) <= 65535 {
            Some(digits_value(d) as u16)
        } else {
            None
        }),
        (exists|k: int| 0 <= k < d.len() && !is_digit(#[trigger] d[k]) && (k > 0 || d[k] != '+')) ==> parse_u16_spec(d) is None,
        parse_u16_spec(Seq::empty()) is None,
{
    assert((seq!['+'] + d).drop_first() =~= d);
    if exists|k: int| 0 <= k < d.len() && !is_digit(#[trigger] d[k]) && (k > 0 || d[k] != '+') {
        let k = choose|k: int| 0 <= k < d.len() && !is_digit(#[trigger] d[k]) && (k > 0 || d[k] != '+');
        let u = unsigned_part(d);
        if d.len() > 0 && d[0] == '+' {
            assert(k > 0);
            assert(u[k - 1] == d[k]);
        } else {
            assert(u[k] == d[k]);
        }
    }
}

/// The words one after the other, with nothing between them.
pub open spec fn concat_words(ws: Seq<Seq<char>>) -> Seq<char>
    decreases ws.len(),
{
    if ws.len() == 0 {
        Seq::empty()
    } else {
        concat_words(ws.drop_last()) + ws.last()
    }
}

/// The characters of `s` that are no white space, in order.
pub open spec fn non_ws(s: Seq<char>) -> Seq<char>
    decreases s.len(),
{
    if s.len() == 0 {
        Seq::empty()
    } else if is_whitespace_spec(s.last()) {
        non_ws(s.drop_last())
    } else {
        non_ws(s.drop_last()).push(s.last())
    }
}

/// How many words start in `s`: characters that are no white space and
/// either begin `s` or follow white space.
pub open spec fn word_starts(s: Seq<char>) -> nat
    decreases s.len(),
{
    if s.len() == 0 {
        0
    } else {
        word_starts(s.drop_last()) + if !is_whitespace_spec(s.last()) && (s.len() == 1
            || is_whitespace_spec(s[s.len() - 2])) {
            1nat
        } else {
            0nat
        }
    }
}

/// Splitting at white space: each word is a nonempty run without white space,
/// the words put together are the characters of `s` that are no white space,
/// and there is one word for each place where a word starts.
pub proof fn law_split_whitespace(s: Seq<char>)
    ensures
        forall|q: int, k: int|
            0 <= q < split_ws_spec(s).len() && 0 <= k < split_ws_spec(s)[q].len() ==> !is_whitespace_spec(
                #[trigger] split_ws_spec(s)[q][k],
            ),
        forall|q: int| 0 <= q < split_ws_spec(s).len() ==> #[trigger] split_ws_spec(s)[q].len() > 0,
        concat_words(split_ws_spec(s)) == non_ws(s),
        split_ws_spec(s).len() == word_starts(s),
    decreases s.len(),
{
    lemma_split_ws_nonempty(s);
    if s.len() > 0 {
        let t = s.drop_last();
        law_split_whitespace(t);
        let w = split_ws_spec(t);
        let c = s.last();
        if is_whitespace_spec(c) {
        } else if s.len() >= 2 && !is_whitespace_spec(s[s.len() - 2]) {
            assert(t.last() == s[s.len() - 2]);
            lemma_split_ws_last(t);
            let u = w.update(w.len() - 1, w.last().push(c));
            assert forall|q: int, k: int| 0 <= q < u.len() && 0 <= k < u[q].len() implies !is_whitespace_spec(#[trigger] u[q][k]) by {
                if q < w.len() - 1 {
                    assert(u[q] == w[q]);
                } else if k < w.last().len() {
                    assert(u[q][k] == w[q][k]);
                }
            }
            assert(u.drop_last() =~= w.drop_last());
            assert(concat_words(u) =~= concat_words(w).push(c));
        } else {
            let u = w.push(seq![c]);
            assert forall|q: int, k: int| 0 <= q < u.len() && 0 <= k < u[q].len() implies !is_whitespace_spec(#[trigger] u[q][k]) by {
                if q < w.len() {
                    assert(u[q] == w[q]);
                }
            }
            assert(u.drop_last() =~= w);
            assert(concat_words(u) =~= concat_words(w).push(c));
        }
    }
}

} // verus!
