//! Character-sequence helpers shared by the parsers of this crate.

use vstd::prelude::*;
use vstd::std_specs::iter::IteratorSpec;

verus! {

/// Whether `n` occurs in `h` starting at position `i`.
pub open spec fn matches_at(h: Seq<char>, n: Seq<char>, i: int) -> bool {
    0 <= i && i + n.len() <= h.len() && h.subrange(i, i + n.len()) == n
}

/// Whether `n` occurs anywhere in `h`.
pub open spec fn has_substring(h: Seq<char>, n: Seq<char>) -> bool {
    exists|i: int| matches_at(h, n, i)
}

/// The characters of `s`, in order.
pub fn chars_of(s: &str) -> (r: Vec<char>)
    ensures
        r@ == s@,
{
    broadcast use vstd::string::group_string_axioms, vstd::string::next_postcondition;

    let mut it = s.chars();
    let mut r: Vec<char> = Vec::new();
    loop
        invariant
            r@ + it.remaining() == s@,
            it.decrease() is Some,
        decreases it.decrease()->0,
    {
        match it.next() {
            Some(c) => {
                r.push(c);
                assert(r@ + it.remaining() =~= s@);
            },
            None => {
                assert(r@ =~= s@);
                return r;
            },
        }
    }
}

/// Relies on collecting characters into a `String`: the string holds exactly `v`.
#[verifier::external_body]
pub(crate) fn string_of(v: &[char]) -> (r: String)
    ensures
        r@ == v@,
{
    v.iter().collect()
}

/// Whether `n` occurs in `h` at position `i`.
pub fn matches_at_exec(h: &Vec<char>, n: &Vec<char>, i: usize) -> (r: bool)
    ensures
        r == matches_at(h@, n@, i as int),
{
    if i > h.len() || n.len() > h.len() - i {
        return false;
    }
    let mut k: usize = 0;
    while k < n.len()
        invariant
            i + n.len() <= h.len(),
            k <= n.len(),
            forall|j: int| 0 <= j < k ==> h@[i + j] == n@[j],
        decreases n.len() - k,
    {
        if h[i + k] != n[k] {
            proof {
                assert(h@.subrange(i as int, i + n.len())[k as int] != n@[k as int]);
            }
            return false;
        }
        k = k + 1;
    }
    assert(h@.subrange(i as int, i + n.len()) =~= n@);
    true
}

/// Whether `n` occurs anywhere in `h`.
pub fn contains(h: &Vec<char>, n: &Vec<char>) -> (r: bool)
    ensures
        r == has_substring(h@, n@),
{
    if n.len() > h.len() {
        return false;
    }
    let last = h.len() - n.len();
    let mut i: usize = 0;
    loop
        invariant
            n.len() <= h.len(),
            last == h.len() - n.len(),
            i <= last,
            forall|j: int| 0 <= j < i ==> !matches_at(h@, n@, j),
        decreases last - i,
    {
        if matches_at_exec(h, n, i) {
            return true;
        }
        if i == last {
            assert forall|j: int| !matches_at(h@, n@, j) by {
                if 0 <= j && j <= last {
                }
            }
            return false;
        }
        i = i + 1;
    }
}


/// The first position at or after `i` where `d` occurs in `s`, or -1.
pub open spec fn find_from(s: Seq<char>, d: Seq<char>, i: int) -> int
    decreases s.len() + 1 - i,
{
    if i < 0 || i + d.len() > s.len() {
        -1
    } else if matches_at(s, d, i) {
        i
    } else {
        find_from(s, d, i + 1)
    }
}

/// The pieces of `s` from position `start` on, cut at each occurrence of the
/// non-empty delimiter `d`, scanning left to right.
pub open spec fn split_from(s: Seq<char>, d: Seq<char>, start: int) -> Seq<Seq<char>>
    decreases s.len() - start,
{
    if d.len() == 0 || start < 0 || start > s.len() {
        seq![]
    } else {
        let m = find_from(s, d, start);
        if m < start || m + d.len() > s.len() {
            seq![s.subrange(start, s.len() as int)]
        } else {
            seq![s.subrange(start, m)] + split_from(s, d, m + d.len())
        }
    }
}

/// `s` cut at each occurrence of the non-empty delimiter `d`.
pub open spec fn split(s: Seq<char>, d: Seq<char>) -> Seq<Seq<char>> {
    split_from(s, d, 0)
}

/// The views of a sequence of character vectors.
pub open spec fn views(v: Seq<Vec<char>>) -> Seq<Seq<char>> {
    v.map_values(|x: Vec<char>| x@)
}

proof fn lemma_find_from_bounds(s: Seq<char>, d: Seq<char>, i: int)
    ensures
        find_from(s, d, i) == -1 || (i <= find_from(s, d, i) && matches_at(
            s,
            d,
            find_from(s, d, i),
        )),
    decreases s.len() + 1 - i,
{
    if i < 0 || i + d.len() > s.len() {
    } else if matches_at(s, d, i) {
    } else {
        lemma_find_from_bounds(s, d, i + 1);
    }
}

/// Cutting at a non-empty delimiter gives at least one piece.
pub proof fn lemma_split_nonempty(s: Seq<char>, d: Seq<char>)
    requires
        d.len() > 0,
    ensures
        split(s, d).len() >= 1,
{
    reveal_with_fuel(split_from, 2);
}

/// Copies `s[from..to]`.
pub fn slice_chars(s: &Vec<char>, from: usize, to: usize) -> (r: Vec<char>)
    requires
        from <= to <= s.len(),
    ensures
        r@ == s@.subrange(from as int, to as int),
{
    let mut r: Vec<char> = Vec::new();
    let mut k: usize = from;
    while k < to
        invariant
            from <= k <= to <= s.len(),
            r@ == s@.subrange(from as int, k as int),
        decreases to - k,
    {
        r.push(s[k]);
        k = k + 1;
        assert(r@ =~= s@.subrange(from as int, k as int));
    }
    r
}

/// Cuts `s` at each occurrence of the non-empty delimiter `d`, as `str::split` does.
pub fn split_by(s: &Vec<char>, d: &Vec<char>) -> (r: Vec<Vec<char>>)
    requires
        d.len() > 0,
    ensures
        views(r@) == split(s@, d@),
{
    let mut acc: Vec<Vec<char>> = Vec::new();
    let mut start: usize = 0;
    let mut i: usize = 0;
    loop
        invariant
            d.len() > 0,
            start <= i <= s.len(),
            find_from(s@, d@, start as int) == find_from(s@, d@, i as int),
            views(acc@) + split_from(s@, d@, start as int) == split(s@, d@),
        decreases s.len() - start, s.len() - i,
    {
        if s.len() < d.len() || i > s.len() - d.len() {
            let piece = slice_chars(s, start, s.len());
            proof {
                assert(find_from(s@, d@, i as int) == -1);
                assert(split_from(s@, d@, start as int) == seq![s@.subrange(start as int, s.len() as int)]);
            }
            let ghost before = acc@;
            acc.push(piece);
            proof {
                assert(views(acc@) =~= views(before) + seq![piece@]);
                assert(views(acc@) =~= views(before) + split_from(s@, d@, start as int));
            }
            return acc;
        }
        if matches_at_exec(s, d, i) {
            let piece = slice_chars(s, start, i);
            proof {
                lemma_find_from_bounds(s@, d@, start as int);
                assert(split_from(s@, d@, start as int) == seq![s@.subrange(start as int, i as int)]
                    + split_from(s@, d@, i + d.len()));
            }
            let ghost before = acc@;
            acc.push(piece);
            proof {
                assert(views(acc@) =~= views(before) + seq![piece@]);
                assert(views(before) + split_from(s@, d@, start as int) =~= views(acc@)
                    + split_from(s@, d@, i + d.len()));
            }
            start = i + d.len();
            i = start;
        } else {
            i = i + 1;
        }
    }
}


/// Whether `c` is an ASCII decimal digit.
pub open spec fn is_digit(c: char) -> bool {
    '0' <= c <= '9'
}

/// Whether `s` is a non-empty run of decimal digits.
pub open spec fn all_digits(s: Seq<char>) -> bool {
    s.len() > 0 && forall|i: int| 0 <= i < s.len() ==> is_digit(#[trigger] s[i])
}

/// The value of a run of decimal digits.
pub open spec fn digits_value(s: Seq<char>) -> int
    decreases s.len(),
{
    if s.len() == 0 {
        0
    } else {
        digits_value(s.drop_last()) * 10 + (s.last() as int - '0' as int)
    }
}

/// The integer that `s` spells: an optional `+` or `-` followed by decimal digits.
pub open spec fn decimal_of(s: Seq<char>) -> Option<int> {
    if s.len() > 0 && s[0] == '-' && all_digits(s.drop_first()) {
        Some(-digits_value(s.drop_first()))
    } else if s.len() > 0 && s[0] == '+' && all_digits(s.drop_first()) {
        Some(digits_value(s.drop_first()))
    } else if all_digits(s) {
        Some(digits_value(s))
    } else {
        None
    }
}

/// What `str::parse::<i64>` gives for `s`: the value spelled, if it fits.
pub open spec fn i64_of(s: Seq<char>) -> Option<i64> {
    match decimal_of(s) {
        Some(v) => if i64::MIN <= v <= i64::MAX {
            Some(v as i64)
        } else {
            None
        },
        None => None,
    }
}

proof fn lemma_digits_value_grows(s: Seq<char>, i: int, j: int)
    requires
        0 <= i <= j <= s.len(),
        forall|k: int| 0 <= k < s.len() ==> is_digit(#[trigger] s[k]),
    ensures
        0 <= digits_value(s.subrange(0, i)) <= digits_value(s.subrange(0, j)),
    decreases j - i,
{
    if i < j {
        lemma_digits_value_grows(s, i, j - 1);
        assert(s.subrange(0, j).drop_last() =~= s.subrange(0, j - 1));
    } else {
        lemma_digits_value_nonneg(s.subrange(0, i));
    }
}

proof fn lemma_digits_value_nonneg(s: Seq<char>)
    requires
        forall|k: int| 0 <= k < s.len() ==> is_digit(#[trigger] s[k]),
    ensures
        0 <= digits_value(s),
    decreases s.len(),
{
    if s.len() > 0 {
        lemma_digits_value_nonneg(s.drop_last());
    }
}

/// The value of the digits `s[from..]`, if they are all digits, there is at
/// least one, and the value is at most `bound`.
fn digits_upto(s: &Vec<char>, from: usize, bound: u64) -> (r: Option<u64>)
    requires
        from <= s.len(),
        9 <= bound,
    ensures
        r matches Some(v) ==> v <= bound && all_digits(s@.subrange(from as int, s.len() as int)) && v
            == digits_value(s@.subrange(from as int, s.len() as int)),
        r is None ==> !all_digits(s@.subrange(from as int, s.len() as int)) || digits_value(
            s@.subrange(from as int, s.len() as int),
        ) > bound,
{
    let ghost t = s@.subrange(from as int, s.len() as int);
    if from == s.len() {
        return None;
    }
    let mut k: usize = from;
    let mut acc: u64 = 0;
    while k < s.len()
        invariant
            from <= k <= s.len(),
            t == s@.subrange(from as int, s.len() as int),
            acc <= bound,
            9 <= bound,
            forall|j: int| from <= j < k ==> is_digit(#[trigger] s@[j]),
            acc == digits_value(t.subrange(0, k - from)),
        decreases s.len() - k,
    {
        let c = s[k];
        if !('0' <= c && c <= '9') {
            assert(!is_digit(t[k - from]));
            return None;
        }
        proof {
            assert(t.subrange(0, k + 1 - from).drop_last() =~= t.subrange(0, k - from));
        }
        let dv = (c as u32 - '0' as u32) as u64;
        if acc > (bound - dv) / 10 {
            proof {
                let p = t.subrange(0, k + 1 - from);
                assert(digits_value(p) == acc * 10 + dv);
                assert(acc * 10 + dv > bound) by (nonlinear_arith)
                    requires
                        acc > (bound - dv) / 10,
                        dv <= 9,
                        9 <= bound,
                ;
                if all_digits(t) {
                    lemma_digits_value_grows(t, k + 1 - from, t.len() as int);
                    assert(t.subrange(0, t.len() as int) =~= t);
                }
            }
            return None;
        }
        acc = acc * 10 + dv;
        k = k + 1;
        assert(acc == digits_value(t.subrange(0, k - from)));
    }
    proof {
        assert(t.subrange(0, k - from) =~= t);
        assert forall|j: int| 0 <= j < t.len() implies is_digit(#[trigger] t[j]) by {
            assert(t[j] == s@[from + j]);
        }
    }
    Some(acc)
}


/// Reads a decimal integer as `str::parse::<i64>` does: an optional sign, then
/// digits only, and a value that fits.
pub fn parse_i64(s: &Vec<char>) -> (r: Option<i64>)
    ensures
        r == i64_of(s@),
{
    if s.len() > 0 && (s[0] == '-' || s[0] == '+') {
        let negative = s[0] == '-';
        proof {
            assert(s@.subrange(1, s.len() as int) =~= s@.drop_first());
            assert(!is_digit(s@[0]));
        }
        let bound: u64 = if negative { 9223372036854775808 } else { 9223372036854775807 };
        match digits_upto(s, 1, bound) {
            Some(v) => {
                if negative {
                    if v == 9223372036854775808 {
                        Some(i64::MIN)
                    } else {
                        Some(-(v as i64))
                    }
                } else {
                    Some(v as i64)
                }
            },
            None => None,
        }
    } else {
        proof {
            assert(s@.subrange(0, s.len() as int) =~= s@);
        }
        match digits_upto(s, 0, 9223372036854775807) {
            Some(v) => Some(v as i64),
            None => None,
        }
    }
}


/// Whether two character vectors are equal.
pub fn chars_eq(a: &Vec<char>, b: &Vec<char>) -> (r: bool)
    ensures
        r == (a@ == b@),
{
    if a.len() != b.len() {
        return false;
    }
    let mut k: usize = 0;
    while k < a.len()
        invariant
            a.len() == b.len(),
            k <= a.len(),
            forall|j: int| 0 <= j < k ==> a@[j] == b@[j],
        decreases a.len() - k,
    {
        if a[k] != b[k] {
            return false;
        }
        k = k + 1;
    }
    assert(a@ =~= b@);
    true
}

/// Whether two strings hold the same characters.
pub fn text_eq(a: &str, b: &str) -> (r: bool)
    ensures
        r == (a@ == b@),
{
    let x = chars_of(a);
    let y = chars_of(b);
    chars_eq(&x, &y)
}


/// `s` cut at each occurrence of the character `d`, as strings.
pub fn split_text(s: &str, d: char) -> (r: Vec<String>)
    ensures
        r@.map_values(|x: String| x@) == split(s@, seq![d]),
{
    let cs = chars_of(s);
    let dv: Vec<char> = vec![d];
    assert(dv@ =~= seq![d]);
    let pieces = split_by(&cs, &dv);
    let mut out: Vec<String> = Vec::new();
    let mut i: usize = 0;
    while i < pieces.len()
        invariant
            i <= pieces.len(),
            out@.map_values(|x: String| x@) == views(pieces@).take(i as int),
        decreases pieces.len() - i,
    {
        let ghost o0 = out@;
        let x = string_of(pieces[i].as_slice());
        out.push(x);
        assert(out@.map_values(|x: String| x@) =~= o0.map_values(|x: String| x@).push(x@));
        assert(views(pieces@).take(i + 1) =~= views(pieces@).take(i as int).push(pieces@[i as int]@));
        i = i + 1;
    }
    assert(views(pieces@).take(i as int) =~= views(pieces@));
    out
}

} // verus!
