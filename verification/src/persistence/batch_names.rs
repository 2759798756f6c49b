//! The names of batch files: a batch of items from `start` up to `end` is
//! stored under the stem `start_end`, and the numbers in the stems of a
//! directory, sorted, give the ranges of the batches.

use super::ranges::strictly_sorted;
use vstd::prelude::*;
use vstd::string::StrSliceExecFns;

verus! {

/// Whether `c` is a decimal digit.
pub open spec fn is_digit(c: char) -> bool {
    '0' <= c <= '9'
}

/// The number written by the decimal digits `s`.
pub open spec fn digits_value(s: Seq<char>) -> int
    decreases s.len(),
{
    if s.len() == 0 {
        0
    } else {
        digits_value(s.drop_last()) * 10 + (s.last() as int - '0' as int)
    }
}

/// Whether every character of `s` is a decimal digit.
pub open spec fn all_digits(s: Seq<char>) -> bool {
    forall|i: int| 0 <= i < s.len() ==> is_digit(#[trigger] s[i])
}

/// `s` without the `+` it may start with.
pub open spec fn unsigned_part(s: Seq<char>) -> Seq<char> {
    if s.len() > 0 && s[0] == '+' {
        s.drop_first()
    } else {
        s
    }
}

/// The number that the digits `d` write, where there is at least one and
/// the value fits in a `usize`.
pub open spec fn parse_digits_spec(d: Seq<char>) -> Option<usize> {
    if d.len() > 0 && all_digits(d) && digits_value(d) <= usize::MAX {
        Some(digits_value(d) as usize)
    } else {
        None
    }
}

/// The number that `s` writes as `str::parse::<usize>` reads it: decimal
/// digits, at least one, after an optional `+`, of a value that fits.
pub open spec fn parse_usize_spec(s: Seq<char>) -> Option<usize> {
    parse_digits_spec(unsigned_part(s))
}

/// The position of the first `c` in `s`, or its length where there is none.
pub open spec fn find_char(s: Seq<char>, c: char) -> int
    decreases s.len(),
{
    if s.len() == 0 {
        0
    } else if s[0] == c {
        0
    } else {
        1 + find_char(s.drop_first(), c)
    }
}

/// The two numbers of a batch stem: the parts before the first `_` and
/// between it and the next `_` (or the end), each read as a `usize`.
pub open spec fn parse_stem_spec(s: Seq<char>) -> Option<(usize, usize)> {
    let a = find_char(s, '_');
    if a >= s.len() {
        None
    } else {
        let rest = s.subrange(a + 1, s.len() as int);
        let b = find_char(rest, '_');
        match (parse_usize_spec(s.subrange(0, a)), parse_usize_spec(rest.subrange(0, b))) {
            (Some(start), Some(end)) => Some((start, end)),
            _ => None,
        }
    }
}

proof fn lemma_digits_value_nonneg(s: Seq<char>)
    requires
        forall|i: int| 0 <= i < s.len() ==> is_digit(#[trigger] s[i]),
    ensures
        digits_value(s) >= 0,
    decreases s.len(),
{
    if s.len() > 0 {
        lemma_digits_value_nonneg(s.drop_last());
    }
}

proof fn lemma_digits_value_prefix(s: Seq<char>, j: int)
    requires
        forall|i: int| 0 <= i < s.len() ==> is_digit(#[trigger] s[i]),
        0 <= j <= s.len(),
    ensures
        0 <= digits_value(s.subrange(0, j)) <= digits_value(s),
    decreases s.len(),
{
    lemma_digits_value_nonneg(s);
    lemma_digits_value_nonneg(s.subrange(0, j));
    if j < s.len() {
        assert(s.drop_last().subrange(0, j) == s.subrange(0, j));
        lemma_digits_value_prefix(s.drop_last(), j);
        lemma_digits_value_nonneg(s.drop_last());
    } else {
        assert(s.subrange(0, j) == s);
    }
}

proof fn lemma_find_char(s: Seq<char>, c: char)
    ensures
        0 <= find_char(s, c) <= s.len(),
        forall|i: int| 0 <= i < find_char(s, c) ==> s[i] != c,
        find_char(s, c) < s.len() ==> s[find_char(s, c)] == c,
    decreases s.len(),
{
    if s.len() > 0 && s[0] != c {
        lemma_find_char(s.drop_first(), c);
        assert forall|i: int| 0 <= i < find_char(s, c) implies s[i] != c by {
            if i > 0 {
                assert(s[i] == s.drop_first()[i - 1]);
            }
        }
    }
}

/// The first position from `from` on, before `to`, that holds `c` in `s`,
/// or `to` where there is none.
fn find_in(s: &str, c: char, from: usize, to: usize) -> (r: usize)
    requires
        from <= to <= s@.len(),
    ensures
        from <= r <= to,
        forall|i: int| from <= i < r ==> s@[i] != c,
        r < to ==> s@[r as int] == c,
{
    let mut i = from;
    while i < to
        invariant
            from <= i <= to <= s@.len(),
            forall|j: int| from <= j < i ==> s@[j] != c,
        decreases to - i,
    {
        if s.get_char(i) == c {
            return i;
        }
        i = i + 1;
    }
    i
}

/// The number that the characters of `s` from `from` up to `to` write, as
/// `str::parse::<usize>` reads it.
fn parse_usize_in(s: &str, from: usize, to: usize) -> (r: Option<usize>)
    requires
        from <= to <= s@.len(),
    ensures
        r == parse_usize_spec(s@.subrange(from as int, to as int)),
{
    let ghost part = s@.subrange(from as int, to as int);
    let mut start = from;
    if from < to && s.get_char(from) == '+' {
        start = from + 1;
    }
    let ghost d = s@.subrange(start as int, to as int);
    assert(d == unsigned_part(part));
    if start >= to {
        return None;
    }
    let mut value: usize = 0;
    let mut i = start;
    while i < to
        invariant
            start <= i <= to <= s@.len(),
            d == s@.subrange(start as int, to as int),
            part == s@.subrange(from as int, to as int),
            d == unsigned_part(part),
            d.len() > 0,
            forall|j: int| start <= j < i ==> is_digit(#[trigger] s@[j]),
            value as int == digits_value(s@.subrange(start as int, i as int)),
        decreases to - i,
    {
        let c = s.get_char(i);
        let ghost prefix = s@.subrange(start as int, i + 1);
        assert(prefix.drop_last() == s@.subrange(start as int, i as int));
        assert(d[i - start] == c);
        if !('0' <= c && c <= '9') {
            assert(!is_digit(d[i - start]));
            return None;
        }
        assert(is_digit(s@[i as int]));
        let digit = (c as u32 - '0' as u32) as usize;
        assert(digits_value(prefix) == value * 10 + digit);
        match value.checked_mul(10) {
            Some(v) => match v.checked_add(digit) {
                Some(w) => {
                    value = w;
                },
                None => {
                    proof {
                        assert(forall|j: int| 0 <= j < i + 1 - start ==> #[trigger] prefix[j] == s@[start + j]);
                        assert(forall|j: int| 0 <= j < i + 1 - start ==> is_digit(#[trigger] prefix[j]));
                        assert(prefix == d.subrange(0, i + 1 - start));
                        if all_digits(d) {
                            lemma_digits_value_prefix(d, i + 1 - start);
                        }
                    }
                    return None;
                },
            },
            None => {
                proof {
                    lemma_digits_value_nonneg(s@.subrange(start as int, i as int));
                    assert(forall|j: int| 0 <= j < i + 1 - start ==> #[trigger] prefix[j] == s@[start + j]);
                    assert(prefix == d.subrange(0, i + 1 - start));
                    if all_digits(d) {
                        lemma_digits_value_prefix(d, i + 1 - start);
                    }
                }
                return None;
            },
        }
        i = i + 1;
    }
    assert(s@.subrange(start as int, i as int) == d);
    Some(value)
}

/// The two numbers of the batch stem `stem`, as `start_end`; nothing where
/// it has no `_` or a part is not a number.
pub fn parse_batch_stem(stem: &str) -> (r: Option<(usize, usize)>)
    ensures
        r == parse_stem_spec(stem@),
{
    let len = stem.unicode_len();
    let a = find_in(stem, '_', 0, len);
    proof {
        lemma_find_char(stem@, '_');
    }
    assert(a as int == find_char(stem@, '_')) by {
        if (a as int) < find_char(stem@, '_') {
        } else if (a as int) > find_char(stem@, '_') {
        }
    }
    if a >= len {
        return None;
    }
    let b = find_in(stem, '_', a + 1, len);
    proof {
        let rest = stem@.subrange(a + 1, len as int);
        lemma_find_char(rest, '_');
        assert(b - (a + 1) == find_char(rest, '_')) by {
            let f = find_char(rest, '_');
            if b - (a + 1) < f {
                assert(rest[b - (a + 1)] == stem@[b as int]);
            } else if b - (a + 1) > f {
                assert(rest[f] == stem@[a + 1 + f]);
            }
        }
        assert(rest.subrange(0, b - (a + 1)) == stem@.subrange(a + 1, b as int));
    }
    let start = parse_usize_in(stem, 0, a);
    let end = parse_usize_in(stem, a + 1, b);
    match (start, end) {
        (Some(s), Some(e)) => Some((s, e)),
        _ => None,
    }
}

/// Inserts `v` into the strictly sorted `r`, unless it is there already.
fn insert_sorted(r: &mut Vec<usize>, v: usize)
    requires
        strictly_sorted(old(r)@),
    ensures
        strictly_sorted(final(r)@),
        final(r)@.to_set() == old(r)@.to_set().insert(v),
{
    let mut i: usize = 0;
    while i < r.len() && r[i] < v
        invariant
            0 <= i <= r@.len(),
            strictly_sorted(r@),
            forall|j: int| 0 <= j < i ==> r@[j] < v,
        decreases r.len() - i,
    {
        i = i + 1;
    }
    if i < r.len() && r[i] == v {
        assert(r@.to_set() =~= r@.to_set().insert(v));
        return;
    }
    let ghost before = r@;
    r.insert(i, v);
    proof {
        assert(r@ == before.subrange(0, i as int).push(v) + before.subrange(i as int, before.len() as int));
        assert forall|x: usize| r@.to_set().contains(x) <==> before.to_set().insert(v).contains(x) by {
            if before.contains(x) {
                let j = choose|j: int| 0 <= j < before.len() && before[j] == x;
                if j < i {
                    assert(r@[j] == x);
                } else {
                    assert(r@[j + 1] == x);
                }
            }
            if r@.contains(x) {
                let j = choose|j: int| 0 <= j < r@.len() && r@[j] == x;
                if j < i {
                    assert(before[j] == x);
                } else if j > i {
                    assert(before[j - 1] == x);
                }
            }
            if x == v {
                assert(r@[i as int] == v);
            }
        }
        assert(r@.to_set() =~= before.to_set().insert(v));
    }
}

/// The numbers of all `pairs`, each once, in increasing order: the bounds
/// of the batches whose stems held them.
pub fn sorted_bounds(pairs: &Vec<(usize, usize)>) -> (r: Vec<usize>)
    ensures
        strictly_sorted(r@),
        r@.to_set() == Set::new(
            |v: usize| exists|i: int| 0 <= i < pairs@.len() && (pairs@[i].0 == v || pairs@[i].1 == v),
        ),
{
    let mut r: Vec<usize> = Vec::new();
    let n = pairs.len();
    for i in 0..n
        invariant
            n == pairs@.len(),
            strictly_sorted(r@),
            r@.to_set() == Set::new(
                |v: usize| exists|j: int| 0 <= j < i && (pairs@[j].0 == v || pairs@[j].1 == v),
            ),
    {
        let (s, e) = pairs[i];
        insert_sorted(&mut r, s);
        insert_sorted(&mut r, e);
        proof {
            assert(r@.to_set() =~= Set::new(
                |v: usize| exists|j: int| 0 <= j < i + 1 && (pairs@[j].0 == v || pairs@[j].1 == v),
            )) by {
                assert(pairs@[i as int] == (s, e));
            }
        }
    }
    r
}

} // verus!
