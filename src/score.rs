//! Annotation scores as exact fixed-point numbers: a score is held in
//! thousandths of a point, read from the decimal text of a JSON number.
use vstd::prelude::*;

verus! {

/// Largest score accepted, in thousandths of a point.
pub const MAX_SCORE: u64 = 1_000_000_000_000_000;

/// Largest whole-point part of a score that can still be accepted.
pub const MAX_WHOLE_POINTS: u64 = 1_000_000_000_000;

pub open spec fn is_digit(c: char) -> bool {
    '0' <= c && c <= '9'
}

pub open spec fn all_digits(s: Seq<char>) -> bool {
    forall|i: int| 0 <= i < s.len() ==> is_digit(#[trigger] s[i])
}

/// The number that the decimal digits `s` write (most significant first).
pub open spec fn digits_value(s: Seq<char>) -> int
    decreases s.len(),
{
    if s.len() == 0 {
        0
    } else {
        digits_value(s.drop_last()) * 10 + (s.last() as int - '0' as int)
    }
}

/// Thousandths written by the fraction digits `f`: the first three of them,
/// padded with zeros; any further digits are dropped.
pub open spec fn fraction_thousandths(f: Seq<char>) -> int {
    if f.len() >= 3 {
        digits_value(f.subrange(0, 3))
    } else if f.len() == 2 {
        digits_value(f) * 10
    } else if f.len() == 1 {
        digits_value(f) * 100
    } else {
        0
    }
}

/// `t` is `digits '.' digits` with the point at index `k`.
pub open spec fn point_at(t: Seq<char>, k: int) -> bool {
    0 < k < t.len() - 1 && t[k] == '.' && all_digits(t.take(k)) && all_digits(t.skip(k + 1))
}

/// The value, in thousandths, of a plain decimal text (`12`, `7.5`); `None`
/// for any other text (a sign, an exponent, a missing digit).
pub open spec fn decimal_thousandths(t: Seq<char>) -> Option<int> {
    if t.len() > 0 && all_digits(t) {
        Some(digits_value(t) * 1000)
    } else if exists|k: int| point_at(t, k) {
        let k = choose|k: int| point_at(t, k);
        Some(digits_value(t.take(k)) * 1000 + fraction_thousandths(t.skip(k + 1)))
    } else {
        None
    }
}

/// The score that a number's text stands for, when it is a plain decimal
/// of at most `MAX_SCORE` thousandths.
pub open spec fn score_of_text(t: Seq<char>) -> Option<u64> {
    match decimal_thousandths(t) {
        Some(v) => if v <= MAX_SCORE {
            Some(v as u64)
        } else {
            None
        },
        None => None,
    }
}

proof fn lemma_digits_value_nonneg(s: Seq<char>)
    requires
        all_digits(s),
    ensures
        digits_value(s) >= 0,
    decreases s.len(),
{
    if s.len() > 0 {
        assert(all_digits(s.drop_last()));
        lemma_digits_value_nonneg(s.drop_last());
        assert(is_digit(s[s.len() - 1]));
    }
}

/// Reads a score from the text of a JSON number, as `score_of_text` says.
pub fn parse_score(t: &str) -> (r: Option<u64>)
    ensures
        r == score_of_text(t@),
{
    let n = t.unicode_len();
    if n == 0 {
        return None;
    }
    let mut whole: u64 = 0;
    let mut too_big = false;
    let mut k: usize = 0;
    while k < n && '0' <= t.get_char(k) && t.get_char(k) <= '9'
        invariant
            n == t@.len(),
            k <= n,
            all_digits(t@.take(k as int)),
            too_big ==> digits_value(t@.take(k as int)) > MAX_WHOLE_POINTS,
            !too_big ==> whole == digits_value(t@.take(k as int)) && whole <= MAX_WHOLE_POINTS,
        decreases n - k,
    {
        let c = t.get_char(k);
        let ghost prev = t@.take(k as int);
        proof {
            assert(t@.take(k + 1).drop_last() =~= prev);
            lemma_digits_value_nonneg(prev);
        }
        if !too_big {
            whole = whole * 10 + (c as u64 - '0' as u64);
            if whole > MAX_WHOLE_POINTS {
                too_big = true;
            }
        }
        k = k + 1;
        assert(all_digits(t@.take(k as int)));
    }
    if k == n {
        assert(t@.take(n as int) =~= t@);
        assert(!exists|j: int| point_at(t@, j)) by {
            if exists|j: int| point_at(t@, j) {
                let j = choose|j: int| point_at(t@, j);
                assert(t@.take(n as int)[j] == t@[j]);
            }
        }
        if too_big {
            return None;
        }
        return Some(whole * 1000);
    }
    // t[k] is the first character that is not a digit
    assert(!is_digit(t@[k as int]));
    assert(!all_digits(t@));
    assert forall|j: int| point_at(t@, j) implies j == k by {
        if j < k {
            assert(t@.take(k as int)[j] == t@[j]);
        } else if j > k {
            assert(t@.take(j)[k as int] == t@[k as int]);
        }
    }
    if k == 0 || k + 1 >= n || t.get_char(k) != '.' {
        return None;
    }
    let mut frac: u64 = 0;
    let mut j: usize = k + 1;
    while j < n
        invariant
            n == t@.len(),
            0 < k < j <= n,
            all_digits(t@.subrange(k + 1, j as int)),
            frac == digits_value(t@.subrange(k + 1, if j <= k + 4 { j as int } else { k + 4 })),
            frac < 1000,
            j <= k + 1 ==> frac == 0,
            j == k + 2 ==> frac < 10,
            j == k + 3 ==> frac < 100,
            t@[k as int] == '.',
            !all_digits(t@),
            all_digits(t@.take(k as int)),
            forall|i: int| point_at(t@, i) ==> i == k,
            too_big ==> digits_value(t@.take(k as int)) > MAX_WHOLE_POINTS,
            !too_big ==> whole == digits_value(t@.take(k as int)) && whole <= MAX_WHOLE_POINTS,
        decreases n - j,
    {
        let c = t.get_char(j);
        if c < '0' || c > '9' {
            assert(t@.skip(k + 1)[j - k - 1] == c);
            assert(!is_digit(t@.skip(k + 1)[j - k - 1]));
            assert(!point_at(t@, k as int));
            return None;
        }
        if j - k < 4 {
            assert(t@.subrange(k + 1, j + 1).drop_last() =~= t@.subrange(k + 1, j as int));
            assert(frac * 10 + 9 < 1000);
            frac = frac * 10 + (c as u64 - '0' as u64);
        }
        j = j + 1;
        assert(all_digits(t@.subrange(k + 1, j as int)));
    }
    let ghost f = t@.skip(k + 1);
    assert(f =~= t@.subrange(k + 1, n as int));
    assert(point_at(t@, k as int));
    let scaled = if n - k - 1 >= 3 {
        assert(f.subrange(0, 3) =~= t@.subrange(k + 1, k + 4));
        frac
    } else if n - k - 1 == 2 {
        frac * 10
    } else {
        frac * 100
    };
    if too_big {
        return None;
    }
    let v = whole * 1000 + scaled;
    if v > MAX_SCORE {
        None
    } else {
        Some(v)
    }
}

} // verus!
