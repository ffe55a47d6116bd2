//! Character-level text operations used by the pipeline: removing every
//! occurrence of a marker and taking the text after the last occurrence.
use vstd::prelude::*;

verus! {

/// `p` occurs in `s` starting at index `i`.
pub open spec fn occurs_at(s: Seq<char>, i: int, p: Seq<char>) -> bool {
    0 <= i && i + p.len() <= s.len() && s.subrange(i, i + p.len()) == p
}

/// `s` with every occurrence of `p` removed, scanning from the left and
/// never letting two removed occurrences overlap.
pub open spec fn remove_all(s: Seq<char>, p: Seq<char>) -> Seq<char>
    decreases s.len(),
{
    if s.len() == 0 || p.len() == 0 {
        s
    } else if occurs_at(s, 0, p) {
        remove_all(s.subrange(p.len() as int, s.len() as int), p)
    } else {
        seq![s[0]] + remove_all(s.subrange(1, s.len() as int), p)
    }
}

/// The part of `s` that follows the last occurrence of `p`; all of `s`
/// when `p` does not occur.
pub open spec fn after_last(s: Seq<char>, p: Seq<char>) -> Seq<char> {
    if exists|i: int| occurs_at(s, i, p) {
        let k = choose|i: int|
            occurs_at(s, i, p) && forall|j: int| #[trigger] occurs_at(s, j, p) ==> j <= i;
        s.subrange(k + p.len(), s.len() as int)
    } else {
        s
    }
}

/// Removing a pattern that does not occur leaves the text as it is.
pub proof fn lemma_remove_absent(s: Seq<char>, p: Seq<char>)
    requires
        p.len() > 0,
        forall|i: int| !#[trigger] occurs_at(s, i, p),
    ensures
        remove_all(s, p) == s,
    decreases s.len(),
{
    if s.len() > 0 {
        let t = s.subrange(1, s.len() as int);
        assert forall|i: int| !#[trigger] occurs_at(t, i, p) by {
            if occurs_at(t, i, p) {
                assert(s.subrange(i + 1, i + 1 + p.len()) =~= t.subrange(i, i + p.len()));
                assert(occurs_at(s, i + 1, p));
            }
        }
        lemma_remove_absent(t, p);
        assert(s =~= seq![s[0]] + t);
    }
}

/// A pattern at the very start is removed.
pub proof fn lemma_remove_leading(p: Seq<char>, x: Seq<char>)
    requires
        p.len() > 0,
    ensures
        remove_all(p + x, p) == remove_all(x, p),
{
    let s = p + x;
    assert(s.subrange(0, p.len() as int) =~= p);
    assert(s.subrange(p.len() as int, s.len() as int) =~= x);
}

/// A pattern at the very end is removed when its first character does not
/// occur in the text before it.
pub proof fn lemma_remove_trailing(s: Seq<char>, p: Seq<char>)
    requires
        p.len() > 0,
        forall|i: int| 0 <= i < s.len() ==> s[i] != p[0],
    ensures
        remove_all(s + p, p) == s,
    decreases s.len(),
{
    let x = s + p;
    if s.len() == 0 {
        assert(x =~= p + Seq::<char>::empty());
        lemma_remove_leading(p, Seq::<char>::empty());
    } else {
        assert(x.subrange(0, p.len() as int)[0] == s[0]);
        let t = s.subrange(1, s.len() as int);
        assert(x.subrange(1, x.len() as int) =~= t + p);
        lemma_remove_trailing(t, p);
        assert(s =~= seq![s[0]] + t);
    }
}

/// Whether `p` (of `m` characters) occurs in `s` (of `n` characters) at `i`.
fn occurs_at_exec(s: &str, n: usize, i: usize, p: &str, m: usize) -> (r: bool)
    requires
        n == s@.len(),
        m == p@.len(),
        i <= n,
    ensures
        r == occurs_at(s@, i as int, p@),
{
    if m > n - i {
        return false;
    }
    let mut j: usize = 0;
    while j < m
        invariant
            i + m <= n,
            n == s@.len(),
            m == p@.len(),
            j <= m,
            forall|k: int| 0 <= k < j ==> s@[i + k] == p@[k],
        decreases m - j,
    {
        if s.get_char(i + j) != p.get_char(j) {
            assert(s@.subrange(i as int, i + m)[j as int] != p@[j as int]);
            return false;
        }
        j = j + 1;
    }
    assert(s@.subrange(i as int, i + m) =~= p@);
    true
}

/// Whether the two texts are equal.
pub fn same_text(a: &str, b: &str) -> (r: bool)
    ensures
        r == (a@ == b@),
{
    let n = a.unicode_len();
    let m = b.unicode_len();
    if n != m {
        return false;
    }
    let r = occurs_at_exec(a, n, 0, b, m);
    assert(a@.subrange(0, n as int) =~= a@);
    r
}

/// Removes every occurrence of `pattern` from `s`, as `remove_all` describes.
pub fn remove_occurrences(s: &str, pattern: &str) -> (r: String)
    requires
        pattern@.len() > 0,
    ensures
        r@ == remove_all(s@, pattern@),
{
    let n = s.unicode_len();
    let m = pattern.unicode_len();
    let mut out = String::new();
    let mut i: usize = 0;
    assert(s@.subrange(0, n as int) =~= s@);
    while i < n
        invariant
            n == s@.len(),
            m == pattern@.len(),
            m > 0,
            i <= n,
            out@ + remove_all(s@.subrange(i as int, n as int), pattern@) == remove_all(
                s@,
                pattern@,
            ),
        decreases n - i,
    {
        let rest = Ghost(s@.subrange(i as int, n as int));
        if occurs_at_exec(s, n, i, pattern, m) {
            assert(rest@.subrange(0, m as int) =~= s@.subrange(i as int, i + m));
            assert(rest@.subrange(m as int, rest@.len() as int) =~= s@.subrange(
                i + m,
                n as int,
            ));
            i = i + m;
        } else {
            assert(!occurs_at(rest@, 0, pattern@)) by {
                if m <= rest@.len() {
                    assert(rest@.subrange(0, m as int) =~= s@.subrange(i as int, i + m));
                }
            }
            let ghost before = out@;
            let c = s.substring_char(i, i + 1);
            out.append(c);
            let ghost tail = s@.subrange(i + 1, n as int);
            assert(rest@.subrange(1, rest@.len() as int) =~= tail);
            assert(c@ =~= seq![rest@[0]]);
            assert(before + remove_all(rest@, pattern@) =~= out@ + remove_all(tail, pattern@));
            i = i + 1;
        }
    }
    assert(s@.subrange(n as int, n as int) =~= Seq::<char>::empty());
    out
}

/// The text of `s` after the last occurrence of `marker`, or all of `s`
/// when the marker does not occur.
pub fn text_after_last(s: &str, marker: &str) -> (r: String)
    ensures
        r@ == after_last(s@, marker@),
{
    let n = s.unicode_len();
    let m = marker.unicode_len();
    if m <= n {
        let mut k: usize = n - m;
        if occurs_at_exec(s, n, k, marker, m) {
            let r = s.substring_char(k + m, n);
            return String::from_str(r);
        }
        while k > 0
            invariant
                n == s@.len(),
                m == marker@.len(),
                m <= n,
                k <= n - m,
                forall|j: int| k <= j ==> !#[trigger] occurs_at(s@, j, marker@),
            decreases k,
        {
            let i = k - 1;
            if occurs_at_exec(s, n, i, marker, m) {
                assert(occurs_at(s@, i as int, marker@) && forall|j: int|
                    #[trigger] occurs_at(s@, j, marker@) ==> j <= i);
                let r = s.substring_char(i + m, n);
                return String::from_str(r);
            }
            k = i;
        }
    }
    assert forall|j: int| !#[trigger] occurs_at(s@, j, marker@) by {}
    String::from_str(s)
}

} // verus!
