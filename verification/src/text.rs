//! Utilities for building lines of text as vectors of characters.
//!
//! All rendering in this crate accumulates text as `Vec<char>`, so that
//! lengths in contracts are always character counts.

use vstd::prelude::*;

verus! {

use vstd::string::StrSliceExecFns;

/// A sequence of `n` copies of the character `c`.
pub open spec fn repeat_char(c: char, n: nat) -> Seq<char> {
    Seq::new(n, |i: int| c)
}

/// The decimal digit character for a value below ten.
pub open spec fn digit_char(d: nat) -> char {
    if d == 0 { '0' }
    else if d == 1 { '1' }
    else if d == 2 { '2' }
    else if d == 3 { '3' }
    else if d == 4 { '4' }
    else if d == 5 { '5' }
    else if d == 6 { '6' }
    else if d == 7 { '7' }
    else if d == 8 { '8' }
    else { '9' }
}

/// The usual decimal rendering of `n`, most significant digit first.
pub open spec fn dec_digits(n: nat) -> Seq<char>
    decreases n,
{
    if n < 10 {
        seq![digit_char(n)]
    } else {
        dec_digits(n / 10).push(digit_char(n % 10))
    }
}

/// Append every character of `s` to `out`.
pub fn append_str(out: &mut Vec<char>, s: &str)
    ensures
        final(out)@ == old(out)@ + s@,
{
    let n = s.unicode_len();
    let mut i: usize = 0;
    while i < n
        invariant
            n == s@.len(),
            i <= n,
            out@ == old(out)@ + s@.subrange(0, i as int),
        decreases n - i,
    {
        let c = s.get_char(i);
        out.push(c);
        i = i + 1;
        proof {
            assert(out@ =~= old(out)@ + s@.subrange(0, i as int));
        }
    }
    proof {
        assert(out@ =~= old(out)@ + s@);
    }
}

/// Append every character of the slice `s` to `out`.
pub fn append_chars(out: &mut Vec<char>, s: &[char])
    ensures
        final(out)@ == old(out)@ + s@,
{
    let mut i: usize = 0;
    while i < s.len()
        invariant
            i <= s.len(),
            out@ == old(out)@ + s@.subrange(0, i as int),
        decreases s.len() - i,
    {
        out.push(s[i]);
        i = i + 1;
        proof {
            assert(out@ =~= old(out)@ + s@.subrange(0, i as int));
        }
    }
    proof {
        assert(out@ =~= old(out)@ + s@);
    }
}

/// Append `n` copies of `c` to `out`.
pub fn append_repeat(out: &mut Vec<char>, c: char, n: usize)
    ensures
        final(out)@ == old(out)@ + repeat_char(c, n as nat),
{
    let mut i: usize = 0;
    while i < n
        invariant
            i <= n,
            out@ == old(out)@ + repeat_char(c, i as nat),
        decreases n - i,
    {
        out.push(c);
        i = i + 1;
        proof {
            assert(out@ =~= old(out)@ + repeat_char(c, i as nat));
        }
    }
    proof {
        assert(out@ =~= old(out)@ + repeat_char(c, n as nat));
    }
}

/// Whether two character slices hold the same characters.
pub fn chars_eq(a: &[char], b: &[char]) -> (r: bool)
    ensures
        r == (a@ == b@),
{
    if a.len() != b.len() {
        proof {
            assert(a@ != b@);
        }
        return false;
    }
    let mut i: usize = 0;
    while i < a.len()
        invariant
            i <= a.len(),
            a@.len() == b@.len(),
            forall|j: int| 0 <= j < i ==> a@[j] == b@[j],
        decreases a.len() - i,
    {
        if a[i] != b[i] {
            proof {
                assert(a@[i as int] != b@[i as int]);
            }
            return false;
        }
        i = i + 1;
    }
    proof {
        assert(a@ =~= b@);
    }
    true
}

/// Reversing after appending one element puts that element first.
proof fn lemma_reverse_push(s: Seq<char>, c: char)
    ensures
        s.push(c).reverse() =~= seq![c] + s.reverse(),
{
    let l = s.push(c).reverse();
    let r = seq![c] + s.reverse();
    assert forall|j: int| 0 <= j < l.len() implies l[j] == r[j] by {
        if j == 0 {
            assert(l[0] == s.push(c)[s.len() as int]);
        } else {
            assert(l[j] == s.push(c)[s.len() - j]);
            assert(s.reverse()[j - 1] == s[s.len() - j]);
        }
    }
}

/// Append the decimal rendering of `n` to `out`.
pub fn append_dec(out: &mut Vec<char>, n: usize)
    ensures
        final(out)@ == old(out)@ + dec_digits(n as nat),
{
    let mut rev: Vec<char> = Vec::new();
    let mut m: usize = n;
    loop
        invariant_except_break
            dec_digits(n as nat) == dec_digits(m as nat) + rev@.reverse(),
        ensures
            dec_digits(n as nat) == rev@.reverse(),
        decreases m,
    {
        let ghost prev_m = m as nat;
        let ghost prev_rev = rev@;
        let d: usize = m % 10;
        let c = digit_of(d);
        rev.push(c);
        m = m / 10;
        proof {
            lemma_reverse_push(prev_rev, digit_char(prev_m % 10));
        }
        if m == 0 {
            proof {
                assert(prev_m < 10);
                assert(dec_digits(prev_m) =~= seq![digit_char(prev_m)]);
                assert(dec_digits(n as nat) =~= rev@.reverse());
            }
            break;
        }
        proof {
            assert(prev_m >= 10);
            assert(dec_digits(prev_m) == dec_digits(prev_m / 10).push(digit_char(prev_m % 10)));
            assert(dec_digits(prev_m) =~= dec_digits(m as nat) + seq![digit_char(prev_m % 10)]);
            assert(dec_digits(n as nat) =~= dec_digits(m as nat) + rev@.reverse());
        }
    }
    append_rev(out, &rev);
    proof {
        assert(out@ =~= old(out)@ + dec_digits(n as nat));
    }
}

/// The digit character of a value below ten.
fn digit_of(d: usize) -> (c: char)
    requires
        d < 10,
    ensures
        c == digit_char(d as nat),
{
    if d == 0 { '0' }
    else if d == 1 { '1' }
    else if d == 2 { '2' }
    else if d == 3 { '3' }
    else if d == 4 { '4' }
    else if d == 5 { '5' }
    else if d == 6 { '6' }
    else if d == 7 { '7' }
    else if d == 8 { '8' }
    else { '9' }
}

/// Append the characters of `s` in reverse order.
fn append_rev(out: &mut Vec<char>, s: &Vec<char>)
    ensures
        final(out)@ == old(out)@ + s@.reverse(),
{
    let mut i: usize = s.len();
    while i > 0
        invariant
            i <= s.len(),
            out@ == old(out)@ + s@.subrange(i as int, s@.len() as int).reverse(),
        decreases i,
    {
        i = i - 1;
        out.push(s[i]);
        proof {
            let sub = s@.subrange(i as int, s@.len() as int);
            assert(out@ =~= old(out)@ + sub.reverse()) by {
                let prev = s@.subrange(i + 1, s@.len() as int);
                assert(sub.reverse().len() == sub.len());
                assert(forall|j: int| 0 <= j < sub.len()
                    ==> sub.reverse()[j] == sub[sub.len() - 1 - j]);
                assert(forall|j: int| 0 <= j < prev.len()
                    ==> prev.reverse()[j] == prev[prev.len() - 1 - j]);
                assert(sub.reverse() =~= prev.reverse() + seq![s@[i as int]]);
            };
        }
    }
    proof {
        assert(s@.subrange(0, s@.len() as int) =~= s@);
    }
}


/// Whether `c` is one of the blank characters trimmed around directives.
pub open spec fn is_blank(c: char) -> bool {
    c == ' ' || c == '\t' || c == '\n' || c == '\r'
}

/// `s` with every leading and trailing blank character removed.
pub open spec fn trimmed(s: Seq<char>) -> Seq<char>
    decreases s.len(),
{
    if s.len() > 0 && is_blank(s.first()) {
        trimmed(s.drop_first())
    } else if s.len() > 0 && is_blank(s.last()) {
        trimmed(s.drop_last())
    } else {
        s
    }
}

/// Whether `c` is a blank character.
pub fn blank(c: char) -> (r: bool)
    ensures
        r == is_blank(c),
{
    c == ' ' || c == '\t' || c == '\n' || c == '\r'
}

/// The copy of `s` with leading and trailing blanks removed.
pub fn trim_blanks(s: &[char]) -> (r: Vec<char>)
    ensures
        r@ == trimmed(s@),
{
    let mut lo: usize = 0;
    let mut hi: usize = s.len();
    proof {
        assert(s@.subrange(0, s@.len() as int) =~= s@);
    }
    while lo < hi && blank(s[lo])
        invariant
            lo <= hi <= s.len(),
            trimmed(s@) == trimmed(s@.subrange(lo as int, hi as int)),
        decreases hi - lo,
    {
        proof {
            let cur = s@.subrange(lo as int, hi as int);
            assert(cur.drop_first() =~= s@.subrange(lo as int + 1, hi as int));
        }
        lo = lo + 1;
    }
    while lo < hi && blank(s[hi - 1])
        invariant
            lo <= hi <= s.len(),
            trimmed(s@) == trimmed(s@.subrange(lo as int, hi as int)),
            lo < hi ==> !is_blank(s@[lo as int]),
        decreases hi - lo,
    {
        proof {
            let cur = s@.subrange(lo as int, hi as int);
            assert(cur.drop_last() =~= s@.subrange(lo as int, hi as int - 1));
        }
        hi = hi - 1;
    }
    let mut r: Vec<char> = Vec::new();
    let mut i: usize = lo;
    while i < hi
        invariant
            lo <= i <= hi <= s.len(),
            r@ == s@.subrange(lo as int, i as int),
        decreases hi - i,
    {
        r.push(s[i]);
        i = i + 1;
        proof {
            assert(r@ =~= s@.subrange(lo as int, i as int));
        }
    }
    proof {
        let cur = s@.subrange(lo as int, hi as int);
        assert(trimmed(cur) == cur);
        assert(r@ =~= cur);
    }
    r
}

/// Whether the characters of `a` spell exactly the string `s`.
pub fn eq_str(a: &[char], s: &str) -> (r: bool)
    ensures
        r == (a@ == s@),
{
    let n = s.unicode_len();
    if a.len() != n {
        proof {
            assert(a@ != s@);
        }
        return false;
    }
    let mut i: usize = 0;
    while i < n
        invariant
            i <= n,
            n == s@.len(),
            a@.len() == n,
            forall|j: int| 0 <= j < i ==> a@[j] == s@[j],
        decreases n - i,
    {
        if a[i] != s.get_char(i) {
            proof {
                assert(a@[i as int] != s@[i as int]);
            }
            return false;
        }
        i = i + 1;
    }
    proof {
        assert(a@ =~= s@);
    }
    true
}

} // verus!

