//! Small parsers over character sequences: each reads from a position and
//! gives a value and the position after it.
use vstd::prelude::*;

use crate::info::{hex_val, hex_value};

verus! {

/// The first position at or after `i` that holds `a` or `b`, or the end.
pub open spec fn run_end(s: Seq<char>, i: int, a: char, b: char) -> int
    decreases s.len() - i,
{
    if i < 0 || i >= s.len() {
        s.len() as int
    } else if s[i] == a || s[i] == b {
        i
    } else {
        run_end(s, i + 1, a, b)
    }
}

pub fn run_end_exec(s: &[char], i: usize, a: char, b: char) -> (r: usize)
    requires
        i <= s@.len(),
    ensures
        r == run_end(s@, i as int, a, b),
        i <= r <= s@.len(),
{
    let mut j = i;
    while j < s.len() && s[j] != a && s[j] != b
        invariant
            i <= j <= s@.len(),
            run_end(s@, i as int, a, b) == run_end(s@, j as int, a, b),
        decreases s@.len() - j,
    {
        j = j + 1;
    }
    j
}

/// Whether `lit` stands in `s` at `i`.
pub open spec fn has_at(s: Seq<char>, i: int, lit: Seq<char>) -> bool {
    0 <= i && i + lit.len() <= s.len() && s.subrange(i, i + lit.len()) == lit
}

pub fn has_at_exec(s: &[char], i: usize, lit: &[char]) -> (r: bool)
    requires
        i <= s@.len(),
    ensures
        r == has_at(s@, i as int, lit@),
{
    let n = s.len();
    if lit.len() > n - i {
        return false;
    }
    let mut k: usize = 0;
    while k < lit.len()
        invariant
            n == s@.len(),
            i + lit@.len() <= s@.len(),
            k <= lit@.len(),
            forall|m: int| 0 <= m < k ==> s@[i + m] == lit@[m],
        decreases lit@.len() - k,
    {
        if s[i + k] != lit[k] {
            assert(s@.subrange(i as int, i + lit@.len())[k as int] != lit@[k as int]);
            return false;
        }
        k = k + 1;
    }
    assert(s@.subrange(i as int, i + lit@.len()) =~= lit@);
    true
}

/// A maximal non-empty run of characters other than `a` and `b`.
pub open spec fn is_not_at(s: Seq<char>, i: int, a: char, b: char) -> Option<(Seq<char>, int)> {
    let j = run_end(s, i, a, b);
    if j <= i {
        None
    } else {
        Some((s.subrange(i, j), j))
    }
}

pub fn is_not_exec(s: &[char], i: usize, a: char, b: char) -> (r: Option<(Vec<char>, usize)>)
    requires
        i <= s@.len(),
    ensures
        match is_not_at(s@, i as int, a, b) {
            Some((v, j)) => match r {
                Some(p) => p.0@ == v && p.1 == j && j <= s@.len(),
                None => false,
            },
            None => r is None,
        },
{
    let j = run_end_exec(s, i, a, b);
    if j <= i {
        None
    } else {
        Some((vstd::slice::slice_to_vec(&s[i..j]), j))
    }
}

pub open spec fn is_digit(c: char) -> bool {
    '0' <= c <= '9'
}

/// The first position at or after `i` that is not a decimal digit.
pub open spec fn digits_end(s: Seq<char>, i: int) -> int
    decreases s.len() - i,
{
    if i < 0 || i >= s.len() || !is_digit(s[i]) {
        i
    } else {
        digits_end(s, i + 1)
    }
}

pub open spec fn dec_value(s: Seq<char>) -> nat
    decreases s.len(),
{
    if s.len() == 0 {
        0
    } else {
        dec_value(s.drop_last()) * 10 + (s.last() as nat - '0' as nat) as nat
    }
}

/// A non-empty run of decimal digits whose value fits 32 bits.
pub open spec fn dec32_at(s: Seq<char>, i: int) -> Option<(u32, int)> {
    let j = digits_end(s, i);
    if j <= i || dec_value(s.subrange(i, j)) >= 0x1_0000_0000 {
        None
    } else {
        Some((dec_value(s.subrange(i, j)) as u32, j))
    }
}

pub proof fn lemma_dec_value_grows(s: Seq<char>, i: int)
    requires
        0 <= i <= s.len(),
    ensures
        dec_value(s.subrange(0, i)) <= dec_value(s),
    decreases s.len() - i,
{
    if i < s.len() {
        lemma_dec_value_grows(s, i + 1);
        assert(s.subrange(0, i + 1).drop_last() =~= s.subrange(0, i));
    } else {
        assert(s.subrange(0, i) =~= s);
    }
}

pub fn dec32_exec(s: &[char], i: usize) -> (r: Option<(u32, usize)>)
    requires
        i <= s@.len(),
    ensures
        match dec32_at(s@, i as int) {
            Some((v, j)) => match r {
                Some(p) => p.0 == v && p.1 == j && j <= s@.len(),
                None => false,
            },
            None => r is None,
        },
{
    let n = s.len();
    let mut j = i;
    while j < n && '0' <= s[j] && s[j] <= '9'
        invariant
            n == s@.len(),
            i <= j <= s@.len(),
            digits_end(s@, i as int) == digits_end(s@, j as int),
            forall|m: int| i <= m < j ==> is_digit(#[trigger] s@[m]),
        decreases s@.len() - j,
    {
        j = j + 1;
    }
    if j == i {
        return None;
    }
    let ghost d = s@.subrange(i as int, j as int);
    let mut acc: u64 = 0;
    let mut k = i;
    while k < j
        invariant
            n == s@.len(),
            j == digits_end(s@, i as int),
            i <= k <= j <= s@.len(),
            d == s@.subrange(i as int, j as int),
            forall|m: int| i <= m < j ==> is_digit(#[trigger] s@[m]),
            acc == dec_value(d.subrange(0, k - i)),
            acc < 0x1_0000_0000,
        decreases j - k,
    {
        assert(d.subrange(0, k - i + 1).drop_last() =~= d.subrange(0, k - i));
        assert(is_digit(s@[k as int]));
        acc = acc * 10 + (s[k] as u64 - '0' as u64);
        k = k + 1;
        if acc >= 0x1_0000_0000 {
            proof {
                lemma_dec_value_grows(d, k - i);
            }
            return None;
        }
    }
    assert(d.subrange(0, k - i) =~= d);
    Some((acc as u32, j))
}

/// The first position at or after `i` that is not a hexadecimal digit.
pub open spec fn hex_end(s: Seq<char>, i: int) -> int
    decreases s.len() - i,
{
    if i < 0 || i >= s.len() || hex_val(s[i]) is None {
        i
    } else {
        hex_end(s, i + 1)
    }
}

/// A non-empty run of hexadecimal digits whose value fits 128 bits.
pub open spec fn hex128_at(s: Seq<char>, i: int) -> Option<(u128, int)> {
    let j = hex_end(s, i);
    if j <= i || hex_value(s.subrange(i, j)) >= 0x1_0000_0000_0000_0000_0000_0000_0000_0000 {
        None
    } else {
        Some((hex_value(s.subrange(i, j)) as u128, j))
    }
}

fn hex_digit_value(c: char) -> (r: Option<u128>)
    ensures
        match hex_val(c) {
            Some(v) => r == Some(v as u128),
            None => r is None,
        },
{
    if '0' <= c && c <= '9' {
        Some((c as u32 - '0' as u32) as u128)
    } else if 'a' <= c && c <= 'f' {
        Some((c as u32 - 'a' as u32 + 10) as u128)
    } else if 'A' <= c && c <= 'F' {
        Some((c as u32 - 'A' as u32 + 10) as u128)
    } else {
        None
    }
}

pub fn hex128_exec(s: &[char], i: usize) -> (r: Option<(u128, usize)>)
    requires
        i <= s@.len(),
    ensures
        match hex128_at(s@, i as int) {
            Some((v, j)) => match r {
                Some(p) => p.0 == v && p.1 == j && j <= s@.len(),
                None => false,
            },
            None => r is None,
        },
{
    let n = s.len();
    let mut j = i;
    while j < n && hex_digit_value(s[j]).is_some()
        invariant
            n == s@.len(),
            i <= j <= s@.len(),
            hex_end(s@, i as int) == hex_end(s@, j as int),
            forall|m: int| i <= m < j ==> (#[trigger] hex_val(s@[m])) is Some,
        decreases s@.len() - j,
    {
        j = j + 1;
    }
    if j == i {
        return None;
    }
    let ghost d = s@.subrange(i as int, j as int);
    let mut acc: u128 = 0;
    let mut k = i;
    while k < j
        invariant
            n == s@.len(),
            j == hex_end(s@, i as int),
            i <= k <= j <= s@.len(),
            d == s@.subrange(i as int, j as int),
            forall|m: int| i <= m < j ==> (#[trigger] hex_val(s@[m])) is Some,
            acc == hex_value(d.subrange(0, k - i)),
        decreases j - k,
    {
        assert(d.subrange(0, k - i + 1).drop_last() =~= d.subrange(0, k - i));
        let v = match hex_digit_value(s[k]) {
            Some(v) => v,
            None => {
                assert(false);
                0
            },
        };
        if acc > (u128::MAX - v) / 16 {
            proof {
                crate::info::lemma_hex_value_grows(d, k - i + 1);
                assert(acc * 16 + v > u128::MAX) by (nonlinear_arith)
                    requires
                        acc > (u128::MAX - v) / 16,
                        v < 16,
                ;
            }
            return None;
        }
        acc = acc * 16 + v;
        k = k + 1;
    }
    assert(d.subrange(0, k - i) =~= d);
    Some((acc, j))
}

/// An optional hexadecimal number: absent where none can be read here.
pub open spec fn opt_hex128_at(s: Seq<char>, i: int) -> (Option<u128>, int) {
    match hex128_at(s, i) {
        Some((v, j)) => (Some(v), j),
        None => (None, i),
    }
}

/// Whether `c` stands at `i`.
pub open spec fn char_at(s: Seq<char>, i: int, c: char) -> bool {
    0 <= i < s.len() && s[i] == c
}

} // verus!
