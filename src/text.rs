//! Character-level helpers shared by the parsers: conversion between
//! strings and character vectors, and number syntax.
use vstd::prelude::*;

verus! {

/// Relies on `str::chars` collected into a `Vec`: one entry per character, in order.
#[verifier::external_body]
pub(crate) fn chars_of(s: &str) -> (r: Vec<char>)
    ensures
        r@ == s@,
{
    s.chars().collect()
}

/// Relies on `FromIterator<&char> for String`: the string of exactly these characters.
#[verifier::external_body]
pub(crate) fn string_from_chars(c: &[char]) -> (r: String)
    ensures
        r@ == c@,
{
    c.iter().collect()
}

/// An ASCII decimal digit, or with `hex` also `a`-`f` / `A`-`F`.
pub open spec fn is_digit_in(c: char, hex: bool) -> bool {
    ('0' <= c && c <= '9') || (hex && (('a' <= c && c <= 'f') || ('A' <= c && c <= 'F')))
}

pub open spec fn digit_val(c: char) -> nat {
    if '0' <= c && c <= '9' {
        (c as u32 - '0' as u32) as nat
    } else if 'a' <= c && c <= 'f' {
        (c as u32 - 'a' as u32 + 10) as nat
    } else if 'A' <= c && c <= 'F' {
        (c as u32 - 'A' as u32 + 10) as nat
    } else {
        0
    }
}

pub open spec fn base(hex: bool) -> nat {
    if hex {
        16
    } else {
        10
    }
}

/// The value of a digit string read most significant digit first.
pub open spec fn digits_value(s: Seq<char>, hex: bool) -> nat
    decreases s.len(),
{
    if s.len() == 0 {
        0
    } else {
        digits_value(s.drop_last(), hex) * base(hex) + digit_val(s.last())
    }
}

pub open spec fn all_digits(s: Seq<char>, hex: bool) -> bool {
    &&& s.len() > 0
    &&& forall|i: int| 0 <= i < s.len() ==> is_digit_in(#[trigger] s[i], hex)
}

/// Unsigned number syntax: an optional `+`, then one or more digits.
pub open spec fn unsigned_value(s: Seq<char>, hex: bool) -> Option<nat> {
    let d = if s.len() > 0 && s[0] == '+' {
        s.drop_first()
    } else {
        s
    };
    if all_digits(d, hex) {
        Some(digits_value(d, hex))
    } else {
        None
    }
}

/// What a `u32` reads from `s`: unsigned syntax whose value fits.
pub open spec fn u32_text(s: Seq<char>, hex: bool) -> Option<u32> {
    match unsigned_value(s, hex) {
        Some(v) => if v <= u32::MAX {
            Some(v as u32)
        } else {
            None
        },
        None => None,
    }
}

/// What an `i32` reads from `s`: decimal digits after an optional `+` or `-`,
/// with a value in range.
pub open spec fn i32_text(s: Seq<char>) -> Option<i32> {
    if s.len() > 0 && s[0] == '-' {
        let d = s.drop_first();
        if all_digits(d, false) && digits_value(d, false) <= 0x8000_0000 {
            Some((0 - digits_value(d, false)) as i32)
        } else {
            None
        }
    } else {
        match unsigned_value(s, false) {
            Some(v) => if v <= 0x7fff_ffff {
                Some(v as i32)
            } else {
                None
            },
            None => None,
        }
    }
}

proof fn lemma_digits_value_prefix(s: Seq<char>, k: int, hex: bool)
    requires
        0 <= k <= s.len(),
    ensures
        digits_value(s.take(k), hex) <= digits_value(s, hex),
    decreases s.len(),
{
    if k < s.len() {
        assert(s.drop_last().take(k) =~= s.take(k));
        lemma_digits_value_prefix(s.drop_last(), k, hex);
        assert(digits_value(s.drop_last(), hex) <= digits_value(s.drop_last(), hex) * base(hex))
            by (nonlinear_arith)
            requires
                base(hex) >= 1,
        ;
    } else {
        assert(s.take(k) =~= s);
    }
}

/// Reads the digits `s[start..end]`: `Some` exactly when there is at least one,
/// each is a digit, and their value is at most `limit`.
fn digits_upto(s: &[char], start: usize, end: usize, hex: bool, limit: u64) -> (r: Option<u64>)
    requires
        start <= end <= s@.len(),
        limit <= 0x1_0000_0000,
    ensures
        r == (if all_digits(s@.subrange(start as int, end as int), hex) && digits_value(
            s@.subrange(start as int, end as int),
            hex,
        ) <= limit {
            Some(digits_value(s@.subrange(start as int, end as int), hex) as u64)
        } else {
            None
        }),
{
    let ghost d = s@.subrange(start as int, end as int);
    if start == end {
        return None;
    }
    let b: u64 = if hex {
        16
    } else {
        10
    };
    let mut acc: u64 = 0;
    let mut i: usize = start;
    while i < end
        invariant
            start <= i <= end <= s@.len(),
            d == s@.subrange(start as int, end as int),
            b as nat == base(hex),
            limit <= 0x1_0000_0000,
            acc <= limit,
            acc as nat == digits_value(d.take(i - start), hex),
            forall|j: int| 0 <= j < i - start ==> is_digit_in(#[trigger] d[j], hex),
        decreases end - i,
    {
        let c = s[i];
        let v: u64 = if '0' <= c && c <= '9' {
            (c as u32 - '0' as u32) as u64
        } else if hex && 'a' <= c && c <= 'f' {
            (c as u32 - 'a' as u32 + 10) as u64
        } else if hex && 'A' <= c && c <= 'F' {
            (c as u32 - 'A' as u32 + 10) as u64
        } else {
            assert(!is_digit_in(d[i - start], hex));
            return None;
        };
        assert(d.take(i - start + 1).drop_last() =~= d.take(i - start));
        assert(acc * b <= 0x1_0000_0000 * 16) by (nonlinear_arith)
            requires
                acc <= 0x1_0000_0000,
                b <= 16,
        ;
        let next = acc * b + v;
        if next > limit {
            proof {
                lemma_digits_value_prefix(d, i - start + 1, hex);
            }
            return None;
        }
        acc = next;
        i = i + 1;
    }
    assert(d.take(end - start) =~= d);
    Some(acc)
}

/// Reads an unsigned number, decimal or hexadecimal, as `u32`.
pub fn parse_u32(s: &[char], hex: bool) -> (r: Option<u32>)
    ensures
        r == u32_text(s@, hex),
{
    let start: usize = if s.len() > 0 && s[0] == '+' {
        1
    } else {
        0
    };
    assert(s@.subrange(start as int, s@.len() as int) =~= if s@.len() > 0 && s@[0] == '+' {
        s@.drop_first()
    } else {
        s@
    });
    match digits_upto(s, start, s.len(), hex, 0xffff_ffff) {
        Some(v) => Some(v as u32),
        None => None,
    }
}

/// Reads a signed decimal number as `i32`.
pub fn parse_i32(s: &[char]) -> (r: Option<i32>)
    ensures
        r == i32_text(s@),
{
    if s.len() > 0 && s[0] == '-' {
        assert(s@.subrange(1, s@.len() as int) =~= s@.drop_first());
        match digits_upto(s, 1, s.len(), false, 0x8000_0000) {
            Some(v) => Some((0 - (v as i64)) as i32),
            None => None,
        }
    } else {
        let start: usize = if s.len() > 0 && s[0] == '+' {
            1
        } else {
            0
        };
        assert(s@.subrange(start as int, s@.len() as int) =~= if s@.len() > 0 && s@[0] == '+' {
            s@.drop_first()
        } else {
            s@
        });
        match digits_upto(s, start, s.len(), false, 0x7fff_ffff) {
            Some(v) => Some(v as i32),
            None => None,
        }
    }
}

} // verus!
