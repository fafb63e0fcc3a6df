//! Numeric discriminant literals.
//!
//! An enum discriminant may be written in decimal, hex (`0x`), binary
//! (`0b`) or octal (`0o`) notation, with optional surrounding
//! whitespace, an optional sign, and `_` separators between digits.
//! This module evaluates such a literal to its numeric value.

use crate::naming::push_char;
use vstd::prelude::*;
use vstd::string::StrSliceExecFns;

verus! {

/// ASCII whitespace, as trimmed from a literal's ends.
pub open spec fn is_ws(c: char) -> bool {
    c == ' ' || c == '\t' || c == '\n' || c == '\r'
}

/// The sequence with leading whitespace removed.
pub open spec fn trim_front(s: Seq<char>) -> Seq<char>
    decreases s.len(),
{
    if s.len() > 0 && is_ws(s[0]) {
        trim_front(s.drop_first())
    } else {
        s
    }
}

/// The sequence with trailing whitespace removed.
pub open spec fn trim_back(s: Seq<char>) -> Seq<char>
    decreases s.len(),
{
    if s.len() > 0 && is_ws(s.last()) {
        trim_back(s.drop_last())
    } else {
        s
    }
}

/// The sequence with whitespace removed from both ends.
pub open spec fn trim_spec(s: Seq<char>) -> Seq<char> {
    trim_back(trim_front(s))
}

/// The sequence with every `_` removed.
pub open spec fn without_underscores(s: Seq<char>) -> Seq<char>
    decreases s.len(),
{
    if s.len() == 0 {
        Seq::empty()
    } else if s.last() == '_' {
        without_underscores(s.drop_last())
    } else {
        without_underscores(s.drop_last()).push(s.last())
    }
}

/// The numeric value of one digit character, or 16 for anything that
/// is no digit in any supported base.
pub open spec fn digit_val(c: char) -> int {
    if '0' <= c && c <= '9' {
        c as int - 48
    } else if 'a' <= c && c <= 'f' {
        c as int - 87
    } else if 'A' <= c && c <= 'F' {
        c as int - 55
    } else {
        16
    }
}

/// True when the character is a digit of the base.
pub open spec fn is_digit(c: char, base: int) -> bool {
    digit_val(c) < base
}

/// True for a non-empty string of digits of the base.
pub open spec fn all_digits(s: Seq<char>, base: int) -> bool {
    s.len() > 0 && forall|i: int| 0 <= i < s.len() ==> is_digit(#[trigger] s[i], base)
}

/// The value of a digit string read left to right.
pub open spec fn digits_val(s: Seq<char>, base: int) -> int
    decreases s.len(),
{
    if s.len() == 0 {
        0
    } else {
        digits_val(s.drop_last(), base) * base + digit_val(s.last())
    }
}

/// The base announced by a literal's notation prefix.
pub open spec fn radix_of(t: Seq<char>) -> int {
    if t.len() >= 2 && t[0] == '0' && (t[1] == 'x' || t[1] == 'X') {
        16
    } else if t.len() >= 2 && t[0] == '0' && (t[1] == 'b' || t[1] == 'B') {
        2
    } else if t.len() >= 2 && t[0] == '0' && (t[1] == 'o' || t[1] == 'O') {
        8
    } else {
        10
    }
}

/// The literal with its notation prefix removed; a decimal literal has
/// none.
pub open spec fn body_of(t: Seq<char>) -> Seq<char> {
    if radix_of(t) == 10 {
        t
    } else {
        t.subrange(2, t.len() as int)
    }
}

/// True when the (prefix-stripped, underscore-free) literal body
/// carries a leading minus sign.
pub open spec fn is_negative_lit(u: Seq<char>) -> bool {
    u.len() > 0 && u[0] == '-'
}

/// The digits of the literal body, the optional sign removed.
pub open spec fn magnitude_digits(u: Seq<char>) -> Seq<char> {
    if u.len() > 0 && (u[0] == '-' || u[0] == '+') {
        u.drop_first()
    } else {
        u
    }
}

/// True for a literal the discriminant parser accepts: after trimming,
/// prefix removal and underscore removal there stands an optional sign
/// and at least one digit of the announced base, and the value fits a
/// signed 64-bit integer.
pub open spec fn discriminant_ok(s: Seq<char>) -> bool {
    let t = trim_spec(s);
    let base = radix_of(t);
    let u = without_underscores(body_of(t));
    let m = magnitude_digits(u);
    all_digits(m, base) && digits_val(m, base) <= if is_negative_lit(u) {
        0x8000000000000000int
    } else {
        0x7fffffffffffffffint
    }
}

/// The numeric value of an accepted literal.
pub open spec fn discriminant_val(s: Seq<char>) -> int {
    let t = trim_spec(s);
    let base = radix_of(t);
    let u = without_underscores(body_of(t));
    let m = magnitude_digits(u);
    if is_negative_lit(u) {
        -digits_val(m, base)
    } else {
        digits_val(m, base)
    }
}

/// A digit string's value is never negative.
proof fn lemma_digits_val_nonneg(s: Seq<char>, base: int)
    requires
        base >= 1,
    ensures
        digits_val(s, base) >= 0,
    decreases s.len(),
{
    if s.len() > 0 {
        lemma_digits_val_nonneg(s.drop_last(), base);
        assert(digits_val(s.drop_last(), base) * base >= 0) by (nonlinear_arith)
            requires
                digits_val(s.drop_last(), base) >= 0,
                base >= 1,
        ;
    }
}

/// Reading more digits never shrinks the value.
proof fn lemma_digits_val_mono(s: Seq<char>, base: int, i: int)
    requires
        base >= 1,
        0 <= i <= s.len(),
    ensures
        digits_val(s.take(i), base) <= digits_val(s, base),
    decreases s.len() - i,
{
    if i < s.len() {
        lemma_digits_val_mono(s.drop_last(), base, i);
        assert(s.drop_last().take(i) =~= s.take(i));
        lemma_digits_val_nonneg(s.drop_last(), base);
        assert(digits_val(s.drop_last(), base) * base >= digits_val(s.drop_last(), base))
            by (nonlinear_arith)
            requires
                digits_val(s.drop_last(), base) >= 0,
                base >= 1,
        ;
    } else {
        assert(s.take(i) =~= s);
    }
}

fn char_is_ws(c: char) -> (r: bool)
    ensures
        r == is_ws(c),
{
    c == ' ' || c == '\t' || c == '\n' || c == '\r'
}

/// The literal with surrounding ASCII whitespace removed.
fn trim_ws(s: &str) -> (r: &str)
    ensures
        r@ == trim_spec(s@),
{
    let n = s.unicode_len();
    let mut a: usize = 0;
    proof {
        assert(s@.subrange(0, n as int) =~= s@);
    }
    while a < n && char_is_ws(s.get_char(a))
        invariant
            n == s@.len(),
            0 <= a <= n,
            trim_front(s@) == trim_front(s@.subrange(a as int, n as int)),
        decreases n - a,
    {
        proof {
            assert(s@.subrange(a as int, n as int).drop_first() =~= s@.subrange(a + 1, n as int));
        }
        a = a + 1;
    }
    proof {
        assert(trim_front(s@) == s@.subrange(a as int, n as int));
    }
    let mut b: usize = n;
    while b > a && char_is_ws(s.get_char(b - 1))
        invariant
            n == s@.len(),
            0 <= a <= b <= n,
            trim_front(s@) == s@.subrange(a as int, n as int),
            trim_back(s@.subrange(a as int, n as int)) == trim_back(
                s@.subrange(a as int, b as int),
            ),
        decreases b,
    {
        proof {
            assert(s@.subrange(a as int, b as int).drop_last() =~= s@.subrange(a as int, b - 1));
        }
        b = b - 1;
    }
    proof {
        assert(trim_back(s@.subrange(a as int, b as int)) == s@.subrange(a as int, b as int));
    }
    s.substring_char(a, b)
}

/// Removes every `_` from a literal, keeping all other characters in
/// order.
pub fn strip_underscores(s: &str) -> (r: String)
    ensures
        r@ == without_underscores(s@),
{
    let n = s.unicode_len();
    let mut out = String::new();
    let mut i: usize = 0;
    proof {
        assert(out@ =~= without_underscores(s@.take(0)));
    }
    while i < n
        invariant
            n == s@.len(),
            0 <= i <= n,
            out@ == without_underscores(s@.take(i as int)),
        decreases n - i,
    {
        let c = s.get_char(i);
        if c != '_' {
            push_char(&mut out, c);
        }
        i = i + 1;
        proof {
            assert(s@.take(i as int).drop_last() =~= s@.take(i - 1));
            assert(s@.take(i as int).last() == s@[i - 1]);
        }
    }
    proof {
        assert(s@.take(n as int) =~= s@);
    }
    out
}

fn digit_of(c: char) -> (r: u64)
    ensures
        r as int == digit_val(c),
{
    let u = c as u32;
    if 48 <= u && u <= 57 {
        (u - 48) as u64
    } else if 97 <= u && u <= 102 {
        (u - 87) as u64
    } else if 65 <= u && u <= 70 {
        (u - 55) as u64
    } else {
        16
    }
}

/// Evaluates a discriminant literal: optional surrounding whitespace,
/// an optional notation prefix (`0x`, `0b`, `0o`), an optional sign,
/// and digits of the announced base with `_` separators allowed.
pub fn get_discriminant_value_from_str(s: &str) -> (r: i64)
    requires
        discriminant_ok(s@),
    ensures
        r as int == discriminant_val(s@),
{
    let t = trim_ws(s);
    let n = t.unicode_len();
    let ghost tv = t@;
    let (base, p): (u64, usize) = if n >= 2 && t.get_char(0) == '0' {
        let c1 = t.get_char(1);
        if c1 == 'x' || c1 == 'X' {
            (16, 2)
        } else if c1 == 'b' || c1 == 'B' {
            (2, 2)
        } else if c1 == 'o' || c1 == 'O' {
            (8, 2)
        } else {
            (10, 0)
        }
    } else {
        (10, 0)
    };
    proof {
        assert(base as int == radix_of(tv));
        assert(tv.subrange(p as int, n as int) == body_of(tv));
    }
    let rest = t.substring_char(p, n);
    let u = strip_underscores(rest);
    let un = u.as_str().unicode_len();
    let ghost uv = u@;
    let ghost m = magnitude_digits(uv);
    let (neg, q): (bool, usize) = if un > 0 && u.as_str().get_char(0) == '-' {
        (true, 1)
    } else if un > 0 && u.as_str().get_char(0) == '+' {
        (false, 1)
    } else {
        (false, 0)
    };
    proof {
        assert(neg == is_negative_lit(uv));
        assert(uv.subrange(q as int, un as int) =~= m);
        assert(all_digits(m, base as int));
        assert(m.len() > 0);
    }
    let mlen = un - q;
    let mut mag: u64 = 0;
    let mut k: usize = 0;
    let ghost bound: int = if neg {
        0x8000000000000000
    } else {
        0x7fffffffffffffff
    };
    proof {
        assert(m.take(0) =~= Seq::<char>::empty());
    }
    while k < mlen
        invariant
            uv == u@,
            un == uv.len(),
            q + mlen == un,
            0 <= k <= mlen,
            m == magnitude_digits(uv),
            m == uv.subrange(q as int, un as int),
            m.len() == mlen,
            all_digits(m, base as int),
            2 <= base <= 16,
            digits_val(m, base as int) <= bound <= 0x8000000000000000,
            mag as int == digits_val(m.take(k as int), base as int),
        decreases mlen - k,
    {
        let c = u.as_str().get_char(q + k);
        proof {
            assert(m[k as int] == uv[q + k]);
        }
        let d = digit_of(c);
        proof {
            lemma_digits_val_mono(m, base as int, k + 1);
            assert(m.take(k + 1).drop_last() =~= m.take(k as int));
            assert(m.take(k + 1).last() == m[k as int]);
            assert(mag as int * base as int + d as int == digits_val(m.take(k + 1), base as int));
            lemma_digits_val_nonneg(m.take(k as int), base as int);
            assert(mag as int * base as int <= digits_val(m.take(k + 1), base as int));
        }
        mag = mag * base + d;
        k = k + 1;
    }
    proof {
        assert(m.take(mlen as int) =~= m);
    }
    if neg {
        if mag >= 0x8000000000000000 {
            i64::MIN
        } else {
            -(mag as i64)
        }
    } else {
        mag as i64
    }
}

} // verus!
