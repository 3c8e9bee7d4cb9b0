//! Formatting helpers: decimal numbers, padding and repetition, stated over
//! the `Seq<char>` views of the strings they build.

use vstd::prelude::*;
use crate::text::{push_char, push_chars, string_of};

verus! {

/// The decimal digit for `d < 10`.
pub open spec fn digit_char(d: nat) -> char {
    if d == 0 { '0' }
    else if d == 1 { '1' }
    else if d == 2 { '2' }
    else if d == 3 { '3' }
    else if d == 4 { '4' }
    else if d == 5 { '5' }
    else if d == 6 { '6' }
    else if d == 7 { '7' }
    else if d == 8 { '8' }
    else { '9' }
}

/// The decimal representation of `n`, as `format!("{}", n)` writes it.
pub open spec fn decimal(n: nat) -> Seq<char>
    decreases n,
{
    if n < 10 {
        seq![digit_char(n)]
    } else {
        decimal(n / 10).push(digit_char(n % 10))
    }
}

/// `n` spaces.
pub open spec fn spaces(n: nat) -> Seq<char> {
    Seq::new(n, |i: int| ' ')
}

/// `c` repeated `n` times.
pub open spec fn repeated(c: char, n: nat) -> Seq<char> {
    Seq::new(n, |i: int| c)
}

/// Right alignment in a field of `w` characters (`{:>w}`, the default for numbers).
pub open spec fn pad_left(s: Seq<char>, w: nat) -> Seq<char> {
    if s.len() < w {
        spaces((w - s.len()) as nat) + s
    } else {
        s
    }
}

/// Left alignment in a field of `w` characters (`{:w}`, the default for strings).
pub open spec fn pad_right(s: Seq<char>, w: nat) -> Seq<char> {
    if s.len() < w {
        s + spaces((w - s.len()) as nat)
    } else {
        s
    }
}

/// Centering in a field of `w` characters (`{:^w}`): the extra space goes right.
pub open spec fn pad_center(s: Seq<char>, w: nat) -> Seq<char> {
    if s.len() < w {
        let extra = (w - s.len()) as nat;
        spaces(extra / 2) + s + spaces((extra - extra / 2) as nat)
    } else {
        s
    }
}

/// The digit character for `d < 10`.
pub fn digit_of(d: usize) -> (c: char)
    requires
        d < 10,
    ensures
        c == digit_char(d as nat),
{
    if d == 0 { '0' }
    else if d == 1 { '1' }
    else if d == 2 { '2' }
    else if d == 3 { '3' }
    else if d == 4 { '4' }
    else if d == 5 { '5' }
    else if d == 6 { '6' }
    else if d == 7 { '7' }
    else if d == 8 { '8' }
    else { '9' }
}

/// The decimal text of a number.
pub fn decimal_chars(n: u64) -> (r: Vec<char>)
    ensures
        r@ == decimal(n as nat),
    decreases n,
{
    if n < 10 {
        let mut r: Vec<char> = Vec::new();
        r.push(digit_of(n as usize));
        assert(r@ =~= decimal(n as nat));
        r
    } else {
        let mut r = decimal_chars(n / 10);
        r.push(digit_of((n % 10) as usize));
        r
    }
}

/// The decimal text of a wide number.
pub fn decimal_chars_wide(n: u128) -> (r: Vec<char>)
    ensures
        r@ == decimal(n as nat),
    decreases n,
{
    if n < 10 {
        let mut r: Vec<char> = Vec::new();
        r.push(digit_of(n as usize));
        assert(r@ =~= decimal(n as nat));
        r
    } else {
        let mut r = decimal_chars_wide(n / 10);
        r.push(digit_of((n % 10) as usize));
        r
    }
}

/// The decimal text of a wide number, as a string.
pub fn u128_to_string(n: u128) -> (r: String)
    ensures
        r@ == decimal(n as nat),
{
    let v = decimal_chars_wide(n);
    string_of(&v)
}

/// The decimal text of a number, as a string.
pub fn u64_to_string(n: u64) -> (r: String)
    ensures
        r@ == decimal(n as nat),
{
    let v = decimal_chars(n);
    string_of(&v)
}

/// The decimal text of a number, as a string.
pub fn usize_to_string(n: usize) -> (r: String)
    ensures
        r@ == decimal(n as nat),
{
    u64_to_string(n as u64)
}

/// Appends `n` copies of `c`.
pub fn push_repeated(s: &mut String, c: char, n: usize)
    ensures
        final(s)@ == old(s)@ + repeated(c, n as nat),
{
    let ghost s0 = s@;
    let mut i: usize = 0;
    while i < n
        invariant
            i <= n,
            s@ == s0 + repeated(c, i as nat),
        decreases n - i,
    {
        push_char(s, c);
        i = i + 1;
        assert(s@ =~= s0 + repeated(c, i as nat));
    }
}

/// Appends `t` right-aligned in a field of `w` characters.
pub fn push_pad_left(s: &mut String, t: &Vec<char>, w: usize)
    ensures
        final(s)@ == old(s)@ + pad_left(t@, w as nat),
{
    let ghost s0 = s@;
    if t.len() < w {
        push_repeated(s, ' ', w - t.len());
        push_chars(s, t);
        assert(s@ =~= s0 + pad_left(t@, w as nat));
    } else {
        push_chars(s, t);
    }
}

/// Appends `t` left-aligned in a field of `w` characters.
pub fn push_pad_right(s: &mut String, t: &Vec<char>, w: usize)
    ensures
        final(s)@ == old(s)@ + pad_right(t@, w as nat),
{
    let ghost s0 = s@;
    if t.len() < w {
        push_chars(s, t);
        push_repeated(s, ' ', w - t.len());
        assert(s@ =~= s0 + pad_right(t@, w as nat));
    } else {
        push_chars(s, t);
    }
}

/// Appends `t` centered in a field of `w` characters.
pub fn push_pad_center(s: &mut String, t: &Vec<char>, w: usize)
    ensures
        final(s)@ == old(s)@ + pad_center(t@, w as nat),
{
    let ghost s0 = s@;
    if t.len() < w {
        let extra = w - t.len();
        push_repeated(s, ' ', extra / 2);
        push_chars(s, t);
        push_repeated(s, ' ', extra - extra / 2);
        assert(s@ =~= s0 + pad_center(t@, w as nat));
    } else {
        push_chars(s, t);
    }
}

/// Number of UTF-8 bytes that encode `c`.
pub open spec fn utf8_width(c: char) -> nat {
    let u = c as u32;
    if u < 0x80 {
        1
    } else if u < 0x800 {
        2
    } else if u < 0x10000 {
        3
    } else {
        4
    }
}

/// Number of UTF-8 bytes that encode `s` (`str::len`).
pub open spec fn byte_len(s: Seq<char>) -> nat
    decreases s.len(),
{
    if s.len() == 0 {
        0
    } else {
        byte_len(s.drop_last()) + utf8_width(s.last())
    }
}

pub proof fn lemma_byte_len_push(s: Seq<char>, c: char)
    ensures
        byte_len(s.push(c)) == byte_len(s) + utf8_width(c),
{
    assert(s.push(c).drop_last() =~= s);
}

pub proof fn lemma_byte_len_bounds(s: Seq<char>)
    ensures
        s.len() <= byte_len(s) <= 4 * s.len(),
    decreases s.len(),
{
    if s.len() > 0 {
        lemma_byte_len_bounds(s.drop_last());
    }
}

/// Width of one character in UTF-8.
pub fn char_utf8_width(c: char) -> (w: usize)
    ensures
        w == utf8_width(c),
{
    let u = c as u32;
    if u < 0x80 {
        1
    } else if u < 0x800 {
        2
    } else if u < 0x10000 {
        3
    } else {
        4
    }
}

/// Byte length of a character sequence.
pub fn utf8_len(v: &Vec<char>) -> (n: usize)
    requires
        v.len() <= usize::MAX / 4,
    ensures
        n == byte_len(v@),
{
    let mut n: usize = 0;
    let mut i: usize = 0;
    while i < v.len()
        invariant
            i <= v.len(),
            v.len() <= usize::MAX / 4,
            n == byte_len(v@.subrange(0, i as int)),
        decreases v.len() - i,
    {
        proof {
            assert(v@.subrange(0, i + 1) =~= v@.subrange(0, i as int).push(v@[i as int]));
            lemma_byte_len_push(v@.subrange(0, i as int), v@[i as int]);
            lemma_byte_len_bounds(v@.subrange(0, i as int));
        }
        n = n + char_utf8_width(v[i]);
        i = i + 1;
    }
    assert(v@.subrange(0, v.len() as int) =~= v@);
    n
}

/// Whether the first `w` bytes of `s` end on a character boundary.
pub open spec fn byte_boundary(s: Seq<char>, w: nat) -> bool {
    exists|k: int| 0 <= k <= s.len() && byte_len(#[trigger] s.subrange(0, k)) == w
}

/// The number of characters that make up the first `w` bytes of `s`.
pub open spec fn chars_in_bytes(s: Seq<char>, w: nat) -> int {
    choose|k: int| 0 <= k <= s.len() && byte_len(#[trigger] s.subrange(0, k)) == w
}

pub proof fn lemma_byte_len_prefix_mono(s: Seq<char>, a: int, b: int)
    requires
        0 <= a <= b <= s.len(),
    ensures
        byte_len(s.subrange(0, a)) + (b - a) <= byte_len(s.subrange(0, b)),
    decreases b - a,
{
    if a < b {
        lemma_byte_len_prefix_mono(s, a, b - 1);
        assert(s.subrange(0, b) =~= s.subrange(0, b - 1).push(s[b - 1]));
        lemma_byte_len_push(s.subrange(0, b - 1), s[b - 1]);
    }
}

/// The characters of the first `w` bytes of `v`, which must end on a boundary.
pub fn byte_prefix(v: &Vec<char>, w: usize) -> (r: Vec<char>)
    requires
        byte_boundary(v@, w as nat),
    ensures
        r@ == v@.subrange(0, chars_in_bytes(v@, w as nat)),
{
    let ghost k = chars_in_bytes(v@, w as nat);
    let mut r: Vec<char> = Vec::new();
    let mut acc: usize = 0;
    let mut i: usize = 0;
    while acc < w && i < v.len()
        invariant
            0 <= k <= v.len(),
            byte_len(v@.subrange(0, k)) == w,
            i <= v.len(),
            acc == byte_len(v@.subrange(0, i as int)),
            acc <= w,
            i <= k,
            r@ == v@.subrange(0, i as int),
        decreases v.len() - i,
    {
        proof {
            assert(v@.subrange(0, i + 1) =~= v@.subrange(0, i as int).push(v@[i as int]));
            lemma_byte_len_push(v@.subrange(0, i as int), v@[i as int]);
            if i as int == k {
                assert(false);
            }
            lemma_byte_len_prefix_mono(v@, i + 1, k);
        }
        acc = acc + char_utf8_width(v[i]);
        r.push(v[i]);
        i = i + 1;
        assert(r@ =~= v@.subrange(0, i as int));
    }
    proof {
        if (i as int) < k {
            lemma_byte_len_prefix_mono(v@, i as int, k);
        }
    }
    r
}

/// `a / b` rounded to the nearest integer, ties to the even one.
pub open spec fn round_div(a: nat, b: nat) -> nat
    recommends
        b > 0,
{
    let q = a / b;
    let r = a % b;
    if 2 * r > b || (2 * r == b && q % 2 == 1) {
        q + 1
    } else {
        q
    }
}

/// The spacing of the double-precision floats around a count: 1 below 2^53,
/// doubling with each further bit.
pub open spec fn ulp_of(b: nat) -> nat
    decreases b,
{
    if b < 0x20_0000_0000_0000 {
        1
    } else {
        2 * ulp_of(b / 2)
    }
}

/// The count as the nearest double-precision float (ties to even), which is
/// what converting an integer to a float gives.
pub open spec fn as_float(b: nat) -> nat {
    round_div(b, ulp_of(b)) * ulp_of(b)
}

/// `a / b` rounded to the nearest integer, ties to the even one.
pub fn round_div_exec(a: u128, b: u128) -> (r: u128)
    requires
        b > 0,
        b <= 0x1_0000_0000_0000_0000,
        a < 0x1_0000_0000_0000_0000_0000,
    ensures
        r == round_div(a as nat, b as nat),
        r <= a / b + 1,
{
    let q = a / b;
    let rem = a % b;
    assert(q <= a) by (nonlinear_arith) requires b > 0, q == a / b;
    if 2 * rem > b || (2 * rem == b && q % 2 == 1) {
        q + 1
    } else {
        q
    }
}

/// The count as the nearest double-precision float.
pub fn float_value(bytes: u64) -> (f: u128)
    ensures
        f == as_float(bytes as nat),
        f <= 0x2_0000_0000_0000_0000,
{
    let mut u: u128 = 1;
    let mut c: u64 = bytes;
    while c >= 0x20_0000_0000_0000
        invariant
            ulp_of(bytes as nat) == u * ulp_of(c as nat),
            1 <= u <= 0x1_0000_0000_0000_0000,
            u == 1 || c >= 0x10_0000_0000_0000,
            u * c <= bytes,
            bytes < u * (c + 1),
        decreases c,
    {
        let ghost c0 = c;
        let ghost u0 = u;
        assert(u0 < 0x1000) by (nonlinear_arith)
            requires u0 * c0 <= bytes, c0 >= 0x20_0000_0000_0000, bytes < 0x1_0000_0000_0000_0000;
        assert(ulp_of(c as nat) == 2 * ulp_of((c / 2) as nat));
        c = c / 2;
        u = u * 2;
        assert(ulp_of(bytes as nat) == u * ulp_of(c as nat)) by (nonlinear_arith)
            requires ulp_of(bytes as nat) == u0 * ulp_of(c0 as nat), ulp_of(c0 as nat) == 2 * ulp_of(c as nat), u == u0 * 2;
        assert(u * c <= bytes) by (nonlinear_arith)
            requires u0 * c0 <= bytes, c == c0 / 2, u == u0 * 2, u0 >= 1;
        assert(bytes < u * (c + 1)) by (nonlinear_arith)
            requires bytes < u0 * (c0 + 1), c == c0 / 2, u == u0 * 2, u0 >= 1;
    }
    assert(ulp_of(c as nat) == 1);
    assert(u <= 0x1_0000_0000_0000_0000) by (nonlinear_arith)
        requires u * c <= bytes, bytes < u * (c + 1), bytes < 0x1_0000_0000_0000_0000, u >= 1, c < 0x20_0000_0000_0000,
            (c >= 0x10_0000_0000_0000 || u == 1);
    assert(ulp_of(bytes as nat) == u) by (nonlinear_arith)
        requires ulp_of(bytes as nat) == u * ulp_of(c as nat), ulp_of(c as nat) == 1;
    let q = round_div_exec(bytes as u128, u);
    assert(q * u == as_float(bytes as nat));
    assert(q * u <= 0x2_0000_0000_0000_0000) by (nonlinear_arith)
        requires q <= (bytes as int) / (u as int) + 1, bytes < 0x1_0000_0000_0000_0000, u >= 1, u <= 0x1_0000_0000_0000_0000;
    q * u
}

/// Number of UTF-8 bytes of the characters, for any number of them.
pub fn utf8_len_wide(v: &Vec<char>) -> (n: u128)
    ensures
        n == byte_len(v@),
{
    let mut n: u128 = 0;
    let mut i: usize = 0;
    while i < v.len()
        invariant
            i <= v.len(),
            n == byte_len(v@.subrange(0, i as int)),
            n <= 4 * i,
        decreases v.len() - i,
    {
        proof {
            assert(v@.subrange(0, i + 1) =~= v@.subrange(0, i as int).push(v@[i as int]));
            lemma_byte_len_push(v@.subrange(0, i as int), v@[i as int]);
        }
        n = n + char_utf8_width(v[i]) as u128;
        i = i + 1;
    }
    assert(v@.subrange(0, v.len() as int) =~= v@);
    n
}

/// The characters after the first `w` bytes of `v`, which must end on a
/// boundary.
pub fn byte_suffix(v: &Vec<char>, w: u128) -> (r: Vec<char>)
    requires
        byte_boundary(v@, w as nat),
    ensures
        r@ == v@.subrange(chars_in_bytes(v@, w as nat), v@.len() as int),
{
    let ghost k = chars_in_bytes(v@, w as nat);
    let mut acc: u128 = 0;
    let mut i: usize = 0;
    while acc < w && i < v.len()
        invariant
            0 <= k <= v.len(),
            byte_len(v@.subrange(0, k)) == w,
            i <= v.len(),
            acc == byte_len(v@.subrange(0, i as int)),
            acc <= w,
            i <= k,
        decreases v.len() - i,
    {
        proof {
            assert(v@.subrange(0, i + 1) =~= v@.subrange(0, i as int).push(v@[i as int]));
            lemma_byte_len_push(v@.subrange(0, i as int), v@[i as int]);
            if i as int == k {
                assert(false);
            }
            lemma_byte_len_prefix_mono(v@, i + 1, k);
        }
        acc = acc + char_utf8_width(v[i]) as u128;
        i = i + 1;
    }
    proof {
        if (i as int) < k {
            lemma_byte_len_prefix_mono(v@, i as int, k);
        }
    }
    let mut r: Vec<char> = Vec::new();
    let mut j: usize = i;
    while j < v.len()
        invariant
            i <= j <= v.len(),
            r@ == v@.subrange(i as int, j as int),
        decreases v.len() - j,
    {
        r.push(v[j]);
        j = j + 1;
        assert(r@ =~= v@.subrange(i as int, j as int));
    }
    r
}

} // verus!
