//! Terminal automation
//!
//! Keys and their byte sequences, output patterns, conditions, the execution
//! context of a script (variables, captured output, an output buffer of
//! bounded size), the script language and its parser, and the decisions of
//! the automation engine. The engine's terminal input and output are carried
//! out by its caller, which hands the results back.

use std::time::Duration;
use vstd::prelude::*;
use vstd::utf8::encode_utf8;
use crate::clock::{duration_of_millis, duration_of_secs, millis, secs};
use crate::fmt::{byte_len, decimal, decimal_chars, byte_boundary, chars_in_bytes,
    lemma_byte_len_bounds};
use crate::pattern::{regex_match, regex_find, regex_first, regex_compiles, regex_finds, pattern_hits};
use crate::strings::{replaced, replace_all};
use crate::text::{contains_sub, contains, chars_of, owned, string_of, is_prefix, is_suffix, trim, trim_chars, to_uppercase, uppercase,
    is_text, starts_with, ends_with, slice_chars, push_char, push_str};

verus! {

/// Key codes that can be sent to the terminal
#[derive(Debug, Clone, Copy, PartialEq, Eq, Structural)]
pub enum Key {
    /// Enter/Return key
    Enter,
    /// Tab key
    Tab,
    /// Backspace key
    Backspace,
    /// Escape key
    Escape,
    /// Arrow keys
    Up,
    Down,
    Left,
    Right,
    /// Function keys F1-F12
    F(u8),
    /// Home key
    Home,
    /// End key
    End,
    /// Page Up key
    PageUp,
    /// Page Down key
    PageDown,
    /// Insert key
    Insert,
    /// Delete key
    Delete,
    /// Control + character (e.g. Ctrl+C)
    Ctrl(char),
    /// Alt + character
    Alt(char),
    /// Raw character
    Char(char),
}

/// The bytes a terminal receives for a key: control codes, escape
/// sequences, or the UTF-8 encoding of a character; nothing for a function
/// key outside F1..F12.
pub open spec fn key_bytes(k: Key) -> Seq<u8> {
    match k {
        Key::Enter => seq![13u8],
        Key::Tab => seq![9u8],
        Key::Backspace => seq![0x7fu8],
        Key::Escape => seq![0x1bu8],
        Key::Up => seq![0x1bu8, 0x5bu8, 0x41u8],
        Key::Down => seq![0x1bu8, 0x5bu8, 0x42u8],
        Key::Right => seq![0x1bu8, 0x5bu8, 0x43u8],
        Key::Left => seq![0x1bu8, 0x5bu8, 0x44u8],
        Key::F(n) => if 1 <= n <= 4 {
            seq![0x1bu8, 0x4fu8, (0x50 + n - 1) as u8]
        } else if 5 <= n <= 12 {
            seq![0x1bu8, 0x5bu8] + encode_utf8(decimal((15 + n - 5) as nat)) + seq![0x7eu8]
        } else {
            seq![]
        },
        Key::Home => seq![0x1bu8, 0x5bu8, 0x48u8],
        Key::End => seq![0x1bu8, 0x5bu8, 0x46u8],
        Key::PageUp => seq![0x1bu8, 0x5bu8, 0x35u8, 0x7eu8],
        Key::PageDown => seq![0x1bu8, 0x5bu8, 0x36u8, 0x7eu8],
        Key::Insert => seq![0x1bu8, 0x5bu8, 0x32u8, 0x7eu8],
        Key::Delete => seq![0x1bu8, 0x5bu8, 0x33u8, 0x7eu8],
        Key::Ctrl(c) => seq![((c as u32) % 32) as u8],
        Key::Alt(c) => seq![0x1bu8] + encode_utf8(seq![c]),
        Key::Char(c) => encode_utf8(seq![c]),
    }
}

/// The arrow keys send the standard cursor sequences, ESC [ A up, ESC [ B
/// down, ESC [ C right and ESC [ D left, so that two different arrow keys
/// never send the same bytes.
pub proof fn lemma_arrow_keys(a: Key, b: Key)
    requires
        a is Up || a is Down || a is Left || a is Right,
        b is Up || b is Down || b is Left || b is Right,
    ensures
        key_bytes(Key::Up) == seq![0x1bu8, 0x5bu8, 0x41u8],
        key_bytes(Key::Down) == seq![0x1bu8, 0x5bu8, 0x42u8],
        key_bytes(Key::Right) == seq![0x1bu8, 0x5bu8, 0x43u8],
        key_bytes(Key::Left) == seq![0x1bu8, 0x5bu8, 0x44u8],
        key_bytes(a).len() == 3 && key_bytes(a)[0] == 0x1bu8 && key_bytes(a)[1] == 0x5bu8,
        key_bytes(a) == key_bytes(b) <==> a == b,
{
    if a != b {
        assert(key_bytes(a)[2] != key_bytes(b)[2]);
    }
}

/// Whether a key is one of the keys without a parameter.
pub open spec fn named_key(k: Key) -> bool {
    k is Enter || k is Tab || k is Backspace || k is Escape || k is Up || k is Down || k is Left || k is Right
        || k is Home || k is End || k is PageUp || k is PageDown || k is Insert || k is Delete
}

/// Two different keys without a parameter never send the same bytes.
pub proof fn lemma_named_keys_distinct(a: Key, b: Key)
    requires
        named_key(a),
        named_key(b),
    ensures
        key_bytes(a) == key_bytes(b) <==> a == b,
{
    if key_bytes(a) == key_bytes(b) {
        assert(key_bytes(a).len() == key_bytes(b).len());
        assert(key_bytes(a)[0] == key_bytes(b)[0]);
        if key_bytes(a).len() >= 3 {
            assert(key_bytes(a)[2] == key_bytes(b)[2]);
        }
    }
}

/// The keys without a parameter send the standard terminal sequences:
/// carriage return, tab, DEL and ESC; the CSI sequences for the cursor and
/// editing keys; and F1 to F4 are ESC O P to ESC O S.
pub proof fn lemma_standard_sequences(n: u8)
    ensures
        key_bytes(Key::Enter) == seq![0x0du8],
        key_bytes(Key::Tab) == seq![0x09u8],
        key_bytes(Key::Backspace) == seq![0x7fu8],
        key_bytes(Key::Escape) == seq![0x1bu8],
        key_bytes(Key::Home) == seq![0x1bu8, 0x5bu8, 0x48u8],
        key_bytes(Key::End) == seq![0x1bu8, 0x5bu8, 0x46u8],
        key_bytes(Key::PageUp) == seq![0x1bu8, 0x5bu8, 0x35u8, 0x7eu8],
        key_bytes(Key::PageDown) == seq![0x1bu8, 0x5bu8, 0x36u8, 0x7eu8],
        key_bytes(Key::Insert) == seq![0x1bu8, 0x5bu8, 0x32u8, 0x7eu8],
        key_bytes(Key::Delete) == seq![0x1bu8, 0x5bu8, 0x33u8, 0x7eu8],
        1 <= n <= 4 ==> key_bytes(Key::F(n)) == seq![0x1bu8, 0x4fu8, (0x4f + n) as u8],
        n == 0 || n > 12 ==> key_bytes(Key::F(n)).len() == 0,
{
}

/// Alt with a character sends ESC and then what the character alone sends.
pub proof fn lemma_alt_is_escape_prefix(c: char)
    ensures
        key_bytes(Key::Alt(c)) == seq![0x1bu8] + key_bytes(Key::Char(c)),
{
}

/// Ctrl with a letter, in either case, sends the letter's place in the
/// alphabet: Ctrl+A is 1, Ctrl+C is 3, Ctrl+Z is 26.
pub proof fn lemma_ctrl_letters(c: char)
    requires
        ('a' <= c && c <= 'z') || ('A' <= c && c <= 'Z'),
    ensures
        key_bytes(Key::Ctrl(c)) == seq![(if c >= 'a' { c as u32 - 'a' as u32 + 1 } else { c as u32 - 'A' as u32 + 1 }) as u8],
{
}

/// Rust's `str::parse::<u64>`: an optional `+` and at least one decimal
/// digit, of a value that fits.
pub open spec fn parse_unsigned(s: Seq<char>, max: nat) -> Option<nat> {
    let d = unsigned_digits(s);
    if d.len() > 0 && all_digits(d) && digits_value(d) <= max {
        Some(digits_value(d))
    } else {
        None
    }
}

/// A number's text without its optional leading `+`.
pub open spec fn unsigned_digits(s: Seq<char>) -> Seq<char> {
    if s.len() > 0 && s[0] == '+' {
        s.drop_first()
    } else {
        s
    }
}

/// Whether every character is a decimal digit.
pub open spec fn all_digits(d: Seq<char>) -> bool {
    forall|i: int| 0 <= i < d.len() ==> is_digit(#[trigger] d[i])
}

/// Automation engine: the execution context of the scripts it runs.
pub struct AutomationEngine {
    context: ExecutionContext,
}

/// Whether `c` is an ASCII decimal digit.
pub open spec fn is_digit(c: char) -> bool {
    '0' <= c && c <= '9'
}

/// The value of a string of decimal digits.
pub open spec fn digits_value(d: Seq<char>) -> nat
    decreases d.len(),
{
    if d.len() == 0 {
        0
    } else {
        digits_value(d.drop_last()) * 10 + ((d.last() as u32) - ('0' as u32)) as nat
    }
}

/// Parses an unsigned decimal number no greater than `max`.
pub fn parse_number(v: &Vec<char>, max: u64) -> (r: Option<u64>)
    ensures
        match parse_unsigned(v@, max as nat) {
            Some(n) => r == Some(n as u64),
            None => r is None,
        },
{
    let start: usize = if v.len() > 0 && v[0] == '+' { 1 } else { 0 };
    let ghost d = unsigned_digits(v@);
    assert(d =~= v@.subrange(start as int, v@.len() as int));
    if start >= v.len() {
        return None;
    }
    let mut value: u64 = 0;
    let mut i = start;
    while i < v.len()
        invariant
            start <= i <= v@.len(),
            start < v@.len(),
            d == v@.subrange(start as int, v@.len() as int),
            d == unsigned_digits(v@),
            forall|k: int| start <= k < i ==> is_digit(#[trigger] v@[k]),
            value == digits_value(v@.subrange(start as int, i as int)),
            value <= max,
        decreases v.len() - i,
    {
        let c = v[i];
        if !('0' <= c && c <= '9') {
            assert(!is_digit(d[i - start]));
            assert(!all_digits(d));
            return None;
        }
        let digit = (c as u32 - '0' as u32) as u64;
        assert(v@.subrange(start as int, i + 1).drop_last() =~= v@.subrange(start as int, i as int));
        if digit > max || value > (max - digit) / 10 {
            proof {
                assert(v@.subrange(start as int, i + 1) =~= d.subrange(0, i + 1 - start));
                assert(value * 10 + digit > max) by (nonlinear_arith)
                    requires
                        digit > max || value > (max - digit) / 10,
                        digit <= 9,
                ;
                if all_digits(d) {
                    lemma_digits_prefix_bound(d, i + 1 - start);
                    assert(digits_value(d.subrange(0, i + 1 - start)) == value * 10 + digit);
                    assert(digits_value(d) > max);
                }
            }
            return None;
        }
        value = value * 10 + digit;
        i = i + 1;
    }
    assert(v@.subrange(start as int, v@.len() as int) =~= d);
    assert forall|k: int| 0 <= k < d.len() implies is_digit(#[trigger] d[k]) by {
        assert(d[k] == v@[start + k]);
    }
    Some(value)
}

proof fn lemma_digits_prefix_bound(d: Seq<char>, k: int)
    requires
        0 <= k <= d.len(),
        forall|i: int| 0 <= i < d.len() ==> is_digit(#[trigger] d[i]),
    ensures
        digits_value(d.subrange(0, k)) <= digits_value(d),
    decreases d.len() - k,
{
    if k < d.len() {
        lemma_digits_prefix_bound(d, k + 1);
        assert(d.subrange(0, k + 1).drop_last() =~= d.subrange(0, k));
        if k + 1 < d.len() || k + 1 == d.len() {
            assert(digits_value(d.subrange(0, k + 1)) >= digits_value(d.subrange(0, k))) by (nonlinear_arith)
                requires
                    digits_value(d.subrange(0, k + 1)) == digits_value(d.subrange(0, k)) * 10
                        + ((d.subrange(0, k + 1).last() as u32) - ('0' as u32)) as nat,
            ;
        }
        if k + 1 == d.len() {
            assert(d.subrange(0, k + 1) =~= d);
        }
    } else {
        assert(d.subrange(0, k) =~= d);
    }
}

pub proof fn lemma_encode_concat(a: Seq<char>, b: Seq<char>)
    ensures
        encode_utf8(a + b) == encode_utf8(a) + encode_utf8(b),
    decreases a.len(),
{
    if a.len() > 0 {
        lemma_encode_concat(a.drop_first(), b);
        assert((a + b).drop_first() =~= a.drop_first() + b);
        assert((a + b)[0] == a[0]);
        assert(encode_utf8(a + b) =~= encode_utf8(a) + encode_utf8(b));
    } else {
        assert(a + b =~= b);
    }
}

pub proof fn lemma_encode_len(a: Seq<char>)
    ensures
        encode_utf8(a).len() >= a.len(),
        a.len() > 0 ==> encode_utf8(a).len() > 0,
    decreases a.len(),
{
    if a.len() > 0 {
        lemma_encode_len(a.drop_first());
        assert(vstd::utf8::encode_scalar(a[0] as u32).len() >= 1);
    }
}

/// The UTF-8 bytes of a string.
pub fn bytes_of(s: &str) -> (b: Vec<u8>)
    ensures
        b@ == encode_utf8(s@),
{
    let sl = s.as_bytes();
    vstd::slice::slice_to_vec(sl)
}

/// Appends bytes.
fn push_bytes(out: &mut Vec<u8>, b: &Vec<u8>)
    ensures
        final(out)@ == old(out)@ + b@,
{
    let ghost o = out@;
    let mut i: usize = 0;
    while i < b.len()
        invariant
            i <= b@.len(),
            out@ == o + b@.subrange(0, i as int),
        decreases b.len() - i,
    {
        out.push(b[i]);
        i = i + 1;
        assert(out@ =~= o + b@.subrange(0, i as int));
    }
    assert(b@.subrange(0, b@.len() as int) =~= b@);
}

/// The UTF-8 bytes of one character.
pub fn char_bytes(c: char) -> (b: Vec<u8>)
    ensures
        b@ == encode_utf8(seq![c]),
{
    let mut s = String::new();
    push_char(&mut s, c);
    assert(s@ =~= seq![c]);
    bytes_of(s.as_str())
}

/// The key a name stands for: `ENTER`, `TAB`, `F1`..`F12`, `CTRL+x`,
/// `ALT+x` and the like in any case, or a single one-byte character.
pub open spec fn key_named(s: Seq<char>) -> Option<Key> {
    let u = uppercase(s);
    if u == "ENTER"@ || u == "RETURN"@ {
        Some(Key::Enter)
    } else if u == "TAB"@ {
        Some(Key::Tab)
    } else if u == "BACKSPACE"@ {
        Some(Key::Backspace)
    } else if u == "ESCAPE"@ || u == "ESC"@ {
        Some(Key::Escape)
    } else if u == "UP"@ {
        Some(Key::Up)
    } else if u == "DOWN"@ {
        Some(Key::Down)
    } else if u == "LEFT"@ {
        Some(Key::Left)
    } else if u == "RIGHT"@ {
        Some(Key::Right)
    } else if u == "HOME"@ {
        Some(Key::Home)
    } else if u == "END"@ {
        Some(Key::End)
    } else if u == "PAGEUP"@ {
        Some(Key::PageUp)
    } else if u == "PAGEDOWN"@ {
        Some(Key::PageDown)
    } else if u == "INSERT"@ {
        Some(Key::Insert)
    } else if u == "DELETE"@ {
        Some(Key::Delete)
    } else if u.len() > 0 && u[0] == 'F' && byte_len(u) <= 3 {
        match parse_unsigned(u.drop_first(), 255) {
            Some(n) => if 1 <= n <= 12 { Some(Key::F(n as u8)) } else { None },
            None => None,
        }
    } else if is_prefix("CTRL+"@, u) && byte_len(u) == 6 {
        Some(Key::Ctrl(u[5]))
    } else if is_prefix("ALT+"@, u) && byte_len(u) == 5 {
        Some(Key::Alt(u[4]))
    } else if byte_len(s) == 1 {
        Some(Key::Char(s[0]))
    } else {
        None
    }
}

proof fn lemma_prefix_longer(u: Seq<char>, p: Seq<char>, n: nat)
    requires
        is_prefix(p, u),
        byte_len(u) == n,
        byte_len(p) < n,
    ensures
        u.len() > p.len(),
{
    if u.len() == p.len() {
        assert(u.subrange(0, p.len() as int) =~= u);
    }
}

/// The byte length of `v`, or `cap + 1` if it is greater than `cap`.
pub fn byte_len_capped(v: &Vec<char>, cap: usize) -> (n: usize)
    requires
        cap < usize::MAX - 4,
    ensures
        byte_len(v@) <= cap ==> n == byte_len(v@),
        byte_len(v@) > cap ==> n == cap + 1,
{
    let mut n: usize = 0;
    let mut i: usize = 0;
    while i < v.len()
        invariant
            i <= v.len(),
            cap < usize::MAX - 4,
            n == byte_len(v@.subrange(0, i as int)),
            n <= cap,
        decreases v.len() - i,
    {
        proof {
            assert(v@.subrange(0, i + 1) =~= v@.subrange(0, i as int).push(v@[i as int]));
            crate::fmt::lemma_byte_len_push(v@.subrange(0, i as int), v@[i as int]);
        }
        n = n + crate::fmt::char_utf8_width(v[i]);
        i = i + 1;
        if n > cap {
            proof {
                crate::fmt::lemma_byte_len_prefix_mono(v@, i as int, v@.len() as int);
                assert(v@.subrange(0, v@.len() as int) =~= v@);
            }
            return cap + 1;
        }
    }
    assert(v@.subrange(0, v.len() as int) =~= v@);
    n
}

impl Key {
    /// Convert key to terminal byte sequence
    pub fn to_bytes(&self) -> (b: Vec<u8>)
        ensures
            b@ == key_bytes(*self),
    {
        match self {
            Key::Enter => vec![13u8],
            Key::Tab => vec![9u8],
            Key::Backspace => vec![0x7fu8],
            Key::Escape => vec![0x1bu8],
            Key::Up => vec![0x1bu8, 0x5bu8, 0x41u8],
            Key::Down => vec![0x1bu8, 0x5bu8, 0x42u8],
            Key::Right => vec![0x1bu8, 0x5bu8, 0x43u8],
            Key::Left => vec![0x1bu8, 0x5bu8, 0x44u8],
            Key::F(n) => {
                let n = *n;
                if n >= 1 && n <= 4 {
                    vec![0x1bu8, 0x4fu8, 0x50u8 + n - 1]
                } else if n >= 5 && n <= 12 {
                    let digits = decimal_chars((15 + n - 5) as u64);
                    let ds = string_of(&digits);
                    let db = bytes_of(ds.as_str());
                    let mut out: Vec<u8> = vec![0x1bu8, 0x5bu8];
                    push_bytes(&mut out, &db);
                    out.push(0x7eu8);
                    assert(out@ =~= seq![0x1bu8, 0x5bu8] + encode_utf8(decimal((15 + n - 5) as nat)) + seq![0x7eu8]);
                    out
                } else {
                    Vec::new()
                }
            },
            Key::Home => vec![0x1bu8, 0x5bu8, 0x48u8],
            Key::End => vec![0x1bu8, 0x5bu8, 0x46u8],
            Key::PageUp => vec![0x1bu8, 0x5bu8, 0x35u8, 0x7eu8],
            Key::PageDown => vec![0x1bu8, 0x5bu8, 0x36u8, 0x7eu8],
            Key::Insert => vec![0x1bu8, 0x5bu8, 0x32u8, 0x7eu8],
            Key::Delete => vec![0x1bu8, 0x5bu8, 0x33u8, 0x7eu8],
            Key::Ctrl(c) => {
                let byte = ((*c as u32) % 32) as u8;
                vec![byte]
            },
            Key::Alt(c) => {
                let cb = char_bytes(*c);
                let mut out: Vec<u8> = vec![0x1bu8];
                push_bytes(&mut out, &cb);
                out
            },
            Key::Char(c) => char_bytes(*c),
        }
    }

    /// Parse key from string representation
    pub fn from_str(s: &str) -> (r: Option<Self>)
        ensures
            r == key_named(s@),
    {
        let u = to_uppercase(s);
        let uv = chars_of(u.as_str());
        if is_text(&uv, "ENTER") || is_text(&uv, "RETURN") {
            return Some(Key::Enter);
        } else if is_text(&uv, "TAB") {
            return Some(Key::Tab);
        } else if is_text(&uv, "BACKSPACE") {
            return Some(Key::Backspace);
        } else if is_text(&uv, "ESCAPE") || is_text(&uv, "ESC") {
            return Some(Key::Escape);
        } else if is_text(&uv, "UP") {
            return Some(Key::Up);
        } else if is_text(&uv, "DOWN") {
            return Some(Key::Down);
        } else if is_text(&uv, "LEFT") {
            return Some(Key::Left);
        } else if is_text(&uv, "RIGHT") {
            return Some(Key::Right);
        } else if is_text(&uv, "HOME") {
            return Some(Key::Home);
        } else if is_text(&uv, "END") {
            return Some(Key::End);
        } else if is_text(&uv, "PAGEUP") {
            return Some(Key::PageUp);
        } else if is_text(&uv, "PAGEDOWN") {
            return Some(Key::PageDown);
        } else if is_text(&uv, "INSERT") {
            return Some(Key::Insert);
        } else if is_text(&uv, "DELETE") {
            return Some(Key::Delete);
        }
        let ulen = byte_len_capped(&uv, 8);
        if uv.len() > 0 && uv[0] == 'F' && ulen <= 3 {
            let rest = slice_chars(&uv, 1, uv.len());
            assert(rest@ =~= uv@.drop_first());
            return match parse_number(&rest, 255) {
                Some(n) => if n >= 1 && n <= 12 { Some(Key::F(n as u8)) } else { None },
                None => None,
            };
        }
        let ctrl = chars_of("CTRL+");
        if starts_with(&uv, &ctrl) && ulen == 6 {
            proof {
                reveal_strlit("CTRL+");
                reveal_with_fuel(byte_len, 6);
                assert(byte_len("CTRL+"@) == 5);
                lemma_prefix_longer(uv@, "CTRL+"@, 6);
            }
            return Some(Key::Ctrl(uv[5]));
        }
        let alt = chars_of("ALT+");
        if starts_with(&uv, &alt) && ulen == 5 {
            proof {
                reveal_strlit("ALT+");
                reveal_with_fuel(byte_len, 5);
                assert(byte_len("ALT+"@) == 4);
                lemma_prefix_longer(uv@, "ALT+"@, 5);
            }
            return Some(Key::Alt(uv[4]));
        }
        let sv = chars_of(s);
        if byte_len_capped(&sv, 8) == 1 {
            proof {
                lemma_byte_len_bounds(s@);
            }
            return Some(Key::Char(sv[0]));
        }
        None
    }
}

/// Errors that can occur during automation
#[derive(Debug)]
pub enum AutomationError {
    /// Terminal operation failed
    PtyError(String),
    /// Timeout while waiting for pattern
    Timeout(String),
    /// Expected pattern not found
    ExpectationFailed(String),
    /// Invalid command syntax
    InvalidSyntax(String),
    /// Variable not found
    VariableNotFound(String),
    /// Script parsing error
    ParseError { line: usize, message: String },
    /// General execution error
    ExecutionError(String),
}

/// Whether `r` is a parse error at line `n` with message `msg`.
pub open spec fn parse_error<T>(r: Result<T, AutomationError>, n: usize, msg: Seq<char>) -> bool {
    r matches Err(AutomationError::ParseError { line, message }) && line == n && message@ == msg
}

/// Whether a text, once trimmed, is a lone quote character (which has no
/// inside to take out).
pub open spec fn lone_quote(s: Seq<char>) -> bool {
    let t = trim(s);
    t.len() == 1 && (t[0] == '"' || t[0] == '\'')
}

/// A trimmed text with one pair of matching double or single quotes taken
/// off.
pub open spec fn unquoted_arg(s: Seq<char>) -> Seq<char> {
    let t = trim(s);
    if t.len() > 0 && ((t[0] == '"' && t.last() == '"') || (t[0] == '\'' && t.last() == '\'')) {
        t.subrange(1, t.len() - 1)
    } else {
        t
    }
}

/// The parts of a duration text: the number's text and the unit (`ms`, `s`
/// or `m`), if the trimmed text ends in one.
pub open spec fn duration_parts(s: Seq<char>) -> Option<(Seq<char>, Seq<char>)> {
    let t = trim(s);
    if is_suffix("ms"@, t) {
        Some((t.subrange(0, t.len() - 2), "ms"@))
    } else if t.len() > 0 && t.last() == 's' {
        Some((t.subrange(0, t.len() - 1), "s"@))
    } else if t.len() > 0 && t.last() == 'm' {
        Some((t.subrange(0, t.len() - 1), "m"@))
    } else {
        None
    }
}

/// Whether a duration in minutes is too large to count in seconds.
pub open spec fn duration_overflows(s: Seq<char>) -> bool {
    match duration_parts(s) {
        Some((v, u)) => u == "m"@ && match parse_unsigned(v, u64::MAX as nat) {
            Some(n) => n * 60 > u64::MAX,
            None => false,
        },
        None => false,
    }
}

/// The duration a text stands for, or the message of why it stands for none.
pub open spec fn duration_of(s: Seq<char>) -> Result<Duration, Seq<char>> {
    match duration_parts(s) {
        None => Err("Invalid duration format: "@ + trim(s)),
        Some((v, u)) => match parse_unsigned(v, u64::MAX as nat) {
            None => Err("Invalid duration value: "@ + v),
            Some(n) => Ok(
                if u == "ms"@ {
                    duration_of_millis(n as u64)
                } else if u == "s"@ {
                    duration_of_secs(n as u64)
                } else {
                    duration_of_secs((n * 60) as u64)
                },
            ),
        },
    }
}

impl AutomationEngine {
    /// Remove one pair of matching quotes from a trimmed string
    pub fn unquote(s: &str) -> (r: String)
        requires
            !lone_quote(s@),
        ensures
            r@ == unquoted_arg(s@),
    {
        let v = chars_of(s);
        let t = trim_chars(&v);
        let n = t.len();
        if n > 0 && ((t[0] == '"' && t[n - 1] == '"') || (t[0] == '\'' && t[n - 1] == '\'')) {
            crate::text::string_of_range(&t, 1, n - 1)
        } else {
            string_of(&t)
        }
    }

    /// Parse duration string (e.g. "5s", "100ms", "2m")
    pub fn parse_duration(s: &str, line_num: usize) -> (r: Result<Duration, AutomationError>)
        requires
            !duration_overflows(s@),
        ensures
            match duration_of(s@) {
                Ok(d) => r matches Ok(x) && x == d,
                Err(msg) => parse_error(r, line_num, msg),
            },
    {
        let v = chars_of(s);
        let t = trim_chars(&v);
        let n = t.len();
        let ms = chars_of("ms");
        proof {
            reveal_strlit("ms");
            reveal_strlit("s");
            reveal_strlit("m");
        }
        let (value_v, unit): (Vec<char>, u8) = if ends_with(&t, &ms) {
            (slice_chars(&t, 0, n - 2), 0)
        } else if n > 0 && t[n - 1] == 's' {
            (slice_chars(&t, 0, n - 1), 1)
        } else if n > 0 && t[n - 1] == 'm' {
            (slice_chars(&t, 0, n - 1), 2)
        } else {
            let mut msg = owned("Invalid duration format: ");
            push_str(&mut msg, string_of(&t).as_str());
            return Err(AutomationError::ParseError { line: line_num, message: msg });
        };
        let ghost unit_text = if unit == 0 { "ms"@ } else if unit == 1 { "s"@ } else { "m"@ };
        assert(duration_parts(s@) == Some((value_v@, unit_text)));
        match parse_number(&value_v, u64::MAX) {
            None => {
                let mut msg = owned("Invalid duration value: ");
                push_str(&mut msg, string_of(&value_v).as_str());
                Err(AutomationError::ParseError { line: line_num, message: msg })
            },
            Some(value) => {
                assert(parse_unsigned(value_v@, u64::MAX as nat) == Some(value as nat));
                if unit == 0 {
                    assert(duration_of(s@) == Ok::<Duration, Seq<char>>(duration_of_millis(value)));
                    Ok(millis(value))
                } else if unit == 1 {
                    assert("s"@ != "ms"@);
                    assert(duration_of(s@) == Ok::<Duration, Seq<char>>(duration_of_secs(value)));
                    Ok(secs(value))
                } else {
                    proof {
                        reveal_strlit("m");
                        reveal_strlit("s");
                        assert("m"@[0] == 'm');
                        assert("s"@[0] == 's');
                    }
                    assert("m"@ != "ms"@ && "m"@ != "s"@);
                    assert(!duration_overflows(s@));
                    assert(value * 60 <= u64::MAX);
                    assert(duration_of(s@) == Ok::<Duration, Seq<char>>(duration_of_secs((value * 60) as u64)));
                    Ok(secs(value * 60))
                }
            },
        }
    }
}

/// Pattern for matching terminal output
#[derive(Debug)]
pub enum Pattern {
    /// Exact string match
    Exact(String),
    /// Regular expression match, by the expression's text
    Regex(String),
    /// Any of multiple patterns
    AnyOf(Vec<Pattern>),
    /// All patterns must match
    AllOf(Vec<Pattern>),
}

/// Whether a pattern matches a text: an exact pattern occurs in it, a
/// regular expression that compiles matches it, any/all of several patterns
/// match it.
pub open spec fn pattern_matches(p: Pattern, text: Seq<char>) -> bool
    decreases p,
{
    match p {
        Pattern::Exact(s) => contains_sub(text, s@),
        Pattern::Regex(re) => pattern_hits(re@, text),
        Pattern::AnyOf(ps) => exists|i: int| 0 <= i < ps@.len() && pattern_matches(#[trigger] ps@[i], text),
        Pattern::AllOf(ps) => forall|i: int| 0 <= i < ps@.len() ==> pattern_matches(#[trigger] ps@[i], text),
    }
}

impl Pattern {
    /// Check if pattern matches the given text
    pub fn matches(&self, text: &str) -> (b: bool)
        ensures
            b == pattern_matches(*self, text@),
        decreases *self,
    {
        match self {
            Pattern::Exact(s) => {
                let tv = chars_of(text);
                let sv = chars_of(s.as_str());
                contains(&tv, &sv)
            },
            Pattern::Regex(re) => match regex_match(re.as_str(), text) {
                Some(b) => b,
                None => false,
            },
            Pattern::AnyOf(ps) => {
                let mut i: usize = 0;
                while i < ps.len()
                    invariant
                        i <= ps@.len(),
                        *self == Pattern::AnyOf(*ps),
                        forall|k: int| 0 <= k < i ==> !pattern_matches(#[trigger] ps@[k], text@),
                    decreases ps.len() - i,
                {
                    proof {
                        assert(self->AnyOf_0 == *ps);
                        assert(decreases_to!(*self => self->AnyOf_0));
                        assert(decreases_to!(*ps => ps@));
                        assert(decreases_to!(ps@ => ps@[i as int]));
                    }
                    if ps[i].matches(text) {
                        return true;
                    }
                    i = i + 1;
                }
                false
            },
            Pattern::AllOf(ps) => {
                let mut i: usize = 0;
                while i < ps.len()
                    invariant
                        i <= ps@.len(),
                        *self == Pattern::AllOf(*ps),
                        forall|k: int| 0 <= k < i ==> pattern_matches(#[trigger] ps@[k], text@),
                    decreases ps.len() - i,
                {
                    proof {
                        assert(self->AllOf_0 == *ps);
                        assert(decreases_to!(*self => self->AllOf_0));
                        assert(decreases_to!(*ps => ps@));
                        assert(decreases_to!(ps@ => ps@[i as int]));
                    }
                    if !ps[i].matches(text) {
                        return false;
                    }
                    i = i + 1;
                }
                true
            },
        }
    }
}

/// What a pattern extracts from a text: an exact pattern itself when it
/// occurs; the leftmost match of a regular expression that compiles; the
/// first extraction among several patterns, tried in order; the whole text
/// when all of several patterns match.
pub open spec fn extracted(p: Pattern, text: Seq<char>) -> Option<Seq<char>>
    decreases p, 0int,
{
    match p {
        Pattern::Exact(s) => if contains_sub(text, s@) { Some(s@) } else { None },
        Pattern::Regex(re) => if regex_compiles(re@) { regex_first(re@, text) } else { None },
        Pattern::AnyOf(ps) => extracted_from(ps@, 0, text),
        Pattern::AllOf(ps) => if forall|i: int| 0 <= i < ps@.len() ==> pattern_matches(#[trigger] ps@[i], text) {
            Some(text)
        } else {
            None
        },
    }
}

/// The first extraction of the patterns from position `i` on, tried in order.
pub open spec fn extracted_from(ps: Seq<Pattern>, i: int, text: Seq<char>) -> Option<Seq<char>>
    decreases ps, ps.len() - i,
{
    if 0 <= i < ps.len() {
        match extracted(ps[i], text) {
            Some(x) => Some(x),
            None => extracted_from(ps, i + 1, text),
        }
    } else {
        None
    }
}

impl Pattern {
    /// Extract matched text from the input
    pub fn extract(&self, text: &str) -> (r: Option<String>)
        ensures
            match (r, extracted(*self, text@)) {
                (Some(a), Some(b)) => a@ == b,
                (None, None) => true,
                _ => false,
            },
        decreases *self,
    {
        match self {
            Pattern::Exact(s) => {
                let tv = chars_of(text);
                let sv = chars_of(s.as_str());
                if contains(&tv, &sv) {
                    Some(owned(s.as_str()))
                } else {
                    None
                }
            },
            Pattern::Regex(re) => match regex_find(re.as_str(), text) {
                Some(m) => m,
                None => None,
            },
            Pattern::AnyOf(ps) => {
                let mut i: usize = 0;
                while i < ps.len()
                    invariant
                        i <= ps@.len(),
                        *self == Pattern::AnyOf(*ps),
                        extracted(*self, text@) == extracted_from(ps@, i as int, text@),
                    decreases ps.len() - i,
                {
                    proof {
                        assert(self->AnyOf_0 == *ps);
                        assert(decreases_to!(*self => self->AnyOf_0));
                        assert(decreases_to!(*ps => ps@));
                        assert(decreases_to!(ps@ => ps@[i as int]));
                    }
                    let got = ps[i].extract(text);
                    if got.is_some() {
                        return got;
                    }
                    i = i + 1;
                }
                None
            },
            Pattern::AllOf(ps) => {
                if self.matches(text) {
                    Some(owned(text))
                } else {
                    None
                }
            },
        }
    }
}

/// Names and values, as text.
pub open spec fn pairs_view(v: Seq<(String, String)>) -> Seq<(Seq<char>, Seq<char>)> {
    v.map_values(|p: (String, String)| (p.0@, p.1@))
}

/// The value of the first entry called `name`, if any.
pub open spec fn value_of(v: Seq<(Seq<char>, Seq<char>)>, name: Seq<char>) -> Option<Seq<char>>
    decreases v.len(),
{
    if v.len() == 0 {
        None
    } else if v[0].0 == name {
        Some(v[0].1)
    } else {
        value_of(v.drop_first(), name)
    }
}

/// The entries with the value of `name` set: the first entry called `name`
/// gets the value, or a new entry goes at the end.
pub open spec fn with_value(v: Seq<(Seq<char>, Seq<char>)>, name: Seq<char>, value: Seq<char>) -> Seq<(Seq<char>, Seq<char>)>
    decreases v.len(),
{
    if v.len() == 0 {
        seq![(name, value)]
    } else if v[0].0 == name {
        v.update(0, (name, value))
    } else {
        seq![v[0]] + with_value(v.drop_first(), name, value)
    }
}

/// The variables after each of `pairs` is set in turn.
pub open spec fn with_values(v: Seq<(Seq<char>, Seq<char>)>, pairs: Seq<(Seq<char>, Seq<char>)>) -> Seq<(Seq<char>, Seq<char>)>
    decreases pairs.len(),
{
    if pairs.len() == 0 {
        v
    } else {
        with_value(with_values(v, pairs.drop_last()), pairs.last().0, pairs.last().1)
    }
}

/// The number of characters before the first `}` of `s` (all of them when
/// it has none).
pub open spec fn name_run(s: Seq<char>) -> nat
    decreases s.len(),
{
    if s.len() > 0 && s[0] != '}' {
        1 + name_run(s.drop_first())
    } else {
        0
    }
}

/// The `${ENV:NAME}` placeholders of a text, in order and without overlap,
/// each whole and by its name: at the first place where `${ENV:` is followed
/// by one or more characters other than `}` and then `}`, and again after
/// it (what `\$\{ENV:([^}]+)\}` matches and captures).
pub open spec fn env_placeholders(t: Seq<char>) -> Seq<(Seq<char>, Seq<char>)>
    decreases t.len(),
{
    if t.len() == 0 {
        seq![]
    } else if t.len() >= 6 && t.subrange(0, 6) == "${ENV:"@ && name_run(t.subrange(6, t.len() as int)) > 0
        && 6 + name_run(t.subrange(6, t.len() as int)) < t.len() {
        let k = name_run(t.subrange(6, t.len() as int)) as int;
        seq![(t.subrange(0, 7 + k), t.subrange(6, 6 + k))] + env_placeholders(t.subrange(7 + k, t.len() as int))
    } else {
        env_placeholders(t.drop_first())
    }
}

#[verifier::external_body]
fn env_references(text: &str) -> (r: Vec<(String, String)>)
    ensures
        pairs_view(r@) == env_placeholders(text@),
        forall|i: int| 0 <= i < r@.len() ==> (#[trigger] r@[i]).0@.len() > 0,
{
    let re = regex::Regex::new(r"\$\{ENV:([^}]+)\}").unwrap();
    re.captures_iter(text).map(|c| (c[0].to_string(), c[1].to_string())).collect()
}

/// The text with the variables substituted: each variable in turn, `${NAME}`
/// then `$NAME`.
pub open spec fn with_variables(text: Seq<char>, vars: Seq<(Seq<char>, Seq<char>)>) -> Seq<char>
    decreases vars.len(),
{
    if vars.len() == 0 {
        text
    } else {
        let t = with_variables(text, vars.drop_last());
        let (n, v) = vars.last();
        replaced(replaced(t, "${"@ + n + "}"@, v), "$"@ + n, v)
    }
}

/// The text with each `${ENV:NAME}` placeholder whose variable is in the
/// environment replaced by its value, in turn.
pub open spec fn with_env(text: Seq<char>, refs: Seq<(Seq<char>, Seq<char>)>, env: Seq<(Seq<char>, Seq<char>)>) -> Seq<char>
    decreases refs.len(),
{
    if refs.len() == 0 {
        text
    } else {
        let t = with_env(text, refs.drop_last(), env);
        match value_of(env, refs.last().1) {
            Some(v) => replaced(t, refs.last().0, v),
            None => t,
        }
    }
}

/// `text` with variables and environment placeholders expanded.
pub open spec fn expansion_of(text: Seq<char>, vars: Seq<(Seq<char>, Seq<char>)>, env: Seq<(Seq<char>, Seq<char>)>) -> Seq<char> {
    with_env(with_variables(text, vars), env_placeholders(text), env)
}

/// Execution context for automation scripts
pub struct ExecutionContext {
    /// Variables defined in the script, by name
    pub variables: Vec<(String, String)>,
    /// Last captured output
    pub last_capture: Option<String>,
    /// Output buffer for pattern matching
    pub output_buffer: String,
    /// Maximum output buffer size in bytes
    pub max_buffer_size: usize,
}

/// Sets the value of `name` among some names and values: the first entry
/// called `name` takes the value, or a new entry goes at the end.
pub fn set_value(vars: &mut Vec<(String, String)>, name: &str, value: &str)
    ensures
        pairs_view(final(vars)@) == with_value(pairs_view(old(vars)@), name@, value@),
{
    let ghost v0 = pairs_view(vars@);
    let mut i: usize = 0;
    assert(v0.subrange(0, 0) + with_value(v0.subrange(0, v0.len() as int), name@, value@) =~= with_value(v0, name@, value@)) by {
        assert(v0.subrange(0, v0.len() as int) =~= v0);
    }
    while i < vars.len()
        invariant
            i <= vars@.len(),
            v0 == pairs_view(vars@),
            vars@ == old(vars)@,
            forall|k: int| 0 <= k < i ==> (#[trigger] v0[k]).0 != name@,
            with_value(v0, name@, value@) == v0.subrange(0, i as int) + with_value(
                v0.subrange(i as int, v0.len() as int), name@, value@),
        decreases vars.len() - i,
    {
        let ghost rest = v0.subrange(i as int, v0.len() as int);
        if crate::text::str_eq(vars[i].0.as_str(), name) {
            assert(rest[0].0 == name@);
            assert(with_value(rest, name@, value@) == rest.update(0, (name@, value@)));
            let _ = vars.remove(i);
            vars.insert(i, (owned(name), owned(value)));
            assert(pairs_view(vars@) =~= v0.subrange(0, i as int) + rest.update(0, (name@, value@)));
            return;
        }
        assert(rest.drop_first() =~= v0.subrange(i + 1, v0.len() as int));
        assert(v0.subrange(0, i + 1) =~= v0.subrange(0, i as int) + seq![rest[0]]);
        assert(with_value(v0, name@, value@) =~= v0.subrange(0, i + 1) + with_value(
            v0.subrange(i + 1, v0.len() as int), name@, value@));
        i = i + 1;
    }
    vars.push((owned(name), owned(value)));
    assert(pairs_view(vars@) =~= with_value(v0, name@, value@));
}

/// The text of an optional string.
pub open spec fn opt_text(o: Option<String>) -> Option<Seq<char>> {
    match o {
        Some(s) => Some(s@),
        None => None,
    }
}

/// The buffer after appending: what it held and the new output, with the
/// oldest characters dropped so that no more than `max` bytes remain.
pub open spec fn trimmed_buffer(b: Seq<char>, max: nat) -> Seq<char> {
    if byte_len(b) > max {
        b.subrange(chars_in_bytes(b, (byte_len(b) - max) as nat), b.len() as int)
    } else {
        b
    }
}

proof fn lemma_byte_len_concat(a: Seq<char>, b: Seq<char>)
    ensures
        byte_len(a + b) == byte_len(a) + byte_len(b),
    decreases b.len(),
{
    if b.len() > 0 {
        lemma_byte_len_concat(a, b.drop_last());
        assert((a + b).drop_last() =~= a + b.drop_last());
        assert((a + b).last() == b.last());
    } else {
        assert(a + b =~= a);
    }
}

/// The buffer keeps its newest bytes: after trimming it holds exactly as
/// many bytes as its limit allows, all of them if fewer, and ends as the
/// untrimmed text does.
pub proof fn lemma_trimmed_within(b: Seq<char>, max: nat)
    requires
        cut_on_boundary(b, max),
    ensures
        byte_len(trimmed_buffer(b, max)) == if byte_len(b) > max { max } else { byte_len(b) },
        b.subrange(b.len() - trimmed_buffer(b, max).len(), b.len() as int) == trimmed_buffer(b, max),
{
    if byte_len(b) > max {
        let k = chars_in_bytes(b, (byte_len(b) - max) as nat);
        assert(0 <= k <= b.len());
        lemma_byte_len_concat(b.subrange(0, k), b.subrange(k, b.len() as int));
        assert(b.subrange(0, k) + b.subrange(k, b.len() as int) =~= b);
    } else {
        assert(b.subrange(0, b.len() as int) =~= b);
    }
}

/// Whether the bytes to drop from an overfull buffer end on a character
/// boundary.
pub open spec fn cut_on_boundary(b: Seq<char>, max: nat) -> bool {
    byte_len(b) > max ==> byte_boundary(b, (byte_len(b) - max) as nat)
}

impl Default for ExecutionContext {
    fn default() -> (c: Self)
        ensures
            c.variables@.len() == 0,
            c.last_capture is None,
            c.output_buffer@.len() == 0,
            c.max_buffer_size == 1024 * 1024,
    {
        ExecutionContext { variables: Vec::new(), last_capture: None, output_buffer: String::new(), max_buffer_size: 1024 * 1024 }
    }
}

impl ExecutionContext {
    /// Create a new execution context with initial variables
    pub fn new(variables: Vec<(String, String)>) -> (c: Self)
        ensures
            c.variables@ == variables@,
            c.last_capture is None,
            c.output_buffer@.len() == 0,
            c.max_buffer_size == 1024 * 1024,
    {
        ExecutionContext { variables, last_capture: None, output_buffer: String::new(), max_buffer_size: 1024 * 1024 }
    }

    /// The value of a variable.
    pub fn get_variable(&self, name: &str) -> (r: Option<&String>)
        ensures
            match r {
                Some(v) => value_of(pairs_view(self.variables@), name@) == Some(v@),
                None => value_of(pairs_view(self.variables@), name@) is None,
            },
    {
        let mut i: usize = 0;
        assert(pairs_view(self.variables@).subrange(0, self.variables@.len() as int) =~= pairs_view(self.variables@));
        while i < self.variables.len()
            invariant
                i <= self.variables@.len(),
                value_of(pairs_view(self.variables@), name@) == value_of(
                    pairs_view(self.variables@).subrange(i as int, self.variables@.len() as int), name@),
            decreases self.variables.len() - i,
        {
            let ghost rest = pairs_view(self.variables@).subrange(i as int, self.variables@.len() as int);
            assert(rest.drop_first() =~= pairs_view(self.variables@).subrange(i + 1, self.variables@.len() as int));
            if crate::text::str_eq(self.variables[i].0.as_str(), name) {
                return Some(&self.variables[i].1);
            }
            i = i + 1;
        }
        None
    }

    /// Sets a variable, replacing its value if it is already defined.
    pub fn set_variable(&mut self, name: &str, value: &str)
        ensures
            pairs_view(final(self).variables@) == with_value(pairs_view(old(self).variables@), name@, value@),
            final(self).last_capture == old(self).last_capture,
            final(self).output_buffer == old(self).output_buffer,
            final(self).max_buffer_size == old(self).max_buffer_size,
    {
        set_value(&mut self.variables, name, value);
    }

    /// Add output to the buffer, dropping the oldest bytes beyond the
    /// maximum size
    pub fn append_output(&mut self, output: &str)
        requires
            cut_on_boundary(old(self).output_buffer@ + output@, old(self).max_buffer_size as nat),
        ensures
            final(self).output_buffer@ == trimmed_buffer(old(self).output_buffer@ + output@, old(self).max_buffer_size as nat),
            final(self).variables == old(self).variables,
            final(self).last_capture == old(self).last_capture,
            final(self).max_buffer_size == old(self).max_buffer_size,
    {
        push_str(&mut self.output_buffer, output);
        let v = chars_of(self.output_buffer.as_str());
        let len = crate::fmt::utf8_len_wide(&v);
        if len > self.max_buffer_size as u128 {
            let trim_size = len - self.max_buffer_size as u128;
            let tail = crate::fmt::byte_suffix(&v, trim_size);
            self.output_buffer = string_of(&tail);
        }
    }

    /// Expand variables in text (`${VAR_NAME}` or `$VAR_NAME`), then
    /// `${ENV:NAME}` placeholders from the given environment
    pub fn expand_variables(&self, text: &str, env: &Vec<(String, String)>) -> (r: String)
        ensures
            r@ == expansion_of(text@, pairs_view(self.variables@), pairs_view(env@)),
    {
        let mut result = chars_of(text);
        let ghost vars = pairs_view(self.variables@);
        let mut i: usize = 0;
        assert(vars.subrange(0, 0) =~= Seq::<(Seq<char>, Seq<char>)>::empty());
        while i < self.variables.len()
            invariant
                i <= self.variables@.len(),
                vars == pairs_view(self.variables@),
                result@ == with_variables(text@, vars.subrange(0, i as int)),
            decreases self.variables.len() - i,
        {
            let name = chars_of(self.variables[i].0.as_str());
            let value = chars_of(self.variables[i].1.as_str());
            let mut braced = chars_of("${");
            let mut k: usize = 0;
            let ghost b0 = braced@;
            while k < name.len()
                invariant
                    k <= name@.len(),
                    braced@ == b0 + name@.subrange(0, k as int),
                decreases name.len() - k,
            {
                braced.push(name[k]);
                k = k + 1;
                assert(braced@ =~= b0 + name@.subrange(0, k as int));
            }
            braced.push('}');
            let mut plain = chars_of("$");
            let ghost p0 = plain@;
            let mut k: usize = 0;
            while k < name.len()
                invariant
                    k <= name@.len(),
                    plain@ == p0 + name@.subrange(0, k as int),
                decreases name.len() - k,
            {
                plain.push(name[k]);
                k = k + 1;
                assert(plain@ =~= p0 + name@.subrange(0, k as int));
            }
            proof {
                reveal_strlit("${");
                reveal_strlit("}");
                reveal_strlit("$");
                assert(name@.subrange(0, name@.len() as int) =~= name@);
                assert(braced@ =~= "${"@ + name@ + "}"@);
                assert(plain@ =~= "$"@ + name@);
                let sub = vars.subrange(0, i + 1);
                assert(sub.drop_last() =~= vars.subrange(0, i as int));
                assert(sub.last() == (name@, value@));
            }
            let t = replace_all(&result, &braced, &value);
            result = replace_all(&t, &plain, &value);
            i = i + 1;
        }
        assert(vars.subrange(0, vars.len() as int) =~= vars);
        let refs = env_references(text);
        let ghost rv = pairs_view(refs@);
        let ghost ev = pairs_view(env@);
        let ghost base = result@;
        let mut j: usize = 0;
        assert(rv.subrange(0, 0) =~= Seq::<(Seq<char>, Seq<char>)>::empty());
        while j < refs.len()
            invariant
                j <= refs@.len(),
                rv == pairs_view(refs@),
                ev == pairs_view(env@),
                forall|k: int| 0 <= k < refs@.len() ==> (#[trigger] refs@[k]).0@.len() > 0,
                result@ == with_env(base, rv.subrange(0, j as int), ev),
            decreases refs.len() - j,
        {
            let ghost sub = rv.subrange(0, j + 1);
            assert(sub.drop_last() =~= rv.subrange(0, j as int));
            assert(sub.last() == rv[j as int]);
            let found = lookup_pair(env, refs[j].1.as_str());
            match found {
                Some(val) => {
                    let whole = chars_of(refs[j].0.as_str());
                    let vv = chars_of(val.as_str());
                    result = replace_all(&result, &whole, &vv);
                },
                None => {},
            }
            j = j + 1;
        }
        assert(rv.subrange(0, rv.len() as int) =~= rv);
        string_of(&result)
    }
}

/// The value of the first pair called `name`.
fn lookup_pair<'a>(v: &'a Vec<(String, String)>, name: &str) -> (r: Option<&'a String>)
    ensures
        match r {
            Some(x) => value_of(pairs_view(v@), name@) == Some(x@),
            None => value_of(pairs_view(v@), name@) is None,
        },
{
    let mut i: usize = 0;
    assert(pairs_view(v@).subrange(0, v@.len() as int) =~= pairs_view(v@));
    while i < v.len()
        invariant
            i <= v@.len(),
            value_of(pairs_view(v@), name@) == value_of(pairs_view(v@).subrange(i as int, v@.len() as int), name@),
        decreases v.len() - i,
    {
        let ghost rest = pairs_view(v@).subrange(i as int, v@.len() as int);
        assert(rest.drop_first() =~= pairs_view(v@).subrange(i + 1, v@.len() as int));
        if crate::text::str_eq(v[i].0.as_str(), name) {
            return Some(&v[i].1);
        }
        i = i + 1;
    }
    None
}

/// Condition for conditional execution
#[derive(Debug)]
pub enum Condition {
    /// Variable equals value
    VarEquals(String, String),
    /// Variable contains substring
    VarContains(String, String),
    /// Variable matches a regular expression, given by its text
    VarMatches(String, String),
    /// Environment variable exists
    EnvExists(String),
    /// Pattern matches last captured output
    PatternMatches(Pattern),
    /// Logical AND
    And(Box<Condition>, Box<Condition>),
    /// Logical OR
    Or(Box<Condition>, Box<Condition>),
    /// Logical NOT
    Not(Box<Condition>),
}

/// Whether a condition holds for the variables, the last capture and the
/// environment.
pub open spec fn condition_holds(
    c: Condition,
    vars: Seq<(Seq<char>, Seq<char>)>,
    capture: Option<Seq<char>>,
    env: Seq<(Seq<char>, Seq<char>)>,
) -> bool
    decreases c,
{
    match c {
        Condition::VarEquals(n, v) => value_of(vars, n@) == Some(v@),
        Condition::VarContains(n, sub) => match value_of(vars, n@) {
            Some(x) => contains_sub(x, sub@),
            None => false,
        },
        Condition::VarMatches(n, re) => match value_of(vars, n@) {
            Some(x) => pattern_hits(re@, x),
            None => false,
        },
        Condition::EnvExists(n) => value_of(env, n@) is Some,
        Condition::PatternMatches(p) => match capture {
            Some(t) => pattern_matches(p, t),
            None => false,
        },
        Condition::And(a, b) => condition_holds(*a, vars, capture, env) && condition_holds(*b, vars, capture, env),
        Condition::Or(a, b) => condition_holds(*a, vars, capture, env) || condition_holds(*b, vars, capture, env),
        Condition::Not(a) => !condition_holds(*a, vars, capture, env),
    }
}

impl Condition {
    /// Evaluate the condition, with the environment given as name/value pairs
    pub fn evaluate(&self, context: &ExecutionContext, env: &Vec<(String, String)>) -> (b: bool)
        ensures
            b == condition_holds(*self, pairs_view(context.variables@), opt_text(context.last_capture), pairs_view(env@)),
        decreases *self,
    {
        match self {
            Condition::VarEquals(name, value) => match context.get_variable(name.as_str()) {
                Some(v) => crate::text::str_eq(v.as_str(), value.as_str()),
                None => false,
            },
            Condition::VarContains(name, sub) => match context.get_variable(name.as_str()) {
                Some(v) => contains(&chars_of(v.as_str()), &chars_of(sub.as_str())),
                None => false,
            },
            Condition::VarMatches(name, re) => match context.get_variable(name.as_str()) {
                Some(v) => match regex_match(re.as_str(), v.as_str()) {
                    Some(b) => b,
                    None => false,
                },
                None => false,
            },
            Condition::EnvExists(name) => lookup_pair(env, name.as_str()).is_some(),
            Condition::PatternMatches(p) => match &context.last_capture {
                Some(t) => p.matches(t.as_str()),
                None => false,
            },
            Condition::And(a, b) => a.evaluate(context, env) && b.evaluate(context, env),
            Condition::Or(a, b) => a.evaluate(context, env) || b.evaluate(context, env),
            Condition::Not(a) => !a.evaluate(context, env),
        }
    }
}

/// Automation command that can be executed
#[derive(Debug)]
pub enum AutomationCommand {
    /// Send text to the terminal (with optional newline)
    SendText { text: String, append_newline: bool },
    /// Send key sequence to the terminal
    SendKeys(Vec<Key>),
    /// Wait for a pattern to appear in output
    WaitFor { pattern: Pattern, timeout: Duration },
    /// Capture current terminal output
    Capture { store_in: Option<String> },
    /// Expect a pattern (fails if not found)
    Expect { pattern: Pattern, message: Option<String> },
    /// Set a variable
    SetVariable { name: String, value: String },
    /// Execute commands if the condition holds, others if not
    If { condition: Condition, then_commands: Vec<AutomationCommand>, else_commands: Vec<AutomationCommand> },
    /// Wait for a specific duration
    Sleep(Duration),
    /// Clear the terminal screen
    Clear,
    /// Execute a raw shell command
    Execute { command: String, wait: bool },
}

/// Result of automation command execution
#[derive(Debug)]
pub struct CommandResult {
    /// Whether the command succeeded
    pub success: bool,
    /// Output captured during execution (if any)
    pub output: Option<String>,
    /// Error message (if failed)
    pub error: Option<String>,
    /// Duration of command execution
    pub duration: Duration,
}

/// Automation script containing multiple commands
#[derive(Debug)]
pub struct AutomationScript {
    /// Script name
    pub name: String,
    /// Commands to execute
    pub commands: Vec<AutomationCommand>,
    /// Script variables (name, value)
    pub variables: Vec<(String, String)>,
    /// Script description
    pub description: Option<String>,
}

impl AutomationScript {
    /// Create a new automation script
    pub fn new(name: &str) -> (s: Self)
        ensures
            s.name@ == name@,
            s.commands@.len() == 0,
            s.variables@.len() == 0,
            s.description is None,
    {
        AutomationScript { name: owned(name), commands: Vec::new(), variables: Vec::new(), description: None }
    }

    /// Add a command to the script
    pub fn add_command(&mut self, command: AutomationCommand)
        ensures
            final(self).commands@ == old(self).commands@.push(command),
            final(self).name == old(self).name,
            final(self).variables == old(self).variables,
            final(self).description == old(self).description,
    {
        self.commands.push(command);
    }

    /// Set a variable in the script
    pub fn set_variable(&mut self, name: &str, value: &str)
        ensures
            pairs_view(final(self).variables@) == with_value(pairs_view(old(self).variables@), name@, value@),
            final(self).name == old(self).name,
            final(self).commands == old(self).commands,
            final(self).description == old(self).description,
    {
        let mut ctx = ExecutionContext::new(Vec::new());
        std::mem::swap(&mut ctx.variables, &mut self.variables);
        ctx.set_variable(name, value);
        std::mem::swap(&mut ctx.variables, &mut self.variables);
    }

    /// Set script description
    pub fn with_description(self, description: &str) -> (s: Self)
        ensures
            opt_text(s.description) == Some(description@),
            s.name == self.name,
            s.commands == self.commands,
            s.variables == self.variables,
    {
        let mut s = self;
        s.description = Some(owned(description));
        s
    }

    /// Get script name
    pub fn name(&self) -> (r: &str)
        ensures
            r@ == self.name@,
    {
        self.name.as_str()
    }

    /// Get script description
    pub fn description(&self) -> (r: Option<&str>)
        ensures
            match r {
                Some(d) => opt_text(self.description) == Some(d@),
                None => self.description is None,
            },
    {
        match &self.description {
            Some(d) => Some(d.as_str()),
            None => None,
        }
    }

    /// Get script commands
    pub fn commands(&self) -> (r: &Vec<AutomationCommand>)
        ensures
            r@ == self.commands@,
    {
        &self.commands
    }

    /// Get script variables
    pub fn variables(&self) -> (r: &Vec<(String, String)>)
        ensures
            r@ == self.variables@,
    {
        &self.variables
    }
}

/// Whether position `i` holds the first occurrence of `c` in `s`.
pub open spec fn first_at(s: Seq<char>, c: char, i: int) -> bool {
    0 <= i < s.len() && s[i] == c && forall|j: int| 0 <= j < i ==> s[j] != c
}

/// The text before the first `c`, or all of it.
pub open spec fn before_first(s: Seq<char>, c: char) -> Seq<char> {
    if exists|i: int| first_at(s, c, i) {
        s.subrange(0, choose|i: int| first_at(s, c, i))
    } else {
        s
    }
}

/// The text after the first `c`, if there is one.
pub open spec fn after_first(s: Seq<char>, c: char) -> Option<Seq<char>> {
    if exists|i: int| first_at(s, c, i) {
        Some(s.subrange((choose|i: int| first_at(s, c, i)) + 1, s.len() as int))
    } else {
        None
    }
}

/// The command word of a script line, in upper case.
pub open spec fn command_word(line: Seq<char>) -> Seq<char> {
    uppercase(before_first(line, ' '))
}

/// Whether parsing the line would take the inside of a lone quote or count
/// more seconds than fit; such lines are not parsed.
pub open spec fn line_unparsable(line: Seq<char>) -> bool {
    let w = command_word(line);
    match after_first(line, ' ') {
        None => false,
        Some(a) => {
            ||| ((w == "SEND"@ || w == "SEND_TEXT"@ || w == "EXPECT"@ || w == "EXECUTE"@) && lone_quote(a))
            ||| (w == "WAIT_FOR"@ && match after_first(a, ' ') {
                Some(t) => lone_quote(before_first(a, ' ')) || duration_overflows(t),
                None => false,
            })
            ||| (w == "SET"@ && match after_first(a, '=') {
                Some(v) => lone_quote(trim(v)),
                None => false,
            })
            ||| (w == "SLEEP"@ && duration_overflows(a))
        },
    }
}

/// Whether `r` is the outcome of parsing `line` (at line number `n`) of a
/// script.
pub open spec fn line_outcome(line: Seq<char>, n: usize, r: Result<Option<AutomationCommand>, AutomationError>) -> bool {
    let w = command_word(line);
    let arg = after_first(line, ' ');
    if w == "CAPTURE"@ {
        r matches Ok(Some(AutomationCommand::Capture { store_in })) && store_in is None
    } else if w == "CLEAR"@ {
        r matches Ok(Some(AutomationCommand::Clear))
    } else if !(w == "SEND"@ || w == "SEND_TEXT"@ || w == "SEND_KEY"@ || w == "WAIT_FOR"@ || w == "EXPECT"@
        || w == "SET"@ || w == "SLEEP"@ || w == "EXECUTE"@) {
        parse_error(r, n, "Unknown command: "@ + w)
    } else if arg is None {
        parse_error(r, n, "Missing argument"@)
    } else {
        let a = arg->0;
        if w == "SEND"@ || w == "SEND_TEXT"@ {
            r matches Ok(Some(AutomationCommand::SendText { text, append_newline }))
                && text@ == unquoted_arg(a) && append_newline == (w == "SEND"@)
        } else if w == "SEND_KEY"@ {
            match key_named(a) {
                Some(k) => r matches Ok(Some(AutomationCommand::SendKeys(keys))) && keys@ == seq![k],
                None => parse_error(r, n, "Invalid key: "@ + a),
            }
        } else if w == "WAIT_FOR"@ {
            match after_first(a, ' ') {
                None => parse_error(r, n, "WAIT_FOR requires pattern and timeout"@),
                Some(t) => match duration_of(t) {
                    Err(msg) => parse_error(r, n, msg),
                    Ok(d) => r matches Ok(Some(AutomationCommand::WaitFor { pattern: Pattern::Exact(p), timeout }))
                        && p@ == unquoted_arg(before_first(a, ' ')) && timeout == d,
                },
            }
        } else if w == "EXPECT"@ {
            r matches Ok(Some(AutomationCommand::Expect { pattern: Pattern::Exact(p), message }))
                && p@ == unquoted_arg(a) && message is None
        } else if w == "SET"@ {
            match after_first(a, '=') {
                None => parse_error(r, n, "SET requires NAME=VALUE format"@),
                Some(v) => r matches Ok(Some(AutomationCommand::SetVariable { name, value }))
                    && name@ == trim(before_first(a, '=')) && value@ == unquoted_arg(trim(v)),
            }
        } else if w == "SLEEP"@ {
            match duration_of(a) {
                Err(msg) => parse_error(r, n, msg),
                Ok(d) => r matches Ok(Some(AutomationCommand::Sleep(x))) && x == d,
            }
        } else {
            r matches Ok(Some(AutomationCommand::Execute { command, wait })) && command@ == unquoted_arg(a) && !wait
        }
    }
}

/// Whether a script line parses to a command.
pub open spec fn line_ok(line: Seq<char>) -> bool {
    let w = command_word(line);
    let arg = after_first(line, ' ');
    if w == "CAPTURE"@ || w == "CLEAR"@ {
        true
    } else if !(w == "SEND"@ || w == "SEND_TEXT"@ || w == "SEND_KEY"@ || w == "WAIT_FOR"@ || w == "EXPECT"@
        || w == "SET"@ || w == "SLEEP"@ || w == "EXECUTE"@) {
        false
    } else if arg is None {
        false
    } else {
        let a = arg->0;
        if w == "SEND_KEY"@ {
            key_named(a) is Some
        } else if w == "WAIT_FOR"@ {
            match after_first(a, ' ') {
                None => false,
                Some(t) => duration_of(t) is Ok,
            }
        } else if w == "SET"@ {
            after_first(a, '=') is Some
        } else if w == "SLEEP"@ {
            duration_of(a) is Ok
        } else {
            true
        }
    }
}

/// Splits at the first `c`: the text before it and, if it occurs, after it.
fn split_first(v: &Vec<char>, c: char) -> (r: (Vec<char>, Option<Vec<char>>))
    ensures
        r.0@ == before_first(v@, c),
        match r.1 {
            Some(a) => after_first(v@, c) == Some(a@),
            None => after_first(v@, c) is None,
        },
{
    match crate::text::index_of(v, c) {
        Some(i) => {
            assert(first_at(v@, c, i as int));
            proof {
                let j = choose|j: int| first_at(v@, c, j);
                if j < i {
                    assert(v@[j] == c);
                } else if j > i {
                    assert(v@[i as int] == c);
                }
            }
            (slice_chars(v, 0, i), Some(slice_chars(v, i + 1, v.len())))
        },
        None => {
            assert(!exists|i: int| first_at(v@, c, i));
            (slice_chars(v, 0, v.len()), None)
        },
    }
}

/// A parse error at a line.
fn parse_err(n: usize, prefix: &str, detail: &Vec<char>) -> (r: AutomationError)
    ensures
        r matches AutomationError::ParseError { line, message } && line == n && message@ == prefix@ + detail@,
{
    let mut msg = owned(prefix);
    crate::text::push_chars(&mut msg, detail);
    AutomationError::ParseError { line: n, message: msg }
}

impl AutomationEngine {
    /// Parse a single command line
    pub fn parse_command_line(line: &str, line_num: usize) -> (r: Result<Option<AutomationCommand>, AutomationError>)
        requires
            !line_unparsable(line@),
        ensures
            line_outcome(line@, line_num, r),
            r is Ok <==> line_ok(line@),
    {
        proof {
            reveal_strlit("SEND");
            reveal_strlit("SEND_TEXT");
            reveal_strlit("SEND_KEY");
            reveal_strlit("WAIT_FOR");
            reveal_strlit("EXPECT");
            reveal_strlit("SET");
            reveal_strlit("SLEEP");
            reveal_strlit("EXECUTE");
        }
        let lv = chars_of(line);
        let (head, arg) = split_first(&lv, ' ');
        let hs = string_of(&head);
        let name = to_uppercase(hs.as_str());
        let w = chars_of(name.as_str());
        let empty: Vec<char> = Vec::new();
        if is_text(&w, "CAPTURE") {
            return Ok(Some(AutomationCommand::Capture { store_in: None }));
        }
        if is_text(&w, "CLEAR") {
            return Ok(Some(AutomationCommand::Clear));
        }
        if !(is_text(&w, "SEND") || is_text(&w, "SEND_TEXT") || is_text(&w, "SEND_KEY") || is_text(&w, "WAIT_FOR")
            || is_text(&w, "EXPECT") || is_text(&w, "SET") || is_text(&w, "SLEEP") || is_text(&w, "EXECUTE")) {
            return Err(parse_err(line_num, "Unknown command: ", &w));
        }
        let a = match arg {
            None => {
                return Err(parse_err(line_num, "Missing argument", &empty));
            },
            Some(a) => a,
        };
        assert(empty@ =~= Seq::<char>::empty());
        let as_ = string_of(&a);
        assert(w@ == command_word(line@));
        assert(after_first(line@, ' ') == Some(a@));
        if is_text(&w, "SEND") || is_text(&w, "SEND_TEXT") {
            let text = Self::unquote(as_.as_str());
            let nl = is_text(&w, "SEND");
            let r = Ok(Some(AutomationCommand::SendText { text, append_newline: nl }));
            assert(line_outcome(line@, line_num, r));
            r
        } else if is_text(&w, "SEND_KEY") {
            match Key::from_str(as_.as_str()) {
                Some(k) => {
                    let mut keys: Vec<Key> = Vec::new();
                    keys.push(k);
                    assert(keys@ =~= seq![k]);
                    let r = Ok(Some(AutomationCommand::SendKeys(keys)));
                    assert(line_outcome(line@, line_num, r));
                    r
                },
                None => {
                    let r = Err(parse_err(line_num, "Invalid key: ", &a));
                    assert(line_outcome(line@, line_num, r));
                    r
                },
            }
        } else if is_text(&w, "WAIT_FOR") {
            let (pat, rest) = split_first(&a, ' ');
            match rest {
                None => {
                    let msg = owned("WAIT_FOR requires pattern and timeout");
                    Err(AutomationError::ParseError { line: line_num, message: msg })
                },
                Some(t) => {
                    let p = Self::unquote(string_of(&pat).as_str());
                    let r = match Self::parse_duration(string_of(&t).as_str(), line_num) {
                        Err(e) => Err(e),
                        Ok(d) => Ok(Some(AutomationCommand::WaitFor { pattern: Pattern::Exact(p), timeout: d })),
                    };
                    assert(line_outcome(line@, line_num, r));
                    r
                },
            }
        } else if is_text(&w, "EXPECT") {
            let p = Self::unquote(as_.as_str());
            let r = Ok(Some(AutomationCommand::Expect { pattern: Pattern::Exact(p), message: None }));
            assert(w@ == "EXPECT"@);
            assert("EXPECT"@.len() == 6);
            assert("SEND_KEY"@.len() == 8);
            assert("WAIT_FOR"@.len() == 8);
            assert("SET"@.len() == 3);
            assert("SLEEP"@.len() == 5);
            assert(line_outcome(line@, line_num, r));
            r
        } else if is_text(&w, "SET") {
            let (nm, rest) = split_first(&a, '=');
            match rest {
                None => {
                    let msg = owned("SET requires NAME=VALUE format");
                    Err(AutomationError::ParseError { line: line_num, message: msg })
                },
                Some(v) => {
                    let name = string_of(&trim_chars(&nm));
                    let value = Self::unquote(string_of(&trim_chars(&v)).as_str());
                    let r = Ok(Some(AutomationCommand::SetVariable { name, value }));
                    assert(line_outcome(line@, line_num, r));
                    r
                },
            }
        } else if is_text(&w, "SLEEP") {
            let r = match Self::parse_duration(as_.as_str(), line_num) {
                Err(e) => Err(e),
                Ok(d) => Ok(Some(AutomationCommand::Sleep(d))),
            };
            assert(line_outcome(line@, line_num, r));
            r
        } else {
            let c = Self::unquote(as_.as_str());
            let r = Ok(Some(AutomationCommand::Execute { command: c, wait: false }));
            assert(line_outcome(line@, line_num, r));
            r
        }
    }
}

/// Whether a trimmed line holds a command: it is neither empty nor a
/// comment.
pub open spec fn holds_command(t: Seq<char>) -> bool {
    t.len() > 0 && t[0] != '#'
}

/// The indices of the lines that hold commands, in order.
pub open spec fn command_lines(lines: Seq<Seq<char>>) -> Seq<int>
    decreases lines.len(),
{
    if lines.len() == 0 {
        seq![]
    } else if holds_command(trim(lines.last())) {
        command_lines(lines.drop_last()).push(lines.len() - 1)
    } else {
        command_lines(lines.drop_last())
    }
}

/// Whether parsing a script stops, at the latest, at its first command line
/// that does not parse, before any line whose parsing would take the inside
/// of a lone quote or overflow a duration: every such line comes after a
/// command line that does not parse.
pub open spec fn script_parsable(text: Seq<char>) -> bool {
    let lines = crate::text::lines_of(text);
    forall|k: int| 0 <= k < lines.len() && holds_command(trim(lines[k])) && #[trigger] line_unparsable(trim(lines[k])) ==>
        exists|m: int| 0 <= m < k && #[trigger] holds_command(trim(lines[m])) && !line_ok(trim(lines[m]))
}

proof fn lemma_command_lines_prefix(lines: Seq<Seq<char>>, n: int)
    requires
        0 <= n <= lines.len(),
    ensures
        command_lines(lines.subrange(0, n)).len() <= command_lines(lines).len(),
        forall|j: int| 0 <= j < command_lines(lines.subrange(0, n)).len() ==>
            #[trigger] command_lines(lines)[j] == command_lines(lines.subrange(0, n))[j],
    decreases lines.len() - n,
{
    if n < lines.len() {
        lemma_command_lines_prefix(lines, n + 1);
        assert(lines.subrange(0, n + 1).drop_last() =~= lines.subrange(0, n));
    } else {
        assert(lines.subrange(0, n) =~= lines);
    }
}

proof fn lemma_command_lines_bound(lines: Seq<Seq<char>>)
    ensures
        forall|j: int| 0 <= j < command_lines(lines).len() ==> 0 <= #[trigger] command_lines(lines)[j] < lines.len(),
        forall|j: int| 0 <= j < command_lines(lines).len() ==> holds_command(trim(lines[#[trigger] command_lines(lines)[j]])),
        command_lines(lines).len() <= lines.len(),
    decreases lines.len(),
{
    if lines.len() > 0 {
        lemma_command_lines_bound(lines.drop_last());
        let d = lines.drop_last();
        assert forall|j: int| 0 <= j < command_lines(d).len() implies #[trigger] lines[command_lines(d)[j]] == d[command_lines(d)[j]] by {}
    }
}

impl AutomationEngine {
    /// Parse a script from text using the script language: one command per
    /// line; empty lines and `#` comments are skipped; the first line that
    /// does not parse makes the whole script fail.
    pub fn parse_script(text: &str) -> (r: Result<AutomationScript, AutomationError>)
        requires
            script_parsable(text@),
        ensures
            ({
                let lines = crate::text::lines_of(text@);
                let cl = command_lines(lines);
                match r {
                    Ok(script) => {
                        &&& script.name@ == "parsed_script"@
                        &&& script.variables@.len() == 0
                        &&& script.description is None
                        &&& script.commands@.len() == cl.len()
                        &&& forall|j: int| 0 <= j < cl.len() ==> line_outcome(trim(lines[#[trigger] cl[j]]),
                            (cl[j] + 1) as usize, Ok(Some(script.commands@[j])))
                    },
                    Err(e) => exists|j: int| 0 <= j < cl.len()
                        && line_outcome(trim(lines[#[trigger] cl[j]]), (cl[j] + 1) as usize, Err(e))
                        && forall|k: int| 0 <= k < j ==> line_ok(trim(lines[#[trigger] cl[k]])),
                }
            }),
    {
        let lines = crate::text::lines_of_str(text);
        let ghost lv = crate::text::lines_of(text@);
        let mut script = AutomationScript::new("parsed_script");
        let mut i: usize = 0;
        assert(lv.subrange(0, 0) =~= Seq::<Seq<char>>::empty());
        while i < lines.len()
            invariant
                i <= lines@.len(),
                lines@.len() == lv.len(),
                forall|k: int| 0 <= k < lines@.len() ==> #[trigger] lines@[k]@ == lv[k],
                script_parsable(text@),
                lv == crate::text::lines_of(text@),
                script.name@ == "parsed_script"@,
                script.variables@.len() == 0,
                script.description is None,
                script.commands@.len() == command_lines(lv.subrange(0, i as int)).len(),
                forall|j: int| 0 <= j < command_lines(lv.subrange(0, i as int)).len() ==> line_outcome(
                    trim(lv[#[trigger] command_lines(lv.subrange(0, i as int))[j]]),
                    (command_lines(lv.subrange(0, i as int))[j] + 1) as usize, Ok(Some(script.commands@[j]))),
                forall|j: int| 0 <= j < command_lines(lv.subrange(0, i as int)).len() ==> line_ok(
                    trim(lv[#[trigger] command_lines(lv.subrange(0, i as int))[j]])),
                forall|m: int| 0 <= m < i && #[trigger] holds_command(trim(lv[m])) ==> line_ok(trim(lv[m])),
            decreases lines.len() - i,
        {
            let ghost sub = lv.subrange(0, i + 1);
            assert(sub.drop_last() =~= lv.subrange(0, i as int));
            assert(sub.last() == lv[i as int]);
            proof {
                lemma_command_lines_bound(lv.subrange(0, i as int));
                assert forall|j: int| 0 <= j < command_lines(lv.subrange(0, i as int)).len() implies
                    #[trigger] lv.subrange(0, i as int)[command_lines(lv.subrange(0, i as int))[j]] == lv[command_lines(lv.subrange(0, i as int))[j]] by {}
            }
            let lc = chars_of(lines[i].as_str());
            let t = trim_chars(&lc);
            if t.len() > 0 && t[0] != '#' {
                assert(holds_command(trim(lv[i as int])));
                proof {
                    if line_unparsable(trim(lv[i as int])) {
                        let m = choose|m: int| 0 <= m < i && #[trigger] holds_command(trim(lv[m])) && !line_ok(trim(lv[m]));
                        assert(line_ok(trim(lv[m])));
                    }
                }
                let ts = string_of(&t);
                match Self::parse_command_line(ts.as_str(), i + 1) {
                    Err(e) => {
                        proof {
                            let cl = command_lines(sub);
                            assert(cl == command_lines(lv.subrange(0, i as int)).push(i as int));
                            lemma_command_lines_prefix(lv, i + 1);
                            let j = cl.len() - 1;
                            assert(command_lines(lv)[j] == i);
                            assert forall|k: int| 0 <= k < j implies line_ok(trim(lv[#[trigger] command_lines(lv)[k]])) by {
                                assert(command_lines(lv)[k] == cl[k]);
                            }
                        }
                        return Err(e);
                    },
                    Ok(None) => {
                        assert(false);
                    },
                    Ok(Some(cmd)) => {
                        let ghost before = script.commands@;
                        script.add_command(cmd);
                        proof {
                            let cl = command_lines(sub);
                            assert(cl == command_lines(lv.subrange(0, i as int)).push(i as int));
                        }
                    },
                }
            }
            i = i + 1;
        }
        assert(lv.subrange(0, lv.len() as int) =~= lv);
        Ok(script)
    }
}

/// What the caller does next while running a script's commands in order.
#[derive(Debug)]
pub enum ScriptStep {
    /// Carry out the command at this index, then hand its outcome to
    /// `script_step`.
    Run(usize),
    /// Every command succeeded: the results kept are the script's results.
    Finished,
    /// A command failed: the run stops with its error.
    Failed(AutomationError),
}

/// What the engine's caller does with the terminal to carry out a command.
pub enum CommandPlan {
    /// Write these bytes; the command is then done.
    Write(Vec<u8>),
    /// Write these bytes, wait 100 ms, read the output and hand it to
    /// `finish_read`.
    WriteThenRead(Vec<u8>),
    /// Read the output and hand it to `finish_read`.
    Read,
    /// Read output repeatedly, handing each piece to `wait_step`, until it
    /// reports a match or the timeout passes.
    Wait,
    /// Run the commands of the chosen branch: `then` if true, `else` if false.
    Branch(bool),
    /// Pause for this long.
    Pause(Duration),
    /// Nothing more to do.
    Done,
}

/// The bytes of a sequence of keys, one after another.
pub open spec fn keys_bytes(keys: Seq<Key>) -> Seq<u8>
    decreases keys.len(),
{
    if keys.len() == 0 {
        seq![]
    } else {
        keys_bytes(keys.drop_last()) + key_bytes(keys.last())
    }
}

/// The escape sequences that clear the screen and home the cursor.
pub open spec fn clear_bytes() -> Seq<u8> {
    seq![0x1bu8, 0x5bu8, 0x32u8, 0x4au8, 0x1bu8, 0x5bu8, 0x48u8]
}

impl AutomationEngine {
    /// The engine's execution context.
    pub closed spec fn ctx(&self) -> ExecutionContext {
        self.context
    }

    /// Create a new automation engine
    pub fn new() -> (e: Self)
        ensures
            e.ctx().variables@.len() == 0,
            e.ctx().last_capture is None,
            e.ctx().output_buffer@.len() == 0,
            e.ctx().max_buffer_size == 1024 * 1024,
    {
        AutomationEngine { context: ExecutionContext::default() }
    }

    /// Create engine with initial variables
    pub fn with_variables(variables: Vec<(String, String)>) -> (e: Self)
        ensures
            e.ctx().variables@ == variables@,
            e.ctx().last_capture is None,
            e.ctx().output_buffer@.len() == 0,
            e.ctx().max_buffer_size == 1024 * 1024,
    {
        AutomationEngine { context: ExecutionContext::new(variables) }
    }

    /// Get the current execution context
    pub fn context(&self) -> (c: &ExecutionContext)
        ensures
            *c == self.ctx(),
    {
        &self.context
    }

    /// Get a mutable reference to the execution context
    pub fn context_mut(&mut self) -> (c: &mut ExecutionContext)
        ensures
            *c == old(self).ctx(),
            final(self).ctx() == *final(c),
    {
        &mut self.context
    }

    /// Starts a script: its variables are set in the context, in order. The
    /// caller then carries out the script's commands one by one (with `plan`,
    /// `finish_read` and `wait_step`), stopping at the first that fails.
    pub fn start_script(&mut self, script: &AutomationScript)
        ensures
            pairs_view(final(self).ctx().variables@) == with_values(pairs_view(old(self).ctx().variables@), pairs_view(script.variables@)),
            final(self).ctx().last_capture == old(self).ctx().last_capture,
            final(self).ctx().output_buffer == old(self).ctx().output_buffer,
            final(self).ctx().max_buffer_size == old(self).ctx().max_buffer_size,
            script.variables@.len() == 0 ==> final(self).ctx() == old(self).ctx(),
    {
        let ghost v0 = pairs_view(self.context.variables@);
        let ghost ps = pairs_view(script.variables@);
        let mut i: usize = 0;
        while i < script.variables.len()
            invariant
                i <= script.variables@.len(),
                ps == pairs_view(script.variables@),
                pairs_view(self.context.variables@) == with_values(v0, ps.subrange(0, i as int)),
                self.context.last_capture == old(self).ctx().last_capture,
                self.context.output_buffer == old(self).ctx().output_buffer,
                self.context.max_buffer_size == old(self).ctx().max_buffer_size,
                script.variables@.len() == 0 ==> self.context == old(self).ctx(),
            decreases script.variables.len() - i,
        {
            assert(ps.subrange(0, i + 1).drop_last() =~= ps.subrange(0, i as int));
            assert(ps.subrange(0, i + 1).last() == ps[i as int]);
            self.context.set_variable(script.variables[i].0.as_str(), script.variables[i].1.as_str());
            i = i + 1;
        }
        assert(ps.subrange(0, ps.len() as int) =~= ps);
    }

    /// Parses a script and starts it. When a line does not parse, the parse
    /// error is returned before anything is run and the context is left as
    /// it was; otherwise the parsed script is returned, for the caller to
    /// carry out its commands.
    pub fn start_script_str(&mut self, script_text: &str) -> (r: Result<AutomationScript, AutomationError>)
        requires
            script_parsable(script_text@),
        ensures
            ({
                let lines = crate::text::lines_of(script_text@);
                let cl = command_lines(lines);
                match r {
                    Ok(script) => {
                        &&& script.commands@.len() == cl.len()
                        &&& forall|j: int| 0 <= j < cl.len() ==> line_outcome(trim(lines[#[trigger] cl[j]]),
                            (cl[j] + 1) as usize, Ok(Some(script.commands@[j])))
                        &&& final(self).ctx() == old(self).ctx()
                    },
                    Err(e) => {
                        &&& exists|j: int| 0 <= j < cl.len()
                            && line_outcome(trim(lines[#[trigger] cl[j]]), (cl[j] + 1) as usize, Err(e))
                            && forall|k: int| 0 <= k < j ==> line_ok(trim(lines[#[trigger] cl[k]]))
                        &&& final(self).ctx() == old(self).ctx()
                    },
                }
            }),
    {
        let script = Self::parse_script(script_text)?;
        self.start_script(&script);
        Ok(script)
    }

    /// The first step of running a script's commands in order: the first
    /// command, or the end when there is none.
    pub fn first_step(script: &AutomationScript) -> (a: ScriptStep)
        ensures
            a == if script.commands@.len() == 0 { ScriptStep::Finished } else { ScriptStep::Run(0) },
    {
        if script.commands.len() == 0 {
            ScriptStep::Finished
        } else {
            ScriptStep::Run(0)
        }
    }

    /// The next step of running a script's commands in order, once the
    /// command at index `results.len()` has been carried out: its result is
    /// kept and the next command follows, or the run ends when it was the
    /// last; its error stops the run.
    pub fn script_step(script: &AutomationScript, results: &mut Vec<CommandResult>,
        outcome: Result<CommandResult, AutomationError>) -> (a: ScriptStep)
        requires
            old(results)@.len() < script.commands@.len(),
        ensures
            match outcome {
                Ok(res) => {
                    &&& final(results)@ == old(results)@.push(res)
                    &&& a == if final(results)@.len() < script.commands@.len() {
                        ScriptStep::Run(final(results)@.len() as usize)
                    } else {
                        ScriptStep::Finished
                    }
                },
                Err(e) => final(results)@ == old(results)@ && a == ScriptStep::Failed(e),
            },
    {
        match outcome {
            Ok(res) => {
                results.push(res);
                if results.len() < script.commands.len() {
                    ScriptStep::Run(results.len())
                } else {
                    ScriptStep::Finished
                }
            },
            Err(e) => ScriptStep::Failed(e),
        }
    }

    /// Expanded text as bytes, with a newline when asked.
    fn text_bytes(&self, text: &str, newline: bool, env: &Vec<(String, String)>) -> (b: Vec<u8>)
        ensures
            b@ == encode_utf8(expansion_of(text@, pairs_view(self.ctx().variables@), pairs_view(env@)))
                + (if newline { seq![10u8] } else { seq![] }),
    {
        let expanded = self.context.expand_variables(text, env);
        let mut data = bytes_of(expanded.as_str());
        if newline {
            data.push(10u8);
        }
        data
    }

    /// Decides what a command needs from the terminal, and applies what it
    /// does to the context alone (setting a variable).
    pub fn plan(&mut self, command: &AutomationCommand, env: &Vec<(String, String)>) -> (p: CommandPlan)
        ensures
            match *command {
                AutomationCommand::SendText { text, append_newline } => p matches CommandPlan::Write(b)
                    && b@ == encode_utf8(expansion_of(text@, pairs_view(old(self).ctx().variables@), pairs_view(env@)))
                        + (if append_newline { seq![10u8] } else { seq![] }),
                AutomationCommand::SendKeys(keys) => p matches CommandPlan::Write(b) && b@ == keys_bytes(keys@),
                AutomationCommand::WaitFor { .. } => p is Wait,
                AutomationCommand::Capture { .. } => p is Read,
                AutomationCommand::Expect { .. } => p is Read,
                AutomationCommand::SetVariable { .. } => p is Done,
                AutomationCommand::If { condition, .. } => p == CommandPlan::Branch(condition_holds(condition,
                    pairs_view(old(self).ctx().variables@), opt_text(old(self).ctx().last_capture), pairs_view(env@))),
                AutomationCommand::Sleep(d) => p == CommandPlan::Pause(d),
                AutomationCommand::Clear => p matches CommandPlan::Write(b) && b@ == clear_bytes(),
                AutomationCommand::Execute { command, wait } => {
                    let b0 = encode_utf8(expansion_of(command@, pairs_view(old(self).ctx().variables@), pairs_view(env@)))
                        + seq![10u8];
                    if wait {
                        p matches CommandPlan::WriteThenRead(b) && b@ == b0
                    } else {
                        p matches CommandPlan::Write(b) && b@ == b0
                    }
                },
            },
            match *command {
                AutomationCommand::SetVariable { name, value } => pairs_view(final(self).ctx().variables@)
                    == with_value(pairs_view(old(self).ctx().variables@), name@,
                        expansion_of(value@, pairs_view(old(self).ctx().variables@), pairs_view(env@))),
                _ => final(self).ctx().variables == old(self).ctx().variables,
            },
            final(self).ctx().last_capture == old(self).ctx().last_capture,
            final(self).ctx().output_buffer == old(self).ctx().output_buffer,
            final(self).ctx().max_buffer_size == old(self).ctx().max_buffer_size,
    {
        match command {
            AutomationCommand::SendText { text, append_newline } => {
                CommandPlan::Write(self.text_bytes(text.as_str(), *append_newline, env))
            },
            AutomationCommand::SendKeys(keys) => {
                let mut data: Vec<u8> = Vec::new();
                let mut i: usize = 0;
                assert(keys@.subrange(0, 0) =~= Seq::<Key>::empty());
                while i < keys.len()
                    invariant
                        i <= keys@.len(),
                        data@ == keys_bytes(keys@.subrange(0, i as int)),
                    decreases keys.len() - i,
                {
                    assert(keys@.subrange(0, i + 1).drop_last() =~= keys@.subrange(0, i as int));
                    let kb = keys[i].to_bytes();
                    push_bytes(&mut data, &kb);
                    i = i + 1;
                }
                assert(keys@.subrange(0, keys@.len() as int) =~= keys@);
                CommandPlan::Write(data)
            },
            AutomationCommand::WaitFor { .. } => CommandPlan::Wait,
            AutomationCommand::Capture { .. } => CommandPlan::Read,
            AutomationCommand::Expect { .. } => CommandPlan::Read,
            AutomationCommand::SetVariable { name, value } => {
                let expanded = self.context.expand_variables(value.as_str(), env);
                self.context.set_variable(name.as_str(), expanded.as_str());
                CommandPlan::Done
            },
            AutomationCommand::If { condition, .. } => CommandPlan::Branch(condition.evaluate(&self.context, env)),
            AutomationCommand::Sleep(d) => CommandPlan::Pause(*d),
            AutomationCommand::Clear => {
                let b = vec![0x1bu8, 0x5bu8, 0x32u8, 0x4au8, 0x1bu8, 0x5bu8, 0x48u8];
                assert(b@ =~= clear_bytes());
                CommandPlan::Write(b)
            },
            AutomationCommand::Execute { command, wait } => {
                let b = self.text_bytes(command.as_str(), true, env);
                if *wait {
                    CommandPlan::WriteThenRead(b)
                } else {
                    CommandPlan::Write(b)
                }
            },
        }
    }

    /// Decodes output read from the terminal (invalid UTF-8 replaced) and
    /// adds it to the output buffer. `None` when the oldest bytes to drop
    /// from the buffer would end inside a character, which the buffer cannot
    /// drop; the buffer is then left as it was.
    pub fn take_output(&mut self, bytes: &[u8]) -> (r: Option<String>)
        ensures
            r is Some <==> cut_on_boundary(old(self).ctx().output_buffer@ + crate::encoding::utf8_lossy(bytes@),
                old(self).ctx().max_buffer_size as nat),
            match r {
                Some(t) => {
                    &&& t@ == crate::encoding::utf8_lossy(bytes@)
                    &&& final(self).ctx().output_buffer@ == trimmed_buffer(old(self).ctx().output_buffer@ + t@,
                        old(self).ctx().max_buffer_size as nat)
                },
                None => final(self).ctx().output_buffer == old(self).ctx().output_buffer,
            },
            final(self).ctx().variables == old(self).ctx().variables,
            final(self).ctx().last_capture == old(self).ctx().last_capture,
            final(self).ctx().max_buffer_size == old(self).ctx().max_buffer_size,
    {
        let text = crate::encoding::utf8_lossy_string(bytes);
        let buf = chars_of(self.context.output_buffer.as_str());
        let tv = chars_of(text.as_str());
        let mut all = buf;
        let ghost b0 = all@;
        let mut k: usize = 0;
        while k < tv.len()
            invariant
                k <= tv@.len(),
                all@ == b0 + tv@.subrange(0, k as int),
            decreases tv.len() - k,
        {
            all.push(tv[k]);
            k = k + 1;
            assert(all@ =~= b0 + tv@.subrange(0, k as int));
        }
        assert(tv@.subrange(0, tv@.len() as int) =~= tv@);
        let len = crate::fmt::utf8_len_wide(&all);
        if len > self.context.max_buffer_size as u128 {
            let cut = len - self.context.max_buffer_size as u128;
            if !on_boundary(&all, cut) {
                return None;
            }
        }
        self.context.append_output(text.as_str());
        Some(text)
    }

    /// Finishes a command that read the terminal's output: a capture records
    /// it (and stores it in the named variable), an expectation fails unless
    /// its pattern matches it; the output is returned.
    pub fn finish_read(&mut self, command: &AutomationCommand, output: String) -> (r: Result<String, AutomationError>)
        ensures
            match *command {
                AutomationCommand::Capture { store_in } => {
                    &&& r matches Ok(o) && o@ == output@
                    &&& opt_text(final(self).ctx().last_capture) == Some(output@)
                    &&& pairs_view(final(self).ctx().variables@) == match store_in {
                        Some(n) => with_value(pairs_view(old(self).ctx().variables@), n@, output@),
                        None => pairs_view(old(self).ctx().variables@),
                    }
                },
                AutomationCommand::Expect { pattern, message } => {
                    &&& final(self).ctx().variables == old(self).ctx().variables
                    &&& final(self).ctx().last_capture == old(self).ctx().last_capture
                    &&& if pattern_matches(pattern, output@) {
                        r matches Ok(o) && o@ == output@
                    } else {
                        r matches Err(AutomationError::ExpectationFailed(m)) && m@ == match message {
                            Some(msg) => msg@,
                            None => "Pattern not found"@,
                        }
                    }
                },
                _ => {
                    &&& r matches Ok(o) && o@ == output@
                    &&& final(self).ctx().variables == old(self).ctx().variables
                    &&& final(self).ctx().last_capture == old(self).ctx().last_capture
                },
            },
            final(self).ctx().output_buffer == old(self).ctx().output_buffer,
            final(self).ctx().max_buffer_size == old(self).ctx().max_buffer_size,
    {
        match command {
            AutomationCommand::Capture { store_in } => {
                self.context.last_capture = Some(owned(output.as_str()));
                match store_in {
                    Some(n) => {
                        self.context.set_variable(n.as_str(), output.as_str());
                    },
                    None => {},
                }
                Ok(output)
            },
            AutomationCommand::Expect { pattern, message } => {
                if !pattern.matches(output.as_str()) {
                    let msg = match message {
                        Some(m) => owned(m.as_str()),
                        None => owned("Pattern not found"),
                    };
                    return Err(AutomationError::ExpectationFailed(msg));
                }
                Ok(output)
            },
            _ => Ok(output),
        }
    }

    /// One poll while waiting for a pattern: the new output joins what was
    /// read so far, and the pattern is tried on all of it.
    pub fn wait_step(pattern: &Pattern, accumulated: &mut String, chunk: &str) -> (matched: bool)
        ensures
            final(accumulated)@ == old(accumulated)@ + chunk@,
            matched == pattern_matches(*pattern, final(accumulated)@),
    {
        push_str(accumulated, chunk);
        pattern.matches(accumulated.as_str())
    }
}

/// Whether the first `w` bytes of `v` end on a character boundary.
fn on_boundary(v: &Vec<char>, w: u128) -> (r: bool)
    ensures
        r == byte_boundary(v@, w as nat),
{
    let mut acc: u128 = 0;
    let mut i: usize = 0;
    assert(byte_len(v@.subrange(0, 0)) == 0) by {
        assert(v@.subrange(0, 0) =~= Seq::<char>::empty());
    }
    while i < v.len() && acc < w
        invariant
            i <= v@.len(),
            acc == byte_len(v@.subrange(0, i as int)),
            forall|k: int| 0 <= k < i ==> byte_len(#[trigger] v@.subrange(0, k)) < w,
        decreases v.len() - i,
    {
        proof {
            assert(v@.subrange(0, i + 1) =~= v@.subrange(0, i as int).push(v@[i as int]));
            crate::fmt::lemma_byte_len_push(v@.subrange(0, i as int), v@[i as int]);
        }
        let cw = crate::fmt::char_utf8_width(v[i]) as u128;
        if cw > w - acc {
            proof {
                assert forall|k: int| 0 <= k <= v@.len() implies byte_len(#[trigger] v@.subrange(0, k)) != w by {
                    if k > i {
                        crate::fmt::lemma_byte_len_prefix_mono(v@, i + 1, k);
                    }
                }
            }
            return false;
        }
        acc = acc + cw;
        i = i + 1;
    }
    if acc == w {
        return true;
    }
    proof {
        assert forall|k: int| 0 <= k <= v@.len() implies byte_len(#[trigger] v@.subrange(0, k)) != w by {
            if k > i {
                crate::fmt::lemma_byte_len_prefix_mono(v@, i as int, k);
            }
        }
    }
    false
}

} // verus!
