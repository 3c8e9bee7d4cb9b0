//! Character encoding support for terminal emulator
//!
//! Provides encoding/decoding capabilities for various character sets commonly
//! used in terminal applications and legacy systems.

use vstd::prelude::*;
use vstd::utf8::{valid_utf8, encode_utf8, decode_utf8};
use crate::text::{chars_of, is_text, to_lowercase, lowercase, push_char};

verus! {

/// Supported character encodings
#[derive(Debug, Clone, Copy, PartialEq, Eq, Structural)]
pub enum Encoding {
    /// UTF-8 (default)
    Utf8,
    /// UTF-16 (platform endianness)
    Utf16,
    /// UTF-16 Big Endian
    Utf16Be,
    /// UTF-16 Little Endian
    Utf16Le,
    /// ISO-8859-1 (Latin-1)
    Latin1,
    /// EUC-KR (Korean)
    EucKr,
    /// EUC-JP (Japanese)
    EucJp,
    /// Shift-JIS (Japanese)
    ShiftJis,
    /// GB2312 (Simplified Chinese)
    Gb2312,
    /// Big5 (Traditional Chinese)
    Big5,
}

impl Default for Encoding {
    fn default() -> (e: Self)
        ensures
            e == Encoding::Utf8,
    {
        Encoding::Utf8
    }
}

/// Encoding-related errors
#[derive(Debug)]
pub enum EncodingError {
    /// Invalid byte sequence
    InvalidSequence(&'static str),
    /// Unsupported encoding (requires additional dependencies)
    UnsupportedEncoding(&'static str),
}

/// Byte order for multi-byte encodings
#[derive(Debug, Clone, Copy, PartialEq, Eq, Structural)]
pub enum Endian {
    Big,
    Little,
}

/// The canonical name of each encoding.
pub open spec fn encoding_name(e: Encoding) -> Seq<char> {
    match e {
        Encoding::Utf8 => "UTF-8"@,
        Encoding::Utf16 => "UTF-16"@,
        Encoding::Utf16Be => "UTF-16BE"@,
        Encoding::Utf16Le => "UTF-16LE"@,
        Encoding::Latin1 => "ISO-8859-1"@,
        Encoding::EucKr => "EUC-KR"@,
        Encoding::EucJp => "EUC-JP"@,
        Encoding::ShiftJis => "Shift-JIS"@,
        Encoding::Gb2312 => "GB2312"@,
        Encoding::Big5 => "Big5"@,
    }
}

/// The encoding that a lowercase name stands for.
pub open spec fn encoding_named(s: Seq<char>) -> Option<Encoding> {
    if s == "utf-8"@ || s == "utf8"@ {
        Some(Encoding::Utf8)
    } else if s == "utf-16"@ || s == "utf16"@ {
        Some(Encoding::Utf16)
    } else if s == "utf-16be"@ || s == "utf16be"@ {
        Some(Encoding::Utf16Be)
    } else if s == "utf-16le"@ || s == "utf16le"@ {
        Some(Encoding::Utf16Le)
    } else if s == "iso-8859-1"@ || s == "iso8859-1"@ || s == "latin-1"@ || s == "latin1"@ {
        Some(Encoding::Latin1)
    } else if s == "euc-kr"@ || s == "euckr"@ {
        Some(Encoding::EucKr)
    } else if s == "euc-jp"@ || s == "eucjp"@ {
        Some(Encoding::EucJp)
    } else if s == "shift-jis"@ || s == "shift_jis"@ || s == "shiftjis"@ || s == "sjis"@ {
        Some(Encoding::ShiftJis)
    } else if s == "gb2312"@ || s == "gb-2312"@ {
        Some(Encoding::Gb2312)
    } else if s == "big5"@ || s == "big-5"@ {
        Some(Encoding::Big5)
    } else {
        None
    }
}

/// Whether an encoding is one of the CJK encodings this build cannot convert.
pub open spec fn is_cjk(e: Encoding) -> bool {
    e == Encoding::EucKr || e == Encoding::EucJp || e == Encoding::ShiftJis || e == Encoding::Gb2312
        || e == Encoding::Big5
}

/// What `String::from_utf8_lossy` returns for some bytes.
pub uninterp spec fn utf8_lossy(b: Seq<u8>) -> Seq<char>;

/// UTF-16 decoding (`String::from_utf16`): `None` on an unpaired surrogate.
pub open spec fn utf16_decode(u: Seq<u16>) -> Option<Seq<char>>
    decreases u.len(),
{
    if u.len() == 0 {
        Some(seq![])
    } else if u[0] < 0xD800 || u[0] > 0xDFFF {
        match utf16_decode(u.drop_first()) {
            Some(r) => Some(seq![(u[0] as u32) as char] + r),
            None => None,
        }
    } else if u[0] <= 0xDBFF && u.len() >= 2 && 0xDC00 <= u[1] <= 0xDFFF {
        match utf16_decode(u.subrange(2, u.len() as int)) {
            Some(r) => Some(seq![(0x10000 + (u[0] - 0xD800) * 1024 + (u[1] - 0xDC00)) as char] + r),
            None => None,
        }
    } else {
        None
    }
}

/// The UTF-16 code units of one character.
pub open spec fn utf16_units(c: char) -> Seq<u16> {
    let v = c as u32;
    if v < 0x10000 {
        seq![v as u16]
    } else {
        seq![(0xD800 + (v - 0x10000) / 1024) as u16, (0xDC00 + (v - 0x10000) % 1024) as u16]
    }
}

/// UTF-16 encoding (`str::encode_utf16`).
pub open spec fn utf16_encode(cs: Seq<char>) -> Seq<u16>
    decreases cs.len(),
{
    if cs.len() == 0 {
        seq![]
    } else {
        utf16_encode(cs.drop_last()) + utf16_units(cs.last())
    }
}

/// The two bytes of a code unit in the given order.
pub open spec fn unit_bytes(u: u16, e: Endian) -> Seq<u8> {
    match e {
        Endian::Big => seq![(u / 256) as u8, (u % 256) as u8],
        Endian::Little => seq![(u % 256) as u8, (u / 256) as u8],
    }
}

/// Code units laid out as bytes in the given order.
pub open spec fn units_to_bytes(us: Seq<u16>, e: Endian) -> Seq<u8>
    decreases us.len(),
{
    if us.len() == 0 {
        seq![]
    } else {
        units_to_bytes(us.drop_last(), e) + unit_bytes(us.last(), e)
    }
}

/// Bytes read as code units in the given order.
pub open spec fn bytes_to_units(b: Seq<u8>, e: Endian) -> Seq<u16> {
    Seq::new(
        b.len() / 2,
        |i: int|
            match e {
                Endian::Big => (b[2 * i] * 256 + b[2 * i + 1]) as u16,
                Endian::Little => (b[2 * i + 1] * 256 + b[2 * i]) as u16,
            },
    )
}

/// Latin-1 decoding: each byte is the character with that code.
pub open spec fn latin1_decode(b: Seq<u8>) -> Seq<char> {
    Seq::new(b.len(), |i: int| (b[i] as u32) as char)
}

/// Latin-1 encoding: characters beyond U+00FF become `?`.
pub open spec fn latin1_encode(cs: Seq<char>) -> Seq<u8> {
    Seq::new(cs.len(), |i: int| if (cs[i] as u32) <= 0xFF { (cs[i] as u32) as u8 } else { 63u8 })
}

/// What `decode` gives for an encoding whose byte order is known.
pub open spec fn decoded(e: Encoding, bytes: Seq<u8>, native: Endian) -> Result<Seq<char>, ()> {
    match e {
        Encoding::Utf8 => Ok(if valid_utf8(bytes) { decode_utf8(bytes) } else { utf8_lossy(bytes) }),
        Encoding::Latin1 => Ok(latin1_decode(bytes)),
        Encoding::Utf16 | Encoding::Utf16Be | Encoding::Utf16Le => {
            let order = match e {
                Encoding::Utf16Be => Endian::Big,
                Encoding::Utf16Le => Endian::Little,
                _ => native,
            };
            if bytes.len() % 2 != 0 {
                Err(())
            } else {
                match utf16_decode(bytes_to_units(bytes, order)) {
                    Some(s) => Ok(s),
                    None => Err(()),
                }
            }
        },
        _ => Err(()),
    }
}

/// What `encode` gives for an encoding whose byte order is known.
pub open spec fn encoded(e: Encoding, s: Seq<char>, native: Endian) -> Option<Seq<u8>> {
    match e {
        Encoding::Utf8 => Some(encode_utf8(s)),
        Encoding::Latin1 => Some(latin1_encode(s)),
        Encoding::Utf16 => Some(units_to_bytes(utf16_encode(s), native)),
        Encoding::Utf16Be => Some(units_to_bytes(utf16_encode(s), Endian::Big)),
        Encoding::Utf16Le => Some(units_to_bytes(utf16_encode(s), Endian::Little)),
        _ => None,
    }
}

/// The code units of some characters followed by more: those of the first,
/// then those of the rest.
proof fn lemma_utf16_encode_concat(a: Seq<char>, b: Seq<char>)
    ensures
        utf16_encode(a + b) == utf16_encode(a) + utf16_encode(b),
    decreases b.len(),
{
    if b.len() > 0 {
        lemma_utf16_encode_concat(a, b.drop_last());
        assert((a + b).drop_last() =~= a + b.drop_last());
        assert((a + b).last() == b.last());
        assert(utf16_encode(a) + utf16_encode(b.drop_last()) + utf16_units(b.last())
            =~= utf16_encode(a) + (utf16_encode(b.drop_last()) + utf16_units(b.last())));
    } else {
        assert(a + b =~= a);
        assert(utf16_encode(a) + utf16_encode(b) =~= utf16_encode(a));
    }
}

/// Decoding the code units of a character followed by more units gives the
/// character, then what the rest decodes to.
proof fn lemma_utf16_units_decode(c: char, rest: Seq<u16>)
    ensures
        utf16_decode(utf16_units(c) + rest) == match utf16_decode(rest) {
            Some(r) => Some(seq![c] + r),
            None => None::<Seq<char>>,
        },
{
    let v = c as u32;
    let u = utf16_units(c) + rest;
    vstd::utf8::char_is_scalar(c);
    if v < 0x10000 {
        assert(u[0] == v as u16);
        assert(u.drop_first() =~= rest);
        assert((u[0] as u32) == v);
        vstd::utf8::char_u32_cast(c, v);
    } else {
        let w = (v - 0x10000) as int;
        assert(0 <= w < 0x100000);
        let hi = 0xD800 + w / 1024;
        let lo = 0xDC00 + w % 1024;
        assert(0 <= w / 1024 < 1024 && 0 <= w % 1024 < 1024 && (w / 1024) * 1024 + w % 1024 == w) by (nonlinear_arith)
            requires
                0 <= w < 0x100000,
        ;
        assert(u[0] == hi as u16 && u[1] == lo as u16);
        assert(u.subrange(2, u.len() as int) =~= rest);
        assert(0x10000 + (u[0] - 0xD800) * 1024 + (u[1] - 0xDC00) == v);
        vstd::utf8::char_u32_cast(c, v);
    }
}

/// UTF-16 decoding gives back what UTF-16 encoding was given.
proof fn lemma_utf16_round_trip(s: Seq<char>)
    ensures
        utf16_decode(utf16_encode(s)) == Some(s),
    decreases s.len(),
{
    if s.len() > 0 {
        let rest = s.drop_first();
        lemma_utf16_round_trip(rest);
        assert(s =~= seq![s[0]] + rest);
        lemma_utf16_encode_concat(seq![s[0]], rest);
        assert(seq![s[0]].drop_last() =~= Seq::<char>::empty());
        assert(seq![s[0]].last() == s[0]);
        assert(utf16_encode(Seq::<char>::empty()) =~= Seq::<u16>::empty());
        assert(utf16_encode(seq![s[0]]) == utf16_encode(seq![s[0]].drop_last()) + utf16_units(s[0]));
        assert(utf16_encode(seq![s[0]]) =~= utf16_units(s[0]));
        lemma_utf16_units_decode(s[0], utf16_encode(rest));
    }
}

/// Reading back code units laid out as bytes in one order gives the units.
proof fn lemma_units_bytes_round_trip(us: Seq<u16>, e: Endian)
    ensures
        units_to_bytes(us, e).len() == 2 * us.len(),
        bytes_to_units(units_to_bytes(us, e), e) == us,
    decreases us.len(),
{
    if us.len() > 0 {
        lemma_units_bytes_round_trip(us.drop_last(), e);
        let b = units_to_bytes(us, e);
        let b0 = units_to_bytes(us.drop_last(), e);
        let n = us.len() - 1;
        assert forall|i: int| 0 <= i < us.len() implies #[trigger] bytes_to_units(b, e)[i] == us[i] by {
            if i < n {
                assert(b[2 * i] == b0[2 * i] && b[2 * i + 1] == b0[2 * i + 1]);
                assert(bytes_to_units(b0, e)[i] == us.drop_last()[i]);
            } else {
                let x = us[i];
                assert(b[2 * i] == unit_bytes(x, e)[0] && b[2 * i + 1] == unit_bytes(x, e)[1]);
                assert((x / 256) * 256 + x % 256 == x && x / 256 < 256) by (nonlinear_arith)
                    requires
                        0 <= x < 0x10000,
                ;
            }
        }
        assert(bytes_to_units(b, e) =~= us);
    }
}

/// Decoding what was encoded gives the text back: always for UTF-8 and the
/// UTF-16 forms (the plain one read and written in one byte order), and for
/// Latin-1 when every character is at most U+00FF.
pub proof fn lemma_encode_decode_round_trip(e: Encoding, s: Seq<char>, native: Endian)
    requires
        e == Encoding::Utf8 || e == Encoding::Utf16 || e == Encoding::Utf16Be || e == Encoding::Utf16Le
            || (e == Encoding::Latin1 && forall|i: int| 0 <= i < s.len() ==> (#[trigger] s[i] as u32) <= 0xFF),
    ensures
        encoded(e, s, native) matches Some(b) && decoded(e, b, native) == Ok::<Seq<char>, ()>(s),
{
    match e {
        Encoding::Utf8 => {
            vstd::utf8::encode_utf8_valid_utf8(s);
            vstd::utf8::encode_utf8_decode_utf8(s);
        },
        Encoding::Latin1 => {
            let b = latin1_encode(s);
            assert forall|i: int| 0 <= i < s.len() implies #[trigger] latin1_decode(b)[i] == s[i] by {
                let v = s[i] as u32;
                assert(b[i] == v as u8);
                vstd::utf8::char_u32_cast(s[i], v);
            }
            assert(latin1_decode(b) =~= s);
        },
        _ => {
            let order = match e {
                Encoding::Utf16Be => Endian::Big,
                Encoding::Utf16Le => Endian::Little,
                _ => native,
            };
            lemma_units_bytes_round_trip(utf16_encode(s), order);
            lemma_utf16_round_trip(s);
            let b = units_to_bytes(utf16_encode(s), order);
            assert(b.len() % 2 == 0);
        },
    }
}

/// `String::from_utf8_lossy`: the text of the bytes, each invalid sequence
/// replaced by U+FFFD; for valid UTF-8 that is exactly the decoded text.
#[verifier::external_body]
pub(crate) fn utf8_lossy_string(bytes: &[u8]) -> (r: String)
    ensures
        r@ == utf8_lossy(bytes@),
        valid_utf8(bytes@) ==> r@ == vstd::utf8::decode_utf8(bytes@),
{
    String::from_utf8_lossy(bytes).into_owned()
}

/// `std::str::from_utf8(..).is_ok()`: whether the bytes are valid UTF-8.
#[verifier::external_body]
fn is_valid_utf8(bytes: &[u8]) -> (r: bool)
    ensures
        r == valid_utf8(bytes@),
{
    std::str::from_utf8(bytes).is_ok()
}

/// `char::from_u32`: the character with a scalar value, if it is one.
#[verifier::external_body]
fn char_from_u32(v: u32) -> (r: Option<char>)
    ensures
        (v <= 0xD7FF || (0xE000 <= v && v <= 0x10FFFF)) ==> r == Some(v as char),
        !(v <= 0xD7FF || (0xE000 <= v && v <= 0x10FFFF)) ==> r is None,
{
    char::from_u32(v)
}

/// `u16::from_ne_bytes`: a code unit read in the platform's byte order, which
/// this code leaves open.
#[verifier::external_body]
fn u16_from_native_bytes(b0: u8, b1: u8) -> u16 {
    u16::from_ne_bytes([b0, b1])
}

/// The byte order of the platform: big-endian when the bytes `[0, 1]` read as 1.
pub fn native_endian() -> (e: Endian) {
    if u16_from_native_bytes(0, 1) == 1 {
        Endian::Big
    } else {
        Endian::Little
    }
}

impl Encoding {
    /// Returns the canonical name of the encoding
    pub fn as_str(&self) -> (r: &'static str)
        ensures
            r@ == encoding_name(*self),
    {
        match self {
            Encoding::Utf8 => "UTF-8",
            Encoding::Utf16 => "UTF-16",
            Encoding::Utf16Be => "UTF-16BE",
            Encoding::Utf16Le => "UTF-16LE",
            Encoding::Latin1 => "ISO-8859-1",
            Encoding::EucKr => "EUC-KR",
            Encoding::EucJp => "EUC-JP",
            Encoding::ShiftJis => "Shift-JIS",
            Encoding::Gb2312 => "GB2312",
            Encoding::Big5 => "Big5",
        }
    }

    /// Parse encoding from string (case-insensitive)
    pub fn from_str(s: &str) -> (r: Option<Self>)
        ensures
            r == encoding_named(lowercase(s@)),
    {
        let lower = to_lowercase(s);
        let v = chars_of(lower.as_str());
        if is_text(&v, "utf-8") || is_text(&v, "utf8") {
            Some(Encoding::Utf8)
        } else if is_text(&v, "utf-16") || is_text(&v, "utf16") {
            Some(Encoding::Utf16)
        } else if is_text(&v, "utf-16be") || is_text(&v, "utf16be") {
            Some(Encoding::Utf16Be)
        } else if is_text(&v, "utf-16le") || is_text(&v, "utf16le") {
            Some(Encoding::Utf16Le)
        } else if is_text(&v, "iso-8859-1") || is_text(&v, "iso8859-1") || is_text(&v, "latin-1")
            || is_text(&v, "latin1") {
            Some(Encoding::Latin1)
        } else if is_text(&v, "euc-kr") || is_text(&v, "euckr") {
            Some(Encoding::EucKr)
        } else if is_text(&v, "euc-jp") || is_text(&v, "eucjp") {
            Some(Encoding::EucJp)
        } else if is_text(&v, "shift-jis") || is_text(&v, "shift_jis") || is_text(&v, "shiftjis")
            || is_text(&v, "sjis") {
            Some(Encoding::ShiftJis)
        } else if is_text(&v, "gb2312") || is_text(&v, "gb-2312") {
            Some(Encoding::Gb2312)
        } else if is_text(&v, "big5") || is_text(&v, "big-5") {
            Some(Encoding::Big5)
        } else {
            None
        }
    }

    /// Returns list of all available encodings
    pub fn available() -> (r: Vec<Self>)
        ensures
            r@ == seq![
                Encoding::Utf8,
                Encoding::Utf16,
                Encoding::Utf16Be,
                Encoding::Utf16Le,
                Encoding::Latin1,
                Encoding::EucKr,
                Encoding::EucJp,
                Encoding::ShiftJis,
                Encoding::Gb2312,
                Encoding::Big5,
            ],
    {
        let mut r = Vec::new();
        r.push(Encoding::Utf8);
        r.push(Encoding::Utf16);
        r.push(Encoding::Utf16Be);
        r.push(Encoding::Utf16Le);
        r.push(Encoding::Latin1);
        r.push(Encoding::EucKr);
        r.push(Encoding::EucJp);
        r.push(Encoding::ShiftJis);
        r.push(Encoding::Gb2312);
        r.push(Encoding::Big5);
        assert(r@ =~= seq![
            Encoding::Utf8,
            Encoding::Utf16,
            Encoding::Utf16Be,
            Encoding::Utf16Le,
            Encoding::Latin1,
            Encoding::EucKr,
            Encoding::EucJp,
            Encoding::ShiftJis,
            Encoding::Gb2312,
            Encoding::Big5,
        ]);
        r
    }

    /// Decode bytes to string using this encoding
    ///
    /// UTF-8 is decoded lossily; UTF-16 needs an even number of bytes and
    /// paired surrogates; the CJK encodings are not supported. Plain UTF-16
    /// is read in the platform's byte order.
    pub fn decode(&self, bytes: &[u8]) -> (r: Result<String, EncodingError>)
        ensures
            exists|native: Endian|
                #![trigger decoded(*self, bytes@, native)]
                match decoded(*self, bytes@, native) {
                    Ok(s) => r is Ok && r.unwrap()@ == s,
                    Err(_) => r is Err,
                },
            is_cjk(*self) <==> r matches Err(EncodingError::UnsupportedEncoding(_)),
            is_cjk(*self) ==> (r matches Err(EncodingError::UnsupportedEncoding(n)) && n@ == encoding_name(*self)),
            *self == Encoding::Utf8 ==> r is Ok,
            *self == Encoding::Latin1 ==> r is Ok,
    {
        let native = native_endian();
        let r = self.decode_in_order(bytes, native);
        assert(match decoded(*self, bytes@, native) {
            Ok(s) => r is Ok && r.unwrap()@ == s,
            Err(_) => r is Err,
        });
        r
    }

    /// Decode bytes to string, reading plain UTF-16 in the byte order `native`.
    pub fn decode_in_order(&self, bytes: &[u8], native: Endian) -> (r: Result<String, EncodingError>)
        ensures
            match decoded(*self, bytes@, native) {
                Ok(s) => r is Ok && r.unwrap()@ == s,
                Err(_) => r is Err,
            },
            is_cjk(*self) <==> r matches Err(EncodingError::UnsupportedEncoding(_)),
            is_cjk(*self) ==> (r matches Err(EncodingError::UnsupportedEncoding(n)) && n@ == encoding_name(*self)),
    {
        match self {
            Encoding::Utf8 => Ok(utf8_lossy_string(bytes)),
            Encoding::Utf16 => Self::decode_utf16(bytes, native),
            Encoding::Utf16Be => Self::decode_utf16(bytes, Endian::Big),
            Encoding::Utf16Le => Self::decode_utf16(bytes, Endian::Little),
            Encoding::Latin1 => {
                let mut s = String::new();
                let mut i: usize = 0;
                while i < bytes.len()
                    invariant
                        i <= bytes@.len(),
                        s@ == latin1_decode(bytes@.subrange(0, i as int)),
                    decreases bytes.len() - i,
                {
                    let c = char_from_u32(bytes[i] as u32);
                    let c = match c {
                        Some(c) => c,
                        None => ' ',
                    };
                    push_char(&mut s, c);
                    i = i + 1;
                    assert(s@ =~= latin1_decode(bytes@.subrange(0, i as int)));
                }
                assert(bytes@.subrange(0, bytes@.len() as int) =~= bytes@);
                Ok(s)
            },
            Encoding::EucKr | Encoding::EucJp | Encoding::ShiftJis | Encoding::Gb2312 | Encoding::Big5 => {
                Err(EncodingError::UnsupportedEncoding(self.as_str()))
            },
        }
    }

    /// Encode string to bytes using this encoding
    ///
    /// Latin-1 replaces characters beyond U+00FF with `?`; the CJK encodings
    /// are not supported.
    pub fn encode(&self, s: &str) -> (r: Result<Vec<u8>, EncodingError>)
        ensures
            exists|native: Endian|
                #![trigger encoded(*self, s@, native)]
                match encoded(*self, s@, native) {
                    Some(b) => r is Ok && r.unwrap()@ == b,
                    None => r is Err,
                },
            is_cjk(*self) <==> r matches Err(EncodingError::UnsupportedEncoding(_)),
            is_cjk(*self) ==> (r matches Err(EncodingError::UnsupportedEncoding(n)) && n@ == encoding_name(*self)),
    {
        let native = native_endian();
        let r = self.encode_in_order(s, native);
        assert(match encoded(*self, s@, native) {
            Some(b) => r is Ok && r.unwrap()@ == b,
            None => r is Err,
        });
        r
    }

    /// Encode a string, writing plain UTF-16 in the byte order `native`.
    pub fn encode_in_order(&self, s: &str, native: Endian) -> (r: Result<Vec<u8>, EncodingError>)
        ensures
            match encoded(*self, s@, native) {
                Some(b) => r is Ok && r.unwrap()@ == b,
                None => r is Err,
            },
            is_cjk(*self) <==> r matches Err(EncodingError::UnsupportedEncoding(_)),
            is_cjk(*self) ==> (r matches Err(EncodingError::UnsupportedEncoding(n)) && n@ == encoding_name(*self)),
    {
        match self {
            Encoding::Utf8 => {
                let b = s.as_bytes();
                Ok(vstd::slice::slice_to_vec(b))
            },
            Encoding::Utf16 => Ok(Self::encode_utf16(s, native)),
            Encoding::Utf16Be => Ok(Self::encode_utf16(s, Endian::Big)),
            Encoding::Utf16Le => Ok(Self::encode_utf16(s, Endian::Little)),
            Encoding::Latin1 => {
                let cs = chars_of(s);
                let mut out: Vec<u8> = Vec::new();
                let mut i: usize = 0;
                while i < cs.len()
                    invariant
                        i <= cs.len(),
                        out@ == latin1_encode(cs@.subrange(0, i as int)),
                    decreases cs.len() - i,
                {
                    let code = cs[i] as u32;
                    if code <= 0xFF {
                        out.push(code as u8);
                    } else {
                        out.push(63u8);
                    }
                    i = i + 1;
                    assert(out@ =~= latin1_encode(cs@.subrange(0, i as int)));
                }
                assert(cs@.subrange(0, cs.len() as int) =~= cs@);
                Ok(out)
            },
            Encoding::EucKr | Encoding::EucJp | Encoding::ShiftJis | Encoding::Gb2312 | Encoding::Big5 => {
                Err(EncodingError::UnsupportedEncoding(self.as_str()))
            },
        }
    }

    /// Helper to decode UTF-16 with specified endianness
    fn decode_utf16(bytes: &[u8], endian: Endian) -> (r: Result<String, EncodingError>)
        ensures
            bytes@.len() % 2 != 0 ==> r is Err,
            bytes@.len() % 2 == 0 ==> match utf16_decode(bytes_to_units(bytes@, endian)) {
                Some(s) => r is Ok && r.unwrap()@ == s,
                None => r is Err,
            },
            !(r matches Err(EncodingError::UnsupportedEncoding(_))),
    {
        if bytes.len() % 2 != 0 {
            return Err(EncodingError::InvalidSequence("UTF-16 requires even number of bytes"));
        }
        let mut units: Vec<u16> = Vec::new();
        let mut i: usize = 0;
        while i < bytes.len() / 2
            invariant
                bytes@.len() % 2 == 0,
                i <= bytes@.len() / 2,
                units@ == bytes_to_units(bytes@, endian).subrange(0, i as int),
            decreases bytes.len() / 2 - i,
        {
            let b0 = bytes[2 * i];
            let b1 = bytes[2 * i + 1];
            let u: u16 = match endian {
                Endian::Big => (b0 as u16) * 256 + (b1 as u16),
                Endian::Little => (b1 as u16) * 256 + (b0 as u16),
            };
            units.push(u);
            i = i + 1;
            assert(units@ =~= bytes_to_units(bytes@, endian).subrange(0, i as int));
        }
        assert(units@ =~= bytes_to_units(bytes@, endian));
        match Self::string_from_utf16(&units) {
            Some(s) => Ok(s),
            None => Err(EncodingError::InvalidSequence("Invalid UTF-16 sequence")),
        }
    }

    /// Decodes UTF-16 code units.
    fn string_from_utf16(units: &Vec<u16>) -> (r: Option<String>)
        ensures
            match utf16_decode(units@) {
                Some(s) => r is Some && r.unwrap()@ == s,
                None => r is None,
            },
    {
        let mut s = String::new();
        let mut i: usize = 0;
        proof {
            assert(units@.subrange(0, units.len() as int) =~= units@);
            match utf16_decode(units@) {
                Some(r) => {
                    assert(s@ + r =~= r);
                },
                None => {},
            }
        }
        while i < units.len()
            invariant
                i <= units.len(),
                utf16_decode(units@) == match utf16_decode(units@.subrange(i as int, units.len() as int)) {
                    Some(r) => Some(s@ + r),
                    None => None,
                },
            decreases units.len() - i,
        {
            let ghost rest = units@.subrange(i as int, units.len() as int);
            let a = units[i];
            if a < 0xD800 || a > 0xDFFF {
                proof {
                    assert(rest.drop_first() =~= units@.subrange(i + 1, units.len() as int));
                }
                let c = match char_from_u32(a as u32) {
                    Some(c) => c,
                    None => ' ',
                };
                push_char(&mut s, c);
                i = i + 1;
                proof {
                    match utf16_decode(units@.subrange(i as int, units.len() as int)) {
                        Some(r) => {
                            assert(s@ + r =~= s@.drop_last() + (seq![c] + r));
                        },
                        None => {},
                    }
                }
            } else if a <= 0xDBFF && i + 1 < units.len() && 0xDC00 <= units[i + 1] && units[i + 1] <= 0xDFFF {
                let b = units[i + 1];
                proof {
                    assert(rest.subrange(2, rest.len() as int) =~= units@.subrange(i + 2, units.len() as int));
                }
                let v: u32 = 0x10000 + ((a - 0xD800) as u32) * 1024 + ((b - 0xDC00) as u32);
                let c = match char_from_u32(v) {
                    Some(c) => c,
                    None => ' ',
                };
                push_char(&mut s, c);
                i = i + 2;
                proof {
                    match utf16_decode(units@.subrange(i as int, units.len() as int)) {
                        Some(r) => {
                            assert(s@ + r =~= s@.drop_last() + (seq![c] + r));
                        },
                        None => {},
                    }
                }
            } else {
                return None;
            }
        }
        proof {
            assert(units@.subrange(i as int, units.len() as int) =~= Seq::<u16>::empty());
            assert(s@ + seq![] =~= s@);
        }
        Some(s)
    }

    /// Helper to encode UTF-16 with specified endianness
    fn encode_utf16(s: &str, endian: Endian) -> (r: Vec<u8>)
        ensures
            r@ == units_to_bytes(utf16_encode(s@), endian),
    {
        let cs = chars_of(s);
        let mut units: Vec<u16> = Vec::new();
        let mut i: usize = 0;
        while i < cs.len()
            invariant
                i <= cs.len(),
                units@ == utf16_encode(cs@.subrange(0, i as int)),
            decreases cs.len() - i,
        {
            let v = cs[i] as u32;
            proof {
                assert(cs@.subrange(0, i + 1).drop_last() =~= cs@.subrange(0, i as int));
            }
            if v < 0x10000 {
                units.push(v as u16);
            } else {
                proof {
                    vstd::utf8::char_is_scalar(cs@[i as int]);
                }
                let w = v - 0x10000;
                units.push((0xD800 + w / 1024) as u16);
                units.push((0xDC00 + w % 1024) as u16);
            }
            i = i + 1;
            assert(units@ =~= utf16_encode(cs@.subrange(0, i as int)));
        }
        assert(cs@.subrange(0, cs.len() as int) =~= cs@);
        let mut bytes: Vec<u8> = Vec::new();
        let mut j: usize = 0;
        while j < units.len()
            invariant
                j <= units.len(),
                bytes@ == units_to_bytes(units@.subrange(0, j as int), endian),
            decreases units.len() - j,
        {
            let u = units[j];
            proof {
                assert(units@.subrange(0, j + 1).drop_last() =~= units@.subrange(0, j as int));
            }
            match endian {
                Endian::Big => {
                    bytes.push((u / 256) as u8);
                    bytes.push((u % 256) as u8);
                },
                Endian::Little => {
                    bytes.push((u % 256) as u8);
                    bytes.push((u / 256) as u8);
                },
            }
            j = j + 1;
            assert(bytes@ =~= units_to_bytes(units@.subrange(0, j as int), endian));
        }
        assert(units@.subrange(0, units.len() as int) =~= units@);
        bytes
    }
}

/// How sure an encoding guess is.
#[derive(Debug, Clone, Copy, PartialEq, Eq, Structural)]
pub enum Confidence {
    /// A byte-order mark names the encoding.
    Certain,
    /// The bytes are valid UTF-8.
    High,
    /// The pattern of zero bytes points to a UTF-16 byte order.
    Medium,
    /// Nothing points anywhere; UTF-8 is assumed.
    Low,
}

/// Number of zero bytes at positions `start, start + step, ...` of `b`.
pub open spec fn zeros_from(b: Seq<u8>, start: int, step: int) -> nat
    decreases (if start < b.len() { b.len() - start } else { 0 }),
    when step > 0
{
    if start >= b.len() || start < 0 {
        0
    } else {
        (if b[start] == 0 { 1nat } else { 0nat }) + zeros_from(b, start + step, step)
    }
}

/// What `detect` guesses for some bytes.
pub open spec fn detected(b: Seq<u8>) -> Option<(Encoding, Confidence)> {
    if b.len() == 0 {
        None
    } else if b.len() >= 3 && b[0] == 0xEF && b[1] == 0xBB && b[2] == 0xBF {
        Some((Encoding::Utf8, Confidence::Certain))
    } else if b.len() >= 2 && b[0] == 0xFE && b[1] == 0xFF {
        Some((Encoding::Utf16Be, Confidence::Certain))
    } else if b.len() >= 2 && b[0] == 0xFF && b[1] == 0xFE {
        Some((Encoding::Utf16Le, Confidence::Certain))
    } else if valid_utf8(b) {
        Some((Encoding::Utf8, Confidence::High))
    } else if zeros_from(b, 0, 1) > b.len() / 10 && zeros_from(b, 0, 2) > zeros_from(b, 1, 2) {
        Some((Encoding::Utf16Be, Confidence::Medium))
    } else if zeros_from(b, 0, 1) > b.len() / 10 && zeros_from(b, 1, 2) > zeros_from(b, 0, 2) {
        Some((Encoding::Utf16Le, Confidence::Medium))
    } else {
        Some((Encoding::Utf8, Confidence::Low))
    }
}

/// How many zero bytes stand at positions `i` from `from` on with `i % 2 == parity`.
pub open spec fn zeros_at_parity(b: Seq<u8>, from: int, parity: int) -> nat
    decreases b.len() - from,
{
    if from < 0 || from >= b.len() {
        0
    } else {
        (if from % 2 == parity && b[from] == 0 { 1nat } else { 0nat }) + zeros_at_parity(b, from + 1, parity)
    }
}

proof fn lemma_zeros_step_two(b: Seq<u8>, s: int)
    requires
        0 <= s,
    ensures
        zeros_from(b, s, 2) == zeros_at_parity(b, s, s % 2),
    decreases (if s < b.len() { b.len() - s } else { 0 }),
{
    if s < b.len() {
        lemma_zeros_step_two(b, s + 2);
        assert((s + 2) % 2 == s % 2);
        assert((s + 1) % 2 != s % 2);
        assert(zeros_at_parity(b, s, s % 2) == (if b[s] == 0 { 1nat } else { 0nat }) + zeros_at_parity(b, s + 1, s % 2));
        assert(zeros_at_parity(b, s + 1, s % 2) == zeros_at_parity(b, s + 2, s % 2));
        assert(zeros_from(b, s, 2) == (if b[s] == 0 { 1nat } else { 0nat }) + zeros_from(b, s + 2, 2));
    }
}

proof fn lemma_zeros_step_one(b: Seq<u8>, s: int)
    requires
        0 <= s,
    ensures
        zeros_from(b, s, 1) == zeros_at_parity(b, s, 0) + zeros_at_parity(b, s, 1),
    decreases (if s < b.len() { b.len() - s } else { 0 }),
{
    if s < b.len() {
        lemma_zeros_step_one(b, s + 1);
    }
}

/// Without a byte order mark, bytes that are not UTF-8 are guessed to be
/// UTF-8 with low confidence when at most a tenth of them are zero, or when
/// as many zeros stand at even positions as at odd ones.
pub proof fn lemma_weak_guess(b: Seq<u8>)
    requires
        b.len() > 0,
        !(b.len() >= 3 && b[0] == 0xEF && b[1] == 0xBB && b[2] == 0xBF),
        !(b.len() >= 2 && b[0] == 0xFE && b[1] == 0xFF),
        !(b.len() >= 2 && b[0] == 0xFF && b[1] == 0xFE),
        !valid_utf8(b),
        zeros_at_parity(b, 0, 0) + zeros_at_parity(b, 0, 1) <= b.len() / 10
            || zeros_at_parity(b, 0, 0) == zeros_at_parity(b, 0, 1),
    ensures
        detected(b) == Some((Encoding::Utf8, Confidence::Low)),
{
    lemma_zeros_step_one(b, 0);
    lemma_zeros_step_two(b, 0);
    lemma_zeros_step_two(b, 1);
    if b.len() > 1 {
        assert(zeros_at_parity(b, 0, 1) == zeros_at_parity(b, 1, 1));
    } else {
        assert(zeros_at_parity(b, 0, 1) == 0);
        assert(zeros_at_parity(b, 1, 1) == 0);
    }
}

/// A byte order mark decides the guess with certainty: EF BB BF UTF-8,
/// FE FF UTF-16BE, FF FE UTF-16LE; without one, valid UTF-8 is taken for
/// UTF-8 with high confidence.
pub proof fn lemma_byte_order_marks(b: Seq<u8>)
    ensures
        b.len() >= 3 && b[0] == 0xEF && b[1] == 0xBB && b[2] == 0xBF ==> detected(b) == Some((Encoding::Utf8, Confidence::Certain)),
        b.len() >= 2 && b[0] == 0xFE && b[1] == 0xFF ==> detected(b) == Some((Encoding::Utf16Be, Confidence::Certain)),
        b.len() >= 2 && b[0] == 0xFF && b[1] == 0xFE ==> detected(b) == Some((Encoding::Utf16Le, Confidence::Certain)),
        b.len() > 0 && !(b.len() >= 3 && b[0] == 0xEF && b[1] == 0xBB && b[2] == 0xBF) && !(b.len() >= 2 && b[0] == 0xFE)
            && !(b.len() >= 2 && b[0] == 0xFF) && valid_utf8(b) ==> detected(b) == Some((Encoding::Utf8, Confidence::High)),
{
}

/// Without a byte order mark, bytes that are not UTF-8 and hold more than
/// a tenth of zero bytes are taken for UTF-16 by where the zeros fall: mostly
/// at odd positions (the high bytes of little-endian units) UTF-16LE, mostly
/// at even positions UTF-16BE.
pub proof fn lemma_utf16_byte_order(b: Seq<u8>)
    requires
        b.len() > 0,
        !(b.len() >= 3 && b[0] == 0xEF && b[1] == 0xBB && b[2] == 0xBF),
        !(b.len() >= 2 && b[0] == 0xFE && b[1] == 0xFF),
        !(b.len() >= 2 && b[0] == 0xFF && b[1] == 0xFE),
        !valid_utf8(b),
        zeros_at_parity(b, 0, 0) + zeros_at_parity(b, 0, 1) > b.len() / 10,
    ensures
        zeros_at_parity(b, 0, 1) > zeros_at_parity(b, 0, 0) ==> detected(b) == Some((Encoding::Utf16Le, Confidence::Medium)),
        zeros_at_parity(b, 0, 0) > zeros_at_parity(b, 0, 1) ==> detected(b) == Some((Encoding::Utf16Be, Confidence::Medium)),
{
    lemma_zeros_step_one(b, 0);
    lemma_zeros_step_two(b, 0);
    lemma_zeros_step_two(b, 1);
    if b.len() > 1 {
        assert(zeros_at_parity(b, 0, 1) == zeros_at_parity(b, 1, 1));
    } else {
        assert(zeros_at_parity(b, 0, 1) == 0);
        assert(zeros_at_parity(b, 1, 1) == 0);
    }
}

proof fn lemma_zeros_bound(b: Seq<u8>, start: int, step: int)
    requires
        step > 0,
    ensures
        zeros_from(b, start, step) <= if start < 0 || start >= b.len() { 0 } else { b.len() - start },
    decreases (if start < b.len() { b.len() - start } else { 0 }),
{
    if start >= 0 && start < b.len() {
        lemma_zeros_bound(b, start + step, step);
    }
}

/// Counts the zero bytes at positions `start, start + step, ...`.
fn count_zeros(b: &[u8], start: usize, step: usize) -> (n: usize)
    requires
        0 < step <= 2,
        b@.len() <= usize::MAX / 2,
    ensures
        n == zeros_from(b@, start as int, step as int),
{
    let mut n: usize = 0;
    let mut i = start;
    while i < b.len()
        invariant
            0 < step <= 2,
            b@.len() <= usize::MAX / 2,
            start <= i,
            n + zeros_from(b@, i as int, step as int) == zeros_from(b@, start as int, step as int),
            n <= i - start,
        decreases b.len() + step - i,
    {
        proof {
            lemma_zeros_bound(b@, (i + step) as int, step as int);
        }
        if b[i] == 0 {
            n = n + 1;
        }
        i = i + step;
    }
    n
}

impl Encoding {
    /// Guesses the encoding of a byte sequence
    ///
    /// A byte-order mark settles it; valid UTF-8 is taken as UTF-8; many zero
    /// bytes point to UTF-16 in the byte order where they cluster; otherwise
    /// UTF-8 is assumed.
    pub fn detect(bytes: &[u8]) -> (r: Option<(Encoding, Confidence)>)
        requires
            bytes@.len() <= usize::MAX / 2,
        ensures
            r == detected(bytes@),
    {
        if bytes.len() == 0 {
            return None;
        }
        if bytes.len() >= 3 && bytes[0] == 0xEF && bytes[1] == 0xBB && bytes[2] == 0xBF {
            return Some((Encoding::Utf8, Confidence::Certain));
        }
        if bytes.len() >= 2 {
            if bytes[0] == 0xFE && bytes[1] == 0xFF {
                return Some((Encoding::Utf16Be, Confidence::Certain));
            }
            if bytes[0] == 0xFF && bytes[1] == 0xFE {
                return Some((Encoding::Utf16Le, Confidence::Certain));
            }
        }
        if is_valid_utf8(bytes) {
            return Some((Encoding::Utf8, Confidence::High));
        }
        let null_count = count_zeros(bytes, 0, 1);
        if null_count > bytes.len() / 10 {
            let even_nulls = count_zeros(bytes, 0, 2);
            let odd_nulls = count_zeros(bytes, 1, 2);
            if even_nulls > odd_nulls {
                return Some((Encoding::Utf16Be, Confidence::Medium));
            } else if odd_nulls > even_nulls {
                return Some((Encoding::Utf16Le, Confidence::Medium));
            }
        }
        Some((Encoding::Utf8, Confidence::Low))
    }
}

} // verus!
