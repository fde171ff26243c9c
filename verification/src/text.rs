//! Files as text: from the bytes on disk to the text that the model sees
//! (lines end in LF), and back to bytes in the file's own encoding.

use crate::chars::{chars_of, string_of};
use crate::lossy::{lossy_of, lossy_text, utf8_of};
use vstd::prelude::*;
use vstd::slice::slice_subrange;
use vstd::utf8::{decode_utf8, encode_utf8, valid_utf8};

verus! {

/// The line ending that most lines of a file have.
#[derive(Clone, Copy, Debug, PartialEq, Eq, Structural)]
pub enum LineEnding {
    Lf,
    Crlf,
}

/// The encoding of a file.
#[derive(Clone, Copy, Debug, PartialEq, Eq, Structural)]
pub enum FileEncoding {
    Utf8,
    Utf16Le,
    Utf16Be,
    Gbk,
}

impl FileEncoding {
    /// The name that the model sees.
    pub open spec fn label_text(self) -> Seq<char> {
        match self {
            FileEncoding::Utf8 => "UTF-8"@,
            FileEncoding::Utf16Le => "UTF-16LE"@,
            FileEncoding::Utf16Be => "UTF-16BE"@,
            FileEncoding::Gbk => "GBK"@,
        }
    }

    /// The name that the model sees.
    pub fn label(self) -> (r: &'static str)
        ensures
            r@ == self.label_text(),
    {
        match self {
            FileEncoding::Utf8 => "UTF-8",
            FileEncoding::Utf16Le => "UTF-16LE",
            FileEncoding::Utf16Be => "UTF-16BE",
            FileEncoding::Gbk => "GBK",
        }
    }
}

/// A file as text.
#[derive(Debug)]
pub struct TextDocument {
    /// The text, its lines ending in LF.
    pub text: String,
    pub encoding: FileEncoding,
    pub bom: bool,
    pub line_ending: LineEnding,
    /// Whether replacement characters stand for what could not be read.
    pub lossy: bool,
}

/// What a `TextDocument` says.
#[verifier::ext_equal]
pub struct DocV {
    pub text: Seq<char>,
    pub encoding: FileEncoding,
    pub bom: bool,
    pub line_ending: LineEnding,
    pub lossy: bool,
}

impl View for TextDocument {
    type V = DocV;

    open spec fn view(&self) -> DocV {
        DocV {
            text: self.text@,
            encoding: self.encoding,
            bom: self.bom,
            line_ending: self.line_ending,
            lossy: self.lossy,
        }
    }
}

// ---------------------------------------------------------------------------
// Line endings
// ---------------------------------------------------------------------------

/// `s` with each CRLF made an LF.
pub open spec fn to_lf(s: Seq<char>) -> Seq<char>
    decreases s.len(),
{
    if s.len() == 0 {
        s
    } else if s.len() >= 2 && s[0] == '\r' && s[1] == '\n' {
        seq!['\n'] + to_lf(s.skip(2))
    } else {
        seq![s[0]] + to_lf(s.skip(1))
    }
}

/// `s` with each LF made a CRLF.
pub open spec fn to_crlf(s: Seq<char>) -> Seq<char>
    decreases s.len(),
{
    if s.len() == 0 {
        s
    } else if s[0] == '\n' {
        seq!['\r', '\n'] + to_crlf(s.skip(1))
    } else {
        seq![s[0]] + to_crlf(s.skip(1))
    }
}

/// How many line feeds `s` has.
pub open spec fn lf_count(s: Seq<char>) -> nat
    decreases s.len(),
{
    if s.len() == 0 {
        0
    } else {
        lf_count(s.skip(1)) + if s[0] == '\n' {
            1nat
        } else {
            0nat
        }
    }
}

/// How many CRLF `s` has.
pub open spec fn crlf_count(s: Seq<char>) -> nat
    decreases s.len(),
{
    if s.len() < 2 {
        0
    } else if s[0] == '\r' && s[1] == '\n' {
        1 + crlf_count(s.skip(2))
    } else {
        crlf_count(s.skip(1))
    }
}

/// The line ending that most lines of `s` have; LF where it is a draw.
pub open spec fn dominant(s: Seq<char>) -> LineEnding {
    if crlf_count(s) > lf_count(s) - crlf_count(s) {
        LineEnding::Crlf
    } else {
        LineEnding::Lf
    }
}

/// Makes each CRLF an LF.
pub fn with_lf(s: &[char]) -> (r: Vec<char>)
    ensures
        r@ == to_lf(s@),
{
    let mut out: Vec<char> = Vec::new();
    let mut i: usize = 0;
    proof {
        assert(s@.skip(0) =~= s@);
        assert(out@ + to_lf(s@.skip(0)) =~= to_lf(s@));
    }
    while i < s.len()
        invariant
            i <= s.len(),
            out@ + to_lf(s@.skip(i as int)) == to_lf(s@),
        decreases s.len() - i,
    {
        let ghost before = out@;
        let ghost rest = s@.skip(i as int);
        if s[i] == '\r' && i + 1 < s.len() && s[i + 1] == '\n' {
            out.push('\n');
            proof {
                assert(rest.skip(2) =~= s@.skip(i as int + 2));
                assert(out@ + to_lf(s@.skip(i as int + 2)) =~= before + to_lf(rest));
            }
            i = i + 2;
        } else {
            out.push(s[i]);
            proof {
                assert(rest.skip(1) =~= s@.skip(i as int + 1));
                assert(out@ + to_lf(s@.skip(i as int + 1)) =~= before + to_lf(rest));
            }
            i = i + 1;
        }
    }
    proof {
        assert(out@ + to_lf(s@.skip(i as int)) =~= out@);
    }
    out
}

/// Makes each LF a CRLF.
pub fn with_crlf(s: &[char]) -> (r: Vec<char>)
    ensures
        r@ == to_crlf(s@),
{
    let mut out: Vec<char> = Vec::new();
    proof {
        assert(s@.skip(0) =~= s@);
        assert(out@ + to_crlf(s@.skip(0)) =~= to_crlf(s@));
    }
    for i in 0..s.len()
        invariant
            out@ + to_crlf(s@.skip(i as int)) == to_crlf(s@),
    {
        let ghost before = out@;
        let ghost rest = s@.skip(i as int);
        if s[i] == '\n' {
            out.push('\r');
        }
        out.push(s[i]);
        proof {
            assert(rest.skip(1) =~= s@.skip(i as int + 1));
            assert(out@ + to_crlf(s@.skip(i as int + 1)) =~= before + to_crlf(rest));
        }
    }
    proof {
        assert(out@ + to_crlf(s@.skip(s@.len() as int)) =~= out@);
    }
    out
}

proof fn lemma_counts(s: Seq<char>)
    ensures
        crlf_count(s) <= lf_count(s) <= s.len(),
    decreases s.len(),
{
    if s.len() > 0 {
        lemma_counts(s.skip(1));
    }
    if s.len() >= 2 {
        lemma_counts(s.skip(2));
        assert(s.skip(1).skip(1) =~= s.skip(2));
        assert(s.skip(1)[0] == s[1]);
    }
}

/// Makes the lines of a text end in LF, and finds the line ending that most of
/// them had.
pub fn normalize_line_endings(s: &[char]) -> (r: (Vec<char>, LineEnding))
    ensures
        r.0@ == to_lf(s@),
        r.1 == dominant(s@),
{
    let mut lf: usize = 0;
    proof {
        assert(s@.skip(0) =~= s@);
        lemma_counts(s@);
    }
    for i in 0..s.len()
        invariant
            lf + lf_count(s@.skip(i as int)) == lf_count(s@),
            lf <= i,
    {
        proof {
            assert(s@.skip(i as int).skip(1) =~= s@.skip(i as int + 1));
        }
        if s[i] == '\n' {
            lf = lf + 1;
        }
    }
    let mut crlf: usize = 0;
    let mut i: usize = 0;
    while i < s.len() && s.len() - i > 1
        invariant
            i <= s.len(),
            crlf + crlf_count(s@.skip(i as int)) == crlf_count(s@),
            crlf <= i,
        decreases s.len() - i,
    {
        let ghost rest = s@.skip(i as int);
        proof {
            assert(rest.skip(1) =~= s@.skip(i as int + 1));
        }
        if s[i] == '\r' && s[i + 1] == '\n' {
            proof {
                assert(rest.skip(2) =~= s@.skip(i as int + 2));
            }
            crlf = crlf + 1;
            i = i + 2;
        } else {
            i = i + 1;
        }
    }
    let e = if crlf > lf - crlf {
        LineEnding::Crlf
    } else {
        LineEnding::Lf
    };
    (with_lf(s), e)
}

// ---------------------------------------------------------------------------
// UTF-16
// ---------------------------------------------------------------------------

/// `char::from_u32` gives the character of a code point: of every number up to
/// 0x10FFFF that is no surrogate.
pub assume_specification[ char::from_u32 ](i: u32) -> (r: Option<char>)
    ensures
        match r {
            Some(c) => c as u32 == i,
            None => (0xD800 <= i <= 0xDFFF) || i > 0x10FFFF,
        },
;

/// The UTF-16 units of a character.
pub open spec fn units_of(c: char) -> Seq<u16> {
    let n = c as u32;
    if n < 0x10000 {
        seq![n as u16]
    } else {
        seq![(0xD800 + (n - 0x10000) / 0x400) as u16, (0xDC00 + (n - 0x10000) % 0x400) as u16]
    }
}

/// The UTF-16 units of a text.
pub open spec fn encode16(s: Seq<char>) -> Seq<u16>
    decreases s.len(),
{
    if s.len() == 0 {
        Seq::empty()
    } else {
        encode16(s.drop_last()) + units_of(s.last())
    }
}

/// Whether `u` begins a surrogate pair.
pub open spec fn is_high(u: u16) -> bool {
    0xD800 <= u <= 0xDBFF
}

/// Whether `u` ends a surrogate pair.
pub open spec fn is_low(u: u16) -> bool {
    0xDC00 <= u <= 0xDFFF
}

/// The character of a surrogate pair.
pub open spec fn pair_char(high: u16, low: u16) -> char {
    (0x10000 + (high - 0xD800) * 0x400 + (low - 0xDC00)) as char
}

/// The text of UTF-16 units; each surrogate without a partner becomes a
/// replacement character.
pub open spec fn decode16(u: Seq<u16>) -> Seq<char>
    decreases u.len(),
{
    if u.len() == 0 {
        Seq::empty()
    } else if is_high(u[0]) && u.len() >= 2 && is_low(u[1]) {
        seq![pair_char(u[0], u[1])] + decode16(u.skip(2))
    } else if is_high(u[0]) || is_low(u[0]) {
        seq!['\u{FFFD}'] + decode16(u.skip(1))
    } else {
        seq![u[0] as char] + decode16(u.skip(1))
    }
}

/// Whether every surrogate has its partner.
pub open spec fn paired(u: Seq<u16>) -> bool
    decreases u.len(),
{
    if u.len() == 0 {
        true
    } else if is_high(u[0]) && u.len() >= 2 && is_low(u[1]) {
        paired(u.skip(2))
    } else if is_high(u[0]) || is_low(u[0]) {
        false
    } else {
        paired(u.skip(1))
    }
}

/// A unit made of two bytes.
pub open spec fn unit(a: u8, b: u8, little: bool) -> u16 {
    if little {
        (a + 256 * b) as u16
    } else {
        (b + 256 * a) as u16
    }
}

/// The units that bytes make; an odd byte at the end is left out.
pub open spec fn byte_units(b: Seq<u8>, little: bool) -> Seq<u16> {
    Seq::new((b.len() / 2) as nat, |i: int| unit(b[2 * i], b[2 * i + 1], little))
}

/// The bytes of a unit.
pub open spec fn unit_bytes(u: u16, little: bool) -> Seq<u8> {
    if little {
        seq![(u % 256) as u8, (u / 256) as u8]
    } else {
        seq![(u / 256) as u8, (u % 256) as u8]
    }
}

/// The bytes of units.
pub open spec fn units_bytes(u: Seq<u16>, little: bool) -> Seq<u8>
    decreases u.len(),
{
    if u.len() == 0 {
        Seq::empty()
    } else {
        units_bytes(u.drop_last(), little) + unit_bytes(u.last(), little)
    }
}

fn units_from(b: &[u8], little: bool) -> (r: Vec<u16>)
    ensures
        r@ == byte_units(b@, little),
{
    let n: usize = b.len() / 2;
    let mut out: Vec<u16> = Vec::new();
    for i in 0..n
        invariant
            n == b.len() / 2,
            out.len() == i,
            forall|k: int| 0 <= k < i ==> out@[k] == byte_units(b@, little)[k],
    {
        let x: u8 = b[2 * i];
        let y: u8 = b[2 * i + 1];
        let u: u16 = if little {
            x as u16 + 256 * (y as u16)
        } else {
            y as u16 + 256 * (x as u16)
        };
        out.push(u);
    }
    proof {
        assert(out@ =~= byte_units(b@, little));
    }
    out
}

/// Reads bytes as UTF-16: the text, and whether something in it could not be
/// read.
pub fn decode_utf16(body: &[u8], little: bool) -> (r: (Vec<char>, bool))
    ensures
        r.0@ == decode16(byte_units(body@, little)),
        r.1 == (body@.len() % 2 == 1 || !paired(byte_units(body@, little))),
{
    let u = units_from(body, little);
    let mut out: Vec<char> = Vec::new();
    let mut bad = body.len() % 2 == 1;
    let mut i: usize = 0;
    proof {
        assert(u@.skip(0) =~= u@);
        assert(out@ + decode16(u@.skip(0)) =~= decode16(u@));
    }
    while i < u.len()
        invariant
            i <= u.len(),
            out@ + decode16(u@.skip(i as int)) == decode16(u@),
            (bad || !paired(u@.skip(i as int))) == (body@.len() % 2 == 1 || !paired(u@)),
        decreases u.len() - i,
    {
        let ghost before = out@;
        let ghost rest = u@.skip(i as int);
        let a: u16 = u[i];
        let high = 0xD800 <= a && a <= 0xDBFF;
        let low = 0xDC00 <= a && a <= 0xDFFF;
        if high && i + 1 < u.len() && 0xDC00 <= u[i + 1] && u[i + 1] <= 0xDFFF {
            let n: u32 = 0x10000 + (a as u32 - 0xD800) * 0x400 + (u[i + 1] as u32 - 0xDC00);
            let c = match char::from_u32(n) {
                Some(c) => c,
                None => '\u{FFFD}',
            };
            out.push(c);
            proof {
                assert(rest.skip(2) =~= u@.skip(i as int + 2));
                assert(c as u32 == n);
                vstd::utf8::char_u32_cast(c, n);
                assert(n as char == c);
                assert(pair_char(rest[0], rest[1]) == n as char);
                assert(out@ + decode16(u@.skip(i as int + 2)) =~= before + decode16(rest));
            }
            i = i + 2;
        } else {
            proof {
                assert(rest.skip(1) =~= u@.skip(i as int + 1));
            }
            if high || low {
                out.push('\u{FFFD}');
                bad = true;
            } else {
                let c = match char::from_u32(a as u32) {
                    Some(c) => c,
                    None => '\u{FFFD}',
                };
                out.push(c);
                proof {
                    assert(c as u32 == a as u32);
                    vstd::utf8::char_u32_cast(c, a as u32);
                    assert((a as u32) as char == c);
                    assert(rest[0] as char == c);
                }
            }
            proof {
                assert(out@ + decode16(u@.skip(i as int + 1)) =~= before + decode16(rest));
            }
            i = i + 1;
        }
    }
    proof {
        assert(out@ + decode16(u@.skip(i as int)) =~= out@);
    }
    (out, bad)
}

/// The byte order mark of UTF-16.
pub open spec fn bom16(little: bool) -> Seq<u8> {
    if little {
        seq![0xFFu8, 0xFEu8]
    } else {
        seq![0xFEu8, 0xFFu8]
    }
}

/// Writes a text as UTF-16.
pub fn encode_utf16(text: &[char], little: bool, bom: bool) -> (r: Vec<u8>)
    ensures
        r@ == if bom {
            bom16(little) + units_bytes(encode16(text@), little)
        } else {
            units_bytes(encode16(text@), little)
        },
{
    let mut out: Vec<u8> = Vec::new();
    if bom {
        if little {
            out.push(0xFF);
            out.push(0xFE);
        } else {
            out.push(0xFE);
            out.push(0xFF);
        }
    }
    let ghost head = out@;
    proof {
        if bom {
            assert(head =~= bom16(little));
        }
        assert(head + units_bytes(encode16(text@.take(0)), little) =~= head);
    }
    for i in 0..text.len()
        invariant
            out@ == head + units_bytes(encode16(text@.take(i as int)), little),
    {
        let ghost before = encode16(text@.take(i as int));
        let c = text[i];
        let n: u32 = c as u32;
        proof {
            assert(text@.take(i as int + 1).drop_last() =~= text@.take(i as int));
            assert(text@.take(i as int + 1).last() == c);
        }
        if n < 0x10000 {
            push_unit(&mut out, n as u16, little);
            proof {
                lemma_units_push(before, n as u16, little);
                assert(before + units_of(c) =~= before.push(n as u16));
                assert(out@ =~= head + units_bytes(before.push(n as u16), little));
            }
        } else {
            let m: u32 = n - 0x10000;
            let high: u16 = (0xD800 + m / 0x400) as u16;
            let low: u16 = (0xDC00 + m % 0x400) as u16;
            push_unit(&mut out, high, little);
            push_unit(&mut out, low, little);
            proof {
                lemma_units_push(before, high, little);
                lemma_units_push(before.push(high), low, little);
                assert(before + units_of(c) =~= before.push(high).push(low));
                assert(out@ =~= head + units_bytes(before.push(high).push(low), little));
            }
        }
    }
    proof {
        assert(text@.take(text@.len() as int) =~= text@);
        if !bom {
            assert(out@ =~= units_bytes(encode16(text@), little));
        }
    }
    out
}

proof fn lemma_units_push(u: Seq<u16>, x: u16, little: bool)
    ensures
        units_bytes(u.push(x), little) == units_bytes(u, little) + unit_bytes(x, little),
{
    assert(u.push(x).drop_last() =~= u);
}

fn push_unit(out: &mut Vec<u8>, u: u16, little: bool)
    ensures
        final(out)@ == old(out)@ + unit_bytes(u, little),
{
    let ghost before = out@;
    if little {
        out.push((u % 256) as u8);
        out.push((u / 256) as u8);
    } else {
        out.push((u / 256) as u8);
        out.push((u % 256) as u8);
    }
    proof {
        assert(out@ =~= before + unit_bytes(u, little));
    }
}

// ---------------------------------------------------------------------------
// Which encoding
// ---------------------------------------------------------------------------

/// How many of the first `n` bytes are zero and stand at an even place (or an
/// odd one).
pub open spec fn zeros(b: Seq<u8>, n: nat, even: bool) -> nat
    decreases n,
{
    if n == 0 {
        0
    } else {
        let i = (n - 1) as int;
        zeros(b, (n - 1) as nat, even) + if b[i] == 0 && (i % 2 == 0) == even {
            1nat
        } else {
            0nat
        }
    }
}

/// The UTF-16 that bytes without a byte order mark look like: among the first
/// 512 there are two zeros or more, and they stand at even places three times
/// as often as at odd ones (or the other way round, or never there).
pub open spec fn looks_utf16(b: Seq<u8>) -> Option<FileEncoding> {
    let len = if b.len() < 512 {
        (b.len() - b.len() % 2) as nat
    } else {
        512
    };
    let even = zeros(b, len, true);
    let odd = zeros(b, len, false);
    if even + odd < 2 {
        None
    } else if even >= odd {
        if odd == 0 || even >= odd * 3 {
            Some(FileEncoding::Utf16Be)
        } else {
            None
        }
    } else {
        if even == 0 || odd >= even * 3 {
            Some(FileEncoding::Utf16Le)
        } else {
            None
        }
    }
}

proof fn lemma_zeros(b: Seq<u8>, n: nat, even: bool)
    ensures
        zeros(b, n, even) <= n,
    decreases n,
{
    if n > 0 {
        lemma_zeros(b, (n - 1) as nat, even);
    }
}

/// The UTF-16 that bytes without a byte order mark look like.
pub fn guess_utf16(b: &[u8]) -> (r: Option<FileEncoding>)
    ensures
        r == looks_utf16(b@),
{
    let len: usize = if b.len() < 512 {
        b.len() - b.len() % 2
    } else {
        512
    };
    let mut even: usize = 0;
    let mut odd: usize = 0;
    for i in 0..len
        invariant
            len <= b.len(),
            len <= 512,
            even == zeros(b@, i as nat, true),
            odd == zeros(b@, i as nat, false),
            even <= i,
            odd <= i,
    {
        if b[i] == 0 {
            if i % 2 == 0 {
                even = even + 1;
            } else {
                odd = odd + 1;
            }
        }
        proof {
            lemma_zeros(b@, (i + 1) as nat, true);
            lemma_zeros(b@, (i + 1) as nat, false);
        }
    }
    if even + odd < 2 {
        return None;
    }
    if even >= odd {
        if odd == 0 || even >= odd * 3 {
            Some(FileEncoding::Utf16Be)
        } else {
            None
        }
    } else {
        if even == 0 || odd >= even * 3 {
            Some(FileEncoding::Utf16Le)
        } else {
            None
        }
    }
}

/// Whether a byte is a control character that texts do not have.
pub open spec fn is_control(b: u8) -> bool {
    b < 0x09 || 0x0e <= b <= 0x1f
}

/// How many of the first `n` bytes are such control characters.
pub open spec fn controls(b: Seq<u8>, n: nat) -> nat
    decreases n,
{
    if n == 0 {
        0
    } else {
        controls(b, (n - 1) as nat) + if is_control(b[n - 1]) {
            1nat
        } else {
            0nat
        }
    }
}

/// Whether more than three in ten of the first 512 bytes are such control
/// characters.
pub open spec fn is_binary_like(b: Seq<u8>) -> bool {
    let n = if b.len() < 512 {
        b.len()
    } else {
        512
    };
    controls(b, n) * 10 > n * 3
}

/// Whether bytes have too many control characters for a text.
pub fn looks_binary(b: &[u8]) -> (r: bool)
    ensures
        r == is_binary_like(b@),
{
    let n: usize = if b.len() < 512 {
        b.len()
    } else {
        512
    };
    let mut k: usize = 0;
    for i in 0..n
        invariant
            n <= b.len(),
            n <= 512,
            k == controls(b@, i as nat),
            k <= i,
    {
        let c: u8 = b[i];
        if c < 0x09 || (0x0e <= c && c <= 0x1f) {
            k = k + 1;
        }
    }
    k * 10 > n * 3
}

/// What `encoding_rs::GBK` decodes bytes to.
pub uninterp spec fn gbk_text(bytes: Seq<u8>) -> Seq<char>;

/// Calls `encoding_rs::GBK.decode`: the text of the bytes, a function of them,
/// named `gbk_text`; what is malformed is replaced.
#[verifier::external_body]
fn gbk_decode(bytes: &[u8]) -> (r: String)
    ensures
        r@ == gbk_text(bytes@),
{
    encoding_rs::GBK.decode(bytes).0.into_owned()
}

/// What `encoding_rs::GBK` encodes a text to; `None` where a character of it
/// has no code.
pub uninterp spec fn gbk_bytes(text: Seq<char>) -> Option<Seq<u8>>;

/// Calls `encoding_rs::GBK.encode`: the bytes of the text, or `None` where it
/// reports a character that has no code; a function of the text, named
/// `gbk_bytes`.
#[verifier::external_body]
fn gbk_encode(text: &str) -> (r: Option<Vec<u8>>)
    ensures
        match r {
            Some(b) => gbk_bytes(text@) == Some(b@),
            None => gbk_bytes(text@) is None,
        },
{
    match encoding_rs::GBK.encode(text) {
        (bytes, _, false) => Some(bytes.into_owned()),
        (_, _, true) => None,
    }
}

/// Whether decoding bytes as GBK and encoding the text again gives the bytes.
pub open spec fn is_gbk(b: Seq<u8>) -> bool {
    gbk_bytes(gbk_text(b)) == Some(b)
}

fn same_bytes(a: &[u8], b: &[u8]) -> (r: bool)
    ensures
        r == (a@ == b@),
{
    if a.len() != b.len() {
        return false;
    }
    for i in 0..a.len()
        invariant
            a.len() == b.len(),
            forall|k: int| 0 <= k < i ==> a@[k] == b@[k],
    {
        if a[i] != b[i] {
            return false;
        }
    }
    proof {
        assert(a@ =~= b@);
    }
    true
}

/// Whether bytes are GBK.
pub fn gbk_roundtrip(b: &[u8]) -> (r: bool)
    ensures
        r == is_gbk(b@),
{
    let t = gbk_decode(b);
    match gbk_encode(t.as_str()) {
        Some(e) => same_bytes(e.as_slice(), b),
        None => false,
    }
}

/// The encoding of bytes and whether a byte order mark says so; `None` where
/// they are no text.
pub open spec fn encoding_of(b: Seq<u8>) -> Result<(FileEncoding, bool), Seq<char>> {
    if b.len() >= 3 && b[0] == 0xEF && b[1] == 0xBB && b[2] == 0xBF {
        Ok((FileEncoding::Utf8, true))
    } else if b.len() >= 2 && b[0] == 0xFF && b[1] == 0xFE {
        Ok((FileEncoding::Utf16Le, true))
    } else if b.len() >= 2 && b[0] == 0xFE && b[1] == 0xFF {
        Ok((FileEncoding::Utf16Be, true))
    } else if looks_utf16(b) is Some {
        Ok((looks_utf16(b)->0, false))
    } else if b.contains(0) || is_binary_like(b) {
        Err("二进制文件，无法作为文本读取"@)
    } else if valid_utf8(b) {
        Ok((FileEncoding::Utf8, false))
    } else if is_gbk(b) {
        Ok((FileEncoding::Gbk, false))
    } else {
        Err("无法识别的文本编码（非 UTF-8/UTF-16/GBK）：如确认是文本，请先用 iconv 转为 UTF-8"@)
    }
}

/// How long the byte order mark of an encoding is.
pub open spec fn bom_len(e: FileEncoding, bom: bool) -> int {
    if !bom {
        0
    } else if e == FileEncoding::Utf8 {
        3
    } else {
        2
    }
}

/// The text of bytes in an encoding, and whether something in it could not be
/// read.
pub open spec fn text_in(e: FileEncoding, b: Seq<u8>) -> (Seq<char>, bool) {
    match e {
        FileEncoding::Utf8 => if valid_utf8(b) {
            (decode_utf8(b), false)
        } else {
            (lossy_text(b), true)
        },
        FileEncoding::Gbk => (gbk_text(b), false),
        FileEncoding::Utf16Le => (
            decode16(byte_units(b, true)),
            b.len() % 2 == 1 || !paired(byte_units(b, true)),
        ),
        FileEncoding::Utf16Be => (
            decode16(byte_units(b, false)),
            b.len() % 2 == 1 || !paired(byte_units(b, false)),
        ),
    }
}

/// The document that bytes hold, or why they are no text.
pub open spec fn document(b: Seq<u8>) -> Result<DocV, Seq<char>> {
    match encoding_of(b) {
        Err(e) => Err(e),
        Ok((encoding, bom)) => {
            let (text, lossy) = text_in(encoding, b.skip(bom_len(encoding, bom)));
            Ok(DocV { text: to_lf(text), encoding, bom, line_ending: dominant(text), lossy })
        },
    }
}

fn has_zero(b: &[u8]) -> (r: bool)
    ensures
        r == b@.contains(0),
{
    for i in 0..b.len()
        invariant
            forall|k: int| 0 <= k < i ==> b@[k] != 0,
    {
        if b[i] == 0 {
            proof {
                assert(b@[i as int] == 0);
            }
            return true;
        }
    }
    false
}

fn find_encoding(b: &[u8]) -> (r: Result<(FileEncoding, bool), String>)
    ensures
        match r {
            Ok(p) => encoding_of(b@) == Ok::<(FileEncoding, bool), Seq<char>>(p),
            Err(e) => encoding_of(b@) == Err::<(FileEncoding, bool), Seq<char>>(e@),
        },
{
    let n = b.len();
    if n >= 3 && b[0] == 0xEF && b[1] == 0xBB && b[2] == 0xBF {
        return Ok((FileEncoding::Utf8, true));
    }
    if n >= 2 && b[0] == 0xFF && b[1] == 0xFE {
        return Ok((FileEncoding::Utf16Le, true));
    }
    if n >= 2 && b[0] == 0xFE && b[1] == 0xFF {
        return Ok((FileEncoding::Utf16Be, true));
    }
    match guess_utf16(b) {
        Some(e) => return Ok((e, false)),
        None => {},
    }
    if has_zero(b) || looks_binary(b) {
        return Err("二进制文件，无法作为文本读取".to_owned());
    }
    if utf8_of(b).is_some() {
        return Ok((FileEncoding::Utf8, false));
    }
    if gbk_roundtrip(b) {
        return Ok((FileEncoding::Gbk, false));
    }
    Err("无法识别的文本编码（非 UTF-8/UTF-16/GBK）：如确认是文本，请先用 iconv 转为 UTF-8".to_owned())
}

/// Reads bytes as a text. The encoding is the one that a byte order mark
/// names, else UTF-16 where zeros stand like that, else UTF-8, else GBK; bytes
/// that look like none of them are no text.
pub fn decode(bytes: &[u8]) -> (r: Result<TextDocument, String>)
    ensures
        match r {
            Ok(d) => document(bytes@) == Ok::<DocV, Seq<char>>(d@),
            Err(e) => document(bytes@) == Err::<DocV, Seq<char>>(e@),
        },
{
    let (encoding, bom) = match find_encoding(bytes) {
        Ok(p) => p,
        Err(e) => return Err(e),
    };
    let k: usize = if !bom {
        0
    } else {
        match encoding {
            FileEncoding::Utf8 => 3,
            _ => 2,
        }
    };
    let body = slice_subrange(bytes, k, bytes.len());
    proof {
        assert(body@ =~= bytes@.skip(bom_len(encoding, bom)));
    }
    let (text, lossy): (Vec<char>, bool) = match encoding {
        FileEncoding::Utf8 => match utf8_of(body) {
            Some(s) => (chars_of(s.as_str()), false),
            None => {
                let s = lossy_of(body);
                (chars_of(s.as_str()), true)
            },
        },
        FileEncoding::Gbk => {
            let s = gbk_decode(body);
            (chars_of(s.as_str()), false)
        },
        FileEncoding::Utf16Le => decode_utf16(body, true),
        FileEncoding::Utf16Be => decode_utf16(body, false),
    };
    let (norm, line_ending) = normalize_line_endings(text.as_slice());
    Ok(TextDocument { text: string_of(norm.as_slice()), encoding, bom, line_ending, lossy })
}

/// A text with the given line ending throughout.
pub open spec fn with_ending(text: Seq<char>, line_ending: LineEnding) -> Seq<char> {
    match line_ending {
        LineEnding::Lf => to_lf(text),
        LineEnding::Crlf => to_crlf(to_lf(text)),
    }
}

/// The bytes of a text in an encoding, or the message that it has a character
/// that the encoding has not.
pub open spec fn bytes_of(
    text: Seq<char>,
    encoding: FileEncoding,
    bom: bool,
    line_ending: LineEnding,
) -> Result<Seq<u8>, Seq<char>> {
    let t = with_ending(text, line_ending);
    match encoding {
        FileEncoding::Utf8 => Ok(
            if bom {
                seq![0xEFu8, 0xBBu8, 0xBFu8] + encode_utf8(t)
            } else {
                encode_utf8(t)
            },
        ),
        FileEncoding::Utf16Le => Ok(
            if bom {
                bom16(true) + units_bytes(encode16(t), true)
            } else {
                units_bytes(encode16(t), true)
            },
        ),
        FileEncoding::Utf16Be => Ok(
            if bom {
                bom16(false) + units_bytes(encode16(t), false)
            } else {
                units_bytes(encode16(t), false)
            },
        ),
        FileEncoding::Gbk => match gbk_bytes(t) {
            Some(b) => Ok(b),
            None => Err(
                "内容包含 GBK 无法编码的字符，已拒绝写入以免破坏文件；请先转换文件编码"@,
            ),
        },
    }
}

/// Writes a text in a file's encoding, with the file's line ending.
pub fn encode(text_lf: &str, encoding: FileEncoding, bom: bool, line_ending: LineEnding) -> (r:
    Result<Vec<u8>, String>)
    ensures
        match r {
            Ok(b) => bytes_of(text_lf@, encoding, bom, line_ending) == Ok::<Seq<u8>, Seq<char>>(
                b@,
            ),
            Err(e) => bytes_of(text_lf@, encoding, bom, line_ending) == Err::<Seq<u8>, Seq<char>>(
                e@,
            ),
        },
{
    let raw = chars_of(text_lf);
    let norm = with_lf(raw.as_slice());
    let t: Vec<char> = match line_ending {
        LineEnding::Lf => norm,
        LineEnding::Crlf => with_crlf(norm.as_slice()),
    };
    match encoding {
        FileEncoding::Utf8 => {
            let s = string_of(t.as_slice());
            let body = s.as_str().as_bytes();
            let mut out: Vec<u8> = Vec::new();
            if bom {
                out.push(0xEF);
                out.push(0xBB);
                out.push(0xBF);
            }
            let ghost head = out@;
            for i in 0..body.len()
                invariant
                    out@ == head + body@.take(i as int),
            {
                out.push(body[i]);
                proof {
                    assert(body@.take(i as int + 1) =~= body@.take(i as int).push(body@[i as int]));
                }
            }
            proof {
                assert(body@.take(body@.len() as int) =~= body@);
                if bom {
                    assert(out@ =~= seq![0xEFu8, 0xBBu8, 0xBFu8] + encode_utf8(t@));
                } else {
                    assert(out@ =~= encode_utf8(t@));
                }
            }
            Ok(out)
        },
        FileEncoding::Utf16Le => Ok(encode_utf16(t.as_slice(), true, bom)),
        FileEncoding::Utf16Be => Ok(encode_utf16(t.as_slice(), false, bom)),
        FileEncoding::Gbk => {
            let s = string_of(t.as_slice());
            match gbk_encode(s.as_str()) {
                Some(b) => Ok(b),
                None => Err(
                    "内容包含 GBK 无法编码的字符，已拒绝写入以免破坏文件；请先转换文件编码".to_owned(),
                ),
            }
        },
    }
}

/// The text of bytes for a comparison: the document's, or with replacement
/// characters where they are no text.
pub open spec fn view_of(b: Seq<u8>) -> Seq<char> {
    match document(b) {
        Ok(d) => d.text,
        Err(_e) => lossy_text(b),
    }
}

/// The text of bytes for a comparison.
pub fn decoded_view(bytes: &[u8]) -> (r: String)
    ensures
        r@ == view_of(bytes@),
{
    match decode(bytes) {
        Ok(d) => d.text,
        Err(_e) => lossy_of(bytes),
    }
}

// ---------------------------------------------------------------------------
// Laws
// ---------------------------------------------------------------------------

proof fn lemma_lf_kept(s: Seq<char>)
    requires
        crlf_count(s) == 0,
    ensures
        to_lf(s) == s,
    decreases s.len(),
{
    if s.len() > 0 {
        lemma_lf_kept(s.skip(1));
        assert(seq![s[0]] + s.skip(1) =~= s);
    }
}

proof fn lemma_crlf_start(s: Seq<char>)
    ensures
        to_crlf(s).len() > 0 ==> to_crlf(s)[0] != '\n',
{
}

proof fn lemma_lf_of_crlf(s: Seq<char>)
    ensures
        to_lf(to_crlf(s)) == s,
        crlf_count(to_crlf(s)) == lf_count(s),
        lf_count(to_crlf(s)) == lf_count(s),
    decreases s.len(),
{
    if s.len() > 0 {
        let x = to_crlf(s.skip(1));
        let t = to_crlf(s);
        lemma_lf_of_crlf(s.skip(1));
        lemma_crlf_start(s.skip(1));
        if s[0] == '\n' {
            assert(t.skip(2) =~= x);
            assert(t.skip(1).skip(1) =~= x);
            assert(t.skip(1)[0] == '\n');
            assert(lf_count(t.skip(1)) == lf_count(x) + 1);
        } else {
            assert(t.skip(1) =~= x);
            if x.len() > 0 {
                assert(t[1] == x[0]);
            }
        }
        assert(seq![s[0]] + s.skip(1) =~= s);
    }
}

proof fn lemma_crlf_of_lf(s: Seq<char>)
    requires
        lf_count(s) == crlf_count(s),
    ensures
        to_crlf(to_lf(s)) == s,
    decreases s.len(),
{
    if s.len() > 0 {
        lemma_counts(s.skip(1));
        if s.len() >= 2 && s[0] == '\r' && s[1] == '\n' {
            assert(s.skip(1).skip(1) =~= s.skip(2));
            lemma_crlf_of_lf(s.skip(2));
            let y = to_lf(s.skip(2));
            assert(to_lf(s).skip(1) =~= y);
            assert(seq!['\r', '\n'] + s.skip(2) =~= s);
        } else {
            if s.len() == 1 {
                assert(s.skip(1) =~= Seq::<char>::empty());
            }
            lemma_crlf_of_lf(s.skip(1));
            let y = to_lf(s.skip(1));
            assert(to_lf(s).skip(1) =~= y);
            assert(seq![s[0]] + s.skip(1) =~= s);
        }
    }
}

proof fn lemma_encode16_front(s: Seq<char>)
    requires
        s.len() > 0,
    ensures
        encode16(s) == units_of(s[0]) + encode16(s.skip(1)),
    decreases s.len(),
{
    if s.len() == 1 {
        assert(s.drop_last() =~= Seq::<char>::empty());
        assert(s.skip(1) =~= Seq::<char>::empty());
        assert(encode16(s) =~= units_of(s[0]) + encode16(s.skip(1)));
    } else {
        lemma_encode16_front(s.drop_last());
        assert(s.drop_last().skip(1) =~= s.skip(1).drop_last());
        assert(encode16(s) =~= units_of(s[0]) + encode16(s.skip(1)));
    }
}

proof fn lemma_pair(c: char)
    requires
        c as u32 >= 0x10000,
    ensures
        units_of(c).len() == 2,
        is_high(units_of(c)[0]),
        is_low(units_of(c)[1]),
        pair_char(units_of(c)[0], units_of(c)[1]) == c,
{
    let n = c as u32;
    vstd::utf8::char_is_scalar(c);
    vstd::utf8::char_u32_cast(c, n);
    let m = n - 0x10000;
    assert(m == (m / 0x400) * 0x400 + m % 0x400);
    assert(n as char == c);
}

proof fn lemma_single(c: char)
    requires
        (c as u32) < 0x10000,
    ensures
        units_of(c) == seq![(c as u32) as u16],
        !is_high((c as u32) as u16),
        !is_low((c as u32) as u16),
        ((c as u32) as u16) as char == c,
{
    vstd::utf8::char_is_scalar(c);
    vstd::utf8::char_u32_cast(c, c as u32);
    assert((c as u32) as char == c);
}

proof fn lemma_decode_encode16(s: Seq<char>)
    ensures
        decode16(encode16(s)) == s,
        paired(encode16(s)),
    decreases s.len(),
{
    if s.len() > 0 {
        let rest = s.skip(1);
        lemma_encode16_front(s);
        lemma_decode_encode16(rest);
        let u = encode16(s);
        if (s[0] as u32) < 0x10000 {
            lemma_single(s[0]);
            assert(u.skip(1) =~= encode16(rest));
            assert(u[0] == (s[0] as u32) as u16);
        } else {
            lemma_pair(s[0]);
            assert(u.skip(2) =~= encode16(rest));
            assert(u[0] == units_of(s[0])[0]);
            assert(u[1] == units_of(s[0])[1]);
        }
        assert(seq![s[0]] + rest =~= s);
    }
}

proof fn lemma_encode_decode16(u: Seq<u16>)
    requires
        paired(u),
    ensures
        encode16(decode16(u)) == u,
    decreases u.len(),
{
    if u.len() > 0 {
        let t = decode16(u);
        if is_high(u[0]) {
            lemma_encode_decode16(u.skip(2));
            let n = (0x10000 + (u[0] - 0xD800) * 0x400 + (u[1] - 0xDC00)) as u32;
            assert(t[0] == n as char);
            assert(t[0] as u32 == n);
            assert((n - 0x10000) / 0x400 == u[0] - 0xD800);
            assert((n - 0x10000) % 0x400 == u[1] - 0xDC00);
            lemma_encode16_front(t);
            assert(t.skip(1) =~= decode16(u.skip(2)));
            assert(units_of(t[0]) =~= seq![u[0], u[1]]);
            assert(seq![u[0], u[1]] + u.skip(2) =~= u);
        } else {
            lemma_encode_decode16(u.skip(1));
            assert(t[0] == u[0] as char);
            assert(t[0] as u32 == u[0] as u32);
            lemma_encode16_front(t);
            assert(t.skip(1) =~= decode16(u.skip(1)));
            assert(units_of(t[0]) =~= seq![u[0]]);
            assert(seq![u[0]] + u.skip(1) =~= u);
        }
    } else {
        assert(encode16(decode16(u)) =~= u);
    }
}

proof fn lemma_units_bytes_len(u: Seq<u16>, little: bool)
    ensures
        units_bytes(u, little).len() == 2 * u.len(),
        forall|i: int|
            0 <= i < u.len() ==> #[trigger] unit_bytes(u[i], little) == seq![
                units_bytes(u, little)[2 * i],
                units_bytes(u, little)[2 * i + 1],
            ],
    decreases u.len(),
{
    if u.len() > 0 {
        let h = u.drop_last();
        lemma_units_bytes_len(h, little);
        let all = units_bytes(u, little);
        assert forall|i: int| 0 <= i < u.len() implies #[trigger] unit_bytes(u[i], little) == seq![
            all[2 * i],
            all[2 * i + 1],
        ] by {
            if i < h.len() {
                assert(h[i] == u[i]);
                assert(unit_bytes(h[i], little) == seq![
                    units_bytes(h, little)[2 * i],
                    units_bytes(h, little)[2 * i + 1],
                ]);
                assert(all[2 * i] == units_bytes(h, little)[2 * i]);
                assert(all[2 * i + 1] == units_bytes(h, little)[2 * i + 1]);
            } else {
                assert(unit_bytes(u[i], little) =~= seq![all[2 * i], all[2 * i + 1]]);
            }
        }
    }
}

proof fn lemma_bytes_units(u: Seq<u16>, little: bool)
    ensures
        byte_units(units_bytes(u, little), little) == u,
{
    lemma_units_bytes_len(u, little);
    let b = units_bytes(u, little);
    assert forall|i: int| 0 <= i < u.len() implies byte_units(b, little)[i] == u[i] by {
        assert(unit_bytes(u[i], little) == seq![b[2 * i], b[2 * i + 1]]);
        assert(seq![b[2 * i], b[2 * i + 1]][0] == b[2 * i]);
        assert(seq![b[2 * i], b[2 * i + 1]][1] == b[2 * i + 1]);
    }
    assert(byte_units(b, little) =~= u);
}

proof fn lemma_units_of_bytes(b: Seq<u8>, little: bool)
    requires
        b.len() % 2 == 0,
    ensures
        units_bytes(byte_units(b, little), little) == b,
{
    let u = byte_units(b, little);
    lemma_units_bytes_len(u, little);
    let c = units_bytes(u, little);
    assert forall|k: int| 0 <= k < b.len() implies c[k] == b[k] by {
        let i = k / 2;
        assert(unit_bytes(u[i], little) == seq![c[2 * i], c[2 * i + 1]]);
        assert(seq![c[2 * i], c[2 * i + 1]][0] == c[2 * i]);
        assert(seq![c[2 * i], c[2 * i + 1]][1] == c[2 * i + 1]);
        assert(u[i] == unit(b[2 * i], b[2 * i + 1], little));
    }
    assert(c =~= b);
}

proof fn lemma_no_zeros(b: Seq<u8>, n: nat, even: bool)
    requires
        !b.contains(0),
        n <= b.len(),
    ensures
        zeros(b, n, even) == 0,
    decreases n,
{
    if n > 0 {
        lemma_no_zeros(b, (n - 1) as nat, even);
        assert(b.contains(b[n - 1]));
    }
}

/// Reading a text file and writing its text back unchanged gives the bytes of
/// the file, in every encoding: where nothing was replaced in reading, and the
/// lines end all in the same way (with no carriage return of their own before
/// the line ending).
pub proof fn law_read_then_write(b: Seq<u8>)
    requires
        document(b) is Ok,
        !document(b)->Ok_0.lossy,
        ({
            let d = document(b)->Ok_0;
            let raw = text_in(d.encoding, b.skip(bom_len(d.encoding, d.bom))).0;
            crlf_count(raw) == 0 || (crlf_count(raw) == lf_count(raw) && crlf_count(to_lf(raw))
                == 0)
        }),
    ensures
        ({
            let d = document(b)->Ok_0;
            bytes_of(d.text, d.encoding, d.bom, d.line_ending) == Ok::<Seq<u8>, Seq<char>>(b)
        }),
{
    let d = document(b)->Ok_0;
    let body = b.skip(bom_len(d.encoding, d.bom));
    let raw = text_in(d.encoding, body).0;
    lemma_counts(raw);
    if crlf_count(raw) == 0 {
        lemma_lf_kept(raw);
    } else {
        lemma_lf_kept(to_lf(raw));
        lemma_crlf_of_lf(raw);
    }
    assert(with_ending(d.text, d.line_ending) == raw);
    match d.encoding {
        FileEncoding::Utf8 => {
            vstd::utf8::decode_utf8_encode_utf8(body);
            if d.bom {
                assert(seq![0xEFu8, 0xBBu8, 0xBFu8] + body =~= b);
            } else {
                assert(body =~= b);
            }
        },
        FileEncoding::Gbk => {
            assert(body =~= b);
        },
        FileEncoding::Utf16Le => {
            lemma_encode_decode16(byte_units(body, true));
            lemma_units_of_bytes(body, true);
            if d.bom {
                assert(bom16(true) + body =~= b);
            } else {
                assert(body =~= b);
            }
        },
        FileEncoding::Utf16Be => {
            lemma_encode_decode16(byte_units(body, false));
            lemma_units_of_bytes(body, false);
            if d.bom {
                assert(bom16(false) + body =~= b);
            } else {
                assert(body =~= b);
            }
        },
    }
}

/// The line ending that a written file is found to have: the one it was
/// written with, unless it has no line ending at all.
pub open spec fn found_ending(text: Seq<char>, line_ending: LineEnding) -> LineEnding {
    if lf_count(text) == 0 {
        LineEnding::Lf
    } else {
        line_ending
    }
}

/// A text that is written as UTF-8, or as UTF-16 with a byte order mark, is
/// read back as it was, in the same encoding. The text is one whose lines end
/// in LF. Without a byte order mark the bytes must not look like something
/// else: they have no zero, few control characters, and no mark at their
/// start.
pub proof fn law_write_then_read(
    text: Seq<char>,
    encoding: FileEncoding,
    bom: bool,
    line_ending: LineEnding,
)
    requires
        crlf_count(text) == 0,
        encoding != FileEncoding::Gbk,
        bom || ({
            let b = encode_utf8(with_ending(text, line_ending));
            &&& encoding == FileEncoding::Utf8
            &&& !b.contains(0)
            &&& !is_binary_like(b)
            &&& !(b.len() >= 3 && b[0] == 0xEF && b[1] == 0xBB && b[2] == 0xBF)
            &&& !(b.len() >= 2 && b[0] >= 0xFE)
        }),
    ensures
        bytes_of(text, encoding, bom, line_ending) is Ok,
        document(bytes_of(text, encoding, bom, line_ending)->Ok_0) == Ok::<DocV, Seq<char>>(
            DocV {
                text,
                encoding,
                bom,
                line_ending: found_ending(text, line_ending),
                lossy: false,
            },
        ),
{
    let t = with_ending(text, line_ending);
    let b = bytes_of(text, encoding, bom, line_ending)->Ok_0;
    lemma_lf_kept(text);
    lemma_counts(text);
    lemma_lf_of_crlf(text);
    assert(to_lf(t) == text);
    assert(dominant(t) == found_ending(text, line_ending));
    match encoding {
        FileEncoding::Utf8 => {
            vstd::utf8::encode_utf8_valid_utf8(t);
            vstd::utf8::encode_utf8_decode_utf8(t);
            if bom {
                assert(b.skip(3) =~= encode_utf8(t));
            } else {
                lemma_no_zeros(
                    b,
                    if b.len() < 512 {
                        (b.len() - b.len() % 2) as nat
                    } else {
                        512
                    },
                    true,
                );
                lemma_no_zeros(
                    b,
                    if b.len() < 512 {
                        (b.len() - b.len() % 2) as nat
                    } else {
                        512
                    },
                    false,
                );
                assert(b.skip(0) =~= b);
            }
        },
        FileEncoding::Utf16Le => {
            assert(b.skip(2) =~= units_bytes(encode16(t), true));
            lemma_units_bytes_len(encode16(t), true);
            lemma_bytes_units(encode16(t), true);
            lemma_decode_encode16(t);
        },
        FileEncoding::Utf16Be => {
            assert(b.skip(2) =~= units_bytes(encode16(t), false));
            lemma_units_bytes_len(encode16(t), false);
            lemma_bytes_units(encode16(t), false);
            lemma_decode_encode16(t);
        },
        FileEncoding::Gbk => {},
    }
}

/// Changing the line endings of a text changes nothing but carriage returns:
/// every other character stays, in its order.
pub proof fn law_line_endings_change_nothing_else(s: Seq<char>)
    ensures
        without_returns(to_lf(s)) == without_returns(s),
        without_returns(to_crlf(s)) == without_returns(s),
        !s.contains('\r') ==> to_lf(s) == s && to_lf(to_crlf(s)) == s,
    decreases s.len(),
{
    if s.len() > 0 {
        let c = s[0];
        let rest = s.skip(1);
        law_line_endings_change_nothing_else(rest);
        assert(s =~= seq![c] + rest);
        lemma_returns_join(seq![c], rest);
        lemma_returns_join(seq![c], to_lf(rest));
        lemma_returns_join(seq![c], to_crlf(rest));
        lemma_returns_join(seq!['\r', '\n'], to_crlf(rest));
        lemma_one_return();
        if c == '\n' {
            assert(to_crlf(s) == seq!['\r', '\n'] + to_crlf(rest));
        }
        if s.len() >= 2 && c == '\r' && s[1] == '\n' {
            let later = s.skip(2);
            law_line_endings_change_nothing_else(later);
            assert(s =~= seq!['\r', '\n'] + later);
            lemma_returns_join(seq!['\r', '\n'], later);
            lemma_returns_join(seq!['\n'], to_lf(later));
        }
        if !s.contains('\r') {
            assert(s.contains(s[0]));
            assert forall|i: int| 0 <= i < rest.len() implies rest[i] != '\r' by {
                assert(s.contains(s[i + 1]));
            }
            assert(to_lf(s) == seq![c] + to_lf(rest));
            let w = to_crlf(s);
            if c == '\n' {
                assert(w.skip(2) =~= to_crlf(rest));
            } else {
                assert(w.skip(1) =~= to_crlf(rest));
                assert(w[0] == c);
            }
            assert(to_lf(w) =~= s);
        }
    }
}

/// A text without its carriage returns.
pub open spec fn without_returns(s: Seq<char>) -> Seq<char> {
    s.filter(|c: char| c != '\r')
}

proof fn lemma_one_return()
    ensures
        without_returns(seq!['\r', '\n']) == seq!['\n'],
        without_returns(seq!['\n']) == seq!['\n'],
{
    reveal_with_fuel(Seq::filter, 3);
    let a = seq!['\r', '\n'];
    let b = seq!['\n'];
    assert(a.drop_last() =~= seq!['\r']);
    assert(seq!['\r'].drop_last() =~= Seq::<char>::empty());
    assert(b.drop_last() =~= Seq::<char>::empty());
    assert(without_returns(a) =~= b);
    assert(without_returns(b) =~= b);
}

proof fn lemma_returns_join(a: Seq<char>, b: Seq<char>)
    ensures
        without_returns(a + b) == without_returns(a) + without_returns(b),
    decreases b.len(),
{
    reveal(Seq::filter);
    if b.len() == 0 {
        assert(a + b =~= a);
        assert(without_returns(a) + without_returns(b) =~= without_returns(a));
    } else {
        lemma_returns_join(a, b.drop_last());
        assert((a + b).drop_last() =~= a + b.drop_last());
        assert((a + b).last() == b.last());
        assert(without_returns(a + b) =~= without_returns(a) + without_returns(b));
    }
}

} // verus!
