use qrcode_generator::QrSegment;
use vstd::arithmetic::power2::pow2;
use vstd::prelude::*;

verus! {

/// How the data bits of a segment are to be read.
#[derive(Clone, Copy, Debug, PartialEq, Eq, Structural)]
pub enum SegmentMode {
    Numeric,
    Alphanumeric,
    Byte,
    Kanji,
}

/// A segment of a QR code's data: its mode, its character count field and its data bits.
#[derive(Clone, Debug)]
pub struct Segment {
    pub mode: SegmentMode,
    pub num_chars: usize,
    pub data: Vec<bool>,
}

/// What a segment holds, as plain values.
pub struct SegSpec {
    pub mode: SegmentMode,
    pub num_chars: int,
    pub data: Seq<bool>,
}

impl View for Segment {
    type V = SegSpec;

    open spec fn view(&self) -> SegSpec {
        SegSpec { mode: self.mode, num_chars: self.num_chars as int, data: self.data@ }
    }
}

pub open spec fn segs_view(segs: Seq<Segment>) -> Seq<SegSpec> {
    segs.map_values(|s: Segment| s@)
}

/// One of the 45 characters that alphanumeric mode can encode.
pub open spec fn is_alnum(c: char) -> bool {
    ('0' <= c && c <= '9') || ('A' <= c && c <= 'Z') || c == ' ' || c == '$' || c == '%'
        || c == '*' || c == '+' || c == '-' || c == '.' || c == '/' || c == ':'
}

pub open spec fn is_digit(c: char) -> bool {
    '0' <= c && c <= '9'
}

/// Number of bytes in the UTF-8 encoding of `c`.
pub open spec fn utf8_len(c: char) -> int {
    if (c as u32) < 0x80 {
        1
    } else if (c as u32) < 0x800 {
        2
    } else if (c as u32) < 0x10000 {
        3
    } else {
        4
    }
}

/// Number of bytes in the UTF-8 encoding of `s`.
pub open spec fn utf8_total(s: Seq<char>) -> int
    decreases s.len(),
{
    if s.len() == 0 {
        0
    } else {
        utf8_total(s.drop_last()) + utf8_len(s.last())
    }
}

/// Number of data bits of `n` digits in numeric mode: ten per group of three,
/// four or seven for a last group of one or two.
pub open spec fn numeric_bit_len(n: int) -> int {
    let rest: int = if n % 3 == 0 {
        0
    } else if n % 3 == 1 {
        4
    } else {
        7
    };
    10 * (n / 3) + rest
}

/// Number of data bits of `n` characters in alphanumeric mode: eleven per
/// pair, six for a last single character.
pub open spec fn alnum_bit_len(n: int) -> int {
    let rest: int = if n % 2 == 0 {
        0
    } else {
        6
    };
    11 * (n / 2) + rest
}

/// `v` as `w` bits, most significant first.
pub open spec fn bits_of(v: int, w: int) -> Seq<bool> {
    Seq::new(w as nat, |i: int| (v / pow2((w - 1 - i) as nat) as int) % 2 == 1)
}

/// The value of a decimal digit.
pub open spec fn digit_value(c: char) -> int {
    (c as u32) - ('0' as u32)
}

/// Numeric packing: each group of three digits as a 10-bit number, and a
/// last group of one or two digits in 4 or 7 bits.
pub open spec fn numeric_bits(s: Seq<char>) -> Seq<bool>
    decreases s.len(),
{
    if s.len() == 0 {
        seq![]
    } else if s.len() == 1 {
        bits_of(digit_value(s[0]), 4)
    } else if s.len() == 2 {
        bits_of(10 * digit_value(s[0]) + digit_value(s[1]), 7)
    } else {
        bits_of(100 * digit_value(s[0]) + 10 * digit_value(s[1]) + digit_value(s[2]), 10)
            + numeric_bits(s.subrange(3, s.len() as int))
    }
}

/// The index of an alphanumeric character in
/// `0123456789ABCDEFGHIJKLMNOPQRSTUVWXYZ $%*+-./:`.
pub open spec fn alnum_index(c: char) -> int {
    if '0' <= c && c <= '9' {
        (c as u32) - ('0' as u32)
    } else if 'A' <= c && c <= 'Z' {
        (c as u32) - ('A' as u32) + 10
    } else if c == ' ' {
        36
    } else if c == '$' {
        37
    } else if c == '%' {
        38
    } else if c == '*' {
        39
    } else if c == '+' {
        40
    } else if c == '-' {
        41
    } else if c == '.' {
        42
    } else if c == '/' {
        43
    } else {
        44
    }
}

/// Alphanumeric packing: `45 * a + b` in 11 bits for each pair of indices,
/// and the index of a last single character in 6 bits.
pub open spec fn alnum_bits(s: Seq<char>) -> Seq<bool>
    decreases s.len(),
{
    if s.len() == 0 {
        seq![]
    } else if s.len() == 1 {
        bits_of(alnum_index(s[0]), 6)
    } else {
        bits_of(45 * alnum_index(s[0]) + alnum_index(s[1]), 11) + alnum_bits(s.subrange(2, s.len() as int))
    }
}

/// The UTF-8 encoding of `c`.
pub open spec fn utf8_of(c: char) -> Seq<int> {
    let v = c as u32 as int;
    if v < 0x80 {
        seq![v]
    } else if v < 0x800 {
        seq![0xC0 + v / 64, 0x80 + v % 64]
    } else if v < 0x10000 {
        seq![0xE0 + v / 4096, 0x80 + (v / 64) % 64, 0x80 + v % 64]
    } else {
        seq![0xF0 + v / 262144, 0x80 + (v / 4096) % 64, 0x80 + (v / 64) % 64, 0x80 + v % 64]
    }
}

/// Byte packing: each byte of the UTF-8 encoding of `s` in 8 bits.
pub open spec fn byte_bits(s: Seq<char>) -> Seq<bool>
    decreases s.len(),
{
    if s.len() == 0 {
        seq![]
    } else {
        byte_bits(s.drop_last()) + bytes_bits(utf8_of(s.last()))
    }
}

pub open spec fn bytes_bits(b: Seq<int>) -> Seq<bool>
    decreases b.len(),
{
    if b.len() == 0 {
        seq![]
    } else {
        bits_of(b[0], 8) + bytes_bits(b.subrange(1, b.len() as int))
    }
}

proof fn lemma_bytes_bits_len(b: Seq<int>)
    ensures
        bytes_bits(b).len() == 8 * b.len(),
    decreases b.len(),
{
    if b.len() > 0 {
        lemma_bytes_bits_len(b.subrange(1, b.len() as int));
    }
}

/// The packed data lengths: `numeric_bit_len` for digits, `alnum_bit_len`
/// for alphanumeric characters, eight bits per UTF-8 byte.
pub proof fn lemma_bit_lengths(s: Seq<char>)
    ensures
        numeric_bits(s).len() == numeric_bit_len(s.len() as int),
        alnum_bits(s).len() == alnum_bit_len(s.len() as int),
        byte_bits(s).len() == 8 * utf8_total(s),
    decreases s.len(),
{
    if s.len() >= 1 {
        lemma_bytes_bits_len(utf8_of(s.last()));
        lemma_bit_lengths(s.drop_last());
    }
    if s.len() >= 2 {
        lemma_bit_lengths(s.subrange(2, s.len() as int));
    }
    if s.len() >= 3 {
        lemma_bit_lengths(s.subrange(3, s.len() as int));
    }
}

/// The number of data bits that `mode` gives the run of characters `s`.
pub open spec fn seg_bit_len(mode: SegmentMode, s: Seq<char>) -> int {
    match mode {
        SegmentMode::Numeric => numeric_bit_len(s.len() as int),
        SegmentMode::Alphanumeric => alnum_bit_len(s.len() as int),
        _ => 8 * utf8_total(s),
    }
}

/// The segment that `mode` gives for the run of characters `s`.
pub open spec fn seg_spec(mode: SegmentMode, s: Seq<char>) -> SegSpec {
    match mode {
        SegmentMode::Numeric => SegSpec {
            mode: SegmentMode::Numeric,
            num_chars: s.len() as int,
            data: numeric_bits(s),
        },
        SegmentMode::Alphanumeric => SegSpec {
            mode: SegmentMode::Alphanumeric,
            num_chars: s.len() as int,
            data: alnum_bits(s),
        },
        _ => SegSpec { mode: SegmentMode::Byte, num_chars: utf8_total(s), data: byte_bits(s) },
    }
}

/// Relies on qrcodegen's `QrSegment::make_numeric`: one character per digit,
/// packed as `numeric_bits` states; it panics on a non-digit.
#[verifier::external_body]
fn numeric_segment(s: &[char]) -> (r: Segment)
    requires
        forall|i: int| 0 <= i < s@.len() ==> is_digit(#[trigger] s@[i]),
    ensures
        r.mode == SegmentMode::Numeric,
        r.num_chars == s@.len(),
        r.data@ == numeric_bits(s@),
{
    let text: String = s.iter().collect();
    let q = QrSegment::make_numeric(&text);
    Segment { mode: SegmentMode::Numeric, num_chars: q.num_chars(), data: q.data().clone() }
}

/// Relies on qrcodegen's `QrSegment::make_alphanumeric`: one character per
/// input character, packed as `alnum_bits` states; it panics on a character
/// outside the alphanumeric set.
#[verifier::external_body]
fn alphanumeric_segment(s: &[char]) -> (r: Segment)
    requires
        forall|i: int| 0 <= i < s@.len() ==> is_alnum(#[trigger] s@[i]),
    ensures
        r.mode == SegmentMode::Alphanumeric,
        r.num_chars == s@.len(),
        r.data@ == alnum_bits(s@),
{
    let text: String = s.iter().collect();
    let q = QrSegment::make_alphanumeric(&text);
    Segment { mode: SegmentMode::Alphanumeric, num_chars: q.num_chars(), data: q.data().clone() }
}

/// Relies on qrcodegen's `QrSegment::make_bytes` on the UTF-8 encoding of the
/// characters: the count is the number of bytes, the data as `byte_bits`
/// states, eight bits per byte, most significant first.
#[verifier::external_body]
fn byte_segment(s: &[char]) -> (r: Segment)
    ensures
        r.mode == SegmentMode::Byte,
        r.num_chars == utf8_total(s@),
        r.data@ == byte_bits(s@),
{
    let text: String = s.iter().collect();
    let q = QrSegment::make_bytes(text.as_bytes());
    Segment { mode: SegmentMode::Byte, num_chars: q.num_chars(), data: q.data().clone() }
}

/// The segment that `mode` gives for the run of characters `s`.
pub fn make_segment(mode: SegmentMode, s: &[char]) -> (r: Segment)
    requires
        mode == SegmentMode::Numeric ==> forall|i: int| 0 <= i < s@.len() ==> is_digit(#[trigger] s@[i]),
        mode == SegmentMode::Alphanumeric ==> forall|i: int|
            0 <= i < s@.len() ==> is_alnum(#[trigger] s@[i]),
        mode != SegmentMode::Kanji,
    ensures
        r@ == seg_spec(mode, s@),
        r@.data.len() == seg_bit_len(mode, s@),
{
    proof {
        lemma_bit_lengths(s@);
    }
    match mode {
        SegmentMode::Numeric => numeric_segment(s),
        SegmentMode::Alphanumeric => alphanumeric_segment(s),
        _ => byte_segment(s),
    }
}

} // verus!
