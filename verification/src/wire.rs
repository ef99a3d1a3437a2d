//! The primitive encodings of the MQTT wire format: big-endian integers, the
//! variable byte integer, and length-prefixed text and binary fields.

use bytes::BufMut;
use vstd::prelude::*;
use vstd::string::*;

verus! {

/// The two bytes of a 16 bit integer, most significant first.
pub open spec fn u16_wire(n: u16) -> Seq<u8> {
    seq![(n / 256) as u8, (n % 256) as u8]
}

/// The four bytes of a 32 bit integer, most significant first.
pub open spec fn u32_wire(n: u32) -> Seq<u8> {
    seq![
        (n / 0x100_0000) as u8,
        (n / 0x1_0000 % 256) as u8,
        (n / 256 % 256) as u8,
        (n % 256) as u8,
    ]
}

/// The 16 bit integer in the first two bytes of `data`.
pub open spec fn u16_value(data: Seq<u8>) -> u16 {
    (data[0] * 256 + data[1]) as u16
}

/// The 32 bit integer in the first four bytes of `data`.
pub open spec fn u32_value(data: Seq<u8>) -> u32 {
    (data[0] * 0x100_0000 + data[1] * 0x1_0000 + data[2] * 256 + data[3]) as u32
}

/// `bytes::BufMut::put_u16` on a `Vec<u8>`: appends the integer's two bytes,
/// most significant first, and leaves what the vector held in place.
#[verifier::external_body]
pub(crate) fn put_u16(buf: &mut Vec<u8>, n: u16)
    ensures
        final(buf)@ == old(buf)@ + u16_wire(n),
{
    buf.put_u16(n);
}

/// `bytes::BufMut::put_u32` on a `Vec<u8>`: appends the integer's four bytes,
/// most significant first, and leaves what the vector held in place.
#[verifier::external_body]
pub(crate) fn put_u32(buf: &mut Vec<u8>, n: u32)
    ensures
        final(buf)@ == old(buf)@ + u32_wire(n),
{
    buf.put_u32(n);
}

/// `std::str::from_utf8`: the text whose UTF-8 encoding the bytes are, or
/// nothing where they are not valid UTF-8.
#[verifier::external_body]
pub(crate) fn text_of(bytes: &[u8]) -> (text: Option<&str>)
    ensures
        text is Some <==> vstd::utf8::valid_utf8(bytes@),
        text matches Some(s) ==> s@ == vstd::utf8::decode_utf8(bytes@),
{
    std::str::from_utf8(bytes).ok()
}

/// Reads a big-endian 16 bit integer.
pub(crate) fn read_u16(data: &[u8]) -> (n: u16)
    requires
        data@.len() >= 2,
    ensures
        n == u16_value(data@),
{
    (data[0] as u16) * 256 + data[1] as u16
}

/// Reads a big-endian 32 bit integer.
pub(crate) fn read_u32(data: &[u8]) -> (n: u32)
    requires
        data@.len() >= 4,
    ensures
        n == u32_value(data@),
{
    (data[0] as u32) * 0x100_0000 + (data[1] as u32) * 0x1_0000 + (data[2] as u32) * 256
        + data[3] as u32
}

/// Reading back a written 16 bit integer gives the integer.
pub proof fn law_u16_round_trip(n: u16, rest: Seq<u8>)
    ensures
        u16_value(u16_wire(n) + rest) == n,
        u16_wire(n).len() == 2,
{
}

/// Reading back a written 32 bit integer gives the integer.
pub proof fn law_u32_round_trip(n: u32, rest: Seq<u8>)
    ensures
        u32_value(u32_wire(n) + rest) == n,
        u32_wire(n).len() == 4,
{
}

// ── Variable byte integer ────────────────────────────────────────────────

/// The variable byte integer: seven bits per byte, least significant group
/// first, the top bit set on every byte but the last.
pub open spec fn varint_wire(n: nat) -> Seq<u8>
    decreases n,
{
    if n < 128 {
        seq![n as u8]
    } else {
        seq![(128 + n % 128) as u8] + varint_wire(n / 128)
    }
}

/// How many bytes at the start of `data` have their top bit set.
pub open spec fn continuation_len(data: Seq<u8>) -> nat
    decreases data.len(),
{
    if data.len() == 0 || data[0] < 128 {
        0
    } else {
        1 + continuation_len(data.drop_first())
    }
}

/// The number that the seven bit groups at the start of `data` spell, up to
/// and with the first byte whose top bit is clear.
pub open spec fn varint_value(data: Seq<u8>) -> nat
    decreases data.len(),
{
    if data.len() == 0 {
        0
    } else if data[0] < 128 {
        data[0] as nat
    } else {
        (data[0] - 128) as nat + 128 * varint_value(data.drop_first())
    }
}

/// How many seven bit groups a `usize` holds in full.
pub open spec fn varint_limit() -> nat {
    if usize::BITS == 64 {
        9
    } else {
        4
    }
}

/// What the start of `data` says when it is read as a variable byte integer.
pub enum VarintView {
    /// No byte with a clear top bit yet.
    Incomplete,
    /// More bytes than a `usize` has room for.
    Overlong,
    /// The number, and how many bytes it took.
    Value(nat, nat),
}

/// Reads `data` as a variable byte integer.
pub open spec fn varint_at(data: Seq<u8>) -> VarintView {
    let n = continuation_len(data);
    if n >= varint_limit() && data.len() > varint_limit() {
        VarintView::Overlong
    } else if n == data.len() {
        VarintView::Incomplete
    } else {
        VarintView::Value(varint_value(data), n + 1)
    }
}

/// The outcome of reading a variable byte integer.
pub enum Varint {
    Incomplete,
    Overlong,
    Value(usize, usize),
}

impl View for Varint {
    type V = VarintView;

    open spec fn view(&self) -> VarintView {
        match *self {
            Varint::Incomplete => VarintView::Incomplete,
            Varint::Overlong => VarintView::Overlong,
            Varint::Value(value, size) => VarintView::Value(value as nat, size as nat),
        }
    }
}

proof fn lemma_group_bounds(i: nat)
    ensures
        i < varint_limit() <==> vstd::arithmetic::power::pow(128, i + 1) <= usize::MAX,
        vstd::arithmetic::power::pow(128, i + 1) == 128 * vstd::arithmetic::power::pow(128, i),
        vstd::arithmetic::power::pow(128, i) > 0,
{
    use_pow_values();
    vstd::arithmetic::power::lemma_pow_positive(128, i);
    assert(vstd::arithmetic::power::pow(128, i + 1) == 128 * vstd::arithmetic::power::pow(128, i))
        by {
        reveal(vstd::arithmetic::power::pow);
    }
    if i < varint_limit() {
        vstd::arithmetic::power::lemma_pow_increases(128, i + 1, varint_limit());
    } else {
        vstd::arithmetic::power::lemma_pow_increases(128, varint_limit() + 1, i + 1);
    }
}

proof fn use_pow_values()
    ensures
        vstd::arithmetic::power::pow(128, varint_limit()) <= usize::MAX,
        vstd::arithmetic::power::pow(128, varint_limit() + 1) > usize::MAX,
{
    reveal_with_fuel(vstd::arithmetic::power::pow, 11);
    assert(vstd::arithmetic::power::pow(128, 4) == 0x1000_0000);
    assert(vstd::arithmetic::power::pow(128, 5) == 0x8_0000_0000);
    assert(vstd::arithmetic::power::pow(128, 9) == 0x8000_0000_0000_0000);
    assert(vstd::arithmetic::power::pow(128, 10) == 0x40_0000_0000_0000_0000int);
    assert(usize::BITS == 64 || usize::BITS == 32);
}

proof fn lemma_low_bits(b: u8)
    ensures
        (b & 0x7F) == b % 128,
        (b & 0x80 == 0) == (b < 128),
{
    assert((b & 0x7F) == b % 128) by (bit_vector);
    assert((b & 0x80 == 0) == (b < 128)) by (bit_vector);
}

/// Reads the variable byte integer at the start of `data`, whatever `data` is.
pub fn scan_varint(data: &[u8]) -> (r: Varint)
    ensures
        r@ == varint_at(data@),
{
    let mut value: usize = 0;
    let mut multiplier: usize = 1;
    let mut i: usize = 0;
    proof {
        assert(data@.skip(0) == data@);
        vstd::arithmetic::power::lemma_pow0(128);
        assert(1 * varint_value(data@) == varint_value(data@));
    }
    while i < data.len()
        invariant
            i <= data@.len(),
            i <= varint_limit(),
            multiplier == vstd::arithmetic::power::pow(128, i as nat),
            value < multiplier,
            varint_value(data@) == value + multiplier * varint_value(data@.skip(i as int)),
            continuation_len(data@) == i + continuation_len(data@.skip(i as int)),
        decreases data@.len() - i,
    {
        let byte: u8 = data[i];
        let ghost rest = data@.skip(i as int);
        proof {
            lemma_low_bits(byte);
            lemma_group_bounds(i as nat);
            assert(rest.drop_first() == data@.skip(i + 1));
            assert(rest[0] == byte);
        }
        let next: usize = match multiplier.checked_mul(128) {
            Some(next) => next,
            None => {
                return Varint::Overlong;
            },
        };
        let low: usize = (byte & 0x7F) as usize;
        let ghost tail = varint_value(data@.skip(i + 1));
        proof {
            assert(low * multiplier <= 127 * multiplier) by (nonlinear_arith)
                requires
                    low <= 127,
            ;
            assert(multiplier * (low + 128 * tail) == low * multiplier + (128 * multiplier) * tail)
                by (nonlinear_arith);
            assert(multiplier * low == low * multiplier) by (nonlinear_arith);
        }
        value = value + low * multiplier;
        multiplier = next;
        if byte & 0x80 == 0 {
            return Varint::Value(value, i + 1);
        }
        i = i + 1;
    }
    assert(data@.skip(i as int).len() == 0);
    Varint::Incomplete
}

/// Encodes a length as a variable byte integer.
pub fn encode_remaining_length(len: usize) -> (bytes: Vec<u8>)
    ensures
        bytes@ == varint_wire(len as nat),
{
    let mut rest: usize = len;
    let mut buf: Vec<u8> = Vec::with_capacity(4);
    while rest >= 128
        invariant
            buf@ + varint_wire(rest as nat) == varint_wire(len as nat),
        decreases rest,
    {
        let byte: u8 = (rest % 128) as u8 + 128;
        let ghost before = buf@;
        buf.push(byte);
        proof {
            assert(before + (seq![byte] + varint_wire((rest / 128) as nat)) == buf@ + varint_wire(
                (rest / 128) as nat,
            ));
        }
        rest = rest / 128;
    }
    let ghost before = buf@;
    buf.push(rest as u8);
    assert(buf@ == before + varint_wire(rest as nat));
    buf
}

/// Reads the variable byte integer at the start of `data`: the number and how
/// many bytes it took, or nothing while its last byte is missing.
pub fn decode_remaining_length(data: &[u8]) -> (r: Option<(usize, usize)>)
    requires
        varint_at(data@) !is Overlong,
    ensures
        match r {
            Some((value, size)) => varint_at(data@) == VarintView::Value(
                value as nat,
                size as nat,
            ),
            None => varint_at(data@) is Incomplete,
        },
{
    match scan_varint(data) {
        Varint::Value(value, size) => Some((value, size)),
        _ => None,
    }
}

/// A number of so many seven bit groups takes at most that many bytes.
pub proof fn lemma_varint_wire_len(n: nat, groups: nat)
    requires
        n < vstd::arithmetic::power::pow(128, groups),
        groups > 0,
    ensures
        0 < varint_wire(n).len() <= groups,
    decreases groups,
{
    reveal(vstd::arithmetic::power::pow);
    if n >= 128 {
        assert(groups > 1) by {
            if groups == 1 {
                vstd::arithmetic::power::lemma_pow1(128);
            }
        }
        let p = vstd::arithmetic::power::pow(128, (groups - 1) as nat);
        assert(n / 128 < p);
        lemma_varint_wire_len(n / 128, (groups - 1) as nat);
    }
}

proof fn lemma_varint_wire_reads(n: nat, rest: Seq<u8>)
    ensures
        varint_value(varint_wire(n) + rest) == n,
        continuation_len(varint_wire(n) + rest) + 1 == varint_wire(n).len(),
    decreases n,
{
    let data = varint_wire(n) + rest;
    if n >= 128 {
        lemma_varint_wire_reads(n / 128, rest);
        assert(data.drop_first() == varint_wire(n / 128) + rest);
    }
}

/// A length that fits the seven bit groups of a `usize` is read back from its
/// encoding, whatever follows, and exactly the encoding is consumed.
pub proof fn law_remaining_length_round_trip(n: nat, rest: Seq<u8>)
    requires
        n < vstd::arithmetic::power::pow(128, varint_limit()),
    ensures
        varint_at(varint_wire(n) + rest) == VarintView::Value(n, varint_wire(n).len()),
{
    lemma_varint_wire_len(n, varint_limit());
    lemma_varint_wire_reads(n, rest);
}

proof fn lemma_continuation_extends(data: Seq<u8>, more: Seq<u8>)
    ensures
        continuation_len(data) <= data.len(),
        continuation_len(data) < data.len() ==> continuation_len(data + more) == continuation_len(
            data,
        ) && varint_value(data + more) == varint_value(data),
        continuation_len(data + more) >= continuation_len(data),
    decreases data.len(),
{
    if data.len() > 0 && data[0] >= 128 {
        lemma_continuation_extends(data.drop_first(), more);
        assert((data + more).drop_first() == data.drop_first() + more);
    }
}

/// Bytes that arrive later change nothing about a length that was already read.
pub proof fn law_remaining_length_prefix(data: Seq<u8>, more: Seq<u8>)
    ensures
        varint_at(data) is Value ==> varint_at(data + more) == varint_at(data),
        varint_at(data) is Overlong ==> varint_at(data + more) is Overlong,
        varint_at(data) matches VarintView::Value(_, size) ==> 0 < size <= data.len(),
{
    lemma_continuation_extends(data, more);
}

// ── Outcomes of reading ──────────────────────────────────────────────────

/// What bytes say when they are read as a `T`.
pub enum Parsed<T> {
    /// They spell this value.
    Done(T),
    /// They break the format, for this reason.
    Bad(Seq<char>),
    /// They hold a variable byte integer that is too long for a `usize`.
    Overlong,
}

/// Why bytes could not be read.
#[derive(Debug)]
pub enum Fault {
    Bad(&'static str),
    Overlong,
}

impl Fault {
    /// The fault as the outcome of reading a `T`.
    pub open spec fn outcome<T>(self) -> Parsed<T> {
        match self {
            Fault::Bad(text) => Parsed::Bad(text@),
            Fault::Overlong => Parsed::Overlong,
        }
    }
}

// ── Length-prefixed fields ───────────────────────────────────────────────

/// The UTF-8 bytes of a text.
pub open spec fn utf8(text: Seq<char>) -> Seq<u8> {
    vstd::utf8::encode_utf8(text)
}

/// No character takes more than four bytes.
pub proof fn lemma_utf8_len(text: Seq<char>)
    ensures
        text.len() <= utf8(text).len() <= 4 * text.len(),
    decreases text.len(),
{
    if text.len() > 0 {
        lemma_utf8_len(text.drop_first());
    }
}

/// A binary field: two length bytes, then the content.
pub open spec fn binary_wire(content: Seq<u8>) -> Seq<u8> {
    u16_wire(content.len() as u16) + content
}

/// A text field: its UTF-8 bytes as a binary field.
pub open spec fn text_wire(text: Seq<char>) -> Seq<u8> {
    binary_wire(utf8(text))
}

/// The content of the binary field at the start of `data`, and the field's size.
pub open spec fn binary_at(data: Seq<u8>) -> Option<(Seq<u8>, nat)> {
    if data.len() < 2 || data.len() < 2 + u16_value(data) {
        None
    } else {
        Some((data.subrange(2, 2 + u16_value(data)), (2 + u16_value(data)) as nat))
    }
}

/// The content of the text field at the start of `data`, and the field's size.
pub open spec fn text_at(data: Seq<u8>) -> Option<(Seq<char>, nat)> {
    match binary_at(data) {
        Some((content, size)) => if vstd::utf8::valid_utf8(content) {
            Some((vstd::utf8::decode_utf8(content), size))
        } else {
            None
        },
        None => None,
    }
}

/// Appends a text field.
pub fn encode_utf8(buf: &mut Vec<u8>, s: &str)
    requires
        utf8(s@).len() <= u16::MAX,
    ensures
        final(buf)@ == old(buf)@ + text_wire(s@),
{
    let bytes: &[u8] = s.as_bytes();
    encode_binary(buf, bytes);
}

/// Reads the text field at the start of `data`.
pub fn decode_utf8(data: &[u8]) -> (r: Option<(&str, usize)>)
    ensures
        match r {
            Some((s, size)) => text_at(data@) == Some((s@, size as nat)),
            None => text_at(data@) is None,
        },
{
    match decode_binary(data) {
        Some((content, size)) => match text_of(content) {
            Some(s) => Some((s, size)),
            None => None,
        },
        None => None,
    }
}

/// Appends a binary field.
pub fn encode_binary(buf: &mut Vec<u8>, data: &[u8])
    requires
        data@.len() <= u16::MAX,
    ensures
        final(buf)@ == old(buf)@ + binary_wire(data@),
{
    put_u16(buf, data.len() as u16);
    buf.extend_from_slice(data);
    assert(buf@ == old(buf)@ + binary_wire(data@));
}

/// Reads the binary field at the start of `data`.
pub fn decode_binary(data: &[u8]) -> (r: Option<(&[u8], usize)>)
    ensures
        match r {
            Some((content, size)) => binary_at(data@) == Some((content@, size as nat)),
            None => binary_at(data@) is None,
        },
{
    if data.len() < 2 {
        return None;
    }
    let len: usize = read_u16(data) as usize;
    if data.len() < 2 + len {
        return None;
    }
    Some((vstd::slice::slice_subrange(data, 2, 2 + len), 2 + len))
}

/// A written binary field is read back, whatever follows it.
pub proof fn law_binary_round_trip(content: Seq<u8>, rest: Seq<u8>)
    requires
        content.len() <= u16::MAX,
    ensures
        binary_at(binary_wire(content) + rest) == Some((content, binary_wire(content).len())),
        binary_wire(content).len() == 2 + content.len(),
{
    let data = binary_wire(content) + rest;
    assert(u16_value(data) == content.len()) by {
        law_u16_round_trip(content.len() as u16, content + rest);
        assert(data == u16_wire(content.len() as u16) + (content + rest));
    }
    assert(data.subrange(2, (2 + content.len()) as int) == content);
}

/// A written text field is read back, whatever follows it.
pub proof fn law_utf8_round_trip(text: Seq<char>, rest: Seq<u8>)
    requires
        utf8(text).len() <= u16::MAX,
    ensures
        text_at(text_wire(text) + rest) == Some((text, text_wire(text).len())),
{
    law_binary_round_trip(utf8(text), rest);
    vstd::utf8::encode_utf8_valid_utf8(text);
    vstd::utf8::encode_utf8_decode_utf8(text);
}

} // verus!
