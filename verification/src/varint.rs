//! VarInt encoding as used by the Minecraft protocol: seven data bits per
//! byte, least significant group first, bit 7 set on every byte but the last.
use vstd::prelude::*;
use vstd::utf8::{decode_utf8, encode_utf8, valid_utf8};
use vstd::string::StringSliceAdditionalSpecFns;

use crate::error::{lift_protocol, PingError, ProtocolError};

verus! {

/// `128` raised to the power `k`.
pub open spec fn pow128(k: nat) -> nat
    decreases k,
{
    if k == 0 {
        1
    } else {
        128 * pow128((k - 1) as nat)
    }
}

/// The 32-bit two's complement pattern of `value`, read as unsigned.
pub open spec fn unsigned32(value: i32) -> nat {
    if value >= 0 {
        value as nat
    } else {
        (value + 0x1_0000_0000) as nat
    }
}

/// The low 32 bits of `u`, read as a two's complement `i32`.
pub open spec fn signed32(u: nat) -> i32 {
    let w = u % 0x1_0000_0000;
    if w < 0x8000_0000 {
        w as i32
    } else {
        (w - 0x1_0000_0000) as i32
    }
}

/// Base-128 digits of `v`, least significant first, continuation bit on all
/// but the last.
pub open spec fn varint_bytes(v: nat) -> Seq<u8>
    decreases v,
{
    if v < 128 {
        seq![v as u8]
    } else {
        seq![(v % 128 + 128) as u8] + varint_bytes(v / 128)
    }
}

/// The VarInt encoding of `value`: its 32-bit pattern in base-128 digits.
pub open spec fn varint_encoding(value: i32) -> Seq<u8> {
    varint_bytes(unsigned32(value))
}

proof fn lemma_i32_as_u32(value: i32)
    ensures
        (value as u32) as nat == unsigned32(value),
{
    assert(value >= 0 ==> (value as u32) as int == value as int) by (bit_vector);
    assert(value < 0 ==> (value as u32) as int == value as int + 0x1_0000_0000) by (bit_vector);
}

/// Encode an i32 as a VarInt and write it into the buffer.
pub fn encode_varint(value: i32, buf: &mut Vec<u8>)
    ensures
        final(buf)@ == old(buf)@ + varint_encoding(value),
{
    let mut val = value as u32;
    proof {
        lemma_i32_as_u32(value);
    }
    while val & !0x7Fu32 != 0
        invariant
            buf@ + varint_bytes(val as nat) == old(buf)@ + varint_encoding(value),
        decreases val,
    {
        assert(val & !0x7Fu32 != 0 ==> val >= 128) by (bit_vector);
        assert(((val & 0x7F) | 0x80) as u8 == (val % 128 + 128) as u8) by (bit_vector);
        assert(val >> 7 == val / 128) by (bit_vector);
        buf.push((val & 0x7F | 0x80) as u8);
        val = val >> 7;
    }
    assert(val & !0x7Fu32 == 0 ==> val < 128) by (bit_vector);
    buf.push(val as u8);
}

} // verus!

verus! {

/// The value of little-endian base-128 digits, each byte's bit 7 ignored.
pub open spec fn digits_value(s: Seq<u8>) -> nat
    decreases s.len(),
{
    if s.len() == 0 {
        0
    } else {
        (s[0] % 128) as nat + 128 * digits_value(s.drop_first())
    }
}

/// Scanning a VarInt from byte `i` on: its length in bytes, or why no VarInt
/// ends within the first five bytes.
pub open spec fn varint_extent_from(data: Seq<u8>, i: nat) -> Result<usize, ProtocolError>
    decreases 5 - i,
{
    if i >= data.len() {
        Err(ProtocolError::VarIntTruncated)
    } else if data[i as int] < 128 {
        Ok((i + 1) as usize)
    } else if i >= 4 {
        Err(ProtocolError::VarIntTooLarge)
    } else {
        varint_extent_from(data, i + 1)
    }
}

/// The VarInt at the start of `data`: its value and its length in bytes.
/// Digits beyond the 32nd bit are dropped.
pub open spec fn spec_decode_varint(data: Seq<u8>) -> Result<(i32, usize), ProtocolError> {
    match varint_extent_from(data, 0) {
        Ok(n) => Ok((signed32(digits_value(data.take(n as int))), n)),
        Err(e) => Err(e),
    }
}

proof fn lemma_digits_take_step(s: Seq<u8>, i: int)
    requires
        0 <= i < s.len(),
    ensures
        digits_value(s.take(i + 1)) == digits_value(s.take(i)) + (s[i] % 128) as nat * pow128(
            i as nat,
        ),
    decreases i,
{
    if i == 0 {
        assert(s.take(1).drop_first() =~= Seq::<u8>::empty());
        assert(s.take(0) =~= Seq::<u8>::empty());
        assert(digits_value(s.take(1).drop_first()) == 0);
        assert(s.take(1)[0] == s[0]);
        assert(digits_value(s.take(1)) == (s[0] % 128) as nat);
        let x0 = (s[0] % 128) as nat;
        assert(x0 * pow128(0) == x0) by (nonlinear_arith)
            requires
                pow128(0) == 1,
        ;
        assert(pow128(0) == 1);
    } else {
        let t = s.drop_first();
        lemma_digits_take_step(t, i - 1);
        assert(s.take(i + 1).drop_first() =~= t.take(i));
        assert(s.take(i).drop_first() =~= t.take(i - 1));
        let x = (s[i] % 128) as nat;
        let p = pow128((i - 1) as nat);
        assert(t[i - 1] == s[i]);
        assert(s.take(i + 1)[0] == s[0] && s.take(i)[0] == s[0]);
        assert(pow128(i as nat) == 128 * p);
        assert(128 * (x * p) == x * (128 * p)) by (nonlinear_arith);
        assert(digits_value(s.take(i + 1)) == (s[0] % 128) as nat + 128 * digits_value(t.take(i)));
        assert(digits_value(s.take(i)) == (s[0] % 128) as nat + 128 * digits_value(t.take(i - 1)));
    }
}

proof fn lemma_digits_bound(s: Seq<u8>)
    ensures
        digits_value(s) < pow128(s.len()),
    decreases s.len(),
{
    if s.len() > 0 {
        lemma_digits_bound(s.drop_first());
    }
}

proof fn lemma_accumulate(value: u32, c: u32, i: nat)
    requires
        i <= 4,
        c < 128,
        value < pow128(i),
    ensures
        (value | (c << (7 * i) as u32)) as nat == (value + c * pow128(i)) % 0x1_0000_0000,
{
    reveal_with_fuel(pow128, 5);
    if i == 0 {
        assert(value == 0);
        assert(c < 128 ==> 0u32 | (c << 0u32) == c) by (bit_vector);
    } else if i == 1 {
        assert(value < 128 && c < 128 ==> (value | (c << 7u32)) as int == value + c * 128)
            by (bit_vector);
    } else if i == 2 {
        assert(value < 16384 && c < 128 ==> (value | (c << 14u32)) as int == value + c * 16384)
            by (bit_vector);
    } else if i == 3 {
        assert(value < 2097152 && c < 128 ==> (value | (c << 21u32)) as int == value + c
            * 2097152) by (bit_vector);
    } else {
        assert(value < 268435456 && c < 128 ==> (value | (c << 28u32)) as int == (value + c
            * 268435456) % 0x1_0000_0000) by (bit_vector);
    }
}

proof fn lemma_u32_as_i32(value: u32)
    ensures
        value as i32 == signed32(value as nat),
{
    assert(value < 0x8000_0000 ==> (value as i32) as int == value as int) by (bit_vector);
    assert(value >= 0x8000_0000 ==> (value as i32) as int == value as int - 0x1_0000_0000)
        by (bit_vector);
}

/// Read a VarInt from a byte slice. Returns the decoded value
/// and the number of bytes consumed.
pub fn decode_varint(data: &[u8]) -> (res: Result<(i32, usize), PingError>)
    ensures
        res == lift_protocol(spec_decode_varint(data@)),
{
    let mut value: u32 = 0;
    let mut position: u32 = 0;
    let mut i: usize = 0;
    while i < data.len()
        invariant
            i <= 4,
            i <= data.len(),
            position == 7 * i,
            varint_extent_from(data@, 0) == varint_extent_from(data@, i as nat),
            value as nat == digits_value(data@.take(i as int)),
            value < pow128(i as nat),
        decreases data.len() - i,
    {
        let byte = data[i];
        let digit = (byte & 0x7F) as u32;
        assert(byte & 0x7F == byte % 128) by (bit_vector);
        assert(byte & 0x80 == 0 <==> byte < 128) by (bit_vector);
        proof {
            lemma_accumulate(value, digit, i as nat);
            lemma_digits_take_step(data@, i as int);
            lemma_digits_bound(data@.take(i + 1));
        }
        value = value | (digit << position);
        if byte & 0x80 == 0 {
            proof {
                lemma_u32_as_i32(value);
            }
            return Ok((value as i32, i + 1));
        }
        position = position + 7;
        if position >= 32 {
            return Err(PingError::Protocol(ProtocolError::VarIntTooLarge));
        }
        proof {
            reveal_with_fuel(pow128, 5);
        }
        i = i + 1;
    }
    Err(PingError::Protocol(ProtocolError::VarIntTruncated))
}

} // verus!

verus! {

proof fn lemma_extent_bounds(data: Seq<u8>, i: nat)
    requires
        i <= 4,
    ensures
        varint_extent_from(data, i) matches Ok(n) ==> i < n <= 5 && n <= data.len(),
    decreases 5 - i,
{
    if i < data.len() && data[i as int] >= 128 && i < 4 {
        lemma_extent_bounds(data, i + 1);
    }
}

/// A VarInt that decodes is between one and five bytes long and lies within
/// the input.
pub proof fn lemma_decode_varint_bounds(data: Seq<u8>)
    ensures
        spec_decode_varint(data) matches Ok((_, n)) ==> 1 <= n <= 5 && n <= data.len(),
{
    lemma_extent_bounds(data, 0);
}

proof fn lemma_extent_of_terminated(data: Seq<u8>, n: nat, i: nat)
    requires
        1 <= n <= 5,
        n <= data.len(),
        forall|j: int| 0 <= j < n - 1 ==> data[j] >= 128,
        data[n - 1] < 128,
        i <= n - 1,
    ensures
        varint_extent_from(data, i) == Ok::<usize, ProtocolError>(n as usize),
    decreases n - i,
{
    if i < n - 1 {
        lemma_extent_of_terminated(data, n, i + 1);
    }
}

proof fn lemma_varint_bytes_shape(v: nat, k: nat)
    requires
        1 <= k,
        v < pow128(k),
    ensures
        1 <= varint_bytes(v).len() <= k,
        forall|j: int| 0 <= j < varint_bytes(v).len() - 1 ==> varint_bytes(v)[j] >= 128,
        varint_bytes(v).last() < 128,
        digits_value(varint_bytes(v)) == v,
    decreases v,
{
    let s = varint_bytes(v);
    if v < 128 {
        assert(s.drop_first() =~= Seq::<u8>::empty());
        assert(digits_value(s.drop_first()) == 0);
    } else {
        if k == 1 {
            assert(pow128(1) == 128) by {
                reveal_with_fuel(pow128, 2);
            }
        }
        let r = varint_bytes(v / 128);
        assert(pow128(k) == 128 * pow128((k - 1) as nat));
        lemma_varint_bytes_shape(v / 128, (k - 1) as nat);
        assert(s.drop_first() =~= r);
        assert forall|j: int| 0 <= j < s.len() - 1 implies s[j] >= 128 by {
            if j > 0 {
                assert(s[j] == r[j - 1]);
            }
        }
    }
}

proof fn lemma_signed_unsigned(value: i32)
    ensures
        signed32(unsigned32(value)) == value,
{
}

pub(crate) proof fn lemma_varint_bytes_decode(u: nat, rest: Seq<u8>)
    requires
        u < 0x1_0000_0000,
    ensures
        1 <= varint_bytes(u).len() <= 5,
        spec_decode_varint(varint_bytes(u) + rest) == Ok::<(i32, usize), ProtocolError>(
            (signed32(u), varint_bytes(u).len() as usize),
        ),
{
    reveal_with_fuel(pow128, 6);
    lemma_varint_bytes_shape(u, 5);
    let s = varint_bytes(u);
    let data = s + rest;
    let n = s.len();
    assert forall|j: int| 0 <= j < n - 1 implies data[j] >= 128 by {
        assert(data[j] == s[j]);
    }
    assert(data[n - 1] == s[n - 1]);
    lemma_extent_of_terminated(data, n, 0);
    assert(data.take(n as int) =~= s);
}

/// Decoding the VarInt encoding of any `i32`, whatever bytes follow it, gives
/// back the value and consumes exactly the encoding, which is one to five
/// bytes long.
pub proof fn lemma_varint_roundtrip(value: i32, rest: Seq<u8>)
    ensures
        1 <= varint_encoding(value).len() <= 5,
        spec_decode_varint(varint_encoding(value) + rest) == Ok::<(i32, usize), ProtocolError>(
            (value, varint_encoding(value).len() as usize),
        ),
{
    lemma_varint_bytes_decode(unsigned32(value), rest);
    lemma_signed_unsigned(value);
}

} // verus!

verus! {

/// A Minecraft string on the wire: the UTF-8 byte count as a VarInt (of the
/// count's low 32 bits), then the UTF-8 bytes.
pub open spec fn string_encoding(text: Seq<char>) -> Seq<u8> {
    varint_bytes(encode_utf8(text).len() % 0x1_0000_0000) + encode_utf8(text)
}

pub(crate) proof fn lemma_usize_as_i32(x: usize)
    ensures
        unsigned32(x as i32) == x as nat % 0x1_0000_0000,
{
    lemma_i32_as_u32(x as i32);
    assert(((x as i32) as u32) as int == (x as int) % 0x1_0000_0000) by (bit_vector);
}

/// Encode a Minecraft string (length-prefixed UTF-8).
pub fn encode_string(s: &str, buf: &mut Vec<u8>)
    ensures
        final(buf)@ == old(buf)@ + string_encoding(s@),
{
    let bytes = s.as_bytes();
    proof {
        lemma_usize_as_i32(bytes.len());
    }
    encode_varint(bytes.len() as i32, buf);
    let ghost prefixed = buf@;
    let mut i: usize = 0;
    while i < bytes.len()
        invariant
            i <= bytes@.len(),
            bytes@ == encode_utf8(s@),
            buf@ == prefixed + bytes@.take(i as int),
            prefixed == old(buf)@ + varint_bytes(encode_utf8(s@).len() % 0x1_0000_0000),
        decreases bytes.len() - i,
    {
        buf.push(bytes[i]);
        assert(bytes@.take(i + 1) =~= bytes@.take(i as int).push(bytes@[i as int]));
        i = i + 1;
    }
    assert(bytes@.take(i as int) =~= bytes@);
}

/// `String::from_utf8`. It succeeds exactly when the bytes are well-formed
/// UTF-8, and the string then holds the characters that they encode. On
/// failure it reports the error's `valid_up_to()` and `error_len()`, of which
/// `utf8_fault` states what std's documentation says.
#[verifier::external_body]
fn string_from_utf8(bytes: Vec<u8>) -> (res: Result<String, (usize, Option<usize>)>)
    ensures
        match res {
            Ok(text) => valid_utf8(bytes@) && text@ == decode_utf8(bytes@),
            Err((valid_up_to, error_len)) => !valid_utf8(bytes@) && utf8_fault(
                bytes@,
                valid_up_to,
                error_len,
            ),
        },
{
    String::from_utf8(bytes).map_err(|e| (e.utf8_error().valid_up_to(), e.utf8_error().error_len()))
}

/// What std's documentation says of a UTF-8 error on `bytes`: `valid_up_to`
/// is the largest index up to which the bytes are valid UTF-8; `error_len`
/// is `None` when the input ended within a character, 1 to 3 bytes after
/// `valid_up_to`, and otherwise the length of the invalid sequence that
/// starts there.
pub open spec fn utf8_fault(bytes: Seq<u8>, valid_up_to: usize, error_len: Option<usize>) -> bool {
    &&& valid_up_to <= bytes.len()
    &&& valid_utf8(bytes.take(valid_up_to as int))
    &&& forall|j: int| valid_up_to < j <= bytes.len() ==> !valid_utf8(#[trigger] bytes.take(j))
    &&& match error_len {
        Some(n) => 1 <= n && valid_up_to + n <= bytes.len(),
        None => 1 <= bytes.len() - valid_up_to <= 3,
    }
}

/// How reading a string, or a packet that ends in one, turns out.
pub enum StringRead {
    /// The characters read and the number of bytes consumed.
    Read(Seq<char>, usize),
    /// Refused with this error.
    Refused(ProtocolError),
    /// Refused because the string's bytes, given here, are not UTF-8.
    NotUtf8(Seq<u8>),
}

/// The Minecraft string at the start of `data`: its characters and the number
/// of bytes that it takes, prefix included, or why it cannot be read.
pub open spec fn spec_decode_string(data: Seq<u8>) -> StringRead {
    match spec_decode_varint(data) {
        Err(e) => StringRead::Refused(e),
        Ok((len, offset)) => {
            let end = offset + len;
            if len < 0 {
                StringRead::Refused(
                    ProtocolError::NegativeStringLength {
                        declared: len,
                        available: (data.len() - offset) as usize,
                    },
                )
            } else if end > data.len() {
                StringRead::Refused(
                    ProtocolError::StringTooLong {
                        len: len as usize,
                        available: (data.len() - offset) as usize,
                    },
                )
            } else if valid_utf8(data.subrange(offset as int, end)) {
                StringRead::Read(decode_utf8(data.subrange(offset as int, end)), end as usize)
            } else {
                StringRead::NotUtf8(data.subrange(offset as int, end))
            }
        },
    }
}

/// What a reader of Minecraft strings hands its caller for each outcome.
pub open spec fn string_outcome(expected: StringRead, res: Result<(String, usize), PingError>) -> bool {
    match expected {
        StringRead::Read(text, n) => res matches Ok((s, m)) && s@ == text && m == n,
        StringRead::Refused(e) => res == Err::<(String, usize), PingError>(PingError::Protocol(e)),
        StringRead::NotUtf8(bytes) => res matches Err(
            PingError::Protocol(ProtocolError::InvalidUtf8 { valid_up_to, error_len }),
        ) && utf8_fault(bytes, valid_up_to, error_len),
    }
}

/// Read a Minecraft string from a byte slice. Returns (string, bytes_consumed).
pub fn decode_string(data: &[u8]) -> (res: Result<(String, usize), PingError>)
    ensures
        string_outcome(spec_decode_string(data@), res),
{
    let (len, offset) = match decode_varint(data) {
        Ok(pair) => pair,
        Err(e) => return Err(e),
    };
    proof {
        lemma_decode_varint_bounds(data@);
    }
    if len < 0 {
        return Err(
            PingError::Protocol(
                ProtocolError::NegativeStringLength { declared: len, available: data.len() - offset },
            ),
        );
    }
    let len = len as usize;
    let end = offset + len;
    if end > data.len() {
        return Err(
            PingError::Protocol(
                ProtocolError::StringTooLong { len: len, available: data.len() - offset },
            ),
        );
    }
    let mut bytes: Vec<u8> = Vec::new();
    let mut i: usize = offset;
    while i < end
        invariant
            offset <= i <= end <= data@.len(),
            bytes@ == data@.subrange(offset as int, i as int),
        decreases end - i,
    {
        bytes.push(data[i]);
        assert(data@.subrange(offset as int, i + 1) =~= data@.subrange(offset as int, i as int).push(
            data@[i as int],
        ));
        i = i + 1;
    }
    match string_from_utf8(bytes) {
        Ok(text) => Ok((text, end)),
        Err((valid_up_to, error_len)) => Err(
            PingError::Protocol(ProtocolError::InvalidUtf8 { valid_up_to, error_len }),
        ),
    }
}

/// Reading back a written string gives the same characters and consumes
/// exactly what was written, whatever follows, for every string whose UTF-8
/// form is at most `i32::MAX` bytes long.
pub proof fn lemma_string_roundtrip(text: Seq<char>, rest: Seq<u8>)
    requires
        encode_utf8(text).len() <= 0x7fff_ffff,
    ensures
        spec_decode_string(string_encoding(text) + rest) == StringRead::Read(
            text,
            string_encoding(text).len() as usize,
        ),
{
    let bytes = encode_utf8(text);
    let len = bytes.len();
    let prefix = varint_bytes(len % 0x1_0000_0000);
    assert(len % 0x1_0000_0000 == len);
    let data = string_encoding(text) + rest;
    assert(data =~= prefix + (bytes + rest));
    lemma_varint_bytes_decode(len, bytes + rest);
    assert(signed32(len) == len);
    let end = prefix.len() + len;
    assert(data.subrange(prefix.len() as int, end as int) =~= bytes);
    vstd::utf8::encode_utf8_valid_utf8(text);
    vstd::utf8::encode_utf8_decode_utf8(text);
}

proof fn lemma_extent_extend(data: Seq<u8>, rest: Seq<u8>, i: nat)
    requires
        i <= 4,
    ensures
        varint_extent_from(data, i) matches Ok(n) ==> varint_extent_from(data + rest, i) == Ok::<
            usize,
            ProtocolError,
        >(n),
    decreases 5 - i,
{
    if i < data.len() {
        assert((data + rest)[i as int] == data[i as int]);
        if data[i as int] >= 128 && i < 4 {
            lemma_extent_extend(data, rest, i + 1);
        }
    }
}

/// A VarInt that decodes is read the same whatever bytes are appended.
pub proof fn lemma_decode_varint_extend(data: Seq<u8>, rest: Seq<u8>)
    ensures
        spec_decode_varint(data) matches Ok(r) ==> spec_decode_varint(data + rest) == Ok::<
            (i32, usize),
            ProtocolError,
        >(r),
{
    lemma_extent_extend(data, rest, 0);
    lemma_extent_bounds(data, 0);
    if let Ok(n) = varint_extent_from(data, 0) {
        assert((data + rest).take(n as int) =~= data.take(n as int));
    }
}

/// A string that is read is read the same whatever bytes are appended.
pub proof fn lemma_decode_string_extend(data: Seq<u8>, rest: Seq<u8>)
    ensures
        spec_decode_string(data) matches StringRead::Read(text, n) ==> spec_decode_string(
            data + rest,
        ) == StringRead::Read(text, n),
{
    lemma_decode_varint_extend(data, rest);
    lemma_decode_varint_bounds(data);
    if let Ok((len, offset)) = spec_decode_varint(data) {
        if len >= 0 && offset + len <= data.len() {
            assert((data + rest).subrange(offset as int, offset + len) =~= data.subrange(
                offset as int,
                offset + len,
            ));
        }
    }
}

} // verus!
