//! Zero-dependency Varint and Protobuf encoder/decoder for localharness configurations.
//!
//! Exposes the encoder for `InputConfig` and the decoder for `OutputConfig`.

use vstd::prelude::*;
use vstd::arithmetic::power2::{pow2, lemma_pow2_adds, lemma_pow2_pos, lemma2_to64, lemma2_to64_rest};
use vstd::bits::lemma_u64_shl_is_mul;
use vstd::utf8::{valid_utf8, decode_utf8};
use vstd::string::StringSliceAdditionalSpecFns;
use crate::text::{decimal, u64_to_decimal};

verus! {

/// Configuration that `localharness` reports on its standard output.
#[derive(Debug, Clone)]
pub struct OutputConfig {
    pub port: i32,
    pub api_key: String,
}

/// Mathematical model of an [`OutputConfig`].
pub struct OutputConfigView {
    pub port: i32,
    pub api_key: Seq<char>,
}

impl View for OutputConfig {
    type V = OutputConfigView;

    open spec fn view(&self) -> OutputConfigView {
        OutputConfigView { port: self.port, api_key: self.api_key@ }
    }
}

impl Default for OutputConfig {
    fn default() -> (r: Self)
        ensures
            r.port == 0,
            r.api_key@ == Seq::<char>::empty(),
    {
        OutputConfig { port: 0, api_key: String::new() }
    }
}

// =============================================================================
// Varint model
// =============================================================================

/// The base-128 varint encoding of `v`: seven payload bits per byte, least
/// significant group first, the high bit set on every byte but the last.
pub open spec fn varint_encoding(v: nat) -> Seq<u8>
    decreases v,
{
    if v < 128 {
        seq![v as u8]
    } else {
        seq![(v % 128 + 128) as u8] + varint_encoding(v / 128)
    }
}

/// The payload of the first `k` bytes of `data`, read as base-128 groups,
/// least significant group first.
pub open spec fn group_sum(data: Seq<u8>, k: nat) -> nat
    decreases k,
{
    if k == 0 {
        0
    } else {
        group_sum(data, (k - 1) as nat) + (data[k - 1] % 128) as nat * pow2((7 * (k - 1)) as nat)
    }
}

/// What reading a varint from the front of a byte sequence gives.
pub enum VarintRead {
    /// The value, taken modulo 2^64, and the number of bytes it occupies.
    Value { value: u64, len: nat },
    /// The bytes end before a byte without the continuation bit.
    Eof,
    /// Ten bytes all carry the continuation bit.
    Overflow,
}

/// Reading a varint whose first `i` bytes all carry the continuation bit.
pub open spec fn read_varint_from(data: Seq<u8>, i: nat) -> VarintRead
    decreases 10 - i,
{
    if i >= data.len() {
        VarintRead::Eof
    } else if data[i as int] < 128 {
        VarintRead::Value { value: (group_sum(data, i + 1) % pow2(64)) as u64, len: i + 1 }
    } else if i + 1 >= 10 {
        VarintRead::Overflow
    } else {
        read_varint_from(data, i + 1)
    }
}

/// Reading one varint from the front of `data`.
pub open spec fn read_varint(data: Seq<u8>) -> VarintRead {
    read_varint_from(data, 0)
}

// =============================================================================
// Decoder model
// =============================================================================

/// The ways decoding an `OutputConfig` can fail.
pub enum ProtoError {
    VarintEof,
    VarintOverflow,
    PortWireType(u64),
    ApiKeyWireType(u64),
    ApiKeyEof,
    ApiKeyUtf8(Seq<u8>),
    SkipEof64,
    SkipEofLengthDelimited,
    SkipEof32,
    UnsupportedWireType(u64),
}

/// The text that `String::from_utf8` reports (through `Display`) for bytes
/// that are not valid UTF-8.
pub uninterp spec fn utf8_error_text(bytes: Seq<u8>) -> Seq<char>;

/// Decodes `bytes` as UTF-8 through `String::from_utf8`.
///
/// Trusted: `String::from_utf8` succeeds exactly on valid UTF-8 and then holds
/// the decoded characters; on failure the text is the `Display` of the
/// `FromUtf8Error`, which depends on the bytes alone.
#[verifier::external_body]
fn string_from_utf8(bytes: Vec<u8>) -> (r: Result<String, String>)
    ensures
        r is Ok <==> valid_utf8(bytes@),
        r matches Ok(s) ==> s@ == decode_utf8(bytes@),
        r matches Err(t) ==> t@ == utf8_error_text(bytes@),
{
    match String::from_utf8(bytes) {
        Ok(s) => Ok(s),
        Err(e) => Err(e.to_string()),
    }
}

/// The message the decoder returns for each failure.
pub open spec fn proto_error_message(e: ProtoError) -> Seq<char> {
    match e {
        ProtoError::VarintEof => "Unexpected EOF reading varint"@,
        ProtoError::VarintOverflow => "Varint overflow"@,
        ProtoError::PortWireType(w) => "Expected wire type 0 for port, got "@ + decimal(w as nat),
        ProtoError::ApiKeyWireType(w) => "Expected wire type 2 for api_key, got "@ + decimal(w as nat),
        ProtoError::ApiKeyEof => "Unexpected EOF reading api_key"@,
        ProtoError::ApiKeyUtf8(b) => "Invalid UTF-8 in api_key: "@ + utf8_error_text(b),
        ProtoError::SkipEof64 => "Unexpected EOF skipping 64-bit field"@,
        ProtoError::SkipEofLengthDelimited => "Unexpected EOF skipping length-delimited field"@,
        ProtoError::SkipEof32 => "Unexpected EOF skipping 32-bit field"@,
        ProtoError::UnsupportedWireType(w) => "Unsupported wire type: "@ + decimal(w as nat),
    }
}

/// Bytes taken by a field of wire type `wire` at the front of `data` that
/// the decoder does not know, or why it cannot be skipped.
pub open spec fn skip_field_len(wire: u64, data: Seq<u8>) -> Result<nat, ProtoError> {
    if wire == 0 {
        match read_varint(data) {
            VarintRead::Value { value, len } => Ok(len),
            VarintRead::Eof => Err(ProtoError::VarintEof),
            VarintRead::Overflow => Err(ProtoError::VarintOverflow),
        }
    } else if wire == 1 {
        if data.len() < 8 { Err(ProtoError::SkipEof64) } else { Ok(8) }
    } else if wire == 2 {
        match read_varint(data) {
            VarintRead::Value { value, len } => {
                if data.len() - len < (value as usize) {
                    Err(ProtoError::SkipEofLengthDelimited)
                } else {
                    Ok((len + (value as usize)) as nat)
                }
            },
            VarintRead::Eof => Err(ProtoError::VarintEof),
            VarintRead::Overflow => Err(ProtoError::VarintOverflow),
        }
    } else if wire == 5 {
        if data.len() < 4 { Err(ProtoError::SkipEof32) } else { Ok(4) }
    } else {
        Err(ProtoError::UnsupportedWireType(wire))
    }
}

/// Decoding the remaining fields `data` into a configuration that so far
/// holds `port` and `api_key`; a field that occurs again overrides the
/// earlier value, fields other than 1 and 2 are skipped.
pub open spec fn decode_fields(data: Seq<u8>, port: i32, api_key: Seq<char>) -> Result<OutputConfigView, ProtoError>
    decreases data.len(),
{
    if data.len() == 0 {
        Ok(OutputConfigView { port, api_key })
    } else {
        proof { lemma_read_varint_len(data); }
        match read_varint(data) {
            VarintRead::Eof => Err(ProtoError::VarintEof),
            VarintRead::Overflow => Err(ProtoError::VarintOverflow),
            VarintRead::Value { value: tag, len: n } => {
                let rest = data.skip(n as int);
                let field_num = tag >> 3;
                let wire_type = tag & 7;
                if field_num == 1 {
                    if wire_type != 0 {
                        Err(ProtoError::PortWireType(wire_type))
                    } else {
                        proof { lemma_read_varint_len(rest); }
                        match read_varint(rest) {
                            VarintRead::Eof => Err(ProtoError::VarintEof),
                            VarintRead::Overflow => Err(ProtoError::VarintOverflow),
                            VarintRead::Value { value, len } =>
                                decode_fields(rest.skip(len as int), value as i32, api_key),
                        }
                    }
                } else if field_num == 2 {
                    if wire_type != 2 {
                        Err(ProtoError::ApiKeyWireType(wire_type))
                    } else {
                        proof { lemma_read_varint_len(rest); }
                        match read_varint(rest) {
                            VarintRead::Eof => Err(ProtoError::VarintEof),
                            VarintRead::Overflow => Err(ProtoError::VarintOverflow),
                            VarintRead::Value { value, len } => {
                                let body = rest.skip(len as int);
                                let key_len = value as usize;
                                if body.len() < key_len {
                                    Err(ProtoError::ApiKeyEof)
                                } else if !valid_utf8(body.take(key_len as int)) {
                                    Err(ProtoError::ApiKeyUtf8(body.take(key_len as int)))
                                } else {
                                    decode_fields(body.skip(key_len as int), port,
                                        decode_utf8(body.take(key_len as int)))
                                }
                            },
                        }
                    }
                } else {
                    proof { lemma_skip_field_len(wire_type, rest); }
                    match skip_field_len(wire_type, rest) {
                        Ok(k) => decode_fields(rest.skip(k as int), port, api_key),
                        Err(e) => Err(e),
                    }
                }
            },
        }
    }
}

/// What `decode_output_config` yields for `data`.
pub open spec fn decode_output_spec(data: Seq<u8>) -> Result<OutputConfigView, ProtoError> {
    decode_fields(data, 0, Seq::empty())
}

/// The `InputConfig` bytes for a storage directory given as UTF-8 bytes:
/// nothing for an empty directory, else tag `0x0A` (field 1, wire type 2),
/// the length as a varint, then the bytes.
pub open spec fn input_config_bytes(dir: Seq<u8>) -> Seq<u8> {
    if dir.len() == 0 {
        Seq::empty()
    } else {
        seq![0x0Au8] + varint_encoding(dir.len()) + dir
    }
}

// =============================================================================
// Lemmas
// =============================================================================

pub proof fn lemma_read_varint_from_len(data: Seq<u8>, i: nat)
    requires
        i <= 10,
    ensures
        read_varint_from(data, i) matches VarintRead::Value { value, len } ==> i < len <= data.len(),
    decreases 10 - i,
{
    if i < data.len() && data[i as int] >= 128 && i + 1 < 10 {
        lemma_read_varint_from_len(data, i + 1);
    }
}

/// A varint that is read occupies at least one and at most `data.len()` bytes.
pub proof fn lemma_read_varint_len(data: Seq<u8>)
    ensures
        read_varint(data) matches VarintRead::Value { value, len } ==> 1 <= len <= data.len(),
{
    lemma_read_varint_from_len(data, 0);
}

pub proof fn lemma_skip_field_len(wire: u64, data: Seq<u8>)
    ensures
        skip_field_len(wire, data) matches Ok(k) ==> 1 <= k <= data.len(),
{
    lemma_read_varint_len(data);
}

proof fn lemma_group_sum_bound(data: Seq<u8>, k: nat)
    ensures
        group_sum(data, k) < pow2(7 * k),
    decreases k,
{
    if k == 0 {
        lemma2_to64();
    } else {
        let j = (k - 1) as nat;
        lemma_group_sum_bound(data, j);
        lemma_pow2_adds(7 * j, 7);
        lemma2_to64();
        let g = (data[j as int] % 128) as nat;
        assert(g * pow2(7 * j) <= 127 * pow2(7 * j)) by (nonlinear_arith)
            requires g <= 127;
        assert(pow2(7 * k) == pow2(7 * j) * 128) by {
            assert(7 * k == 7 * j + 7);
        }
    }
}

proof fn lemma_group_sum_prefix(a: Seq<u8>, b: Seq<u8>, k: nat)
    requires
        k <= a.len(),
        k <= b.len(),
        a.take(k as int) == b.take(k as int),
    ensures
        group_sum(a, k) == group_sum(b, k),
    decreases k,
{
    if k > 0 {
        assert(a.take((k - 1) as int) == a.take(k as int).take((k - 1) as int));
        assert(b.take((k - 1) as int) == b.take(k as int).take((k - 1) as int));
        assert(a[k - 1] == a.take(k as int)[k - 1]);
        assert(b[k - 1] == b.take(k as int)[k - 1]);
        lemma_group_sum_prefix(a, b, (k - 1) as nat);
    }
}

/// Combining the accumulator with one more group, as the decoder does with
/// `acc | ((b & 0x7F) << shift)`, adds the group's weight modulo 2^64.
proof fn lemma_or_group(acc: u64, b: u8, i: nat)
    requires
        i <= 9,
        acc < pow2(7 * i),
    ensures
        (acc | (((b & 0x7F) as u64) << ((7 * i) as u64))) as nat
            == (acc + (b % 128) as nat * pow2(7 * i)) as nat % pow2(64),
{
    let s: u64 = (7 * i) as u64;
    let x: u64 = (b & 0x7F) as u64;
    assert(x == (b % 128) as u64) by (bit_vector)
        requires x == (b & 0x7F) as u64;
    lemma2_to64();
    lemma2_to64_rest();
    lemma_pow2_pos(7 * i);
    vstd::bits::lemma_u64_pow2_no_overflow(s as nat);
    lemma_u64_shl_is_mul(1, s);
    assert((1u64 << s) == pow2(s as nat));
    assert(acc < (1u64 << s));
    assert((acc | (x << s)) == acc + (x << s)) by (bit_vector)
        requires
            s < 64,
            x < 128,
            acc < (1u64 << s),
    ;
    if i <= 8 {
        lemma_pow2_adds(s as nat, 7);
        assert(pow2(s as nat + 7) <= pow2(63)) by {
            if s + 7 < 63 {
                vstd::arithmetic::power2::lemma_pow2_strictly_increases((s + 7) as nat, 63);
            }
        }
        assert(x * pow2(s as nat) <= u64::MAX) by (nonlinear_arith)
            requires x < 128, pow2(s as nat) * 128 <= pow2(63), pow2(63) < u64::MAX;
        lemma_u64_shl_is_mul(x, s);
        assert(acc + x * pow2(s as nat) < pow2(64)) by (nonlinear_arith)
            requires x < 128, acc < pow2(s as nat), pow2(s as nat) * 128 <= pow2(63),
                pow2(64) == 2 * pow2(63);
        vstd::arithmetic::div_mod::lemma_small_mod((acc + x * pow2(s as nat)) as nat, pow2(64));
    } else {
        assert(s == 63);
        let y: u64 = x & 1;
        assert((x << s) == (y << s)) by (bit_vector)
            requires s == 63, y == x & 1;
        assert(y == x % 2) by (bit_vector)
            requires y == x & 1;
        lemma_u64_shl_is_mul(y, s);
        let q: int = x as int / 2;
        assert(x as int == 2 * q + y) by (nonlinear_arith)
            requires q == x as int / 2, y == x % 2;
        assert(pow2(64) == 2 * pow2(63));
        assert(acc + x * pow2(63) == acc + y * pow2(63) + q * pow2(64)) by (nonlinear_arith)
            requires x as int == 2 * q + y, pow2(64) == 2 * pow2(63);
        assert(acc + y * pow2(63) < pow2(64)) by (nonlinear_arith)
            requires y <= 1, acc < pow2(63), pow2(64) == 2 * pow2(63);
        vstd::arithmetic::div_mod::lemma_mod_multiples_vanish(q, (acc + y * pow2(63)) as int, pow2(64) as int);
        vstd::arithmetic::div_mod::lemma_small_mod((acc + y * pow2(63)) as nat, pow2(64));
    }
}

proof fn lemma_read_varint_from_encoding(s: Seq<u8>, i: nat, w: nat, rest: Seq<u8>)
    requires
        i <= 9,
        s.len() >= i,
        forall|j: int| 0 <= j < i ==> s[j] >= 128,
        s.skip(i as int) == varint_encoding(w) + rest,
        w * pow2(7 * i) < pow2(64),
    ensures
        read_varint_from(s, i) == (VarintRead::Value {
            value: ((group_sum(s, i) + w * pow2(7 * i)) % pow2(64)) as u64,
            len: i + varint_encoding(w).len(),
        }),
    decreases w,
{
    lemma2_to64();
    lemma2_to64_rest();
    assert(varint_encoding(w).len() >= 1);
    assert(s.skip(i as int).len() == s.len() - i);
    assert(s[i as int] == s.skip(i as int)[0]);
    if w < 128 {
        assert(s[i as int] == w as u8);
        assert(group_sum(s, i + 1) == group_sum(s, i) + (s[i as int] % 128) as nat * pow2(7 * i));
    } else {
        let b = (w % 128 + 128) as u8;
        assert(s[i as int] == b);
        assert(b >= 128);
        lemma_pow2_adds(7 * i, 7);
        assert(pow2(7 * i + 7) == pow2(7 * i) * 128);
        assert(128 * pow2(7 * i) <= w * pow2(7 * i)) by (nonlinear_arith)
            requires w >= 128;
        assert(7 * i + 7 < 64) by {
            if 7 * i + 7 >= 64 {
                if 7 * i + 7 > 64 {
                    vstd::arithmetic::power2::lemma_pow2_strictly_increases(64, 7 * i + 7);
                }
            }
        }
        let w2 = w / 128;
        assert(w == 128 * w2 + w % 128);
        assert(w2 * pow2(7 * (i + 1)) <= w * pow2(7 * i)) by (nonlinear_arith)
            requires w == 128 * w2 + w % 128, pow2(7 * (i + 1)) == pow2(7 * i) * 128, w % 128 >= 0;
        assert(s.skip(i + 1 as int) =~= varint_encoding(w2) + rest) by {
            assert(varint_encoding(w) == seq![b] + varint_encoding(w2));
            assert(s.skip(i + 1 as int) =~= s.skip(i as int).skip(1));
        }
        assert forall|j: int| 0 <= j < i + 1 implies s[j] >= 128 by {
            if j == i {
            }
        }
        lemma_read_varint_from_encoding(s, i + 1, w2, rest);
        assert(group_sum(s, i + 1) == group_sum(s, i) + (w % 128) * pow2(7 * i)) by {
            assert((b % 128) as nat == w % 128);
        }
        assert(group_sum(s, i + 1) + w2 * pow2(7 * (i + 1)) == group_sum(s, i) + w * pow2(7 * i))
            by (nonlinear_arith)
            requires
                group_sum(s, i + 1) == group_sum(s, i) + (w % 128) * pow2(7 * i),
                pow2(7 * (i + 1)) == pow2(7 * i) * 128,
                w == 128 * w2 + w % 128;
        assert(varint_encoding(w).len() == 1 + varint_encoding(w2).len());
    }
}

/// Law: a varint reads back as the value it encodes, whatever follows it.
pub proof fn lemma_varint_roundtrip(v: u64, rest: Seq<u8>)
    ensures
        read_varint(varint_encoding(v as nat) + rest) == (VarintRead::Value {
            value: v,
            len: varint_encoding(v as nat).len(),
        }),
{
    let s = varint_encoding(v as nat) + rest;
    lemma2_to64();
    lemma2_to64_rest();
    assert(s.skip(0) =~= s);
    assert(7 * 0nat == 0nat);
    assert(pow2(0) == 1);
    assert(v as nat * pow2(7 * 0nat) == v as nat);
    lemma_read_varint_from_encoding(s, 0, v as nat, rest);
    vstd::arithmetic::div_mod::lemma_small_mod(v as nat, pow2(64));
}

/// A message that sets the port (field 1, varint) and then the api key
/// (field 2, length-delimited), as `localharness` writes it.
pub open spec fn output_config_bytes(port: u64, key: Seq<u8>) -> Seq<u8> {
    seq![0x08u8] + varint_encoding(port as nat) + seq![0x12u8] + varint_encoding(key.len()) + key
}

proof fn lemma_single_byte_varint(b: u8, rest: Seq<u8>)
    requires
        b < 128,
    ensures
        read_varint(seq![b] + rest) == (VarintRead::Value { value: b as u64, len: 1 }),
{
    lemma2_to64();
    lemma2_to64_rest();
    let s = seq![b] + rest;
    assert(s[0] == b);
    assert(group_sum(s, 0) == 0);
    assert(group_sum(s, 1) == (b % 128) as nat * pow2(0));
    vstd::arithmetic::div_mod::lemma_small_mod(b as nat, pow2(64));
}

/// Law: a message holding a port and a valid UTF-8 api key decodes to that
/// port (truncated to `i32`, as the decoder stores it) and that key.
pub proof fn lemma_decode_port_and_key(port: u64, key: Seq<u8>)
    requires
        valid_utf8(key),
        key.len() <= usize::MAX,
    ensures
        decode_output_spec(output_config_bytes(port, key)) == Ok::<OutputConfigView, ProtoError>(
            OutputConfigView { port: port as i32, api_key: decode_utf8(key) }),
{
    let ep = varint_encoding(port as nat);
    let ek = varint_encoding(key.len());
    let d0 = output_config_bytes(port, key);
    let r1 = ep + seq![0x12u8] + ek + key;
    assert(d0 =~= seq![0x08u8] + r1);
    lemma_single_byte_varint(0x08u8, r1);
    assert((8u64 >> 3) == 1u64 && (8u64 & 7) == 0u64) by (bit_vector);
    assert(d0.skip(1) =~= r1);
    let r2 = seq![0x12u8] + ek + key;
    assert(r1 =~= ep + r2);
    lemma_varint_roundtrip(port, r2);
    assert(r1.skip(ep.len() as int) =~= r2);
    let r3 = ek + key;
    assert(r2 =~= seq![0x12u8] + r3);
    lemma_single_byte_varint(0x12u8, r3);
    assert((18u64 >> 3) == 2u64 && (18u64 & 7) == 2u64) by (bit_vector);
    assert(r2.skip(1) =~= r3);
    lemma_varint_roundtrip(key.len() as u64, key);
    assert(r3.skip(ek.len() as int) =~= key);
    assert(key.take(key.len() as int) =~= key);
    assert(key.skip(key.len() as int) =~= Seq::<u8>::empty());
    assert(decode_fields(r2, port as i32, Seq::empty())
        == decode_fields(Seq::empty(), port as i32, decode_utf8(key)));
}

// =============================================================================
// Encoder
// =============================================================================

/// Encodes `InputConfig` containing only `storage_directory` to Protobuf binary bytes.
pub fn encode_input_config(storage_directory: &str) -> (buf: Vec<u8>)
    ensures
        buf@ == input_config_bytes(storage_directory.spec_bytes()),
{
    let mut buf: Vec<u8> = Vec::new();
    let bytes = storage_directory.as_bytes();
    if bytes.len() != 0 {
        // Field 1, wire type 2 (length-delimited string): tag = (1 << 3) | 2 = 10 (0x0A)
        buf.push(0x0A);
        encode_varint(bytes.len() as u64, &mut buf);
        let mut i: usize = 0;
        let ghost start = buf@;
        while i < bytes.len()
            invariant
                i <= bytes@.len(),
                buf@ == start + bytes@.take(i as int),
            decreases bytes@.len() - i,
        {
            buf.push(bytes[i]);
            assert(bytes@.take(i + 1) == bytes@.take(i as int).push(bytes@[i as int]));
            i = i + 1;
        }
        assert(bytes@.take(bytes@.len() as int) == bytes@);
    }
    buf
}

/// Appends the varint encoding of `value` to `buf`.
fn encode_varint(value: u64, buf: &mut Vec<u8>)
    ensures
        final(buf)@ == old(buf)@ + varint_encoding(value as nat),
{
    let mut value: u64 = value;
    let ghost orig = value;
    while value >= 0x80
        invariant
            old(buf)@ + varint_encoding(orig as nat) == buf@ + varint_encoding(value as nat),
        decreases value,
    {
        let byte: u8 = ((value & 0x7F) | 0x80) as u8;
        assert(byte == (value % 128 + 128) as u8) by (bit_vector)
            requires byte == ((value & 0x7F) | 0x80) as u8;
        let ghost before = value;
        buf.push(byte);
        value = value >> 7;
        assert(value == before / 128) by (bit_vector)
            requires value == before >> 7;
        assert(varint_encoding(before as nat) == seq![byte] + varint_encoding(value as nat));
        assert(buf@ + varint_encoding(value as nat)
            == old(buf)@ + varint_encoding(orig as nat));
    }
    buf.push(value as u8);
}

// =============================================================================
// Decoder
// =============================================================================

fn prefixed_decimal(prefix: &str, w: u64) -> (s: String)
    ensures
        s@ == prefix@ + decimal(w as nat),
{
    let mut s = prefix.to_owned();
    let d = u64_to_decimal(w);
    s.append(d.as_str());
    s
}

/// Reads a varint starting at `pos`; returns its value and the position after it.
fn decode_varint(data: &[u8], pos: usize) -> (r: Result<(u64, usize), String>)
    requires
        pos <= data@.len(),
    ensures
        match read_varint(data@.skip(pos as int)) {
            VarintRead::Value { value, len } => r == Ok::<(u64, usize), String>((value, (pos + len) as usize)),
            VarintRead::Eof => r matches Err(m) && m@ == proto_error_message(ProtoError::VarintEof),
            VarintRead::Overflow => r matches Err(m) && m@ == proto_error_message(ProtoError::VarintOverflow),
        },
{
    let ghost sub = data@.skip(pos as int);
    let mut value: u64 = 0;
    let mut i: usize = 0;
    proof { lemma2_to64(); lemma2_to64_rest(); }
    loop
        invariant
            i <= 9,
            pos + i <= data.len(),
            sub == data@.skip(pos as int),
            value as nat == group_sum(sub, i as nat),
            read_varint(sub) == read_varint_from(sub, i as nat),
        decreases 10 - i,
    {
        if pos + i >= data.len() {
            let m = "Unexpected EOF reading varint".to_owned();
            return Err(m);
        }
        let byte: u8 = data[pos + i];
        assert(byte == sub[i as int]);
        proof { lemma_group_sum_bound(sub, i as nat); }
        let shift: u64 = 7 * (i as u64);
        let ghost old_value = value;
        value = value | (((byte & 0x7F) as u64) << shift);
        proof {
            lemma_or_group(old_value, byte, i as nat);
            assert(group_sum(sub, (i + 1) as nat) == old_value + (byte % 128) as nat * pow2((7 * i) as nat));
        }
        if (byte & 0x80) == 0 {
            assert(byte < 128) by (bit_vector) requires (byte & 0x80) == 0;
            return Ok((value, pos + i + 1));
        }
        assert(byte >= 128) by (bit_vector) requires (byte & 0x80) != 0;
        if i + 1 >= 10 {
            let m = "Varint overflow".to_owned();
            return Err(m);
        }
        proof {
            lemma2_to64();
            lemma2_to64_rest();
            lemma_group_sum_bound(sub, (i + 1) as nat);
            assert(pow2(7 * (i as nat + 1)) <= pow2(63)) by {
                if 7 * (i + 1) < 63 {
                    vstd::arithmetic::power2::lemma_pow2_strictly_increases((7 * (i + 1)) as nat, 63);
                }
            }
            vstd::arithmetic::div_mod::lemma_small_mod(group_sum(sub, (i + 1) as nat), pow2(64));
        }
        i = i + 1;
    }
}

/// Skips a field of wire type `wire_type` at `pos`; returns the position after it.
fn skip_field(wire_type: u64, data: &[u8], pos: usize) -> (r: Result<usize, String>)
    requires
        pos <= data@.len(),
    ensures
        match skip_field_len(wire_type, data@.skip(pos as int)) {
            Ok(k) => r == Ok::<usize, String>((pos + k) as usize),
            Err(e) => r matches Err(m) && m@ == proto_error_message(e),
        },
{
    proof { lemma_read_varint_len(data@.skip(pos as int)); }
    if wire_type == 0 {
        match decode_varint(data, pos) {
            Ok((_v, next)) => Ok(next),
            Err(m) => Err(m),
        }
    } else if wire_type == 1 {
        if data.len() - pos < 8 {
            return Err("Unexpected EOF skipping 64-bit field".to_owned());
        }
        Ok(pos + 8)
    } else if wire_type == 2 {
        let (v, next) = match decode_varint(data, pos) {
            Ok(p) => p,
            Err(m) => { return Err(m); },
        };
        let len = v as usize;
        if data.len() - next < len {
            return Err("Unexpected EOF skipping length-delimited field".to_owned());
        }
        Ok(next + len)
    } else if wire_type == 5 {
        if data.len() - pos < 4 {
            return Err("Unexpected EOF skipping 32-bit field".to_owned());
        }
        Ok(pos + 4)
    } else {
        Err(prefixed_decimal("Unsupported wire type: ", wire_type))
    }
}


/// Copies `data[start..start + len]` into a fresh vector.
fn copy_range(data: &[u8], start: usize, len: usize) -> (v: Vec<u8>)
    requires
        start + len <= data@.len(),
    ensures
        v@ == data@.subrange(start as int, start + len),
{
    let mut v: Vec<u8> = Vec::new();
    let mut i: usize = 0;
    while i < len
        invariant
            i <= len,
            start + len <= data.len(),
            v@ == data@.subrange(start as int, start + i),
        decreases len - i,
    {
        v.push(data[start + i]);
        assert(data@.subrange(start as int, start + i + 1)
            == data@.subrange(start as int, start + i).push(data@[start + i]));
        i = i + 1;
    }
    v
}

/// Decodes binary bytes into `OutputConfig`.
#[verifier::rlimit(40)]
pub fn decode_output_config(data: &[u8]) -> (r: Result<OutputConfig, String>)
    ensures
        match decode_output_spec(data@) {
            Ok(c) => r matches Ok(o) && o@ == c,
            Err(e) => r matches Err(m) && m@ == proto_error_message(e),
        },
{
    let mut config = OutputConfig::default();
    let mut pos: usize = 0;
    assert(data@.skip(0) =~= data@);
    while pos < data.len()
        invariant
            pos <= data@.len(),
            decode_output_spec(data@) == decode_fields(data@.skip(pos as int), config.port, config.api_key@),
        decreases data@.len() - pos,
    {
        let ghost cur = data@.skip(pos as int);
        proof { lemma_read_varint_len(cur); }
        let (tag, p1) = match decode_varint(data, pos) {
            Ok(x) => x,
            Err(m) => { return Err(m); },
        };
        assert(cur.skip(p1 - pos) =~= data@.skip(p1 as int));
        let field_num: u64 = tag >> 3;
        let wire_type: u64 = tag & 7;
        if field_num == 1 {
            if wire_type != 0 {
                return Err(prefixed_decimal("Expected wire type 0 for port, got ", wire_type));
            }
            proof { lemma_read_varint_len(data@.skip(p1 as int)); }
            let (val, p2) = match decode_varint(data, p1) {
                Ok(x) => x,
                Err(m) => { return Err(m); },
            };
            assert(data@.skip(p1 as int).skip(p2 - p1) =~= data@.skip(p2 as int));
            config.port = val as i32;
            pos = p2;
        } else if field_num == 2 {
            if wire_type != 2 {
                return Err(prefixed_decimal("Expected wire type 2 for api_key, got ", wire_type));
            }
            proof { lemma_read_varint_len(data@.skip(p1 as int)); }
            let (v, p2) = match decode_varint(data, p1) {
                Ok(x) => x,
                Err(m) => { return Err(m); },
            };
            let ghost body = data@.skip(p1 as int).skip(p2 - p1);
            assert(body =~= data@.skip(p2 as int));
            let len = v as usize;
            if data.len() - p2 < len {
                return Err("Unexpected EOF reading api_key".to_owned());
            }
            let key_bytes = copy_range(data, p2, len);
            assert(key_bytes@ =~= body.take(len as int));
            match string_from_utf8(key_bytes) {
                Ok(key) => { config.api_key = key; },
                Err(t) => {
                    let mut m = "Invalid UTF-8 in api_key: ".to_owned();
                    m.append(t.as_str());
                    return Err(m);
                },
            }
            assert(body.skip(len as int) =~= data@.skip(p2 + len));
            pos = p2 + len;
        } else {
            proof { lemma_skip_field_len(wire_type, data@.skip(p1 as int)); }
            let p2 = match skip_field(wire_type, data, p1) {
                Ok(p) => p,
                Err(m) => { return Err(m); },
            };
            assert(data@.skip(p1 as int).skip(p2 - p1) =~= data@.skip(p2 as int));
            pos = p2;
        }
    }
    assert(data@.skip(pos as int) =~= Seq::<u8>::empty());
    Ok(config)
}

} // verus!
