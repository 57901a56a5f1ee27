//! Protobuf-style wire encoding (varints, tags, length-delimited fields) and
//! the RustDesk length-prefix framing.

use vstd::prelude::*;
use vstd::string::StringSliceAdditionalSpecFns;
use crate::text::{chars_of, decimal, push_decimal, string_from_chars};

verus! {

/// Little-endian base-128 encoding of `v`, high bit set on every byte but the last.
pub open spec fn varint_bytes(v: u64) -> Seq<u8>
    decreases v,
{
    if v < 128 {
        seq![v as u8]
    } else {
        seq![((v % 128) + 128) as u8] + varint_bytes(v / 128)
    }
}

/// Appends the varint encoding of `value` to `out`.
pub fn encode_varint(out: &mut Vec<u8>, value: u64)
    ensures
        final(out)@ == old(out)@ + varint_bytes(value),
{
    let ghost start = out@;
    let ghost orig = value;
    let mut value = value;
    loop
        invariant_except_break
            out@ + varint_bytes(value) == start + varint_bytes(orig),
        ensures
            out@ == start + varint_bytes(orig),
        decreases value,
    {
        let ghost v0 = value;
        let mut byte = (value & 0x7f) as u8;
        value = value >> 7;
        assert(byte == v0 % 128 && value == v0 / 128) by (bit_vector)
            requires
                byte == (v0 & 0x7f) as u8,
                value == v0 >> 7,
        ;
        if value != 0 {
            assert(byte | 0x80 == byte + 128) by (bit_vector)
                requires
                    byte < 128,
            ;
            byte = byte | 0x80;
        }
        let ghost before = out@;
        out.push(byte);
        if value == 0 {
            assert(varint_bytes(v0) == seq![byte]);
            assert(out@ == start + varint_bytes(orig));
            break ;
        }
        assert(varint_bytes(v0) == seq![byte] + varint_bytes(value));
        assert(out@ + varint_bytes(value) == before + varint_bytes(v0));
    }
}


/// The value of the varint that starts at `i` in `data` (continuing from
/// `shift` bits already gathered into `acc`) and the index just past it.
/// A varint that runs past the end of `data`, or past ten bytes, has none.
pub open spec fn varint_from(data: Seq<u8>, i: int, shift: u64, acc: u64) -> Option<(u64, int)>
    decreases data.len() - i,
{
    if i < 0 || i >= data.len() {
        None
    } else {
        let b = data[i];
        let acc2 = acc | (((b % 128) as u64) << shift);
        if b < 128 {
            Some((acc2, i + 1))
        } else if shift + 7 > 63 {
            None
        } else {
            varint_from(data, i + 1, (shift + 7) as u64, acc2)
        }
    }
}

/// The varint that starts at index `i` of `data`, with the index after it.
pub open spec fn varint_at(data: Seq<u8>, i: int) -> Option<(u64, int)> {
    varint_from(data, i, 0, 0)
}

/// Reads the varint at `*index`, advancing `*index` past it.
pub fn read_varint(data: &[u8], index: &mut usize) -> (r: Option<u64>)
    ensures
        match varint_at(data@, *old(index) as int) {
            Some((v, end)) => r == Some(v) && *final(index) as int == end,
            None => r is None,
        },
{
    let ghost start = *index as int;
    let mut result: u64 = 0;
    let mut shift: u64 = 0;
    while *index < data.len()
        invariant
            shift <= 63,
            start == *old(index) as int,
            varint_at(data@, start) == varint_from(data@, *index as int, shift, result),
        decreases data.len() - *index,
    {
        let byte = data[*index];
        let ghost i0 = *index as int;
        let ghost r0 = result;
        let ghost s0 = shift;
        *index = *index + 1;
        assert((byte & 0x7f) == byte % 128 && ((byte & 0x80) == 0) == (byte < 128)) by (bit_vector);
        result = result | (((byte & 0x7f) as u64) << shift);
        assert(varint_from(data@, i0, s0, r0) == if byte < 128 {
            Some((result, i0 + 1))
        } else if s0 + 7 > 63 {
            None
        } else {
            varint_from(data@, i0 + 1, (s0 + 7) as u64, result)
        });
        if byte & 0x80 == 0 {
            return Some(result);
        }
        shift = shift + 7;
        if shift > 63 {
            return None;
        }
    }
    None
}


proof fn lemma_shift_room(x: u64, s: u64)
    by (bit_vector)
    requires
        s <= 63,
        x >= 128,
        s == 0 || x < (1u64 << ((64 - s) as u64)),
    ensures
        s <= 56,
        x >> 7 < (1u64 << ((57 - s) as u64)),
{
}

proof fn lemma_shift_step(x: u64, s: u64, acc: u64)
    by (bit_vector)
    requires
        s <= 56,
        s == 0 || x < (1u64 << ((64 - s) as u64)),
        acc < (1u64 << s),
    ensures
        (acc | ((x & 127) << s)) < (1u64 << ((s + 7) as u64)),
        (acc | ((x & 127) << s)) | ((x >> 7) << ((s + 7) as u64)) == acc | (x << s),
{
}

proof fn lemma_div_mod_128(x: u64)
    by (bit_vector)
    ensures
        x / 128 == x >> 7,
        x % 128 == x & 127,
{
}

/// Decoding the bytes that `varint_bytes(x)` produces, at any offset of any
/// buffer, yields `x` shifted into place over the bits already gathered.
proof fn lemma_varint_from_bytes(data: Seq<u8>, i: int, x: u64, shift: u64, acc: u64)
    requires
        0 <= i,
        i + varint_bytes(x).len() <= data.len(),
        data.subrange(i, i + varint_bytes(x).len()) == varint_bytes(x),
        shift <= 63,
        shift == 0 || x < (1u64 << ((64 - shift) as u64)),
        acc < (1u64 << shift),
    ensures
        varint_from(data, i, shift, acc) == Some((acc | (x << shift), i + varint_bytes(x).len())),
    decreases x,
{
    lemma_div_mod_128(x);
    assert(data[i] == varint_bytes(x)[0]);
    if x < 128 {
        assert(varint_bytes(x) == seq![x as u8]);
        assert(((x as u8) % 128) as u64 == x);
    } else {
        lemma_shift_room(x, shift);
        lemma_shift_step(x, shift, acc);
        let b = ((x % 128) + 128) as u8;
        assert(varint_bytes(x) == seq![b] + varint_bytes(x / 128));
        assert(b >= 128 && (b % 128) as u64 == x & 127);
        let n = varint_bytes(x / 128).len();
        assert(data.subrange(i + 1, i + 1 + n) =~= varint_bytes(x / 128)) by {
            assert forall|k: int| 0 <= k < n implies #[trigger] data.subrange(i + 1, i + 1 + n)[k]
                == varint_bytes(x / 128)[k] by {
                assert(data.subrange(i, i + varint_bytes(x).len())[k + 1] == varint_bytes(x)[k + 1]);
            }
        }
        lemma_varint_from_bytes(data, i + 1, x / 128, (shift + 7) as u64, acc | ((x & 127) << shift));
    }
}

/// Reading back a varint that `encode_varint` wrote returns the same value
/// and stops right after its bytes, whatever surrounds them.
pub proof fn lemma_varint_roundtrip(prefix: Seq<u8>, x: u64, rest: Seq<u8>)
    ensures
        varint_at(prefix + varint_bytes(x) + rest, prefix.len() as int) == Some(
            (x, (prefix.len() + varint_bytes(x).len()) as int),
        ),
{
    let data = prefix + varint_bytes(x) + rest;
    let i = prefix.len() as int;
    assert(data.subrange(i, i + varint_bytes(x).len()) =~= varint_bytes(x));
    assert(0u64 < (1u64 << 0u64)) by (bit_vector);
    assert((0u64 | (x << 0u64)) == x) by (bit_vector);
    lemma_varint_from_bytes(data, i, x, 0, 0);
}


/// The key of a field: its number shifted over its three wire-type bits.
pub open spec fn tag_bytes(field: u32, wire: u32) -> Seq<u8> {
    varint_bytes(((field << 3u32) | wire) as u64)
}

/// A varint-typed field.
pub open spec fn varint_field(field: u32, value: u64) -> Seq<u8> {
    tag_bytes(field, 0) + varint_bytes(value)
}

/// A length-delimited field carrying `data`.
pub open spec fn bytes_field(field: u32, data: Seq<u8>) -> Seq<u8> {
    tag_bytes(field, 2) + varint_bytes(data.len() as u64) + data
}

/// Zigzag mapping of a signed value onto the unsigned varints.
pub open spec fn zigzag(v: i32) -> u64 {
    if v >= 0 {
        (2 * v) as u64
    } else {
        (-2 * v - 1) as u64
    }
}

pub fn encode_tag(out: &mut Vec<u8>, field: u32, wire: u32)
    ensures
        final(out)@ == old(out)@ + tag_bytes(field, wire),
{
    encode_varint(out, ((field << 3u32) | wire) as u64);
}

pub fn encode_bytes(out: &mut Vec<u8>, field: u32, data: &[u8])
    ensures
        final(out)@ == old(out)@ + bytes_field(field, data@),
{
    let ghost start = out@;
    encode_tag(out, field, 2);
    encode_varint(out, data.len() as u64);
    out.extend_from_slice(data);
    assert(out@ == start + bytes_field(field, data@));
}

/// A string field is the length-delimited field of its UTF-8 bytes.
pub fn encode_string(out: &mut Vec<u8>, field: u32, value: &str)
    ensures
        final(out)@ == old(out)@ + bytes_field(field, value.spec_bytes()),
{
    encode_bytes(out, field, value.as_bytes());
}

pub fn encode_varint_field(out: &mut Vec<u8>, field: u32, value: u64)
    ensures
        final(out)@ == old(out)@ + varint_field(field, value),
{
    let ghost start = out@;
    encode_tag(out, field, 0);
    encode_varint(out, value);
    assert(out@ == start + varint_field(field, value));
}

pub fn encode_sint32_field(out: &mut Vec<u8>, field: u32, value: i32)
    ensures
        final(out)@ == old(out)@ + varint_field(field, zigzag(value)),
{
    let zz = ((value << 1u32) ^ (value >> 31u32)) as u32 as u64;
    assert(zz == zigzag(value)) by (bit_vector)
        requires
            zz == ((value << 1u32) ^ (value >> 31u32)) as u32 as u64,
    ;
    encode_varint_field(out, field, zz);
}


/// The abstract content of one decoded field.
pub enum WireValue {
    Varint(u64),
    Bytes(Seq<u8>),
}

/// A decoded field value; length-delimited and fixed-width values borrow
/// their bytes from the message being read.
pub enum ProtoValue<'a> {
    Varint(u64),
    Bytes(&'a [u8]),
}

impl<'a> View for ProtoValue<'a> {
    type V = WireValue;

    open spec fn view(&self) -> WireValue {
        match self {
            ProtoValue::Varint(v) => WireValue::Varint(*v),
            ProtoValue::Bytes(b) => WireValue::Bytes(b@),
        }
    }
}

/// The field that starts at index `i` of `data`: its number, its value and the
/// index after it. Wire types 0 (varint), 1 (8 bytes), 2 (length-delimited)
/// and 5 (4 bytes) are understood; anything else, or a field that runs past
/// the end of `data`, has none.
pub open spec fn field_at(data: Seq<u8>, i: int) -> Option<(u32, WireValue, int)> {
    match varint_at(data, i) {
        None => None,
        Some((tag, j)) => {
            let field = (tag >> 3u64) as u32;
            let wire = tag % 8;
            if wire == 0 {
                match varint_at(data, j) {
                    Some((v, k)) => Some((field, WireValue::Varint(v), k)),
                    None => None,
                }
            } else if wire == 1 {
                if j + 8 > data.len() {
                    None
                } else {
                    Some((field, WireValue::Bytes(data.subrange(j, j + 8)), j + 8))
                }
            } else if wire == 2 {
                match varint_at(data, j) {
                    Some((len, k)) => if k + (len as usize) > data.len() {
                        None
                    } else {
                        Some((field, WireValue::Bytes(data.subrange(k, k + (len as usize))), k + (len as usize)))
                    },
                    None => None,
                }
            } else if wire == 5 {
                if j + 4 > data.len() {
                    None
                } else {
                    Some((field, WireValue::Bytes(data.subrange(j, j + 4)), j + 4))
                }
            } else {
                None
            }
        },
    }
}

/// `r` is what `field_at` says of the field at index `i`.
pub open spec fn field_result(data: Seq<u8>, i: int, r: Option<(u32, ProtoValue)>, end: int) -> bool {
    match field_at(data, i) {
        Some((f, v, e)) => r matches Some((f2, pv)) && f2 == f && pv@ == v && end == e,
        None => r is None,
    }
}

proof fn lemma_varint_end(data: Seq<u8>, i: int, shift: u64, acc: u64)
    ensures
        varint_from(data, i, shift, acc) matches Some((_, e)) ==> i < e <= data.len(),
    decreases data.len() - i,
{
    if 0 <= i < data.len() && data[i] >= 128 && shift + 7 <= 63 {
        lemma_varint_end(data, i + 1, (shift + 7) as u64, acc | (((data[i] % 128) as u64) << shift));
    }
}

/// A field always ends after it starts and within the data.
pub proof fn lemma_field_end(data: Seq<u8>, i: int)
    ensures
        field_at(data, i) matches Some((_, _, e)) ==> i < e <= data.len(),
{
    lemma_varint_end(data, i, 0, 0);
    if let Some((_, j)) = varint_at(data, i) {
        lemma_varint_end(data, j, 0, 0);
    }
}

/// Reads the field at `*index`, advancing `*index` past it.
pub fn next_field<'a>(data: &'a [u8], index: &mut usize) -> (r: Option<(u32, ProtoValue<'a>)>)
    ensures
        field_result(data@, *old(index) as int, r, *final(index) as int),
{
    let tag = match read_varint(data, index) {
        Some(t) => t,
        None => return None,
    };
    let field = (tag >> 3u64) as u32;
    let wire = (tag & 7) as u32;
    assert(wire as int == tag % 8) by (bit_vector)
        requires
            wire == (tag & 7) as u32,
    ;
    proof {
        lemma_varint_end(data@, *old(index) as int, 0, 0);
    }
    if wire == 0 {
        match read_varint(data, index) {
            Some(v) => Some((field, ProtoValue::Varint(v))),
            None => None,
        }
    } else if wire == 1 {
        if *index > data.len() || data.len() - *index < 8 {
            return None;
        }
        let start = *index;
        *index = *index + 8;
        Some((field, ProtoValue::Bytes(&data[start..*index])))
    } else if wire == 2 {
        let len = match read_varint(data, index) {
            Some(l) => l as usize,
            None => return None,
        };
        proof {
            let j = varint_at(data@, *old(index) as int).unwrap().1;
            lemma_varint_end(data@, j, 0, 0);
        }
        if data.len() - *index < len {
            return None;
        }
        let start = *index;
        *index = *index + len;
        Some((field, ProtoValue::Bytes(&data[start..*index])))
    } else if wire == 5 {
        if *index > data.len() || data.len() - *index < 4 {
            return None;
        }
        let start = *index;
        *index = *index + 4;
        Some((field, ProtoValue::Bytes(&data[start..*index])))
    } else {
        None
    }
}

proof fn lemma_tag_split(field: u32, wire: u32)
    by (bit_vector)
    requires
        field < 0x2000_0000,
        wire < 8,
    ensures
        ((((field << 3u32) | wire) as u64) >> 3u64) as u32 == field,
        (((field << 3u32) | wire) as u64) % 8 == wire as u64,
{
}

/// A varint field reads back as the same field number and value.
pub proof fn lemma_varint_field_roundtrip(prefix: Seq<u8>, field: u32, value: u64, rest: Seq<u8>)
    requires
        field < 0x2000_0000,
    ensures
        field_at(prefix + varint_field(field, value) + rest, prefix.len() as int) == Some(
            (field, WireValue::Varint(value), (prefix.len() + varint_field(field, value).len()) as int),
        ),
{
    let tag = ((field << 3u32) | 0u32) as u64;
    lemma_tag_split(field, 0);
    let data = prefix + varint_field(field, value) + rest;
    assert(data =~= prefix + varint_bytes(tag) + (varint_bytes(value) + rest));
    lemma_varint_roundtrip(prefix, tag, varint_bytes(value) + rest);
    assert(data =~= (prefix + varint_bytes(tag)) + varint_bytes(value) + rest);
    lemma_varint_roundtrip(prefix + varint_bytes(tag), value, rest);
}

/// A length-delimited field reads back as the same field number and bytes.
pub proof fn lemma_bytes_field_roundtrip(prefix: Seq<u8>, field: u32, payload: Seq<u8>, rest: Seq<u8>)
    requires
        field < 0x2000_0000,
        payload.len() <= usize::MAX,
    ensures
        field_at(prefix + bytes_field(field, payload) + rest, prefix.len() as int) == Some(
            (field, WireValue::Bytes(payload), (prefix.len() + bytes_field(field, payload).len()) as int),
        ),
{
    let tag = ((field << 3u32) | 2u32) as u64;
    lemma_tag_split(field, 2);
    let lenv = payload.len() as u64;
    let data = prefix + bytes_field(field, payload) + rest;
    assert(data =~= prefix + varint_bytes(tag) + (varint_bytes(lenv) + payload + rest));
    lemma_varint_roundtrip(prefix, tag, varint_bytes(lenv) + payload + rest);
    let p2 = prefix + varint_bytes(tag);
    assert(data =~= p2 + varint_bytes(lenv) + (payload + rest));
    lemma_varint_roundtrip(p2, lenv, payload + rest);
    let k = p2.len() + varint_bytes(lenv).len();
    assert(data.subrange(k as int, (k + payload.len()) as int) =~= payload);
}


/// The bytes of one field: a varint field or a length-delimited field.
pub open spec fn encode_field(f: (u32, WireValue)) -> Seq<u8> {
    match f.1 {
        WireValue::Varint(v) => varint_field(f.0, v),
        WireValue::Bytes(b) => bytes_field(f.0, b),
    }
}

/// The bytes of the fields `fs`, written one after another.
pub open spec fn encode_fields(fs: Seq<(u32, WireValue)>) -> Seq<u8>
    decreases fs.len(),
{
    if fs.len() == 0 {
        Seq::empty()
    } else {
        encode_field(fs[0]) + encode_fields(fs.drop_first())
    }
}

/// Every field number fits a tag and every length-delimited value's length
/// fits a `usize`.
pub open spec fn encodable(fs: Seq<(u32, WireValue)>) -> bool {
    forall|i: int|
        0 <= i < fs.len() ==> #[trigger] fs[i].0 < 0x2000_0000 && (fs[i].1 matches WireValue::Bytes(b)
            ==> b.len() <= usize::MAX)
}

/// Writing `a` then `b` is writing `a + b`.
pub proof fn lemma_encode_fields_append(a: Seq<(u32, WireValue)>, b: Seq<(u32, WireValue)>)
    ensures
        encode_fields(a + b) == encode_fields(a) + encode_fields(b),
    decreases a.len(),
{
    if a.len() == 0 {
        assert(a + b =~= b);
    } else {
        assert((a + b).drop_first() =~= a.drop_first() + b);
        lemma_encode_fields_append(a.drop_first(), b);
        assert(encode_field(a[0]) + (encode_fields(a.drop_first()) + encode_fields(b)) =~= encode_field(
            a[0],
        ) + encode_fields(a.drop_first()) + encode_fields(b));
    }
}

/// Fields written one after another read back as the same fields, in
/// order, wherever they start.
pub proof fn lemma_fields_roundtrip(prefix: Seq<u8>, fs: Seq<(u32, WireValue)>)
    requires
        encodable(fs),
    ensures
        fields_from(prefix + encode_fields(fs), prefix.len() as int) == fs,
    decreases fs.len(),
{
    let data = prefix + encode_fields(fs);
    if fs.len() == 0 {
        assert(data =~= prefix);
        assert(varint_at(data, prefix.len() as int) is None);
    } else {
        let e0 = encode_field(fs[0]);
        let rest = encode_fields(fs.drop_first());
        assert(data =~= prefix + e0 + rest);
        assert(fs[0].0 < 0x2000_0000);
        match fs[0].1 {
            WireValue::Varint(v) => lemma_varint_field_roundtrip(prefix, fs[0].0, v, rest),
            WireValue::Bytes(b) => lemma_bytes_field_roundtrip(prefix, fs[0].0, b, rest),
        }
        assert(encodable(fs.drop_first())) by {
            assert forall|i: int| 0 <= i < fs.drop_first().len() implies #[trigger] fs.drop_first()[i].0
                < 0x2000_0000 && (fs.drop_first()[i].1 matches WireValue::Bytes(b) ==> b.len()
                <= usize::MAX) by {
                assert(fs.drop_first()[i] == fs[i + 1]);
            }
        }
        lemma_fields_roundtrip(prefix + e0, fs.drop_first());
        assert(prefix + e0 + rest =~= (prefix + e0) + rest);
        assert(fs =~= seq![fs[0]] + fs.drop_first());
    }
}

spec fn pow128(n: nat) -> nat
    decreases n,
{
    if n == 0 {
        1
    } else {
        128 * pow128((n - 1) as nat)
    }
}

proof fn lemma_varint_len_below(v: u64, n: nat)
    requires
        v < pow128(n),
    ensures
        varint_bytes(v).len() <= if n == 0 { 1 } else { n },
    decreases n,
{
    if v >= 128 {
        assert(n >= 2) by {
            if n == 0 {
            } else if n == 1 {
                assert(pow128(0) == 1);
            }
        }
        let m = (n - 1) as nat;
        assert(v / 128 < pow128(m)) by (nonlinear_arith)
            requires
                v < 128 * pow128(m),
        ;
        lemma_varint_len_below(v / 128, m);
    }
}

/// A varint takes at most ten bytes.
pub proof fn lemma_varint_len(v: u64)
    ensures
        varint_bytes(v).len() <= 10,
{
    reveal_with_fuel(pow128, 11);
    assert(pow128(10) == 0x40_0000_0000_0000_0000);
    lemma_varint_len_below(v, 10);
}

/// The RustDesk frame header for a payload of `len` bytes: the length shifted
/// over two tag bits that give the header size less one, little-endian in one,
/// two or three bytes (three-byte headers keep only the low 24 bits).
pub open spec fn frame_header(len: nat) -> Seq<u8> {
    if len <= 0x3F {
        seq![(len * 4) as u8]
    } else if len <= 0x3FFF {
        let x = len * 4 + 1;
        seq![(x % 256) as u8, (x / 256) as u8]
    } else {
        let x = (len * 4 + 2) % 0x100_0000;
        seq![(x % 256) as u8, ((x / 256) % 256) as u8, (x / 0x1_0000) as u8]
    }
}

/// The bytes of `m` as one frame: its header, then `m`.
pub open spec fn framed(m: Seq<u8>) -> Seq<u8> {
    frame_header(m.len()) + m
}

/// Prefixes `payload` with its frame header.
pub fn frame_message(payload: &[u8]) -> (out: Vec<u8>)
    ensures
        out@ == frame_header(payload@.len()) + payload@,
{
    let len = payload.len();
    let mut out: Vec<u8> = Vec::new();
    if len <= 0x3F {
        out.push((len * 4) as u8);
    } else if len <= 0x3FFF {
        let x = len * 4 + 1;
        let lo = (x % 256) as u8;
        let hi = (x / 256) as u8;
        out.push(lo);
        out.push(hi);
        assert(frame_header(len as nat) == seq![lo, hi]);
    } else {
        let encoded: u32 = ((len as u32) << 2u32) | 2u32;
        let b0 = (encoded % 256) as u8;
        let b1 = ((encoded / 256) % 256) as u8;
        let b2 = ((encoded / 0x1_0000) % 256) as u8;
        proof {
            lemma_three_byte_header(len, encoded, b0, b1, b2);
        }
        out.push(b0);
        out.push(b1);
        out.push(b2);
    }
    let ghost head = out@;
    assert(head == frame_header(len as nat));
    out.extend_from_slice(payload);
    assert(out@ =~= frame_header(payload@.len()) + payload@);
    out
}

proof fn lemma_three_byte_header(len: usize, encoded: u32, b0: u8, b1: u8, b2: u8)
    requires
        len > 0x3FFF,
        encoded == ((len as u32) << 2u32) | 2u32,
        b0 == (encoded % 256) as u8,
        b1 == ((encoded / 256) % 256) as u8,
        b2 == ((encoded / 0x1_0000) % 256) as u8,
    ensures
        frame_header(len as nat) == seq![b0, b1, b2],
{
    assert(encoded as int % 0x100_0000 == (len * 4 + 2) % 0x100_0000) by (bit_vector)
        requires
            encoded == ((len as u32) << 2u32) | 2u32,
    ;
    let x = (len * 4 + 2) % 0x100_0000;
    let e = encoded as int;
    assert(x % 256 == e % 256 && (x / 256) % 256 == (e / 256) % 256 && x / 0x1_0000 == (e / 0x1_0000)
        % 256) by (nonlinear_arith)
        requires
            x == e % 0x100_0000,
            0 <= e,
    ;
}

/// The number of header bytes announced by the first byte of a frame.
pub open spec fn spec_header_size(first: u8) -> nat {
    ((first % 4) + 1) as nat
}

pub fn frame_header_size(first: u8) -> (n: usize)
    ensures
        n == spec_header_size(first),
{
    assert((first & 3) == first % 4) by (bit_vector);
    ((first & 3) + 1) as usize
}

/// The payload length carried by a complete frame header.
pub open spec fn header_length(header: Seq<u8>) -> nat
    recommends
        1 <= header.len() <= 4,
{
    let packed = header[0] + if header.len() > 1 { header[1] * 0x100 } else { 0 } + if header.len()
        > 2 {
        header[2] * 0x1_0000
    } else {
        0
    } + if header.len() > 3 {
        header[3] * 0x100_0000
    } else {
        0
    };
    (packed / 4) as nat
}

pub fn decode_frame_length(header: &[u8]) -> (len: usize)
    requires
        1 <= header@.len() <= 4,
    ensures
        len == header_length(header@),
{
    let mut packed: u64 = header[0] as u64;
    if header.len() > 1 {
        packed = packed + (header[1] as u64) * 0x100;
    }
    if header.len() > 2 {
        packed = packed + (header[2] as u64) * 0x1_0000;
    }
    if header.len() > 3 {
        packed = packed + (header[3] as u64) * 0x100_0000;
    }
    (packed / 4) as usize
}

/// What a reader does with a frame of a given announced length.
pub enum FrameDisposition {
    /// Zero or above 64 MiB: the stream is broken.
    Bad,
    /// Above 8 MiB: read and discard the payload, deliver an empty message.
    Skip,
    /// Read the payload.
    Read,
}

pub fn frame_disposition(len: usize) -> (d: FrameDisposition)
    ensures
        d is Bad <==> (len == 0 || len > 64 * 1024 * 1024),
        d is Skip <==> (len != 0 && 8 * 1024 * 1024 < len <= 64 * 1024 * 1024),
        d is Read <==> (1 <= len <= 8 * 1024 * 1024),
{
    if len == 0 || len > 64 * 1024 * 1024 {
        FrameDisposition::Bad
    } else if len > 8 * 1024 * 1024 {
        FrameDisposition::Skip
    } else {
        FrameDisposition::Read
    }
}

/// How a reader goes on once it has a frame's header: read the payload of
/// the given length, or read and discard it.
#[derive(Debug, Clone, Copy, PartialEq, Eq, Structural)]
pub enum FramePlan {
    Skip(usize),
    Read(usize),
}

/// The plan for a frame announcing `len` payload bytes, or the error that
/// ends the stream.
pub open spec fn plan_for(len: nat) -> Result<FramePlan, Seq<char>> {
    if len == 0 || len > 64 * 1024 * 1024 {
        Err("bad frame len "@ + decimal(len))
    } else if len > 8 * 1024 * 1024 {
        Ok(FramePlan::Skip(len as usize))
    } else {
        Ok(FramePlan::Read(len as usize))
    }
}

/// What to do with the frame whose complete header is `header`.
pub fn frame_plan(header: &[u8]) -> (r: Result<FramePlan, String>)
    requires
        1 <= header@.len() <= 4,
    ensures
        r is Ok <==> plan_for(header_length(header@)) is Ok,
        r matches Ok(p) ==> plan_for(header_length(header@)) == Ok::<FramePlan, Seq<char>>(p),
        r matches Err(e) ==> plan_for(header_length(header@)) == Err::<FramePlan, Seq<char>>(e@),
{
    let len = decode_frame_length(header);
    match frame_disposition(len) {
        FrameDisposition::Bad => {
            let mut text = chars_of("bad frame len ");
            push_decimal(&mut text, len as u64);
            Err(string_from_chars(text.as_slice()))
        },
        FrameDisposition::Skip => Ok(FramePlan::Skip(len)),
        FrameDisposition::Read => Ok(FramePlan::Read(len)),
    }
}

/// A framed message reads back whole: its first byte announces the size of
/// a header that carries the payload's length, the reader plans to read
/// that many bytes, and those bytes, which end the frame, are the payload.
/// A header announcing no payload ends the stream with `bad frame len 0`.
pub proof fn lemma_framed_read(p: Seq<u8>)
    requires
        1 <= p.len() < 0x40_0000,
    ensures
        ({
            let m = framed(p);
            let hs = spec_header_size(m[0]);
            &&& 1 <= hs <= 4
            &&& hs + p.len() == m.len()
            &&& plan_for(header_length(m.take(hs as int))) == Ok::<FramePlan, Seq<char>>(
                FramePlan::Read(p.len() as usize),
            )
            &&& m.subrange(hs as int, m.len() as int) == p
        }),
        plan_for(0) == Err::<FramePlan, Seq<char>>("bad frame len 0"@),
{
    let m = framed(p);
    let h = frame_header(p.len());
    lemma_frame_header_roundtrip(p.len());
    assert(m[0] == h[0]);
    assert(m.take(h.len() as int) =~= h);
    assert(m.subrange(h.len() as int, m.len() as int) =~= p);
    reveal_strlit("bad frame len 0");
    reveal_strlit("bad frame len ");
    assert(decimal(0) =~= seq!['0']);
    assert("bad frame len "@ + decimal(0) =~= "bad frame len 0"@);
}

/// A frame header announces its own size and the payload length it was made
/// for, for every payload below 4 MiB (the largest a header can carry).
pub proof fn lemma_frame_header_roundtrip(len: nat)
    requires
        len < 0x40_0000,
    ensures
        frame_header(len).len() == spec_header_size(frame_header(len)[0]),
        header_length(frame_header(len)) == len,
{
    let h = frame_header(len);
    if len <= 0x3F {
        assert(h[0] as int == len * 4);
    } else if len <= 0x3FFF {
        let x = len * 4 + 1;
        assert(h[0] as int == x % 256 && h[1] as int == x / 256);
        assert((x % 256) % 4 == 1);
    } else {
        let x = len * 4 + 2;
        assert(x < 0x100_0000);
        assert(h[0] as int == x % 256 && h[1] as int == (x / 256) % 256 && h[2] as int == x / 0x1_0000);
        assert((x % 256) % 4 == 2);
    }
}


/// The fields of `data` read one after another from index `i`, up to the
/// first one that cannot be read.
pub open spec fn fields_from(data: Seq<u8>, i: int) -> Seq<(u32, WireValue)>
    decreases data.len() - i,
{
    match field_at(data, i) {
        None => Seq::empty(),
        Some((f, v, e)) => if i < e <= data.len() {
            seq![(f, v)] + fields_from(data, e)
        } else {
            Seq::empty()
        },
    }
}

/// The fields of a message, in order.
pub open spec fn fields_of(data: Seq<u8>) -> Seq<(u32, WireValue)> {
    fields_from(data, 0)
}

/// One step of reading fields: either no field can be read here, or the
/// field read here is followed by the fields after it.
pub proof fn lemma_fields_step(data: Seq<u8>, i: int)
    ensures
        match field_at(data, i) {
            None => fields_from(data, i) == Seq::<(u32, WireValue)>::empty(),
            Some((f, v, e)) => i < e <= data.len() && fields_from(data, i) == seq![(f, v)]
                + fields_from(data, e),
        },
{
    lemma_field_end(data, i);
}

/// The field numbers of a message, in order.
pub open spec fn field_numbers(fs: Seq<(u32, WireValue)>) -> Seq<u32> {
    Seq::new(fs.len(), |k: int| fs[k].0)
}

/// The numbers of the fields of `payload`, in order (for logging what a
/// server sent).
pub fn payload_fields(payload: &[u8]) -> (r: Vec<u32>)
    ensures
        r@ == field_numbers(fields_of(payload@)),
{
    let mut index: usize = 0;
    let mut fields: Vec<u32> = Vec::new();
    let ghost done: Seq<(u32, WireValue)> = Seq::empty();
    assert(fields_of(payload@) == done + fields_from(payload@, 0));
    loop
        invariant
            fields_of(payload@) == done + fields_from(payload@, index as int),
            fields@ == field_numbers(done),
        decreases payload.len() - index,
    {
        let ghost i0 = index as int;
        proof {
            lemma_fields_step(payload@, i0);
        }
        match next_field(payload, &mut index) {
            Some((field, value)) => {
                proof {
                    done = done.push((field, value@));
                    assert(fields_of(payload@) =~= done + fields_from(payload@, index as int));
                }
                fields.push(field);
                assert(fields@ =~= field_numbers(done));
            },
            None => {
                assert(done + fields_from(payload@, i0) =~= done);
                return fields;
            },
        }
    }
}

} // verus!
