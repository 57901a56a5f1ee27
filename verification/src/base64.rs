//! Standard base64 (RFC 4648 alphabet, `=` padding) as used for licence keys.

use vstd::prelude::*;
use crate::text::{chars_of, string_from_chars};

verus! {

/// The alphabet symbol for a 6-bit value.
pub open spec fn b64_sym(v: int) -> char {
    if v < 26 {
        (v + 65) as char
    } else if v < 52 {
        (v - 26 + 97) as char
    } else if v < 62 {
        (v - 52 + 48) as char
    } else if v == 62 {
        '+'
    } else {
        '/'
    }
}

/// The 6-bit value of an alphabet symbol.
pub open spec fn b64_val(c: char) -> Option<u8> {
    let u = c as u32;
    if 65 <= u <= 90 {
        Some((u - 65) as u8)
    } else if 97 <= u <= 122 {
        Some((u - 97 + 26) as u8)
    } else if 48 <= u <= 57 {
        Some((u - 48 + 52) as u8)
    } else if u == 43 {
        Some(62)
    } else if u == 47 {
        Some(63)
    } else {
        None
    }
}

/// Four symbols for one group of one to three bytes, padded with `=`.
pub open spec fn encode_group(c: Seq<u8>) -> Seq<char> {
    let c0 = c[0] as int;
    let c1 = if c.len() > 1 { c[1] as int } else { 0 };
    let c2 = if c.len() > 2 { c[2] as int } else { 0 };
    seq![
        b64_sym(c0 / 4),
        b64_sym((c0 % 4) * 16 + c1 / 16),
        if c.len() > 1 { b64_sym((c1 % 16) * 4 + c2 / 64) } else { '=' },
        if c.len() > 2 { b64_sym(c2 % 64) } else { '=' },
    ]
}

/// The base64 text of `d`, three bytes to four symbols.
pub open spec fn b64_encode_spec(d: Seq<u8>) -> Seq<char>
    decreases d.len(),
{
    if d.len() == 0 {
        Seq::empty()
    } else if d.len() <= 3 {
        encode_group(d)
    } else {
        encode_group(d.take(3)) + b64_encode_spec(d.skip(3))
    }
}

fn sym(v: u32) -> (c: char)
    requires
        v < 64,
    ensures
        c == b64_sym(v as int),
{
    if v < 26 {
        ((v + 65) as u8) as char
    } else if v < 52 {
        ((v - 26 + 97) as u8) as char
    } else if v < 62 {
        ((v - 52 + 48) as u8) as char
    } else if v == 62 {
        '+'
    } else {
        '/'
    }
}

/// Base64 text of `data`, `=`-padded.
pub fn b64_encode(data: &[u8]) -> (out: String)
    ensures
        out@ == b64_encode_spec(data@),
{
    let mut chars: Vec<char> = Vec::new();
    let mut i: usize = 0;
    assert(data@.skip(0) =~= data@);
    while i < data.len()
        invariant
            i <= data@.len(),
            chars@ + b64_encode_spec(data@.skip(i as int)) == b64_encode_spec(data@),
        decreases data.len() - i,
    {
        let rest = data.len() - i;
        let b0 = data[i] as u32;
        let b1: u32 = if rest > 1 { data[i + 1] as u32 } else { 0 };
        let b2: u32 = if rest > 2 { data[i + 2] as u32 } else { 0 };
        let n: u32 = (b0 << 16u32) | (b1 << 8u32) | b2;
        assert(((n >> 18u32) & 63) == b0 / 4 && ((n >> 12u32) & 63) == (b0 % 4) * 16 + b1 / 16
            && ((n >> 6u32) & 63) == (b1 % 16) * 4 + b2 / 64 && (n & 63) == b2 % 64) by (bit_vector)
            requires
                b0 < 256,
                b1 < 256,
                b2 < 256,
                n == (b0 << 16u32) | (b1 << 8u32) | b2,
        ;
        let ghost before = chars@;
        let ghost g = data@.skip(i as int);
        let ghost grp = if g.len() <= 3 { g } else { g.take(3) };
        chars.push(sym((n >> 18u32) & 63));
        chars.push(sym((n >> 12u32) & 63));
        if rest > 1 {
            chars.push(sym((n >> 6u32) & 63));
        } else {
            chars.push('=');
        }
        if rest > 2 {
            chars.push(sym(n & 63));
        } else {
            chars.push('=');
        }
        assert(chars@ =~= before + encode_group(grp));
        if rest <= 3 {
            assert(b64_encode_spec(g) == encode_group(g));
            assert(data@.skip(data@.len() as int) =~= Seq::<u8>::empty());
            i = data.len();
        } else {
            assert(g.skip(3) =~= data@.skip(i + 3));
            i = i + 3;
        }
    }
    assert(data@.skip(i as int) =~= Seq::<u8>::empty());
    assert(chars@ =~= b64_encode_spec(data@));
    string_from_chars(chars.as_slice())
}

/// What the decoder keeps of its input: everything but ASCII white space
/// (as `u8::is_ascii_whitespace` has it) and `=`.
pub open spec fn b64_keep(c: char) -> bool {
    !(c == ' ' || c == '\t' || c == '\n' || c == '\x0C' || c == '\r' || c == '=')
}

pub open spec fn b64_clean(s: Seq<char>) -> Seq<char> {
    s.filter(|c: char| b64_keep(c))
}

/// The bytes one group of up to four symbols stands for; none if a symbol is
/// not in the alphabet. Missing symbols count as zero; bits shifted past a
/// byte are dropped.
pub open spec fn decode_group(g: Seq<char>) -> Option<Seq<u8>> {
    if exists|i: int| 0 <= i < g.len() && #[trigger] b64_val(g[i]) is None {
        None
    } else {
        let v0 = b64_val(g[0]).unwrap();
        let v1 = if g.len() > 1 { b64_val(g[1]).unwrap() } else { 0u8 };
        let v2 = if g.len() > 2 { b64_val(g[2]).unwrap() } else { 0u8 };
        let v3 = if g.len() > 3 { b64_val(g[3]).unwrap() } else { 0u8 };
        let o0 = (v0 << 2u8) | (v1 >> 4u8);
        let o1 = (v1 << 4u8) | (v2 >> 2u8);
        let o2 = (v2 << 6u8) | v3;
        Some(
            seq![o0] + if g.len() > 2 { seq![o1] } else { Seq::empty() } + if g.len() > 3 {
                seq![o2]
            } else {
                Seq::empty()
            },
        )
    }
}

pub open spec fn decode_groups(c: Seq<char>) -> Option<Seq<u8>>
    decreases c.len(),
{
    if c.len() == 0 {
        Some(Seq::empty())
    } else {
        let n = if c.len() < 4 { c.len() as int } else { 4 };
        match decode_group(c.take(n)) {
            None => None,
            Some(o) => match decode_groups(c.skip(n)) {
                None => None,
                Some(r) => Some(o + r),
            },
        }
    }
}

/// The bytes that base64 text stands for: none when nothing is left after
/// cleaning, when one symbol would be left over, or when a symbol is not in
/// the alphabet.
pub open spec fn b64_decode_spec(s: Seq<char>) -> Option<Seq<u8>> {
    let c = b64_clean(s);
    if c.len() == 0 || c.len() % 4 == 1 {
        None
    } else {
        decode_groups(c)
    }
}

fn val(c: char) -> (r: u8)
    ensures
        match b64_val(c) {
            Some(v) => r == v,
            None => r == 0xff,
        },
{
    let u = c as u32;
    if 65 <= u && u <= 90 {
        (u - 65) as u8
    } else if 97 <= u && u <= 122 {
        (u - 97 + 26) as u8
    } else if 48 <= u && u <= 57 {
        (u - 48 + 52) as u8
    } else if u == 43 {
        62
    } else if u == 47 {
        63
    } else {
        0xff
    }
}

/// Decodes base64 text; `None` when it is not valid base64 by `b64_decode_spec`.
pub fn b64_decode(input: &str) -> (r: Option<Vec<u8>>)
    ensures
        match b64_decode_spec(input@) {
            Some(d) => r matches Some(v) && v@ == d,
            None => r is None,
        },
{
    let all = chars_of(input);
    let mut cleaned: Vec<char> = Vec::new();
    let mut i: usize = 0;
    while i < all.len()
        invariant
            i <= all@.len(),
            cleaned@ == all@.take(i as int).filter(|c: char| b64_keep(c)),
        decreases all.len() - i,
    {
        let c = all[i];
        proof {
            all@.take(i as int).lemma_filter_push(c, |c: char| b64_keep(c));
            assert(all@.take(i + 1) =~= all@.take(i as int).push(c));
        }
        if !(c == ' ' || c == '\t' || c == '\n' || c == '\x0C' || c == '\r' || c == '=') {
            cleaned.push(c);
        }
        i = i + 1;
    }
    assert(all@.take(i as int) =~= all@);
    assert(cleaned@ == b64_clean(input@));
    if cleaned.len() == 0 || cleaned.len() % 4 == 1 {
        return None;
    }
    let mut out: Vec<u8> = Vec::new();
    let mut k: usize = 0;
    let ghost c = cleaned@;
    assert(c.skip(0) =~= c);
    while k < cleaned.len()
        invariant
            k <= c.len(),
            c == cleaned@,
            c == b64_clean(input@),
            c.len() != 0 && c.len() % 4 != 1,
            decode_groups(c) == match decode_groups(c.skip(k as int)) {
                Some(r) => Some(out@ + r),
                None => None,
            },
        decreases cleaned.len() - k,
    {
        let n: usize = if cleaned.len() - k < 4 { cleaned.len() - k } else { 4 };
        let ghost g = c.skip(k as int).take(n as int);
        let mut vals: [u8; 4] = [0u8; 4];
        let mut j: usize = 0;
        while j < n
            invariant
                j <= n <= 4,
                k + n <= c.len(),
                c == cleaned@,
                g == c.skip(k as int).take(n as int),
                k < c.len(),
                c == b64_clean(input@),
                c.len() != 0 && c.len() % 4 != 1,
                n as int == if c.len() - k < 4 {
                    c.len() - k
                } else {
                    4
                },
                decode_groups(c) == match decode_groups(c.skip(k as int)) {
                    Some(r) => Some(out@ + r),
                    None => None,
                },
                forall|m: int| 0 <= m < j ==> b64_val(#[trigger] g[m]) == Some(vals@[m]),
                forall|m: int| j <= m < 4 ==> vals@[m] == 0,
            decreases n - j,
        {
            assert(k + j < cleaned@.len());
            let v = val(cleaned[k + j]);
            assert(g[j as int] == cleaned@[k + j]);
            if v == 0xff {
                assert(b64_val(g[j as int]) is None);
                assert(decode_group(g) is None);
                assert(decode_groups(c.skip(k as int)) is None);
                return None;
            }
            vals[j] = v;
            j = j + 1;
        }
        let o0 = (vals[0] << 2u8) | (vals[1] >> 4u8);
        let o1 = (vals[1] << 4u8) | (vals[2] >> 2u8);
        let o2 = (vals[2] << 6u8) | vals[3];
        let ghost before = out@;
        out.push(o0);
        if n > 2 {
            out.push(o1);
        }
        if n > 3 {
            out.push(o2);
        }
        assert(!(exists|m: int| 0 <= m < g.len() && #[trigger] b64_val(g[m]) is None));
        assert(decode_group(g) == Some(out@.subrange(before.len() as int, out@.len() as int)));
        assert(out@ =~= before + out@.subrange(before.len() as int, out@.len() as int));
        assert(c.skip(k as int).skip(n as int) =~= c.skip(k + n));
        k = k + n;
    }
    assert(c.skip(k as int) =~= Seq::<char>::empty());
    Some(out)
}


/// The symbols of one group without its padding.
pub open spec fn encode_group_bare(c: Seq<u8>) -> Seq<char> {
    encode_group(c).take(c.len() + 1int)
}

/// The base64 text of `d` without any padding.
pub open spec fn b64_encode_bare(d: Seq<u8>) -> Seq<char>
    decreases d.len(),
{
    if d.len() == 0 {
        Seq::empty()
    } else if d.len() <= 3 {
        encode_group_bare(d)
    } else {
        encode_group_bare(d.take(3)) + b64_encode_bare(d.skip(3))
    }
}

proof fn lemma_sym_val(v: int)
    requires
        0 <= v < 64,
    ensures
        b64_val(b64_sym(v)) == Some(v as u8),
        b64_keep(b64_sym(v)),
{
}

proof fn lemma_group_bits(c0: u8, c1: u8, c2: u8, v0: u8, v1: u8, v2: u8, v3: u8)
    by (bit_vector)
    requires
        v0 == c0 / 4,
        v1 == (c0 % 4) * 16 + c1 / 16,
        v2 == (c1 % 16) * 4 + c2 / 64,
        v3 == c2 % 64,
    ensures
        (v0 << 2u8) | (v1 >> 4u8) == c0,
        (v1 << 4u8) | (v2 >> 2u8) == c1,
        (v2 << 6u8) | v3 == c2,
{
}

proof fn lemma_clean_group(c: Seq<u8>)
    requires
        1 <= c.len() <= 3,
    ensures
        b64_clean(encode_group(c)) == encode_group_bare(c),
{
    let g = encode_group(c);
    let c0 = c[0] as int;
    let c1 = if c.len() > 1 { c[1] as int } else { 0 };
    let c2 = if c.len() > 2 { c[2] as int } else { 0 };
    lemma_sym_val(c0 / 4);
    lemma_sym_val((c0 % 4) * 16 + c1 / 16);
    lemma_sym_val((c1 % 16) * 4 + c2 / 64);
    lemma_sym_val(c2 % 64);
    let f = |ch: char| b64_keep(ch);
    let e = Seq::<char>::empty();
    assert(g =~= e.push(g[0]).push(g[1]).push(g[2]).push(g[3]));
    reveal(Seq::filter);
    assert(e.filter(f) =~= e);
    e.lemma_filter_push(g[0], f);
    e.push(g[0]).lemma_filter_push(g[1], f);
    e.push(g[0]).push(g[1]).lemma_filter_push(g[2], f);
    e.push(g[0]).push(g[1]).push(g[2]).lemma_filter_push(g[3], f);
    assert(b64_clean(g) =~= encode_group_bare(c));
}

proof fn lemma_clean_encode(d: Seq<u8>)
    ensures
        b64_clean(b64_encode_spec(d)) == b64_encode_bare(d),
    decreases d.len(),
{
    if d.len() == 0 {
        reveal(Seq::filter);
    } else if d.len() <= 3 {
        lemma_clean_group(d);
    } else {
        lemma_clean_group(d.take(3));
        lemma_clean_encode(d.skip(3));
        Seq::filter_distributes_over_add(
            encode_group(d.take(3)),
            b64_encode_spec(d.skip(3)),
            |ch: char| b64_keep(ch),
        );
    }
}

proof fn lemma_bare_len(d: Seq<u8>)
    ensures
        d.len() > 0 ==> b64_encode_bare(d).len() > 0,
        b64_encode_bare(d).len() % 4 != 1,
        d.len() > 3 ==> b64_encode_bare(d).len() >= 4,
    decreases d.len(),
{
    if d.len() > 3 {
        lemma_bare_len(d.skip(3));
    }
}

proof fn lemma_decode_group_bare(c: Seq<u8>)
    requires
        1 <= c.len() <= 3,
    ensures
        decode_group(encode_group_bare(c)) == Some(c),
{
    let g = encode_group_bare(c);
    let c0 = c[0];
    let c1: u8 = if c.len() > 1 { c[1] } else { 0 };
    let c2: u8 = if c.len() > 2 { c[2] } else { 0 };
    let v0 = c0 / 4;
    let v1 = ((c0 % 4) * 16 + c1 / 16) as u8;
    let v2 = ((c1 % 16) * 4 + c2 / 64) as u8;
    let v3 = c2 % 64;
    lemma_sym_val(v0 as int);
    lemma_sym_val(v1 as int);
    lemma_sym_val(v2 as int);
    lemma_sym_val(v3 as int);
    lemma_group_bits(c0, c1, c2, v0, v1, v2, v3);
    assert(forall|i: int| 0 <= i < g.len() ==> #[trigger] b64_val(g[i]) is Some);
    let o = decode_group(g).unwrap();
    assert(o =~= c);
}

proof fn lemma_decode_bare(d: Seq<u8>)
    ensures
        decode_groups(b64_encode_bare(d)) == Some(d),
    decreases d.len(),
{
    let e = b64_encode_bare(d);
    if d.len() == 0 {
    } else if d.len() <= 3 {
        lemma_decode_group_bare(d);
        assert(e.len() == d.len() + 1);
        assert(e.take(e.len() as int) =~= e);
        assert(e.skip(e.len() as int) =~= Seq::<char>::empty());
        assert(decode_groups(Seq::<char>::empty()) == Some(Seq::<u8>::empty()));
        assert(d + Seq::<u8>::empty() =~= d);
    } else {
        lemma_decode_group_bare(d.take(3));
        lemma_decode_bare(d.skip(3));
        lemma_bare_len(d);
        let head = encode_group_bare(d.take(3));
        assert(head.len() == 4);
        assert(e.take(4) =~= head);
        assert(e.skip(4) =~= b64_encode_bare(d.skip(3)));
        assert(d.take(3) + d.skip(3) =~= d);
        assert(e.len() >= 4);
    }
}

/// Decoding what `b64_encode` produced gives the same bytes back, for
/// every non-empty input (the empty input encodes to the empty text, which
/// the decoder refuses).
pub proof fn lemma_b64_roundtrip(d: Seq<u8>)
    requires
        d.len() > 0,
    ensures
        b64_decode_spec(b64_encode_spec(d)) == Some(d),
{
    lemma_clean_encode(d);
    lemma_bare_len(d);
    lemma_decode_bare(d);
}

} // verus!
