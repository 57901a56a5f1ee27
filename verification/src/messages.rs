//! Builders for the RustDesk protobuf messages the controller sends.

use vstd::prelude::*;
use vstd::string::StringSliceAdditionalSpecFns;
use crate::wire::{
    bytes_field, encodable, encode_bytes, encode_field, encode_fields, encode_sint32_field,
    encode_string, encode_varint_field, fields_of, lemma_encode_fields_append,
    lemma_fields_roundtrip, lemma_varint_len, varint_field, zigzag, WireValue,
};

verus! {

/// `field: 1` when `cond` holds, nothing otherwise.
pub open spec fn flag_field(cond: bool, field: u32) -> Seq<u8> {
    if cond {
        varint_field(field, 1)
    } else {
        Seq::empty()
    }
}

/// One varint field 8 per modifier key, in order.
pub open spec fn modifier_fields(mods: Seq<u32>) -> Seq<u8>
    decreases mods.len(),
{
    if mods.len() == 0 {
        Seq::empty()
    } else {
        modifier_fields(mods.drop_last()) + varint_field(8, mods.last() as u64)
    }
}

/// Message.mouse_event (10): MouseEvent { mask, x, y } with zigzag coordinates.
pub open spec fn mouse_event_msg(mask: i32, x: i32, y: i32) -> Seq<u8> {
    bytes_field(
        10,
        varint_field(1, mask as u64) + varint_field(2, zigzag(x)) + varint_field(3, zigzag(y)),
    )
}

pub fn build_mouse_event(mask: i32, x: i32, y: i32) -> (m: Vec<u8>)
    ensures
        m@ == mouse_event_msg(mask, x, y),
{
    let mut inner: Vec<u8> = Vec::new();
    encode_varint_field(&mut inner, 1, mask as u64);
    encode_sint32_field(&mut inner, 2, x);
    encode_sint32_field(&mut inner, 3, y);
    let mut msg: Vec<u8> = Vec::new();
    encode_bytes(&mut msg, 10, inner.as_slice());
    assert(inner@ =~= varint_field(1, mask as u64) + varint_field(2, zigzag(x)) + varint_field(
        3,
        zigzag(y),
    ));
    assert(msg@ =~= mouse_event_msg(mask, x, y));
    msg
}

fn push_modifiers(inner: &mut Vec<u8>, modifiers: &[u32])
    ensures
        final(inner)@ == old(inner)@ + modifier_fields(modifiers@),
{
    let ghost start = inner@;
    let mut i: usize = 0;
    while i < modifiers.len()
        invariant
            i <= modifiers@.len(),
            inner@ == start + modifier_fields(modifiers@.take(i as int)),
        decreases modifiers.len() - i,
    {
        encode_varint_field(inner, 8, modifiers[i] as u64);
        assert(modifiers@.take(i + 1).drop_last() =~= modifiers@.take(i as int));
        i = i + 1;
        assert(inner@ =~= start + modifier_fields(modifiers@.take(i as int)));
    }
    assert(modifiers@.take(i as int) =~= modifiers@);
}

/// Message.key_event (15) carrying a key: optional down (1) and press (2)
/// flags, the key in field `key_field`, the modifiers (8) and the legacy
/// keyboard mode (9 = 0).
pub open spec fn key_event_msg(
    key_field: u32,
    key: u32,
    modifiers: Seq<u32>,
    down: bool,
    press: bool,
) -> Seq<u8> {
    bytes_field(
        15,
        flag_field(down, 1) + flag_field(press, 2) + varint_field(key_field, key as u64)
            + modifier_fields(modifiers) + varint_field(9, 0),
    )
}

fn build_key_event(key_field: u32, key: u32, modifiers: &[u32], down: bool, press: bool) -> (m: Vec<
    u8,
>)
    ensures
        m@ == key_event_msg(key_field, key, modifiers@, down, press),
{
    let mut inner: Vec<u8> = Vec::new();
    if down {
        encode_varint_field(&mut inner, 1, 1);
    }
    if press {
        encode_varint_field(&mut inner, 2, 1);
    }
    encode_varint_field(&mut inner, key_field, key as u64);
    push_modifiers(&mut inner, modifiers);
    encode_varint_field(&mut inner, 9, 0);
    let mut msg: Vec<u8> = Vec::new();
    encode_bytes(&mut msg, 15, inner.as_slice());
    assert(inner@ =~= flag_field(down, 1) + flag_field(press, 2) + varint_field(
        key_field,
        key as u64,
    ) + modifier_fields(modifiers@) + varint_field(9, 0));
    msg
}

/// A character key event (KeyEvent.chr, field 4).
pub fn build_key_chr(chr: u32, down: bool, press: bool) -> (m: Vec<u8>)
    ensures
        m@ == key_event_msg(4, chr, Seq::empty(), down, press),
{
    build_key_chr_mod(chr, &[], down, press)
}

pub fn build_key_chr_mod(chr: u32, modifiers: &[u32], down: bool, press: bool) -> (m: Vec<u8>)
    ensures
        m@ == key_event_msg(4, chr, modifiers@, down, press),
{
    build_key_event(4, chr, modifiers, down, press)
}

/// A control key event (KeyEvent.control_key, field 3).
pub fn build_key_control(code: u32, down: bool, press: bool) -> (m: Vec<u8>)
    ensures
        m@ == key_event_msg(3, code, Seq::empty(), down, press),
{
    build_key_control_mod(code, &[], down, press)
}

pub fn build_key_control_mod(code: u32, modifiers: &[u32], down: bool, press: bool) -> (m: Vec<u8>)
    ensures
        m@ == key_event_msg(3, code, modifiers@, down, press),
{
    build_key_event(3, code, modifiers, down, press)
}

/// Message.key_event (15) typing `text` as one legacy key sequence
/// (press, seq = text, legacy mode), as RustDesk does for OS passwords.
pub open spec fn key_seq_msg(text: Seq<u8>) -> Seq<u8> {
    bytes_field(15, varint_field(2, 1) + bytes_field(6, text) + varint_field(9, 0))
}

pub fn build_key_seq(text: &str) -> (m: Vec<u8>)
    ensures
        m@ == key_seq_msg(text.spec_bytes()),
{
    let mut inner: Vec<u8> = Vec::new();
    encode_varint_field(&mut inner, 2, 1);
    encode_string(&mut inner, 6, text);
    encode_varint_field(&mut inner, 9, 0);
    let mut msg: Vec<u8> = Vec::new();
    encode_bytes(&mut msg, 15, inner.as_slice());
    assert(inner@ =~= varint_field(2, 1) + bytes_field(6, text.spec_bytes()) + varint_field(9, 0));
    msg
}

/// RendezvousMessage.punch_hole_request (8): peer id, NAT type (2 = symmetric
/// when relaying is forced, else 0 = unknown), licence key when there is one,
/// version "1.4.0", and force_relay when forced.
pub open spec fn punch_request_msg(peer_id: Seq<u8>, licence_key: Seq<u8>, force_relay: bool) -> Seq<
    u8,
> {
    bytes_field(
        8,
        bytes_field(1, peer_id) + varint_field(2, if force_relay { 2 } else { 0 }) + if licence_key.len()
            > 0 {
            bytes_field(3, licence_key)
        } else {
            Seq::empty()
        } + bytes_field(6, "1.4.0".spec_bytes()) + flag_field(force_relay, 8),
    )
}

pub fn build_punch_request(peer_id: &str, licence_key: &str, force_relay: bool) -> (m: Vec<u8>)
    ensures
        m@ == punch_request_msg(peer_id.spec_bytes(), licence_key.spec_bytes(), force_relay),
{
    let mut inner: Vec<u8> = Vec::new();
    encode_string(&mut inner, 1, peer_id);
    encode_varint_field(&mut inner, 2, if force_relay { 2 } else { 0 });
    let ghost mid = inner@;
    if !licence_key.is_empty() {
        encode_string(&mut inner, 3, licence_key);
    }
    proof {
        vstd::utf8::encode_utf8_valid_utf8(licence_key@);
        if licence_key@.len() == 0 {
            assert(licence_key.spec_bytes() =~= Seq::<u8>::empty()) by {
                reveal_with_fuel(vstd::utf8::encode_utf8, 1);
            }
        } else {
            lemma_nonempty_bytes(licence_key@);
        }
    }
    assert(inner@ == mid + if licence_key.spec_bytes().len() > 0 {
        bytes_field(3, licence_key.spec_bytes())
    } else {
        Seq::empty()
    });
    encode_string(&mut inner, 6, "1.4.0");
    if force_relay {
        encode_varint_field(&mut inner, 8, 1);
    }
    let mut msg: Vec<u8> = Vec::new();
    encode_bytes(&mut msg, 8, inner.as_slice());
    assert(inner@ =~= bytes_field(1, peer_id.spec_bytes()) + varint_field(
        2,
        if force_relay { 2 } else { 0 },
    ) + if licence_key.spec_bytes().len() > 0 {
        bytes_field(3, licence_key.spec_bytes())
    } else {
        Seq::empty()
    } + bytes_field(6, "1.4.0".spec_bytes()) + flag_field(force_relay, 8));
    msg
}

/// A non-empty string has non-empty UTF-8 bytes.
pub proof fn lemma_nonempty_bytes(s: Seq<char>)
    requires
        s.len() > 0,
    ensures
        vstd::utf8::encode_utf8(s).len() > 0,
{
    reveal_with_fuel(vstd::utf8::encode_utf8, 1);
}


/// `bytes_field(field, data)` when `data` is not empty, nothing otherwise.
pub open spec fn opt_bytes_field(field: u32, data: Seq<u8>) -> Seq<u8> {
    if data.len() > 0 {
        bytes_field(field, data)
    } else {
        Seq::empty()
    }
}

fn encode_opt_string(out: &mut Vec<u8>, field: u32, value: &str)
    ensures
        final(out)@ == old(out)@ + opt_bytes_field(field, value.spec_bytes()),
{
    let ghost start = out@;
    if !value.is_empty() {
        encode_string(out, field, value);
        proof {
            lemma_nonempty_bytes(value@);
        }
    } else {
        assert(value.spec_bytes() =~= Seq::<u8>::empty()) by {
            reveal_with_fuel(vstd::utf8::encode_utf8, 1);
        }
        assert(out@ =~= start + opt_bytes_field(field, value.spec_bytes()));
    }
}

/// RendezvousMessage.request_relay (18): peer id, uuid, relay server when
/// given, secure flag, licence key when given.
pub open spec fn request_relay_msg(
    peer_id: Seq<u8>,
    uuid: Seq<u8>,
    relay_server: Seq<u8>,
    licence_key: Seq<u8>,
    secure: bool,
) -> Seq<u8> {
    bytes_field(
        18,
        bytes_field(1, peer_id) + bytes_field(2, uuid) + opt_bytes_field(4, relay_server) + flag_field(
            secure,
            5,
        ) + opt_bytes_field(6, licence_key),
    )
}

pub fn build_request_relay(
    peer_id: &str,
    uuid: &str,
    relay_server: &str,
    licence_key: &str,
    secure: bool,
) -> (m: Vec<u8>)
    ensures
        m@ == request_relay_msg(
            peer_id.spec_bytes(),
            uuid.spec_bytes(),
            relay_server.spec_bytes(),
            licence_key.spec_bytes(),
            secure,
        ),
{
    let mut inner: Vec<u8> = Vec::new();
    encode_string(&mut inner, 1, peer_id);
    encode_string(&mut inner, 2, uuid);
    encode_opt_string(&mut inner, 4, relay_server);
    if secure {
        encode_varint_field(&mut inner, 5, 1);
    }
    encode_opt_string(&mut inner, 6, licence_key);
    let mut msg: Vec<u8> = Vec::new();
    encode_bytes(&mut msg, 18, inner.as_slice());
    assert(inner@ =~= bytes_field(1, peer_id.spec_bytes()) + bytes_field(2, uuid.spec_bytes())
        + opt_bytes_field(4, relay_server.spec_bytes()) + flag_field(secure, 5) + opt_bytes_field(
        6,
        licence_key.spec_bytes(),
    ));
    msg
}

proof fn lemma_one_field(f: (u32, WireValue))
    ensures
        encode_fields(seq![f]) == encode_field(f),
{
    assert(seq![f].drop_first() =~= Seq::<(u32, WireValue)>::empty());
    assert(encode_fields(Seq::<(u32, WireValue)>::empty()) == Seq::<u8>::empty());
    assert(seq![f][0] == f);
    assert(encode_field(f) + Seq::<u8>::empty() =~= encode_field(f));
}

/// The field list `field: data` when `data` is not empty, else no field.
spec fn opt_bytes_list(field: u32, data: Seq<u8>) -> Seq<(u32, WireValue)> {
    if data.len() > 0 {
        seq![(field, WireValue::Bytes(data))]
    } else {
        Seq::empty()
    }
}

proof fn lemma_opt_field(field: u32, data: Seq<u8>)
    ensures
        encode_fields(opt_bytes_list(field, data)) == opt_bytes_field(field, data),
        data.len() > 0 ==> opt_bytes_field(field, data).len() <= 20 + data.len(),
        data.len() == 0 ==> opt_bytes_field(field, data).len() == 0,
{
    if data.len() > 0 {
        lemma_one_field((field, WireValue::Bytes(data)));
        lemma_varint_len(((field << 3u32) | 2u32) as u64);
        lemma_varint_len(data.len() as u64);
    }
}

/// A relay request reads back as a single field 18 whose own fields are, in
/// order: the peer id (1), the uuid (2), the relay server (4) when one is
/// given, the secure flag (5, value 1) when set, and the licence key (6)
/// when one is given; a non-empty licence key is always the last field.
pub proof fn lemma_request_relay_fields(
    peer_id: Seq<u8>,
    uuid: Seq<u8>,
    relay_server: Seq<u8>,
    licence_key: Seq<u8>,
    secure: bool,
)
    requires
        peer_id.len() + uuid.len() + relay_server.len() + licence_key.len() <= 0xFFFF_0000,
    ensures
        ({
            let fs = fields_of(request_relay_msg(peer_id, uuid, relay_server, licence_key, secure));
            &&& fs.len() == 1
            &&& fs[0].0 == 18
            &&& fs[0].1 matches WireValue::Bytes(inner) && fields_of(inner) == seq![
                (1u32, WireValue::Bytes(peer_id)),
                (2u32, WireValue::Bytes(uuid)),
            ] + (if relay_server.len() > 0 {
                seq![(4u32, WireValue::Bytes(relay_server))]
            } else {
                Seq::empty()
            }) + (if secure {
                seq![(5u32, WireValue::Varint(1))]
            } else {
                Seq::empty()
            }) + (if licence_key.len() > 0 {
                seq![(6u32, WireValue::Bytes(licence_key))]
            } else {
                Seq::empty()
            })
            &&& licence_key.len() > 0 ==> (fs[0].1 matches WireValue::Bytes(inner) && fields_of(inner).last()
                == (6u32, WireValue::Bytes(licence_key)))
        }),
{
    let a = seq![(1u32, WireValue::Bytes(peer_id)), (2u32, WireValue::Bytes(uuid))];
    let b = opt_bytes_list(4, relay_server);
    let c: Seq<(u32, WireValue)> = if secure {
        seq![(5u32, WireValue::Varint(1))]
    } else {
        Seq::empty()
    };
    let d = opt_bytes_list(6, licence_key);
    let list = a + b + c + d;
    // The inner message is the encoding of the list.
    lemma_one_field((2u32, WireValue::Bytes(uuid)));
    assert(a.drop_first() =~= seq![(2u32, WireValue::Bytes(uuid))]);
    assert(encode_fields(a) == bytes_field(1, peer_id) + bytes_field(2, uuid));
    lemma_opt_field(4, relay_server);
    lemma_opt_field(6, licence_key);
    if secure {
        lemma_one_field((5u32, WireValue::Varint(1)));
        lemma_varint_len(((5u32 << 3u32) | 0u32) as u64);
        lemma_varint_len(1);
    }
    assert(encode_fields(c) == flag_field(secure, 5));
    lemma_encode_fields_append(a, b);
    lemma_encode_fields_append(a + b, c);
    lemma_encode_fields_append(a + b + c, d);
    let inner = bytes_field(1, peer_id) + bytes_field(2, uuid) + opt_bytes_field(4, relay_server)
        + flag_field(secure, 5) + opt_bytes_field(6, licence_key);
    assert(encode_fields(list) =~= inner);
    // Every field can be written, and the inner message fits a `usize`.
    assert(encodable(list)) by {
        assert forall|i: int| 0 <= i < list.len() implies #[trigger] list[i].0 < 0x2000_0000 && (
        list[i].1 matches WireValue::Bytes(x) ==> x.len() <= usize::MAX) by {}
    }
    lemma_varint_len(((1u32 << 3u32) | 2u32) as u64);
    lemma_varint_len(peer_id.len() as u64);
    lemma_varint_len(((2u32 << 3u32) | 2u32) as u64);
    lemma_varint_len(uuid.len() as u64);
    assert(inner.len() <= usize::MAX);
    lemma_fields_roundtrip(Seq::empty(), list);
    assert(Seq::<u8>::empty() + encode_fields(list) =~= encode_fields(list));
    assert(fields_of(inner) == list);
    // The message is one field 18 carrying the inner message.
    let outer = seq![(18u32, WireValue::Bytes(inner))];
    lemma_one_field((18u32, WireValue::Bytes(inner)));
    assert(encodable(outer));
    lemma_fields_roundtrip(Seq::empty(), outer);
    assert(Seq::<u8>::empty() + encode_fields(outer) =~= encode_fields(outer));
    assert(fields_of(request_relay_msg(peer_id, uuid, relay_server, licence_key, secure)) == outer);
    if licence_key.len() > 0 {
        assert(list.last() == (6u32, WireValue::Bytes(licence_key)));
    }
}

/// Message.public_key (4) with no keys: the client asks for an unencrypted
/// session.
pub open spec fn empty_public_key_msg() -> Seq<u8> {
    bytes_field(4, Seq::empty())
}

pub fn build_empty_public_key() -> (m: Vec<u8>)
    ensures
        m@ == empty_public_key_msg(),
{
    let mut msg: Vec<u8> = Vec::new();
    let empty: [u8; 0] = [];
    encode_bytes(&mut msg, 4, &empty);
    assert(empty@ =~= Seq::<u8>::empty());
    msg
}

/// The session profile: image quality NotSet (0), custom quality 100, 60 fps.
pub open spec fn spec_profile_knobs() -> (u32, u32, u32) {
    (0, 100, 60)
}

pub fn profile_knobs() -> (k: (u32, u32, u32))
    ensures
        k == spec_profile_knobs(),
{
    (0, 100, 60)
}

/// The high-quality queue limits are always in use.
pub fn use_hd_profile() -> (b: bool)
    ensures
        b,
{
    true
}

/// SupportedDecoding: no VP9, H.264 yes, H.265 yes, prefer H.265, no VP8,
/// no AV1.
pub open spec fn decoding_msg() -> Seq<u8> {
    varint_field(1, 0) + varint_field(2, 1) + varint_field(3, 1) + varint_field(4, 3) + varint_field(
        5,
        0,
    ) + varint_field(6, 0)
}

/// OptionMessage for the session profile: image quality, remote cursor off,
/// custom quality (value << 8) when the quality is NotSet and a custom one is
/// given, audio and clipboard disabled, the supported decoders, the frame
/// rate and keyboard enabled.
pub open spec fn option_msg() -> Seq<u8> {
    let (iq, quality, fps) = spec_profile_knobs();
    varint_field(1, iq as u64) + varint_field(3, 1) + if iq == 0 && quality > 0 {
        varint_field(6, ((quality as u64) * 256) as u64)
    } else {
        Seq::empty()
    } + varint_field(7, 2) + varint_field(8, 2) + bytes_field(10, decoding_msg()) + varint_field(
        11,
        fps as u64,
    ) + varint_field(12, 1)
}

pub fn build_option_message() -> (m: Vec<u8>)
    ensures
        m@ == option_msg(),
{
    let (iq, quality, fps) = profile_knobs();
    let mut decoding: Vec<u8> = Vec::new();
    encode_varint_field(&mut decoding, 1, 0);
    encode_varint_field(&mut decoding, 2, 1);
    encode_varint_field(&mut decoding, 3, 1);
    encode_varint_field(&mut decoding, 4, 3);
    encode_varint_field(&mut decoding, 5, 0);
    encode_varint_field(&mut decoding, 6, 0);
    assert(decoding@ =~= decoding_msg());
    let mut option: Vec<u8> = Vec::new();
    encode_varint_field(&mut option, 1, iq as u64);
    encode_varint_field(&mut option, 3, 1);
    if iq == 0 && quality > 0 {
        encode_varint_field(&mut option, 6, (quality as u64) << 8u64);
        assert((quality as u64) << 8u64 == ((quality as u64) * 256) as u64) by (bit_vector)
            requires
                quality < 0x1_0000_0000,
        ;
    }
    encode_varint_field(&mut option, 7, 2);
    encode_varint_field(&mut option, 8, 2);
    encode_bytes(&mut option, 10, decoding.as_slice());
    encode_varint_field(&mut option, 11, fps as u64);
    encode_varint_field(&mut option, 12, 1);
    assert(option@ =~= option_msg());
    option
}

/// Message.misc (19) with option (7) = OptionMessage { custom_image_quality
/// (6) = quality << 8 }.
pub open spec fn custom_image_quality_msg(quality: u32) -> Seq<u8> {
    bytes_field(19, bytes_field(7, varint_field(6, ((quality as u64) * 256) as u64)))
}

pub fn build_custom_image_quality(quality_0_100: u32) -> (m: Vec<u8>)
    ensures
        m@ == custom_image_quality_msg(quality_0_100),
{
    let mut option: Vec<u8> = Vec::new();
    let v = (quality_0_100 as u64) << 8u64;
    assert(v == ((quality_0_100 as u64) * 256) as u64) by (bit_vector)
        requires
            v == (quality_0_100 as u64) << 8u64,
            quality_0_100 < 0x1_0000_0000,
    ;
    encode_varint_field(&mut option, 6, v);
    let mut misc: Vec<u8> = Vec::new();
    encode_bytes(&mut misc, 7, option.as_slice());
    let mut msg: Vec<u8> = Vec::new();
    encode_bytes(&mut msg, 19, misc.as_slice());
    msg
}

/// Message.login_request (7): peer id, password proof, user name
/// "harmonydesk-ohos", client name "HarmonyDesk", the option message, no
/// video acknowledgements, the session id, version "1.4.0", platform
/// "Android".
pub open spec fn login_request_msg(peer_id: Seq<u8>, password_hash: Seq<u8>, session_id: u64) -> Seq<
    u8,
> {
    bytes_field(
        7,
        bytes_field(1, peer_id) + bytes_field(2, password_hash) + bytes_field(
            4,
            "harmonydesk-ohos".spec_bytes(),
        ) + bytes_field(5, "HarmonyDesk".spec_bytes()) + bytes_field(6, option_msg()) + varint_field(
            9,
            0,
        ) + varint_field(10, session_id) + bytes_field(11, "1.4.0".spec_bytes()) + bytes_field(
            13,
            "Android".spec_bytes(),
        ),
    )
}

pub fn build_login_request(peer_id: &str, password_hash: &[u8], session_id: u64) -> (m: Vec<u8>)
    ensures
        m@ == login_request_msg(peer_id.spec_bytes(), password_hash@, session_id),
{
    let mut inner: Vec<u8> = Vec::new();
    encode_string(&mut inner, 1, peer_id);
    encode_bytes(&mut inner, 2, password_hash);
    encode_string(&mut inner, 4, "harmonydesk-ohos");
    encode_string(&mut inner, 5, "HarmonyDesk");
    let option = build_option_message();
    encode_bytes(&mut inner, 6, option.as_slice());
    encode_varint_field(&mut inner, 9, 0);
    encode_varint_field(&mut inner, 10, session_id);
    encode_string(&mut inner, 11, "1.4.0");
    encode_string(&mut inner, 13, "Android");
    let mut msg: Vec<u8> = Vec::new();
    encode_bytes(&mut msg, 7, inner.as_slice());
    assert(inner@ =~= bytes_field(1, peer_id.spec_bytes()) + bytes_field(2, password_hash@)
        + bytes_field(4, "harmonydesk-ohos".spec_bytes()) + bytes_field(5, "HarmonyDesk".spec_bytes())
        + bytes_field(6, option_msg()) + varint_field(9, 0) + varint_field(10, session_id)
        + bytes_field(11, "1.4.0".spec_bytes()) + bytes_field(13, "Android".spec_bytes()));
    msg
}

/// Message.misc (19) carrying one varint field.
pub open spec fn misc_varint_msg(field: u32, value: u64) -> Seq<u8> {
    bytes_field(19, varint_field(field, value))
}

/// Message.misc (19) carrying an OptionMessage (7).
pub open spec fn misc_option_msg(option: Seq<u8>) -> Seq<u8> {
    bytes_field(19, bytes_field(7, option))
}

fn build_misc_varint(field: u32, value: u64) -> (m: Vec<u8>)
    ensures
        m@ == misc_varint_msg(field, value),
{
    let mut misc: Vec<u8> = Vec::new();
    encode_varint_field(&mut misc, field, value);
    let mut msg: Vec<u8> = Vec::new();
    encode_bytes(&mut msg, 19, misc.as_slice());
    msg
}

fn build_misc_option(option: &[u8]) -> (m: Vec<u8>)
    ensures
        m@ == misc_option_msg(option@),
{
    let mut misc: Vec<u8> = Vec::new();
    encode_bytes(&mut misc, 7, option);
    let mut msg: Vec<u8> = Vec::new();
    encode_bytes(&mut msg, 19, misc.as_slice());
    msg
}

/// Misc.refresh_video (10) = true.
pub fn build_refresh_video() -> (m: Vec<u8>)
    ensures
        m@ == misc_varint_msg(10, 1),
{
    build_misc_varint(10, 1)
}

/// Misc.video_received (12) = true.
pub fn build_video_received() -> (m: Vec<u8>)
    ensures
        m@ == misc_varint_msg(12, 1),
{
    build_misc_varint(12, 1)
}

/// Misc.capture_displays (30) = CaptureDisplays { set: [0] }.
pub open spec fn capture_displays_msg() -> Seq<u8> {
    bytes_field(19, bytes_field(30, varint_field(3, 0)))
}

pub fn build_capture_displays() -> (m: Vec<u8>)
    ensures
        m@ == capture_displays_msg(),
{
    let mut capture: Vec<u8> = Vec::new();
    encode_varint_field(&mut capture, 3, 0);
    let mut misc: Vec<u8> = Vec::new();
    encode_bytes(&mut misc, 30, capture.as_slice());
    let mut msg: Vec<u8> = Vec::new();
    encode_bytes(&mut msg, 19, misc.as_slice());
    msg
}

/// Misc.option carrying the session profile's OptionMessage.
pub fn build_option_misc() -> (m: Vec<u8>)
    ensures
        m@ == misc_option_msg(option_msg()),
{
    let option = build_option_message();
    build_misc_option(option.as_slice())
}

/// Message.test_delay (5) echoed back unchanged.
pub fn build_test_delay_reply(inner: &[u8]) -> (m: Vec<u8>)
    ensures
        m@ == bytes_field(5, inner@),
{
    let mut msg: Vec<u8> = Vec::new();
    encode_bytes(&mut msg, 5, inner);
    msg
}

/// Misc.auto_adjust_fps (28) = fps.
pub fn build_auto_fps(fps: u32) -> (m: Vec<u8>)
    ensures
        m@ == misc_varint_msg(28, fps as u64),
{
    build_misc_varint(28, fps as u64)
}

/// Misc.option = OptionMessage { custom_fps (11) = fps }.
pub fn build_custom_fps(fps: u32) -> (m: Vec<u8>)
    ensures
        m@ == misc_option_msg(varint_field(11, fps as u64)),
{
    let mut option: Vec<u8> = Vec::new();
    encode_varint_field(&mut option, 11, fps as u64);
    build_misc_option(option.as_slice())
}

/// Misc.option = OptionMessage { image_quality (1) = quality } (Low 2,
/// Balanced 3, Best 4; NotSet 0).
pub fn build_image_quality(quality: u32) -> (m: Vec<u8>)
    ensures
        m@ == misc_option_msg(varint_field(1, quality as u64)),
{
    let mut option: Vec<u8> = Vec::new();
    encode_varint_field(&mut option, 1, quality as u64);
    build_misc_option(option.as_slice())
}

} // verus!
