//! What the rendezvous (hbbs) and relay servers and the peer answer: the
//! punch-hole and relay responses, the mangled peer address, and the login
//! exchange that follows a relay or direct connection.

use vstd::prelude::*;
use vstd::utf8::{decode_utf8, valid_utf8};
use crate::text::{decimal, push_decimal, string_from_chars};
use crate::wire::{
    fields_from, fields_of, lemma_fields_step, next_field, ProtoValue, WireValue,
};

verus! {

/// The text `String::from_utf8_lossy` makes of `bytes`.
pub uninterp spec fn utf8_lossy(bytes: Seq<u8>) -> Seq<char>;

/// `String::from_utf8_lossy(bytes).into_owned()`: the named text of `bytes`,
/// which is empty exactly when `bytes` is (every byte sequence, valid or
/// not, yields at least one character) and is the decoded text when `bytes`
/// is valid UTF-8. What replaces invalid sequences is not stated here.
#[verifier::external_body]
fn lossy_string(bytes: &[u8]) -> (s: String)
    ensures
        s@ == utf8_lossy(bytes@),
        (s@.len() == 0) == (bytes@.len() == 0),
        valid_utf8(bytes@) ==> s@ == decode_utf8(bytes@),
{
    String::from_utf8_lossy(bytes).into_owned()
}

/// The text a string field carries: the decoded text when its bytes are
/// valid UTF-8, and otherwise what `String::from_utf8_lossy` makes of them.
pub open spec fn field_text(bytes: Seq<u8>) -> Seq<char> {
    if valid_utf8(bytes) {
        decode_utf8(bytes)
    } else {
        utf8_lossy(bytes)
    }
}

/// The bytes of the first length-delimited field numbered `n` among `fs`.
pub open spec fn first_bytes_field(fs: Seq<(u32, WireValue)>, n: u32) -> Option<Seq<u8>>
    decreases fs.len(),
{
    if fs.len() == 0 {
        None
    } else {
        match fs[0] {
            (f, WireValue::Bytes(b)) => if f == n {
                Some(b)
            } else {
                first_bytes_field(fs.drop_first(), n)
            },
            _ => first_bytes_field(fs.drop_first(), n),
        }
    }
}

/// The first length-delimited field numbered `n` of `payload`, read up to
/// the first field that cannot be read.
pub fn find_bytes_field<'a>(payload: &'a [u8], n: u32) -> (r: Option<&'a [u8]>)
    ensures
        match first_bytes_field(fields_of(payload@), n) {
            Some(b) => r matches Some(s) && s@ == b,
            None => r is None,
        },
{
    let mut index: usize = 0;
    loop
        invariant
            first_bytes_field(fields_of(payload@), n) == first_bytes_field(
                fields_from(payload@, index as int),
                n,
            ),
        decreases payload.len() - index,
    {
        let ghost i0 = index as int;
        proof {
            lemma_fields_step(payload@, i0);
        }
        match next_field(payload, &mut index) {
            Some((field, value)) => {
                proof {
                    let rest = fields_from(payload@, index as int);
                    assert((seq![(field, value@)] + rest).drop_first() =~= rest);
                }
                match value {
                    ProtoValue::Bytes(b) => {
                        if field == n {
                            return Some(b);
                        }
                    },
                    ProtoValue::Varint(_) => {},
                }
            },
            None => {
                return None;
            },
        }
    }
}

/// Little-endian value of `s`.
pub open spec fn le_value(s: Seq<u8>) -> nat
    decreases s.len(),
{
    if s.len() == 0 {
        0
    } else {
        (s[0] + 256 * le_value(s.drop_first())) as nat
    }
}

pub open spec fn pow256(k: nat) -> nat
    decreases k,
{
    if k == 0 {
        1
    } else {
        256 * pow256((k - 1) as nat)
    }
}

proof fn lemma_le_value_bound(s: Seq<u8>)
    ensures
        le_value(s) < pow256(s.len()),
    decreases s.len(),
{
    if s.len() > 0 {
        lemma_le_value_bound(s.drop_first());
    }
}

/// The `a.b.c.d:port` text of an IPv4 socket address whose address bytes,
/// in order, are the little-endian bytes of `ip`.
pub open spec fn socket_text(ip: int, port: int) -> Seq<char> {
    decimal((ip % 256) as nat) + "."@ + decimal(((ip / 256) % 256) as nat) + "."@ + decimal(
        ((ip / 0x1_0000) % 256) as nat,
    ) + "."@ + decimal(((ip / 0x100_0000) % 256) as nat) + ":"@ + decimal(port as nat)
}

/// RustDesk's mangled IPv4 address (`AddrMangle`): up to sixteen bytes read
/// as a little-endian number `n`, whose bits 17 to 48 hold a timestamp `tm`;
/// the address is `n >> 49` less `tm` (kept to 32 bits) and the port is the
/// low 24 bits less the low 16 bits of `tm`. A port outside 1 to 65535
/// (also a negative one) means no address.
pub open spec fn mangled_addr(bytes: Seq<u8>) -> Option<Seq<char>> {
    if bytes.len() == 0 || bytes.len() > 16 {
        None
    } else {
        let n = le_value(bytes);
        let tm = (n / 0x20000) % 0x1_0000_0000;
        let ip = ((n / 0x2_0000_0000_0000) - tm) % 0x1_0000_0000;
        let port = (n % 0x100_0000) - (tm % 0x1_0000);
        if port <= 0 || port > 65535 {
            None
        } else {
            Some(socket_text(ip, port))
        }
    }
}

fn push_one_char(out: &mut Vec<char>, c: char)
    ensures
        final(out)@ == old(out)@.push(c),
{
    out.push(c);
}

fn le_number(bytes: &[u8]) -> (n: u128)
    requires
        bytes@.len() <= 16,
    ensures
        n == le_value(bytes@),
{
    let len = bytes.len();
    let mut number: u128 = 0;
    let mut i: usize = len;
    proof {
        assert(bytes@.subrange(len as int, len as int) =~= Seq::<u8>::empty());
        assert(pow256(16) == 0x1_0000_0000_0000_0000_0000_0000_0000_0000) by {
            reveal_with_fuel(pow256, 17);
        }
    }
    while i > 0
        invariant
            len == bytes@.len(),
            len <= 16,
            i <= len,
            number == le_value(bytes@.subrange(i as int, len as int)),
            number < pow256((len - i) as nat),
            pow256(16) == 0x1_0000_0000_0000_0000_0000_0000_0000_0000,
        decreases i,
    {
        proof {
            lemma_le_value_bound(bytes@.subrange(i - 1, len as int));
            assert(bytes@.subrange(i - 1, len as int).drop_first() =~= bytes@.subrange(
                i as int,
                len as int,
            ));
            lemma_pow256_mono((len - i + 1) as nat, 16);
            assert(pow256((len - i + 1) as nat) == 256 * pow256((len - i) as nat));
        }
        i = i - 1;
        number = number * 256 + bytes[i] as u128;
    }
    assert(bytes@.subrange(0, len as int) =~= bytes@);
    number
}

fn socket_string(ipv: u128, port: u128) -> (s: String)
    requires
        ipv < 0x1_0000_0000,
        port <= 65535,
    ensures
        s@ == socket_text(ipv as int, port as int),
{
    let mut out: Vec<char> = Vec::new();
    push_decimal(&mut out, (ipv % 256) as u64);
    push_one_char(&mut out, '.');
    push_decimal(&mut out, ((ipv / 256) % 256) as u64);
    push_one_char(&mut out, '.');
    push_decimal(&mut out, ((ipv / 0x1_0000) % 256) as u64);
    push_one_char(&mut out, '.');
    push_decimal(&mut out, ((ipv / 0x100_0000) % 256) as u64);
    push_one_char(&mut out, ':');
    push_decimal(&mut out, port as u64);
    proof {
        reveal_strlit(".");
        reveal_strlit(":");
        assert(out@ =~= socket_text(ipv as int, port as int));
    }
    string_from_chars(out.as_slice())
}

/// Decodes a mangled IPv4 peer address into `a.b.c.d:port`.
pub fn decode_addr_mangle(bytes: &[u8]) -> (r: Option<String>)
    ensures
        match mangled_addr(bytes@) {
            Some(a) => r matches Some(s) && s@ == a,
            None => r is None,
        },
{
    if bytes.len() == 0 || bytes.len() > 16 {
        return None;
    }
    let number = le_number(bytes);
    let tm = (number / 0x20000) % 0x1_0000_0000;
    let hi = number / 0x2_0000_0000_0000;
    let ipv = ((hi % 0x1_0000_0000) + 0x1_0000_0000 - tm) % 0x1_0000_0000;
    proof {
        let m: int = 0x1_0000_0000;
        vstd::arithmetic::div_mod::lemma_mod_add_multiples_vanish((hi % 0x1_0000_0000) - tm, m);
        vstd::arithmetic::div_mod::lemma_sub_mod_noop(hi as int, tm as int, m);
        assert(ipv == (hi - tm) % m);
    }
    let pn = number % 0x100_0000;
    let pt = tm % 0x1_0000;
    if pn < pt {
        return None;
    }
    let port = pn - pt;
    if port == 0 || port > 65535 {
        return None;
    }
    Some(socket_string(ipv, port))
}

proof fn lemma_pow256_mono(a: nat, b: nat)
    requires
        a <= b,
    ensures
        pow256(a) <= pow256(b),
    decreases b,
{
    if a < b {
        lemma_pow256_mono(a, (b - 1) as nat);
    }
}

/// What a `PunchHoleResponse` holds, as a reader keeps it: each field
/// overwrites what an earlier one of its number set.
pub struct PunchFields {
    /// The decoded peer address (field 1), empty when none decoded.
    pub addr: Seq<char>,
    /// The failure code (field 3).
    pub failure: Option<u64>,
    /// The relay server (field 4).
    pub relay: Seq<char>,
    /// Another failure, as text (field 7).
    pub other: Seq<char>,
}

pub open spec fn punch_step(st: PunchFields, f: (u32, WireValue)) -> PunchFields {
    match f.1 {
        WireValue::Bytes(b) => if f.0 == 1 && b.len() > 0 {
            match mangled_addr(b) {
                Some(a) => PunchFields { addr: a, ..st },
                None => st,
            }
        } else if f.0 == 4 {
            PunchFields { relay: field_text(b), ..st }
        } else if f.0 == 7 {
            PunchFields { other: field_text(b), ..st }
        } else {
            st
        },
        WireValue::Varint(v) => if f.0 == 3 {
            PunchFields { failure: Some(v), ..st }
        } else {
            st
        },
    }
}

/// The punch fields gathered from `fs`, read in order.
pub open spec fn punch_scan(fs: Seq<(u32, WireValue)>) -> PunchFields
    decreases fs.len(),
{
    if fs.len() == 0 {
        PunchFields { addr: Seq::empty(), failure: None, relay: Seq::empty(), other: Seq::empty() }
    } else {
        punch_step(punch_scan(fs.drop_last()), fs.last())
    }
}

/// The name of a punch-hole failure code.
pub open spec fn failure_name(code: u64) -> Seq<char> {
    if code == 0 {
        "ID_NOT_EXIST"@
    } else if code == 2 {
        "OFFLINE"@
    } else if code == 3 {
        "LICENSE_MISMATCH"@
    } else if code == 4 {
        "LICENSE_OVERUSE"@
    } else {
        "UNKNOWN_FAILURE"@
    }
}

/// The verdict a punch-hole response gives: another failure's text, else
/// the failure's name, else the direct address (with the relay after `|`),
/// else the relay, else `EMPTY_RESPONSE`.
pub open spec fn punch_detail(st: PunchFields) -> Seq<char> {
    if st.other.len() > 0 {
        "other_failure:"@ + st.other
    } else if st.failure is Some {
        failure_name(st.failure->0)
    } else if st.addr.len() > 0 {
        if st.relay.len() == 0 {
            "ONLINE_DIRECT "@ + st.addr
        } else {
            "ONLINE_DIRECT "@ + st.addr + "|"@ + st.relay
        }
    } else if st.relay.len() > 0 {
        "ONLINE_RELAY "@ + st.relay
    } else {
        "EMPTY_RESPONSE"@
    }
}

/// The verdict of the punch-hole response (field 11) that `payload` carries,
/// if it carries one.
pub open spec fn punch_response(payload: Seq<u8>) -> Option<Seq<char>> {
    match first_bytes_field(fields_of(payload), 11) {
        Some(inner) => Some(punch_detail(punch_scan(fields_of(inner)))),
        None => None,
    }
}

/// A punch-hole response whose last field is the failure code (field 3),
/// and which carries no other failure text, gets the verdict that
/// `PunchHoleResponse.Failure` names for the code: 0 ID_NOT_EXIST,
/// 2 OFFLINE, 3 LICENSE_MISMATCH, 4 LICENSE_OVERUSE, and UNKNOWN_FAILURE for
/// any other code, whatever address or relay came before it.
pub proof fn lemma_punch_failure_verdicts(fs: Seq<(u32, WireValue)>, code: u64)
    requires
        punch_scan(fs).other.len() == 0,
    ensures
        ({
            let v = punch_detail(punch_scan(fs.push((3u32, WireValue::Varint(code)))));
            &&& code == 0 ==> v == "ID_NOT_EXIST"@
            &&& code == 2 ==> v == "OFFLINE"@
            &&& code == 3 ==> v == "LICENSE_MISMATCH"@
            &&& code == 4 ==> v == "LICENSE_OVERUSE"@
            &&& (code == 1 || code > 4) ==> v == "UNKNOWN_FAILURE"@
        }),
{
    let t = fs.push((3u32, WireValue::Varint(code)));
    assert(t.drop_last() =~= fs);
    assert(t.last() == (3u32, WireValue::Varint(code)));
}

fn failure_text(code: u64) -> (s: &'static str)
    ensures
        s@ == failure_name(code),
{
    if code == 0 {
        "ID_NOT_EXIST"
    } else if code == 2 {
        "OFFLINE"
    } else if code == 3 {
        "LICENSE_MISMATCH"
    } else if code == 4 {
        "LICENSE_OVERUSE"
    } else {
        "UNKNOWN_FAILURE"
    }
}

fn scan_punch_fields(inner: &[u8]) -> (r: (String, Option<u64>, String, String))
    ensures
        punch_scan(fields_of(inner@)) == (PunchFields {
            addr: r.0@,
            failure: r.1,
            relay: r.2@,
            other: r.3@,
        }),
{
    let mut index: usize = 0;
    let mut failure: Option<u64> = None;
    let mut relay = String::new();
    let mut other = String::new();
    let mut peer_addr = String::new();
    let ghost mut done: Seq<(u32, WireValue)> = Seq::empty();
    loop
        invariant_except_break
            fields_of(inner@) == done + fields_from(inner@, index as int),
        invariant
            punch_scan(done) == (PunchFields {
                addr: peer_addr@,
                failure,
                relay: relay@,
                other: other@,
            }),
        ensures
            fields_of(inner@) == done,
        decreases inner.len() - index,
    {
        let ghost i0 = index as int;
        proof {
            lemma_fields_step(inner@, i0);
        }
        match next_field(inner, &mut index) {
            Some((field, value)) => {
                proof {
                    assert(done.push((field, value@)).drop_last() =~= done);
                }
                match value {
                    ProtoValue::Bytes(b) => {
                        if field == 1 && b.len() > 0 {
                            match decode_addr_mangle(b) {
                                Some(sa) => {
                                    peer_addr = sa;
                                },
                                None => {},
                            }
                        } else if field == 4 {
                            relay = lossy_string(b);
                        } else if field == 7 {
                            other = lossy_string(b);
                        }
                    },
                    ProtoValue::Varint(code) => {
                        if field == 3 {
                            failure = Some(code);
                        }
                    },
                }
                proof {
                    done = done.push((field, value@));
                    assert(fields_of(inner@) =~= done + fields_from(inner@, index as int));
                }
            },
            None => {
                assert(done + fields_from(inner@, i0) =~= done);
                break ;
            },
        }
    }
    (peer_addr, failure, relay, other)
}

fn punch_detail_of(inner: &[u8]) -> (s: String)
    ensures
        s@ == punch_detail(punch_scan(fields_of(inner@))),
{
    let (peer_addr, failure, relay, other) = scan_punch_fields(inner);
    if !other.as_str().is_empty() {
        let mut s = String::from_str("other_failure:");
        s.append(other.as_str());
        return s;
    }
    match failure {
        Some(code) => {
            return String::from_str(failure_text(code));
        },
        None => {},
    }
    if !peer_addr.as_str().is_empty() {
        let mut s = String::from_str("ONLINE_DIRECT ");
        s.append(peer_addr.as_str());
        if !relay.as_str().is_empty() {
            s.append("|");
            s.append(relay.as_str());
        }
        return s;
    }
    if !relay.as_str().is_empty() {
        let mut s = String::from_str("ONLINE_RELAY ");
        s.append(relay.as_str());
        return s;
    }
    String::from_str("EMPTY_RESPONSE")
}

/// The verdict of the punch-hole response in `payload`: `other_failure:…`,
/// a failure name, `ONLINE_DIRECT addr[|relay]`, `ONLINE_RELAY relay` or
/// `EMPTY_RESPONSE`; `None` when the payload holds no such response.
pub fn parse_punch_response(payload: &[u8]) -> (r: Option<String>)
    ensures
        match punch_response(payload@) {
            Some(d) => r matches Some(s) && s@ == d,
            None => r is None,
        },
{
    match find_bytes_field(payload, 11) {
        Some(inner) => Some(punch_detail_of(inner)),
        None => None,
    }
}

/// What a `RelayResponse` holds, each field overwriting an earlier one.
pub struct RelayFields {
    pub uuid: Seq<char>,
    pub relay: Seq<char>,
    pub refuse: Seq<char>,
}

pub open spec fn relay_step(st: RelayFields, f: (u32, WireValue)) -> RelayFields {
    match f.1 {
        WireValue::Bytes(b) => if f.0 == 2 {
            RelayFields { uuid: field_text(b), ..st }
        } else if f.0 == 3 {
            RelayFields { relay: field_text(b), ..st }
        } else if f.0 == 6 {
            RelayFields { refuse: field_text(b), ..st }
        } else {
            st
        },
        WireValue::Varint(_) => st,
    }
}

pub open spec fn relay_scan(fs: Seq<(u32, WireValue)>) -> RelayFields
    decreases fs.len(),
{
    if fs.len() == 0 {
        RelayFields { uuid: Seq::empty(), relay: Seq::empty(), refuse: Seq::empty() }
    } else {
        relay_step(relay_scan(fs.drop_last()), fs.last())
    }
}

fn scan_relay_fields(inner: &[u8]) -> (r: (String, String, String))
    ensures
        relay_scan(fields_of(inner@)) == (RelayFields { uuid: r.0@, relay: r.1@, refuse: r.2@ }),
{
    let mut index: usize = 0;
    let mut refuse = String::new();
    let mut uuid = String::new();
    let mut relay = String::new();
    let ghost mut done: Seq<(u32, WireValue)> = Seq::empty();
    loop
        invariant_except_break
            fields_of(inner@) == done + fields_from(inner@, index as int),
        invariant
            relay_scan(done) == (RelayFields { uuid: uuid@, relay: relay@, refuse: refuse@ }),
        ensures
            fields_of(inner@) == done,
        decreases inner.len() - index,
    {
        let ghost i0 = index as int;
        proof {
            lemma_fields_step(inner@, i0);
        }
        match next_field(inner, &mut index) {
            Some((field, value)) => {
                proof {
                    assert(done.push((field, value@)).drop_last() =~= done);
                }
                match value {
                    ProtoValue::Bytes(b) => {
                        if field == 2 {
                            uuid = lossy_string(b);
                        } else if field == 3 {
                            relay = lossy_string(b);
                        } else if field == 6 {
                            refuse = lossy_string(b);
                        }
                    },
                    ProtoValue::Varint(_) => {},
                }
                proof {
                    done = done.push((field, value@));
                    assert(fields_of(inner@) =~= done + fields_from(inner@, index as int));
                }
            },
            None => {
                assert(done + fields_from(inner@, i0) =~= done);
                break ;
            },
        }
    }
    (uuid, relay, refuse)
}

/// The answer a relay response (field 19) gives: refused with a reason, or
/// the uuid followed by the relay server when one is named.
pub open spec fn relay_response(payload: Seq<u8>) -> Result<Seq<char>, Seq<char>> {
    match first_bytes_field(fields_of(payload), 19) {
        None => Err("no RelayResponse"@),
        Some(inner) => {
            let st = relay_scan(fields_of(inner));
            if st.refuse.len() > 0 {
                Err("relay refused: "@ + st.refuse)
            } else if st.relay.len() == 0 {
                Ok(st.uuid)
            } else {
                Ok(st.uuid + " "@ + st.relay)
            }
        },
    }
}

/// Reads the relay response in `payload`: `uuid` or `uuid relay` when the
/// server accepted, `relay refused: reason` when it refused.
pub fn parse_relay_response(payload: &[u8]) -> (r: Result<String, String>)
    ensures
        match relay_response(payload@) {
            Ok(t) => r matches Ok(s) && s@ == t,
            Err(t) => r matches Err(s) && s@ == t,
        },
{
    let inner = match find_bytes_field(payload, 19) {
        Some(inner) => inner,
        None => return Err(String::from_str("no RelayResponse")),
    };
    let (uuid, relay, refuse) = scan_relay_fields(inner);
    let mut uuid = uuid;
    if !refuse.as_str().is_empty() {
        let mut s = String::from_str("relay refused: ");
        s.append(refuse.as_str());
        return Err(s);
    }
    if relay.as_str().is_empty() {
        Ok(uuid)
    } else {
        uuid.append(" ");
        uuid.append(relay.as_str());
        Ok(uuid)
    }
}

/// The salt and challenge of a `Hash` message (fields 1 and 2).
pub open spec fn hash_step(st: (Seq<char>, Seq<char>), f: (u32, WireValue)) -> (Seq<char>, Seq<char>) {
    match f.1 {
        WireValue::Bytes(b) => if f.0 == 1 {
            (field_text(b), st.1)
        } else if f.0 == 2 {
            (st.0, field_text(b))
        } else {
            st
        },
        WireValue::Varint(_) => st,
    }
}

pub open spec fn hash_scan(fs: Seq<(u32, WireValue)>) -> (Seq<char>, Seq<char>)
    decreases fs.len(),
{
    if fs.len() == 0 {
        (Seq::empty(), Seq::empty())
    } else {
        hash_step(hash_scan(fs.drop_last()), fs.last())
    }
}

/// The salt and the challenge the peer sends before the login.
pub fn parse_hash(inner: &[u8]) -> (r: (String, String))
    ensures
        hash_scan(fields_of(inner@)) == (r.0@, r.1@),
{
    let mut salt = String::new();
    let mut challenge = String::new();
    let mut index: usize = 0;
    let ghost mut done: Seq<(u32, WireValue)> = Seq::empty();
    loop
        invariant_except_break
            fields_of(inner@) == done + fields_from(inner@, index as int),
        invariant
            hash_scan(done) == (salt@, challenge@),
        ensures
            fields_of(inner@) == done,
        decreases inner.len() - index,
    {
        let ghost i0 = index as int;
        proof {
            lemma_fields_step(inner@, i0);
        }
        match next_field(inner, &mut index) {
            Some((field, value)) => {
                proof {
                    assert(done.push((field, value@)).drop_last() =~= done);
                }
                match value {
                    ProtoValue::Bytes(b) => {
                        if field == 1 {
                            salt = lossy_string(b);
                        } else if field == 2 {
                            challenge = lossy_string(b);
                        }
                    },
                    ProtoValue::Varint(_) => {},
                }
                proof {
                    done = done.push((field, value@));
                    assert(fields_of(inner@) =~= done + fields_from(inner@, index as int));
                }
            },
            None => {
                assert(done + fields_from(inner@, i0) =~= done);
                break ;
            },
        }
    }
    (salt, challenge)
}

/// What a `LoginResponse` tells, each field overwriting an earlier one.
pub struct LoginFields {
    /// The error text (field 1).
    pub error: Seq<char>,
    /// From the peer info (field 2): user, host and platform names.
    pub username: Seq<char>,
    pub hostname: Seq<char>,
    pub platform: Seq<char>,
    /// The last display of the peer info with a positive width and height.
    pub display: Option<(i32, i32)>,
}

/// Width (field 3) and height (field 4) of a display entry, as `i32`.
pub open spec fn display_step(st: (i32, i32), f: (u32, WireValue)) -> (i32, i32) {
    match f.1 {
        WireValue::Varint(v) => if f.0 == 3 {
            (v as i32, st.1)
        } else if f.0 == 4 {
            (st.0, v as i32)
        } else {
            st
        },
        WireValue::Bytes(_) => st,
    }
}

pub open spec fn display_scan(fs: Seq<(u32, WireValue)>) -> (i32, i32)
    decreases fs.len(),
{
    if fs.len() == 0 {
        (0, 0)
    } else {
        display_step(display_scan(fs.drop_last()), fs.last())
    }
}

pub open spec fn peer_step(st: LoginFields, f: (u32, WireValue)) -> LoginFields {
    match f.1 {
        WireValue::Bytes(b) => if f.0 == 1 {
            LoginFields { username: field_text(b), ..st }
        } else if f.0 == 2 {
            LoginFields { hostname: field_text(b), ..st }
        } else if f.0 == 3 {
            LoginFields { platform: field_text(b), ..st }
        } else if f.0 == 4 {
            let d = display_scan(fields_of(b));
            if d.0 > 0 && d.1 > 0 {
                LoginFields { display: Some(d), ..st }
            } else {
                st
            }
        } else {
            st
        },
        WireValue::Varint(_) => st,
    }
}

/// `st` updated by the peer-info fields `fs`, read in order.
pub open spec fn peer_fold(st: LoginFields, fs: Seq<(u32, WireValue)>) -> LoginFields
    decreases fs.len(),
{
    if fs.len() == 0 {
        st
    } else {
        peer_step(peer_fold(st, fs.drop_last()), fs.last())
    }
}

pub open spec fn login_step(st: LoginFields, f: (u32, WireValue)) -> LoginFields {
    match f.1 {
        WireValue::Bytes(b) => if f.0 == 1 {
            LoginFields { error: field_text(b), ..st }
        } else if f.0 == 2 {
            peer_fold(st, fields_of(b))
        } else {
            st
        },
        WireValue::Varint(_) => st,
    }
}

pub open spec fn login_scan(fs: Seq<(u32, WireValue)>) -> LoginFields
    decreases fs.len(),
{
    if fs.len() == 0 {
        LoginFields {
            error: Seq::empty(),
            username: Seq::empty(),
            hostname: Seq::empty(),
            platform: Seq::empty(),
            display: None,
        }
    } else {
        login_step(login_scan(fs.drop_last()), fs.last())
    }
}

/// The outcome of a login response: its error, or `user@host platform`.
pub open spec fn login_outcome(st: LoginFields) -> Result<Seq<char>, Seq<char>> {
    if st.error.len() > 0 {
        Err(st.error)
    } else {
        Ok(st.username + "@"@ + st.hostname + " "@ + st.platform)
    }
}

/// The fields of a login response being read.
pub struct LoginState {
    pub error: String,
    pub username: String,
    pub hostname: String,
    pub platform: String,
    pub display: Option<(i32, i32)>,
}

impl View for LoginState {
    type V = LoginFields;

    open spec fn view(&self) -> LoginFields {
        LoginFields {
            error: self.error@,
            username: self.username@,
            hostname: self.hostname@,
            platform: self.platform@,
            display: self.display,
        }
    }
}

fn scan_display(d: &[u8]) -> (r: (i32, i32))
    ensures
        r == display_scan(fields_of(d@)),
{
    let mut width: i32 = 0;
    let mut height: i32 = 0;
    let mut index: usize = 0;
    let ghost mut done: Seq<(u32, WireValue)> = Seq::empty();
    loop
        invariant_except_break
            fields_of(d@) == done + fields_from(d@, index as int),
        invariant
            display_scan(done) == (width, height),
        ensures
            fields_of(d@) == done,
        decreases d.len() - index,
    {
        let ghost i0 = index as int;
        proof {
            lemma_fields_step(d@, i0);
        }
        match next_field(d, &mut index) {
            Some((field, value)) => {
                proof {
                    assert(done.push((field, value@)).drop_last() =~= done);
                }
                match value {
                    ProtoValue::Varint(v) => {
                        if field == 3 {
                            width = v as i32;
                        } else if field == 4 {
                            height = v as i32;
                        }
                    },
                    ProtoValue::Bytes(_) => {},
                }
                proof {
                    done = done.push((field, value@));
                    assert(fields_of(d@) =~= done + fields_from(d@, index as int));
                }
            },
            None => {
                assert(done + fields_from(d@, i0) =~= done);
                break ;
            },
        }
    }
    (width, height)
}

fn scan_peer_info(p: &[u8], st: &mut LoginState)
    ensures
        final(st)@ == peer_fold(old(st)@, fields_of(p@)),
{
    let ghost start = st@;
    let mut index: usize = 0;
    let ghost mut done: Seq<(u32, WireValue)> = Seq::empty();
    loop
        invariant_except_break
            fields_of(p@) == done + fields_from(p@, index as int),
        invariant
            st@ == peer_fold(start, done),
            start == old(st)@,
        ensures
            fields_of(p@) == done,
        decreases p.len() - index,
    {
        let ghost i0 = index as int;
        proof {
            lemma_fields_step(p@, i0);
        }
        match next_field(p, &mut index) {
            Some((field, value)) => {
                proof {
                    assert(done.push((field, value@)).drop_last() =~= done);
                }
                match value {
                    ProtoValue::Bytes(b) => {
                        if field == 1 {
                            st.username = lossy_string(b);
                        } else if field == 2 {
                            st.hostname = lossy_string(b);
                        } else if field == 3 {
                            st.platform = lossy_string(b);
                        } else if field == 4 {
                            let (width, height) = scan_display(b);
                            if width > 0 && height > 0 {
                                st.display = Some((width, height));
                            }
                        }
                    },
                    ProtoValue::Varint(_) => {},
                }
                proof {
                    done = done.push((field, value@));
                    assert(fields_of(p@) =~= done + fields_from(p@, index as int));
                }
            },
            None => {
                assert(done + fields_from(p@, i0) =~= done);
                break ;
            },
        }
    }
}

/// Reads a login response: the peer's error, or `user@host platform`, and
/// the size of the last display it reports with a positive width and
/// height.
pub fn parse_login_response(inner: &[u8]) -> (r: (Result<String, String>, Option<(i32, i32)>))
    ensures
        match login_outcome(login_scan(fields_of(inner@))) {
            Ok(t) => r.0 matches Ok(s) && s@ == t,
            Err(t) => r.0 matches Err(s) && s@ == t,
        },
        r.1 == login_scan(fields_of(inner@)).display,
{
    let mut st = LoginState {
        error: String::new(),
        username: String::new(),
        hostname: String::new(),
        platform: String::new(),
        display: None,
    };
    let mut index: usize = 0;
    let ghost mut done: Seq<(u32, WireValue)> = Seq::empty();
    loop
        invariant_except_break
            fields_of(inner@) == done + fields_from(inner@, index as int),
        invariant
            st@ == login_scan(done),
        ensures
            fields_of(inner@) == done,
        decreases inner.len() - index,
    {
        let ghost i0 = index as int;
        proof {
            lemma_fields_step(inner@, i0);
        }
        match next_field(inner, &mut index) {
            Some((field, value)) => {
                proof {
                    assert(done.push((field, value@)).drop_last() =~= done);
                }
                match value {
                    ProtoValue::Bytes(b) => {
                        if field == 1 {
                            st.error = lossy_string(b);
                        } else if field == 2 {
                            scan_peer_info(b, &mut st);
                        }
                    },
                    ProtoValue::Varint(_) => {},
                }
                proof {
                    done = done.push((field, value@));
                    assert(fields_of(inner@) =~= done + fields_from(inner@, index as int));
                }
            },
            None => {
                assert(done + fields_from(inner@, i0) =~= done);
                break ;
            },
        }
    }
    let display = st.display;
    if !st.error.as_str().is_empty() {
        return (Err(st.error), display);
    }
    let mut s = st.username;
    s.append("@");
    s.append(st.hostname.as_str());
    s.append(" ");
    s.append(st.platform.as_str());
    (Ok(s), display)
}

} // verus!
