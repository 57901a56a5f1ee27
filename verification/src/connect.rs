//! The decisions of connecting to a peer: waiting for the rendezvous
//! server's punch-hole answer, turning it into a verdict or a route, and
//! the login exchange with the peer. The socket work is the caller's: each
//! machine here takes what a read produced and says what to do next.

use vstd::prelude::*;
use vstd::string::StringSliceAdditionalSpecFns;
use vstd::utf8::encode_utf8;
use crate::crypto::{password_hash, password_hash_spec};
use crate::endpoint::{normalize_relay_addr, relay_addr_spec};
use crate::messages::{build_empty_public_key, build_login_request, empty_public_key_msg, login_request_msg};
use crate::rendezvous::{
    hash_scan, login_outcome, login_scan, parse_hash, parse_login_response, parse_punch_response,
    parse_relay_response, punch_response, relay_response,
};
use crate::text::{
    hex_byte, push_hex_byte, chars_of, contains, contains_seq, first_index, find_first, lemma_first_index_found, has_prefix, same_chars,
    second_word, second_word_of, starts_with, strip_prefix, strip_prefix_chars, string_from_chars,
};
use crate::wire::{field_at, field_numbers, fields_of, framed, frame_message, next_field, payload_fields, ProtoValue, WireValue};

verus! {

/// How many frames the client reads while waiting for the punch-hole answer.
pub const PUNCH_READS: u32 = 8;

/// What a rendezvous frame decides: `None` to read on (a key exchange, or a
/// configuration update that is no answer), else the verdict.
pub open spec fn punch_frame_verdict(payload: Seq<u8>) -> Option<Result<Seq<char>, Seq<char>>> {
    let fs = field_numbers(fields_of(payload));
    if fs.contains(25) {
        None
    } else if fs.contains(14) && !fs.contains(11) && !fs.contains(19) {
        None
    } else {
        match punch_response(payload) {
            Some(d) => Some(Ok(d)),
            None => match relay_response(payload) {
                Ok(info) => Some(Ok(relay_online(info))),
                Err(_) => Some(Err("unrecognized rendezvous response"@)),
            },
        }
    }
}

/// A relay response taken as "online through the relay": `ONLINE_RELAY`,
/// followed by the relay server when the response names one.
pub open spec fn relay_online(info: Seq<char>) -> Seq<char> {
    let relay = second_word(info);
    if relay.len() == 0 {
        "ONLINE_RELAY"@
    } else {
        "ONLINE_RELAY "@ + relay
    }
}

/// What to do after a read.
pub enum PunchStep {
    ReadAgain,
    Done(Result<String, String>),
}

/// Waiting for the punch-hole answer: how many frames have been read.
pub struct PunchWait {
    pub reads: u32,
}

fn has_field(fields: &[u32], n: u32) -> (b: bool)
    ensures
        b == fields@.contains(n),
{
    let mut i: usize = 0;
    while i < fields.len()
        invariant
            i <= fields@.len(),
            forall|k: int| 0 <= k < i ==> fields@[k] != n,
        decreases fields.len() - i,
    {
        if fields[i] == n {
            assert(fields@[i as int] == n);
            return true;
        }
        i = i + 1;
    }
    false
}

/// The step after a read that decided nothing, the `reads`-th one.
pub open spec fn after_undecided(reads: u32, s: PunchStep) -> bool {
    if reads >= PUNCH_READS {
        s matches PunchStep::Done(Err(e)) && e@ == "no punch response"@
    } else {
        s is ReadAgain
    }
}

impl PunchWait {
    pub fn new() -> (w: Self)
        ensures
            w.reads == 0,
    {
        PunchWait { reads: 0 }
    }

    fn undecided(&mut self) -> (s: PunchStep)
        requires
            old(self).reads < PUNCH_READS,
        ensures
            final(self).reads == old(self).reads + 1,
            after_undecided(final(self).reads, s),
    {
        self.reads = self.reads + 1;
        if self.reads >= PUNCH_READS {
            PunchStep::Done(Err(String::from_str("no punch response")))
        } else {
            PunchStep::ReadAgain
        }
    }

    /// A read failed with `error`: an idle read after the first frame reads
    /// on; any other failure ends the wait with that error.
    pub fn on_error(&mut self, error: &str) -> (s: PunchStep)
        requires
            old(self).reads < PUNCH_READS,
        ensures
            old(self).reads > 0 && error@ == "idle"@ ==> final(self).reads == old(self).reads + 1
                && after_undecided(final(self).reads, s),
            !(old(self).reads > 0 && error@ == "idle"@) ==> (s matches PunchStep::Done(Err(e))
                && e@ == error@),
    {
        if self.reads > 0 && same_chars(chars_of(error).as_slice(), chars_of("idle").as_slice()) {
            return self.undecided();
        }
        PunchStep::Done(Err(string_from_chars(chars_of(error).as_slice())))
    }

    /// A frame arrived: its verdict ends the wait, or the wait reads on.
    pub fn on_frame(&mut self, payload: &[u8]) -> (s: PunchStep)
        requires
            old(self).reads < PUNCH_READS,
        ensures
            match punch_frame_verdict(payload@) {
                None => final(self).reads == old(self).reads + 1 && after_undecided(
                    final(self).reads,
                    s,
                ),
                Some(Ok(d)) => s matches PunchStep::Done(Ok(t)) && t@ == d,
                Some(Err(d)) => s matches PunchStep::Done(Err(t)) && t@ == d,
            },
    {
        let fields = payload_fields(payload);
        if has_field(fields.as_slice(), 25) {
            return self.undecided();
        }
        if has_field(fields.as_slice(), 14) && !has_field(fields.as_slice(), 11) && !has_field(
            fields.as_slice(),
            19,
        ) {
            return self.undecided();
        }
        match parse_punch_response(payload) {
            Some(detail) => {
                return PunchStep::Done(Ok(detail));
            },
            None => {},
        }
        match parse_relay_response(payload) {
            Ok(info) => {
                let relay = second_word_of(chars_of(info.as_str()).as_slice());
                if relay.len() == 0 {
                    PunchStep::Done(Ok(String::from_str("ONLINE_RELAY")))
                } else {
                    let mut s = String::from_str("ONLINE_RELAY ");
                    s.append(string_from_chars(relay.as_slice()).as_str());
                    PunchStep::Done(Ok(s))
                }
            },
            Err(_) => PunchStep::Done(Err(String::from_str("unrecognized rendezvous response"))),
        }
    }
}

/// The online check's answer for a punch-hole verdict.
pub open spec fn peer_check_text(detail: Seq<char>) -> Seq<char> {
    if detail == "OFFLINE"@ {
        "OFFLINE"@
    } else if detail == "ID_NOT_EXIST"@ {
        "NOT_EXIST"@
    } else if detail == "LICENSE_MISMATCH"@ {
        "LICENSE_MISMATCH"@
    } else if detail == "LICENSE_OVERUSE"@ {
        "LICENSE_OVERUSE"@
    } else if has_prefix(detail, "ONLINE"@) {
        "ONLINE"@
    } else {
        detail
    }
}

fn is_text(s: &[char], lit: &str) -> (b: bool)
    ensures
        b == (s@ == lit@),
{
    same_chars(s, chars_of(lit).as_slice())
}

/// Maps a punch-hole verdict to the online check's answer: `OFFLINE`,
/// `NOT_EXIST`, a licence problem, `ONLINE`, or the verdict itself.
pub fn peer_check_verdict(detail: &str) -> (r: String)
    ensures
        r@ == peer_check_text(detail@),
{
    let d = chars_of(detail);
    let d = d.as_slice();
    if is_text(d, "OFFLINE") {
        String::from_str("OFFLINE")
    } else if is_text(d, "ID_NOT_EXIST") {
        String::from_str("NOT_EXIST")
    } else if is_text(d, "LICENSE_MISMATCH") {
        String::from_str("LICENSE_MISMATCH")
    } else if is_text(d, "LICENSE_OVERUSE") {
        String::from_str("LICENSE_OVERUSE")
    } else if starts_with(d, chars_of("ONLINE").as_slice()) {
        String::from_str("ONLINE")
    } else {
        string_from_chars(d)
    }
}

/// What to do with a punch-hole verdict when connecting.
pub enum LookupPlan {
    /// Report this result.
    Finish(String),
    /// Try the peer's address directly, then the relay hint.
    Direct { addr: String, relay_hint: String },
    /// Join through the relay (the hint may be empty).
    Relay { relay_hint: String },
}

/// The part of `s` after its first `c`, if it has one.
pub open spec fn after_first(s: Seq<char>, c: char) -> Option<Seq<char>> {
    match first_index(s, c) {
        Some(k) => Some(s.skip(k + 1)),
        None => None,
    }
}

/// `RESULT: <what> <peer>`.
pub open spec fn result_text(what: Seq<char>, peer: Seq<char>) -> Seq<char> {
    "RESULT: "@ + what + " "@ + peer
}

/// The plan a verdict calls for: a final result for an offline, unknown or
/// unlicensed peer and for any other non-online verdict; a direct attempt
/// for `ONLINE_DIRECT addr[|relay]`; the relay otherwise.
pub open spec fn lookup_plan_matches(detail: Seq<char>, peer: Seq<char>, p: LookupPlan) -> bool {
    if detail == "OFFLINE"@ {
        p matches LookupPlan::Finish(s) && s@ == result_text("OFFLINE"@, peer)
    } else if detail == "ID_NOT_EXIST"@ {
        p matches LookupPlan::Finish(s) && s@ == result_text("NOT_EXIST"@, peer)
    } else if detail == "LICENSE_MISMATCH"@ {
        p matches LookupPlan::Finish(s) && s@ == result_text("LICENSE_MISMATCH"@, peer)
    } else if detail == "LICENSE_OVERUSE"@ {
        p matches LookupPlan::Finish(s) && s@ == result_text("LICENSE_OVERUSE"@, peer)
    } else if has_prefix(detail, "ONLINE"@) {
        match strip_prefix(detail, "ONLINE_DIRECT "@) {
            Some(rest) => p matches LookupPlan::Direct { addr, relay_hint } && match after_first(
                rest,
                '|',
            ) {
                Some(hint) => addr@ == rest.take(first_index(rest, '|')->0) && relay_hint@ == hint,
                None => addr@ == rest && relay_hint@ == Seq::<char>::empty(),
            },
            None => p matches LookupPlan::Relay { relay_hint } && relay_hint@ == match strip_prefix(
                detail,
                "ONLINE_RELAY "@,
            ) {
                Some(h) => h,
                None => Seq::<char>::empty(),
            },
        }
    } else {
        p matches LookupPlan::Finish(s) && s@ == result_text(detail, peer)
    }
}

fn result_string(what: &[char], peer: &str) -> (s: String)
    ensures
        s@ == result_text(what@, peer@),
{
    let mut s = String::from_str("RESULT: ");
    s.append(string_from_chars(what).as_str());
    s.append(" ");
    s.append(peer);
    s
}

/// Decides what a connection does with the punch-hole verdict `detail`.
pub fn lookup_plan(detail: &str, peer_id: &str) -> (p: LookupPlan)
    ensures
        lookup_plan_matches(detail@, peer_id@, p),
{
    let d = chars_of(detail);
    let d = d.as_slice();
    if is_text(d, "OFFLINE") {
        return LookupPlan::Finish(result_string(chars_of("OFFLINE").as_slice(), peer_id));
    }
    if is_text(d, "ID_NOT_EXIST") {
        return LookupPlan::Finish(result_string(chars_of("NOT_EXIST").as_slice(), peer_id));
    }
    if is_text(d, "LICENSE_MISMATCH") {
        return LookupPlan::Finish(result_string(chars_of("LICENSE_MISMATCH").as_slice(), peer_id));
    }
    if is_text(d, "LICENSE_OVERUSE") {
        return LookupPlan::Finish(result_string(chars_of("LICENSE_OVERUSE").as_slice(), peer_id));
    }
    if !starts_with(d, chars_of("ONLINE").as_slice()) {
        return LookupPlan::Finish(result_string(d, peer_id));
    }
    match strip_prefix_chars(d, chars_of("ONLINE_DIRECT ").as_slice()) {
        Some(rest) => {
            let rest = rest.as_slice();
            proof {
                lemma_first_index_found(rest@, '|');
            }
            match find_first(rest, '|') {
                Some(k) => {
                    let addr = string_from_chars(&rest[0..k]);
                    let hint = string_from_chars(&rest[k + 1..rest.len()]);
                    assert(rest@.subrange(0, k as int) =~= rest@.take(k as int));
                    assert(rest@.subrange(k + 1, rest@.len() as int) =~= rest@.skip(k + 1));
                    LookupPlan::Direct { addr, relay_hint: hint }
                },
                None => LookupPlan::Direct { addr: string_from_chars(rest), relay_hint: String::new() },
            }
        },
        None => {
            let hint = match strip_prefix_chars(d, chars_of("ONLINE_RELAY ").as_slice()) {
                Some(h) => string_from_chars(h.as_slice()),
                None => String::new(),
            };
            LookupPlan::Relay { relay_hint: hint }
        },
    }
}

/// The relay server a relay join goes through: the hint from the rendezvous
/// server when there is one, else the configured relay, normalised against
/// the ID server.
pub fn relay_target(relay_hint: &str, configured_relay: &str, id_server: &str) -> (r: String)
    ensures
        r@ == relay_addr_spec(
            if relay_hint@.len() > 0 {
                relay_hint@
            } else {
                configured_relay@
            },
            id_server@,
        ),
{
    let raw = if !relay_hint.is_empty() {
        relay_hint
    } else {
        configured_relay
    };
    normalize_relay_addr(raw, id_server)
}

/// A relay join whose handshake failed with `error`: a read that never got
/// a header, or timed out, means the peer has not answered yet; any other
/// failure stands.
pub fn relay_wait_outcome(error: &str, peer_id: &str, relay: &str) -> (r: Result<String, String>)
    ensures
        contains_seq(error@, "read header"@) || contains_seq(error@, "timed out"@) ==> (r matches Ok(
            s,
        ) && s@ == result_text("RELAY_WAITING"@, peer_id@) + " "@ + relay@),
        !(contains_seq(error@, "read header"@) || contains_seq(error@, "timed out"@)) ==> (r matches Err(
            s,
        ) && s@ == error@),
{
    let e = chars_of(error);
    if contains(e.as_slice(), chars_of("read header").as_slice()) || contains(
        e.as_slice(),
        chars_of("timed out").as_slice(),
    ) {
        let mut s = result_string(chars_of("RELAY_WAITING").as_slice(), peer_id);
        s.append(" ");
        s.append(relay);
        Ok(s)
    } else {
        Err(string_from_chars(e.as_slice()))
    }
}

/// The result when the direct attempt failed with `punch_error` and the
/// relay fallback with `relay_error`.
pub fn punch_and_relay_failed(peer_id: &str, punch_error: &str, relay_error: &str) -> (s: String)
    ensures
        s@ == result_text("ONLINE"@, peer_id@) + " PUNCH_FAIL "@ + punch_error@ + " RELAY_FAIL "@
            + relay_error@,
{
    let mut s = result_string(chars_of("ONLINE").as_slice(), peer_id);
    s.append(" PUNCH_FAIL ");
    s.append(punch_error);
    s.append(" RELAY_FAIL ");
    s.append(relay_error);
    s
}

/// The result when the peer is online but joining its relay failed.
pub fn relay_join_failed(peer_id: &str, detail: &str, relay_error: &str) -> (s: String)
    ensures
        s@ == result_text("ONLINE"@, peer_id@) + " "@ + detail@ + " RELAY_FAIL "@ + relay_error@,
{
    let mut s = result_string(chars_of("ONLINE").as_slice(), peer_id);
    s.append(" ");
    s.append(detail);
    s.append(" RELAY_FAIL ");
    s.append(relay_error);
    s
}

/// How many messages the client reads from the peer before giving up on
/// the login.
pub const HANDSHAKE_READS: u32 = 8;

/// The message a handshake step writes.
#[derive(Clone, Copy, PartialEq, Eq, Structural)]
pub enum Outgoing {
    /// An empty `PublicKey`, the answer to the peer's signed id.
    PublicKey,
    /// The `LoginRequest` with the password proof.
    LoginRequest,
}

/// What comes after a handshake step.
pub enum HandshakeNext {
    ReadAgain,
    Finish(Result<String, String>),
    /// The login succeeded: run the session, then report this result.
    StartSession(String),
}

/// One step of the login exchange.
pub struct HandshakeStep {
    /// A framed message to write before going on; a failed write ends the
    /// exchange.
    pub send: Option<(Outgoing, Vec<u8>)>,
    /// The salt and challenge of a `Hash` message this step answered.
    pub hash: Option<(String, String)>,
    /// The peer display size a login response reported.
    pub display: Option<(i32, i32)>,
    pub next: HandshakeNext,
}

/// The login exchange with a peer: how many messages were read and whether
/// a login request went out.
pub struct PeerHandshake {
    pub reads: u32,
    pub got_hash: bool,
}

/// The result once the reads run out, or a read fails after the login went
/// out.
pub open spec fn handshake_end_text(got_hash: bool, peer: Seq<char>) -> Seq<char> {
    if got_hash {
        result_text("LOGIN_SENT"@, peer)
    } else {
        result_text("RELAY_PAIRED"@, peer)
    }
}

/// `next` is what follows a message that did not end the exchange.
pub open spec fn next_after_read(reads: u32, got_hash: bool, peer: Seq<char>, next: HandshakeNext) -> bool {
    if reads >= HANDSHAKE_READS {
        next matches HandshakeNext::Finish(Ok(s)) && s@ == handshake_end_text(got_hash, peer)
    } else {
        next is ReadAgain
    }
}

impl PeerHandshake {
    pub fn new() -> (h: Self)
        ensures
            h.reads == 0,
            !h.got_hash,
    {
        PeerHandshake { reads: 0, got_hash: false }
    }

    fn end_text(got_hash: bool, peer_id: &str) -> (s: String)
        ensures
            s@ == handshake_end_text(got_hash, peer_id@),
    {
        if got_hash {
            result_string(chars_of("LOGIN_SENT").as_slice(), peer_id)
        } else {
            result_string(chars_of("RELAY_PAIRED").as_slice(), peer_id)
        }
    }

    fn read_done(&mut self, peer_id: &str) -> (next: HandshakeNext)
        requires
            old(self).reads < HANDSHAKE_READS,
        ensures
            final(self).reads == old(self).reads + 1,
            final(self).got_hash == old(self).got_hash,
            next_after_read(final(self).reads, final(self).got_hash, peer_id@, next),
    {
        self.reads = self.reads + 1;
        if self.reads >= HANDSHAKE_READS {
            HandshakeNext::Finish(Ok(Self::end_text(self.got_hash, peer_id)))
        } else {
            HandshakeNext::ReadAgain
        }
    }

    /// A read failed with `error`: once the login went out the exchange ends
    /// as sent; before that the error ends it.
    pub fn on_read_error(&mut self, peer_id: &str, error: String) -> (step: HandshakeStep)
        ensures
            *final(self) == *old(self),
            step.send is None,
            step.hash is None,
            step.display is None,
            old(self).got_hash ==> (step.next matches HandshakeNext::Finish(Ok(s)) && s@
                == result_text("LOGIN_SENT"@, peer_id@)),
            !old(self).got_hash ==> (step.next matches HandshakeNext::Finish(Err(e)) && e == error),
    {
        let next = if self.got_hash {
            HandshakeNext::Finish(Ok(Self::end_text(true, peer_id)))
        } else {
            HandshakeNext::Finish(Err(error))
        };
        HandshakeStep { send: None, hash: None, display: None, next }
    }

    /// A message arrived from the peer. Its first field decides: a signed id
    /// (3) is answered with an empty public key; a hash (9) with the login
    /// request built from the password, the salt and the challenge; a login
    /// response (8) ends the exchange; anything else is read past.
    pub fn on_message(&mut self, payload: &[u8], peer_id: &str, password: &str, session_id: u64) -> (step: HandshakeStep)
        requires
            old(self).reads < HANDSHAKE_READS,
        ensures
            match field_at(payload@, 0) {
                Some((8, WireValue::Bytes(inner), _)) => {
                    &&& *final(self) == *old(self)
                    &&& step.send is None
                    &&& step.hash is None
                    &&& step.display == login_scan(fields_of(inner)).display
                    &&& match login_outcome(login_scan(fields_of(inner))) {
                        Ok(info) => step.next matches HandshakeNext::StartSession(s) && s@
                            == result_text("LOGIN_OK"@, peer_id@) + " "@ + info,
                        Err(e) => step.next matches HandshakeNext::Finish(Ok(s)) && s@
                            == result_text("LOGIN_ERROR"@, peer_id@) + " "@ + e,
                    }
                },
                Some((9, WireValue::Bytes(inner), _)) => {
                    &&& final(self).reads == old(self).reads + 1
                    &&& final(self).got_hash
                    &&& step.display is None
                    &&& step.hash matches Some((salt, challenge))
                    &&& (salt@, challenge@) == hash_scan(fields_of(inner))
                    &&& step.send matches Some((kind, bytes))
                    &&& kind == Outgoing::LoginRequest
                    &&& bytes@ == framed(
                        login_request_msg(
                            peer_id.spec_bytes(),
                            password_hash_spec(
                                password.spec_bytes(),
                                encode_utf8(salt@),
                                encode_utf8(challenge@),
                            ),
                            session_id,
                        ),
                    )
                    &&& next_after_read(final(self).reads, true, peer_id@, step.next)
                },
                Some((3, _, _)) => {
                    &&& final(self).reads == old(self).reads + 1
                    &&& final(self).got_hash == old(self).got_hash
                    &&& step.hash is None
                    &&& step.display is None
                    &&& step.send matches Some((kind, bytes))
                    &&& kind == Outgoing::PublicKey
                    &&& bytes@ == framed(empty_public_key_msg())
                    &&& next_after_read(final(self).reads, final(self).got_hash, peer_id@, step.next)
                },
                _ => {
                    &&& final(self).reads == old(self).reads + 1
                    &&& final(self).got_hash == old(self).got_hash
                    &&& step.send is None
                    &&& step.hash is None
                    &&& step.display is None
                    &&& next_after_read(final(self).reads, final(self).got_hash, peer_id@, step.next)
                },
            },
    {
        let mut index: usize = 0;
        let first = next_field(payload, &mut index);
        match first {
            Some((8, ProtoValue::Bytes(inner))) => {
                let (outcome, display) = parse_login_response(inner);
                let next = match outcome {
                    Ok(info) => {
                        let mut s = result_string(chars_of("LOGIN_OK").as_slice(), peer_id);
                        s.append(" ");
                        s.append(info.as_str());
                        HandshakeNext::StartSession(s)
                    },
                    Err(e) => {
                        let mut s = result_string(chars_of("LOGIN_ERROR").as_slice(), peer_id);
                        s.append(" ");
                        s.append(e.as_str());
                        HandshakeNext::Finish(Ok(s))
                    },
                };
                HandshakeStep { send: None, hash: None, display, next }
            },
            Some((9, ProtoValue::Bytes(inner))) => {
                let (salt, challenge) = parse_hash(inner);
                let hashed = password_hash(password.as_bytes(), salt.as_str(), challenge.as_str());
                let login = build_login_request(peer_id, hashed.as_slice(), session_id);
                let bytes = frame_message(login.as_slice());
                self.got_hash = true;
                let next = self.read_done(peer_id);
                HandshakeStep {
                    send: Some((Outgoing::LoginRequest, bytes)),
                    hash: Some((salt, challenge)),
                    display: None,
                    next,
                }
            },
            Some((3, _)) => {
                let bytes = frame_message(build_empty_public_key().as_slice());
                let next = self.read_done(peer_id);
                HandshakeStep { send: Some((Outgoing::PublicKey, bytes)), hash: None, display: None, next }
            },
            _ => {
                let next = self.read_done(peer_id);
                HandshakeStep { send: None, hash: None, display: None, next }
            },
        }
    }
}

/// Byte `i` of a version-4 UUID made from the random bytes `b`: the
/// version nibble of byte 6 is 4 and the variant bits of byte 8 are 10.
pub open spec fn uuid_byte(b: Seq<u8>, i: int) -> u8 {
    if i == 6 {
        (b[6] & 0x0f) | 0x40
    } else if i == 8 {
        (b[8] & 0x3f) | 0x80
    } else {
        b[i]
    }
}

/// The text of the first `n` bytes of the UUID: two lower-case hex digits a
/// byte, with a dash before bytes 4, 6, 8 and 10.
pub open spec fn uuid_prefix(b: Seq<u8>, n: int) -> Seq<char>
    decreases n,
{
    if n <= 0 {
        Seq::empty()
    } else {
        uuid_prefix(b, n - 1) + (if n - 1 == 4 || n - 1 == 6 || n - 1 == 8 || n - 1 == 10 {
            seq!['-']
        } else {
            Seq::empty()
        }) + hex_byte(uuid_byte(b, n - 1))
    }
}

/// The canonical text of the version-4 UUID made from `b`.
pub open spec fn uuid_text(b: Seq<u8>) -> Seq<char> {
    uuid_prefix(b, 16)
}

/// Formats sixteen random bytes as a version-4 UUID.
pub fn uuid_from_bytes(bytes: [u8; 16]) -> (s: String)
    ensures
        s@ == uuid_text(bytes@),
{
    let mut out: Vec<char> = Vec::new();
    let mut i: usize = 0;
    while i < 16
        invariant
            i <= 16,
            bytes@.len() == 16,
            out@ == uuid_prefix(bytes@, i as int),
        decreases 16 - i,
    {
        if i == 4 || i == 6 || i == 8 || i == 10 {
            out.push('-');
        }
        let b = if i == 6 {
            (bytes[6] & 0x0f) | 0x40
        } else if i == 8 {
            (bytes[8] & 0x3f) | 0x80
        } else {
            bytes[i]
        };
        push_hex_byte(&mut out, b);
        i = i + 1;
        assert(out@ =~= uuid_prefix(bytes@, i as int));
    }
    string_from_chars(out.as_slice())
}

/// Byte `i` of the stand-in UUID bytes made from the clock when no random
/// bytes can be read: a byte of the nanosecond count, mixed with `31 i`.
pub open spec fn clock_uuid_byte(nanos: u128, i: int) -> u8 {
    ((nanos >> (((i % 8) * 8) as u128)) as u8) ^ ((i * 31) % 256) as u8
}

/// The stand-in UUID bytes made from the clock.
pub fn clock_uuid_bytes(nanos: u128) -> (b: [u8; 16])
    ensures
        forall|i: int| 0 <= i < 16 ==> b@[i] == clock_uuid_byte(nanos, i),
{
    let mut bytes = [0u8; 16];
    let mut i: usize = 0;
    while i < 16
        invariant
            i <= 16,
            bytes@.len() == 16,
            forall|k: int| 0 <= k < i ==> bytes@[k] == clock_uuid_byte(nanos, k),
        decreases 16 - i,
    {
        let shift = ((i % 8) * 8) as u128;
        let mixed = (i as u8).wrapping_mul(31);
        assert(mixed == ((i * 31) % 256) as u8);
        bytes[i] = ((nanos >> shift) as u8) ^ mixed;
        i = i + 1;
    }
    bytes
}

/// The online check names a peer that is not online with the same word the
/// connection reports: for every verdict that does not start with `ONLINE`,
/// the connection stops with `RESULT: <check answer> <peer>`. The answers
/// are OFFLINE for OFFLINE, NOT_EXIST for ID_NOT_EXIST, and the licence
/// verdicts under their own names.
pub proof fn lemma_check_word_is_result_word(detail: Seq<char>, peer: Seq<char>, p: LookupPlan)
    requires
        lookup_plan_matches(detail, peer, p),
        !has_prefix(detail, "ONLINE"@),
    ensures
        p matches LookupPlan::Finish(s) && s@ == result_text(peer_check_text(detail), peer),
        peer_check_text("OFFLINE"@) == "OFFLINE"@,
        peer_check_text("ID_NOT_EXIST"@) == "NOT_EXIST"@,
        peer_check_text("LICENSE_MISMATCH"@) == "LICENSE_MISMATCH"@,
        peer_check_text("LICENSE_OVERUSE"@) == "LICENSE_OVERUSE"@,
{
    reveal_strlit("OFFLINE");
    reveal_strlit("ID_NOT_EXIST");
    reveal_strlit("LICENSE_MISMATCH");
    reveal_strlit("LICENSE_OVERUSE");
    reveal_strlit("ONLINE");
}

/// The online check and the connection agree: the check answers `ONLINE`
/// exactly when a connection would go on to the peer (directly or through
/// a relay) rather than stop with a result.
pub proof fn lemma_check_agrees_with_plan(detail: Seq<char>, peer: Seq<char>, p: LookupPlan)
    requires
        lookup_plan_matches(detail, peer, p),
    ensures
        (peer_check_text(detail) == "ONLINE"@) <==> !(p is Finish),
{
    reveal_strlit("ONLINE");
    reveal_strlit("OFFLINE");
    reveal_strlit("ID_NOT_EXIST");
    reveal_strlit("NOT_EXIST");
    reveal_strlit("LICENSE_MISMATCH");
    reveal_strlit("LICENSE_OVERUSE");
    if detail == "ONLINE"@ {
        assert(has_prefix(detail, "ONLINE"@)) by {
            assert(detail.take(6) =~= "ONLINE"@);
        }
    }
    if has_prefix(detail, "ONLINE"@) {
        assert(detail.subrange(0, 6) == "ONLINE"@);
        assert(detail[1] == detail.subrange(0, 6)[1]);
        assert(detail[1] == 'N');
    }
}

} // verus!
