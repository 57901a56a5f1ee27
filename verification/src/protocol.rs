//! The legacy UDP protocol: typed packets with a big-endian six-byte header,
//! the payloads of its ID-server, handshake, video and input messages, and
//! the checks a client makes on the replies.

use vstd::prelude::*;
use vstd::string::StringSliceAdditionalSpecFns;
use crate::crypto::{salted_digest, sha256};

verus! {

#[verifier::external_type_specification]
#[verifier::external_body]
pub struct ExIoError(std::io::Error);

/// Why a protocol step failed.
#[derive(Debug)]
pub enum ProtocolError {
    Io(std::io::Error),
    HandshakeFailed(String),
    Timeout,
    InvalidPacket,
    EncryptionError,
    PeerNotFound,
}

/// The kinds of packet.
#[derive(Debug, Clone, Copy, PartialEq, Eq, Structural)]
pub enum MessageType {
    Handshake,
    HandshakeResponse,
    ConnectionRequest,
    ConnectionResponse,
    Disconnect,
    VideoFrame,
    VideoConfig,
    KeepAlive,
    KeyEvent,
    MouseEvent,
    ClipboardEvent,
    Ping,
    Pong,
    Error,
}

/// The number that stands for each kind on the wire.
pub open spec fn type_code(t: MessageType) -> u16 {
    match t {
        MessageType::Handshake => 0x01,
        MessageType::HandshakeResponse => 0x02,
        MessageType::ConnectionRequest => 0x03,
        MessageType::ConnectionResponse => 0x04,
        MessageType::Disconnect => 0x05,
        MessageType::VideoFrame => 0x10,
        MessageType::VideoConfig => 0x11,
        MessageType::KeepAlive => 0x12,
        MessageType::KeyEvent => 0x20,
        MessageType::MouseEvent => 0x21,
        MessageType::ClipboardEvent => 0x22,
        MessageType::Ping => 0xF0,
        MessageType::Pong => 0xF1,
        MessageType::Error => 0xFF,
    }
}

/// The kind a wire number stands for, if any.
pub open spec fn type_of_code(v: u16) -> Option<MessageType> {
    if v == 0x01 {
        Some(MessageType::Handshake)
    } else if v == 0x02 {
        Some(MessageType::HandshakeResponse)
    } else if v == 0x03 {
        Some(MessageType::ConnectionRequest)
    } else if v == 0x04 {
        Some(MessageType::ConnectionResponse)
    } else if v == 0x05 {
        Some(MessageType::Disconnect)
    } else if v == 0x10 {
        Some(MessageType::VideoFrame)
    } else if v == 0x11 {
        Some(MessageType::VideoConfig)
    } else if v == 0x12 {
        Some(MessageType::KeepAlive)
    } else if v == 0x20 {
        Some(MessageType::KeyEvent)
    } else if v == 0x21 {
        Some(MessageType::MouseEvent)
    } else if v == 0x22 {
        Some(MessageType::ClipboardEvent)
    } else if v == 0xF0 {
        Some(MessageType::Ping)
    } else if v == 0xF1 {
        Some(MessageType::Pong)
    } else if v == 0xFF {
        Some(MessageType::Error)
    } else {
        None
    }
}

impl MessageType {
    /// The wire number of this kind.
    pub fn code(self) -> (v: u16)
        ensures
            v == type_code(self),
    {
        match self {
            MessageType::Handshake => 0x01,
            MessageType::HandshakeResponse => 0x02,
            MessageType::ConnectionRequest => 0x03,
            MessageType::ConnectionResponse => 0x04,
            MessageType::Disconnect => 0x05,
            MessageType::VideoFrame => 0x10,
            MessageType::VideoConfig => 0x11,
            MessageType::KeepAlive => 0x12,
            MessageType::KeyEvent => 0x20,
            MessageType::MouseEvent => 0x21,
            MessageType::ClipboardEvent => 0x22,
            MessageType::Ping => 0xF0,
            MessageType::Pong => 0xF1,
            MessageType::Error => 0xFF,
        }
    }

    /// The kind a wire number stands for; `InvalidPacket` for any other number.
    pub fn from_code(value: u16) -> (r: Result<MessageType, ProtocolError>)
        ensures
            match type_of_code(value) {
                Some(t) => r == Ok::<MessageType, ProtocolError>(t),
                None => r matches Err(ProtocolError::InvalidPacket),
            },
    {
        match value {
            0x01 => Ok(MessageType::Handshake),
            0x02 => Ok(MessageType::HandshakeResponse),
            0x03 => Ok(MessageType::ConnectionRequest),
            0x04 => Ok(MessageType::ConnectionResponse),
            0x05 => Ok(MessageType::Disconnect),
            0x10 => Ok(MessageType::VideoFrame),
            0x11 => Ok(MessageType::VideoConfig),
            0x12 => Ok(MessageType::KeepAlive),
            0x20 => Ok(MessageType::KeyEvent),
            0x21 => Ok(MessageType::MouseEvent),
            0x22 => Ok(MessageType::ClipboardEvent),
            0xF0 => Ok(MessageType::Ping),
            0xF1 => Ok(MessageType::Pong),
            0xFF => Ok(MessageType::Error),
            _ => Err(ProtocolError::InvalidPacket),
        }
    }
}

impl TryFrom<u16> for MessageType {
    type Error = ProtocolError;

    /// The kind a wire number stands for; `InvalidPacket` for any other number.
    fn try_from(value: u16) -> (r: Result<MessageType, ProtocolError>)
        ensures
            match type_of_code(value) {
                Some(t) => r == Ok::<MessageType, ProtocolError>(t),
                None => r matches Err(ProtocolError::InvalidPacket),
            },
    {
        MessageType::from_code(value)
    }
}

impl vstd::std_specs::convert::TryFromSpecImpl<u16> for MessageType {
    open spec fn obeys_try_from_spec() -> bool {
        true
    }

    open spec fn try_from_spec(value: u16) -> Result<MessageType, ProtocolError> {
        match type_of_code(value) {
            Some(t) => Ok(t),
            None => Err(ProtocolError::InvalidPacket),
        }
    }
}

/// Every kind reads back from its wire number, and only its own number
/// stands for it.
pub proof fn lemma_type_code_roundtrip(t: MessageType, v: u16)
    ensures
        type_of_code(type_code(t)) == Some(t),
        type_of_code(v) == Some(t) ==> v == type_code(t),
{
}

/// A typed packet.
#[derive(Debug, Clone)]
pub struct Packet {
    pub msg_type: MessageType,
    pub payload: Vec<u8>,
}

/// The size of the packet header: the type, then the payload length.
pub const HEADER_SIZE: usize = 6;

/// `v` as two big-endian bytes.
pub open spec fn be16(v: u16) -> Seq<u8> {
    seq![(v / 0x100) as u8, (v % 0x100) as u8]
}

/// `v` as four big-endian bytes.
pub open spec fn be32(v: u32) -> Seq<u8> {
    seq![(v / 0x100_0000) as u8, ((v / 0x1_0000) % 0x100) as u8, ((v / 0x100) % 0x100) as u8, (v % 0x100) as u8]
}

/// The big-endian `u16` at `i` of `s`.
pub open spec fn read_be16(s: Seq<u8>, i: int) -> u16 {
    (s[i] * 0x100 + s[i + 1]) as u16
}

/// The big-endian `u32` at `i` of `s`.
pub open spec fn read_be32(s: Seq<u8>, i: int) -> u32 {
    (s[i] * 0x100_0000 + s[i + 1] * 0x1_0000 + s[i + 2] * 0x100 + s[i + 3]) as u32
}

/// The big-endian `u64` at `i` of `s`.
pub open spec fn read_be64(s: Seq<u8>, i: int) -> u64 {
    (read_be32(s, i) * 0x1_0000_0000 + read_be32(s, i + 4)) as u64
}

/// The bytes of a packet: its type number and its payload length (kept to
/// 32 bits), both big-endian, then the payload.
pub open spec fn packet_bytes(t: MessageType, payload: Seq<u8>) -> Seq<u8> {
    be16(type_code(t)) + be32((payload.len() % 0x1_0000_0000) as u32) + payload
}

/// The packet that `data` starts with, if it is one: a known type number and
/// a payload no longer than the bytes after the header.
pub open spec fn parse_packet(data: Seq<u8>) -> Option<(MessageType, Seq<u8>)> {
    if data.len() < 6 {
        None
    } else {
        match type_of_code(read_be16(data, 0)) {
            None => None,
            Some(t) => {
                let n = read_be32(data, 2);
                if data.len() < 6 + n {
                    None
                } else {
                    Some((t, data.subrange(6, 6 + n)))
                }
            },
        }
    }
}

fn push_be16(out: &mut Vec<u8>, v: u16)
    ensures
        final(out)@ == old(out)@ + be16(v),
{
    out.push((v / 0x100) as u8);
    out.push((v % 0x100) as u8);
    assert(final(out)@ =~= old(out)@ + be16(v));
}

fn push_be32(out: &mut Vec<u8>, v: u32)
    ensures
        final(out)@ == old(out)@ + be32(v),
{
    out.push((v / 0x100_0000) as u8);
    out.push(((v / 0x1_0000) % 0x100) as u8);
    out.push(((v / 0x100) % 0x100) as u8);
    out.push((v % 0x100) as u8);
    assert(final(out)@ =~= old(out)@ + be32(v));
}

fn get_be16(s: &[u8], i: usize) -> (v: u16)
    requires
        i + 2 <= s@.len(),
    ensures
        v == read_be16(s@, i as int),
{
    (s[i] as u16) * 0x100 + (s[i + 1] as u16)
}

fn get_be32(s: &[u8], i: usize) -> (v: u32)
    requires
        i + 4 <= s@.len(),
    ensures
        v == read_be32(s@, i as int),
{
    (s[i] as u32) * 0x100_0000 + (s[i + 1] as u32) * 0x1_0000 + (s[i + 2] as u32) * 0x100 + (s[i
        + 3] as u32)
}

fn get_be64(s: &[u8], i: usize) -> (v: u64)
    requires
        i + 8 <= s@.len(),
    ensures
        v == read_be64(s@, i as int),
{
    let n = s.len();
    assert(i + 4 <= n);
    (get_be32(s, i) as u64) * 0x1_0000_0000 + (get_be32(s, i + 4) as u64)
}

fn copy_bytes(data: &[u8]) -> (v: Vec<u8>)
    ensures
        v@ == data@,
{
    let mut v: Vec<u8> = Vec::new();
    v.extend_from_slice(data);
    v
}

impl Packet {
    pub fn new(msg_type: MessageType, payload: Vec<u8>) -> (p: Self)
        ensures
            p.msg_type == msg_type,
            p.payload == payload,
    {
        Packet { msg_type, payload }
    }

    /// The packet's bytes on the wire.
    pub fn serialize(&self) -> (out: Vec<u8>)
        ensures
            out@ == packet_bytes(self.msg_type, self.payload@),
    {
        let mut out: Vec<u8> = Vec::new();
        push_be16(&mut out, self.msg_type.code());
        push_be32(&mut out, ((self.payload.len() as u64) % 0x1_0000_0000) as u32);
        out.extend_from_slice(self.payload.as_slice());
        assert(out@ =~= packet_bytes(self.msg_type, self.payload@));
        out
    }

    /// Reads the packet that `data` starts with; bytes after its payload are
    /// ignored. Too short a buffer or an unknown type is `InvalidPacket`.
    pub fn deserialize(data: &[u8]) -> (r: Result<Packet, ProtocolError>)
        ensures
            match parse_packet(data@) {
                Some((t, payload)) => r matches Ok(p) && p.msg_type == t && p.payload@ == payload,
                None => r matches Err(ProtocolError::InvalidPacket),
            },
    {
        if data.len() < HEADER_SIZE {
            return Err(ProtocolError::InvalidPacket);
        }
        let type_val = get_be16(data, 0);
        let msg_type = match MessageType::from_code(type_val) {
            Ok(t) => t,
            Err(e) => return Err(e),
        };
        let len = get_be32(data, 2);
        if (data.len() as u64) < 6 + (len as u64) {
            return Err(ProtocolError::InvalidPacket);
        }
        let len = len as usize;
        let payload = copy_bytes(&data[HEADER_SIZE..HEADER_SIZE + len]);
        Ok(Packet { msg_type, payload })
    }
}

/// A serialized packet reads back as the same packet, whatever follows it,
/// for every payload whose length fits the 32-bit length field.
pub proof fn lemma_packet_roundtrip(t: MessageType, payload: Seq<u8>, rest: Seq<u8>)
    requires
        payload.len() <= u32::MAX,
    ensures
        parse_packet(packet_bytes(t, payload) + rest) == Some((t, payload)),
{
    let data = packet_bytes(t, payload) + rest;
    let c = type_code(t);
    let n = payload.len() as u32;
    assert((payload.len() % 0x1_0000_0000) as u32 == n);
    assert(data[0] == (c / 0x100) as u8 && data[1] == (c % 0x100) as u8);
    assert(read_be16(data, 0) == c);
    assert(data[2] == (n / 0x100_0000) as u8 && data[3] == ((n / 0x1_0000) % 0x100) as u8 && data[4]
        == ((n / 0x100) % 0x100) as u8 && data[5] == (n % 0x100) as u8);
    assert(read_be32(data, 2) == n);
    assert(data.subrange(6, 6 + n) =~= payload);
}

/// The cipher of the handshake's channel, as yet the identity.
pub open spec fn simplified_cipher(data: Seq<u8>) -> Seq<u8> {
    data
}

/// Decrypting what was encrypted gives the data back.
pub proof fn lemma_cipher_roundtrip(data: Seq<u8>)
    ensures
        simplified_cipher(simplified_cipher(data)) == data,
{
}

/// The password handshake.
pub struct SecureHandshake {
    shared_secret: Option<Vec<u8>>,
}

/// The digest the handshake sends: SHA-256 of the password followed by
/// `RustDesk`.
pub open spec fn handshake_digest(password: Seq<u8>) -> Seq<u8> {
    sha256(password + "RustDesk"@.map_values(|c: char| c as u8))
}

fn rustdesk_salt() -> (v: Vec<u8>)
    ensures
        v@ == "RustDesk"@.map_values(|c: char| c as u8),
{
    let v: Vec<u8> = vec![0x52, 0x75, 0x73, 0x74, 0x44, 0x65, 0x73, 0x6B];
    proof {
        reveal_strlit("RustDesk");
    }
    assert(v@ =~= "RustDesk"@.map_values(|c: char| c as u8));
    v
}

impl SecureHandshake {
    /// The shared secret, once a handshake has succeeded.
    pub closed spec fn secret(&self) -> Option<Seq<u8>> {
        match self.shared_secret {
            Some(s) => Some(s@),
            None => None,
        }
    }

    pub fn new() -> (h: Self)
        ensures
            h.secret() is None,
    {
        SecureHandshake { shared_secret: None }
    }

    /// The handshake packet for `password`, with the digest it carries: the
    /// payload is the digest's length (two bytes, big-endian) and the digest.
    pub fn request(password: &str) -> (r: (Packet, Vec<u8>))
        ensures
            r.1@ == handshake_digest(password.spec_bytes()),
            r.0.msg_type == MessageType::Handshake,
            r.0.payload@ == be16(32) + r.1@,
    {
        let digest = salted_digest(password.as_bytes(), rustdesk_salt().as_slice());
        let mut payload: Vec<u8> = Vec::new();
        push_be16(&mut payload, digest.len() as u16);
        payload.extend_from_slice(digest.as_slice());
        (Packet { msg_type: MessageType::Handshake, payload }, digest)
    }

    /// Judges the peer's reply: a `HandshakeResponse` whose first payload byte
    /// is 0 accepts, and the digest becomes the shared secret.
    pub fn accept(&mut self, response: &Packet, digest: Vec<u8>) -> (r: Result<(), ProtocolError>)
        ensures
            response.msg_type == MessageType::HandshakeResponse && response.payload@.len() > 0
                && response.payload@[0] == 0 ==> r is Ok && final(self).secret() == Some(digest@),
            response.msg_type == MessageType::HandshakeResponse && !(response.payload@.len() > 0
                && response.payload@[0] == 0) ==> (r matches Err(ProtocolError::HandshakeFailed(m))
                && m@ == "Authentication failed"@ && final(self).secret() == old(self).secret()),
            response.msg_type != MessageType::HandshakeResponse ==> (r matches Err(
                ProtocolError::HandshakeFailed(m),
            ) && m@ == "Invalid handshake response"@ && final(self).secret() == old(self).secret()),
    {
        if response.msg_type == MessageType::HandshakeResponse {
            if response.payload.len() > 0 && response.payload[0] == 0 {
                self.shared_secret = Some(digest);
                Ok(())
            } else {
                Err(ProtocolError::HandshakeFailed(String::from_str("Authentication failed")))
            }
        } else {
            Err(ProtocolError::HandshakeFailed(String::from_str("Invalid handshake response")))
        }
    }

    /// Encrypts `data` with the simplified cipher.
    pub fn encrypt(&self, data: &[u8]) -> (r: Result<Vec<u8>, ProtocolError>)
        ensures
            r matches Ok(v) && v@ == simplified_cipher(data@),
    {
        Ok(copy_bytes(data))
    }

    /// Decrypts `data` with the simplified cipher.
    pub fn decrypt(&self, data: &[u8]) -> (r: Result<Vec<u8>, ProtocolError>)
        ensures
            r matches Ok(v) && v@ == simplified_cipher(data@),
    {
        Ok(copy_bytes(data))
    }
}

/// A frame of the legacy video stream.
#[derive(Debug, Clone)]
pub struct VideoFrame {
    pub width: u32,
    pub height: u32,
    pub data: Vec<u8>,
    pub timestamp: u64,
}

/// Reads the frame a `VideoFrame` packet carries: width and height (four
/// bytes each), a timestamp (eight bytes), all big-endian, then the pixels.
/// Other packets carry none. A video payload shorter than twelve bytes is
/// `InvalidPacket`; one of twelve to fifteen bytes has no room for the
/// timestamp and is not accepted.
pub fn video_frame_of(packet: &Packet) -> (r: Result<Option<VideoFrame>, ProtocolError>)
    requires
        packet.msg_type == MessageType::VideoFrame ==> !(12 <= packet.payload@.len() < 16),
    ensures
        packet.msg_type != MessageType::VideoFrame ==> r matches Ok(None),
        packet.msg_type == MessageType::VideoFrame && packet.payload@.len() < 12 ==> r matches Err(
            ProtocolError::InvalidPacket,
        ),
        packet.msg_type == MessageType::VideoFrame && packet.payload@.len() >= 16 ==> (r matches Ok(
            Some(f),
        ) && f.width == read_be32(packet.payload@, 0) && f.height == read_be32(packet.payload@, 4)
            && f.timestamp == read_be64(packet.payload@, 8) && f.data@ == packet.payload@.subrange(
            16,
            packet.payload@.len() as int,
        )),
{
    if packet.msg_type == MessageType::VideoFrame {
        let data = packet.payload.as_slice();
        if data.len() < 12 {
            return Err(ProtocolError::InvalidPacket);
        }
        let width = get_be32(data, 0);
        let height = get_be32(data, 4);
        let timestamp = get_be64(data, 8);
        let frame_data = copy_bytes(&data[16..data.len()]);
        return Ok(Some(VideoFrame { width, height, data: frame_data, timestamp }));
    }
    Ok(None)
}

/// A key event: the key code (four bytes, big-endian) and 1 or 0 for
/// pressed or released.
pub fn key_event_packet(key: u32, pressed: bool) -> (p: Packet)
    ensures
        p.msg_type == MessageType::KeyEvent,
        p.payload@ == be32(key) + seq![if pressed { 1u8 } else { 0u8 }],
{
    let mut payload: Vec<u8> = Vec::new();
    push_be32(&mut payload, key);
    payload.push(if pressed { 1u8 } else { 0u8 });
    Packet { msg_type: MessageType::KeyEvent, payload }
}

/// A pointer move: x and y as big-endian two's-complement words.
pub fn mouse_move_packet(x: i32, y: i32) -> (p: Packet)
    ensures
        p.msg_type == MessageType::MouseEvent,
        p.payload@ == be32(x as u32) + be32(y as u32),
{
    let mut payload: Vec<u8> = Vec::new();
    push_be32(&mut payload, x as u32);
    push_be32(&mut payload, y as u32);
    Packet { msg_type: MessageType::MouseEvent, payload }
}

/// A pointer button event: the button (four bytes, big-endian) and 1 or 0
/// for pressed or released.
pub fn mouse_click_packet(button: u32, pressed: bool) -> (p: Packet)
    ensures
        p.msg_type == MessageType::MouseEvent,
        p.payload@ == be32(button) + seq![if pressed { 1u8 } else { 0u8 }],
{
    let mut payload: Vec<u8> = Vec::new();
    push_be32(&mut payload, button);
    payload.push(if pressed { 1u8 } else { 0u8 });
    Packet { msg_type: MessageType::MouseEvent, payload }
}

/// An ID-server command: the command byte, the id's byte length (kept to
/// 16 bits, big-endian) and the id.
pub open spec fn id_command_payload(command: u8, id: Seq<u8>) -> Seq<u8> {
    seq![command] + be16((id.len() % 0x1_0000) as u16) + id
}

fn id_command(command: u8, msg_type: MessageType, id: &str) -> (p: Packet)
    ensures
        p.msg_type == msg_type,
        p.payload@ == id_command_payload(command, id.spec_bytes()),
{
    let mut payload: Vec<u8> = Vec::new();
    payload.push(command);
    push_be16(&mut payload, ((id.as_bytes().len() as u64) % 0x1_0000) as u16);
    payload.extend_from_slice(id.as_bytes());
    assert(payload@ =~= id_command_payload(command, id.spec_bytes()));
    Packet { msg_type, payload }
}

/// The packet that registers `local_id` with the ID server (command 1).
pub fn register_packet(local_id: &str) -> (p: Packet)
    ensures
        p.msg_type == MessageType::Handshake,
        p.payload@ == id_command_payload(1, local_id.spec_bytes()),
{
    id_command(1, MessageType::Handshake, local_id)
}

/// The packet that asks the ID server for `remote_id` (command 2).
pub fn connection_request_packet(remote_id: &str) -> (p: Packet)
    ensures
        p.msg_type == MessageType::ConnectionRequest,
        p.payload@ == id_command_payload(2, remote_id.spec_bytes()),
{
    id_command(2, MessageType::ConnectionRequest, remote_id)
}

/// The name `Debug` prints for a kind.
pub open spec fn kind_name(t: MessageType) -> Seq<char> {
    match t {
        MessageType::Handshake => "Handshake"@,
        MessageType::HandshakeResponse => "HandshakeResponse"@,
        MessageType::ConnectionRequest => "ConnectionRequest"@,
        MessageType::ConnectionResponse => "ConnectionResponse"@,
        MessageType::Disconnect => "Disconnect"@,
        MessageType::VideoFrame => "VideoFrame"@,
        MessageType::VideoConfig => "VideoConfig"@,
        MessageType::KeepAlive => "KeepAlive"@,
        MessageType::KeyEvent => "KeyEvent"@,
        MessageType::MouseEvent => "MouseEvent"@,
        MessageType::ClipboardEvent => "ClipboardEvent"@,
        MessageType::Ping => "Ping"@,
        MessageType::Pong => "Pong"@,
        MessageType::Error => "Error"@,
    }
}

impl MessageType {
    /// The name `Debug` prints for this kind.
    pub fn name(self) -> (s: &'static str)
        ensures
            s@ == kind_name(self),
    {
        match self {
            MessageType::Handshake => "Handshake",
            MessageType::HandshakeResponse => "HandshakeResponse",
            MessageType::ConnectionRequest => "ConnectionRequest",
            MessageType::ConnectionResponse => "ConnectionResponse",
            MessageType::Disconnect => "Disconnect",
            MessageType::VideoFrame => "VideoFrame",
            MessageType::VideoConfig => "VideoConfig",
            MessageType::KeepAlive => "KeepAlive",
            MessageType::KeyEvent => "KeyEvent",
            MessageType::MouseEvent => "MouseEvent",
            MessageType::ClipboardEvent => "ClipboardEvent",
            MessageType::Ping => "Ping",
            MessageType::Pong => "Pong",
            MessageType::Error => "Error",
        }
    }
}

/// Judges the ID server's answer to a connection request: it must be a
/// `ConnectionResponse` whose status byte is 0.
pub fn check_connection_response(response: &Packet) -> (r: Result<(), ProtocolError>)
    requires
        response.msg_type == MessageType::ConnectionResponse ==> response.payload@.len() > 0,
    ensures
        response.msg_type != MessageType::ConnectionResponse ==> (r matches Err(
            ProtocolError::HandshakeFailed(m),
        ) && m@ == "Unexpected response type: "@ + kind_name(response.msg_type)),
        response.msg_type == MessageType::ConnectionResponse && response.payload@[0] != 0 ==> r matches Err(
            ProtocolError::PeerNotFound,
        ),
        response.msg_type == MessageType::ConnectionResponse && response.payload@[0] == 0 ==> r is Ok,
{
    if response.msg_type != MessageType::ConnectionResponse {
        let mut m = String::from_str("Unexpected response type: ");
        m.append(response.msg_type.name());
        return Err(ProtocolError::HandshakeFailed(m));
    }
    if response.payload[0] != 0 {
        return Err(ProtocolError::PeerNotFound);
    }
    Ok(())
}

/// Judges the first packet from a punched peer: only a `Pong` completes the
/// connection.
pub fn check_pong(packet: &Packet) -> (r: Result<(), ProtocolError>)
    ensures
        packet.msg_type == MessageType::Pong ==> r is Ok,
        packet.msg_type != MessageType::Pong ==> (r matches Err(ProtocolError::HandshakeFailed(m))
            && m@ == "Unexpected packet type"@),
{
    if packet.msg_type == MessageType::Pong {
        Ok(())
    } else {
        Err(ProtocolError::HandshakeFailed(String::from_str("Unexpected packet type")))
    }
}

} // verus!
