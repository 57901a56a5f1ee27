use harmonydesk::base64::{b64_decode, b64_encode};
use harmonydesk::connect::{
    clock_uuid_bytes, lookup_plan, peer_check_verdict, punch_and_relay_failed, relay_join_failed,
    relay_target, relay_wait_outcome, uuid_from_bytes, HandshakeNext, LookupPlan, Outgoing,
    PeerHandshake, PunchStep, PunchWait,
};
use harmonydesk::crypto::password_hash;
use harmonydesk::endpoint::{
    is_direct_ip_peer, is_idle_read, is_official_placeholder, normalize_direct_addr,
    normalize_licence_key, normalize_relay_addr, normalize_server, session_read_error, SessionRead,
};
use harmonydesk::messages::{
    build_empty_public_key, build_key_chr, build_key_control, build_login_request,
    build_mouse_event, build_punch_request, build_refresh_video,
};
use harmonydesk::rendezvous::{
    decode_addr_mangle, find_bytes_field, parse_hash, parse_login_response, parse_punch_response,
    parse_relay_response,
};
use harmonydesk::session::{Core, Media, STATUS_CONNECTING, STATUS_FAILED, STATUS_IDLE, STATUS_READY};
use harmonydesk::wire::{
    decode_frame_length, encode_bytes, encode_sint32_field, encode_string, encode_varint,
    encode_varint_field, frame_disposition, frame_header_size, frame_message, frame_plan, next_field,
    payload_fields, read_varint, FrameDisposition, FramePlan, ProtoValue,
};

fn msg(field: u32, inner: &[u8]) -> Vec<u8> {
    let mut m = Vec::new();
    encode_bytes(&mut m, field, inner);
    m
}

#[test]
fn varints_use_seven_bit_groups() {
    let mut out = Vec::new();
    encode_varint(&mut out, 300);
    assert_eq!(out, vec![0xAC, 0x02]);
    let mut i = 0;
    assert_eq!(read_varint(&out, &mut i), Some(300));
    assert_eq!(i, 2);
    let mut j = 0;
    assert_eq!(read_varint(&[0x80], &mut j), None);
    let mut big = Vec::new();
    encode_varint(&mut big, u64::MAX);
    let mut k = 0;
    assert_eq!(read_varint(&big, &mut k), Some(u64::MAX));
}

#[test]
fn signed_fields_are_zigzag_encoded() {
    let mut out = Vec::new();
    encode_sint32_field(&mut out, 2, -1);
    assert_eq!(out, vec![0x10, 0x01]);
    let mut out2 = Vec::new();
    encode_sint32_field(&mut out2, 2, 1);
    assert_eq!(out2, vec![0x10, 0x02]);
}

#[test]
fn fields_read_back_in_order() {
    let mut m = Vec::new();
    encode_varint_field(&mut m, 1, 7);
    encode_string(&mut m, 2, "hi");
    let mut i = 0;
    match next_field(&m, &mut i) {
        Some((1, ProtoValue::Varint(7))) => {}
        _ => panic!("first field"),
    }
    match next_field(&m, &mut i) {
        Some((2, ProtoValue::Bytes(b))) => assert_eq!(b, b"hi"),
        _ => panic!("second field"),
    }
    assert!(next_field(&m, &mut i).is_none());
    assert_eq!(payload_fields(&m), vec![1, 2]);
    // A length that runs past the end stops the reading.
    assert!(next_field(&[0x12, 0x05, 1], &mut 0).is_none());
    // Wire type 3 is not understood.
    assert!(next_field(&[0x0B], &mut 0).is_none());
}

#[test]
fn frames_carry_length_headers() {
    assert_eq!(frame_message(&[1, 2]), vec![8, 1, 2]);
    let mid = frame_message(&[0u8; 64]);
    assert_eq!(&mid[..2], &[0x01, 0x01]);
    assert_eq!(mid.len(), 66);
    let big = frame_message(&vec![0u8; 0x4000]);
    assert_eq!(&big[..3], &[0x02, 0x00, 0x01]);
    assert_eq!(frame_header_size(0x02), 3);
    assert_eq!(decode_frame_length(&[0x02, 0x00, 0x01]), 0x4000);
    assert_eq!(decode_frame_length(&[0x01, 0x01]), 64);
    assert!(matches!(frame_disposition(0), FrameDisposition::Bad));
    assert!(matches!(frame_disposition(64 * 1024 * 1024 + 1), FrameDisposition::Bad));
    assert!(matches!(frame_disposition(8 * 1024 * 1024 + 1), FrameDisposition::Skip));
    assert!(matches!(frame_disposition(10), FrameDisposition::Read));
}

#[test]
fn base64_roundtrips() {
    assert_eq!(b64_encode(b"hello"), "aGVsbG8=");
    assert_eq!(b64_decode("aGVs bG8="), Some(b"hello".to_vec()));
    assert_eq!(b64_decode("a"), None);
    assert_eq!(b64_decode(""), None);
    assert_eq!(b64_decode(&b64_encode(&[0, 255, 7])), Some(vec![0, 255, 7]));
}

#[test]
fn servers_are_normalised() {
    assert_eq!(normalize_server(" https://hbbs.example.com/path ").unwrap(), "hbbs.example.com:21116");
    assert_eq!(normalize_server("10.0.0.2:9000").unwrap(), "10.0.0.2:9000");
    assert_eq!(normalize_server("").unwrap_err(), "missing self-hosted id server");
    assert!(normalize_server("rs-ny.rustdesk.com").is_err());
    assert!(is_official_placeholder(" Router.RustDesk.com "));
    assert!(!is_official_placeholder("my.server"));
}

#[test]
fn direct_ip_peers_are_recognised() {
    assert!(is_direct_ip_peer("192.168.1.5"));
    assert!(is_direct_ip_peer("host.lan:21118"));
    assert!(!is_direct_ip_peer("123456789"));
    assert!(!is_direct_ip_peer("300.1.1.1"));
    assert_eq!(normalize_direct_addr("192.168.1.5"), "192.168.1.5:21118");
    assert_eq!(normalize_direct_addr("192.168.1.5:99"), "192.168.1.5:99");
}

#[test]
fn relay_addresses_default_to_the_id_host() {
    assert_eq!(normalize_relay_addr("", "hbbs.lan:21116"), "hbbs.lan:21117");
    assert_eq!(normalize_relay_addr("http://relay.lan/x", "a:1"), "relay.lan:21117");
    assert_eq!(normalize_relay_addr("relay.lan:9", "a:1"), "relay.lan:9");
    assert_eq!(relay_target("", "conf.lan", "id.lan:1"), "conf.lan:21117");
    assert_eq!(relay_target("hint.lan:5", "conf.lan", "id.lan:1"), "hint.lan:5");
}

#[test]
fn licence_keys_lose_quotes_and_spaces() {
    assert_eq!(normalize_licence_key(" \"abc\" "), "abc");
    let full: Vec<u8> = (0u8..64).collect();
    assert_eq!(normalize_licence_key(&b64_encode(&full)), b64_encode(&full[32..]));
}

#[test]
fn idle_reads_are_recognised() {
    assert!(is_idle_read("Resource temporarily unavailable (os error 11)"));
    assert!(is_idle_read("connection TIMED OUT"));
    assert!(!is_idle_read("eof"));
}

#[test]
fn login_proof_is_double_sha256() {
    let h = password_hash(b"secret", "salt", "chal");
    assert_eq!(h.len(), 32);
    assert_eq!(&h[..4], &[125, 6, 105, 103]);
}

#[test]
fn messages_have_their_wire_layout() {
    assert_eq!(build_refresh_video(), vec![0x9A, 0x01, 0x02, 0x50, 0x01]);
    assert_eq!(build_empty_public_key(), vec![0x22, 0x00]);
    assert_eq!(build_key_chr(97, true, false), msg(15, &[0x08, 1, 0x20, 97, 0x48, 0]));
    assert_eq!(build_key_control(27, false, false), msg(15, &[0x18, 27, 0x48, 0]));
    assert_eq!(build_mouse_event(1, 2, -3), msg(10, &[0x08, 1, 0x10, 4, 0x18, 5]));
    let punch = build_punch_request("12", "", false);
    let mut i = 0;
    match next_field(&punch, &mut i) {
        Some((8, ProtoValue::Bytes(inner))) => {
            let mut j = 0;
            match next_field(inner, &mut j) {
                Some((1, ProtoValue::Bytes(id))) => assert_eq!(id, b"12"),
                _ => panic!("peer id"),
            }
        }
        _ => panic!("punch hole request"),
    }
    let login = build_login_request("7", &[1, 2], 9);
    assert_eq!(payload_fields(&login), vec![7]);
}

#[test]
fn mangled_addresses_decode() {
    let bytes = [254, 168, 0, 173, 104, 36, 128, 254, 107, 56];
    assert_eq!(decode_addr_mangle(&bytes).unwrap(), "192.168.1.10:21118");
    assert!(decode_addr_mangle(&[]).is_none());
    assert!(decode_addr_mangle(&[0u8; 17]).is_none());
    assert!(decode_addr_mangle(&[0, 0, 0]).is_none());
}

fn punch_payload(inner: &[u8]) -> Vec<u8> {
    msg(11, inner)
}

#[test]
fn punch_responses_give_verdicts() {
    let mut failure = Vec::new();
    encode_varint_field(&mut failure, 3, 2);
    assert_eq!(parse_punch_response(&punch_payload(&failure)).unwrap(), "OFFLINE");
    let mut unknown = Vec::new();
    encode_varint_field(&mut unknown, 3, 9);
    assert_eq!(parse_punch_response(&punch_payload(&unknown)).unwrap(), "UNKNOWN_FAILURE");
    let mut other = failure.clone();
    encode_string(&mut other, 7, "busy");
    assert_eq!(parse_punch_response(&punch_payload(&other)).unwrap(), "other_failure:busy");
    let mut direct = Vec::new();
    encode_bytes(&mut direct, 1, &[254, 168, 0, 173, 104, 36, 128, 254, 107, 56]);
    assert_eq!(parse_punch_response(&punch_payload(&direct)).unwrap(), "ONLINE_DIRECT 192.168.1.10:21118");
    encode_string(&mut direct, 4, "relay.lan");
    assert_eq!(
        parse_punch_response(&punch_payload(&direct)).unwrap(),
        "ONLINE_DIRECT 192.168.1.10:21118|relay.lan"
    );
    let mut relay = Vec::new();
    encode_string(&mut relay, 4, "r.lan");
    assert_eq!(parse_punch_response(&punch_payload(&relay)).unwrap(), "ONLINE_RELAY r.lan");
    assert_eq!(parse_punch_response(&punch_payload(&[])).unwrap(), "EMPTY_RESPONSE");
    assert!(parse_punch_response(&msg(12, &[])).is_none());
    assert_eq!(find_bytes_field(&punch_payload(&relay), 11).unwrap(), relay.as_slice());
}

#[test]
fn relay_responses_are_read() {
    let mut inner = Vec::new();
    encode_string(&mut inner, 2, "u-1");
    assert_eq!(parse_relay_response(&msg(19, &inner)).unwrap(), "u-1");
    encode_string(&mut inner, 3, "relay:21117");
    assert_eq!(parse_relay_response(&msg(19, &inner)).unwrap(), "u-1 relay:21117");
    encode_string(&mut inner, 6, "no");
    assert_eq!(parse_relay_response(&msg(19, &inner)).unwrap_err(), "relay refused: no");
    assert_eq!(parse_relay_response(&msg(11, &[])).unwrap_err(), "no RelayResponse");
}

#[test]
fn login_exchange_messages_are_read() {
    let mut hash = Vec::new();
    encode_string(&mut hash, 1, "s");
    encode_string(&mut hash, 2, "c");
    assert_eq!(parse_hash(&hash), ("s".to_string(), "c".to_string()));
    let mut display = Vec::new();
    encode_varint_field(&mut display, 3, 1920);
    encode_varint_field(&mut display, 4, 1080);
    let mut peer = Vec::new();
    encode_string(&mut peer, 1, "user");
    encode_string(&mut peer, 2, "host");
    encode_string(&mut peer, 3, "Windows");
    encode_bytes(&mut peer, 4, &display);
    let (ok, size) = parse_login_response(&msg(2, &peer));
    assert_eq!(ok.unwrap(), "user@host Windows");
    assert_eq!(size, Some((1920, 1080)));
    let mut err = Vec::new();
    encode_string(&mut err, 1, "Wrong Password");
    let (bad, none) = parse_login_response(&err);
    assert_eq!(bad.unwrap_err(), "Wrong Password");
    assert_eq!(none, None);
}

#[test]
fn punch_wait_reads_past_key_exchange() {
    let mut w = PunchWait::new();
    assert!(matches!(w.on_frame(&msg(25, &[])), PunchStep::ReadAgain));
    assert!(matches!(w.on_error("idle"), PunchStep::ReadAgain));
    let mut failure = Vec::new();
    encode_varint_field(&mut failure, 3, 0);
    match w.on_frame(&punch_payload(&failure)) {
        PunchStep::Done(Ok(d)) => assert_eq!(d, "ID_NOT_EXIST"),
        _ => panic!("expected a verdict"),
    }
}

#[test]
fn punch_wait_gives_up_after_eight_frames() {
    let mut w = PunchWait::new();
    for _ in 0..7 {
        assert!(matches!(w.on_frame(&msg(25, &[])), PunchStep::ReadAgain));
    }
    match w.on_frame(&msg(25, &[])) {
        PunchStep::Done(Err(e)) => assert_eq!(e, "no punch response"),
        _ => panic!("expected the end"),
    }
}

#[test]
fn punch_wait_errors_and_relay_answers() {
    let mut first = PunchWait::new();
    match first.on_error("idle") {
        PunchStep::Done(Err(e)) => assert_eq!(e, "idle"),
        _ => panic!("the first idle read ends the wait"),
    }
    let mut w = PunchWait::new();
    let mut inner = Vec::new();
    encode_string(&mut inner, 2, "u");
    encode_string(&mut inner, 3, "relay.lan");
    match w.on_frame(&msg(19, &inner)) {
        PunchStep::Done(Ok(d)) => assert_eq!(d, "ONLINE_RELAY relay.lan"),
        _ => panic!("relay answer"),
    }
    let mut u = PunchWait::new();
    match u.on_frame(&msg(3, &[])) {
        PunchStep::Done(Err(e)) => assert_eq!(e, "unrecognized rendezvous response"),
        _ => panic!("unknown answer"),
    }
    let mut c = PunchWait::new();
    assert!(matches!(c.on_frame(&msg(14, &[])), PunchStep::ReadAgain));
}

#[test]
fn verdicts_map_to_check_answers_and_plans() {
    assert_eq!(peer_check_verdict("ID_NOT_EXIST"), "NOT_EXIST");
    assert_eq!(peer_check_verdict("ONLINE_RELAY x"), "ONLINE");
    assert_eq!(peer_check_verdict("EMPTY_RESPONSE"), "EMPTY_RESPONSE");
    match lookup_plan("OFFLINE", "42") {
        LookupPlan::Finish(s) => assert_eq!(s, "RESULT: OFFLINE 42"),
        _ => panic!("offline"),
    }
    match lookup_plan("other_failure:x", "42") {
        LookupPlan::Finish(s) => assert_eq!(s, "RESULT: other_failure:x 42"),
        _ => panic!("other"),
    }
    match lookup_plan("ONLINE_DIRECT 1.2.3.4:5|r.lan", "42") {
        LookupPlan::Direct { addr, relay_hint } => {
            assert_eq!(addr, "1.2.3.4:5");
            assert_eq!(relay_hint, "r.lan");
        }
        _ => panic!("direct"),
    }
    match lookup_plan("ONLINE_RELAY r.lan", "42") {
        LookupPlan::Relay { relay_hint } => assert_eq!(relay_hint, "r.lan"),
        _ => panic!("relay"),
    }
    match lookup_plan("ONLINE_RELAY", "42") {
        LookupPlan::Relay { relay_hint } => assert_eq!(relay_hint, ""),
        _ => panic!("bare relay"),
    }
    assert_eq!(relay_wait_outcome("read header: x", "42", "r:1").unwrap(), "RESULT: RELAY_WAITING 42 r:1");
    assert_eq!(relay_wait_outcome("eof", "42", "r:1").unwrap_err(), "eof");
    assert_eq!(punch_and_relay_failed("42", "a", "b"), "RESULT: ONLINE 42 PUNCH_FAIL a RELAY_FAIL b");
    assert_eq!(relay_join_failed("42", "ONLINE_RELAY", "b"), "RESULT: ONLINE 42 ONLINE_RELAY RELAY_FAIL b");
}

#[test]
fn handshake_answers_the_peer() {
    let mut h = PeerHandshake::new();
    let step = h.on_message(&msg(3, &[]), "42", "pw", 1);
    match step.send {
        Some((Outgoing::PublicKey, bytes)) => assert_eq!(bytes, frame_message(&build_empty_public_key())),
        _ => panic!("public key"),
    }
    let mut hash = Vec::new();
    encode_string(&mut hash, 1, "salt");
    encode_string(&mut hash, 2, "chal");
    let step = h.on_message(&msg(9, &hash), "42", "secret", 5);
    assert!(h.got_hash);
    let expected = frame_message(&build_login_request("42", &password_hash(b"secret", "salt", "chal"), 5));
    match step.send {
        Some((Outgoing::LoginRequest, bytes)) => assert_eq!(bytes, expected),
        _ => panic!("login"),
    }
    assert_eq!(step.hash, Some(("salt".to_string(), "chal".to_string())));
    let mut peer = Vec::new();
    encode_string(&mut peer, 1, "u");
    encode_string(&mut peer, 2, "h");
    let done = h.on_message(&msg(8, &msg(2, &peer)), "42", "secret", 5);
    match done.next {
        HandshakeNext::StartSession(s) => assert_eq!(s, "RESULT: LOGIN_OK 42 u@h "),
        _ => panic!("login ok"),
    }
}

#[test]
fn handshake_ends_as_sent_or_paired() {
    let mut h = PeerHandshake::new();
    for _ in 0..7 {
        assert!(matches!(h.on_message(&msg(4, &[]), "42", "pw", 0).next, HandshakeNext::ReadAgain));
    }
    match h.on_message(&msg(4, &[]), "42", "pw", 0).next {
        HandshakeNext::Finish(Ok(s)) => assert_eq!(s, "RESULT: RELAY_PAIRED 42"),
        _ => panic!("paired"),
    }
    let mut e = PeerHandshake::new();
    match e.on_read_error("42", "eof".to_string()).next {
        HandshakeNext::Finish(Err(s)) => assert_eq!(s, "eof"),
        _ => panic!("error"),
    }
    let mut err = Vec::new();
    encode_string(&mut err, 1, "Wrong Password");
    match e.on_message(&msg(8, &err), "42", "pw", 0).next {
        HandshakeNext::Finish(Ok(s)) => assert_eq!(s, "RESULT: LOGIN_ERROR 42 Wrong Password"),
        _ => panic!("login error"),
    }
}

#[test]
fn uuids_are_version_four() {
    let bytes = [0xFFu8; 16];
    assert_eq!(uuid_from_bytes(bytes), "ffffffff-ffff-4fff-bfff-ffffffffffff");
    let zero = uuid_from_bytes([0u8; 16]);
    assert_eq!(zero, "00000000-0000-4000-8000-000000000000");
    let clock = clock_uuid_bytes(0x0102);
    assert_eq!(clock[0], 0x02);
    assert_eq!(clock[1], 0x01 ^ 31);
    assert_eq!(clock[9], 0x01 ^ ((9u32 * 31) % 256) as u8);
}

fn video_message(codec_field: u32, frames: &[(&[u8], bool)]) -> Vec<u8> {
    let mut list = Vec::new();
    for (data, key) in frames {
        let mut f = Vec::new();
        encode_bytes(&mut f, 1, data);
        if *key {
            encode_varint_field(&mut f, 2, 1);
        }
        encode_bytes(&mut list, 1, &f);
    }
    msg(6, &msg(codec_field, &list))
}

#[test]
fn video_waits_for_a_key_frame() {
    let mut m = Media::new();
    // Non-key frames before any key frame are dropped and a refresh is asked.
    m.handle_session_message(&video_message(10, &[(b"a", false)]), 10_000).unwrap();
    assert_eq!(m.video.packets.len(), 0);
    assert_eq!(m.video.keyframe_asks, 1);
    let out = m.take_outgoing();
    assert_eq!(out[0], frame_message(&harmonydesk::messages::build_video_received()));
    assert_eq!(out[1], frame_message(&build_refresh_video()));
    m.handle_session_message(&video_message(10, &[(b"k", true), (b"b", false)]), 10_100).unwrap();
    assert_eq!(m.video.packets.len(), 2);
    assert_eq!(m.video.key_seq, 1);
    assert_eq!(m.frame_count, 3);
    assert_eq!(m.packet_seq, 3);
    assert_eq!(m.last_codec, "h264");
    let p = m.take_packet().unwrap();
    assert_eq!((p.data.as_slice(), p.key), (&b"k"[..], true));
    assert_eq!(m.last_copied_key, 1);
    assert_eq!(m.take_packet().unwrap().data, b"b".to_vec());
    assert!(m.take_packet().is_none());
}

#[test]
fn full_video_queue_drops_its_oldest_third() {
    let mut m = Media::new();
    m.enqueue_video_packet("vp9", b"k".to_vec(), true, 1);
    for i in 0..239u32 {
        m.enqueue_video_packet("vp9", i.to_le_bytes().to_vec(), false, 1);
    }
    assert_eq!(m.video.packets.len(), 240);
    m.enqueue_video_packet("vp9", b"new".to_vec(), false, 1);
    assert_eq!(m.video.packets.len(), 161);
    assert_eq!(m.video.packets.back().unwrap().data, b"new".to_vec());
    m.enqueue_video_packet("vp9", b"key2".to_vec(), true, 1);
    assert_eq!(m.video.packets.len(), 1);
    assert_eq!(m.video.last_key_packet.as_ref().unwrap().data, b"key2".to_vec());
}

#[test]
fn refresh_asks_are_throttled() {
    let mut m = Media::new();
    assert!(m.ask_refresh_video(5000));
    assert!(!m.ask_refresh_video(6000));
    assert!(m.ask_refresh_video(6500));
    assert_eq!(m.take_outgoing().len(), 2);
}

#[test]
fn outgoing_queue_keeps_the_newest_eighty() {
    let mut m = Media::new();
    for i in 0..161u8 {
        m.enqueue_msg(&[i]);
    }
    assert_eq!(m.outgoing.len(), 161);
    m.enqueue_msg(&[200]);
    assert_eq!(m.outgoing.len(), 81);
    assert_eq!(m.outgoing[0], frame_message(&[81]));
    m.enqueue_msg_front(&[7]);
    assert_eq!(m.outgoing[0], frame_message(&[7]));
}

#[test]
fn test_delay_is_echoed_and_misc_sets_the_display() {
    let mut m = Media::new();
    let reply = m.handle_session_message(&msg(5, &[8, 1]), 1).unwrap().unwrap();
    assert_eq!(reply, frame_message(&msg(5, &[8, 1])));
    let mut size = Vec::new();
    encode_varint_field(&mut size, 4, 800);
    encode_varint_field(&mut size, 5, 600);
    assert!(m.handle_session_message(&msg(19, &msg(5, &size)), 1).unwrap().is_none());
    assert_eq!((m.display_width, m.display_height), (800, 600));
    assert!(m.handle_session_message(&[], 1).unwrap().is_none());
}

#[test]
fn mouse_buttons_at_the_origin_reuse_the_cursor() {
    let mut m = Media::new();
    m.send_mouse(0, 10, 20);
    m.send_mouse(1, 0, 0);
    m.send_mouse(3, 5, 5);
    let out = m.take_outgoing();
    assert_eq!(out[1], frame_message(&build_mouse_event(1, 10, 20)));
    assert_eq!(out[2], frame_message(&build_mouse_event(3, 5, 5)));
    assert_eq!(m.last_mouse, (10, 20));
}

#[test]
fn text_is_typed_after_releasing_modifiers() {
    let mut m = Media::new();
    m.send_text("a\n");
    let out = m.take_outgoing();
    assert_eq!(out.len(), 8);
    assert_eq!(out[0], frame_message(&build_key_control(4, false, false)));
    assert_eq!(out[4], frame_message(&build_key_chr(97, true, false)));
    assert_eq!(out[6], frame_message(&build_key_control(27, true, false)));
    m.send_text("");
    m.send_key(0, 1, 0);
    m.send_control(-1, 1, 1);
    m.send_chord(100, 0);
    assert!(m.take_outgoing().is_empty());
    m.send_chord(1015, 1);
    assert_eq!(m.take_outgoing().len(), 5);
}

#[test]
fn connecting_requires_a_server_or_direct_address() {
    let mut c = Core::new();
    assert_eq!(c.begin_connect("123456"), -1);
    assert_eq!(c.link.status, STATUS_FAILED);
    assert_eq!(c.set_server("hbbs.lan", "", false, "k"), 0);
    assert_eq!(c.settings.server, "hbbs.lan:21116");
    assert_eq!(c.begin_connect("123456"), 0);
    assert_eq!(c.link.status, STATUS_CONNECTING);
    assert_eq!(c.media.last_auto_fps, 25);
    let gen = c.link.connect_gen;
    assert!(c.lookup_started(gen));
    c.finish_lookup(gen, Ok("RESULT: OFFLINE 123456".to_string()));
    assert_eq!(c.link.status, STATUS_READY);
    assert_eq!(c.set_server("", "", false, ""), -1);
    assert_eq!(c.settings.server, "");
}

#[test]
fn disconnect_makes_old_lookups_stale() {
    let mut c = Core::new();
    assert_eq!(c.begin_connect("192.168.1.9"), 0);
    assert_eq!(c.media.last_auto_fps, 60);
    let gen = c.link.connect_gen;
    c.disconnect();
    assert_eq!(c.link.status, STATUS_IDLE);
    c.finish_lookup(gen, Err("boom".to_string()));
    assert_eq!(c.link.status, STATUS_IDLE);
    assert_eq!(c.link.error, "");
    assert!(!c.lookup_started(gen));
    c.session_ended(gen);
    assert_eq!(c.link.status, STATUS_IDLE);
}

#[test]
fn online_checks_report_their_outcome() {
    let mut c = Core::new();
    assert_eq!(c.begin_check(""), -1);
    assert_eq!(c.begin_check("42"), -2);
    assert_eq!(c.link.check_result, "NO_SERVER");
    assert_eq!(c.begin_check("10.0.0.1"), 0);
    assert_eq!(c.link.check_result, "PENDING");
    let gen = c.link.check_gen;
    c.finish_check(gen, Err("dns".to_string()));
    assert_eq!(c.link.check_result, "ERROR:dns");
    c.finish_check(gen + 1, Ok("ONLINE".to_string()));
    assert_eq!(c.link.check_result, "ERROR:dns");
}

#[test]
fn sessions_end_with_an_interruption() {
    let mut c = Core::new();
    c.set_server("hbbs.lan", "", false, "");
    c.begin_connect("42");
    let gen = c.link.connect_gen;
    c.login_ok();
    assert_eq!(c.link.status, STATUS_READY);
    c.session_ended(gen);
    assert_eq!(c.link.status, STATUS_FAILED);
    assert_eq!(c.link.error, "会话中断");
}

#[test]
fn online_check_agrees_with_the_connection_plan() {
    for detail in [
        "OFFLINE",
        "ID_NOT_EXIST",
        "LICENSE_MISMATCH",
        "LICENSE_OVERUSE",
        "ONLINE",
        "ONLINE_RELAY r",
        "ONLINE_DIRECT 1.2.3.4:5",
        "EMPTY_RESPONSE",
        "other_failure:x",
    ] {
        let online = peer_check_verdict(detail) == "ONLINE";
        let goes_on = !matches!(lookup_plan(detail, "1"), LookupPlan::Finish(_));
        assert_eq!(online, goes_on, "{detail}");
    }
}

#[test]
fn frame_headers_read_back_their_length() {
    for len in [1usize, 63, 64, 0x3FFF, 0x4000, 100_000] {
        let framed = frame_message(&vec![0u8; len]);
        let size = frame_header_size(framed[0]);
        assert_eq!(decode_frame_length(&framed[..size]), len);
        assert_eq!(framed.len(), size + len);
    }
}

#[test]
fn invalid_utf8_text_is_replaced() {
    let mut inner = Vec::new();
    encode_bytes(&mut inner, 2, &[0x75, 0xFF]);
    assert_eq!(parse_relay_response(&msg(19, &inner)).unwrap(), "u\u{FFFD}");
}

#[test]
fn key_sequences_and_frame_rates_have_their_messages() {
    assert_eq!(
        harmonydesk::messages::build_key_seq("ab"),
        msg(15, &[0x10, 1, 0x32, 2, b'a', b'b', 0x48, 0])
    );
    let mut m = Media::new();
    assert!(m.request_lower_fps(30));
    assert!(!m.request_lower_fps(30));
    assert_eq!(m.last_auto_fps, 30);
    assert_eq!(m.take_outgoing(), vec![frame_message(&harmonydesk::messages::build_auto_fps(30))]);
}

#[test]
fn session_read_errors_idle_retry_or_end() {
    assert_eq!(session_read_error("idle"), SessionRead::Idle);
    assert_eq!(session_read_error("read payload: operation timed out"), SessionRead::Again);
    assert_eq!(session_read_error("eof"), SessionRead::End);
    assert_eq!(session_read_error("read header: connection reset"), SessionRead::End);
}

#[test]
fn framed_messages_read_back_whole() {
    for len in [1usize, 63, 64, 300, 0x3FFF, 0x4000, 100_000] {
        let p: Vec<u8> = (0..len).map(|i| (i % 251) as u8).collect();
        let m = frame_message(&p);
        let hs = frame_header_size(m[0]);
        assert_eq!(hs + len, m.len());
        assert_eq!(frame_plan(&m[..hs]), Ok(FramePlan::Read(len)));
        assert_eq!(&m[hs..], &p[..]);
    }
    assert_eq!(frame_plan(&[0]), Err("bad frame len 0".to_string()));
    assert_eq!(frame_plan(&[0x01, 0x00, 0x00, 0x00]), Err("bad frame len 0".to_string()));
}

#[test]
fn valid_utf8_fields_read_as_themselves() {
    let mut inner = Vec::new();
    encode_string(&mut inner, 1, "盐salt");
    encode_string(&mut inner, 2, "challenge");
    assert_eq!(parse_hash(&inner), ("盐salt".to_string(), "challenge".to_string()));
}
