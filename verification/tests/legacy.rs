use harmonydesk::log_collector::{LogCollector, LogLevel, MAX_LOG_ENTRIES};
use harmonydesk::protocol::{
    check_connection_response, check_pong, connection_request_packet, key_event_packet,
    mouse_click_packet, mouse_move_packet, register_packet, video_frame_of, MessageType, Packet,
    ProtocolError, SecureHandshake,
};
use harmonydesk::rustdesk::{connect_step, connection_password, ConnectStep, ConnectionState, RustDeskConfig};
use harmonydesk::video::{
    DecodeError, DecodedFrame, DecoderConfig, FrameBuffer, H264Decoder, PixelFormat,
};

#[test]
fn test_decoder_creation() {
    let config = DecoderConfig::default();
    let mut decoder = H264Decoder::new(config);

    decoder.initialize().unwrap();
    assert!(decoder.initialized);
}

#[test]
fn test_frame_creation() {
    let frame = DecodedFrame::new(1920, 1080, PixelFormat::RGBA);
    assert_eq!(frame.width, 1920);
    assert_eq!(frame.height, 1080);
    assert_eq!(frame.size(), 1920 * 1080 * 4);
}

#[test]
fn test_frame_buffer() {
    let mut buffer = FrameBuffer::new(3);

    let frame1 = DecodedFrame::new(800, 600, PixelFormat::RGBA);
    let frame2 = DecodedFrame::new(800, 600, PixelFormat::RGBA);

    buffer.push(frame1);
    assert_eq!(buffer.len(), 1);

    buffer.push(frame2);
    assert_eq!(buffer.len(), 2);

    assert!(buffer.get_latest().is_some());
}

#[test]
fn test_packet_serialization() {
    let packet = Packet::new(MessageType::Ping, vec![1, 2, 3, 4]);
    let data = packet.serialize();
    let decoded = Packet::deserialize(&data).unwrap();

    assert_eq!(packet.msg_type, decoded.msg_type);
    assert_eq!(packet.payload, decoded.payload);
}

#[test]
fn test_connection_config() {
    let config = RustDeskConfig::default();
    assert!(config.id_server.contains("rustdesk.com"));
    assert!(config.password.is_none());
}

#[test]
fn frame_sizes_follow_the_pixel_format() {
    assert_eq!(DecodedFrame::new(4, 2, PixelFormat::RGB).size(), 24);
    assert_eq!(DecodedFrame::new(4, 2, PixelFormat::YUV420P).size(), 12);
    let f = DecodedFrame::new(2, 2, PixelFormat::RGBA);
    assert!(f.data.iter().all(|b| *b == 0));
    assert_eq!(f.timestamp, 0);
}

#[test]
fn rgb_frames_gain_an_opaque_alpha() {
    let mut f = DecodedFrame::new(2, 1, PixelFormat::RGB);
    f.data = vec![1, 2, 3, 4, 5, 6];
    let out = f.to_rgba(|y, _, _| (y, y, y)).unwrap();
    assert_eq!(out, vec![1, 2, 3, 255, 4, 5, 6, 255]);
}

#[test]
fn yuv_frames_are_laid_out_pixel_by_pixel() {
    let mut f = DecodedFrame::new(2, 2, PixelFormat::YUV420P);
    // Four luma samples, one chroma sample per plane.
    f.data = vec![10, 20, 30, 40, 7, 9];
    let out = f.to_rgba(|y, u, v| (y, u, v)).unwrap();
    assert_eq!(out, vec![10, 7, 9, 255, 20, 7, 9, 255, 30, 7, 9, 255, 40, 7, 9, 255]);
}

#[test]
fn short_yuv_frames_are_invalid() {
    let mut f = DecodedFrame::new(2, 2, PixelFormat::YUV420P);
    f.data = vec![1, 2, 3];
    match f.to_rgba(|y, u, v| (y, u, v)) {
        Err(DecodeError::InvalidFrame(m)) => assert_eq!(m, "Invalid YUV420P data"),
        other => panic!("unexpected {:?}", other.map(|v| v.len())),
    }
}

#[test]
fn rgba_frames_convert_to_themselves() {
    let mut f = DecodedFrame::new(1, 1, PixelFormat::RGBA);
    f.data = vec![9, 8, 7, 6];
    assert_eq!(f.to_rgba(|y, u, v| (y, u, v)).unwrap(), vec![9, 8, 7, 6]);
}

#[test]
fn uninitialised_decoder_refuses_work() {
    let mut d = H264Decoder::new(DecoderConfig::default());
    assert!(matches!(d.decode_nal(&[0, 0, 0, 1, 0x67]), Err(DecodeError::NotInitialized)));
    assert!(matches!(d.decode_frame(&[1, 2, 3]), Err(DecodeError::NotInitialized)));
    assert!(matches!(d.flush(), Err(DecodeError::NotInitialized)));
}

#[test]
fn key_nal_units_decode_to_the_test_pattern() {
    let config = DecoderConfig { width: 256, height: 64, enable_hardware_acceleration: false, thread_count: 1 };
    let mut d = H264Decoder::new(config);
    d.initialize().unwrap();
    assert!(d.decode_nal(&[0, 0, 0, 1, 0x41]).unwrap().is_none());
    let f = d.decode_nal(&[0, 0, 0, 1, 0x65, 0x88]).unwrap().unwrap();
    assert_eq!((f.width, f.height, f.timestamp), (256, 64, 0));
    assert_eq!(f.data.len(), 256 * 64 * 4);
    let px = |x: usize, y: usize| f.data[(y * 256 + x) * 4..(y * 256 + x) * 4 + 4].to_vec();
    assert_eq!(px(0, 0), vec![0x1E, 0x88, 0xE5, 0xFF]);
    assert_eq!(px(64, 0), vec![0x43, 0xA0, 0x47, 0xFF]);
    assert_eq!(px(200, 0), vec![0xE9, 0x1E, 0x63, 0xFF]);
    // The white bar spans x 28..228 and y 12..52.
    assert_eq!(px(28, 12), vec![255, 255, 255, 255]);
    assert_eq!(px(227, 51), vec![255, 255, 255, 255]);
    assert_eq!(px(27, 12), vec![0x1E, 0x88, 0xE5, 0xFF]);
    assert_eq!(px(228, 12), vec![0xE9, 0x1E, 0x63, 0xFF]);
    let g = d.decode_frame(&[]).unwrap();
    assert_eq!(g.timestamp, 1);
    assert_eq!(d.frame_count, 2);
    d.reset().unwrap();
    assert!(!d.initialized);
    assert_eq!(d.frame_count, 0);
}

#[test]
fn decoder_info_describes_rgba_frames() {
    let d = H264Decoder::new(DecoderConfig::default());
    let info = d.get_info();
    assert_eq!((info.width, info.height, info.stride, info.format), (1920, 1080, 1920, PixelFormat::RGBA));
}

#[test]
fn full_frame_buffer_drops_the_oldest() {
    let mut b = FrameBuffer::new(2);
    for t in 0..3u64 {
        let mut f = DecodedFrame::new(1, 1, PixelFormat::RGB);
        f.timestamp = t;
        b.push(f);
    }
    assert_eq!(b.len(), 2);
    assert_eq!(b.get(0).unwrap().timestamp, 1);
    assert_eq!(b.get_latest().unwrap().timestamp, 2);
    assert!(b.get(2).is_none());
    b.clear();
    assert!(b.is_empty());
    assert!(b.get_latest().is_none());
}

#[test]
fn packets_carry_a_big_endian_header() {
    let p = Packet::new(MessageType::KeyEvent, vec![9]);
    assert_eq!(p.serialize(), vec![0x00, 0x20, 0, 0, 0, 1, 9]);
}

#[test]
fn malformed_packets_are_invalid() {
    assert!(matches!(Packet::deserialize(&[0, 1, 0, 0, 0]), Err(ProtocolError::InvalidPacket)));
    assert!(matches!(Packet::deserialize(&[0, 9, 0, 0, 0, 0]), Err(ProtocolError::InvalidPacket)));
    assert!(matches!(Packet::deserialize(&[0, 1, 0, 0, 0, 2, 7]), Err(ProtocolError::InvalidPacket)));
    let p = Packet::deserialize(&[0, 0xF1, 0, 0, 0, 1, 7, 8]).unwrap();
    assert_eq!(p.msg_type, MessageType::Pong);
    assert_eq!(p.payload, vec![7]);
}

#[test]
fn every_message_type_roundtrips_its_code() {
    for code in 0u16..=0x100 {
        if let Ok(t) = MessageType::try_from(code) {
            assert_eq!(t.code(), code);
        }
    }
    assert_eq!(MessageType::try_from(0x22).unwrap(), MessageType::ClipboardEvent);
    assert!(MessageType::try_from(0x06).is_err());
}

#[test]
fn input_packets_encode_their_fields() {
    let k = key_event_packet(0x41, true);
    assert_eq!(k.msg_type, MessageType::KeyEvent);
    assert_eq!(k.payload, vec![0, 0, 0, 0x41, 1]);
    let m = mouse_move_packet(-1, 2);
    assert_eq!(m.payload, vec![0xFF, 0xFF, 0xFF, 0xFF, 0, 0, 0, 2]);
    let c = mouse_click_packet(1, false);
    assert_eq!(c.msg_type, MessageType::MouseEvent);
    assert_eq!(c.payload, vec![0, 0, 0, 1, 0]);
}

#[test]
fn id_server_commands_name_the_id() {
    let r = register_packet("ab");
    assert_eq!(r.msg_type, MessageType::Handshake);
    assert_eq!(r.payload, vec![1, 0, 2, b'a', b'b']);
    let q = connection_request_packet("xyz");
    assert_eq!(q.msg_type, MessageType::ConnectionRequest);
    assert_eq!(q.payload, vec![2, 0, 3, b'x', b'y', b'z']);
}

#[test]
fn connection_responses_are_judged_by_type_and_status() {
    assert!(check_connection_response(&Packet::new(MessageType::ConnectionResponse, vec![0])).is_ok());
    assert!(matches!(
        check_connection_response(&Packet::new(MessageType::ConnectionResponse, vec![1])),
        Err(ProtocolError::PeerNotFound)
    ));
    match check_connection_response(&Packet::new(MessageType::Ping, vec![])) {
        Err(ProtocolError::HandshakeFailed(m)) => assert_eq!(m, "Unexpected response type: Ping"),
        _ => panic!("expected a handshake failure"),
    }
    assert!(check_pong(&Packet::new(MessageType::Pong, vec![])).is_ok());
    assert!(matches!(check_pong(&Packet::new(MessageType::Ping, vec![])), Err(ProtocolError::HandshakeFailed(_))));
}

#[test]
fn video_packets_carry_size_and_timestamp() {
    let mut payload = vec![0, 0, 0, 2, 0, 0, 0, 3, 0, 0, 0, 0, 0, 0, 1, 0];
    payload.extend_from_slice(&[5, 6]);
    let f = video_frame_of(&Packet::new(MessageType::VideoFrame, payload)).unwrap().unwrap();
    assert_eq!((f.width, f.height, f.timestamp), (2, 3, 256));
    assert_eq!(f.data, vec![5, 6]);
    assert!(matches!(video_frame_of(&Packet::new(MessageType::VideoFrame, vec![1; 11])), Err(ProtocolError::InvalidPacket)));
    assert!(video_frame_of(&Packet::new(MessageType::Ping, vec![])).unwrap().is_none());
}

#[test]
fn handshake_digest_is_salted_sha256() {
    let (packet, digest) = SecureHandshake::request("pw");
    assert_eq!(packet.msg_type, MessageType::Handshake);
    assert_eq!(digest.len(), 32);
    assert_eq!(&packet.payload[..2], &[0, 32]);
    assert_eq!(&packet.payload[2..], digest.as_slice());
    // SHA-256("pwRustDesk")
    assert_eq!(digest[..4], [0x16, 0x57, 0xc5, 0xe0][..]);
}

#[test]
fn handshake_accepts_only_a_zero_status() {
    let mut h = SecureHandshake::new();
    match h.accept(&Packet::new(MessageType::HandshakeResponse, vec![1]), vec![1]) {
        Err(ProtocolError::HandshakeFailed(m)) => assert_eq!(m, "Authentication failed"),
        _ => panic!("expected a refusal"),
    }
    match h.accept(&Packet::new(MessageType::Ping, vec![0]), vec![1]) {
        Err(ProtocolError::HandshakeFailed(m)) => assert_eq!(m, "Invalid handshake response"),
        _ => panic!("expected a refusal"),
    }
    assert!(h.accept(&Packet::new(MessageType::HandshakeResponse, vec![0]), vec![1]).is_ok());
}

#[test]
fn encryption_is_the_identity() {
    let h = SecureHandshake::new();
    let c = h.encrypt(&[1, 2, 3]).unwrap();
    assert_eq!(h.decrypt(&c).unwrap(), vec![1, 2, 3]);
}

#[test]
fn connection_password_defaults_to_empty() {
    let mut c = RustDeskConfig::default();
    assert_eq!(connection_password(&c), "");
    c.password = Some("secret".to_string());
    assert_eq!(connection_password(&c), "secret");
    assert_ne!(ConnectionState::Connected, ConnectionState::Failed);
}

#[test]
fn log_collector_keeps_the_newest_thousand() {
    let mut c = LogCollector::new();
    for i in 0..(MAX_LOG_ENTRIES + 5) {
        c.log_at(i as u64, LogLevel::Info, format!("m{i}"), None, None);
    }
    let logs = c.get_logs();
    assert_eq!(logs.len(), MAX_LOG_ENTRIES);
    assert_eq!(logs[0].message, "m5");
    assert_eq!(logs.last().unwrap().timestamp, (MAX_LOG_ENTRIES + 4) as u64);
}

#[test]
fn log_text_joins_levels_and_messages() {
    let mut c = LogCollector::new();
    c.log_at(1, LogLevel::Warn, "a".to_string(), None, None);
    c.log_at(2, LogLevel::Trace, "b".to_string(), Some("f.rs".to_string()), Some(3));
    assert_eq!(c.get_logs_string(), "[WARN] a\n[TRACE] b");
}

#[test]
fn clear_keeps_the_panic_message() {
    let mut c = LogCollector::new();
    c.set_error("bad".to_string());
    c.set_panic("boom".to_string());
    assert_eq!(c.get_error().as_deref(), Some("bad"));
    assert_eq!(c.get_logs_string(), "[ERROR] bad\n[ERROR] PANIC: boom");
    c.clear();
    assert!(c.get_error().is_none());
    assert_eq!(c.get_panic().as_deref(), Some("boom"));
    assert!(c.get_logs().is_empty());
    c.log(LogLevel::Debug, "x".to_string(), None, None);
    assert_eq!(c.get_logs().len(), 1);
}

#[test]
fn key_event_packet_layout() {
    let packet = Packet::new(MessageType::KeyEvent, vec![0x00, 0x00, 0x00, 0x1E, 0x01]);
    let data = packet.serialize();
    assert_eq!(data, vec![0x00, 0x20, 0x00, 0x00, 0x00, 0x05, 0x00, 0x00, 0x00, 0x1E, 0x01]);
    let decoded = Packet::deserialize(&data).unwrap();
    assert_eq!(decoded.msg_type, MessageType::KeyEvent);
    assert_eq!(decoded.payload, key_event_packet(30, true).payload);
}

#[test]
fn packets_read_back_whatever_follows() {
    let packet = Packet::new(MessageType::VideoConfig, vec![5; 300]);
    let mut data = packet.serialize();
    data.extend_from_slice(&[1, 2, 3]);
    let decoded = Packet::deserialize(&data).unwrap();
    assert_eq!(decoded.msg_type, MessageType::VideoConfig);
    assert_eq!(decoded.payload, vec![5; 300]);
}

#[test]
fn logged_entries_carry_the_clock() {
    let mut c = LogCollector::new();
    c.log(LogLevel::Info, "now".to_string(), None, None);
    assert!(c.get_logs()[0].timestamp > 1_600_000_000_000);
}

#[test]
fn demo_desks_are_recognised() {
    assert!(harmonydesk::rustdesk::is_demo_id("DEMO-1"));
    assert!(harmonydesk::rustdesk::is_demo_id("TEST"));
    assert!(!harmonydesk::rustdesk::is_demo_id("123DEMO"));
}

#[test]
fn decoded_frames_are_numbered_until_reset() {
    let config = DecoderConfig { width: 200, height: 40, enable_hardware_acceleration: false, thread_count: 1 };
    let mut d = H264Decoder::new(config);
    d.initialize().unwrap();
    for i in 0..3u64 {
        let f = d.decode_frame(&[1, 2, 3]).unwrap();
        assert_eq!((f.width, f.height, f.timestamp), (200, 40, i));
        assert_eq!(f.data.len(), 4 * 200 * 40);
    }
    d.reset().unwrap();
    assert!(matches!(d.decode_frame(&[1]), Err(DecodeError::NotInitialized)));
    assert!(matches!(d.flush(), Err(DecodeError::NotInitialized)));
    assert_eq!(d.frame_count, 0);
    d.initialize().unwrap();
    assert_eq!(d.decode_frame(&[1]).unwrap().timestamp, 0);
}

#[test]
fn connection_steps_go_on_or_stop() {
    assert_eq!(connect_step(ConnectStep::IdServer, Ok(())), (ConnectionState::Connecting, None));
    assert_eq!(connect_step(ConnectStep::Handshake, Ok(())), (ConnectionState::Connected, None));
    assert_eq!(
        connect_step(ConnectStep::IdServer, Err("refused".to_string())),
        (ConnectionState::Failed, Some("连接 ID 服务器失败: refused".to_string()))
    );
    assert_eq!(
        connect_step(ConnectStep::RequestPeer, Err("x".to_string())),
        (ConnectionState::Failed, Some("未找到远程桌面: x".to_string()))
    );
    assert_eq!(
        connect_step(ConnectStep::BindLocal, Err("in use".to_string())),
        (ConnectionState::Failed, Some("绑定本地端口失败: in use".to_string()))
    );
    assert_eq!(
        connect_step(ConnectStep::LocalAddr, Err("e".to_string())),
        (ConnectionState::Connecting, Some("获取本地地址失败: e".to_string()))
    );
    assert_eq!(connect_step(ConnectStep::Punch, Err("timeout".to_string())), (ConnectionState::Connecting, None));
    assert_eq!(
        connect_step(ConnectStep::Handshake, Err("bad".to_string())),
        (ConnectionState::Failed, Some("握手失败: bad".to_string()))
    );
}
