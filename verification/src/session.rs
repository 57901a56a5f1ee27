//! The state of a remote session that the native bridge drives: the queue of
//! encoded video packets handed to the decoder, the queue of messages waiting
//! to be written to the peer, and the settings, counters and status the UI
//! polls. Every method is the decision part of one bridge call or session
//! event; the caller does the socket and thread work around it.

use vstd::prelude::*;
use crate::messages::{
    build_auto_fps, build_custom_fps, build_custom_image_quality, build_image_quality,
    build_key_chr, build_key_chr_mod, build_key_control, build_key_control_mod, build_mouse_event,
    build_option_misc, build_refresh_video, build_test_delay_reply, build_video_received,
    custom_image_quality_msg, key_event_msg, misc_option_msg, misc_varint_msg, mouse_event_msg,
    option_msg, profile_knobs, spec_profile_knobs, use_hd_profile,
};
use crate::endpoint::{
    id_server_addr, is_direct_ip_peer, is_direct_ip_spec, licence_key_spec, normalize_licence_key,
    normalize_server,
};
use crate::text::{chars_of, contains, contains_seq};
use crate::wire::varint_field;
use crate::wire::{
    field_at, fields_from, fields_of, framed, frame_message, lemma_fields_step, next_field, ProtoValue,
    WireValue, bytes_field,
};

verus! {

/// An encoded video frame waiting for the decoder.
pub struct EncodedPacket {
    pub codec: String,
    pub data: Vec<u8>,
    pub key: bool,
}

/// The contents of an encoded packet.
pub struct PacketView {
    pub codec: Seq<char>,
    pub data: Seq<u8>,
    pub key: bool,
}

impl View for EncodedPacket {
    type V = PacketView;

    open spec fn view(&self) -> PacketView {
        PacketView { codec: self.codec@, data: self.data@, key: self.key }
    }
}

impl EncodedPacket {
    /// A copy of the packet.
    pub fn duplicate(&self) -> (p: EncodedPacket)
        ensures
            p@ == self@,
    {
        let mut data: Vec<u8> = Vec::new();
        data.extend_from_slice(self.data.as_slice());
        assert(data@ =~= self.data@);
        EncodedPacket { codec: self.codec.clone(), data, key: self.key }
    }
}

/// How many packets the queue holds before old ones are dropped: 240 with
/// the high-quality profile, 120 without.
pub open spec fn packet_queue_limit() -> nat {
    240
}

/// The packets of a queue, viewed.
pub open spec fn packets_view(q: Seq<EncodedPacket>) -> Seq<PacketView> {
    Seq::new(q.len(), |i: int| q[i]@)
}

/// The state of the decoder's packet queue.
pub struct VideoQueueView {
    pub packets: Seq<PacketView>,
    /// Packets are being dropped until the next key frame.
    pub discard: bool,
    pub got_keyframe: bool,
    /// Packets dropped while waiting for a key frame.
    pub keyframe_asks: i32,
    pub last_key_packet: Option<PacketView>,
    /// Key frames seen.
    pub key_seq: i32,
}

/// The queue after a packet arrives, and whether the arrival calls for a
/// refresh (a key frame) from the peer. A key frame restarts the queue with
/// itself alone. Other packets are dropped until a key frame has been seen
/// (or while a requested key frame is awaited), with a refresh asked on the
/// first drop and on every twentieth after it. Otherwise the packet is
/// queued; a full queue first loses its oldest third (at least eight).
pub open spec fn queue_step(v: VideoQueueView, p: PacketView) -> (VideoQueueView, bool) {
    if p.key {
        (
            VideoQueueView {
                packets: seq![p],
                discard: false,
                got_keyframe: true,
                keyframe_asks: 0,
                last_key_packet: Some(p),
                key_seq: v.key_seq.wrapping_add(1),
            },
            false,
        )
    } else if v.discard || !v.got_keyframe {
        (
            VideoQueueView { keyframe_asks: v.keyframe_asks.wrapping_add(1), ..v },
            v.keyframe_asks == 0 || v.keyframe_asks % 20 == 0,
        )
    } else {
        let n = v.packets.len();
        let kept = if n >= packet_queue_limit() {
            v.packets.skip(if n / 3 > 8 { (n / 3) as int } else { 8 })
        } else {
            v.packets
        };
        (VideoQueueView { packets: kept.push(p), ..v }, false)
    }
}

/// The decoder's packet queue.
pub struct VideoQueue {
    pub packets: std::collections::VecDeque<EncodedPacket>,
    pub discard: bool,
    pub got_keyframe: bool,
    pub keyframe_asks: i32,
    pub last_key_packet: Option<EncodedPacket>,
    pub key_seq: i32,
}

impl View for VideoQueue {
    type V = VideoQueueView;

    open spec fn view(&self) -> VideoQueueView {
        VideoQueueView {
            packets: packets_view(self.packets@),
            discard: self.discard,
            got_keyframe: self.got_keyframe,
            keyframe_asks: self.keyframe_asks,
            last_key_packet: match self.last_key_packet {
                Some(p) => Some(p@),
                None => None,
            },
            key_seq: self.key_seq,
        }
    }
}

impl VideoQueue {
    pub fn new() -> (q: Self)
        ensures
            q@.packets == Seq::<PacketView>::empty(),
            !q@.discard,
            !q@.got_keyframe,
            q@.keyframe_asks == 0,
            q@.last_key_packet is None,
            q@.key_seq == 0,
    {
        let q = VideoQueue {
            packets: std::collections::VecDeque::new(),
            discard: false,
            got_keyframe: false,
            keyframe_asks: 0,
            last_key_packet: None,
            key_seq: 0,
        };
        assert(q@.packets =~= Seq::<PacketView>::empty());
        q
    }

    /// Takes in one packet; says whether a refresh should be asked for.
    pub fn push(&mut self, packet: EncodedPacket) -> (ask: bool)
        ensures
            (final(self)@, ask) == queue_step(old(self)@, packet@),
    {
        let ghost p = packet@;
        if packet.key {
            self.discard = false;
            self.got_keyframe = true;
            self.keyframe_asks = 0;
            self.last_key_packet = Some(packet.duplicate());
            self.key_seq = self.key_seq.wrapping_add(1);
            self.packets.clear();
            self.packets.push_back(packet);
            assert(packets_view(self.packets@) =~= seq![p]);
            return false;
        }
        if self.discard || !self.got_keyframe {
            let asks = self.keyframe_asks;
            self.keyframe_asks = self.keyframe_asks.wrapping_add(1);
            return asks == 0 || asks % 20 == 0;
        }
        let max_q: usize = if use_hd_profile() { 240 } else { 120 };
        let ghost before = self.packets@;
        if self.packets.len() >= max_q {
            let third = self.packets.len() / 3;
            let drop_n: usize = if third > 8 { third } else { 8 };
            let mut k: usize = 0;
            while k < drop_n
                invariant
                    k <= drop_n,
                    drop_n <= before.len(),
                    self.packets@ == before.skip(k as int),
                    self.discard == old(self).discard,
                    self.got_keyframe == old(self).got_keyframe,
                    self.keyframe_asks == old(self).keyframe_asks,
                    self.last_key_packet == old(self).last_key_packet,
                    self.key_seq == old(self).key_seq,
                decreases drop_n - k,
            {
                self.packets.pop_front();
                k = k + 1;
                assert(self.packets@ =~= before.skip(k as int));
            }
        }
        let ghost kept = self.packets@;
        self.packets.push_back(packet);
        assert(packets_view(self.packets@) =~= packets_view(kept).push(p));
        assert(packets_view(kept) =~= (if before.len() >= packet_queue_limit() {
            packets_view(before).skip(
                if before.len() / 3 > 8 {
                    (before.len() / 3) as int
                } else {
                    8
                },
            )
        } else {
            packets_view(before)
        }));
        assert(self@.packets =~= queue_step(old(self)@, p).0.packets);
        false
    }

    /// The oldest packet, taken off the queue.
    pub fn pop(&mut self) -> (p: Option<EncodedPacket>)
        ensures
            old(self)@.packets.len() == 0 ==> p is None && final(self)@ == old(self)@,
            old(self)@.packets.len() > 0 ==> (p matches Some(x) && x@ == old(self)@.packets[0]
                && final(self)@ == (VideoQueueView { packets: old(self)@.packets.drop_first(), ..old(self)@ })),
    {
        let r = self.packets.pop_front();
        assert(packets_view(self.packets@) =~= (if old(self).packets@.len() > 0 {
            packets_view(old(self).packets@).drop_first()
        } else {
            packets_view(old(self).packets@)
        }));
        r
    }

    /// Drops every queued packet and waits for a key frame.
    pub fn await_keyframe(&mut self)
        ensures
            final(self)@ == (VideoQueueView {
                packets: Seq::empty(),
                discard: true,
                got_keyframe: false,
                keyframe_asks: 0,
                ..old(self)@
            }),
    {
        self.got_keyframe = false;
        self.discard = true;
        self.keyframe_asks = 0;
        self.packets.clear();
        assert(packets_view(self.packets@) =~= Seq::<PacketView>::empty());
    }

    /// Forgets every packet and flag, as at the start of a connection.
    pub fn reset(&mut self)
        ensures
            final(self)@ == (VideoQueueView {
                packets: Seq::empty(),
                discard: false,
                got_keyframe: false,
                keyframe_asks: 0,
                last_key_packet: None,
                key_seq: 0,
            }),
    {
        self.packets.clear();
        self.discard = false;
        self.got_keyframe = false;
        self.keyframe_asks = 0;
        self.last_key_packet = None;
        self.key_seq = 0;
        assert(packets_view(self.packets@) =~= Seq::<PacketView>::empty());
    }
}

/// The queue never holds more packets than its limit, and a key frame
/// leaves exactly itself in the queue, remembered as the last key frame.
pub proof fn lemma_queue_bounded(v: VideoQueueView, p: PacketView)
    requires
        v.packets.len() <= packet_queue_limit(),
    ensures
        queue_step(v, p).0.packets.len() <= packet_queue_limit(),
        p.key ==> queue_step(v, p).0.packets == seq![p] && queue_step(v, p).0.last_key_packet == Some(p),
        !p.key && !v.discard && v.got_keyframe ==> queue_step(v, p).0.packets.last() == p,
        !p.key && (v.discard || !v.got_keyframe) ==> queue_step(v, p).0.packets == v.packets,
{
}

/// The outgoing queue after `msg` is queued behind it: a queue of more than
/// 160 messages first keeps only its newest 80, so that input is not held
/// up behind stale refreshes.
pub open spec fn outgoing_after(q: Seq<Seq<u8>>, msg: Seq<u8>) -> Seq<Seq<u8>> {
    let kept = if q.len() > 160 {
        q.skip(q.len() - 80)
    } else {
        q
    };
    kept.push(framed(msg))
}

/// What the session's media side holds.
pub struct MediaView {
    pub video: VideoQueueView,
    /// Framed messages waiting to be written to the peer, oldest first.
    pub outgoing: Seq<Seq<u8>>,
    pub last_refresh_ask_ms: i64,
    pub frame_count: i32,
    pub packet_seq: i32,
    pub last_codec: Seq<char>,
    pub last_packet: Option<PacketView>,
    pub last_video_ms: i64,
    pub display_width: i32,
    pub display_height: i32,
    pub last_copied_key: i32,
    pub last_auto_fps: i32,
    pub last_mouse: (i32, i32),
}

/// `m` with `msg` queued for the peer.
pub open spec fn enqueued(m: MediaView, msg: Seq<u8>) -> MediaView {
    MediaView { outgoing: outgoing_after(m.outgoing, msg), ..m }
}

/// `m` with each of `msgs` queued in turn.
pub open spec fn enqueued_all(m: MediaView, msgs: Seq<Seq<u8>>) -> MediaView
    decreases msgs.len(),
{
    if msgs.len() == 0 {
        m
    } else {
        enqueued(enqueued_all(m, msgs.drop_last()), msgs.last())
    }
}

/// Asking the peer for a refresh at `now`: at most one ask per 1.5 s.
pub open spec fn refresh_step(m: MediaView, now: i64) -> (MediaView, bool) {
    if m.last_refresh_ask_ms != 0 && now - m.last_refresh_ask_ms < 1500 {
        (m, false)
    } else {
        (MediaView { last_refresh_ask_ms: now, ..enqueued(m, misc_varint_msg(10, 1)) }, true)
    }
}

/// A packet for the decoder arrives at `now`.
pub open spec fn video_packet_step(m: MediaView, p: PacketView, now: i64) -> MediaView {
    let (v, ask) = queue_step(m.video, p);
    let m1 = MediaView { video: v, ..m };
    if ask {
        refresh_step(m1, now).0
    } else {
        m1
    }
}

/// The payload (field 1) and key flag (field 2) of an encoded frame.
pub open spec fn frame_part_step(st: (Option<Seq<u8>>, bool), f: (u32, WireValue)) -> (Option<Seq<u8>>, bool) {
    match f.1 {
        WireValue::Bytes(b) => if f.0 == 1 {
            (Some(b), st.1)
        } else {
            st
        },
        WireValue::Varint(v) => if f.0 == 2 {
            (st.0, v != 0)
        } else {
            st
        },
    }
}

pub open spec fn frame_parts(fs: Seq<(u32, WireValue)>) -> (Option<Seq<u8>>, bool)
    decreases fs.len(),
{
    if fs.len() == 0 {
        (None, false)
    } else {
        frame_part_step(frame_parts(fs.drop_last()), fs.last())
    }
}

/// The frames (payload and key flag) of an `EncodedVideoFrames` message:
/// its field-1 entries that carry a payload, in order.
pub open spec fn encoded_frames_of(fs: Seq<(u32, WireValue)>) -> Seq<(Seq<u8>, bool)>
    decreases fs.len(),
{
    if fs.len() == 0 {
        Seq::empty()
    } else {
        let before = encoded_frames_of(fs.drop_last());
        match fs.last() {
            (f, WireValue::Bytes(b)) => if f == 1 {
                match frame_parts(fields_of(b)) {
                    (Some(d), k) => before.push((d, k)),
                    (None, _) => before,
                }
            } else {
                before
            },
            _ => before,
        }
    }
}

/// The packets of `items`, one after another, arriving at `now`.
pub open spec fn video_packets_step(m: MediaView, codec: Seq<char>, items: Seq<(Seq<u8>, bool)>, now: i64) -> MediaView
    decreases items.len(),
{
    if items.len() == 0 {
        m
    } else {
        video_packet_step(
            video_packets_step(m, codec, items.drop_last(), now),
            PacketView { codec, data: items.last().0, key: items.last().1 },
            now,
        )
    }
}

/// Recording the encoded frames `frames` of `codec` received at `now`: each
/// goes to the decoder queue; the last becomes the last packet, and the
/// counters move on by the number of frames.
pub open spec fn record_frames_step(m: MediaView, codec: Seq<char>, frames: Seq<u8>, now: i64) -> MediaView {
    let items = encoded_frames_of(fields_of(frames));
    let m1 = video_packets_step(m, codec, items, now);
    if items.len() == 0 {
        m1
    } else {
        MediaView {
            last_packet: Some(PacketView { codec, data: items.last().0, key: items.last().1 }),
            packet_seq: m1.packet_seq.wrapping_add(items.len() as i32),
            last_video_ms: now,
            frame_count: m1.frame_count.wrapping_add(items.len() as i32),
            last_codec: codec,
            ..m1
        }
    }
}

/// The media side of a session.
pub struct Media {
    pub video: VideoQueue,
    pub outgoing: Vec<Vec<u8>>,
    pub last_refresh_ask_ms: i64,
    pub frame_count: i32,
    pub packet_seq: i32,
    pub last_codec: String,
    pub last_packet: Option<EncodedPacket>,
    pub last_video_ms: i64,
    pub display_width: i32,
    pub display_height: i32,
    pub last_copied_key: i32,
    pub last_auto_fps: i32,
    pub last_mouse: (i32, i32),
}

/// The messages of a queue, viewed.
pub open spec fn messages_view(q: Seq<Vec<u8>>) -> Seq<Seq<u8>> {
    Seq::new(q.len(), |i: int| q[i]@)
}

impl View for Media {
    type V = MediaView;

    open spec fn view(&self) -> MediaView {
        MediaView {
            video: self.video@,
            outgoing: messages_view(self.outgoing@),
            last_refresh_ask_ms: self.last_refresh_ask_ms,
            frame_count: self.frame_count,
            packet_seq: self.packet_seq,
            last_codec: self.last_codec@,
            last_packet: match self.last_packet {
                Some(p) => Some(p@),
                None => None,
            },
            last_video_ms: self.last_video_ms,
            display_width: self.display_width,
            display_height: self.display_height,
            last_copied_key: self.last_copied_key,
            last_auto_fps: self.last_auto_fps,
            last_mouse: self.last_mouse,
        }
    }
}

/// The media side before any session: empty queues, zero counters, no
/// key frame seen.
pub open spec fn initial_media() -> MediaView {
    MediaView {
        video: VideoQueueView {
            packets: Seq::empty(),
            discard: false,
            got_keyframe: false,
            keyframe_asks: 0,
            last_key_packet: None,
            key_seq: 0,
        },
        outgoing: Seq::empty(),
        last_refresh_ask_ms: 0,
        frame_count: 0,
        packet_seq: 0,
        last_codec: Seq::empty(),
        last_packet: None,
        last_video_ms: 0,
        display_width: 0,
        display_height: 0,
        last_copied_key: 0,
        last_auto_fps: 0,
        last_mouse: (0, 0),
    }
}

/// Times are milliseconds since the epoch, never negative.
pub open spec fn media_wf(m: MediaView) -> bool {
    m.last_refresh_ask_ms >= 0 && m.last_video_ms >= 0
}

fn encoded_frame_parts(frame: &[u8]) -> (r: (Option<Vec<u8>>, bool))
    ensures
        frame_parts(fields_of(frame@)) == (match r.0 {
            Some(d) => Some(d@),
            None => None,
        }, r.1),
{
    let mut data: Option<Vec<u8>> = None;
    let mut key = false;
    let mut index: usize = 0;
    let ghost mut done: Seq<(u32, WireValue)> = Seq::empty();
    loop
        invariant_except_break
            fields_of(frame@) == done + fields_from(frame@, index as int),
        invariant
            frame_parts(done) == (match data {
                Some(d) => Some(d@),
                None => None,
            }, key),
        ensures
            fields_of(frame@) == done,
        decreases frame.len() - index,
    {
        let ghost i0 = index as int;
        proof {
            lemma_fields_step(frame@, i0);
        }
        match next_field(frame, &mut index) {
            Some((field, value)) => {
                proof {
                    assert(done.push((field, value@)).drop_last() =~= done);
                }
                match value {
                    ProtoValue::Bytes(b) => {
                        if field == 1 {
                            let mut d: Vec<u8> = Vec::new();
                            d.extend_from_slice(b);
                            assert(d@ =~= b@);
                            data = Some(d);
                        }
                    },
                    ProtoValue::Varint(v) => {
                        if field == 2 {
                            key = v != 0;
                        }
                    },
                }
                proof {
                    done = done.push((field, value@));
                    assert(fields_of(frame@) =~= done + fields_from(frame@, index as int));
                }
            },
            None => {
                assert(done + fields_from(frame@, i0) =~= done);
                break ;
            },
        }
    }
    (data, key)
}

/// The frames of an `EncodedVideoFrames` message, with their key flags.
pub fn encoded_frames(frames: &[u8]) -> (r: Vec<(Vec<u8>, bool)>)
    ensures
        encoded_frames_of(fields_of(frames@)) == Seq::new(r@.len(), |i: int| (r@[i].0@, r@[i].1)),
{
    let mut out: Vec<(Vec<u8>, bool)> = Vec::new();
    let mut index: usize = 0;
    let ghost mut done: Seq<(u32, WireValue)> = Seq::empty();
    loop
        invariant_except_break
            fields_of(frames@) == done + fields_from(frames@, index as int),
        invariant
            encoded_frames_of(done) == Seq::new(out@.len(), |i: int| (out@[i].0@, out@[i].1)),
        ensures
            fields_of(frames@) == done,
        decreases frames.len() - index,
    {
        let ghost i0 = index as int;
        proof {
            lemma_fields_step(frames@, i0);
        }
        match next_field(frames, &mut index) {
            Some((field, value)) => {
                proof {
                    assert(done.push((field, value@)).drop_last() =~= done);
                }
                match value {
                    ProtoValue::Bytes(b) => {
                        if field == 1 {
                            let (data, key) = encoded_frame_parts(b);
                            match data {
                                Some(d) => {
                                    out.push((d, key));
                                },
                                None => {},
                            }
                        }
                    },
                    ProtoValue::Varint(_) => {},
                }
                proof {
                    done = done.push((field, value@));
                    assert(fields_of(frames@) =~= done + fields_from(frames@, index as int));
                    assert(encoded_frames_of(done) =~= Seq::new(out@.len(), |i: int| (out@[i].0@, out@[i].1)));
                }
            },
            None => {
                assert(done + fields_from(frames@, i0) =~= done);
                break ;
            },
        }
    }
    out
}

impl Media {
    pub fn new() -> (m: Self)
        ensures
            m@.video.packets == Seq::<PacketView>::empty(),
            m@.outgoing == Seq::<Seq<u8>>::empty(),
            m@.last_refresh_ask_ms == 0,
            m@.frame_count == 0,
            m@.packet_seq == 0,
            m@.last_codec == Seq::<char>::empty(),
            m@.last_packet is None,
            m@.last_video_ms == 0,
            m@.display_width == 0,
            m@.display_height == 0,
            m@.last_copied_key == 0,
            m@.last_auto_fps == 0,
            m@.last_mouse == (0i32, 0i32),
            m@ == initial_media(),
            media_wf(m@),
    {
        let m = Media {
            video: VideoQueue::new(),
            outgoing: Vec::new(),
            last_refresh_ask_ms: 0,
            frame_count: 0,
            packet_seq: 0,
            last_codec: String::new(),
            last_packet: None,
            last_video_ms: 0,
            display_width: 0,
            display_height: 0,
            last_copied_key: 0,
            last_auto_fps: 0,
            last_mouse: (0, 0),
        };
        assert(m@.outgoing =~= Seq::<Seq<u8>>::empty());
        m
    }

    /// Queues `payload`, framed, for the peer.
    pub fn enqueue_msg(&mut self, payload: &[u8])
        ensures
            final(self)@ == enqueued(old(self)@, payload@),
    {
        let ghost q = messages_view(self.outgoing@);
        if self.outgoing.len() > 160 {
            let drop_n = self.outgoing.len() - 80;
            let mut rest: Vec<Vec<u8>> = self.outgoing.split_off(drop_n);
            std::mem::swap(&mut self.outgoing, &mut rest);
            assert(messages_view(self.outgoing@) =~= q.skip(q.len() - 80));
        }
        let ghost kept = messages_view(self.outgoing@);
        self.outgoing.push(frame_message(payload));
        assert(messages_view(self.outgoing@) =~= kept.push(framed(payload@)));
    }

    /// Queues `payload`, framed, ahead of everything else.
    pub fn enqueue_msg_front(&mut self, payload: &[u8])
        ensures
            final(self)@ == (MediaView {
                outgoing: seq![framed(payload@)] + old(self)@.outgoing,
                ..old(self)@
            }),
    {
        self.outgoing.insert(0, frame_message(payload));
        assert(messages_view(self.outgoing@) =~= seq![framed(payload@)] + messages_view(old(self).outgoing@));
    }

    /// Hands over every queued message, oldest first, leaving the queue empty.
    pub fn take_outgoing(&mut self) -> (msgs: Vec<Vec<u8>>)
        ensures
            messages_view(msgs@) == old(self)@.outgoing,
            final(self)@ == (MediaView { outgoing: Seq::empty(), ..old(self)@ }),
    {
        let mut msgs: Vec<Vec<u8>> = Vec::new();
        std::mem::swap(&mut msgs, &mut self.outgoing);
        assert(messages_view(self.outgoing@) =~= Seq::<Seq<u8>>::empty());
        msgs
    }

    /// Asks the peer for a refresh unless one was asked within 1.5 s; says
    /// whether it asked.
    pub fn ask_refresh_video(&mut self, now: i64) -> (asked: bool)
        requires
            media_wf(old(self)@),
            now >= 0,
        ensures
            (final(self)@, asked) == refresh_step(old(self)@, now),
            media_wf(final(self)@),
    {
        let last = self.last_refresh_ask_ms;
        if last != 0 && now - last < 1500 {
            return false;
        }
        self.last_refresh_ask_ms = now;
        self.enqueue_msg(build_refresh_video().as_slice());
        true
    }

    /// Lowers the peer's automatic frame rate to `fps` unless it is already
    /// there; says whether it asked.
    pub fn request_lower_fps(&mut self, fps: u32) -> (asked: bool)
        ensures
            old(self)@.last_auto_fps == fps as i32 ==> !asked && final(self)@ == old(self)@,
            old(self)@.last_auto_fps != fps as i32 ==> asked && final(self)@ == enqueued(
                MediaView { last_auto_fps: fps as i32, ..old(self)@ },
                misc_varint_msg(28, fps as u64),
            ),
    {
        if self.last_auto_fps == fps as i32 {
            return false;
        }
        self.last_auto_fps = fps as i32;
        self.enqueue_msg(build_auto_fps(fps).as_slice());
        true
    }

    /// A packet of `codec` for the decoder arrived at `now`.
    pub fn enqueue_video_packet(&mut self, codec: &str, data: Vec<u8>, key: bool, now: i64)
        requires
            media_wf(old(self)@),
            now >= 0,
        ensures
            final(self)@ == video_packet_step(
                old(self)@,
                PacketView { codec: codec@, data: data@, key },
                now,
            ),
            media_wf(final(self)@),
    {
        let packet = EncodedPacket { codec: String::from_str(codec), data, key };
        let ask = self.video.push(packet);
        if ask {
            self.ask_refresh_video(now);
        }
    }

    /// Records the encoded frames of `codec` in `frames`, received at `now`.
    pub fn record_encoded_frames(&mut self, codec: &str, frames: &[u8], now: i64)
        requires
            media_wf(old(self)@),
            now >= 0,
        ensures
            final(self)@ == record_frames_step(old(self)@, codec@, frames@, now),
            media_wf(final(self)@),
    {
        let items = encoded_frames(frames);
        let ghost spec_items = encoded_frames_of(fields_of(frames@));
        let mut count: u64 = 0;
        let mut last: Option<(Vec<u8>, bool)> = None;
        let mut i: usize = 0;
        while i < items.len()
            invariant
                spec_items == Seq::new(items@.len(), |k: int| (items@[k].0@, items@[k].1)),
                i <= items@.len(),
                count == i,
                media_wf(self@),
                now >= 0,
                self@ == video_packets_step(old(self)@, codec@, spec_items.take(i as int), now),
                i > 0 ==> (last matches Some(l) && l.0@ == spec_items[i - 1].0 && l.1 == spec_items[i - 1].1),
            decreases items.len() - i,
        {
            let (data, key) = (&items[i].0, items[i].1);
            let mut d: Vec<u8> = Vec::new();
            d.extend_from_slice(data.as_slice());
            let mut d2: Vec<u8> = Vec::new();
            d2.extend_from_slice(data.as_slice());
            assert(d@ =~= spec_items[i as int].0 && d2@ =~= spec_items[i as int].0);
            self.enqueue_video_packet(codec, d, key, now);
            last = Some((d2, key));
            proof {
                assert(spec_items.take(i + 1).drop_last() =~= spec_items.take(i as int));
            }
            i = i + 1;
            count = count + 1;
        }
        assert(spec_items.take(i as int) =~= spec_items);
        if count == 0 {
            return;
        }
        match last {
            Some((data, key)) => {
                self.last_packet = Some(EncodedPacket { codec: String::from_str(codec), data, key });
            },
            None => {},
        }
        self.packet_seq = self.packet_seq.wrapping_add(count as i32);
        self.last_video_ms = now;
        self.frame_count = self.frame_count.wrapping_add(count as i32);
        self.last_codec = String::from_str(codec);
    }
}

/// The width and height (varint fields `wf` and `hf`, as `i32`) of a
/// display entry; a later field overwrites an earlier one.
pub open spec fn size_step(st: (i32, i32), f: (u32, WireValue), wf: u32, hf: u32) -> (i32, i32) {
    match f.1 {
        WireValue::Varint(v) => if f.0 == wf {
            (v as i32, st.1)
        } else if f.0 == hf {
            (st.0, v as i32)
        } else {
            st
        },
        WireValue::Bytes(_) => st,
    }
}

pub open spec fn size_scan(fs: Seq<(u32, WireValue)>, wf: u32, hf: u32) -> (i32, i32)
    decreases fs.len(),
{
    if fs.len() == 0 {
        (0, 0)
    } else {
        size_step(size_scan(fs.drop_last(), wf, hf), fs.last(), wf, hf)
    }
}

/// A `Misc` field: a display switch (5) with a positive width (4) and
/// height (5) becomes the display size; permission changes and the peer's
/// close reason only inform.
pub open spec fn misc_step(m: MediaView, f: (u32, WireValue)) -> MediaView {
    match f.1 {
        WireValue::Bytes(d) => if f.0 == 5 {
            let (w, h) = size_scan(fields_of(d), 4, 5);
            if w > 0 && h > 0 {
                MediaView { display_width: w, display_height: h, ..m }
            } else {
                m
            }
        } else {
            m
        },
        WireValue::Varint(_) => m,
    }
}

pub open spec fn misc_scan(m: MediaView, fs: Seq<(u32, WireValue)>) -> MediaView
    decreases fs.len(),
{
    if fs.len() == 0 {
        m
    } else {
        misc_step(misc_scan(m, fs.drop_last()), fs.last())
    }
}

/// The codec of a `VideoFrame` field: VP9 (6), H.264 (10), H.265 (11), VP8
/// (12) or AV1 (13); no name for any other field.
pub open spec fn codec_name(f: u32) -> Seq<char> {
    if f == 6 {
        "vp9"@
    } else if f == 10 {
        "h264"@
    } else if f == 11 {
        "h265"@
    } else if f == 12 {
        "vp8"@
    } else if f == 13 {
        "av1"@
    } else {
        Seq::empty()
    }
}

/// A field of a `VideoFrame` message: encoded frames of a known codec are
/// recorded, and the message counts as carrying video.
pub open spec fn video_field_step(st: (MediaView, bool), f: (u32, WireValue), now: i64) -> (MediaView, bool) {
    match f.1 {
        WireValue::Bytes(b) => if f.0 != 7 && f.0 != 8 && codec_name(f.0).len() > 0 {
            (record_frames_step(st.0, codec_name(f.0), b, now), true)
        } else {
            st
        },
        WireValue::Varint(_) => st,
    }
}

pub open spec fn video_fields_scan(m: MediaView, fs: Seq<(u32, WireValue)>, now: i64) -> (MediaView, bool)
    decreases fs.len(),
{
    if fs.len() == 0 {
        (m, false)
    } else {
        video_field_step(video_fields_scan(m, fs.drop_last(), now), fs.last(), now)
    }
}

/// A `VideoFrame` message: its frames are recorded; then the peer is told
/// the video arrived (ahead of every queued message), or, when it carried
/// none, asked for a refresh.
pub open spec fn video_message_step(m: MediaView, inner: Seq<u8>, now: i64) -> MediaView {
    let (m1, encoded) = video_fields_scan(m, fields_of(inner), now);
    if encoded {
        MediaView { outgoing: seq![framed(misc_varint_msg(12, 1))] + m1.outgoing, ..m1 }
    } else {
        refresh_step(m1, now).0
    }
}

/// A message from the peer during the session, by its first field: a
/// test-delay probe (5) is echoed at once (the reply is returned); video
/// (6) and misc (19) messages update the media state; anything else only
/// informs.
pub open spec fn session_message_step(m: MediaView, payload: Seq<u8>, now: i64) -> (MediaView, Option<Seq<u8>>) {
    if payload.len() == 0 {
        (m, None)
    } else {
        match field_at(payload, 0) {
            Some((5, WireValue::Bytes(inner), _)) => (m, Some(framed(bytes_field(5, inner)))),
            Some((6, WireValue::Bytes(inner), _)) => (video_message_step(m, inner, now), None),
            Some((19, WireValue::Bytes(inner), _)) => (misc_scan(m, fields_of(inner)), None),
            _ => (m, None),
        }
    }
}

fn scan_size(d: &[u8], wf: u32, hf: u32) -> (r: (i32, i32))
    ensures
        r == size_scan(fields_of(d@), wf, hf),
{
    let mut width: i32 = 0;
    let mut height: i32 = 0;
    let mut index: usize = 0;
    let ghost mut done: Seq<(u32, WireValue)> = Seq::empty();
    loop
        invariant_except_break
            fields_of(d@) == done + fields_from(d@, index as int),
        invariant
            size_scan(done, wf, hf) == (width, height),
        ensures
            fields_of(d@) == done,
        decreases d.len() - index,
    {
        let ghost i0 = index as int;
        proof {
            lemma_fields_step(d@, i0);
        }
        match next_field(d, &mut index) {
            Some((field, value)) => {
                proof {
                    assert(done.push((field, value@)).drop_last() =~= done);
                }
                match value {
                    ProtoValue::Varint(v) => {
                        if field == wf {
                            width = v as i32;
                        } else if field == hf {
                            height = v as i32;
                        }
                    },
                    ProtoValue::Bytes(_) => {},
                }
                proof {
                    done = done.push((field, value@));
                    assert(fields_of(d@) =~= done + fields_from(d@, index as int));
                }
            },
            None => {
                assert(done + fields_from(d@, i0) =~= done);
                break ;
            },
        }
    }
    (width, height)
}

/// Frames are queued under the codec their `VideoFrame` field stands for in
/// the RustDesk protocol: 6 vp9, 10 h264, 11 h265, 12 vp8, 13 av1. These
/// five fields name five different codecs, and no other field names one.
pub proof fn lemma_video_codec_names(f: u32, g: u32, st: (MediaView, bool), b: Seq<u8>, now: i64)
    ensures
        codec_name(6) == "vp9"@,
        codec_name(10) == "h264"@,
        codec_name(11) == "h265"@,
        codec_name(12) == "vp8"@,
        codec_name(13) == "av1"@,
        codec_name(f).len() > 0 <==> (f == 6 || f == 10 || f == 11 || f == 12 || f == 13),
        codec_name(f).len() > 0 && codec_name(g).len() > 0 && f != g ==> codec_name(f) != codec_name(g),
        codec_name(f).len() > 0 ==> video_field_step(st, (f, WireValue::Bytes(b)), now) == (
        record_frames_step(st.0, codec_name(f), b, now), true),
{
    reveal_strlit("vp9");
    reveal_strlit("h264");
    reveal_strlit("h265");
    reveal_strlit("vp8");
    reveal_strlit("av1");
    if codec_name(f).len() > 0 && codec_name(g).len() > 0 && f != g {
        let x = codec_name(f);
        let y = codec_name(g);
        if x == y {
            assert(x[0] == y[0] && x[1] == y[1] && x[2] == y[2]);
            if x.len() == 4 {
                assert(x[3] == y[3]);
            }
        }
    }
}

fn codec_of(field: u32) -> (s: &'static str)
    ensures
        s@ == codec_name(field),
{
    if field == 6 {
        "vp9"
    } else if field == 10 {
        "h264"
    } else if field == 11 {
        "h265"
    } else if field == 12 {
        "vp8"
    } else if field == 13 {
        "av1"
    } else {
        proof {
            reveal_strlit("");
        }
        ""
    }
}

/// A misc message changes nothing but the display size.
pub proof fn lemma_misc_scan_display_only(m: MediaView, fs: Seq<(u32, WireValue)>)
    ensures
        misc_scan(m, fs) == (MediaView {
            display_width: misc_scan(m, fs).display_width,
            display_height: misc_scan(m, fs).display_height,
            ..m
        }),
    decreases fs.len(),
{
    if fs.len() > 0 {
        lemma_misc_scan_display_only(m, fs.drop_last());
    }
}

impl Media {
    /// Applies a `Misc` message from the peer.
    pub fn handle_misc(&mut self, inner: &[u8])
        ensures
            final(self)@ == misc_scan(old(self)@, fields_of(inner@)),
    {
        let mut index: usize = 0;
        let ghost mut done: Seq<(u32, WireValue)> = Seq::empty();
        loop
            invariant_except_break
                fields_of(inner@) == done + fields_from(inner@, index as int),
            invariant
                self@ == misc_scan(old(self)@, done),
            ensures
                fields_of(inner@) == done,
            decreases inner.len() - index,
        {
            let ghost i0 = index as int;
            proof {
                lemma_fields_step(inner@, i0);
            }
            match next_field(inner, &mut index) {
                Some((field, value)) => {
                    proof {
                        assert(done.push((field, value@)).drop_last() =~= done);
                    }
                    match value {
                        ProtoValue::Bytes(d) => {
                            if field == 5 {
                                let (width, height) = scan_size(d, 4, 5);
                                if width > 0 && height > 0 {
                                    self.display_width = width;
                                    self.display_height = height;
                                }
                            }
                        },
                        ProtoValue::Varint(_) => {},
                    }
                    proof {
                        done = done.push((field, value@));
                        assert(fields_of(inner@) =~= done + fields_from(inner@, index as int));
                    }
                },
                None => {
                    assert(done + fields_from(inner@, i0) =~= done);
                    break ;
                },
            }
        }
    }

    fn handle_video(&mut self, inner: &[u8], now: i64)
        requires
            media_wf(old(self)@),
            now >= 0,
        ensures
            final(self)@ == video_message_step(old(self)@, inner@, now),
            media_wf(final(self)@),
    {
        let mut encoded = false;
        let mut index: usize = 0;
        let ghost mut done: Seq<(u32, WireValue)> = Seq::empty();
        loop
            invariant_except_break
                fields_of(inner@) == done + fields_from(inner@, index as int),
            invariant
                (self@, encoded) == video_fields_scan(old(self)@, done, now),
                media_wf(self@),
                now >= 0,
            ensures
                fields_of(inner@) == done,
            decreases inner.len() - index,
        {
            let ghost i0 = index as int;
            proof {
                lemma_fields_step(inner@, i0);
            }
            match next_field(inner, &mut index) {
                Some((field, value)) => {
                    proof {
                        assert(done.push((field, value@)).drop_last() =~= done);
                    }
                    match value {
                        ProtoValue::Bytes(frames) => {
                            if field != 7 && field != 8 {
                                let codec = codec_of(field);
                                if !codec.is_empty() {
                                    self.record_encoded_frames(codec, frames, now);
                                    encoded = true;
                                }
                            }
                        },
                        ProtoValue::Varint(_) => {},
                    }
                    proof {
                        done = done.push((field, value@));
                        assert(fields_of(inner@) =~= done + fields_from(inner@, index as int));
                    }
                },
                None => {
                    assert(done + fields_from(inner@, i0) =~= done);
                    break ;
                },
            }
        }
        if encoded {
            self.enqueue_msg_front(build_video_received().as_slice());
        } else {
            self.ask_refresh_video(now);
        }
    }

    /// Handles one message from the peer; a reply to write at once (the
    /// test-delay echo) is returned.
    pub fn handle_session_message(&mut self, payload: &[u8], now: i64) -> (r: Result<Option<Vec<u8>>, String>)
        requires
            media_wf(old(self)@),
            now >= 0,
        ensures
            media_wf(final(self)@),
            r matches Ok(reply) && final(self)@ == session_message_step(old(self)@, payload@, now).0
                && match session_message_step(old(self)@, payload@, now).1 {
                Some(b) => reply matches Some(x) && x@ == b,
                None => reply is None,
            },
    {
        if payload.len() == 0 {
            return Ok(None);
        }
        let mut index: usize = 0;
        match next_field(payload, &mut index) {
            Some((5, ProtoValue::Bytes(inner))) => {
                Ok(Some(frame_message(build_test_delay_reply(inner).as_slice())))
            },
            Some((6, ProtoValue::Bytes(inner))) => {
                self.handle_video(inner, now);
                Ok(None)
            },
            Some((19, ProtoValue::Bytes(inner))) => {
                self.handle_misc(inner);
                proof {
                    lemma_misc_scan_display_only(old(self)@, fields_of(inner@));
                }
                Ok(None)
            },
            _ => Ok(None),
        }
    }
}

/// Queuing `a` then `b` is queuing `a + b`.
pub proof fn lemma_enqueued_all_concat(m: MediaView, a: Seq<Seq<u8>>, b: Seq<Seq<u8>>)
    ensures
        enqueued_all(m, a + b) == enqueued_all(enqueued_all(m, a), b),
    decreases b.len(),
{
    if b.len() == 0 {
        assert(a + b =~= a);
    } else {
        assert((a + b).drop_last() =~= a + b.drop_last());
        lemma_enqueued_all_concat(m, a, b.drop_last());
    }
}

/// A control-key event, released or pressed, without modifiers or press flag.
pub open spec fn control_msg(code: u32, down: bool) -> Seq<u8> {
    key_event_msg(3, code, Seq::empty(), down, false)
}

/// Control, Shift, Alt and Meta released, so that no modifier stays held.
pub open spec fn release_msgs() -> Seq<Seq<u8>> {
    seq![control_msg(4, false), control_msg(29, false), control_msg(1, false), control_msg(23, false)]
}

/// The key events that type one character: Enter for a line break, Tab for
/// a tab, else the character itself, each pressed and released.
pub open spec fn char_key_msgs(c: char) -> Seq<Seq<u8>> {
    if c == '\n' || c == '\r' {
        seq![control_msg(27, true), control_msg(27, false)]
    } else if c == '\t' {
        seq![control_msg(31, true), control_msg(31, false)]
    } else {
        seq![
            key_event_msg(4, c as u32, Seq::empty(), true, false),
            key_event_msg(4, c as u32, Seq::empty(), false, false),
        ]
    }
}

pub open spec fn text_key_msgs(cs: Seq<char>) -> Seq<Seq<u8>>
    decreases cs.len(),
{
    if cs.len() == 0 {
        Seq::empty()
    } else {
        text_key_msgs(cs.drop_last()) + char_key_msgs(cs.last())
    }
}

/// The events of a chord: the modifier pressed; the key pressed and
/// released with the modifier (`chr` of 1000 and above is control key
/// `chr - 1000`, 32 is the Space control key, anything else a character);
/// the modifier released twice.
pub open spec fn chord_msgs(chr: u32, modifier: u32) -> Seq<Seq<u8>> {
    let (field, key) = if chr >= 1000 {
        (3u32, (chr - 1000) as u32)
    } else if chr == 32 {
        (3u32, 30u32)
    } else {
        (4u32, chr)
    };
    seq![
        control_msg(modifier, true),
        key_event_msg(field, key, seq![modifier], true, false),
        key_event_msg(field, key, seq![modifier], false, false),
        control_msg(modifier, false),
        control_msg(modifier, false),
    ]
}

/// The messages that apply the session profile's quality and frame rate.
pub open spec fn profile_msgs() -> Seq<Seq<u8>> {
    let (iq, q, fps) = spec_profile_knobs();
    seq![
        misc_option_msg(option_msg()),
        misc_option_msg(varint_field(1, iq as u64)),
        custom_image_quality_msg(q),
        misc_option_msg(varint_field(11, fps as u64)),
        misc_varint_msg(28, fps as u64),
    ]
}

/// The messages sent once the session's option message went out.
pub open spec fn session_option_msgs() -> Seq<Seq<u8>> {
    let (iq, q, fps) = spec_profile_knobs();
    seq![misc_option_msg(varint_field(1, iq as u64))] + if iq == 0 && q > 0 {
        seq![custom_image_quality_msg(q)]
    } else {
        Seq::empty()
    } + seq![misc_option_msg(varint_field(11, fps as u64)), misc_varint_msg(28, fps as u64)]
}

/// A pointer event: wheel events (kinds 3 and 4 of the low three mask bits)
/// carry scroll deltas and leave the cursor alone; other events move the
/// cursor to (`x`, `y`), except a button event at (0, 0), which happens at
/// the last cursor position.
pub open spec fn mouse_step(m: MediaView, mask: i32, x: i32, y: i32) -> MediaView {
    let evt = mask & 7;
    if evt == 3 || evt == 4 {
        enqueued(m, mouse_event_msg(mask, x, y))
    } else if evt == 0 || x != 0 || y != 0 {
        enqueued(MediaView { last_mouse: (x, y), ..m }, mouse_event_msg(mask, x, y))
    } else {
        enqueued(m, mouse_event_msg(mask, m.last_mouse.0, m.last_mouse.1))
    }
}

impl Media {
    fn enqueue_control(&mut self, code: u32, down: bool)
        ensures
            final(self)@ == enqueued(old(self)@, control_msg(code, down)),
    {
        self.enqueue_msg(build_key_control(code, down, false).as_slice());
    }

    /// Releases every modifier key.
    pub fn release_modifiers(&mut self)
        ensures
            final(self)@ == enqueued_all(old(self)@, release_msgs()),
    {
        self.enqueue_control(4, false);
        self.enqueue_control(29, false);
        self.enqueue_control(1, false);
        self.enqueue_control(23, false);
        proof {
            reveal_with_fuel(enqueued_all, 5);
            assert(release_msgs().drop_last().drop_last().drop_last().drop_last() =~= Seq::<Seq<u8>>::empty());
            assert(release_msgs().drop_last().drop_last().drop_last() =~= seq![control_msg(4, false)]);
            assert(release_msgs().drop_last().drop_last() =~= seq![control_msg(4, false), control_msg(29, false)]);
            assert(release_msgs().drop_last() =~= seq![control_msg(4, false), control_msg(29, false), control_msg(1, false)]);
        }
    }

    /// A pointer event from the UI.
    pub fn send_mouse(&mut self, mask: i32, x: i32, y: i32)
        ensures
            final(self)@ == mouse_step(old(self)@, mask, x, y),
    {
        let evt = mask & 0x7;
        if evt == 3 || evt == 4 {
            self.enqueue_msg(build_mouse_event(mask, x, y).as_slice());
            return;
        }
        let mut px = x;
        let mut py = y;
        if evt == 0 || x != 0 || y != 0 {
            self.last_mouse = (x, y);
        } else {
            px = self.last_mouse.0;
            py = self.last_mouse.1;
        }
        self.enqueue_msg(build_mouse_event(mask, px, py).as_slice());
    }

    /// A character key event from the UI; characters of code 0 or below are
    /// ignored.
    pub fn send_key(&mut self, chr: i32, down: i32, press: i32)
        ensures
            chr <= 0 ==> final(self)@ == old(self)@,
            chr > 0 ==> final(self)@ == enqueued(
                old(self)@,
                key_event_msg(4, chr as u32, Seq::empty(), down != 0, press != 0),
            ),
    {
        if chr <= 0 {
            return;
        }
        self.enqueue_msg(build_key_chr(chr as u32, down != 0, press != 0).as_slice());
    }

    /// A control key event from the UI: a press becomes a press and a
    /// release; codes of 0 or below are ignored.
    pub fn send_control(&mut self, code: i32, down: i32, press: i32)
        ensures
            code <= 0 ==> final(self)@ == old(self)@,
            code > 0 && press != 0 ==> final(self)@ == enqueued_all(
                old(self)@,
                seq![control_msg(code as u32, true), control_msg(code as u32, false)],
            ),
            code > 0 && press == 0 ==> final(self)@ == enqueued(old(self)@, control_msg(code as u32, down != 0)),
    {
        if code <= 0 {
            return;
        }
        let key = code as u32;
        if press != 0 {
            self.enqueue_control(key, true);
            self.enqueue_control(key, false);
            proof {
                reveal_with_fuel(enqueued_all, 3);
                assert(seq![control_msg(key, true), control_msg(key, false)].drop_last() =~= seq![control_msg(key, true)]);
                assert(seq![control_msg(key, true)].drop_last() =~= Seq::<Seq<u8>>::empty());
            }
        } else {
            self.enqueue_control(key, down != 0);
        }
    }

    /// A modifier chord from the UI; non-positive codes are ignored.
    pub fn send_chord(&mut self, chr: i32, modifier: i32)
        ensures
            chr <= 0 || modifier <= 0 ==> final(self)@ == old(self)@,
            chr > 0 && modifier > 0 ==> final(self)@ == enqueued_all(
                old(self)@,
                chord_msgs(chr as u32, modifier as u32),
            ),
    {
        if chr <= 0 || modifier <= 0 {
            return;
        }
        let mod_code = modifier as u32;
        let ch = chr as u32;
        let ghost msgs = chord_msgs(ch, mod_code);
        self.enqueue_control(mod_code, true);
        let mods = [mod_code];
        if ch >= 1000 {
            let key = ch - 1000;
            self.enqueue_msg(build_key_control_mod(key, &mods, true, false).as_slice());
            self.enqueue_msg(build_key_control_mod(key, &mods, false, false).as_slice());
        } else if ch == 32 {
            self.enqueue_msg(build_key_control_mod(30, &mods, true, false).as_slice());
            self.enqueue_msg(build_key_control_mod(30, &mods, false, false).as_slice());
        } else {
            self.enqueue_msg(build_key_chr_mod(ch, &mods, true, false).as_slice());
            self.enqueue_msg(build_key_chr_mod(ch, &mods, false, false).as_slice());
        }
        self.enqueue_control(mod_code, false);
        self.enqueue_control(mod_code, false);
        proof {
            assert(mods@ =~= seq![mod_code]);
            reveal_with_fuel(enqueued_all, 6);
            assert(msgs.drop_last().drop_last().drop_last().drop_last().drop_last() =~= Seq::<Seq<u8>>::empty());
            assert(msgs.drop_last().drop_last().drop_last().drop_last() =~= seq![msgs[0]]);
            assert(msgs.drop_last().drop_last().drop_last() =~= seq![msgs[0], msgs[1]]);
            assert(msgs.drop_last().drop_last() =~= seq![msgs[0], msgs[1], msgs[2]]);
            assert(msgs.drop_last() =~= seq![msgs[0], msgs[1], msgs[2], msgs[3]]);
        }
    }

    /// Types `text` key by key, after releasing every modifier; an empty
    /// text does nothing.
    pub fn send_text(&mut self, text: &str)
        ensures
            text@.len() == 0 ==> final(self)@ == old(self)@,
            text@.len() > 0 ==> final(self)@ == enqueued_all(old(self)@, release_msgs() + text_key_msgs(text@)),
    {
        let cs = chars_of(text);
        if cs.len() == 0 {
            return;
        }
        self.release_modifiers();
        let ghost m1 = self@;
        let mut i: usize = 0;
        while i < cs.len()
            invariant
                i <= cs@.len(),
                cs@ == text@,
                self@ == enqueued_all(m1, text_key_msgs(cs@.take(i as int))),
            decreases cs.len() - i,
        {
            let c = cs[i];
            let ghost before = self@;
            if c == '\n' || c == '\r' {
                self.enqueue_control(27, true);
                self.enqueue_control(27, false);
            } else if c == '\t' {
                self.enqueue_control(31, true);
                self.enqueue_control(31, false);
            } else {
                let code = c as u32;
                self.enqueue_msg(build_key_chr(code, true, false).as_slice());
                self.enqueue_msg(build_key_chr(code, false, false).as_slice());
            }
            proof {
                let t = cs@.take(i + 1);
                assert(t.drop_last() =~= cs@.take(i as int));
                assert(t.last() == c);
                let k = char_key_msgs(c);
                reveal_with_fuel(enqueued_all, 3);
                assert(k.drop_last() =~= seq![k[0]]);
                assert(seq![k[0]].drop_last() =~= Seq::<Seq<u8>>::empty());
                assert(self@ == enqueued_all(before, k));
                lemma_enqueued_all_concat(m1, text_key_msgs(cs@.take(i as int)), k);
            }
            i = i + 1;
        }
        proof {
            assert(cs@.take(i as int) =~= text@);
            lemma_enqueued_all_concat(old(self)@, release_msgs(), text_key_msgs(text@));
        }
    }

    /// Re-applies the session profile (the UI offers one quality), then asks
    /// for a refresh.
    pub fn set_image_quality(&mut self, now: i64)
        requires
            media_wf(old(self)@),
            now >= 0,
        ensures
            final(self)@ == refresh_step(
                enqueued_all(
                    MediaView { last_auto_fps: spec_profile_knobs().2 as i32, ..old(self)@ },
                    profile_msgs(),
                ),
                now,
            ).0,
            media_wf(final(self)@),
    {
        let (iq, bitrate, fps) = profile_knobs();
        self.last_auto_fps = fps as i32;
        let ghost m0 = self@;
        self.enqueue_msg(build_option_misc().as_slice());
        self.enqueue_msg(build_image_quality(iq).as_slice());
        self.enqueue_msg(build_custom_image_quality(bitrate).as_slice());
        self.enqueue_msg(build_custom_fps(fps).as_slice());
        self.enqueue_msg(build_auto_fps(fps).as_slice());
        proof {
            let msgs = profile_msgs();
            reveal_with_fuel(enqueued_all, 6);
            assert(msgs.drop_last().drop_last().drop_last().drop_last().drop_last() =~= Seq::<Seq<u8>>::empty());
            assert(msgs.drop_last().drop_last().drop_last().drop_last() =~= seq![msgs[0]]);
            assert(msgs.drop_last().drop_last().drop_last() =~= seq![msgs[0], msgs[1]]);
            assert(msgs.drop_last().drop_last() =~= seq![msgs[0], msgs[1], msgs[2]]);
            assert(msgs.drop_last() =~= seq![msgs[0], msgs[1], msgs[2], msgs[3]]);
            assert(self@ == enqueued_all(m0, msgs));
        }
        self.ask_refresh_video(now);
    }

    /// The quality and frame-rate messages that follow the session's option
    /// message, and the frame rate they set.
    pub fn start_session_options(&mut self)
        ensures
            final(self)@ == enqueued_all(
                MediaView { last_auto_fps: spec_profile_knobs().2 as i32, ..old(self)@ },
                session_option_msgs(),
            ),
    {
        let (iq, q, fps) = profile_knobs();
        self.enqueue_msg(build_image_quality(iq).as_slice());
        if iq == 0 && q > 0 {
            self.enqueue_msg(build_custom_image_quality(q).as_slice());
        }
        self.enqueue_msg(build_custom_fps(fps).as_slice());
        self.enqueue_msg(build_auto_fps(fps).as_slice());
        self.last_auto_fps = fps as i32;
        proof {
            let msgs = session_option_msgs();
            reveal_with_fuel(enqueued_all, 5);
            assert(msgs =~= seq![
                misc_option_msg(varint_field(1, iq as u64)),
                custom_image_quality_msg(q),
                misc_option_msg(varint_field(11, fps as u64)),
                misc_varint_msg(28, fps as u64),
            ]);
            assert(msgs.drop_last().drop_last().drop_last().drop_last() =~= Seq::<Seq<u8>>::empty());
            assert(msgs.drop_last().drop_last().drop_last() =~= seq![msgs[0]]);
            assert(msgs.drop_last().drop_last() =~= seq![msgs[0], msgs[1]]);
            assert(msgs.drop_last() =~= seq![msgs[0], msgs[1], msgs[2]]);
        }
    }

    /// Drops every queued packet, waits for a key frame and asks for one.
    pub fn request_keyframe(&mut self)
        ensures
            final(self)@ == enqueued(
                MediaView {
                    video: VideoQueueView {
                        packets: Seq::empty(),
                        discard: true,
                        got_keyframe: false,
                        keyframe_asks: 0,
                        ..old(self)@.video
                    },
                    ..old(self)@
                },
                misc_varint_msg(10, 1),
            ),
    {
        self.video.await_keyframe();
        self.enqueue_msg(build_refresh_video().as_slice());
    }

    /// The oldest queued packet for the decoder; taking one records its key
    /// flag and codec.
    pub fn take_packet(&mut self) -> (p: Option<EncodedPacket>)
        ensures
            old(self)@.video.packets.len() == 0 ==> p is None && final(self)@ == old(self)@,
            old(self)@.video.packets.len() > 0 ==> (p matches Some(x) && x@ == old(self)@.video.packets[0]
                && final(self)@ == (MediaView {
                video: VideoQueueView { packets: old(self)@.video.packets.drop_first(), ..old(self)@.video },
                last_copied_key: if x.key { 1i32 } else { 0i32 },
                last_codec: x.codec@,
                ..old(self)@
            })),
    {
        let p = self.video.pop();
        match p {
            Some(packet) => {
                self.last_copied_key = if packet.key { 1 } else { 0 };
                self.last_codec = packet.codec.clone();
                Some(packet)
            },
            None => None,
        }
    }

    /// A session read timed out at `now`: with no video for 2.5 s, ask for
    /// a refresh.
    pub fn on_idle_read(&mut self, now: i64)
        requires
            media_wf(old(self)@),
            now >= 0,
        ensures
            media_wf(final(self)@),
            old(self)@.last_video_ms == 0 || now - old(self)@.last_video_ms > 2500 ==> final(self)@
                == refresh_step(old(self)@, now).0,
            !(old(self)@.last_video_ms == 0 || now - old(self)@.last_video_ms > 2500) ==> final(self)@
                == old(self)@,
    {
        let last = self.last_video_ms;
        if last == 0 || now - last > 2500 {
            self.ask_refresh_video(now);
        }
    }

    /// The writer's periodic check at `now`: with no video for 8 s (6 s
    /// without the high-quality profile), ask for a refresh.
    pub fn writer_tick(&mut self, now: i64)
        requires
            media_wf(old(self)@),
            now >= 0,
        ensures
            media_wf(final(self)@),
            old(self)@.last_video_ms == 0 || now - old(self)@.last_video_ms >= 8000 ==> final(self)@
                == refresh_step(old(self)@, now).0,
            !(old(self)@.last_video_ms == 0 || now - old(self)@.last_video_ms >= 8000) ==> final(self)@
                == old(self)@,
    {
        let last = self.last_video_ms;
        let refresh_ms: i64 = if use_hd_profile() { 8000 } else { 6000 };
        if last == 0 || now - last >= refresh_ms {
            self.ask_refresh_video(now);
        }
    }
}

/// Nothing is connecting or connected.
pub const STATUS_IDLE: i32 = 0;
/// Logged in, or the lookup finished without an error.
pub const STATUS_READY: i32 = 1;
pub const STATUS_CONNECTING: i32 = 2;
pub const STATUS_FAILED: i32 = 3;

/// The connection status the UI polls.
pub struct Link {
    pub status: i32,
    pub running: bool,
    /// Bumped by every connect and disconnect; a lookup or session that
    /// belongs to an older value is stale.
    pub connect_gen: i32,
    /// Bumped by every online check; likewise for checks.
    pub check_gen: i32,
    pub check_result: String,
    pub error: String,
    pub direct_session: bool,
    pub hd_profile: bool,
}

pub struct LinkView {
    pub status: i32,
    pub running: bool,
    pub connect_gen: i32,
    pub check_gen: i32,
    pub check_result: Seq<char>,
    pub error: Seq<char>,
    pub direct_session: bool,
    pub hd_profile: bool,
}

impl View for Link {
    type V = LinkView;

    open spec fn view(&self) -> LinkView {
        LinkView {
            status: self.status,
            running: self.running,
            connect_gen: self.connect_gen,
            check_gen: self.check_gen,
            check_result: self.check_result@,
            error: self.error@,
            direct_session: self.direct_session,
            hd_profile: self.hd_profile,
        }
    }
}

/// Where to connect, as the user configured it.
pub struct Settings {
    pub server: String,
    pub relay: String,
    pub key: String,
    pub force_relay: bool,
}

pub struct SettingsView {
    pub server: Seq<char>,
    pub relay: Seq<char>,
    pub key: Seq<char>,
    pub force_relay: bool,
}

impl View for Settings {
    type V = SettingsView;

    open spec fn view(&self) -> SettingsView {
        SettingsView {
            server: self.server@,
            relay: self.relay@,
            key: self.key@,
            force_relay: self.force_relay,
        }
    }
}

/// Everything the native bridge keeps between calls.
pub struct Core {
    pub link: Link,
    pub settings: Settings,
    pub media: Media,
}

/// The link after a disconnect: stale sessions and lookups, idle.
pub open spec fn disconnect_link(l: LinkView) -> LinkView {
    LinkView {
        connect_gen: l.connect_gen.wrapping_add(1),
        running: false,
        direct_session: false,
        hd_profile: false,
        status: STATUS_IDLE,
        ..l
    }
}

/// The link after the lookup of connection `gen` ended with `outcome`: a
/// stale lookup changes nothing; a login that already set the status keeps
/// it; any other result clears the error and reports ready; a failure
/// records its error.
pub open spec fn finish_lookup_link(l: LinkView, gen: i32, outcome: Result<Seq<char>, Seq<char>>) -> LinkView {
    if l.connect_gen != gen {
        l
    } else {
        match outcome {
            Ok(msg) => if contains_seq(msg, "LOGIN_OK"@) {
                l
            } else {
                LinkView { error: Seq::empty(), status: STATUS_READY, ..l }
            },
            Err(e) => LinkView { error: e, status: STATUS_FAILED, ..l },
        }
    }
}

/// The link after the session of connection `gen` ended: unless stale or
/// stopped, it reports the interruption.
pub open spec fn session_end_link(l: LinkView, gen: i32) -> LinkView {
    if l.running && l.connect_gen == gen {
        LinkView { error: "会话中断"@, status: STATUS_FAILED, ..l }
    } else {
        l
    }
}

/// What an online check reports: the answer, or `ERROR:` and the error.
pub open spec fn check_text(outcome: Result<Seq<char>, Seq<char>>) -> Seq<char> {
    match outcome {
        Ok(s) => s,
        Err(e) => "ERROR:"@ + e,
    }
}

/// The media state at the start of a connection.
pub open spec fn connect_media(m: MediaView, direct: bool) -> MediaView {
    MediaView {
        video: VideoQueueView {
            packets: Seq::empty(),
            discard: false,
            got_keyframe: false,
            keyframe_asks: 0,
            last_key_packet: None,
            key_seq: 0,
        },
        outgoing: Seq::empty(),
        last_refresh_ask_ms: 0,
        frame_count: 0,
        packet_seq: 0,
        last_packet: None,
        last_video_ms: 0,
        display_width: 0,
        display_height: 0,
        last_copied_key: 0,
        last_auto_fps: if direct { 60 } else { 25 },
        ..m
    }
}

impl Core {
    pub fn new() -> (c: Self)
        ensures
            c.link@.status == STATUS_IDLE,
            !c.link@.running,
            c.link@.connect_gen == 0,
            c.link@.check_gen == 0,
            c.link@.check_result == Seq::<char>::empty(),
            c.link@.error == Seq::<char>::empty(),
            !c.link@.direct_session,
            !c.link@.hd_profile,
            c.settings@.server == Seq::<char>::empty(),
            c.settings@.relay == Seq::<char>::empty(),
            c.settings@.key == Seq::<char>::empty(),
            !c.settings@.force_relay,
            c.media@.video.packets.len() == 0,
            c.media@.outgoing.len() == 0,
            c.media@ == initial_media(),
            media_wf(c.media@),
    {
        Core {
            link: Link {
                status: STATUS_IDLE,
                running: false,
                connect_gen: 0,
                check_gen: 0,
                check_result: String::new(),
                error: String::new(),
                direct_session: false,
                hd_profile: false,
            },
            settings: Settings {
                server: String::new(),
                relay: String::new(),
                key: String::new(),
                force_relay: false,
            },
            media: Media::new(),
        }
    }

    /// Stores the servers and licence key. An ID server that is missing or
    /// public is refused: the stored server and key are cleared and -1 is
    /// returned; otherwise 0. The relay-only flag is stored either way.
    pub fn set_server(&mut self, id_server: &str, relay: &str, force_relay: bool, key: &str) -> (r: i32)
        ensures
            final(self).link@ == old(self).link@,
            final(self).media@ == old(self).media@,
            final(self).settings@.force_relay == force_relay,
            match id_server_addr(id_server@) {
                Some(a) => r == 0 && final(self).settings@.server == a && final(self).settings@.relay
                    == relay@ && final(self).settings@.key == licence_key_spec(key@),
                None => r == -1 && final(self).settings@.server == Seq::<char>::empty()
                    && final(self).settings@.key == Seq::<char>::empty() && final(self).settings@.relay
                    == old(self).settings@.relay,
            },
    {
        let licence = normalize_licence_key(key);
        self.settings.force_relay = force_relay;
        match normalize_server(id_server) {
            Ok(server) => {
                self.settings.server = server;
                self.settings.relay = String::from_str(relay);
                self.settings.key = licence;
                0
            },
            Err(_) => {
                self.settings.server = String::new();
                self.settings.key = String::new();
                -1
            },
        }
    }

    /// Starts connecting to `desk`: refused (-1, with an error) when no ID
    /// server is set and `desk` is no direct address; otherwise every
    /// session counter and queue is reset, the connection gets a new
    /// generation and 0 is returned.
    pub fn begin_connect(&mut self, desk: &str) -> (r: i32)
        ensures
            final(self).settings@ == old(self).settings@,
            old(self).settings@.server.len() == 0 && !is_direct_ip_spec(desk@) ==> r == -1
                && final(self).link@ == (LinkView {
                error: "请先在设置填写自建 ID 服务器"@,
                status: STATUS_FAILED,
                ..old(self).link@
            }) && final(self).media@ == old(self).media@,
            !(old(self).settings@.server.len() == 0 && !is_direct_ip_spec(desk@)) ==> r == 0
                && final(self).link@ == (LinkView {
                connect_gen: old(self).link@.connect_gen.wrapping_add(1),
                direct_session: is_direct_ip_spec(desk@),
                hd_profile: true,
                running: true,
                status: STATUS_CONNECTING,
                error: Seq::empty(),
                ..old(self).link@
            }) && final(self).media@ == connect_media(old(self).media@, is_direct_ip_spec(desk@)),
            media_wf(old(self).media@) ==> media_wf(final(self).media@),
    {
        let d = chars_of(desk);
        let direct = is_direct_ip_peer(desk);
        if self.settings.server.as_str().is_empty() && !direct {
            self.link.error = String::from_str("请先在设置填写自建 ID 服务器");
            self.link.status = STATUS_FAILED;
            return -1;
        }
        self.link.connect_gen = self.link.connect_gen.wrapping_add(1);
        self.link.direct_session = direct;
        self.link.hd_profile = true;
        self.link.running = true;
        self.media.frame_count = 0;
        self.media.packet_seq = 0;
        self.media.video.reset();
        self.media.last_video_ms = 0;
        self.media.last_refresh_ask_ms = 0;
        self.media.display_width = 0;
        self.media.display_height = 0;
        self.media.last_copied_key = 0;
        self.media.last_auto_fps = if direct { 60 } else { 25 };
        self.media.last_packet = None;
        self.media.outgoing = Vec::new();
        self.link.status = STATUS_CONNECTING;
        self.link.error = String::new();
        assert(self.media@.outgoing =~= Seq::<Seq<u8>>::empty());
        assert(self.media@ == connect_media(old(self).media@, direct));
        0
    }

    /// The lookup of connection `gen` is about to run: it goes ahead (and the
    /// status reads connecting) unless a newer connect or a disconnect made
    /// it stale.
    pub fn lookup_started(&mut self, gen: i32) -> (go: bool)
        ensures
            go == (old(self).link@.connect_gen == gen),
            go ==> final(self).link@ == (LinkView { status: STATUS_CONNECTING, ..old(self).link@ }),
            !go ==> final(self).link@ == old(self).link@,
            final(self).settings@ == old(self).settings@,
            final(self).media@ == old(self).media@,
    {
        if self.link.connect_gen != gen {
            return false;
        }
        self.link.status = STATUS_CONNECTING;
        true
    }

    /// The lookup of connection `gen` ended with `outcome`.
    pub fn finish_lookup(&mut self, gen: i32, outcome: Result<String, String>)
        ensures
            final(self).link@ == finish_lookup_link(
                old(self).link@,
                gen,
                match outcome {
                    Ok(s) => Ok(s@),
                    Err(e) => Err(e@),
                },
            ),
            final(self).settings@ == old(self).settings@,
            final(self).media@ == old(self).media@,
    {
        if self.link.connect_gen != gen {
            return;
        }
        match outcome {
            Ok(msg) => {
                if contains(chars_of(msg.as_str()).as_slice(), chars_of("LOGIN_OK").as_slice()) {
                    return;
                }
                self.link.error = String::new();
                self.link.status = STATUS_READY;
            },
            Err(e) => {
                self.link.error = e;
                self.link.status = STATUS_FAILED;
            },
        }
    }

    /// Starts an online check of `desk`: -1 for an empty id; -2 (and
    /// `NO_SERVER`) when no ID server is set and `desk` is no direct
    /// address; otherwise the check gets a new generation, reads `PENDING`,
    /// and 0 is returned.
    pub fn begin_check(&mut self, desk: &str) -> (r: i32)
        ensures
            final(self).settings@ == old(self).settings@,
            final(self).media@ == old(self).media@,
            desk@.len() == 0 ==> r == -1 && final(self).link@ == old(self).link@,
            desk@.len() > 0 && old(self).settings@.server.len() == 0 && !is_direct_ip_spec(desk@) ==> r
                == -2 && final(self).link@ == (LinkView { check_result: "NO_SERVER"@, ..old(self).link@ }),
            desk@.len() > 0 && !(old(self).settings@.server.len() == 0 && !is_direct_ip_spec(desk@)) ==> r
                == 0 && final(self).link@ == (LinkView {
                check_gen: old(self).link@.check_gen.wrapping_add(1),
                check_result: "PENDING"@,
                ..old(self).link@
            }),
    {
        let d = chars_of(desk);
        if d.len() == 0 {
            return -1;
        }
        if self.settings.server.as_str().is_empty() && !is_direct_ip_peer(desk) {
            self.link.check_result = String::from_str("NO_SERVER");
            return -2;
        }
        self.link.check_gen = self.link.check_gen.wrapping_add(1);
        self.link.check_result = String::from_str("PENDING");
        0
    }

    /// The online check of generation `gen` ended with `outcome`; a stale
    /// check changes nothing.
    pub fn finish_check(&mut self, gen: i32, outcome: Result<String, String>)
        ensures
            final(self).settings@ == old(self).settings@,
            final(self).media@ == old(self).media@,
            old(self).link@.check_gen != gen ==> final(self).link@ == old(self).link@,
            old(self).link@.check_gen == gen ==> final(self).link@ == (LinkView {
                check_result: check_text(
                    match outcome {
                        Ok(s) => Ok(s@),
                        Err(e) => Err(e@),
                    },
                ),
                ..old(self).link@
            }),
    {
        let text = match outcome {
            Ok(s) => s,
            Err(e) => {
                let mut t = String::from_str("ERROR:");
                t.append(e.as_str());
                t
            },
        };
        if self.link.check_gen != gen {
            return;
        }
        self.link.check_result = text;
    }

    /// Stops the session: anything still running for the old generation is
    /// stale from now on.
    pub fn disconnect(&mut self)
        ensures
            final(self).link@ == disconnect_link(old(self).link@),
            final(self).settings@ == old(self).settings@,
            final(self).media@ == old(self).media@,
    {
        self.link.connect_gen = self.link.connect_gen.wrapping_add(1);
        self.link.running = false;
        self.link.direct_session = false;
        self.link.hd_profile = false;
        self.link.status = STATUS_IDLE;
    }

    /// A direct-IP connection starts: direct, high-quality, 60 fps.
    pub fn begin_direct_ip(&mut self)
        ensures
            final(self).link@ == (LinkView { direct_session: true, hd_profile: true, ..old(self).link@ }),
            final(self).media@ == (MediaView { last_auto_fps: 60, ..old(self).media@ }),
            final(self).settings@ == old(self).settings@,
    {
        self.link.direct_session = true;
        self.link.hd_profile = true;
        self.media.last_auto_fps = 60;
    }

    /// The punched direct path to the peer connected (not a LAN session).
    pub fn punch_direct_connected(&mut self)
        ensures
            final(self).link@ == (LinkView { direct_session: false, ..old(self).link@ }),
            final(self).media@ == old(self).media@,
            final(self).settings@ == old(self).settings@,
    {
        self.link.direct_session = false;
    }

    /// The login succeeded.
    pub fn login_ok(&mut self)
        ensures
            final(self).link@ == (LinkView { status: STATUS_READY, ..old(self).link@ }),
            final(self).media@ == old(self).media@,
            final(self).settings@ == old(self).settings@,
    {
        self.link.status = STATUS_READY;
    }

    /// The session of connection `gen` ended.
    pub fn session_ended(&mut self, gen: i32)
        ensures
            final(self).link@ == session_end_link(old(self).link@, gen),
            final(self).media@ == old(self).media@,
            final(self).settings@ == old(self).settings@,
    {
        if self.link.running && self.link.connect_gen == gen {
            self.link.error = String::from_str("会话中断");
            self.link.status = STATUS_FAILED;
        }
    }
}

/// After a disconnect, whatever the lookup or session of the connection
/// that was current then reports changes nothing: both are stale.
pub proof fn lemma_disconnect_stales(l: LinkView, outcome: Result<Seq<char>, Seq<char>>)
    ensures
        finish_lookup_link(disconnect_link(l), l.connect_gen, outcome) == disconnect_link(l),
        session_end_link(disconnect_link(l), l.connect_gen) == disconnect_link(l),
{
    let g = l.connect_gen;
    assert(g.wrapping_add(1) != g) by {
        if g == i32::MAX {
            assert(g.wrapping_add(1) == i32::MIN);
        }
    }
}

/// The outgoing queue never grows past 161 messages by plain queuing, and
/// the message just queued is always the last one.
pub proof fn lemma_outgoing_bounded(q: Seq<Seq<u8>>, msg: Seq<u8>)
    requires
        q.len() <= 161,
    ensures
        outgoing_after(q, msg).len() <= 161,
        outgoing_after(q, msg).last() == framed(msg),
        q.len() <= 160 ==> outgoing_after(q, msg) == q.push(framed(msg)),
{
}

/// Once an ask went out, a second ask within 1.5 s queues nothing, and one
/// 1.5 s or more later goes out.
pub proof fn lemma_refresh_throttled(m: MediaView, first: i64, second: i64)
    requires
        0 < first <= second,
        refresh_step(m, first).1,
    ensures
        second - first < 1500 ==> refresh_step(refresh_step(m, first).0, second).0 == refresh_step(m, first).0
            && !refresh_step(refresh_step(m, first).0, second).1,
        second - first >= 1500 ==> refresh_step(refresh_step(m, first).0, second).1,
{
}

/// A packet that is no key frame, arriving at a queue within its limit:
/// while a key frame is awaited the queue stays as it is and the drop is
/// counted; otherwise the packet joins the queue behind what is kept of it,
/// a full queue first losing its oldest third (at least eight). Either way
/// the queue stays within its limit.
pub proof fn lemma_video_packet_not_key(m: MediaView, p: PacketView, now: i64)
    requires
        !p.key,
        m.video.packets.len() <= packet_queue_limit(),
    ensures
        ({
            let r = video_packet_step(m, p, now);
            let n = m.video.packets.len();
            let d: int = if n >= 240 {
                if n / 3 > 8 {
                    (n / 3) as int
                } else {
                    8
                }
            } else {
                0
            };
            &&& (m.video.discard || !m.video.got_keyframe) ==> r.video.packets == m.video.packets
                && r.video.keyframe_asks == m.video.keyframe_asks.wrapping_add(1)
            &&& !(m.video.discard || !m.video.got_keyframe) ==> r.video.packets == m.video.packets.skip(d).push(p)
                && r.video.keyframe_asks == m.video.keyframe_asks
            &&& r.video.packets.len() <= packet_queue_limit()
        }),
{
    let n = m.video.packets.len();
    if n < 240 {
        assert(m.video.packets.skip(0) =~= m.video.packets);
    }
}

} // verus!
