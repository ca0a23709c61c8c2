//! The stream of the preview player: frames and events in packets.
use vstd::prelude::*;
use crate::error::owned;
use crate::json;
use crate::pixmap::{byte_len, size_ok, Pixmap, PixmapView};
use crate::text;
use crate::thumbnails::{le_u32, read_le_u32};

verus! {

/// What the player tells.
#[derive(Debug)]
pub enum PlayerEvent {
    /// The frame at `t` nanoseconds.
    Frame { t: u64, pixmap: Pixmap },
    Eos,
    Error(String),
}

/// What an event holds.
#[verifier::ext_equal]
pub enum EventView {
    Frame { t: int, pixmap: PixmapView },
    Eos,
    Error(Seq<char>),
}

impl View for PlayerEvent {
    type V = EventView;

    open spec fn view(&self) -> EventView {
        match *self {
            PlayerEvent::Frame { t, pixmap } => EventView::Frame { t: t as int, pixmap: pixmap@ },
            PlayerEvent::Eos => EventView::Eos,
            PlayerEvent::Error(m) => EventView::Error(m@),
        }
    }
}

/// The start of a stream: nothing whole yet, an event and where the next
/// packet begins, a packet without meaning, or no packet at all.
#[derive(Debug)]
pub enum Packet {
    Incomplete,
    Event(PlayerEvent, usize),
    Ignored(usize),
    Desynced,
}

/// What a packet holds.
#[verifier::ext_equal]
pub enum PacketView {
    Incomplete,
    Event(EventView, int),
    Ignored(int),
    Desynced,
}

impl View for Packet {
    type V = PacketView;

    open spec fn view(&self) -> PacketView {
        match *self {
            Packet::Incomplete => PacketView::Incomplete,
            Packet::Event(e, n) => PacketView::Event(e@, n as int),
            Packet::Ignored(n) => PacketView::Ignored(n as int),
            Packet::Desynced => PacketView::Desynced,
        }
    }
}

/// The first bytes of a frame: `FRM0`.
pub open spec fn frame_mark(b: Seq<u8>) -> bool {
    b[0] == 70 && b[1] == 82 && b[2] == 77 && b[3] == 48
}

/// The first bytes of an event: `EVT0`.
pub open spec fn event_mark(b: Seq<u8>) -> bool {
    b[0] == 69 && b[1] == 86 && b[2] == 84 && b[3] == 48
}

/// The event of a kind and a message: nothing without a kind to read.
pub open spec fn told(kind: Option<Option<Seq<char>>>, msg: Option<Option<Seq<char>>>) -> Option<
    EventView,
> {
    match kind {
        None => None,
        Some(k) => if k == Some("eos"@) {
            Some(EventView::Eos)
        } else {
            match msg {
                Some(Some(m)) => Some(EventView::Error(m)),
                _ => Some(EventView::Error("player error"@)),
            }
        },
    }
}

/// The packet at the start of a stream: a frame with its time, its size and
/// its pixels, or an event with its length and its JSON text.
pub open spec fn packet_of(b: Seq<u8>) -> PacketView {
    if b.len() < 4 {
        PacketView::Incomplete
    } else if frame_mark(b) {
        let w = le_u32(b, 12);
        let h = le_u32(b, 16);
        if b.len() < 20 || b.len() < 20 + byte_len(w, h) {
            PacketView::Incomplete
        } else if !size_ok(w, h) {
            PacketView::Desynced
        } else {
            PacketView::Event(
                EventView::Frame {
                    t: le_u32(b, 4) + le_u32(b, 8) * 0x1_0000_0000,
                    pixmap: PixmapView {
                        width: w as u32,
                        height: h as u32,
                        data: b.subrange(20, 20 + byte_len(w, h)),
                    },
                },
                20 + byte_len(w, h),
            )
        }
    } else if event_mark(b) {
        let n = le_u32(b, 4);
        if b.len() < 8 || b.len() < 8 + n {
            PacketView::Incomplete
        } else {
            let body = b.subrange(8, 8 + n);
            match told(json::json_text(body, "kind"@), json::json_text(body, "msg"@)) {
                Some(e) => PacketView::Event(e, 8 + n),
                None => PacketView::Ignored(8 + n),
            }
        }
    } else {
        PacketView::Desynced
    }
}

pub open spec fn maybe2(s: Option<Option<String>>) -> Option<Option<Seq<char>>> {
    match s {
        Some(s) => Some(json::maybe(s)),
        None => None,
    }
}

/// The event that a kind and a message tell.
pub fn event_of(kind: &Option<Option<String>>, msg: &Option<Option<String>>) -> (r: Option<
    PlayerEvent,
>)
    ensures
        match r {
            Some(e) => told(maybe2(*kind), maybe2(*msg)) == Some(e@),
            None => told(maybe2(*kind), maybe2(*msg)) is None,
        },
{
    match kind {
        None => None,
        Some(k) => {
            if let Some(k) = k {
                if text::same_text(k.as_str(), "eos") {
                    return Some(PlayerEvent::Eos);
                }
            }
            match msg {
                Some(Some(m)) => Some(PlayerEvent::Error(m.clone())),
                _ => Some(PlayerEvent::Error(owned("player error"))),
            }
        },
    }
}

fn copy_bytes(b: &[u8], from: usize, to: usize) -> (r: Vec<u8>)
    requires
        from <= to <= b@.len(),
    ensures
        r@ == b@.subrange(from as int, to as int),
{
    let mut out: Vec<u8> = Vec::new();
    let mut i: usize = from;
    while i < to
        invariant
            from <= i <= to <= b@.len(),
            out@ == b@.subrange(from as int, i as int),
        decreases to - i,
    {
        out.push(b[i]);
        i += 1;
        assert(out@ =~= b@.subrange(from as int, i as int));
    }
    out
}

proof fn lemma_len(w: u32, h: u32)
    ensures
        0 <= w * h <= 0xffff_ffff * 0xffff_ffff,
        byte_len(w as int, h as int) == w * h * 4,
{
    assert(0 <= w * h <= 0xffff_ffff * 0xffff_ffff) by (nonlinear_arith)
        requires
            0 <= w <= 0xffff_ffff,
            0 <= h <= 0xffff_ffff,
    ;
}

fn read_frame(b: &[u8]) -> (r: Packet)
    requires
        b@.len() >= 4,
        frame_mark(b@),
    ensures
        r@ == packet_of(b@),
{
    if b.len() < 20 {
        return Packet::Incomplete;
    }
    let lo: u32 = read_le_u32(b, 4);
    let hi: u32 = read_le_u32(b, 8);
    let t: u64 = lo as u64 + hi as u64 * 0x1_0000_0000;
    let w: u32 = read_le_u32(b, 12);
    let h: u32 = read_le_u32(b, 16);
    proof {
        lemma_len(w, h);
    }
    let len: u128 = w as u128 * h as u128 * 4;
    if len > (b.len() - 20) as u128 {
        return Packet::Incomplete;
    }
    match Pixmap::from_bytes(w, h, b, 20) {
        Some(pixmap) => Packet::Event(PlayerEvent::Frame { t, pixmap }, 20 + len as usize),
        None => Packet::Desynced,
    }
}

/// The packet at the start of what the player has written so far.
pub fn next_packet(b: &[u8]) -> (r: Packet)
    ensures
        r@ == packet_of(b@),
{
    if b.len() < 4 {
        return Packet::Incomplete;
    }
    if b[0] == 70 && b[1] == 82 && b[2] == 77 && b[3] == 48 {
        return read_frame(b);
    }
    if b[0] == 69 && b[1] == 86 && b[2] == 84 && b[3] == 48 {
        if b.len() < 8 {
            return Packet::Incomplete;
        }
        let n: u32 = read_le_u32(b, 4);
        if n as u64 > (b.len() - 8) as u64 {
            return Packet::Incomplete;
        }
        let end: usize = 8 + n as usize;
        let body = copy_bytes(b, 8, end);
        let kind = json::text_field(body.as_slice(), "kind");
        let msg = json::text_field(body.as_slice(), "msg");
        return match event_of(&kind, &msg) {
            Some(e) => Packet::Event(e, end),
            None => Packet::Ignored(end),
        };
    }
    Packet::Desynced
}

/// Every whole packet is at least as long as its head, and lies inside of what
/// was read: a reader that goes on behind it makes progress.
pub proof fn law_packets_advance(b: Seq<u8>)
    ensures
        packet_of(b) matches PacketView::Event(_, n) ==> 8 <= n <= b.len(),
        packet_of(b) matches PacketView::Ignored(n) ==> 8 <= n <= b.len(),
{
    if b.len() >= 20 && frame_mark(b) {
        let w = le_u32(b, 12);
        let h = le_u32(b, 16);
        assert(w * h * 4 >= 0) by (nonlinear_arith)
            requires
                w >= 0,
                h >= 0,
        ;
    }
}

/// More bytes do not change a packet that was whole.
pub proof fn law_packets_are_stable(b: Seq<u8>, more: Seq<u8>)
    requires
        !(packet_of(b) is Incomplete),
    ensures
        packet_of(b + more) == packet_of(b),
{
    let all = b + more;
    assert(b.len() >= 4);
    assert(all[0] == b[0] && all[1] == b[1] && all[2] == b[2] && all[3] == b[3]);
    if frame_mark(b) {
        let w = le_u32(b, 12);
        let h = le_u32(b, 16);
        assert(w * h * 4 >= 0) by (nonlinear_arith)
            requires
                w >= 0,
                h >= 0,
        ;
        assert(all.subrange(20, 20 + byte_len(w, h)) =~= b.subrange(20, 20 + byte_len(w, h)));
    } else if event_mark(b) {
        let n = le_u32(b, 4);
        assert(all.subrange(8, 8 + n) =~= b.subrange(8, 8 + n));
    }
}

/// A frame's packet holds its time, its size and its pixels: the mark `FRM0`, a
/// time of eight bytes, a width and a height of four, each with the lowest
/// byte first, and four bytes for each pixel. It is read once all of it is
/// there.
pub proof fn law_frame_packets_hold_frames(b: Seq<u8>, t: int, w: int, h: int)
    requires
        b.len() >= 20,
        b[0] == 'F' as u8,
        b[1] == 'R' as u8,
        b[2] == 'M' as u8,
        b[3] == '0' as u8,
        t == (b[4] + 256 * b[5] + 65536 * b[6] + 16777216 * b[7]) + 0x1_0000_0000 * (b[8] + 256
            * b[9] + 65536 * b[10] + 16777216 * b[11]),
        w == b[12] + 256 * b[13] + 65536 * b[14] + 16777216 * b[15],
        h == b[16] + 256 * b[17] + 65536 * b[18] + 16777216 * b[19],
    ensures
        b.len() < 20 + w * h * 4 ==> packet_of(b) is Incomplete,
        b.len() >= 20 + w * h * 4 && size_ok(w, h) ==> (packet_of(b) matches PacketView::Event(
            EventView::Frame { t: t2, pixmap },
            n,
        ) && t2 == t && pixmap.width == w && pixmap.height == h && pixmap.data == b.subrange(
            20,
            20 + w * h * 4,
        ) && n == 20 + w * h * 4),
{
}

/// An event's packet has the mark `EVT0`, a length of four bytes with the
/// lowest first, and a body of that length. An event of kind `eos` ends the
/// video, and any other one tells of an error; bytes without a mark are none.
pub proof fn law_event_packets_hold_events(b: Seq<u8>, n: int)
    requires
        b.len() >= 8,
        n == b[4] + 256 * b[5] + 65536 * b[6] + 16777216 * b[7],
    ensures
        b[0] == 'E' as u8 && b[1] == 'V' as u8 && b[2] == 'T' as u8 && b[3] == '0' as u8 ==> ({
            let body = b.subrange(8, 8 + n);
            &&& b.len() < 8 + n ==> packet_of(b) is Incomplete
            &&& b.len() >= 8 + n ==> match json::json_text(body, "kind"@) {
                None => packet_of(b) == PacketView::Ignored(8 + n),
                Some(k) => packet_of(b) matches PacketView::Event(e, m) && m == 8 + n && (e is Eos)
                    == (k == Some("eos"@)) && !(e is Frame) && (k != Some(
                    "eos"@,
                ) ==> (json::json_text(body, "msg"@) matches Some(Some(why)) ==> e
                    == EventView::Error(why))),
            }
        }),
        !(b[0] == 'E' as u8 && b[1] == 'V' as u8 && b[2] == 'T' as u8 && b[3] == '0' as u8) && !(b[0]
            == 'F' as u8 && b[1] == 'R' as u8 && b[2] == 'M' as u8 && b[3] == '0' as u8)
            ==> packet_of(b) is Desynced,
{
}

} // verus!
