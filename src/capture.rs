use vstd::prelude::*;

use crate::error::ProtocolError;
use crate::text::{byte_of, parse_byte, parse_time, time_of};

verus! {

/// Start-of-packet byte on the bus.
pub const START_BYTE: u8 = 0xFA;

/// End-of-packet byte on the bus.
pub const END_BYTE: u8 = 0xFD;

/// The two ends of the half-duplex line.
#[derive(Debug, Clone, Copy, PartialEq, Eq, Structural)]
pub enum Device {
    Desk,
    Controller,
}

/// A capture time in picoseconds.
#[derive(Debug, Clone, Copy, PartialEq, Eq, Structural)]
pub struct Timestamp {
    pub picos: i64,
}

/// What one frame on the line carried: a byte, or the text of a
/// transmission error reported instead of it.
#[derive(Debug, Clone)]
pub enum FrameValue {
    Value(u8),
    ParityError(String),
    FramingError(String),
}

/// One decoded byte or error, with its time.
#[derive(Debug, Clone)]
pub struct Frame {
    pub time: Timestamp,
    pub value: FrameValue,
}

/// Whether a frame carries byte `b`.
pub open spec fn carries(f: Frame, b: u8) -> bool {
    match f.value {
        FrameValue::Value(v) => v == b,
        _ => false,
    }
}

/// Whether a frame is a start or an end sentinel.
pub open spec fn is_sentinel(f: Frame) -> bool {
    carries(f, START_BYTE) || carries(f, END_BYTE)
}

/// Frames `[start, end)` are the payload of a packet: a start sentinel right
/// before, an end sentinel right after, and no sentinel between.
pub open spec fn is_packet_span(frames: Seq<Frame>, start: int, end: int) -> bool {
    &&& 1 <= start <= end < frames.len()
    &&& carries(frames[start - 1], START_BYTE)
    &&& carries(frames[end], END_BYTE)
    &&& forall|j: int| start <= j < end ==> !is_sentinel(#[trigger] frames[j])
}

/// A sentinel-delimited run of one device's frames: the payload is
/// `frames[start..end]`, sentinels excluded.
#[derive(Debug, Clone, Copy, PartialEq, Eq, Structural)]
pub struct Packet {
    pub source: Device,
    pub start: usize,
    pub end: usize,
}

/// A start sentinel at `s - 1` that nothing has closed or replaced before `i`.
pub open spec fn open_start(frames: Seq<Frame>, s: int, i: int) -> bool {
    &&& 1 <= s <= i
    &&& carries(frames[s - 1], START_BYTE)
    &&& forall|j: int| s <= j < i ==> !is_sentinel(#[trigger] frames[j])
}

/// The packets of one device's frames, in order: every run between a start
/// sentinel and the next end sentinel with no other sentinel in it. A later
/// start replaces an unclosed earlier one; an end with no start, and a start
/// never closed, yield nothing.
pub fn parse_packets(frames: &Vec<Frame>, source: Device) -> (r: Vec<Packet>)
    ensures
        forall|k: int|
            0 <= k < r@.len() ==> {
                &&& (#[trigger] r@[k]).source == source
                &&& is_packet_span(frames@, r@[k].start as int, r@[k].end as int)
            },
        forall|k: int, l: int| 0 <= k < l < r@.len() ==> r@[k].end < r@[l].start,
        forall|s: int, e: int|
            is_packet_span(frames@, s, e) ==> exists|k: int|
                0 <= k < r@.len() && (#[trigger] r@[k]).start == s && r@[k].end == e,
{
    let mut packets: Vec<Packet> = Vec::new();
    let mut pending: Option<usize> = None;
    let mut i: usize = 0;
    while i < frames.len()
        invariant
            0 <= i <= frames@.len(),
            forall|k: int|
                0 <= k < packets@.len() ==> {
                    &&& (#[trigger] packets@[k]).source == source
                    &&& is_packet_span(frames@, packets@[k].start as int, packets@[k].end as int)
                    &&& packets@[k].end < i
                },
            forall|k: int, l: int| 0 <= k < l < packets@.len() ==> packets@[k].end < packets@[l].start,
            forall|s: int, e: int|
                is_packet_span(frames@, s, e) && e < i ==> exists|k: int|
                    0 <= k < packets@.len() && (#[trigger] packets@[k]).start == s && packets@[k].end
                        == e,
            match pending {
                Some(p) => {
                    &&& open_start(frames@, p + 1, i as int)
                    &&& packets@.len() > 0 ==> packets@.last().end < p
                },
                None => forall|s: int| !#[trigger] open_start(frames@, s, i as int),
            },
        decreases frames@.len() - i,
    {
        let ghost old_packets = packets@;
        let is_start = match &frames[i].value {
            FrameValue::Value(b) => *b == START_BYTE,
            _ => false,
        };
        let is_end = match &frames[i].value {
            FrameValue::Value(b) => *b == END_BYTE,
            _ => false,
        };
        if is_start {
            pending = Some(i);
            proof {
                assert forall|s: int, e: int|
                    is_packet_span(frames@, s, e) && e < i + 1 implies exists|k: int|
                        0 <= k < packets@.len() && (#[trigger] packets@[k]).start == s
                            && packets@[k].end == e by {
                    assert(e != i);
                }
            }
        } else if is_end {
            match pending {
                Some(p) => {
                    packets.push(Packet { source, start: p + 1, end: i });
                    pending = None;
                    proof {
                        let n = packets@.len() - 1;
                        assert(packets@[n].start == p + 1);
                        assert forall|s: int, e: int|
                            is_packet_span(frames@, s, e) && e < i + 1 implies exists|k: int|
                                0 <= k < packets@.len() && (#[trigger] packets@[k]).start == s
                                    && packets@[k].end == e by {
                            if e == i {
                                if s - 1 < p {
                                    assert(!is_sentinel(frames@[p as int]));
                                } else if s - 1 > p {
                                    assert(!is_sentinel(frames@[s - 1]));
                                }
                                assert(packets@[n].start == s && packets@[n].end == e);
                            } else {
                                let k = choose|k: int|
                                    0 <= k < old_packets.len() && (#[trigger] old_packets[k]).start
                                        == s && old_packets[k].end == e;
                                assert(packets@[k] == old_packets[k]);
                            }
                        }
                        assert forall|s: int| !#[trigger] open_start(frames@, s, i + 1) by {
                            if open_start(frames@, s, i + 1) {
                                if s <= i {
                                    assert(!is_sentinel(frames@[i as int]));
                                }
                            }
                        }
                    }
                },
                None => {
                    proof {
                        assert forall|s: int, e: int|
                            is_packet_span(frames@, s, e) && e < i + 1 implies exists|k: int|
                                0 <= k < packets@.len() && (#[trigger] packets@[k]).start == s
                                    && packets@[k].end == e by {
                            if e == i {
                                assert(open_start(frames@, s, i as int));
                            }
                        }
                        assert forall|s: int| !#[trigger] open_start(frames@, s, i + 1) by {
                            if open_start(frames@, s, i + 1) {
                                if s <= i {
                                    assert(!is_sentinel(frames@[i as int]));
                                }
                            }
                        }
                    }
                },
            }
        } else {
            proof {
                assert forall|s: int, e: int|
                    is_packet_span(frames@, s, e) && e < i + 1 implies exists|k: int|
                        0 <= k < packets@.len() && (#[trigger] packets@[k]).start == s
                            && packets@[k].end == e by {
                    assert(e != i);
                }
                match pending {
                    Some(p) => {},
                    None => {
                        assert forall|s: int| !#[trigger] open_start(frames@, s, i + 1) by {
                            if open_start(frames@, s, i + 1) {
                                assert(open_start(frames@, s, i as int));
                            }
                        }
                    },
                }
            }
        }
        i += 1;
    }
    packets
}

/// Each packet's payload lies within the frames.
pub open spec fn packets_within(frames: Seq<Frame>, packets: Seq<Packet>) -> bool {
    forall|k: int|
        0 <= k < packets.len() ==> (#[trigger] packets[k]).start <= packets[k].end <= frames.len()
}

/// Each packet has at least one payload frame.
pub open spec fn all_non_empty(packets: Seq<Packet>) -> bool {
    forall|k: int| 0 <= k < packets.len() ==> (#[trigger] packets[k]).start < packets[k].end
}

/// The time of a packet's first payload frame.
pub open spec fn first_time(frames: Seq<Frame>, p: Packet) -> i64 {
    frames[p.start as int].time.picos
}

/// The two devices' packets in one sequence, by the time of their first
/// frame; each device's own order is kept, and on equal times the
/// controller's packet comes first.
pub open spec fn merged(
    controller_frames: Seq<Frame>,
    controller: Seq<Packet>,
    desk_frames: Seq<Frame>,
    desk: Seq<Packet>,
) -> Seq<Packet>
    decreases controller.len() + desk.len(),
{
    if controller.len() == 0 {
        desk
    } else if desk.len() == 0 {
        controller
    } else if first_time(controller_frames, controller[0]) <= first_time(desk_frames, desk[0]) {
        seq![controller[0]] + merged(controller_frames, controller.drop_first(), desk_frames, desk)
    } else {
        seq![desk[0]] + merged(controller_frames, controller, desk_frames, desk.drop_first())
    }
}

/// Whether every packet has a payload; a packet without one has no time.
fn check_non_empty(packets: &Vec<Packet>) -> (r: bool)
    ensures
        r == all_non_empty(packets@),
{
    let mut i: usize = 0;
    while i < packets.len()
        invariant
            0 <= i <= packets@.len(),
            forall|k: int| 0 <= k < i ==> (#[trigger] packets@[k]).start < packets@[k].end,
        decreases packets@.len() - i,
    {
        if packets[i].start >= packets[i].end {
            return false;
        }
        i += 1;
    }
    true
}

/// Merges the two devices' packets into one timeline ordered by the time
/// of each packet's first frame. A packet with an empty payload has no
/// time, and makes the merge fail.
pub fn merge_packets(
    controller_frames: &Vec<Frame>,
    controller_packets: &Vec<Packet>,
    desk_frames: &Vec<Frame>,
    desk_packets: &Vec<Packet>,
) -> (r: Result<Vec<Packet>, ProtocolError>)
    requires
        packets_within(controller_frames@, controller_packets@),
        packets_within(desk_frames@, desk_packets@),
    ensures
        all_non_empty(controller_packets@) && all_non_empty(desk_packets@) ==> (r matches Ok(
            all,
        ) && all@ == merged(
            controller_frames@,
            controller_packets@,
            desk_frames@,
            desk_packets@,
        )),
        !(all_non_empty(controller_packets@) && all_non_empty(desk_packets@)) ==> r matches Err(
            ProtocolError::TruncatedPacket,
        ),
{
    if !check_non_empty(controller_packets) || !check_non_empty(desk_packets) {
        return Err(ProtocolError::TruncatedPacket);
    }
    let ghost cf = controller_frames@;
    let ghost df = desk_frames@;
    let ghost cps = controller_packets@;
    let ghost dps = desk_packets@;
    let mut all: Vec<Packet> = Vec::new();
    let mut i: usize = 0;
    let mut j: usize = 0;
    assert(cps.skip(0) =~= cps);
    assert(dps.skip(0) =~= dps);
    while i < controller_packets.len() || j < desk_packets.len()
        invariant
            cf == controller_frames@,
            df == desk_frames@,
            cps == controller_packets@,
            dps == desk_packets@,
            packets_within(cf, cps),
            packets_within(df, dps),
            all_non_empty(cps),
            all_non_empty(dps),
            0 <= i <= cps.len(),
            0 <= j <= dps.len(),
            all@ + merged(cf, cps.skip(i as int), df, dps.skip(j as int)) == merged(cf, cps, df, dps),
        decreases cps.len() + dps.len() - i - j,
    {
        let ghost rest_c = cps.skip(i as int);
        let ghost rest_d = dps.skip(j as int);
        let take_controller = if i >= controller_packets.len() {
            false
        } else if j >= desk_packets.len() {
            true
        } else {
            let c = controller_packets[i];
            let d = desk_packets[j];
            controller_frames[c.start].time.picos <= desk_frames[d.start].time.picos
        };
        if take_controller {
            all.push(controller_packets[i]);
            proof {
                assert(rest_c.drop_first() =~= cps.skip(i + 1));
                if j >= dps.len() {
                    assert(rest_d =~= Seq::<Packet>::empty());
                    assert(rest_c =~= seq![rest_c[0]] + rest_c.drop_first());
                    assert(rest_c.drop_first() =~= merged(cf, cps.skip(i + 1), df, rest_d));
                }
            }
            i += 1;
        } else {
            all.push(desk_packets[j]);
            proof {
                assert(rest_d.drop_first() =~= dps.skip(j + 1));
                if i >= cps.len() {
                    assert(rest_c =~= Seq::<Packet>::empty());
                    assert(rest_d =~= seq![rest_d[0]] + rest_d.drop_first());
                }
            }
            j += 1;
        }
        proof {
            assert(all@ + merged(cf, cps.skip(i as int), df, dps.skip(j as int)) =~= merged(
                cf,
                cps,
                df,
                dps,
            ));
        }
    }
    proof {
        assert(cps.skip(i as int) =~= Seq::<Packet>::empty());
        assert(dps.skip(j as int) =~= Seq::<Packet>::empty());
        assert(all@ =~= all@ + merged(cf, cps.skip(i as int), df, dps.skip(j as int)));
    }
    Ok(all)
}

/// The byte a frame carries; zero for an error frame.
pub open spec fn byte_in(f: Frame) -> u8 {
    match f.value {
        FrameValue::Value(b) => b,
        _ => 0,
    }
}

/// A packet's bytes as they were sent, sentinels around the payload, when
/// every payload frame carries a byte rather than an error.
pub open spec fn wire_bytes_of(frames: Seq<Frame>, p: Packet) -> Option<Seq<u8>> {
    if forall|j: int| p.start <= j < p.end ==> (#[trigger] frames[j]).value is Value {
        Some(
            seq![START_BYTE] + Seq::new(
                (p.end - p.start) as nat,
                |k: int| byte_in(frames[p.start + k]),
            ) + seq![END_BYTE],
        )
    } else {
        None
    }
}

impl Packet {
    /// The packet's bytes as they were sent, ready for the codec; none if
    /// a transmission error stands in the payload.
    pub fn wire_bytes(&self, frames: &Vec<Frame>) -> (r: Option<Vec<u8>>)
        requires
            self.start <= self.end <= frames@.len(),
        ensures
            r matches Some(v) ==> wire_bytes_of(frames@, *self) == Some(v@),
            r is None ==> wire_bytes_of(frames@, *self) is None,
    {
        let mut out: Vec<u8> = Vec::new();
        out.push(START_BYTE);
        let mut i: usize = self.start;
        while i < self.end
            invariant
                self.start <= i <= self.end <= frames@.len(),
                out@.len() == i - self.start + 1,
                out@[0] == START_BYTE,
                forall|j: int| self.start <= j < i ==> (#[trigger] frames@[j]).value is Value,
                forall|k: int|
                    0 <= k < i - self.start ==> out@[k + 1] == byte_in(#[trigger] frames@[self.start + k]),
            decreases self.end - i,
        {
            match &frames[i].value {
                FrameValue::Value(b) => out.push(*b),
                _ => return None,
            }
            i += 1;
        }
        out.push(END_BYTE);
        proof {
            let expected = seq![START_BYTE] + Seq::new(
                (self.end - self.start) as nat,
                |k: int| byte_in(frames@[self.start + k]),
            ) + seq![END_BYTE];
            assert forall|k: int| 0 <= k < out@.len() implies out@[k] == expected[k] by {
                if 0 < k < out@.len() - 1 {
                    assert(out@[(k - 1) + 1] == byte_in(frames@[self.start + (k - 1)]));
                }
            }
            assert(out@ =~= expected);
        }
        Some(out)
    }
}

/// A maximal run of consecutive packets from one device in the merged
/// timeline: `packets[start..end]`.
#[derive(Debug, Clone, Copy, PartialEq, Eq, Structural)]
pub struct Segment {
    pub source: Device,
    pub start: usize,
    pub end: usize,
}

/// `segments` cut `packets` into non-empty runs that follow each other
/// without gap, each from one device, neighbours from different devices.
pub open spec fn is_segmentation(packets: Seq<Packet>, segments: Seq<Segment>) -> bool {
    &&& (segments.len() == 0 <==> packets.len() == 0)
    &&& segments.len() > 0 ==> segments[0].start == 0 && segments.last().end == packets.len()
    &&& forall|k: int|
        0 <= k < segments.len() ==> (#[trigger] segments[k]).start < segments[k].end
            <= packets.len()
    &&& forall|k: int, l: int|
        0 <= k && l == k + 1 && l < segments.len() ==> (#[trigger] segments[k]).end == (
        #[trigger] segments[l]).start
    &&& forall|k: int, j: int|
        0 <= k < segments.len() && segments[k].start <= j < segments[k].end
            ==> (#[trigger] packets[j]).source == (#[trigger] segments[k]).source
    &&& forall|k: int, l: int|
        0 <= k && l == k + 1 && l < segments.len() ==> (#[trigger] segments[k]).source != (
        #[trigger] segments[l]).source
}

/// The packets of the segments, one run after the other.
pub open spec fn concat_segments(packets: Seq<Packet>, segments: Seq<Segment>) -> Seq<Packet>
    decreases segments.len(),
{
    if segments.len() == 0 {
        Seq::empty()
    } else {
        concat_segments(packets, segments.drop_last()) + packets.subrange(
            segments.last().start as int,
            segments.last().end as int,
        )
    }
}

proof fn lemma_concat_prefix(packets: Seq<Packet>, segments: Seq<Segment>, n: int)
    requires
        is_segmentation(packets, segments),
        1 <= n <= segments.len(),
    ensures
        concat_segments(packets, segments.take(n)) =~= packets.subrange(0, segments[n - 1].end as int),
    decreases n,
{
    let t = segments.take(n);
    let last = segments[n - 1];
    assert(t.drop_last() =~= segments.take(n - 1));
    assert(t.last() == last);
    assert(concat_segments(packets, t) == concat_segments(packets, segments.take(n - 1))
        + packets.subrange(last.start as int, last.end as int));
    if n > 1 {
        lemma_concat_prefix(packets, segments, n - 1);
        let prev = segments[n - 2];
        assert(prev.end == last.start);
        assert(packets.subrange(0, prev.end as int) + packets.subrange(
            last.start as int,
            last.end as int,
        ) =~= packets.subrange(0, last.end as int));
    } else {
        assert(segments.take(0) =~= Seq::<Segment>::empty());
        assert(last.start == 0);
    }
}

/// Segmenting loses and repeats nothing: the segments' runs, in order, are
/// the packets again, and no two neighbouring segments share a device.
pub proof fn lemma_segments_rebuild(packets: Seq<Packet>, segments: Seq<Segment>)
    requires
        is_segmentation(packets, segments),
    ensures
        concat_segments(packets, segments) == packets,
        forall|k: int, l: int|
            0 <= k && l == k + 1 && l < segments.len() ==> (#[trigger] segments[k]).source != (
            #[trigger] segments[l]).source,
{
    if segments.len() == 0 {
        assert(packets =~= Seq::<Packet>::empty());
    } else {
        lemma_concat_prefix(packets, segments, segments.len() as int);
        assert(segments.take(segments.len() as int) =~= segments);
        assert(packets.subrange(0, packets.len() as int) =~= packets);
    }
}

/// Groups the merged packets into maximal runs from one device.
pub fn build_segments(all_packets: &Vec<Packet>) -> (r: Vec<Segment>)
    ensures
        is_segmentation(all_packets@, r@),
        concat_segments(all_packets@, r@) == all_packets@,
{
    let n = all_packets.len();
    let mut segments: Vec<Segment> = Vec::new();
    if n == 0 {
        proof { lemma_segments_rebuild(all_packets@, segments@); }
        return segments;
    }
    let mut start: usize = 0;
    let mut current = all_packets[0].source;
    let mut i: usize = 1;
    while i < n
        invariant
            n == all_packets@.len(),
            start < i <= n,
            segments@.len() == 0 ==> start == 0,
            segments@.len() > 0 ==> segments@[0].start == 0 && segments@.last().end == start
                && segments@.last().source != current,
            forall|k: int|
                0 <= k < segments@.len() ==> (#[trigger] segments@[k]).start < segments@[k].end
                    <= start,
            forall|k: int, l: int|
                0 <= k && l == k + 1 && l < segments@.len() ==> (#[trigger] segments@[k]).end == (
                #[trigger] segments@[l]).start,
            forall|k: int, j: int|
                0 <= k < segments@.len() && segments@[k].start <= j < segments@[k].end
                    ==> (#[trigger] all_packets@[j]).source == (#[trigger] segments@[k]).source,
            forall|k: int, l: int|
                0 <= k && l == k + 1 && l < segments@.len() ==> (#[trigger] segments@[k]).source
                    != (#[trigger] segments@[l]).source,
            forall|j: int| start <= j < i ==> (#[trigger] all_packets@[j]).source == current,
        decreases n - i,
    {
        let source = all_packets[i].source;
        if source != current {
            segments.push(Segment { source: current, start, end: i });
            start = i;
            current = source;
        }
        i += 1;
    }
    segments.push(Segment { source: current, start, end: n });
    proof { lemma_segments_rebuild(all_packets@, segments@); }
    segments
}

/// The fields of a capture row as text.
pub open spec fn row_view(row: Seq<String>) -> Seq<Seq<char>> {
    row.map_values(|f: String| f@)
}

/// The rows of a capture as text.
pub open spec fn rows_view(rows: Seq<Vec<String>>) -> Seq<Seq<Seq<char>>> {
    rows.map_values(|r: Vec<String>| row_view(r@))
}

/// Field `i` of a row, empty where the row is shorter.
pub open spec fn field(row: Seq<Seq<char>>, i: int) -> Seq<char> {
    if i < row.len() {
        row[i]
    } else {
        Seq::empty()
    }
}

/// A row whose time and byte fields both parse.
pub open spec fn row_is_valid(row: Seq<Seq<char>>) -> bool {
    &&& row.len() >= 2
    &&& time_of(row[0]) is Some
    &&& byte_of(row[1]) is Some
}

/// `f` is the frame that a valid row describes: its time, and a parity
/// error if that field has text, else a framing error if that one has,
/// else the byte.
pub open spec fn frame_of_row(f: Frame, row: Seq<Seq<char>>) -> bool {
    &&& f.time.picos == time_of(row[0])->Some_0
    &&& if field(row, 2).len() > 0 {
        match f.value {
            FrameValue::ParityError(t) => t@ == field(row, 2),
            _ => false,
        }
    } else if field(row, 3).len() > 0 {
        match f.value {
            FrameValue::FramingError(t) => t@ == field(row, 3),
            _ => false,
        }
    } else {
        match f.value {
            FrameValue::Value(b) => b == byte_of(row[1])->Some_0,
            _ => false,
        }
    }
}

/// Every row's time and byte fields parse.
pub open spec fn all_rows_valid(rows: Seq<Seq<Seq<char>>>) -> bool {
    forall|i: int| 0 <= i < rows.len() ==> row_is_valid(#[trigger] rows[i])
}

/// Every row is valid, and the frames are the rows' frames in order.
pub open spec fn frames_of_rows(frames: Seq<Frame>, rows: Seq<Seq<Seq<char>>>) -> bool {
    &&& frames.len() == rows.len()
    &&& forall|i: int| 0 <= i < rows.len() ==> frame_of_row(#[trigger] frames[i], rows[i])
}

/// Turns one capture row (time, byte, parity error, framing error) into a
/// frame.
pub fn decode_row(row: &Vec<String>) -> (r: Result<Frame, ProtocolError>)
    ensures
        row_is_valid(row_view(row@)) ==> (r matches Ok(f) && frame_of_row(f, row_view(row@))),
        !row_is_valid(row_view(row@)) ==> r matches Err(ProtocolError::MalformedRow),
{
    let ghost v = row_view(row@);
    if row.len() < 2 {
        return Err(ProtocolError::MalformedRow);
    }
    let picos = match parse_time(row[0].as_str()) {
        Some(t) => t,
        None => return Err(ProtocolError::MalformedRow),
    };
    let byte = match parse_byte(row[1].as_str()) {
        Some(b) => b,
        None => return Err(ProtocolError::MalformedRow),
    };
    let value = if row.len() > 2 && !row[2].as_str().is_empty() {
        FrameValue::ParityError(row[2].clone())
    } else if row.len() > 3 && !row[3].as_str().is_empty() {
        FrameValue::FramingError(row[3].clone())
    } else {
        FrameValue::Value(byte)
    };
    Ok(Frame { time: Timestamp { picos }, value })
}

/// Turns capture rows into frames; the first row that does not parse
/// makes the whole capture fail.
pub fn decode_rows(rows: &Vec<Vec<String>>) -> (r: Result<Vec<Frame>, ProtocolError>)
    ensures
        all_rows_valid(rows_view(rows@)) ==> (r matches Ok(frames) && frames_of_rows(
            frames@,
            rows_view(rows@),
        )),
        !all_rows_valid(rows_view(rows@)) ==> r matches Err(ProtocolError::MalformedRow),
{
    let mut frames: Vec<Frame> = Vec::new();
    let mut i: usize = 0;
    while i < rows.len()
        invariant
            0 <= i <= rows@.len(),
            frames@.len() == i,
            forall|k: int| 0 <= k < i ==> row_is_valid(#[trigger] rows_view(rows@)[k]),
            forall|k: int| 0 <= k < i ==> frame_of_row(#[trigger] frames@[k], rows_view(rows@)[k]),
        decreases rows@.len() - i,
    {
        proof {
            assert(rows_view(rows@)[i as int] == row_view(rows@[i as int]@));
        }
        match decode_row(&rows[i]) {
            Ok(f) => frames.push(f),
            Err(e) => {
                proof {
                    assert(!row_is_valid(rows_view(rows@)[i as int]));
                }
                return Err(e);
            },
        }
        i += 1;
    }
    Ok(frames)
}

/// What the CSV reader makes of a text: its records after the header
/// record, each as its fields, or nothing where the text is not CSV.
pub uninterp spec fn csv_rows_of(text: Seq<char>) -> Option<Seq<Seq<Seq<char>>>>;

/// Relies on `csv::Reader::from_reader` and `Reader::records`: the first
/// record is taken as the header, every later one is handed out as its
/// fields; a record that does not parse ends the read with an error.
#[verifier::external_body]
fn read_csv_rows(text: &str) -> (r: Option<Vec<Vec<String>>>)
    ensures
        match r {
            Some(rows) => csv_rows_of(text@) == Some(rows_view(rows@)),
            None => csv_rows_of(text@) is None,
        },
{
    let mut reader = csv::Reader::from_reader(text.as_bytes());
    let records: Result<Vec<csv::StringRecord>, csv::Error> = reader.records().collect();
    match records {
        Ok(records) => Some(
            records.iter().map(|r| r.iter().map(String::from).collect()).collect(),
        ),
        Err(_) => None,
    }
}

/// Reads one device's capture, CSV text with a header line, into frames.
pub fn parse_frames(text: &str) -> (r: Result<Vec<Frame>, ProtocolError>)
    ensures
        csv_rows_of(text@) is None ==> r matches Err(ProtocolError::MalformedRow),
        csv_rows_of(text@) matches Some(rows) ==> {
            &&& all_rows_valid(rows) ==> (r matches Ok(frames) && frames_of_rows(frames@, rows))
            &&& !all_rows_valid(rows) ==> r matches Err(ProtocolError::MalformedRow)
        },
{
    match read_csv_rows(text) {
        Some(rows) => decode_rows(&rows),
        None => Err(ProtocolError::MalformedRow),
    }
}

} // verus!
