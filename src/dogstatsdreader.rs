use vstd::prelude::*;
use vstd::slice::slice_subrange;
use vstd::utf8::{encode_utf8, valid_utf8};

use crate::pcapreader::{
    has_pcap_magic, next_udp, pcap_format, pcap_open_error, PcapFormat, PcapReader, PcapReaderError,
};
use crate::replay::{
    decode_record, has_replay_magic, header_version, replay_open_error, u32_le, ReplayReader,
    ReplayReaderError, SUPPORTED_VERSION,
};
use crate::scan::{copy_bytes, find_byte, first_index, trailing_ws_len, trim_end, trim_end_bytes};
use crate::zstd::{has_zstd_magic, is_zstd};

verus! {

pub const NEWLINE: u8 = 0x0A;

/// The DogStatsD lines of a text: split at each `\n`, trailing whitespace (a `\r` too)
/// removed, empty lines left out.
pub open spec fn text_lines(s: Seq<u8>) -> Seq<Seq<u8>>
    decreases s.len(),
{
    let i = first_index(s, NEWLINE);
    let head = if i < 0 {
        s
    } else {
        s.subrange(0, i)
    };
    let l = trim_end(head);
    let rest = if i < 0 || i >= s.len() {
        Seq::<Seq<u8>>::empty()
    } else {
        text_lines(s.subrange(i + 1, s.len() as int))
    };
    if l.len() == 0 {
        rest
    } else {
        seq![l] + rest
    }
}

pub open spec fn owned_views(v: Seq<Vec<u8>>) -> Seq<Seq<u8>> {
    Seq::new(v.len(), |i: int| v[i]@)
}

proof fn lemma_no_lines_in_empty(t: Seq<u8>)
    requires
        t.len() == 0,
    ensures
        text_lines(t) == Seq::<Seq<u8>>::empty(),
{
    assert(first_index(t, NEWLINE) == -1);
    assert(trailing_ws_len(t) == 0);
    assert(trim_end(t) == t);
}

/// Where the line that starts at `pos` ends: the next `\n`, or the end of `buf`.
fn line_end(buf: &[u8], pos: usize) -> (e: usize)
    requires
        pos <= buf.len(),
    ensures
        pos <= e <= buf.len(),
        e < buf.len() ==> first_index(buf@.subrange(pos as int, buf@.len() as int), NEWLINE) == e
            - pos,
        e == buf.len() ==> first_index(buf@.subrange(pos as int, buf@.len() as int), NEWLINE)
            == -1,
{
    match find_byte(slice_subrange(buf, pos, buf.len()), NEWLINE) {
        Some(i) => pos + i,
        None => buf.len(),
    }
}

/// Splits a datagram payload into its DogStatsD lines.
pub fn split_lines(payload: &[u8]) -> (r: Vec<Vec<u8>>)
    ensures
        owned_views(r@) == text_lines(payload@),
{
    let mut r: Vec<Vec<u8>> = Vec::new();
    let mut pos: usize = 0;
    assert(payload@.subrange(0, payload@.len() as int) =~= payload@);
    while pos < payload.len()
        invariant
            pos <= payload.len(),
            text_lines(payload@) == owned_views(r@) + text_lines(
                payload@.subrange(pos as int, payload@.len() as int),
            ),
        decreases payload.len() - pos,
    {
        let ghost rest = payload@.subrange(pos as int, payload@.len() as int);
        let e = line_end(payload, pos);
        let l = trim_end_bytes(slice_subrange(payload, pos, e));
        assert(payload@.subrange(pos as int, e as int) =~= if e < payload.len() {
            rest.subrange(0, e - pos)
        } else {
            rest
        });
        let next = if e < payload.len() {
            e + 1
        } else {
            payload.len()
        };
        let ghost after = payload@.subrange(next as int, payload@.len() as int);
        assert(e < payload.len() ==> rest.subrange(e - pos + 1, rest.len() as int) =~= after);
        assert(e == payload.len() ==> after.len() == 0);
        proof {
            if e == payload.len() {
                lemma_no_lines_in_empty(after);
            }
        }
        if l.len() > 0 {
            let ghost before = owned_views(r@);
            let line = copy_bytes(l);
            r.push(line);
            assert(owned_views(r@) =~= before.push(l@));
            assert(before.push(l@) + text_lines(after) =~= before + (seq![l@] + text_lines(after)));
        }
        pos = next;
    }
    proof {
        lemma_no_lines_in_empty(payload@.subrange(pos as int, payload@.len() as int));
    }
    assert(owned_views(r@) + Seq::<Seq<u8>>::empty() =~= owned_views(r@));
    r
}

/// Relies on `String::from_utf8`: it accepts exactly the byte strings that are valid UTF-8,
/// and the `String` it returns holds those bytes.
#[verifier::external_body]
fn utf8_string(b: Vec<u8>) -> (r: Option<String>)
    ensures
        r is Some <==> valid_utf8(b@),
        r matches Some(s) ==> encode_utf8(s@) == b@,
{
    String::from_utf8(b).ok()
}

/// What `zstd::decode_all` makes of a byte string: the decompressed bytes, or `None` where it
/// fails. The result depends on the bytes alone.
pub uninterp spec fn zstd_decoded(b: Seq<u8>) -> Option<Seq<u8>>;

/// Relies on `zstd::decode_all`: it decompresses the Zstandard frames of `b`, or fails.
#[verifier::external_body]
fn zstd_decode(b: &[u8]) -> (r: Option<Vec<u8>>)
    ensures
        match r {
            Some(d) => zstd_decoded(b@) == Some(d@),
            None => zstd_decoded(b@) is None,
        },
{
    zstd::stream::decode_all(b).ok()
}

#[derive(Debug, PartialEq, Eq, Clone, Copy, Structural)]
pub enum Transport {
    Udp,
    UnixDatagram,
}

/// Counters of a packet stream.
#[derive(Debug, PartialEq, Eq, Clone, Copy, Structural)]
pub struct Analytics {
    pub total_packets: u64,
    pub total_bytes: u64,
    pub total_messages: u64,
    /// First packet time seen, nanoseconds since the epoch.
    pub earliest_timestamp: u64,
    /// Last packet time seen, nanoseconds since the epoch.
    pub latest_timestamp: u64,
    pub transport_type: Transport,
}

/// The counters after one more packet of `len` payload bytes at time `ts`: one more packet,
/// `len` more bytes (both saturating), and the time bounds widened to take `ts` in (set to it
/// for the first packet).
pub open spec fn note(a: Analytics, len: nat, ts: u64) -> Analytics {
    Analytics {
        total_packets: a.total_packets.saturating_add(1),
        total_bytes: a.total_bytes.saturating_add(len as u64),
        earliest_timestamp: if a.total_packets == 0 || ts < a.earliest_timestamp {
            ts
        } else {
            a.earliest_timestamp
        },
        latest_timestamp: if a.total_packets == 0 || ts > a.latest_timestamp {
            ts
        } else {
            a.latest_timestamp
        },
        ..a
    }
}

/// A packet as the counters see it: payload length, time, and whether it holds a line.
pub type PacketInfo = (nat, u64, bool);

/// The counters after the packets `ps`, in order.
pub open spec fn note_all(a: Analytics, ps: Seq<PacketInfo>) -> Analytics
    decreases ps.len(),
{
    if ps.len() == 0 {
        a
    } else {
        let p = ps.last();
        note(note_all(a, ps.drop_last()), p.0, p.1)
    }
}

/// How many of the packets `ps` a read takes when no line is pending: up to and including the
/// first that holds a line, or all of them.
pub open spec fn packets_taken(ps: Seq<PacketInfo>) -> nat
    decreases ps.len(),
{
    if ps.len() == 0 {
        0
    } else if ps[0].2 {
        1
    } else {
        1 + packets_taken(ps.drop_first())
    }
}

proof fn lemma_packets_taken(ps: Seq<PacketInfo>, j: nat)
    requires
        j <= ps.len(),
        forall|i: int| 0 <= i < j - 1 ==> !(#[trigger] ps[i]).2,
        j == ps.len() && (j == 0 || !ps[j - 1].2) || j > 0 && ps[j - 1].2,
    ensures
        packets_taken(ps) == j,
    decreases j,
{
    if j > 0 {
        if j == 1 && ps[0].2 {
        } else {
            assert(!ps[0].2);
            let rest = ps.drop_first();
            assert forall|i: int| 0 <= i < j - 2 implies !(#[trigger] rest[i]).2 by {
                assert(rest[i] == ps[i + 1]);
            }
            lemma_packets_taken(rest, (j - 1) as nat);
        }
    }
}

proof fn lemma_replay_packets_step(s: Seq<u8>, p: nat, m: crate::replay::UnixMsgModel)
    requires
        p <= s.len(),
        s.len() - p >= 4,
        u32_le(s, p as int) != 0,
        s.len() - p - 4 >= u32_le(s, p as int),
        decode_record(s.subrange(p + 4 as int, (p + 4 + u32_le(s, p as int)) as int)) == Some(m),
    ensures
        replay_packets(s, p, false) == seq![
            (m.payload.len(), replay_time(m.timestamp), text_lines(m.payload).len() > 0),
        ] + replay_packets(s, p + 4 + u32_le(s, p as int), false),
{
}

proof fn lemma_pcap_packets_step(s: Seq<u8>, pos: nat, fmt: PcapFormat, pl: Seq<u8>, ts: nat, next: nat)
    requires
        next_udp(s, pos, fmt) == Ok::<Option<(Seq<u8>, nat, nat)>, PcapReaderError>(Some((pl, ts, next))),
        pos < next <= s.len(),
    ensures
        pcap_packets(s, pos, fmt) == seq![(pl.len(), ts as u64, text_lines(pl).len() > 0)]
            + pcap_packets(s, next, fmt),
{
}

proof fn lemma_all_packets_taken(ps: Seq<PacketInfo>, j: nat, rest: Seq<PacketInfo>)
    requires
        j <= ps.len(),
        rest == ps.skip(j as int),
        rest.len() == 0,
        forall|i: int| 0 <= i < j - 1 ==> !(#[trigger] ps[i]).2,
        j > 0 ==> !ps[j - 1].2,
    ensures
        packets_taken(ps) == j,
        ps.skip(j as int) == rest,
{
    lemma_packets_taken(ps, j);
}

proof fn lemma_take_one_more(ps: Seq<PacketInfo>, j: nat)
    requires
        j < ps.len(),
    ensures
        ps.take(j + 1 as int).drop_last() == ps.take(j as int),
        ps.take(j + 1 as int).last() == ps[j as int],
        ps.skip(j as int) == seq![ps[j as int]] + ps.skip(j + 1 as int),
{
    assert(ps.take(j + 1 as int).drop_last() =~= ps.take(j as int));
    assert(ps.skip(j as int) =~= seq![ps[j as int]] + ps.skip(j + 1 as int));
}

/// What `read_msg` does to the counters: the packets `taken` are noted, and one more message
/// is counted when a line is handed out.
pub open spec fn counters_after(
    a: Analytics,
    taken: Seq<PacketInfo>,
    handed_out: bool,
    a2: Analytics,
) -> bool {
    let b = note_all(a, taken);
    a2 == Analytics {
        total_messages: if handed_out {
            b.total_messages.saturating_add(1)
        } else {
            b.total_messages
        },
        ..b
    }
}

/// Counters of a stream before its first packet.
pub open spec fn fresh_analytics(transport_type: Transport) -> Analytics {
    Analytics {
        total_packets: 0,
        total_bytes: 0,
        total_messages: 0,
        earliest_timestamp: 0,
        latest_timestamp: 0,
        transport_type,
    }
}

impl Analytics {
    pub fn new(transport_type: Transport) -> (r: Self)
        ensures
            r == fresh_analytics(transport_type),
    {
        Analytics {
            total_packets: 0,
            total_bytes: 0,
            total_messages: 0,
            earliest_timestamp: 0,
            latest_timestamp: 0,
            transport_type,
        }
    }

    /// Time between the first and the last packet, in nanoseconds.
    pub fn duration(&self) -> (r: u64)
        requires
            self.earliest_timestamp <= self.latest_timestamp,
        ensures
            r == self.latest_timestamp - self.earliest_timestamp,
    {
        self.latest_timestamp - self.earliest_timestamp
    }

    /// Bytes per whole second of the stream's duration; 0 for a stream shorter than a second.
    pub fn bytes_per_second(&self) -> (r: u64)
        requires
            self.earliest_timestamp <= self.latest_timestamp,
        ensures
            ({
                let secs = ((self.latest_timestamp - self.earliest_timestamp) / 1000000000) as u64;
                r == if secs == 0 {
                    0
                } else {
                    self.total_bytes / secs
                }
            }),
    {
        let secs = self.duration() / 1000000000;
        if secs == 0 {
            0
        } else {
            self.total_bytes / secs
        }
    }

    /// Counts one more packet of `len` bytes seen at time `ts`.
    pub fn note_packet(&mut self, len: usize, ts: u64)
        requires
            old(self).total_packets > 0 ==> old(self).earliest_timestamp <= old(self).latest_timestamp,
        ensures
            *final(self) == note(*old(self), len as nat, ts),
            final(self).total_packets == old(self).total_packets.saturating_add(1),
            final(self).total_bytes == old(self).total_bytes.saturating_add(len as u64),
            final(self).total_messages == old(self).total_messages,
            final(self).transport_type == old(self).transport_type,
            final(self).earliest_timestamp <= final(self).latest_timestamp,
            old(self).total_packets == 0 ==> final(self).earliest_timestamp == ts
                && final(self).latest_timestamp == ts,
            old(self).total_packets > 0 ==> final(self).earliest_timestamp == if ts < old(self).earliest_timestamp {
                ts
            } else {
                old(self).earliest_timestamp
            } && final(self).latest_timestamp == if ts > old(self).latest_timestamp {
                ts
            } else {
                old(self).latest_timestamp
            },
    {
        if self.total_packets == 0 {
            self.earliest_timestamp = ts;
            self.latest_timestamp = ts;
        } else {
            if ts < self.earliest_timestamp {
                self.earliest_timestamp = ts;
            }
            if ts > self.latest_timestamp {
                self.latest_timestamp = ts;
            }
        }
        self.total_packets = self.total_packets.saturating_add(1);
        self.total_bytes = self.total_bytes.saturating_add(len as u64);
    }
}

#[derive(Debug, PartialEq, Eq, Clone, Copy, Structural)]
pub enum DogStatsDReaderError {
    Replay(ReplayReaderError),
    Pcap(PcapReaderError),
    /// The input, or what it decompresses to, is shorter than a container header.
    UnexpectedEof,
    /// The input opens a Zstandard frame that does not decompress.
    Decompression,
    /// A line is not valid UTF-8.
    InvalidUtf8,
    UnsupportedOperation,
}

/// Reads the lines of raw DogStatsD text.
pub struct Utf8DogStatsDReader {
    buf: Vec<u8>,
    pos: usize,
}

impl Utf8DogStatsDReader {
    /// The lines not read yet.
    pub closed spec fn remaining(&self) -> Seq<Seq<u8>> {
        text_lines(self.buf@.subrange(self.pos as int, self.buf@.len() as int))
    }

    pub closed spec fn wf(&self) -> bool {
        self.pos <= self.buf.len()
    }

    pub fn new(buf: Vec<u8>) -> (r: Self)
        ensures
            r.wf(),
            r.remaining() == text_lines(buf@),
    {
        let r = Utf8DogStatsDReader { buf, pos: 0 };
        assert(r.buf@.subrange(0, r.buf@.len() as int) =~= r.buf@);
        r
    }

    /// Puts the next line in `s` and returns 1, or returns 0 when no line is left.
    pub fn read_msg(&mut self, s: &mut String) -> (r: Result<usize, DogStatsDReaderError>)
        requires
            old(self).wf(),
        ensures
            final(self).wf(),
            read_outcome(old(self).remaining(), None, r, *final(s), final(self).remaining(), None),
    {
        loop
            invariant
                self.wf(),
                self.remaining() == old(self).remaining(),
            decreases self.buf.len() - self.pos,
        {
            let pos = self.pos;
            let ghost rest = self.buf@.subrange(pos as int, self.buf@.len() as int);
            if pos >= self.buf.len() {
                proof {
                    lemma_no_lines_in_empty(rest);
                }
                return Ok(0);
            }
            let e = line_end(self.buf.as_slice(), pos);
            let l = trim_end_bytes(slice_subrange(self.buf.as_slice(), pos, e));
            assert(self.buf@.subrange(pos as int, e as int) =~= if e < self.buf.len() {
                rest.subrange(0, e - pos)
            } else {
                rest
            });
            let next = if e < self.buf.len() {
                e + 1
            } else {
                self.buf.len()
            };
            let ghost after = self.buf@.subrange(next as int, self.buf@.len() as int);
            assert(e < self.buf.len() ==> rest.subrange(e - pos + 1, rest.len() as int) =~= after);
            proof {
                if e == self.buf.len() {
                    lemma_no_lines_in_empty(after);
                }
            }
            if l.len() > 0 {
                let line = copy_bytes(l);
                assert((seq![l@] + text_lines(after))[0] == l@);
                assert((seq![l@] + text_lines(after)).drop_first() =~= text_lines(after));
                match utf8_string(line) {
                    Some(text) => {
                        self.pos = next;
                        *s = text;
                        return Ok(1);
                    },
                    None => {
                        return Err(DogStatsDReaderError::InvalidUtf8);
                    },
                }
            }
            self.pos = next;
        }
    }
}

/// The lines of the current packet that are still to be handed out.
pub struct LineQueue {
    lines: Vec<Vec<u8>>,
    next: usize,
}

impl LineQueue {
    pub closed spec fn pending(&self) -> Seq<Seq<u8>> {
        owned_views(self.lines@).subrange(self.next as int, self.lines@.len() as int)
    }

    pub closed spec fn wf(&self) -> bool {
        self.next <= self.lines.len()
    }

    pub fn new() -> (r: Self)
        ensures
            r.wf(),
            r.pending() == Seq::<Seq<u8>>::empty(),
    {
        let r = LineQueue { lines: Vec::new(), next: 0 };
        assert(r.pending() =~= Seq::<Seq<u8>>::empty());
        r
    }

    fn is_empty(&self) -> (r: bool)
        requires
            self.wf(),
        ensures
            r == (self.pending().len() == 0),
    {
        self.next >= self.lines.len()
    }

    fn refill(&mut self, payload: &[u8])
        ensures
            final(self).wf(),
            final(self).pending() == text_lines(payload@),
    {
        self.lines = split_lines(payload);
        self.next = 0;
        assert(owned_views(self.lines@).subrange(0, self.lines@.len() as int) =~= owned_views(
            self.lines@,
        ));
    }

    /// Hands out the first pending line as text.
    fn pop_into(&mut self, s: &mut String) -> (r: Result<usize, DogStatsDReaderError>)
        requires
            old(self).wf(),
            old(self).pending().len() > 0,
        ensures
            final(self).wf(),
            match r {
                Ok(n) => n == 1 && encode_utf8(final(s)@) == old(self).pending()[0] && final(self).pending() == old(self).pending().drop_first(),
                Err(e) => e == DogStatsDReaderError::InvalidUtf8 && !valid_utf8(
                    old(self).pending()[0],
                ) && final(self).pending() == old(self).pending(),
            },
    {
        let line = copy_bytes(self.lines[self.next].as_slice());
        assert(old(self).pending()[0] == self.lines@[self.next as int]@);
        match utf8_string(line) {
            Some(text) => {
                self.next = self.next + 1;
                assert(self.pending() =~= old(self).pending().drop_first());
                *s = text;
                Ok(1)
            },
            None => Err(DogStatsDReaderError::InvalidUtf8),
        }
    }
}

/// The lines of the records of a replay capture from record `pos` on, and the error that
/// ends them early, if one does.
pub open spec fn replay_stream(s: Seq<u8>, pos: nat, drained: bool) -> (
    Seq<Seq<u8>>,
    Option<ReplayReaderError>,
)
    decreases s.len() - pos,
{
    if drained || pos > s.len() {
        (Seq::empty(), None)
    } else if s.len() - pos < 4 {
        (Seq::empty(), Some(ReplayReaderError::ShortRead))
    } else {
        let len = u32_le(s, pos as int);
        if len == 0 {
            (Seq::empty(), None)
        } else if s.len() - pos - 4 < len {
            (Seq::empty(), Some(ReplayReaderError::ShortRead))
        } else {
            match decode_record(s.subrange(pos + 4 as int, (pos + 4 + len) as int)) {
                None => (Seq::empty(), Some(ReplayReaderError::ProtoDecode)),
                Some(m) => {
                    let rest = replay_stream(s, pos + 4 + len, false);
                    (text_lines(m.payload) + rest.0, rest.1)
                },
            }
        }
    }
}

/// The lines of the UDP datagrams of a capture from record `pos` on, and the error that ends
/// them early, if one does.
pub open spec fn pcap_stream(s: Seq<u8>, pos: nat, fmt: PcapFormat) -> (
    Seq<Seq<u8>>,
    Option<PcapReaderError>,
)
    decreases s.len() - pos,
{
    match next_udp(s, pos, fmt) {
        Err(e) => (Seq::empty(), Some(e)),
        Ok(None) => (Seq::empty(), None),
        Ok(Some((p, ts, next))) => if next <= pos || next > s.len() {
            (Seq::empty(), None)
        } else {
            let rest = pcap_stream(s, next, fmt);
            (text_lines(p) + rest.0, rest.1)
        },
    }
}

/// Packet time of a replay record: its timestamp in nanoseconds since the epoch. The counters
/// hold times as unsigned nanoseconds, so a timestamp before the epoch counts as 0.
pub open spec fn replay_time(ts: i64) -> u64 {
    if ts < 0 {
        0
    } else {
        ts as u64
    }
}

/// The packets still to come in a replay capture from record `pos` on: payload length, time
/// (a timestamp before the epoch counts as 0) and whether the payload holds a line. The list
/// ends where the lines end.
pub open spec fn replay_packets(s: Seq<u8>, pos: nat, drained: bool) -> Seq<PacketInfo>
    decreases s.len() - pos,
{
    if drained || pos > s.len() || s.len() - pos < 4 {
        Seq::empty()
    } else {
        let len = u32_le(s, pos as int);
        if len == 0 || s.len() - pos - 4 < len {
            Seq::empty()
        } else {
            match decode_record(s.subrange(pos + 4 as int, (pos + 4 + len) as int)) {
                None => Seq::empty(),
                Some(m) => seq![
                    (m.payload.len(), replay_time(m.timestamp), text_lines(m.payload).len() > 0),
                ] + replay_packets(s, pos + 4 + len, false),
            }
        }
    }
}

/// The UDP datagrams still to come in a capture from record `pos` on, as the counters see
/// them. The list ends where the lines end.
pub open spec fn pcap_packets(s: Seq<u8>, pos: nat, fmt: PcapFormat) -> Seq<PacketInfo>
    decreases s.len() - pos,
{
    match next_udp(s, pos, fmt) {
        Ok(Some((p, ts, next))) => if next <= pos || next > s.len() {
            Seq::empty()
        } else {
            seq![(p.len(), ts as u64, text_lines(p).len() > 0)] + pcap_packets(s, next, fmt)
        },
        _ => Seq::empty(),
    }
}

/// What `read_msg` does to a reader whose lines still to come are `rem`, ended by `end`:
/// hands out the first line, or reports that it is not UTF-8; with no line left, reports the
/// end (`Ok(0)`) or the error that ended the lines.
pub open spec fn read_outcome(
    rem: Seq<Seq<u8>>,
    end: Option<DogStatsDReaderError>,
    r: Result<usize, DogStatsDReaderError>,
    s: String,
    rem2: Seq<Seq<u8>>,
    end2: Option<DogStatsDReaderError>,
) -> bool {
    &&& end2 == end
    &&& if rem.len() > 0 {
        match r {
            Ok(n) => n == 1 && encode_utf8(s@) == rem[0] && rem2 == rem.drop_first(),
            Err(e) => e == DogStatsDReaderError::InvalidUtf8 && !valid_utf8(rem[0]) && rem2 == rem,
        }
    } else {
        rem2.len() == 0 && match end {
            None => r == Ok::<usize, DogStatsDReaderError>(0),
            Some(e) => r == Err::<usize, DogStatsDReaderError>(e),
        }
    }
}

pub open spec fn replay_error(e: Option<ReplayReaderError>) -> Option<DogStatsDReaderError> {
    match e {
        Some(x) => Some(DogStatsDReaderError::Replay(x)),
        None => None,
    }
}

pub open spec fn pcap_error(e: Option<PcapReaderError>) -> Option<DogStatsDReaderError> {
    match e {
        Some(x) => Some(DogStatsDReaderError::Pcap(x)),
        None => None,
    }
}

/// Reads the lines of the datagrams of a replay capture.
pub struct DogStatsDReplayReader {
    reader: ReplayReader,
    queue: LineQueue,
    analytics: Analytics,
}

impl DogStatsDReplayReader {
    pub closed spec fn wf(&self) -> bool {
        &&& self.reader.wf()
        &&& self.queue.wf()
        &&& self.analytics.total_packets > 0 ==> self.analytics.earliest_timestamp
            <= self.analytics.latest_timestamp
        &&& self.analytics.transport_type == Transport::UnixDatagram
    }

    /// The lines still to come.
    pub closed spec fn remaining(&self) -> Seq<Seq<u8>> {
        self.queue.pending() + replay_stream(
            self.reader.bytes(),
            self.reader.position(),
            self.reader.drained(),
        ).0
    }

    /// The error that ends the lines, if one does.
    pub closed spec fn end_error(&self) -> Option<DogStatsDReaderError> {
        replay_error(
            replay_stream(self.reader.bytes(), self.reader.position(), self.reader.drained()).1,
        )
    }

    pub closed spec fn analytics_view(&self) -> Analytics {
        self.analytics
    }

    /// The lines of the current packet still to be handed out.
    pub closed spec fn pending(&self) -> Seq<Seq<u8>> {
        self.queue.pending()
    }

    /// The packets still to come.
    pub closed spec fn packets(&self) -> Seq<PacketInfo> {
        replay_packets(self.reader.bytes(), self.reader.position(), self.reader.drained())
    }

    pub fn new(buf: Vec<u8>) -> (r: Result<Self, ReplayReaderError>)
        ensures
            match r {
                Ok(rd) => rd.wf() && rd.analytics_view() == fresh_analytics(Transport::UnixDatagram)
                    && rd.pending().len() == 0 && rd.packets() == replay_packets(buf@, 8, false)
                    && replay_open_error(buf@) is None && rd.remaining() == replay_stream(buf@, 8, false).0
                    && rd.end_error() == replay_error(replay_stream(buf@, 8, false).1),
                Err(e) => replay_open_error(buf@) == Some(e),
            },
    {
        match ReplayReader::new(buf) {
            Ok(reader) => {
                let rd = DogStatsDReplayReader {
                    reader,
                    queue: LineQueue::new(),
                    analytics: Analytics::new(Transport::UnixDatagram),
                };
                assert(rd.remaining() =~= replay_stream(buf@, 8, false).0);
                Ok(rd)
            },
            Err(e) => Err(e),
        }
    }

    /// Takes the next record: counts it and queues its lines. `Ok(false)` at the end of the
    /// records.
    fn take_packet(&mut self) -> (r: Result<bool, DogStatsDReaderError>)
        requires
            old(self).wf(),
            old(self).pending().len() == 0,
        ensures
            final(self).wf(),
            final(self).remaining() == old(self).remaining(),
            final(self).end_error() == old(self).end_error(),
            match r {
                Ok(true) => old(self).packets().len() > 0 && final(self).packets() == old(self).packets().drop_first()
                    && final(self).analytics == note(old(self).analytics, old(self).packets()[0].0, old(self).packets()[0].1)
                    && (final(self).pending().len() > 0 <==> old(self).packets()[0].2)
                    && final(self).reader.remaining_len() < old(self).reader.remaining_len(),
                Ok(false) => old(self).packets().len() == 0 && old(self).remaining().len() == 0
                    && old(self).end_error() is None && final(self).packets().len() == 0
                    && final(self).analytics == old(self).analytics && final(self).pending().len() == 0,
                Err(e) => old(self).packets().len() == 0 && old(self).remaining().len() == 0
                    && old(self).end_error() == Some(e) && final(self).packets().len() == 0
                    && final(self).analytics == old(self).analytics && final(self).pending().len() == 0,
            },
    {
        assert(self.remaining() =~= replay_stream(self.reader.bytes(), self.reader.position(), self.reader.drained()).0);
        let ghost old_pos = self.reader.position();
        match self.reader.read_msg() {
            Err(e) => Err(DogStatsDReaderError::Replay(e)),
            Ok(None) => Ok(false),
            Ok(Some(m)) => {
                // A timestamp before the epoch counts as 0 (see `replay_time`).
                let ts = if m.timestamp < 0 {
                    0
                } else {
                    m.timestamp as u64
                };
                proof {
                    lemma_replay_packets_step(self.reader.bytes(), old_pos as nat, m@);
                }
                self.analytics.note_packet(m.payload.len(), ts);
                self.queue.refill(m.payload.as_slice());
                Ok(true)
            },
        }
    }

    /// Puts the next line in `s` and returns 1, or returns 0 at the end of the records.
    #[verifier::rlimit(80)]
    pub fn read_msg(&mut self, s: &mut String) -> (r: Result<usize, DogStatsDReaderError>)
        requires
            old(self).wf(),
        ensures
            final(self).wf(),
            read_outcome(old(self).remaining(), old(self).end_error(), r, *final(s), final(self).remaining(), final(self).end_error()),
            ({
                let k = if old(self).pending().len() > 0 { 0 } else { packets_taken(old(self).packets()) };
                &&& final(self).packets() == old(self).packets().skip(k as int)
                &&& counters_after(old(self).analytics_view(), old(self).packets().take(k as int), r matches Ok(1), final(self).analytics_view())
            }),
    {
        let ghost mut j: nat = 0;
        assert(old(self).packets().skip(0) =~= old(self).packets());
        assert(old(self).packets().take(0) =~= Seq::<PacketInfo>::empty());
        loop
            invariant
                self.wf(),
                self.remaining() == old(self).remaining(),
                self.end_error() == old(self).end_error(),
                j <= old(self).packets().len(),
                self.packets() == old(self).packets().skip(j as int),
                self.analytics == note_all(old(self).analytics, old(self).packets().take(j as int)),
                j > 0 ==> old(self).pending().len() == 0,
                forall|i: int| 0 <= i < j - 1 ==> !(#[trigger] old(self).packets()[i]).2,
                j > 0 ==> (self.pending().len() > 0 <==> old(self).packets()[j - 1].2),
                j == 0 ==> self.pending() == old(self).pending(),
            decreases self.reader.remaining_len(),
        {
            if !self.queue.is_empty() {
                let r = self.queue.pop_into(s);
                proof {
                    if r.is_ok() {
                        assert(self.remaining() =~= old(self).remaining().drop_first());
                    }
                    if j > 0 {
                        lemma_packets_taken(old(self).packets(), j);
                    }
                }
                if r.is_ok() {
                    self.analytics.total_messages = self.analytics.total_messages.saturating_add(1);
                }
                return r;
            }
            let ghost before_pk = self.packets();
            match self.take_packet() {
                Err(e) => {
                    proof {
                        lemma_all_packets_taken(old(self).packets(), j, before_pk);
                    }
                    return Err(e);
                },
                Ok(false) => {
                    proof {
                        lemma_all_packets_taken(old(self).packets(), j, before_pk);
                    }
                    return Ok(0);
                },
                Ok(true) => {
                    proof {
                        lemma_take_one_more(old(self).packets(), j);
                        assert(before_pk[0] == old(self).packets()[j as int]);
                        assert(self.packets() =~= old(self).packets().skip(j + 1 as int));
                        j = j + 1;
                    }
                },
            }
        }
    }

    pub fn get_analytics(&self) -> (r: Analytics)
        ensures
            r == self.analytics_view(),
    {
        self.analytics
    }
}

/// Reads the lines of the UDP datagrams of a pcap capture.
pub struct PcapDogStatsDReader {
    reader: PcapReader,
    queue: LineQueue,
    analytics: Analytics,
}

impl PcapDogStatsDReader {
    pub closed spec fn wf(&self) -> bool {
        &&& self.reader.wf()
        &&& self.queue.wf()
        &&& self.analytics.total_packets > 0 ==> self.analytics.earliest_timestamp
            <= self.analytics.latest_timestamp
        &&& self.analytics.transport_type == Transport::Udp
    }

    /// The lines still to come.
    pub closed spec fn remaining(&self) -> Seq<Seq<u8>> {
        self.queue.pending() + pcap_stream(
            self.reader.bytes(),
            self.reader.position(),
            self.reader.format(),
        ).0
    }

    /// The error that ends the lines, if one does.
    pub closed spec fn end_error(&self) -> Option<DogStatsDReaderError> {
        pcap_error(pcap_stream(self.reader.bytes(), self.reader.position(), self.reader.format()).1)
    }

    pub closed spec fn analytics_view(&self) -> Analytics {
        self.analytics
    }

    /// The lines of the current datagram still to be handed out.
    pub closed spec fn pending(&self) -> Seq<Seq<u8>> {
        self.queue.pending()
    }

    /// The datagrams still to come.
    pub closed spec fn packets(&self) -> Seq<PacketInfo> {
        pcap_packets(self.reader.bytes(), self.reader.position(), self.reader.format())
    }

    pub fn new(buf: Vec<u8>) -> (r: Result<Self, PcapReaderError>)
        ensures
            match r {
                Ok(rd) => rd.wf() && rd.analytics_view() == fresh_analytics(Transport::Udp)
                    && rd.pending().len() == 0 && pcap_open_error(buf@) is None && (pcap_format(buf@) matches Some(f)
                    && rd.packets() == pcap_packets(buf@, 24, f) && rd.remaining() == pcap_stream(buf@, 24, f).0 && rd.end_error()
                    == pcap_error(pcap_stream(buf@, 24, f).1)),
                Err(e) => pcap_open_error(buf@) == Some(e),
            },
    {
        match PcapReader::new(buf) {
            Ok(reader) => {
                let rd = PcapDogStatsDReader {
                    reader,
                    queue: LineQueue::new(),
                    analytics: Analytics::new(Transport::Udp),
                };
                assert(rd.remaining() =~= pcap_stream(buf@, 24, rd.reader.format()).0);
                Ok(rd)
            },
            Err(e) => Err(e),
        }
    }

    /// Takes the next UDP datagram: counts it and queues its lines. `Ok(false)` after the last
    /// record.
    fn take_packet(&mut self) -> (r: Result<bool, DogStatsDReaderError>)
        requires
            old(self).wf(),
            old(self).pending().len() == 0,
        ensures
            final(self).wf(),
            final(self).remaining() == old(self).remaining(),
            final(self).end_error() == old(self).end_error(),
            match r {
                Ok(true) => old(self).packets().len() > 0 && final(self).packets() == old(self).packets().drop_first()
                    && final(self).analytics == note(old(self).analytics, old(self).packets()[0].0, old(self).packets()[0].1)
                    && (final(self).pending().len() > 0 <==> old(self).packets()[0].2)
                    && final(self).reader.remaining_len() < old(self).reader.remaining_len(),
                Ok(false) => old(self).packets().len() == 0 && old(self).remaining().len() == 0
                    && old(self).end_error() is None && final(self).packets().len() == 0
                    && final(self).analytics == old(self).analytics && final(self).pending().len() == 0,
                Err(e) => old(self).packets().len() == 0 && old(self).remaining().len() == 0
                    && old(self).end_error() == Some(e) && final(self).packets().len() == 0
                    && final(self).analytics == old(self).analytics && final(self).pending().len() == 0,
            },
    {
        assert(self.remaining() =~= pcap_stream(self.reader.bytes(), self.reader.position(), self.reader.format()).0);
        let ghost old_pos = self.reader.position();
        match self.reader.read_packet() {
            Err(e) => Err(DogStatsDReaderError::Pcap(e)),
            Ok(None) => Ok(false),
            Ok(Some(p)) => {
                proof {
                    lemma_pcap_packets_step(self.reader.bytes(), old_pos as nat, self.reader.format(), p.payload@, p.timestamp as nat, self.reader.position());
                }
                self.analytics.note_packet(p.payload.len(), p.timestamp);
                self.queue.refill(p.payload.as_slice());
                Ok(true)
            },
        }
    }

    /// Puts the next line in `s` and returns 1, or returns 0 after the last record.
    #[verifier::rlimit(80)]
    pub fn read_msg(&mut self, s: &mut String) -> (r: Result<usize, DogStatsDReaderError>)
        requires
            old(self).wf(),
        ensures
            final(self).wf(),
            read_outcome(old(self).remaining(), old(self).end_error(), r, *final(s), final(self).remaining(), final(self).end_error()),
            ({
                let k = if old(self).pending().len() > 0 { 0 } else { packets_taken(old(self).packets()) };
                &&& final(self).packets() == old(self).packets().skip(k as int)
                &&& counters_after(old(self).analytics_view(), old(self).packets().take(k as int), r matches Ok(1), final(self).analytics_view())
            }),
    {
        let ghost mut j: nat = 0;
        assert(old(self).packets().skip(0) =~= old(self).packets());
        assert(old(self).packets().take(0) =~= Seq::<PacketInfo>::empty());
        loop
            invariant
                self.wf(),
                self.remaining() == old(self).remaining(),
                self.end_error() == old(self).end_error(),
                j <= old(self).packets().len(),
                self.packets() == old(self).packets().skip(j as int),
                self.analytics == note_all(old(self).analytics, old(self).packets().take(j as int)),
                j > 0 ==> old(self).pending().len() == 0,
                forall|i: int| 0 <= i < j - 1 ==> !(#[trigger] old(self).packets()[i]).2,
                j > 0 ==> (self.pending().len() > 0 <==> old(self).packets()[j - 1].2),
                j == 0 ==> self.pending() == old(self).pending(),
            decreases self.reader.remaining_len(),
        {
            if !self.queue.is_empty() {
                let r = self.queue.pop_into(s);
                proof {
                    if r.is_ok() {
                        assert(self.remaining() =~= old(self).remaining().drop_first());
                    }
                    if j > 0 {
                        lemma_packets_taken(old(self).packets(), j);
                    }
                }
                if r.is_ok() {
                    self.analytics.total_messages = self.analytics.total_messages.saturating_add(1);
                }
                return r;
            }
            let ghost before_pk = self.packets();
            match self.take_packet() {
                Err(e) => {
                    proof {
                        lemma_all_packets_taken(old(self).packets(), j, before_pk);
                    }
                    return Err(e);
                },
                Ok(false) => {
                    proof {
                        lemma_all_packets_taken(old(self).packets(), j, before_pk);
                    }
                    return Ok(0);
                },
                Ok(true) => {
                    proof {
                        lemma_take_one_more(old(self).packets(), j);
                        assert(before_pk[0] == old(self).packets()[j as int]);
                        assert(self.packets() =~= old(self).packets().skip(j + 1 as int));
                        j = j + 1;
                    }
                },
            }
        }
    }

    pub fn get_analytics(&self) -> (r: Analytics)
        ensures
            r == self.analytics_view(),
    {
        self.analytics
    }
}

/// The three containers a stream can hold.
#[derive(Debug, PartialEq, Eq, Clone, Copy, Structural)]
pub enum InputType {
    Replay,
    Pcap,
    Utf8,
}

/// The container that an 8-byte header announces: a replay file of the supported version,
/// else a pcap file, else raw text. A replay header of another version falls through.
pub open spec fn classify(h: Seq<u8>) -> InputType {
    if has_replay_magic(h) && h.len() >= 5 && header_version(h) == SUPPORTED_VERSION {
        InputType::Replay
    } else if has_pcap_magic(h) {
        InputType::Pcap
    } else {
        InputType::Utf8
    }
}

/// Decides the container from the first bytes of a stream, without consuming them.
pub fn input_type_of(header: &[u8]) -> (r: InputType)
    ensures
        r == classify(header@),
{
    match crate::replay::is_replay(header) {
        Ok(()) => InputType::Replay,
        Err(_) => match crate::pcapreader::is_pcap(header) {
            Ok(()) => InputType::Pcap,
            Err(_) => InputType::Utf8,
        },
    }
}

/// What opening uncompressed bytes gives: the container, or why it cannot be read.
pub open spec fn open_outcome(data: Seq<u8>) -> Result<InputType, DogStatsDReaderError> {
    if data.len() < 8 {
        Err(DogStatsDReaderError::UnexpectedEof)
    } else {
        match classify(data.subrange(0, 8)) {
            InputType::Replay => Ok(InputType::Replay),
            InputType::Pcap => match pcap_open_error(data) {
                Some(e) => Err(DogStatsDReaderError::Pcap(e)),
                None => Ok(InputType::Pcap),
            },
            InputType::Utf8 => Ok(InputType::Utf8),
        }
    }
}

/// The bytes that a reader opened on `input` reads: `input` itself, or what it decompresses
/// to when it opens with a Zstandard frame. `None` when that frame does not decompress.
pub open spec fn stream_bytes(input: Seq<u8>) -> Option<Seq<u8>> {
    if has_zstd_magic(input) {
        zstd_decoded(input)
    } else {
        Some(input)
    }
}

/// What opening `input` gives.
pub open spec fn input_outcome(input: Seq<u8>) -> Result<InputType, DogStatsDReaderError> {
    if input.len() < 8 {
        Err(DogStatsDReaderError::UnexpectedEof)
    } else {
        match stream_bytes(input) {
            None => Err(DogStatsDReaderError::Decompression),
            Some(d) => open_outcome(d),
        }
    }
}

/// The lines that a reader of the given container reads from uncompressed bytes, and the
/// error that ends them, if one does.
pub open spec fn lines_of(data: Seq<u8>, t: InputType) -> (Seq<Seq<u8>>, Option<DogStatsDReaderError>) {
    match t {
        InputType::Utf8 => (text_lines(data), None),
        InputType::Replay => (replay_stream(data, 8, false).0, replay_error(replay_stream(data, 8, false).1)),
        InputType::Pcap => match pcap_format(data) {
            Some(f) => (pcap_stream(data, 24, f).0, pcap_error(pcap_stream(data, 24, f).1)),
            None => (Seq::empty(), None),
        },
    }
}

/// The packets that a reader of the given container counts from uncompressed bytes.
pub open spec fn packets_of(data: Seq<u8>, t: InputType) -> Seq<PacketInfo> {
    match t {
        InputType::Utf8 => Seq::empty(),
        InputType::Replay => replay_packets(data, 8, false),
        InputType::Pcap => match pcap_format(data) {
            Some(f) => pcap_packets(data, 24, f),
            None => Seq::empty(),
        },
    }
}

/// The counters of a freshly opened reader: none for raw text, zero for a capture, with the
/// transport of the container.
pub open spec fn analytics_at_open(t: InputType) -> Option<Analytics> {
    match t {
        InputType::Utf8 => None,
        InputType::Replay => Some(fresh_analytics(Transport::UnixDatagram)),
        InputType::Pcap => Some(fresh_analytics(Transport::Udp)),
    }
}

/// A reader of DogStatsD lines over any of the three containers.
pub enum DogStatsDReader {
    Replay(DogStatsDReplayReader),
    Utf8(Utf8DogStatsDReader),
    Pcap(PcapDogStatsDReader),
}

impl DogStatsDReader {
    pub closed spec fn wf(&self) -> bool {
        match self {
            DogStatsDReader::Replay(r) => r.wf(),
            DogStatsDReader::Utf8(r) => r.wf(),
            DogStatsDReader::Pcap(r) => r.wf(),
        }
    }

    pub open spec fn input_type(&self) -> InputType {
        match self {
            DogStatsDReader::Replay(_) => InputType::Replay,
            DogStatsDReader::Utf8(_) => InputType::Utf8,
            DogStatsDReader::Pcap(_) => InputType::Pcap,
        }
    }

    /// The lines still to come.
    pub closed spec fn remaining(&self) -> Seq<Seq<u8>> {
        match self {
            DogStatsDReader::Replay(r) => r.remaining(),
            DogStatsDReader::Utf8(r) => r.remaining(),
            DogStatsDReader::Pcap(r) => r.remaining(),
        }
    }

    /// The error that ends the lines, if one does.
    pub closed spec fn end_error(&self) -> Option<DogStatsDReaderError> {
        match self {
            DogStatsDReader::Replay(r) => r.end_error(),
            DogStatsDReader::Utf8(_) => None,
            DogStatsDReader::Pcap(r) => r.end_error(),
        }
    }

    /// The lines of the current packet still to be handed out.
    pub closed spec fn pending(&self) -> Seq<Seq<u8>> {
        match self {
            DogStatsDReader::Replay(r) => r.pending(),
            DogStatsDReader::Utf8(_) => Seq::empty(),
            DogStatsDReader::Pcap(r) => r.pending(),
        }
    }

    /// The packets still to come.
    pub closed spec fn packets(&self) -> Seq<PacketInfo> {
        match self {
            DogStatsDReader::Replay(r) => r.packets(),
            DogStatsDReader::Utf8(_) => Seq::empty(),
            DogStatsDReader::Pcap(r) => r.packets(),
        }
    }

    /// The packet counters so far; none for raw text.
    pub closed spec fn analytics(&self) -> Option<Analytics> {
        match self {
            DogStatsDReader::Replay(r) => Some(r.analytics_view()),
            DogStatsDReader::Utf8(_) => None,
            DogStatsDReader::Pcap(r) => Some(r.analytics_view()),
        }
    }

    /// Opens uncompressed bytes: classifies them by their first 8 bytes and opens that
    /// container.
    pub fn from_decoded(data: Vec<u8>) -> (r: Result<Self, DogStatsDReaderError>)
        ensures
            match r {
                Ok(rd) => open_outcome(data@) == Ok::<InputType, DogStatsDReaderError>(
                    rd.input_type(),
                ) && rd.wf() && lines_of(data@, rd.input_type()) == (rd.remaining(), rd.end_error())
                    && rd.pending().len() == 0 && rd.packets() == packets_of(data@, rd.input_type())
                    && rd.analytics() == analytics_at_open(rd.input_type()),
                Err(e) => open_outcome(data@) == Err::<InputType, DogStatsDReaderError>(e),
            },
    {
        if data.len() < 8 {
            return Err(DogStatsDReaderError::UnexpectedEof);
        }
        match input_type_of(slice_subrange(data.as_slice(), 0, 8)) {
            InputType::Replay => match DogStatsDReplayReader::new(data) {
                Ok(r) => Ok(DogStatsDReader::Replay(r)),
                Err(e) => Err(DogStatsDReaderError::Replay(e)),
            },
            InputType::Pcap => match PcapDogStatsDReader::new(data) {
                Ok(r) => Ok(DogStatsDReader::Pcap(r)),
                Err(e) => Err(DogStatsDReaderError::Pcap(e)),
            },
            InputType::Utf8 => Ok(DogStatsDReader::Utf8(Utf8DogStatsDReader::new(data))),
        }
    }

    /// Opens a stream of DogStatsD data: raw text, a replay capture or a pcap capture, each
    /// possibly compressed with Zstandard.
    pub fn new(input: Vec<u8>) -> (r: Result<Self, DogStatsDReaderError>)
        ensures
            match r {
                Ok(rd) => input_outcome(input@) == Ok::<InputType, DogStatsDReaderError>(
                    rd.input_type(),
                ) && rd.wf() && (stream_bytes(input@) matches Some(d) && lines_of(
                    d,
                    rd.input_type(),
                ) == (rd.remaining(), rd.end_error()) && rd.packets() == packets_of(d, rd.input_type()))
                    && rd.pending().len() == 0 && rd.analytics() == analytics_at_open(rd.input_type()),
                Err(e) => input_outcome(input@) == Err::<InputType, DogStatsDReaderError>(e),
            },
    {
        if input.len() < 8 {
            return Err(DogStatsDReaderError::UnexpectedEof);
        }
        if is_zstd(input.as_slice()) {
            match zstd_decode(input.as_slice()) {
                None => Err(DogStatsDReaderError::Decompression),
                Some(d) => Self::from_decoded(d),
            }
        } else {
            Self::from_decoded(input)
        }
    }

    /// Puts the next DogStatsD line in `s` and returns 1, or returns 0 at the end.
    pub fn read_msg(&mut self, s: &mut String) -> (r: Result<usize, DogStatsDReaderError>)
        requires
            old(self).wf(),
        ensures
            final(self).wf(),
            final(self).input_type() == old(self).input_type(),
            read_outcome(
                old(self).remaining(),
                old(self).end_error(),
                r,
                *final(s),
                final(self).remaining(),
                final(self).end_error(),
            ),
            ({
                let k = if old(self).pending().len() > 0 {
                    0
                } else {
                    packets_taken(old(self).packets())
                };
                &&& final(self).packets() == old(self).packets().skip(k as int)
                &&& match (old(self).analytics(), final(self).analytics()) {
                    (Some(a), Some(b)) => counters_after(a, old(self).packets().take(k as int), r matches Ok(1), b),
                    (None, None) => true,
                    _ => false,
                }
            }),
    {
        match self {
            DogStatsDReader::Utf8(r) => r.read_msg(s),
            DogStatsDReader::Replay(r) => r.read_msg(s),
            DogStatsDReader::Pcap(r) => r.read_msg(s),
        }
    }

    /// Counters of the packets read so far; `None` for raw text, which has no packets.
    pub fn get_analytics(&self) -> (r: Option<Analytics>)
        ensures
            r is None <==> self.input_type() == InputType::Utf8,
            r == self.analytics(),
    {
        match self {
            DogStatsDReader::Utf8(_) => None,
            DogStatsDReader::Replay(r) => Some(r.get_analytics()),
            DogStatsDReader::Pcap(r) => Some(r.get_analytics()),
        }
    }
}

} // verus!
