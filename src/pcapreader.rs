use vstd::prelude::*;
use vstd::slice::slice_subrange;

use crate::scan::copy_bytes;

verus! {

/// Link type of Ethernet frames.
pub const LINKTYPE_ETHERNET: u32 = 1;

/// Link type of Linux cooked-mode v2 frames.
pub const LINKTYPE_LINUX_SLL2: u32 = 276;

/// EtherType of IPv4.
pub const ETHERTYPE_IPV4: u16 = 0x0800;

/// IP protocol number of UDP.
pub const IP_PROTO_UDP: u8 = 17;

#[derive(Debug, PartialEq, Eq, Clone, Copy, Structural)]
pub enum PcapReaderError {
    BadHeader,
    UnsupportedDatalinkType(u32),
    ShortRead,
    MalformedRecord,
}

/// True when `h` opens with the pcap magic in either byte order.
pub open spec fn has_pcap_magic(h: Seq<u8>) -> bool {
    h.len() >= 4 && ((h[0] == 0xA1u8 && h[1] == 0xB2u8 && h[2] == 0xC3u8 && h[3] == 0xD4u8) || (
    h[0] == 0xD4u8 && h[1] == 0xC3u8 && h[2] == 0xB2u8 && h[3] == 0xA1u8))
}

/// Checks the first four bytes of a capture for the pcap magic.
pub fn is_pcap(header: &[u8]) -> (r: Result<(), PcapReaderError>)
    ensures
        r is Ok <==> has_pcap_magic(header@),
        r is Err ==> r == Err::<(), PcapReaderError>(PcapReaderError::BadHeader),
{
    if header.len() >= 4 && ((header[0] == 0xA1 && header[1] == 0xB2 && header[2] == 0xC3
        && header[3] == 0xD4) || (header[0] == 0xD4 && header[1] == 0xC3 && header[2] == 0xB2
        && header[3] == 0xA1)) {
        Ok(())
    } else {
        Err(PcapReaderError::BadHeader)
    }
}

pub open spec fn rd16(s: Seq<u8>, i: int, be: bool) -> nat {
    if be {
        (s[i] * 256 + s[i + 1]) as nat
    } else {
        (s[i] + s[i + 1] * 256) as nat
    }
}

pub open spec fn rd32(s: Seq<u8>, i: int, be: bool) -> nat {
    if be {
        (s[i] * 16777216 + s[i + 1] * 65536 + s[i + 2] * 256 + s[i + 3]) as nat
    } else {
        (s[i] + s[i + 1] * 256 + s[i + 2] * 65536 + s[i + 3] * 16777216) as nat
    }
}

/// How a capture's records are laid out, from its 24-byte file header.
pub struct PcapFormat {
    pub big_endian: bool,
    pub nanos: bool,
    pub datalink: nat,
}

/// The layout that a file header announces: microsecond or nanosecond magic, in either
/// byte order, then the link type in the last four bytes.
pub open spec fn pcap_format(h: Seq<u8>) -> Option<PcapFormat> {
    if h.len() < 24 {
        None
    } else {
        let m = (h[0], h[1], h[2], h[3]);
        let be = m == (0xA1u8, 0xB2u8, 0xC3u8, 0xD4u8) || m == (0xA1u8, 0xB2u8, 0x3Cu8, 0x4Du8);
        let le = m == (0xD4u8, 0xC3u8, 0xB2u8, 0xA1u8) || m == (0x4Du8, 0x3Cu8, 0xB2u8, 0xA1u8);
        let nanos = m == (0xA1u8, 0xB2u8, 0x3Cu8, 0x4Du8) || m == (0x4Du8, 0x3Cu8, 0xB2u8, 0xA1u8);
        if be || le {
            Some(PcapFormat { big_endian: be, nanos, datalink: rd32(h, 20, be) })
        } else {
            None
        }
    }
}

/// The UDP payload that an IPv4 packet carries, if it carries UDP.
pub open spec fn ipv4_udp(p: Seq<u8>) -> Option<Seq<u8>> {
    if p.len() < 20 {
        None
    } else {
        let ihl = ((p[0] % 16) * 4) as int;
        let total = rd16(p, 2, true) as int;
        if p[9] != IP_PROTO_UDP || ihl < 20 || total < ihl || total > p.len() {
            None
        } else {
            let udp = p.subrange(ihl, total);
            if udp.len() < 8 {
                None
            } else {
                let ul = rd16(udp, 4, true) as int;
                if ul < 8 || ul > udp.len() {
                    None
                } else {
                    Some(udp.subrange(8, ul))
                }
            }
        }
    }
}

/// The UDP payload inside a link-layer frame: Ethernet (EtherType at bytes 12-13, 14-byte
/// header) or Linux cooked v2 (protocol at bytes 0-1, 20-byte header).
pub open spec fn frame_udp(datalink: nat, f: Seq<u8>) -> Option<Seq<u8>> {
    if datalink == LINKTYPE_ETHERNET {
        if f.len() < 14 || rd16(f, 12, true) != ETHERTYPE_IPV4 {
            None
        } else {
            ipv4_udp(f.subrange(14, f.len() as int))
        }
    } else if datalink == LINKTYPE_LINUX_SLL2 {
        if f.len() < 20 || rd16(f, 0, true) != ETHERTYPE_IPV4 {
            None
        } else {
            ipv4_udp(f.subrange(20, f.len() as int))
        }
    } else {
        None
    }
}

/// Why pcap_file refuses a header or a record: too few bytes, or a field it rejects.
#[derive(Debug, PartialEq, Eq, Clone, Copy, Structural)]
pub enum RecordFailure {
    Incomplete,
    Invalid,
}

/// What `pcap_file::pcap::PcapHeader::from_slice` makes of the first bytes of a capture.
pub open spec fn pcap_header_spec(h: Seq<u8>) -> Result<PcapFormat, RecordFailure> {
    if h.len() < 24 {
        Err(RecordFailure::Incomplete)
    } else {
        match pcap_format(h) {
            Some(f) => Ok(f),
            None => Err(RecordFailure::Invalid),
        }
    }
}

/// What pcap_file's `next_packet` makes of `rest` for a capture whose file header is `h`:
/// the frame, its time in nanoseconds and the number of bytes left after the record. It
/// wants the 16-byte record header and `incl_len` bytes, a fraction of a second below one
/// second, and `incl_len <= orig_len <= snaplen`.
pub open spec fn pcap_packet_spec(h: Seq<u8>, rest: Seq<u8>) -> Result<
    (Seq<u8>, nat, nat),
    RecordFailure,
> {
    let f = pcap_format(h)->Some_0;
    let be = f.big_endian;
    if rest.len() < 16 {
        Err(RecordFailure::Incomplete)
    } else {
        let incl = rd32(rest, 8, be);
        if rest.len() - 16 < incl {
            Err(RecordFailure::Incomplete)
        } else {
            let frac = rd32(rest, 4, be);
            let nsec = if f.nanos {
                frac
            } else {
                frac * 1000
            };
            let snap = rd32(h, 16, be);
            let orig = rd32(rest, 12, be);
            if nsec >= 1000000000 || incl > snap || orig > snap || incl > orig {
                Err(RecordFailure::Invalid)
            } else {
                Ok(
                    (
                        rest.subrange(16, 16 + incl as int),
                        rd32(rest, 0, be) * 1000000000 + nsec,
                        (rest.len() - 16 - incl) as nat,
                    ),
                )
            }
        }
    }
}

/// Plain values of a pcap file header.
pub struct PcapHeaderInfo {
    pub big_endian: bool,
    pub nanos: bool,
    pub snaplen: u32,
    pub datalink: u32,
}

/// Relies on `pcap_file::pcap::PcapHeader::from_slice`: it wants 24 bytes, reads the magic
/// as big-endian (`A1B2C3D4`, `A1B23C4D`, `D4C3B2A1` or `4D3CB2A1`, which fix the byte order
/// and the time resolution), then the snap length and the link type in that byte order.
#[verifier::external_body]
fn pcap_header_info(buf: &[u8]) -> (r: Result<PcapHeaderInfo, RecordFailure>)
    ensures
        match r {
            Ok(i) => pcap_header_spec(buf@) == Ok::<PcapFormat, RecordFailure>(
                PcapFormat { big_endian: i.big_endian, nanos: i.nanos, datalink: i.datalink as nat },
            ) && i.snaplen as nat == rd32(buf@, 16, i.big_endian),
            Err(e) => pcap_header_spec(buf@) == Err::<PcapFormat, RecordFailure>(e),
        },
{
    match pcap_file::pcap::PcapHeader::from_slice(buf) {
        Ok((_, h)) => Ok(PcapHeaderInfo {
            big_endian: matches!(h.endianness, pcap_file::Endianness::Big),
            nanos: matches!(h.ts_resolution, pcap_file::TsResolution::NanoSecond),
            snaplen: h.snaplen,
            datalink: u32::from(h.datalink),
        }),
        Err(pcap_file::PcapError::IncompleteBuffer) => Err(RecordFailure::Incomplete),
        Err(_) => Err(RecordFailure::Invalid),
    }
}

/// Relies on `pcap_file::pcap::PcapParser::new` and `PcapParser::next_packet`: the parser
/// that the file header `header` sets up reads one record off `rest`, and returns the
/// bytes left, the record's time and its frame.
#[verifier::external_body]
fn pcap_next_packet(header: &[u8], rest: &[u8]) -> (r: Result<(usize, u128, Vec<u8>), RecordFailure>)
    requires
        pcap_format(header@) is Some,
    ensures
        match r {
            Ok((left, ts, data)) => pcap_packet_spec(header@, rest@) == Ok::<
                (Seq<u8>, nat, nat),
                RecordFailure,
            >((data@, ts as nat, left as nat)),
            Err(e) => pcap_packet_spec(header@, rest@) == Err::<(Seq<u8>, nat, nat), RecordFailure>(
                e,
            ),
        },
{
    let (_, parser) = pcap_file::pcap::PcapParser::new(header).map_err(|_| RecordFailure::Invalid)?;
    match parser.next_packet(rest) {
        Ok((left, p)) => Ok((left.len(), p.timestamp.as_nanos(), p.data.into_owned())),
        Err(pcap_file::PcapError::IncompleteBuffer) => Err(RecordFailure::Incomplete),
        Err(_) => Err(RecordFailure::Invalid),
    }
}

pub open spec fn record_error(e: RecordFailure) -> PcapReaderError {
    match e {
        RecordFailure::Incomplete => PcapReaderError::ShortRead,
        RecordFailure::Invalid => PcapReaderError::MalformedRecord,
    }
}

/// From record `pos` on: the first record's frame with its time and the position after it,
/// `None` at the end of the records, or why the record cannot be read.
pub open spec fn next_frame(s: Seq<u8>, pos: nat) -> Result<
    Option<(Seq<u8>, nat, nat)>,
    PcapReaderError,
> {
    if pos >= s.len() {
        Ok(None)
    } else {
        match pcap_packet_spec(s.subrange(0, 24), s.subrange(pos as int, s.len() as int)) {
            Err(e) => Err(record_error(e)),
            Ok((frame, ts, left)) => Ok(Some((frame, ts, (s.len() - left) as nat))),
        }
    }
}

/// From record `pos` on: the first UDP payload with its time and the position after its
/// record, `None` at the end of the records, or why a record cannot be read. Frames that
/// carry no UDP are passed over.
pub open spec fn next_udp(s: Seq<u8>, pos: nat, fmt: PcapFormat) -> Result<
    Option<(Seq<u8>, nat, nat)>,
    PcapReaderError,
>
    decreases s.len() - pos,
{
    match next_frame(s, pos) {
        Err(e) => Err(e),
        Ok(None) => Ok(None),
        Ok(Some((frame, ts, next))) => if next <= pos || next > s.len() {
            Ok(None)
        } else {
            match frame_udp(fmt.datalink, frame) {
                Some(p) => Ok(Some((p, ts, next))),
                None => next_udp(s, next, fmt),
            }
        },
    }
}

fn read16(s: &[u8], i: usize, be: bool) -> (r: u16)
    requires
        i + 2 <= s.len(),
    ensures
        r as nat == rd16(s@, i as int, be),
{
    if be {
        (s[i] as u16) * 256 + s[i + 1] as u16
    } else {
        s[i] as u16 + (s[i + 1] as u16) * 256
    }
}

fn get_udp_payload_from_ipv4(p: &[u8]) -> (r: Option<&[u8]>)
    ensures
        match r {
            Some(u) => ipv4_udp(p@) == Some(u@),
            None => ipv4_udp(p@) is None,
        },
{
    if p.len() < 20 {
        return None;
    }
    let ihl = ((p[0] % 16) as usize) * 4;
    let total = read16(p, 2, true) as usize;
    if p[9] != IP_PROTO_UDP || ihl < 20 || total < ihl || total > p.len() {
        return None;
    }
    let udp = slice_subrange(p, ihl, total);
    if udp.len() < 8 {
        return None;
    }
    let ul = read16(udp, 4, true) as usize;
    if ul < 8 || ul > udp.len() {
        return None;
    }
    Some(slice_subrange(udp, 8, ul))
}

/// The UDP payload inside one captured frame of the given link type.
pub fn get_udp_payload_from_packet(datalink: u32, frame: &[u8]) -> (r: Option<&[u8]>)
    ensures
        match r {
            Some(u) => frame_udp(datalink as nat, frame@) == Some(u@),
            None => frame_udp(datalink as nat, frame@) is None,
        },
{
    if datalink == LINKTYPE_ETHERNET {
        if frame.len() < 14 || read16(frame, 12, true) != ETHERTYPE_IPV4 {
            return None;
        }
        get_udp_payload_from_ipv4(slice_subrange(frame, 14, frame.len()))
    } else if datalink == LINKTYPE_LINUX_SLL2 {
        if frame.len() < 20 || read16(frame, 0, true) != ETHERTYPE_IPV4 {
            return None;
        }
        get_udp_payload_from_ipv4(slice_subrange(frame, 20, frame.len()))
    } else {
        None
    }
}

/// Why a capture cannot be opened, if it cannot: no pcap file header, or a link type other
/// than Ethernet and Linux cooked v2.
pub open spec fn pcap_open_error(b: Seq<u8>) -> Option<PcapReaderError> {
    match pcap_format(b) {
        None => Some(PcapReaderError::BadHeader),
        Some(f) => if f.datalink != LINKTYPE_ETHERNET && f.datalink != LINKTYPE_LINUX_SLL2 {
            Some(PcapReaderError::UnsupportedDatalinkType(f.datalink as u32))
        } else {
            None
        },
    }
}

/// One captured link-layer frame.
pub struct PcapFrame {
    pub data: Vec<u8>,
    /// Nanoseconds since the epoch.
    pub timestamp: u64,
}

/// One UDP datagram taken from a capture.
pub struct PcapPacket {
    pub payload: Vec<u8>,
    /// Nanoseconds since the epoch.
    pub timestamp: u64,
}

/// Reads the UDP datagrams of a classic pcap capture held in memory.
pub struct PcapReader {
    buf: Vec<u8>,
    pos: usize,
    big_endian: bool,
    nanos: bool,
    datalink: u32,
}

impl PcapReader {
    pub closed spec fn bytes(&self) -> Seq<u8> {
        self.buf@
    }

    pub closed spec fn position(&self) -> nat {
        self.pos as nat
    }

    pub closed spec fn format(&self) -> PcapFormat {
        PcapFormat { big_endian: self.big_endian, nanos: self.nanos, datalink: self.datalink as nat }
    }

    pub open spec fn wf(&self) -> bool {
        self.position() <= self.bytes().len() && pcap_format(self.bytes()) == Some(self.format())
    }

    /// Decreases with every call of `read_packet` that returns a datagram.
    pub open spec fn remaining_len(&self) -> nat {
        (self.bytes().len() - self.position()) as nat
    }

    /// Opens a capture: reads its file header and accepts Ethernet and Linux cooked v2
    /// captures only.
    pub fn new(buf: Vec<u8>) -> (r: Result<Self, PcapReaderError>)
        ensures
            match r {
                Ok(_) => pcap_open_error(buf@) is None,
                Err(e) => pcap_open_error(buf@) == Some(e),
            },
            match r {
                Ok(rd) => rd.wf() && rd.bytes() == buf@ && rd.position() == 24 && (
                rd.format().datalink == LINKTYPE_ETHERNET || rd.format().datalink
                    == LINKTYPE_LINUX_SLL2),
                Err(_) => true,
            },
    {
        let info = match pcap_header_info(buf.as_slice()) {
            Ok(i) => i,
            Err(_) => return Err(PcapReaderError::BadHeader),
        };
        if info.datalink != LINKTYPE_ETHERNET && info.datalink != LINKTYPE_LINUX_SLL2 {
            return Err(PcapReaderError::UnsupportedDatalinkType(info.datalink));
        }
        Ok(
            PcapReader {
                buf,
                pos: 24,
                big_endian: info.big_endian,
                nanos: info.nanos,
                datalink: info.datalink,
            },
        )
    }

    /// The link type of the capture's frames.
    pub fn datalink(&self) -> (r: u32)
        ensures
            r as nat == self.format().datalink,
    {
        self.datalink
    }

    /// The next captured frame, whatever it carries, or `None` after the last record.
    pub fn read_frame(&mut self) -> (r: Result<Option<PcapFrame>, PcapReaderError>)
        requires
            old(self).wf(),
        ensures
            final(self).wf(),
            final(self).bytes() == old(self).bytes(),
            final(self).format() == old(self).format(),
            r is Err ==> final(self).position() == old(self).position(),
            match next_frame(old(self).bytes(), old(self).position()) {
                Err(e) => r == Err::<Option<PcapFrame>, PcapReaderError>(e),
                Ok(None) => r matches Ok(None) && final(self).position() == old(self).position(),
                Ok(Some((f, ts, next))) => r matches Ok(Some(fr)) && fr.data@ == f
                    && fr.timestamp == ts && final(self).position() == next,
            },
    {
        let pos = self.pos;
        if pos >= self.buf.len() {
            return Ok(None);
        }
        let header = slice_subrange(self.buf.as_slice(), 0, 24);
        let rest = slice_subrange(self.buf.as_slice(), pos, self.buf.len());
        assert(header@ =~= self.buf@.subrange(0, 24));
        match pcap_next_packet(header, rest) {
            Err(RecordFailure::Incomplete) => Err(PcapReaderError::ShortRead),
            Err(RecordFailure::Invalid) => Err(PcapReaderError::MalformedRecord),
            Ok((left, ts, data)) => {
                assert(ts < 18446744073709551616u128) by (nonlinear_arith)
                    requires
                        ts as nat == rd32(rest@, 0, self.big_endian) * 1000000000 + (if self.nanos {
                            rd32(rest@, 4, self.big_endian)
                        } else {
                            rd32(rest@, 4, self.big_endian) * 1000
                        }),
                        rd32(rest@, 0, self.big_endian) < 4294967296,
                        (if self.nanos {
                            rd32(rest@, 4, self.big_endian)
                        } else {
                            rd32(rest@, 4, self.big_endian) * 1000
                        }) < 1000000000,
                ;
                self.pos = self.buf.len() - left;
                Ok(Some(PcapFrame { data, timestamp: ts as u64 }))
            },
        }
    }

    /// The next UDP datagram of the capture, or `None` after the last record.
    pub fn read_packet(&mut self) -> (r: Result<Option<PcapPacket>, PcapReaderError>)
        requires
            old(self).wf(),
        ensures
            final(self).wf(),
            final(self).bytes() == old(self).bytes(),
            final(self).format() == old(self).format(),
            r matches Ok(Some(_)) ==> final(self).remaining_len() < old(self).remaining_len(),
            !(r matches Ok(Some(_))) ==> next_udp(final(self).bytes(), final(self).position(), final(self).format())
                == next_udp(old(self).bytes(), old(self).position(), old(self).format()),
            match next_udp(old(self).bytes(), old(self).position(), old(self).format()) {
                Err(e) => r == Err::<Option<PcapPacket>, PcapReaderError>(e),
                Ok(None) => r matches Ok(None),
                Ok(Some((p, ts, next))) => r matches Ok(Some(pk)) && pk.payload@ == p
                    && pk.timestamp == ts && final(self).position() == next,
            },
    {
        loop
            invariant
                self.wf(),
                self.bytes() == old(self).bytes(),
                self.format() == old(self).format(),
                self.pos >= old(self).pos,
                next_udp(old(self).bytes(), old(self).position(), old(self).format()) == next_udp(
                    self.bytes(),
                    self.position(),
                    self.format(),
                ),
            decreases self.buf.len() - self.pos,
        {
            let pos = self.pos;
            match self.read_frame() {
                Err(e) => {
                    return Err(e);
                },
                Ok(None) => {
                    return Ok(None);
                },
                Ok(Some(fr)) => {
                    if self.pos <= pos {
                        return Ok(None);
                    }
                    match get_udp_payload_from_packet(self.datalink, fr.data.as_slice()) {
                        Some(p) => {
                            let payload = copy_bytes(p);
                            return Ok(Some(PcapPacket { payload, timestamp: fr.timestamp }));
                        },
                        None => {},
                    }
                },
            }
        }
    }
}

} // verus!
