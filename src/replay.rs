use vstd::prelude::*;
use vstd::slice::slice_subrange;

use crate::scan::copy_bytes;

verus! {

/// The four bytes that open a replay file.
pub const DATADOG_HEADER: [u8; 4] = [0xD4, 0x74, 0xD0, 0x60];

/// The one replay version this reader understands.
pub const SUPPORTED_VERSION: u8 = 3;

pub open spec fn has_replay_magic(h: Seq<u8>) -> bool {
    h.len() >= 4 && h[0] == 0xD4u8 && h[1] == 0x74u8 && h[2] == 0xD0u8 && h[3] == 0x60u8
}

/// The version byte of a replay header holds `0xF0` xor the version.
pub open spec fn header_version(h: Seq<u8>) -> u8 {
    h[4] ^ 0xF0u8
}

#[derive(Debug, PartialEq, Eq, Clone, Copy, Structural)]
pub enum ReplayReaderError {
    NotAReplayFile,
    UnsupportedReplayVersion(u8),
    ShortRead,
    ProtoDecode,
}

/// Checks a replay file header: the magic, then a supported version.
pub fn is_replay(header: &[u8]) -> (r: Result<(), ReplayReaderError>)
    ensures
        match r {
            Ok(()) => has_replay_magic(header@) && header@.len() >= 5 && header_version(header@)
                == SUPPORTED_VERSION,
            Err(ReplayReaderError::NotAReplayFile) => !has_replay_magic(header@) || header@.len()
                < 5,
            Err(ReplayReaderError::UnsupportedReplayVersion(v)) => has_replay_magic(header@)
                && header@.len() >= 5 && v == header_version(header@) && v != SUPPORTED_VERSION,
            Err(_) => false,
        },
{
    if header.len() < 5 || header[0] != DATADOG_HEADER[0] || header[1] != DATADOG_HEADER[1]
        || header[2] != DATADOG_HEADER[2] || header[3] != DATADOG_HEADER[3] {
        return Err(ReplayReaderError::NotAReplayFile);
    }
    let version = header[4] ^ 0xF0;
    if version != SUPPORTED_VERSION {
        return Err(ReplayReaderError::UnsupportedReplayVersion(version));
    }
    Ok(())
}

/// Why a header is not that of a replay file of the supported version.
#[derive(Debug, PartialEq, Eq, Clone, Copy, Structural)]
pub enum ReplayHeaderError {
    TooShort,
    UnexpectedVersion(u8),
    MissingMagic,
}

/// Checks a replay header the other way round: its length, then the version, then the magic.
pub fn is_replay_header(header: &[u8]) -> (r: Result<(), ReplayHeaderError>)
    ensures
        match r {
            Ok(()) => header@.len() > 4 && header_version(header@) == SUPPORTED_VERSION
                && has_replay_magic(header@),
            Err(ReplayHeaderError::TooShort) => header@.len() <= 4,
            Err(ReplayHeaderError::UnexpectedVersion(v)) => header@.len() > 4 && v
                == header_version(header@) && v != SUPPORTED_VERSION,
            Err(ReplayHeaderError::MissingMagic) => header@.len() > 4 && header_version(header@)
                == SUPPORTED_VERSION && !has_replay_magic(header@),
        },
{
    if header.len() <= 4 {
        return Err(ReplayHeaderError::TooShort);
    }
    let version = header[4] ^ 0xF0;
    if version != SUPPORTED_VERSION {
        return Err(ReplayHeaderError::UnexpectedVersion(version));
    }
    if header[0] != DATADOG_HEADER[0] || header[1] != DATADOG_HEADER[1] || header[2]
        != DATADOG_HEADER[2] || header[3] != DATADOG_HEADER[3] {
        return Err(ReplayHeaderError::MissingMagic);
    }
    Ok(())
}

pub open spec fn pow128(i: nat) -> nat
    decreases i,
{
    if i == 0 {
        1
    } else {
        128 * pow128((i - 1) as nat)
    }
}

/// Number of bytes of the base-128 varint that starts `t`, looking at most at ten bytes.
pub open spec fn varint_size(t: Seq<u8>, i: nat) -> Option<nat>
    decreases 10 - i,
{
    if i >= 10 || i >= t.len() {
        None
    } else if t[i as int] < 128 {
        Some(i + 1)
    } else {
        varint_size(t, i + 1)
    }
}

/// Value of the first `n` bytes of `t` read as a little-endian base-128 varint.
pub open spec fn varint_value(t: Seq<u8>, n: nat) -> nat
    decreases n,
{
    if n == 0 {
        0
    } else {
        varint_value(t, (n - 1) as nat) + (t[n - 1] % 128) as nat * pow128((n - 1) as nat)
    }
}

/// The varint that starts `t` and the number of its bytes, when it fits a `u64`.
pub open spec fn read_varint(t: Seq<u8>) -> Option<(nat, nat)> {
    match varint_size(t, 0) {
        None => None,
        Some(n) => if varint_value(t, n) <= u64::MAX {
            Some((varint_value(t, n), n))
        } else {
            None
        },
    }
}

proof fn lemma_varint_value_bound(t: Seq<u8>, n: nat)
    requires
        n <= t.len(),
    ensures
        varint_value(t, n) < pow128(n),
    decreases n,
{
    if n > 0 {
        lemma_varint_value_bound(t, (n - 1) as nat);
        let p = pow128((n - 1) as nat);
        let d = (t[n - 1] % 128) as nat;
        assert(varint_value(t, (n - 1) as nat) + d * p < 128 * p) by (nonlinear_arith)
            requires
                varint_value(t, (n - 1) as nat) < p,
                d < 128,
        ;
    }
}

fn read_varint_at(s: &[u8], pos: usize) -> (r: Option<(u64, usize)>)
    requires
        pos <= s.len(),
    ensures
        match r {
            Some((v, end)) => read_varint(s@.subrange(pos as int, s@.len() as int)) == Some(
                (v as nat, (end - pos) as nat),
            ) && pos < end <= s.len(),
            None => read_varint(s@.subrange(pos as int, s@.len() as int)) is None,
        },
{
    let ghost t = s@.subrange(pos as int, s@.len() as int);
    let mut i: usize = 0;
    let mut v: u128 = 0;
    let mut mult: u128 = 1;
    assert(pow128(0) == 1);
    while i < 10 && pos + i < s.len()
        invariant
            i <= 10,
            pos + i <= s.len(),
            t == s@.subrange(pos as int, s@.len() as int),
            v as nat == varint_value(t, i as nat),
            mult as nat == pow128(i as nat),
            varint_size(t, 0) == varint_size(t, i as nat),
        decreases 10 - i,
    {
        let b = s[pos + i];
        assert(t[i as int] == b);
        proof {
            lemma_varint_value_bound(t, i as nat);
            lemma_pow128_mono(i as nat + 1, 10);
            reveal_with_fuel(pow128, 11);
            assert(pow128(10) == 1180591620717411303424);
        }
        let d = (b % 128) as u128;
        assert(v + d * mult < 128 * mult) by (nonlinear_arith)
            requires
                d < 128,
                v < mult,
        ;
        v = v + d * mult;
        if b < 128 {
            proof {
                assert(varint_value(t, (i + 1) as nat) == v);
            }
            if v > u64::MAX as u128 {
                return None;
            }
            return Some((v as u64, pos + i + 1));
        }
        mult = mult * 128;
        i = i + 1;
        assert(varint_size(t, (i - 1) as nat) == varint_size(t, i as nat));
    }
    None
}

proof fn lemma_pow128_mono(a: nat, b: nat)
    requires
        a <= b,
    ensures
        pow128(a) <= pow128(b),
    decreases b,
{
    if a < b {
        lemma_pow128_mono(a, (b - 1) as nat);
    }
}

/// One datagram of a replay capture, as the capturing agent recorded it.
#[derive(Debug, PartialEq)]
pub struct UnixDogstatsdMsg {
    /// Nanoseconds since the epoch.
    pub timestamp: i64,
    pub payload_size: i32,
    pub payload: Vec<u8>,
    pub pid: i32,
    pub ancillary: Vec<u8>,
    pub ancillary_size: i32,
}

pub struct UnixMsgModel {
    pub timestamp: i64,
    pub payload_size: i32,
    pub payload: Seq<u8>,
    pub pid: i32,
    pub ancillary: Seq<u8>,
    pub ancillary_size: i32,
}

impl View for UnixDogstatsdMsg {
    type V = UnixMsgModel;

    open spec fn view(&self) -> UnixMsgModel {
        UnixMsgModel {
            timestamp: self.timestamp,
            payload_size: self.payload_size,
            payload: self.payload@,
            pid: self.pid,
            ancillary: self.ancillary@,
            ancillary_size: self.ancillary_size,
        }
    }
}

pub open spec fn empty_record() -> UnixMsgModel {
    UnixMsgModel {
        timestamp: 0,
        payload_size: 0,
        payload: Seq::<u8>::empty(),
        pid: 0,
        ancillary: Seq::<u8>::empty(),
        ancillary_size: 0,
    }
}

/// Field numbers of the record: timestamp (1), payload size (2), payload (3), pid (4),
/// ancillary data (5), ancillary size (6).
pub open spec fn is_known_field(tag: nat) -> bool {
    1 <= tag <= 6
}

/// A varint field over the record so far; `None` when the field is not an integer one.
pub open spec fn apply_varint(acc: UnixMsgModel, tag: nat, v: nat) -> Option<UnixMsgModel> {
    if tag == 1 {
        Some(UnixMsgModel { timestamp: (v as u64) as i64, ..acc })
    } else if tag == 2 {
        Some(UnixMsgModel { payload_size: (v as u64) as i32, ..acc })
    } else if tag == 4 {
        Some(UnixMsgModel { pid: (v as u64) as i32, ..acc })
    } else if tag == 6 {
        Some(UnixMsgModel { ancillary_size: (v as u64) as i32, ..acc })
    } else if is_known_field(tag) {
        None
    } else {
        Some(acc)
    }
}

/// A length-delimited field over the record so far; `None` when the field is not a bytes one.
pub open spec fn apply_bytes(acc: UnixMsgModel, tag: nat, b: Seq<u8>) -> Option<UnixMsgModel> {
    if tag == 3 {
        Some(UnixMsgModel { payload: b, ..acc })
    } else if tag == 5 {
        Some(UnixMsgModel { ancillary: b, ..acc })
    } else if is_known_field(tag) {
        None
    } else {
        Some(acc)
    }
}

/// The record that the protobuf fields of `s` from byte `pos` on make of `acc`. A later
/// field replaces an earlier one of the same number; unknown fields of wire type 0, 1, 2 or 5
/// are skipped; anything else (groups, a bad key, a field cut short) fails.
pub open spec fn decode_from(s: Seq<u8>, pos: nat, acc: UnixMsgModel) -> Option<UnixMsgModel>
    decreases s.len() - pos,
{
    if pos >= s.len() {
        Some(acc)
    } else {
        match read_varint(s.subrange(pos as int, s.len() as int)) {
            None => None,
            Some((key, n)) => {
                let p = pos + n;
                let tag = key / 8;
                let wt = key % 8;
                if n == 0 || p > s.len() || key > u32::MAX || tag == 0 {
                    None
                } else if wt == 0 {
                    match read_varint(s.subrange(p as int, s.len() as int)) {
                        None => None,
                        Some((v, m)) => if p + m > s.len() {
                            None
                        } else {
                            match apply_varint(acc, tag, v) {
                                None => None,
                                Some(a2) => decode_from(s, p + m, a2),
                            }
                        },
                    }
                } else if wt == 2 {
                    match read_varint(s.subrange(p as int, s.len() as int)) {
                        None => None,
                        Some((l, m)) => if p + m + l > s.len() {
                            None
                        } else {
                            match apply_bytes(acc, tag, s.subrange((p + m) as int, (p + m + l) as int)) {
                                None => None,
                                Some(a2) => decode_from(s, p + m + l, a2),
                            }
                        },
                    }
                } else if wt == 1 {
                    if p + 8 > s.len() || is_known_field(tag) {
                        None
                    } else {
                        decode_from(s, p + 8, acc)
                    }
                } else if wt == 5 {
                    if p + 4 > s.len() || is_known_field(tag) {
                        None
                    } else {
                        decode_from(s, p + 4, acc)
                    }
                } else {
                    None
                }
            },
        }
    }
}

/// The record that the protobuf bytes `s` encode, if they encode one.
pub open spec fn decode_record(s: Seq<u8>) -> Option<UnixMsgModel> {
    decode_from(s, 0, empty_record())
}

/// Decodes one protobuf record.
pub fn decode_unix_msg(s: &[u8]) -> (r: Option<UnixDogstatsdMsg>)
    ensures
        match r {
            Some(m) => decode_record(s@) == Some(m@),
            None => decode_record(s@) is None,
        },
{
    let mut acc = UnixDogstatsdMsg {
        timestamp: 0,
        payload_size: 0,
        payload: Vec::new(),
        pid: 0,
        ancillary: Vec::new(),
        ancillary_size: 0,
    };
    assert(acc@ == empty_record()) by {
        assert(acc.payload@ =~= Seq::<u8>::empty());
        assert(acc.ancillary@ =~= Seq::<u8>::empty());
    }
    let mut pos: usize = 0;
    while pos < s.len()
        invariant
            pos <= s.len(),
            decode_record(s@) == decode_from(s@, pos as nat, acc@),
        decreases s.len() - pos,
    {
        let (key, p) = match read_varint_at(s, pos) {
            None => return None,
            Some(kp) => kp,
        };
        let tag = key / 8;
        let wt = key % 8;
        if key > u32::MAX as u64 || tag == 0 {
            return None;
        }
        if wt == 0 {
            let (v, q) = match read_varint_at(s, p) {
                None => return None,
                Some(vq) => vq,
            };
            if tag == 1 {
                acc.timestamp = v as i64;
            } else if tag == 2 {
                acc.payload_size = v as i32;
            } else if tag == 4 {
                acc.pid = v as i32;
            } else if tag == 6 {
                acc.ancillary_size = v as i32;
            } else if tag <= 6 {
                return None;
            }
            pos = q;
        } else if wt == 2 {
            let (l, q) = match read_varint_at(s, p) {
                None => return None,
                Some(lq) => lq,
            };
            if l > (s.len() - q) as u64 {
                return None;
            }
            let end = q + l as usize;
            let bytes = slice_subrange(s, q, end);
            if tag == 3 {
                acc.payload = copy_bytes(bytes);
            } else if tag == 5 {
                acc.ancillary = copy_bytes(bytes);
            } else if tag <= 6 {
                return None;
            }
            pos = end;
        } else if wt == 1 {
            if s.len() - p < 8 || tag <= 6 {
                return None;
            }
            pos = p + 8;
        } else if wt == 5 {
            if s.len() - p < 4 || tag <= 6 {
                return None;
            }
            pos = p + 4;
        } else {
            return None;
        }
    }
    Some(acc)
}

/// Why a capture cannot be opened, if it cannot: too short for a header, no magic, or a
/// version other than the supported one.
pub open spec fn replay_open_error(b: Seq<u8>) -> Option<ReplayReaderError> {
    if b.len() < 8 {
        Some(ReplayReaderError::ShortRead)
    } else if !has_replay_magic(b) {
        Some(ReplayReaderError::NotAReplayFile)
    } else if header_version(b) != SUPPORTED_VERSION {
        Some(ReplayReaderError::UnsupportedReplayVersion(header_version(b)))
    } else {
        None
    }
}

/// Reads the little-endian `u32` at `pos`.
pub open spec fn u32_le(s: Seq<u8>, pos: int) -> nat {
    (s[pos] + 256 * s[pos + 1] + 65536 * s[pos + 2] + 16777216 * s[pos + 3]) as nat
}

/// Reads the records of a replay capture held in memory: after the 8-byte header, each
/// record is a little-endian `u32` length and that many bytes of protobuf; a zero length
/// ends the records (what follows, the tagger state, is not read).
pub struct ReplayReader {
    buf: Vec<u8>,
    pos: usize,
    read_all_unixdogstatsdmsg: bool,
}

impl ReplayReader {
    pub closed spec fn bytes(&self) -> Seq<u8> {
        self.buf@
    }

    pub closed spec fn position(&self) -> nat {
        self.pos as nat
    }

    /// True once the zero-length record has been read.
    pub closed spec fn drained(&self) -> bool {
        self.read_all_unixdogstatsdmsg
    }

    pub open spec fn wf(&self) -> bool {
        self.position() <= self.bytes().len()
    }

    /// Decreases with every call of `read_msg` that returns a record or ends the records.
    pub closed spec fn remaining_len(&self) -> nat {
        ((self.buf.len() - self.pos) + if self.read_all_unixdogstatsdmsg {
            0int
        } else {
            1int
        }) as nat
    }

    /// The versions of the replay format this reader understands.
    pub fn supported_versions() -> (r: Vec<u8>)
        ensures
            r@ == seq![SUPPORTED_VERSION],
    {
        let mut v: Vec<u8> = Vec::new();
        v.push(SUPPORTED_VERSION);
        v
    }

    /// Opens a capture: checks its 8-byte header.
    pub fn new(buf: Vec<u8>) -> (r: Result<Self, ReplayReaderError>)
        ensures
            match r {
                Ok(rd) => rd.wf() && rd.bytes() == buf@ && rd.position() == 8 && !rd.drained()
                    && buf@.len() >= 8 && has_replay_magic(buf@) && header_version(buf@) == SUPPORTED_VERSION,
                Err(ReplayReaderError::ShortRead) => buf@.len() < 8,
                Err(ReplayReaderError::NotAReplayFile) => buf@.len() >= 8 && !has_replay_magic(
                    buf@,
                ),
                Err(ReplayReaderError::UnsupportedReplayVersion(v)) => buf@.len() >= 8
                    && has_replay_magic(buf@) && v == header_version(buf@) && v
                    != SUPPORTED_VERSION,
                Err(ReplayReaderError::ProtoDecode) => false,
            },
    {
        if buf.len() < 8 {
            return Err(ReplayReaderError::ShortRead);
        }
        match is_replay(slice_subrange(buf.as_slice(), 0, 8)) {
            Ok(()) => Ok(ReplayReader { buf, pos: 8, read_all_unixdogstatsdmsg: false }),
            Err(e) => Err(e),
        }
    }

    /// The next record, or `None` at the end of the records.
    pub fn read_msg(&mut self) -> (r: Result<Option<UnixDogstatsdMsg>, ReplayReaderError>)
        requires
            old(self).wf(),
        ensures
            final(self).wf(),
            final(self).bytes() == old(self).bytes(),
            r matches Ok(_) && !old(self).drained() ==> final(self).remaining_len() < old(self).remaining_len(),
            ({
                let s = old(self).bytes();
                let p = old(self).position() as int;
                if old(self).drained() {
                    r == Ok::<Option<UnixDogstatsdMsg>, ReplayReaderError>(None) && *final(self)
                        == *old(self)
                } else if s.len() - p < 4 {
                    r == Err::<Option<UnixDogstatsdMsg>, ReplayReaderError>(
                        ReplayReaderError::ShortRead,
                    ) && *final(self) == *old(self)
                } else if u32_le(s, p) == 0 {
                    r == Ok::<Option<UnixDogstatsdMsg>, ReplayReaderError>(None)
                        && final(self).drained() && final(self).position() == p + 4
                } else if s.len() - p - 4 < u32_le(s, p) {
                    r == Err::<Option<UnixDogstatsdMsg>, ReplayReaderError>(
                        ReplayReaderError::ShortRead,
                    ) && *final(self) == *old(self)
                } else {
                    let rec = s.subrange(p + 4, p + 4 + u32_le(s, p));
                    match decode_record(rec) {
                        None => r == Err::<Option<UnixDogstatsdMsg>, ReplayReaderError>(
                            ReplayReaderError::ProtoDecode,
                        ) && *final(self) == *old(self),
                        Some(m) => r matches Ok(Some(msg)) && msg@ == m && final(self).position()
                            == p + 4 + u32_le(s, p) && !final(self).drained(),
                    }
                }
            }),
    {
        if self.read_all_unixdogstatsdmsg {
            return Ok(None);
        }
        let p = self.pos;
        if self.buf.len() - p < 4 {
            return Err(ReplayReaderError::ShortRead);
        }
        let len: u64 = self.buf[p] as u64 + 256 * (self.buf[p + 1] as u64) + 65536 * (self.buf[p
            + 2] as u64) + 16777216 * (self.buf[p + 3] as u64);
        if len == 0 {
            self.read_all_unixdogstatsdmsg = true;
            self.pos = p + 4;
            return Ok(None);
        }
        if ((self.buf.len() - p - 4) as u64) < len {
            return Err(ReplayReaderError::ShortRead);
        }
        let end = p + 4 + len as usize;
        match decode_unix_msg(slice_subrange(self.buf.as_slice(), p + 4, end)) {
            None => Err(ReplayReaderError::ProtoDecode),
            Some(m) => {
                self.pos = end;
                Ok(Some(m))
            },
        }
    }
}

} // verus!
