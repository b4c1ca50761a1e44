use vstd::prelude::*;

use crate::dogstatsdmsg::{COLON, COMMA, HASH, PIPE};
use crate::dogstatsdreader::DogStatsDReader;
use crate::scan::{bytes_eq, lemma_split_nonempty, split, split_bytes, starts_with, views};

verus! {

/// The kind of a line, told from its second field or its prefix.
#[derive(Debug, PartialEq, Eq, Clone, Copy, Structural)]
pub enum Kind {
    Count,
    Distribution,
    Gauge,
    Timer,
    Histogram,
    SetMetric,
    ServiceCheck,
    Event,
}

/// Quick per-line figures, read without a full parse.
#[derive(Debug, PartialEq, Eq, Clone, Copy, Structural)]
pub struct DogStatsDMessageStats {
    pub name_length: u16,
    pub num_values: u16,
    pub num_tags: u16,
    pub num_ascii_tags: u16,
    pub num_unicode_tags: u16,
    pub kind: Option<Kind>,
}

pub open spec fn is_ascii_bytes(t: Seq<u8>) -> bool {
    forall|i: int| 0 <= i < t.len() ==> #[trigger] t[i] < 128
}

/// Number of tags in `tags` that are ASCII.
pub open spec fn ascii_count(tags: Seq<Seq<u8>>) -> nat
    decreases tags.len(),
{
    if tags.len() == 0 {
        0
    } else {
        ascii_count(tags.drop_last()) + if is_ascii_bytes(tags.last()) {
            1nat
        } else {
            0nat
        }
    }
}

/// The kind of a line: from its type field, else from an `_sc` or `_e` prefix.
pub open spec fn kind_spec(line: Seq<u8>, parts: Seq<Seq<u8>>) -> Option<Kind> {
    if parts.len() < 2 {
        None
    } else {
        let t = parts[1];
        if t == seq![0x64u8] {
            Some(Kind::Distribution)
        } else if t == seq![0x6Du8, 0x73u8] {
            Some(Kind::Timer)
        } else if t == seq![0x67u8] {
            Some(Kind::Gauge)
        } else if t == seq![0x63u8] {
            Some(Kind::Count)
        } else if t == seq![0x73u8] {
            Some(Kind::SetMetric)
        } else if t == seq![0x68u8] {
            Some(Kind::Histogram)
        } else if crate::scan::has_prefix(line, seq![0x5Fu8, 0x73u8, 0x63u8]) {
            Some(Kind::ServiceCheck)
        } else if crate::scan::has_prefix(line, seq![0x5Fu8, 0x65u8]) {
            Some(Kind::Event)
        } else {
            None
        }
    }
}

/// The figures of one line. The tags are the comma-separated pieces of the last field when
/// it begins with `#`; counts are kept to 16 bits.
pub open spec fn line_stats(line: Seq<u8>) -> DogStatsDMessageStats {
    let parts = split(line, PIPE);
    let nv = split(parts[0], COLON);
    let last = parts[parts.len() - 1];
    let tags = if last.len() > 0 && last[0] == HASH {
        split(last, COMMA)
    } else {
        Seq::<Seq<u8>>::empty()
    };
    let ascii = ascii_count(tags);
    DogStatsDMessageStats {
        name_length: (nv[0].len() % 65536) as u16,
        num_values: ((nv.len() - 1) % 65536) as u16,
        num_tags: (tags.len() % 65536) as u16,
        num_ascii_tags: (ascii % 65536) as u16,
        num_unicode_tags: ((tags.len() - ascii) % 65536) as u16,
        kind: kind_spec(line, parts),
    }
}

fn is_ascii_slice(t: &[u8]) -> (r: bool)
    ensures
        r == is_ascii_bytes(t@),
{
    let mut i: usize = 0;
    while i < t.len()
        invariant
            i <= t.len(),
            forall|j: int| 0 <= j < i ==> #[trigger] t@[j] < 128,
        decreases t.len() - i,
    {
        if t[i] >= 128 {
            return false;
        }
        i = i + 1;
    }
    true
}

fn count_ascii(tags: &Vec<&[u8]>) -> (r: usize)
    ensures
        r as nat == ascii_count(views(tags@)),
        r <= tags.len(),
{
    let ghost vs = views(tags@);
    let mut n: usize = 0;
    let mut i: usize = 0;
    while i < tags.len()
        invariant
            i <= tags.len(),
            vs == views(tags@),
            n as nat == ascii_count(vs.subrange(0, i as int)),
            n <= i,
        decreases tags.len() - i,
    {
        assert(vs.subrange(0, i + 1).drop_last() =~= vs.subrange(0, i as int));
        assert(vs[i as int] == tags[i as int]@);
        if is_ascii_slice(tags[i]) {
            n = n + 1;
        }
        i = i + 1;
    }
    assert(vs.subrange(0, tags.len() as int) =~= vs);
    n
}

fn kind_of_line(line: &[u8], parts: &Vec<&[u8]>) -> (r: Option<Kind>)
    ensures
        r == kind_spec(line@, views(parts@)),
{
    if parts.len() < 2 {
        return None;
    }
    let t = parts[1];
    assert(views(parts@)[1] == t@);
    let d: [u8; 1] = [0x64];
    let ms: [u8; 2] = [0x6D, 0x73];
    let g: [u8; 1] = [0x67];
    let c: [u8; 1] = [0x63];
    let st: [u8; 1] = [0x73];
    let h: [u8; 1] = [0x68];
    let sc: [u8; 3] = [0x5F, 0x73, 0x63];
    let ev: [u8; 2] = [0x5F, 0x65];
    assert(d@ =~= seq![0x64u8]);
    assert(ms@ =~= seq![0x6Du8, 0x73u8]);
    assert(g@ =~= seq![0x67u8]);
    assert(c@ =~= seq![0x63u8]);
    assert(st@ =~= seq![0x73u8]);
    assert(h@ =~= seq![0x68u8]);
    assert(sc@ =~= seq![0x5Fu8, 0x73u8, 0x63u8]);
    assert(ev@ =~= seq![0x5Fu8, 0x65u8]);
    if bytes_eq(t, d.as_slice()) {
        Some(Kind::Distribution)
    } else if bytes_eq(t, ms.as_slice()) {
        Some(Kind::Timer)
    } else if bytes_eq(t, g.as_slice()) {
        Some(Kind::Gauge)
    } else if bytes_eq(t, c.as_slice()) {
        Some(Kind::Count)
    } else if bytes_eq(t, st.as_slice()) {
        Some(Kind::SetMetric)
    } else if bytes_eq(t, h.as_slice()) {
        Some(Kind::Histogram)
    } else if starts_with(line, sc.as_slice()) {
        Some(Kind::ServiceCheck)
    } else if starts_with(line, ev.as_slice()) {
        Some(Kind::Event)
    } else {
        None
    }
}

/// The figures of one line.
pub fn message_stats(line: &[u8]) -> (r: DogStatsDMessageStats)
    ensures
        r == line_stats(line@),
{
    let parts = split_bytes(line, PIPE);
    proof {
        lemma_split_nonempty(line@, PIPE);
    }
    assert(views(parts@)[0] == parts[0]@);
    let nv = split_bytes(parts[0], COLON);
    proof {
        lemma_split_nonempty(parts[0]@, COLON);
    }
    assert(views(nv@)[0] == nv[0]@);
    let last = parts[parts.len() - 1];
    assert(views(parts@)[parts.len() - 1] == last@);
    let tags: Vec<&[u8]> = if last.len() > 0 && last[0] == HASH {
        split_bytes(last, COMMA)
    } else {
        let e: Vec<&[u8]> = Vec::new();
        assert(views(e@) =~= Seq::<Seq<u8>>::empty());
        e
    };
    let ascii = count_ascii(&tags);
    DogStatsDMessageStats {
        name_length: (nv[0].len() % 65536) as u16,
        num_values: ((nv.len() - 1) % 65536) as u16,
        num_tags: (tags.len() % 65536) as u16,
        num_ascii_tags: (ascii % 65536) as u16,
        num_unicode_tags: ((tags.len() - ascii) % 65536) as u16,
        kind: kind_of_line(line, &parts),
    }
}

/// The figures of every line a reader hands out, in order; reading stops at the end or at
/// the first read error. When the lines to come are all UTF-8, one entry per line.
pub fn analyze_msgs(reader: &mut DogStatsDReader) -> (r: Vec<DogStatsDMessageStats>)
    requires
        old(reader).wf(),
    ensures
        old(reader).remaining().len() < usize::MAX && (forall|i: int|
            0 <= i < old(reader).remaining().len() ==> vstd::utf8::valid_utf8(
                #[trigger] old(reader).remaining()[i],
            )) ==> r@ == old(reader).remaining().map_values(|l: Seq<u8>| line_stats(l)),
{
    let mut out: Vec<DogStatsDMessageStats> = Vec::new();
    let mut line = String::new();
    let ghost all = reader.remaining();
    let ghost exact = all.len() < usize::MAX && (forall|i: int|
        0 <= i < all.len() ==> vstd::utf8::valid_utf8(#[trigger] all[i]));
    let ghost mut consumed: Seq<Seq<u8>> = Seq::empty();
    assert(consumed + all =~= all);
    assert(out@ =~= consumed.map_values(|l: Seq<u8>| line_stats(l)));
    loop
        invariant
            reader.wf(),
            all == old(reader).remaining(),
            exact == (all.len() < usize::MAX && (forall|i: int|
                0 <= i < all.len() ==> vstd::utf8::valid_utf8(#[trigger] all[i]))),
            consumed + reader.remaining() == all,
            out@ == consumed.map_values(|l: Seq<u8>| line_stats(l)),
            out.len() == consumed.len(),
        ensures
            exact ==> out@ == all.map_values(|l: Seq<u8>| line_stats(l)),
        decreases usize::MAX - out.len(),
    {
        if out.len() == usize::MAX {
            proof {
                if exact {
                    assert(consumed.len() <= all.len());
                }
            }
            break;
        }
        let ghost before = reader.remaining();
        match reader.read_msg(&mut line) {
            Ok(n) => {
                if n == 0 {
                    proof {
                        assert(consumed + before =~= consumed);
                    }
                    break;
                }
                let st = message_stats(line.as_str().as_bytes());
                proof {
                    assert(consumed.push(before[0]) + before.drop_first() =~= consumed + before);
                    assert(consumed.push(before[0]).map_values(|l: Seq<u8>| line_stats(l))
                        =~= consumed.map_values(|l: Seq<u8>| line_stats(l)).push(
                        line_stats(before[0]),
                    ));
                    consumed = consumed.push(before[0]);
                }
                out.push(st);
            },
            Err(_) => {
                proof {
                    if exact && before.len() > 0 {
                        assert(all[consumed.len() as int] == before[0]);
                    }
                    if before.len() == 0 {
                        assert(consumed + before =~= consumed);
                    }
                }
                break;
            },
        }
    }
    out
}

} // verus!
