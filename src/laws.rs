use vstd::prelude::*;

use crate::analysis::{context_of, lemma_lines_counted, scaled, stats_of, utf8_prefix};
use crate::dogstatsdmsg::{
    event_spec, parse_spec, EventModel, MsgModel, COMMA, LBRACE, RBRACE,
};
use crate::dogstatsdreader::{
    input_outcome, lines_of, packets_of, replay_stream, stream_bytes, zstd_decoded, InputType,
};
use crate::scan::{decimal_value, first_index, split, trim_end, unsigned_digits};
use crate::zstd::has_zstd_magic;

verus! {

/// A line that parses keeps, as its raw text, the line without trailing whitespace: a metric
/// and, as well, an event or a service check.
pub proof fn lemma_raw_is_trimmed_line(line: Seq<u8>)
    ensures
        parse_spec(line) matches Ok(MsgModel::Metric(m)) ==> m.raw == trim_end(line),
        parse_spec(line) matches Ok(MsgModel::Event(e)) ==> e.raw == trim_end(line),
        parse_spec(line) matches Ok(MsgModel::ServiceCheck(c)) ==> c.raw == trim_end(line),
{
}

/// The title length an event header declares.
pub open spec fn declared_title_len(line: Seq<u8>) -> nat {
    let s = trim_end(line);
    let ob = first_index(s, LBRACE);
    let cb = ob + 1 + first_index(s.subrange(ob + 1, s.len() as int), RBRACE);
    decimal_value(unsigned_digits(split(s.subrange(ob + 1, cb), COMMA)[0]))
}

/// The text length an event header declares.
pub open spec fn declared_text_len(line: Seq<u8>) -> nat {
    let s = trim_end(line);
    let ob = first_index(s, LBRACE);
    let cb = ob + 1 + first_index(s.subrange(ob + 1, s.len() as int), RBRACE);
    decimal_value(unsigned_digits(split(s.subrange(ob + 1, cb), COMMA)[1]))
}

/// An event that parses has a title and a text of exactly the byte lengths its header
/// declares.
pub proof fn lemma_event_lengths_match_header(line: Seq<u8>)
    ensures
        parse_spec(line) matches Ok(MsgModel::Event(e)) ==> e.title.len() == declared_title_len(
            line,
        ) && e.text.len() == declared_text_len(line),
{
    match parse_spec(line) {
        Ok(MsgModel::Event(e)) => {
            assert(event_spec(line) == Ok::<EventModel, crate::dogstatsdmsg::ParseErrorReason>(e));
        },
        _ => {},
    }
}

/// Reordering the tags of a metric does not change its context.
pub proof fn lemma_context_ignores_tag_order(
    name: Seq<u8>,
    tags: Seq<Seq<u8>>,
    reordered: Seq<Seq<u8>>,
)
    requires
        reordered.to_multiset() == tags.to_multiset(),
    ensures
        context_of(name, reordered) == context_of(name, tags),
{
}

/// The messages of a batch are its metrics, events and service checks: the count of
/// messages is the sum of the totals per kind. Lines that do not parse are counted apart.
pub proof fn lemma_totals_add_up(lines: Seq<Seq<u8>>)
    ensures
        stats_of(lines).num_msgs == stats_of(lines).num_metrics + stats_of(lines).num_events
            + stats_of(lines).num_service_checks,
        stats_of(lines).num_msgs + stats_of(lines).num_parse_errors == lines.len(),
{
    lemma_lines_counted(lines);
}

/// Counts whose total is below 256 are their own weights.
pub proof fn lemma_small_counts_kept(n: nat, total: nat)
    requires
        total < 256,
    ensures
        scaled(n, total) == n,
{
}

proof fn lemma_scaled_bounds(n: nat, total: nat)
    requires
        total >= 256,
    ensures
        2 * total * scaled(n, total) <= 510 * n + total,
        510 * n + total < 2 * total * scaled(n, total) + 2 * total,
{
    let d = 2 * total;
    let x = 510 * n + total;
    let q = x / d;
    assert(x == d * q + x % d) by (nonlinear_arith)
        requires
            d > 0,
            q == x / d,
    ;
    assert(0 <= x % d < d) by (nonlinear_arith)
        requires
            d > 0,
    ;
    assert(scaled(n, total) == q) by {
        assert(2 * n * 255 + total == x);
    }
    assert(d * q == 2 * total * q);
}

/// Six counts that add up to 256 or more scale to weights that add up to 255, give or take
/// three (each weight is off by at most one half).
pub proof fn lemma_scaled_weights_sum(a: nat, b: nat, c: nat, d: nat, e: nat, f: nat)
    requires
        a + b + c + d + e + f >= 256,
    ensures
        ({
            let t = a + b + c + d + e + f;
            let s = scaled(a, t) + scaled(b, t) + scaled(c, t) + scaled(d, t) + scaled(e, t)
                + scaled(f, t);
            252 <= s <= 258
        }),
{
    let t = a + b + c + d + e + f;
    lemma_scaled_bounds(a, t);
    lemma_scaled_bounds(b, t);
    lemma_scaled_bounds(c, t);
    lemma_scaled_bounds(d, t);
    lemma_scaled_bounds(e, t);
    lemma_scaled_bounds(f, t);
    let s = scaled(a, t) + scaled(b, t) + scaled(c, t) + scaled(d, t) + scaled(e, t) + scaled(f, t);
    assert(2 * t * s <= 510 * t + 6 * t) by (nonlinear_arith)
        requires
            2 * t * scaled(a, t) <= 510 * a + t,
            2 * t * scaled(b, t) <= 510 * b + t,
            2 * t * scaled(c, t) <= 510 * c + t,
            2 * t * scaled(d, t) <= 510 * d + t,
            2 * t * scaled(e, t) <= 510 * e + t,
            2 * t * scaled(f, t) <= 510 * f + t,
            s == scaled(a, t) + scaled(b, t) + scaled(c, t) + scaled(d, t) + scaled(e, t) + scaled(
                f,
                t,
            ),
            t == a + b + c + d + e + f,
    ;
    assert(510 * t + 6 * t < 2 * t * s + 12 * t) by (nonlinear_arith)
        requires
            510 * a + t < 2 * t * scaled(a, t) + 2 * t,
            510 * b + t < 2 * t * scaled(b, t) + 2 * t,
            510 * c + t < 2 * t * scaled(c, t) + 2 * t,
            510 * d + t < 2 * t * scaled(d, t) + 2 * t,
            510 * e + t < 2 * t * scaled(e, t) + 2 * t,
            510 * f + t < 2 * t * scaled(f, t) + 2 * t,
            s == scaled(a, t) + scaled(b, t) + scaled(c, t) + scaled(d, t) + scaled(e, t) + scaled(
                f,
                t,
            ),
            t == a + b + c + d + e + f,
    ;
    assert(s <= 258) by (nonlinear_arith)
        requires
            2 * t * s <= 516 * t,
            t > 0,
    ;
    assert(s >= 252) by (nonlinear_arith)
        requires
            504 * t < 2 * t * s,
            t > 0,
    ;
}

/// Opening a Zstandard-compressed stream reads what opening the decompressed bytes reads,
/// when those bytes are not themselves compressed and the compressed stream is at least
/// header-long: the same container, the same lines and end, the same packets; so
/// `analyze_msgs` gives both readers the same statistics.
pub proof fn lemma_zstd_transparent(compressed: Seq<u8>, plain: Seq<u8>)
    requires
        compressed.len() >= 8,
        has_zstd_magic(compressed),
        zstd_decoded(compressed) == Some(plain),
        !has_zstd_magic(plain),
        plain.len() >= 8,
    ensures
        stream_bytes(compressed) == stream_bytes(plain),
        stream_bytes(compressed) == Some(plain),
        input_outcome(compressed) == input_outcome(plain),
        forall|t: InputType|
            lines_of(stream_bytes(compressed)->Some_0, t) == #[trigger] lines_of(plain, t)
                && packets_of(stream_bytes(compressed)->Some_0, t) == packets_of(plain, t),
        forall|t: InputType|
            stats_of(utf8_prefix(lines_of(stream_bytes(compressed)->Some_0, t).0)) == #[trigger] stats_of(
                utf8_prefix(lines_of(plain, t).0),
            ),
{
}

/// A replay capture's lines end at its first zero-length record: whatever follows it (the
/// tagger state) is never read, and reading on yields nothing more.
pub proof fn lemma_replay_stops_at_zero_record(records: Seq<u8>, pos: nat, tail: Seq<u8>)
    requires
        pos == records.len(),
    ensures
        replay_stream(records + seq![0u8, 0u8, 0u8, 0u8] + tail, pos, false) == (
            Seq::<Seq<u8>>::empty(),
            None::<crate::replay::ReplayReaderError>,
        ),
        forall|s: Seq<u8>, p: nat| #[trigger] replay_stream(s, p, true) == (
            Seq::<Seq<u8>>::empty(),
            None::<crate::replay::ReplayReaderError>,
        ),
{
    let s = records + seq![0u8, 0u8, 0u8, 0u8] + tail;
    let p = pos as int;
    assert(s[p] == 0u8 && s[p + 1] == 0u8 && s[p + 2] == 0u8 && s[p + 3] == 0u8);
}

/// Two lines that are equal, or two metrics that differ at most in the order of their tags
/// (same name, type, number of values and multiset of tags).
pub open spec fn same_up_to_tag_order(a: Seq<u8>, b: Seq<u8>) -> bool {
    a == b || match (parse_spec(a), parse_spec(b)) {
        (Ok(MsgModel::Metric(m1)), Ok(MsgModel::Metric(m2))) => m1.name == m2.name
            && m1.metric_type == m2.metric_type && m1.values.len() == m2.values.len()
            && m1.tags.to_multiset() == m2.tags.to_multiset(),
        _ => false,
    }
}

/// Permuting the tags of metric lines changes neither the contexts of a batch nor its counts.
pub proof fn lemma_tag_order_keeps_contexts(l1: Seq<Seq<u8>>, l2: Seq<Seq<u8>>)
    requires
        l1.len() == l2.len(),
        forall|i: int| 0 <= i < l1.len() ==> same_up_to_tag_order(#[trigger] l1[i], l2[i]),
    ensures
        stats_of(l1).contexts == stats_of(l2).contexts,
        stats_of(l1).num_msgs == stats_of(l2).num_msgs,
        stats_of(l1).num_metrics == stats_of(l2).num_metrics,
        stats_of(l1).metric_types == stats_of(l2).metric_types,
        stats_of(l1).num_msgs_with_multivalue == stats_of(l2).num_msgs_with_multivalue,
        stats_of(l1).num_parse_errors == stats_of(l2).num_parse_errors,
    decreases l1.len(),
{
    if l1.len() > 0 {
        let p1 = l1.drop_last();
        let p2 = l2.drop_last();
        assert forall|i: int| 0 <= i < p1.len() implies same_up_to_tag_order(#[trigger] p1[i], p2[i]) by {
            assert(p1[i] == l1[i] && p2[i] == l2[i]);
        }
        lemma_tag_order_keeps_contexts(p1, p2);
        assert(same_up_to_tag_order(l1[l1.len() - 1], l2[l2.len() - 1]));
    }
}

} // verus!
