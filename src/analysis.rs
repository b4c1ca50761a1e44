use vstd::multiset::Multiset;
use vstd::prelude::*;

use crate::dogstatsdmsg::{
    DogStatsDMetricType, DogStatsDMsg, MsgModel, parse_spec,
};
use crate::dogstatsdreader::{Analytics, DogStatsDReader};
use crate::scan::{bytes_eq, copy_bytes, views};
use vstd::utf8::valid_utf8;
use vstd::string::StringSliceAdditionalSpecFns;

verus! {

broadcast use vstd::seq_lib::group_to_multiset_ensures;

/// A metric's context: its name and the multiset of its tags. Tag order does not matter,
/// repeated tags do.
pub type ContextModel = (Seq<u8>, Multiset<Seq<u8>>);

pub open spec fn context_of(name: Seq<u8>, tags: Seq<Seq<u8>>) -> ContextModel {
    (name, tags.to_multiset())
}

pub open spec fn owned_views(v: Seq<Vec<u8>>) -> Seq<Seq<u8>> {
    Seq::new(v.len(), |i: int| v[i]@)
}

/// A context seen by the analyzer, held as owned bytes.
pub struct Context {
    pub name: Vec<u8>,
    pub tags: Vec<Vec<u8>>,
}

impl View for Context {
    type V = ContextModel;

    open spec fn view(&self) -> ContextModel {
        context_of(self.name@, owned_views(self.tags@))
    }
}

pub open spec fn context_views(cs: Seq<Context>) -> Seq<ContextModel> {
    Seq::new(cs.len(), |i: int| cs[i]@)
}

/// Counts per metric type.
#[derive(Debug, Clone, Copy, PartialEq, Eq, Structural)]
pub struct MetricTypeCounts {
    pub count: u64,
    pub gauge: u64,
    pub histogram: u64,
    pub timer: u64,
    pub set: u64,
    pub distribution: u64,
}

pub open spec fn type_total(c: MetricTypeCounts) -> nat {
    (c.count + c.gauge + c.histogram + c.timer + c.set + c.distribution) as nat
}

pub open spec fn bump_type(c: MetricTypeCounts, t: DogStatsDMetricType) -> MetricTypeCounts {
    match t {
        DogStatsDMetricType::Count => MetricTypeCounts { count: (c.count + 1) as u64, ..c },
        DogStatsDMetricType::Gauge => MetricTypeCounts { gauge: (c.gauge + 1) as u64, ..c },
        DogStatsDMetricType::Histogram => MetricTypeCounts {
            histogram: (c.histogram + 1) as u64,
            ..c
        },
        DogStatsDMetricType::Timer => MetricTypeCounts { timer: (c.timer + 1) as u64, ..c },
        DogStatsDMetricType::SetMetric => MetricTypeCounts { set: (c.set + 1) as u64, ..c },
        DogStatsDMetricType::Distribution => MetricTypeCounts {
            distribution: (c.distribution + 1) as u64,
            ..c
        },
    }
}

/// Statistics of a batch of DogStatsD lines: counts per kind and per metric type, the
/// lines that did not parse, the distinct metric contexts and the distinct tags.
pub struct DogStatsDBatchStats {
    pub num_msgs: u64,
    pub num_metrics: u64,
    pub num_events: u64,
    pub num_service_checks: u64,
    pub num_parse_errors: u64,
    pub metric_types: MetricTypeCounts,
    pub num_msgs_with_multivalue: u64,
    pub contexts: Vec<Context>,
    pub unique_tags: Vec<Vec<u8>>,
    /// Counters of the packet stream the lines came from, for packet captures.
    pub reader_analytics: Option<Analytics>,
}

/// What recording one more line adds to the statistics.
pub struct StatsModel {
    pub num_msgs: nat,
    pub num_metrics: nat,
    pub num_events: nat,
    pub num_service_checks: nat,
    pub num_parse_errors: nat,
    pub metric_types: MetricTypeCounts,
    pub num_msgs_with_multivalue: nat,
    pub contexts: Set<ContextModel>,
    pub unique_tags: Set<Seq<u8>>,
}

pub open spec fn empty_stats() -> StatsModel {
    StatsModel {
        num_msgs: 0,
        num_metrics: 0,
        num_events: 0,
        num_service_checks: 0,
        num_parse_errors: 0,
        metric_types: MetricTypeCounts {
            count: 0,
            gauge: 0,
            histogram: 0,
            timer: 0,
            set: 0,
            distribution: 0,
        },
        num_msgs_with_multivalue: 0,
        contexts: Set::empty(),
        unique_tags: Set::empty(),
    }
}

/// The statistics after one more line. A line that parses counts as a message and under its
/// kind; a line that does not parse counts only as a parse error.
pub open spec fn record_step(st: StatsModel, line: Seq<u8>) -> StatsModel {
    let st1 = StatsModel { num_msgs: st.num_msgs + 1, ..st };
    match parse_spec(line) {
        Ok(MsgModel::Metric(m)) => StatsModel {
            num_metrics: st.num_metrics + 1,
            metric_types: bump_type(st.metric_types, m.metric_type),
            num_msgs_with_multivalue: if m.values.len() > 1 {
                st.num_msgs_with_multivalue + 1
            } else {
                st.num_msgs_with_multivalue
            },
            contexts: st.contexts.insert(context_of(m.name, m.tags)),
            unique_tags: st.unique_tags + m.tags.to_set(),
            ..st1
        },
        Ok(MsgModel::Event(_)) => StatsModel { num_events: st.num_events + 1, ..st1 },
        Ok(MsgModel::ServiceCheck(_)) => StatsModel {
            num_service_checks: st.num_service_checks + 1,
            ..st1
        },
        Err(_) => StatsModel { num_parse_errors: st.num_parse_errors + 1, ..st },
    }
}

/// The statistics of a sequence of lines.
pub open spec fn stats_of(lines: Seq<Seq<u8>>) -> StatsModel
    decreases lines.len(),
{
    if lines.len() == 0 {
        empty_stats()
    } else {
        record_step(stats_of(lines.drop_last()), lines.last())
    }
}

impl View for DogStatsDBatchStats {
    type V = StatsModel;

    open spec fn view(&self) -> StatsModel {
        StatsModel {
            num_msgs: self.num_msgs as nat,
            num_metrics: self.num_metrics as nat,
            num_events: self.num_events as nat,
            num_service_checks: self.num_service_checks as nat,
            num_parse_errors: self.num_parse_errors as nat,
            metric_types: self.metric_types,
            num_msgs_with_multivalue: self.num_msgs_with_multivalue as nat,
            contexts: context_views(self.contexts@).to_set(),
            unique_tags: owned_views(self.unique_tags@).to_set(),
        }
    }
}

proof fn lemma_push_to_set<A>(s: Seq<A>, x: A)
    ensures
        s.push(x).to_set() == s.to_set().insert(x),
{
    assert(s.push(x) =~= s + seq![x]);
    Seq::lemma_to_set_insert_commutes(s, x);
}

/// How often `x` occurs among borrowed byte strings.
fn count_borrowed(v: &Vec<&[u8]>, x: &[u8]) -> (r: u64)
    ensures
        r as nat == views(v@).to_multiset().count(x@),
{
    let ghost vs = views(v@);
    let mut r: u64 = 0;
    let mut i: usize = 0;
    proof {
        vstd::multiset::lemma_multiset_empty_len(vs.subrange(0, 0).to_multiset());
    }
    while i < v.len()
        invariant
            i <= v.len(),
            vs == views(v@),
            r as nat == vs.subrange(0, i as int).to_multiset().count(x@),
            r <= i,
        decreases v.len() - i,
    {
        assert(vs.subrange(0, i + 1) =~= vs.subrange(0, i as int).push(vs[i as int]));
        assert(vs[i as int] == v[i as int]@);
        if bytes_eq(v[i], x) {
            r = r + 1;
        }
        i = i + 1;
    }
    assert(vs.subrange(0, v.len() as int) =~= vs);
    r
}

/// How often `x` occurs among owned byte strings.
fn count_owned(v: &Vec<Vec<u8>>, x: &[u8]) -> (r: u64)
    ensures
        r as nat == owned_views(v@).to_multiset().count(x@),
{
    let ghost vs = owned_views(v@);
    let mut r: u64 = 0;
    let mut i: usize = 0;
    proof {
        vstd::multiset::lemma_multiset_empty_len(vs.subrange(0, 0).to_multiset());
    }
    while i < v.len()
        invariant
            i <= v.len(),
            vs == owned_views(v@),
            r as nat == vs.subrange(0, i as int).to_multiset().count(x@),
            r <= i,
        decreases v.len() - i,
    {
        assert(vs.subrange(0, i + 1) =~= vs.subrange(0, i as int).push(vs[i as int]));
        assert(vs[i as int] == v[i as int]@);
        if bytes_eq(v[i].as_slice(), x) {
            r = r + 1;
        }
        i = i + 1;
    }
    assert(vs.subrange(0, v.len() as int) =~= vs);
    r
}

/// Whether the owned tags and the borrowed tags form the same multiset.
fn same_tags(owned: &Vec<Vec<u8>>, tags: &Vec<&[u8]>) -> (r: bool)
    ensures
        r == (owned_views(owned@).to_multiset() == views(tags@).to_multiset()),
{
    let ghost a = owned_views(owned@).to_multiset();
    let ghost b = views(tags@).to_multiset();
    let mut i: usize = 0;
    while i < owned.len()
        invariant
            i <= owned.len(),
            a == owned_views(owned@).to_multiset(),
            b == views(tags@).to_multiset(),
            forall|j: int| 0 <= j < i ==> a.count(#[trigger] owned_views(owned@)[j]) == b.count(
                owned_views(owned@)[j],
            ),
        decreases owned.len() - i,
    {
        let x = owned[i].as_slice();
        assert(owned_views(owned@)[i as int] == x@);
        if count_owned(owned, x) != count_borrowed(tags, x) {
            return false;
        }
        i = i + 1;
    }
    let mut k: usize = 0;
    while k < tags.len()
        invariant
            k <= tags.len(),
            a == owned_views(owned@).to_multiset(),
            b == views(tags@).to_multiset(),
            forall|j: int| 0 <= j < owned@.len() ==> a.count(#[trigger] owned_views(owned@)[j]) == b.count(
                owned_views(owned@)[j],
            ),
            forall|j: int| 0 <= j < k ==> a.count(#[trigger] views(tags@)[j]) == b.count(
                views(tags@)[j],
            ),
        decreases tags.len() - k,
    {
        let x = tags[k];
        assert(views(tags@)[k as int] == x@);
        if count_owned(owned, x) != count_borrowed(tags, x) {
            return false;
        }
        k = k + 1;
    }
    proof {
        assert forall|y: Seq<u8>| a.count(y) == b.count(y) by {
            if a.count(y) > 0 {
                assert(owned_views(owned@).contains(y));
            } else if b.count(y) > 0 {
                assert(views(tags@).contains(y));
            }
        }
        assert(a =~= b);
    }
    true
}

fn same_context(c: &Context, name: &[u8], tags: &Vec<&[u8]>) -> (r: bool)
    ensures
        r == (c@ == context_of(name@, views(tags@))),
{
    bytes_eq(c.name.as_slice(), name) && same_tags(&c.tags, tags)
}

fn owned_tags(tags: &Vec<&[u8]>) -> (r: Vec<Vec<u8>>)
    ensures
        owned_views(r@) == views(tags@),
{
    let mut r: Vec<Vec<u8>> = Vec::new();
    let mut i: usize = 0;
    while i < tags.len()
        invariant
            i <= tags.len(),
            owned_views(r@) == views(tags@).subrange(0, i as int),
        decreases tags.len() - i,
    {
        let t = copy_bytes(tags[i]);
        assert(views(tags@)[i as int] == tags[i as int]@);
        let ghost prev = owned_views(r@);
        let ghost tv = t@;
        r.push(t);
        assert(owned_views(r@) =~= prev.push(tv));
        i = i + 1;
        assert(owned_views(r@) =~= views(tags@).subrange(0, i as int));
    }
    r
}

impl DogStatsDBatchStats {
    /// Statistics of no lines.
    pub fn new() -> (r: Self)
        ensures
            r.wf(),
            r@ == empty_stats(),
    {
        let r = DogStatsDBatchStats {
            num_msgs: 0,
            num_metrics: 0,
            num_events: 0,
            num_service_checks: 0,
            num_parse_errors: 0,
            metric_types: MetricTypeCounts {
                count: 0,
                gauge: 0,
                histogram: 0,
                timer: 0,
                set: 0,
                distribution: 0,
            },
            num_msgs_with_multivalue: 0,
            contexts: Vec::new(),
            unique_tags: Vec::new(),
            reader_analytics: None,
        };
        assert(context_views(r.contexts@).to_set() =~= Set::empty());
        assert(owned_views(r.unique_tags@).to_set() =~= Set::empty());
        r
    }

    /// The messages are the metrics, events and service checks; metric types add up to the
    /// metrics; no context and no tag is held twice.
    pub open spec fn wf(&self) -> bool {
        &&& self.num_metrics + self.num_events + self.num_service_checks == self.num_msgs
        &&& type_total(self.metric_types) == self.num_metrics
        &&& self.num_msgs_with_multivalue <= self.num_metrics
        &&& context_views(self.contexts@).no_duplicates()
        &&& owned_views(self.unique_tags@).no_duplicates()
        &&& self.contexts@.len() <= self.num_metrics
    }

    /// Number of distinct contexts seen.
    pub fn num_contexts(&self) -> (r: usize)
        requires
            self.wf(),
        ensures
            r == self@.contexts.len(),
    {
        proof {
            context_views(self.contexts@).unique_seq_to_set();
        }
        self.contexts.len()
    }

    /// Number of distinct tags seen.
    pub fn total_unique_tags(&self) -> (r: usize)
        requires
            self.wf(),
        ensures
            r == self@.unique_tags.len(),
    {
        proof {
            owned_views(self.unique_tags@).unique_seq_to_set();
        }
        self.unique_tags.len()
    }

    fn add_context(&mut self, name: &[u8], tags: &Vec<&[u8]>)
        requires
            context_views(old(self).contexts@).no_duplicates(),
        ensures
            context_views(final(self).contexts@).no_duplicates(),
            context_views(final(self).contexts@).to_set() == context_views(
                old(self).contexts@,
            ).to_set().insert(context_of(name@, views(tags@))),
            final(self).contexts@.len() <= old(self).contexts@.len() + 1,
            final(self).num_msgs == old(self).num_msgs,
            final(self).num_metrics == old(self).num_metrics,
            final(self).num_events == old(self).num_events,
            final(self).num_service_checks == old(self).num_service_checks,
            final(self).num_parse_errors == old(self).num_parse_errors,
            final(self).metric_types == old(self).metric_types,
            final(self).num_msgs_with_multivalue == old(self).num_msgs_with_multivalue,
            final(self).unique_tags == old(self).unique_tags,
    {
        let ghost cv = context_views(self.contexts@);
        let ghost key = context_of(name@, views(tags@));
        let mut i: usize = 0;
        while i < self.contexts.len()
            invariant
                i <= self.contexts.len(),
                *self == *old(self),
                key == context_of(name@, views(tags@)),
                context_views(self.contexts@).no_duplicates(),
                cv == context_views(self.contexts@),
                forall|j: int| 0 <= j < i ==> cv[j] != key,
            decreases self.contexts.len() - i,
        {
            let c = &self.contexts[i];
            assert(cv[i as int] == c@);
            if same_context(c, name, tags) {
                proof {
                    assert(cv[i as int] == key);
                    assert(cv.contains(key));
                    assert(cv.to_set().insert(key) =~= cv.to_set());
                }
                return;
            }
            i = i + 1;
        }
        let c = Context { name: copy_bytes(name), tags: owned_tags(tags) };
        assert(c@ == key);
        self.contexts.push(c);
        assert(context_views(self.contexts@) =~= cv.push(key));
        proof {
            lemma_push_to_set(cv, key);
        }
    }

    fn add_tags(&mut self, tags: &Vec<&[u8]>)
        requires
            owned_views(old(self).unique_tags@).no_duplicates(),
        ensures
            owned_views(final(self).unique_tags@).no_duplicates(),
            owned_views(final(self).unique_tags@).to_set() == owned_views(
                old(self).unique_tags@,
            ).to_set() + views(tags@).to_set(),
            final(self).num_msgs == old(self).num_msgs,
            final(self).num_metrics == old(self).num_metrics,
            final(self).num_events == old(self).num_events,
            final(self).num_service_checks == old(self).num_service_checks,
            final(self).num_parse_errors == old(self).num_parse_errors,
            final(self).metric_types == old(self).metric_types,
            final(self).num_msgs_with_multivalue == old(self).num_msgs_with_multivalue,
            final(self).contexts == old(self).contexts,
    {
        let ghost start = owned_views(self.unique_tags@).to_set();
        let mut k: usize = 0;
        while k < tags.len()
            invariant
                k <= tags.len(),
                owned_views(self.unique_tags@).no_duplicates(),
                owned_views(self.unique_tags@).to_set() == start + views(tags@).subrange(
                    0,
                    k as int,
                ).to_set(),
                self.num_msgs == old(self).num_msgs,
                self.num_metrics == old(self).num_metrics,
                self.num_events == old(self).num_events,
                self.num_service_checks == old(self).num_service_checks,
                self.num_parse_errors == old(self).num_parse_errors,
                self.metric_types == old(self).metric_types,
                self.num_msgs_with_multivalue == old(self).num_msgs_with_multivalue,
                self.contexts == old(self).contexts,
            decreases tags.len() - k,
        {
            let t = tags[k];
            let ghost uv = owned_views(self.unique_tags@);
            assert(views(tags@).subrange(0, k + 1) =~= views(tags@).subrange(0, k as int).push(
                t@,
            ));
            assert(views(tags@)[k as int] == t@);
            proof {
                lemma_push_to_set(views(tags@).subrange(0, k as int), t@);
            }
            let seen = count_owned(&self.unique_tags, t) > 0;
            if seen {
                assert(uv.contains(t@));
                assert(uv.to_set().insert(t@) =~= uv.to_set());
            } else {
                assert(!uv.contains(t@));
                self.unique_tags.push(copy_bytes(t));
                assert(owned_views(self.unique_tags@) =~= uv.push(t@));
                proof {
                    lemma_push_to_set(uv, t@);
                }
            }
            k = k + 1;
            assert(owned_views(self.unique_tags@).to_set() =~= start + views(tags@).subrange(
                0,
                k as int,
            ).to_set());
        }
        assert(views(tags@).subrange(0, tags.len() as int) =~= views(tags@));
    }

    /// Records one line.
    pub fn record(&mut self, line: &str)
        requires
            old(self).wf(),
            old(self).num_msgs < u64::MAX,
            old(self).num_parse_errors < u64::MAX,
        ensures
            final(self).wf(),
            final(self)@ == record_step(old(self)@, line.spec_bytes()),
    {
        match DogStatsDMsg::new(line) {
            Ok(DogStatsDMsg::Metric(m)) => {
                self.num_metrics = self.num_metrics + 1;
                match m.metric_type {
                    DogStatsDMetricType::Count => {
                        self.metric_types.count = self.metric_types.count + 1;
                    },
                    DogStatsDMetricType::Gauge => {
                        self.metric_types.gauge = self.metric_types.gauge + 1;
                    },
                    DogStatsDMetricType::Histogram => {
                        self.metric_types.histogram = self.metric_types.histogram + 1;
                    },
                    DogStatsDMetricType::Timer => {
                        self.metric_types.timer = self.metric_types.timer + 1;
                    },
                    DogStatsDMetricType::SetMetric => {
                        self.metric_types.set = self.metric_types.set + 1;
                    },
                    DogStatsDMetricType::Distribution => {
                        self.metric_types.distribution = self.metric_types.distribution + 1;
                    },
                }
                if m.values.len() > 1 {
                    self.num_msgs_with_multivalue = self.num_msgs_with_multivalue + 1;
                }
                assert(views(m.values@).len() == m.values@.len());
                self.add_context(m.name, &m.tags);
                self.add_tags(&m.tags);
            },
            Ok(DogStatsDMsg::Event(_)) => {
                self.num_events = self.num_events + 1;
            },
            Ok(DogStatsDMsg::ServiceCheck(_)) => {
                self.num_service_checks = self.num_service_checks + 1;
            },
            Err(_) => {
                self.num_parse_errors = self.num_parse_errors + 1;
                return;
            },
        }
        self.num_msgs = self.num_msgs + 1;
    }
}

/// Relative weights that fit a `u8` each, in the order count, gauge, timer, distribution,
/// set, histogram.
#[derive(Debug, Clone, Copy, PartialEq, Eq, Structural)]
pub struct MetricWeights {
    pub count: u8,
    pub gauge: u8,
    pub timer: u8,
    pub distribution: u8,
    pub set: u8,
    pub histogram: u8,
}

impl MetricWeights {
    pub fn new(count: u8, gauge: u8, timer: u8, distribution: u8, set: u8, histogram: u8) -> (r:
        Self)
        ensures
            r == (MetricWeights { count, gauge, timer, distribution, set, histogram }),
    {
        MetricWeights { count, gauge, timer, distribution, set, histogram }
    }
}

/// Relative weights of metrics, events and service checks.
#[derive(Debug, Clone, Copy, PartialEq, Eq, Structural)]
pub struct KindWeights {
    pub metric: u8,
    pub event: u8,
    pub service_check: u8,
}

impl KindWeights {
    pub fn new(metric: u8, event: u8, service_check: u8) -> (r: Self)
        ensures
            r == (KindWeights { metric, event, service_check }),
    {
        KindWeights { metric, event, service_check }
    }
}

/// A count out of `total`, as a weight: the count itself when the total is below 256,
/// else `n / (total / 255)` rounded half away from zero.
pub open spec fn scaled(n: nat, total: nat) -> nat {
    if total < 256 {
        n
    } else {
        (2 * n * 255 + total) / (2 * total)
    }
}

fn scale(n: u64, total: u128) -> (r: u8)
    requires
        n <= total,
        total <= 6 * (u64::MAX as u128),
    ensures
        r as nat == scaled(n as nat, total as nat),
{
    if total < 256 {
        n as u8
    } else {
        let q = (2 * (n as u128) * 255 + total) / (2 * total);
        assert(q <= 255) by (nonlinear_arith)
            requires
                q == (2 * (n as u128) * 255 + total) / (2 * total),
                n <= total,
                total >= 256,
        ;
        q as u8
    }
}

impl DogStatsDBatchStats {
    /// Weights of the six metric types, in proportion to how often each was seen.
    pub fn get_metric_weights(&self) -> (r: MetricWeights)
        ensures
            ({
                let c = self.metric_types;
                let total = type_total(c);
                r.count as nat == scaled(c.count as nat, total) && r.gauge as nat == scaled(
                    c.gauge as nat,
                    total,
                ) && r.timer as nat == scaled(c.timer as nat, total) && r.distribution as nat
                    == scaled(c.distribution as nat, total) && r.set as nat == scaled(
                    c.set as nat,
                    total,
                ) && r.histogram as nat == scaled(c.histogram as nat, total)
            }),
    {
        let c = self.metric_types;
        let total: u128 = c.count as u128 + c.gauge as u128 + c.histogram as u128 + c.timer as u128
            + c.set as u128 + c.distribution as u128;
        MetricWeights::new(
            scale(c.count, total),
            scale(c.gauge, total),
            scale(c.timer, total),
            scale(c.distribution, total),
            scale(c.set, total),
            scale(c.histogram, total),
        )
    }

    /// Weights of the three message kinds, in proportion to how often each was seen.
    pub fn get_kind_weights(&self) -> (r: KindWeights)
        ensures
            ({
                let total = (self.num_metrics + self.num_events + self.num_service_checks) as nat;
                r.metric as nat == scaled(self.num_metrics as nat, total) && r.event as nat
                    == scaled(self.num_events as nat, total) && r.service_check as nat == scaled(
                    self.num_service_checks as nat,
                    total,
                )
            }),
    {
        let total: u128 = self.num_metrics as u128 + self.num_events as u128
            + self.num_service_checks as u128;
        KindWeights::new(
            scale(self.num_metrics, total),
            scale(self.num_events, total),
            scale(self.num_service_checks, total),
        )
    }
}

proof fn lemma_stats_of_push(lines: Seq<Seq<u8>>, l: Seq<u8>)
    ensures
        stats_of(lines.push(l)) == record_step(stats_of(lines), l),
{
    assert(lines.push(l).drop_last() =~= lines);
}

/// Every line counts once: as a message (a metric, an event or a service check) or as a
/// parse error.
pub proof fn lemma_lines_counted(lines: Seq<Seq<u8>>)
    ensures
        stats_of(lines).num_msgs == stats_of(lines).num_metrics + stats_of(lines).num_events
            + stats_of(lines).num_service_checks,
        stats_of(lines).num_msgs + stats_of(lines).num_parse_errors == lines.len(),
    decreases lines.len(),
{
    if lines.len() > 0 {
        lemma_lines_counted(lines.drop_last());
    }
}

/// The lines before the first one that is not UTF-8.
pub open spec fn utf8_prefix(lines: Seq<Seq<u8>>) -> Seq<Seq<u8>>
    decreases lines.len(),
{
    if lines.len() == 0 || !valid_utf8(lines[0]) {
        Seq::empty()
    } else {
        seq![lines[0]] + utf8_prefix(lines.drop_first())
    }
}

proof fn lemma_utf8_prefix_len(lines: Seq<Seq<u8>>)
    ensures
        utf8_prefix(lines).len() <= lines.len(),
    decreases lines.len(),
{
    if lines.len() > 0 && valid_utf8(lines[0]) {
        lemma_utf8_prefix_len(lines.drop_first());
    }
}

/// Reads every line of `reader` and gathers their statistics. Reading stops at the end of
/// the stream, at the first read error (a line that is not UTF-8, or a container error), or
/// after `u64::MAX` lines. The result is the statistics of the lines before the first one
/// that is not UTF-8.
pub fn analyze_msgs(reader: &mut DogStatsDReader) -> (r: DogStatsDBatchStats)
    requires
        old(reader).wf(),
    ensures
        r.wf(),
        utf8_prefix(old(reader).remaining()).len() < u64::MAX ==> r@ == stats_of(
            utf8_prefix(old(reader).remaining()),
        ),
{
    broadcast use vstd::utf8::encode_utf8_valid_utf8;

    let mut stats = DogStatsDBatchStats::new();
    let mut line = String::new();
    let mut seen: u64 = 0;
    let ghost all = reader.remaining();
    let ghost mut consumed: Seq<Seq<u8>> = Seq::empty();
    assert(consumed + all =~= all);
    assert(utf8_prefix(all) =~= consumed + utf8_prefix(all));
    loop
        invariant
            stats.wf(),
            reader.wf(),
            all == old(reader).remaining(),
            consumed + reader.remaining() == all,
            utf8_prefix(all) == consumed + utf8_prefix(reader.remaining()),
            stats@ == stats_of(consumed),
            seen == consumed.len(),
        ensures
            utf8_prefix(all).len() < u64::MAX ==> stats@ == stats_of(utf8_prefix(all)),
        decreases u64::MAX - seen,
    {
        if seen == u64::MAX {
            proof {
                lemma_utf8_prefix_len(reader.remaining());
            }
            break;
        }
        proof {
            lemma_lines_counted(consumed);
        }
        let ghost before = reader.remaining();
        match reader.read_msg(&mut line) {
            Ok(n) => {
                if n == 0 {
                    proof {
                        assert(before.len() == 0);
                        assert(consumed + before =~= consumed);
                        assert(utf8_prefix(before) =~= Seq::<Seq<u8>>::empty());
                    }
                    break;
                }
                proof {
                    lemma_stats_of_push(consumed, before[0]);
                    assert(vstd::utf8::encode_utf8(line@) == before[0]);
                    vstd::utf8::encode_utf8_valid_utf8(line@);
                    assert(valid_utf8(before[0]));
                    assert(utf8_prefix(before) == seq![before[0]] + utf8_prefix(before.drop_first()));
                    assert(consumed.push(before[0]) + before.drop_first() =~= consumed + before);
                    assert(consumed + (seq![before[0]] + utf8_prefix(before.drop_first()))
                        =~= consumed.push(before[0]) + utf8_prefix(before.drop_first()));
                }
                stats.record(line.as_str());
                seen = seen + 1;
                proof {
                    consumed = consumed.push(before[0]);
                }
            },
            Err(_) => {
                proof {
                    assert(utf8_prefix(before) =~= Seq::<Seq<u8>>::empty());
                    assert(consumed + Seq::<Seq<u8>>::empty() =~= consumed);
                }
                break;
            },
        }
    }
    stats.reader_analytics = reader.get_analytics();
    stats
}

} // verus!
