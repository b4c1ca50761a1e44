use vstd::prelude::*;
use vstd::slice::slice_subrange;
use vstd::string::StringSliceAdditionalSpecFns;

use crate::scan::{
    bytes_eq, copy_bytes, decimal_value, find_byte, first_index, has_prefix, is_float_literal,
    is_float_text, is_unsigned_literal, lemma_split_nonempty, parse_unsigned,
    split, split_bytes, starts_with, trim_end, trim_end_bytes, unsigned_digits, views,
};

verus! {

pub const PIPE: u8 = 0x7C;

pub const COLON: u8 = 0x3A;

pub const COMMA: u8 = 0x2C;

pub const HASH: u8 = 0x23;

pub const LBRACE: u8 = 0x7B;

pub const RBRACE: u8 = 0x7D;

#[derive(Debug, PartialEq, Eq, Clone, Copy, Hash, Structural)]
pub enum DogStatsDMsgKind {
    Metric,
    ServiceCheck,
    Event,
}

impl DogStatsDMsgKind {
    /// The kind's name.
    pub fn name(&self) -> &'static str {
        match self {
            DogStatsDMsgKind::Metric => "Metric",
            DogStatsDMsgKind::ServiceCheck => "ServiceCheck",
            DogStatsDMsgKind::Event => "Event",
        }
    }
}

/// Why a line was refused.
#[derive(Debug, PartialEq, Eq, Clone, Copy, Structural)]
pub enum ParseErrorReason {
    NameOrValueMissing,
    InvalidValue,
    NoMetricType,
    TooManyCharsForMetricType,
    InvalidMetricType,
    NoOpeningBrace,
    NoClosingBrace,
    InvalidTitleLength,
    InvalidTextLength,
    TitleLengthOverrun,
    TextLengthOverrun,
    NoPipeAfterText,
    UnknownEventField,
    UnexpectedServiceCheckPrefix,
    MissingServiceCheckName,
    MissingServiceCheckStatus,
    InvalidServiceCheckStatus,
    UnknownServiceCheckField,
}

impl ParseErrorReason {
    /// A sentence that describes the reason.
    pub fn text(&self) -> &'static str {
        match self {
            ParseErrorReason::NameOrValueMissing => "Name or value missing",
            ParseErrorReason::InvalidValue => "Invalid or no value found",
            ParseErrorReason::NoMetricType => "No metric type found",
            ParseErrorReason::TooManyCharsForMetricType => "Too many chars for metric type",
            ParseErrorReason::InvalidMetricType => "Invalid metric type found.",
            ParseErrorReason::NoOpeningBrace => "No opening brace found",
            ParseErrorReason::NoClosingBrace => "No closing brace found",
            ParseErrorReason::InvalidTitleLength => "Invalid title length specified",
            ParseErrorReason::InvalidTextLength => "Invalid text length specified",
            ParseErrorReason::TitleLengthOverrun => "Title length specified is longer than msg length",
            ParseErrorReason::TextLengthOverrun => "Text length specified is longer than msg length",
            ParseErrorReason::NoPipeAfterText =>
                "data present after title and text, but did not start with a pipe",
            ParseErrorReason::UnknownEventField => "Unknown event field value found",
            ParseErrorReason::UnexpectedServiceCheckPrefix =>
                "Unexpected prefix found for service check",
            ParseErrorReason::MissingServiceCheckName => "Not enough fields, couldn't find name",
            ParseErrorReason::MissingServiceCheckStatus => "Not enough fields, couldn't find status",
            ParseErrorReason::InvalidServiceCheckStatus => "Invalid status found.",
            ParseErrorReason::UnknownServiceCheckField => "Unknown servicecheck field value found",
        }
    }
}

#[derive(Debug, PartialEq)]
pub enum DogStatsDMsgError {
    ParseError { kind: DogStatsDMsgKind, reason: ParseErrorReason, raw_msg: Vec<u8> },
}

/// What a parse error records: the kind of line, the reason and the line itself.
pub struct ErrorModel {
    pub kind: DogStatsDMsgKind,
    pub reason: ParseErrorReason,
    pub raw: Seq<u8>,
}

impl View for DogStatsDMsgError {
    type V = ErrorModel;

    open spec fn view(&self) -> ErrorModel {
        match self {
            DogStatsDMsgError::ParseError { kind, reason, raw_msg } => ErrorModel {
                kind: *kind,
                reason: *reason,
                raw: raw_msg@,
            },
        }
    }
}

impl DogStatsDMsgError {
    pub fn new_parse_error(kind: DogStatsDMsgKind, reason: ParseErrorReason, raw_msg: Vec<u8>) -> (r:
        Self)
        ensures
            r@ == (ErrorModel { kind, reason, raw: raw_msg@ }),
    {
        DogStatsDMsgError::ParseError { kind, reason, raw_msg }
    }
}

fn fail<'a, T>(kind: DogStatsDMsgKind, reason: ParseErrorReason, raw: &[u8]) -> (r: Result<
    T,
    DogStatsDMsgError,
>)
    ensures
        r matches Err(e) && e@ == (ErrorModel { kind, reason, raw: raw@ }),
{
    Err(DogStatsDMsgError::new_parse_error(kind, reason, copy_bytes(raw)))
}

#[derive(Debug, PartialEq, Eq, Clone, Copy, Hash, Structural)]
pub enum DogStatsDMetricType {
    Count,
    Gauge,
    Histogram,
    Timer,
    SetMetric,
    Distribution,
}

/// The metric type that a type field names: `c`, `g`, `h`, `ms`, `s` or `d`.
pub open spec fn metric_type_of(t: Seq<u8>) -> Option<DogStatsDMetricType> {
    if t == seq![0x63u8] {
        Some(DogStatsDMetricType::Count)
    } else if t == seq![0x67u8] {
        Some(DogStatsDMetricType::Gauge)
    } else if t == seq![0x68u8] {
        Some(DogStatsDMetricType::Histogram)
    } else if t == seq![0x6Du8, 0x73u8] {
        Some(DogStatsDMetricType::Timer)
    } else if t == seq![0x73u8] {
        Some(DogStatsDMetricType::SetMetric)
    } else if t == seq![0x64u8] {
        Some(DogStatsDMetricType::Distribution)
    } else {
        None
    }
}

impl DogStatsDMetricType {
    /// Reads a metric type field.
    pub fn from_bytes(t: &[u8]) -> (r: Option<Self>)
        ensures
            r == metric_type_of(t@),
    {
        if t.len() == 1 {
            let b = t[0];
            if b == 0x63 {
                assert(t@ =~= seq![0x63u8]);
                Some(DogStatsDMetricType::Count)
            } else if b == 0x67 {
                assert(t@ =~= seq![0x67u8]);
                Some(DogStatsDMetricType::Gauge)
            } else if b == 0x68 {
                assert(t@ =~= seq![0x68u8]);
                Some(DogStatsDMetricType::Histogram)
            } else if b == 0x73 {
                assert(t@ =~= seq![0x73u8]);
                Some(DogStatsDMetricType::SetMetric)
            } else if b == 0x64 {
                assert(t@ =~= seq![0x64u8]);
                Some(DogStatsDMetricType::Distribution)
            } else {
                None
            }
        } else if t.len() == 2 && t[0] == 0x6D && t[1] == 0x73 {
            assert(t@ =~= seq![0x6Du8, 0x73u8]);
            Some(DogStatsDMetricType::Timer)
        } else {
            None
        }
    }

    /// Reads a metric type field given as text.
    pub fn from_str(s: &str) -> (r: Result<Self, ()>)
        ensures
            match r {
                Ok(t) => metric_type_of(s.spec_bytes()) == Some(t),
                Err(_) => metric_type_of(s.spec_bytes()) is None,
            },
    {
        match Self::from_bytes(s.as_bytes()) {
            Some(t) => Ok(t),
            None => Err(()),
        }
    }

    /// The type's name.
    pub fn name(&self) -> &'static str {
        match self {
            DogStatsDMetricType::Count => "Count",
            DogStatsDMetricType::Gauge => "Gauge",
            DogStatsDMetricType::Histogram => "Histogram",
            DogStatsDMetricType::Timer => "Timer",
            DogStatsDMetricType::SetMetric => "Set",
            DogStatsDMetricType::Distribution => "Distribution",
        }
    }
}

/// Status of a service check: OK = 0, WARNING = 1, CRITICAL = 2, UNKNOWN = 3.
#[derive(Debug, PartialEq, Eq, Clone, Copy, Structural)]
pub enum ServiceCheckStatus {
    Okay,
    Warning,
    Critical,
    Unknown,
}

pub open spec fn status_of(t: Seq<u8>) -> Option<ServiceCheckStatus> {
    if t == seq![0x30u8] {
        Some(ServiceCheckStatus::Okay)
    } else if t == seq![0x31u8] {
        Some(ServiceCheckStatus::Warning)
    } else if t == seq![0x32u8] {
        Some(ServiceCheckStatus::Critical)
    } else if t == seq![0x33u8] {
        Some(ServiceCheckStatus::Unknown)
    } else {
        None
    }
}

impl ServiceCheckStatus {
    /// Reads a status field: one of the digits 0 to 3.
    pub fn from_bytes(t: &[u8]) -> (r: Option<Self>)
        ensures
            r == status_of(t@),
    {
        if t.len() != 1 {
            return None;
        }
        assert(t@ =~= seq![t[0]]);
        if t[0] == 0x30 {
            Some(ServiceCheckStatus::Okay)
        } else if t[0] == 0x31 {
            Some(ServiceCheckStatus::Warning)
        } else if t[0] == 0x32 {
            Some(ServiceCheckStatus::Critical)
        } else if t[0] == 0x33 {
            Some(ServiceCheckStatus::Unknown)
        } else {
            None
        }
    }
}

#[derive(Debug, PartialEq, Eq, Clone, Copy, Structural)]
pub enum EventAlert {
    Error,
    Warning,
    Info,
    Success,
}

pub open spec fn alert_of(t: Seq<u8>) -> Option<EventAlert> {
    if t == seq![0x65u8, 0x72u8, 0x72u8, 0x6Fu8, 0x72u8] {
        Some(EventAlert::Error)
    } else if t == seq![0x77u8, 0x61u8, 0x72u8, 0x6Eu8, 0x69u8, 0x6Eu8, 0x67u8] {
        Some(EventAlert::Warning)
    } else if t == seq![0x69u8, 0x6Eu8, 0x66u8, 0x6Fu8] {
        Some(EventAlert::Info)
    } else if t == seq![0x73u8, 0x75u8, 0x63u8, 0x63u8, 0x65u8, 0x73u8, 0x73u8] {
        Some(EventAlert::Success)
    } else {
        None
    }
}

impl EventAlert {
    /// Reads an alert type: `error`, `warning`, `info` or `success`.
    pub fn from_bytes(t: &[u8]) -> (r: Option<Self>)
        ensures
            r == alert_of(t@),
    {
        let error: [u8; 5] = [0x65, 0x72, 0x72, 0x6F, 0x72];
        let warning: [u8; 7] = [0x77, 0x61, 0x72, 0x6E, 0x69, 0x6E, 0x67];
        let info: [u8; 4] = [0x69, 0x6E, 0x66, 0x6F];
        let success: [u8; 7] = [0x73, 0x75, 0x63, 0x63, 0x65, 0x73, 0x73];
        assert(error@ =~= seq![0x65u8, 0x72u8, 0x72u8, 0x6Fu8, 0x72u8]);
        assert(warning@ =~= seq![0x77u8, 0x61u8, 0x72u8, 0x6Eu8, 0x69u8, 0x6Eu8, 0x67u8]);
        assert(info@ =~= seq![0x69u8, 0x6Eu8, 0x66u8, 0x6Fu8]);
        assert(success@ =~= seq![0x73u8, 0x75u8, 0x63u8, 0x63u8, 0x65u8, 0x73u8, 0x73u8]);
        if bytes_eq(t, error.as_slice()) {
            Some(EventAlert::Error)
        } else if bytes_eq(t, warning.as_slice()) {
            Some(EventAlert::Warning)
        } else if bytes_eq(t, info.as_slice()) {
            Some(EventAlert::Info)
        } else if bytes_eq(t, success.as_slice()) {
            Some(EventAlert::Success)
        } else {
            None
        }
    }
}

pub open spec fn opt_view<'a>(o: Option<&'a [u8]>) -> Option<Seq<u8>> {
    match o {
        Some(s) => Some(s@),
        None => None,
    }
}

/// A metric line: `<name>:<value>[:<value>...]|<type>[|@<rate>][|#<tags>][|T<ts>][|c:<id>]`.
/// Values are kept as the text of each value; each is a literal that `f64::from_str` reads.
#[derive(Debug)]
pub struct DogStatsDMetricStr<'a> {
    pub name: &'a [u8],
    pub values: Vec<&'a [u8]>,
    pub sample_rate: Option<&'a [u8]>,
    pub timestamp: Option<&'a [u8]>,
    pub container_id: Option<&'a [u8]>,
    pub metric_type: DogStatsDMetricType,
    pub tags: Vec<&'a [u8]>,
    pub raw_msg: &'a [u8],
}

pub struct MetricModel {
    pub name: Seq<u8>,
    pub values: Seq<Seq<u8>>,
    pub sample_rate: Option<Seq<u8>>,
    pub timestamp: Option<Seq<u8>>,
    pub container_id: Option<Seq<u8>>,
    pub metric_type: DogStatsDMetricType,
    pub tags: Seq<Seq<u8>>,
    pub raw: Seq<u8>,
}

impl<'a> View for DogStatsDMetricStr<'a> {
    type V = MetricModel;

    open spec fn view(&self) -> MetricModel {
        MetricModel {
            name: self.name@,
            values: views(self.values@),
            sample_rate: opt_view(self.sample_rate),
            timestamp: opt_view(self.timestamp),
            container_id: opt_view(self.container_id),
            metric_type: self.metric_type,
            tags: views(self.tags@),
            raw: self.raw_msg@,
        }
    }
}

/// An event line:
/// `_e{<title_len>,<text_len>}:<title>|<text>[|d:ts][|h:host][|p:prio][|t:alert][|k:key][|s:source][|#tags]`.
#[derive(Debug)]
pub struct DogStatsDEventStr<'a> {
    pub title: &'a [u8],
    pub text: &'a [u8],
    pub timestamp: Option<&'a [u8]>,
    pub hostname: Option<&'a [u8]>,
    pub priority: Option<&'a [u8]>,
    pub alert_type: EventAlert,
    pub aggregation_key: Option<&'a [u8]>,
    pub source_type_name: Option<&'a [u8]>,
    pub tags: Vec<&'a [u8]>,
    pub raw_msg: &'a [u8],
}

/// The optional fields of an event.
pub struct EventOpts {
    pub timestamp: Option<Seq<u8>>,
    pub hostname: Option<Seq<u8>>,
    pub priority: Option<Seq<u8>>,
    pub alert_type: EventAlert,
    pub aggregation_key: Option<Seq<u8>>,
    pub source_type_name: Option<Seq<u8>>,
    pub tags: Seq<Seq<u8>>,
}

pub struct EventModel {
    pub title: Seq<u8>,
    pub text: Seq<u8>,
    pub opts: EventOpts,
    pub raw: Seq<u8>,
}

impl<'a> View for DogStatsDEventStr<'a> {
    type V = EventModel;

    open spec fn view(&self) -> EventModel {
        EventModel {
            title: self.title@,
            text: self.text@,
            opts: EventOpts {
                timestamp: opt_view(self.timestamp),
                hostname: opt_view(self.hostname),
                priority: opt_view(self.priority),
                alert_type: self.alert_type,
                aggregation_key: opt_view(self.aggregation_key),
                source_type_name: opt_view(self.source_type_name),
                tags: views(self.tags@),
            },
            raw: self.raw_msg@,
        }
    }
}

/// A service check line: `_sc|<name>|<status>[|d:ts][|h:host][|#tags][|m:message]`.
#[derive(Debug)]
pub struct DogStatsDServiceCheckStr<'a> {
    pub name: &'a [u8],
    pub status: ServiceCheckStatus,
    pub timestamp: Option<&'a [u8]>,
    pub hostname: Option<&'a [u8]>,
    pub message: Option<&'a [u8]>,
    pub tags: Vec<&'a [u8]>,
    pub raw_msg: &'a [u8],
}

/// The optional fields of a service check.
pub struct CheckOpts {
    pub timestamp: Option<Seq<u8>>,
    pub hostname: Option<Seq<u8>>,
    pub message: Option<Seq<u8>>,
    pub tags: Seq<Seq<u8>>,
}

pub struct ServiceCheckModel {
    pub name: Seq<u8>,
    pub status: ServiceCheckStatus,
    pub opts: CheckOpts,
    pub raw: Seq<u8>,
}

impl<'a> View for DogStatsDServiceCheckStr<'a> {
    type V = ServiceCheckModel;

    open spec fn view(&self) -> ServiceCheckModel {
        ServiceCheckModel {
            name: self.name@,
            status: self.status,
            opts: CheckOpts {
                timestamp: opt_view(self.timestamp),
                hostname: opt_view(self.hostname),
                message: opt_view(self.message),
                tags: views(self.tags@),
            },
            raw: self.raw_msg@,
        }
    }
}

#[derive(Debug)]
pub enum DogStatsDMsg<'a> {
    Metric(DogStatsDMetricStr<'a>),
    Event(DogStatsDEventStr<'a>),
    ServiceCheck(DogStatsDServiceCheckStr<'a>),
}

pub enum MsgModel {
    Metric(MetricModel),
    Event(EventModel),
    ServiceCheck(ServiceCheckModel),
}

impl<'a> View for DogStatsDMsg<'a> {
    type V = MsgModel;

    open spec fn view(&self) -> MsgModel {
        match self {
            DogStatsDMsg::Metric(m) => MsgModel::Metric(m@),
            DogStatsDMsg::Event(e) => MsgModel::Event(e@),
            DogStatsDMsg::ServiceCheck(c) => MsgModel::ServiceCheck(c@),
        }
    }
}

pub open spec fn kind_of(m: MsgModel) -> DogStatsDMsgKind {
    match m {
        MsgModel::Metric(_) => DogStatsDMsgKind::Metric,
        MsgModel::Event(_) => DogStatsDMsgKind::Event,
        MsgModel::ServiceCheck(_) => DogStatsDMsgKind::ServiceCheck,
    }
}

/// The text of a field after its one-letter prefix and separator (`d:160` gives `160`).
pub open spec fn field_value(f: Seq<u8>) -> Seq<u8> {
    if f.len() >= 2 {
        f.subrange(2, f.len() as int)
    } else {
        Seq::<u8>::empty()
    }
}

/// The rest of the first of `ps` that begins with `prefix`.
pub open spec fn first_field(ps: Seq<Seq<u8>>, prefix: Seq<u8>) -> Option<Seq<u8>>
    decreases ps.len(),
{
    if ps.len() == 0 {
        None
    } else {
        match first_field(ps.drop_last(), prefix) {
            Some(v) => Some(v),
            None => if has_prefix(ps.last(), prefix) {
                Some(ps.last().subrange(prefix.len() as int, ps.last().len() as int))
            } else {
                None
            },
        }
    }
}

pub proof fn lemma_first_field_prefix(ps: Seq<Seq<u8>>, prefix: Seq<u8>, k: int)
    requires
        0 <= k <= ps.len(),
        first_field(ps.subrange(0, k), prefix) is Some,
    ensures
        first_field(ps, prefix) == first_field(ps.subrange(0, k), prefix),
    decreases ps.len(),
{
    if k < ps.len() {
        assert(ps.drop_last().subrange(0, k) =~= ps.subrange(0, k));
        lemma_first_field_prefix(ps.drop_last(), prefix, k);
    } else {
        assert(ps.subrange(0, k) =~= ps);
    }
}

/// The optional fields of a metric are looked up among the pieces after the type.
pub open spec fn metric_field(parts: Seq<Seq<u8>>, prefix: Seq<u8>) -> Option<Seq<u8>> {
    first_field(parts.subrange(2, parts.len() as int), prefix)
}

pub open spec fn split_opt(o: Option<Seq<u8>>, sep: u8) -> Seq<Seq<u8>> {
    match o {
        Some(t) => split(t, sep),
        None => Seq::<Seq<u8>>::empty(),
    }
}

/// What a metric line parses to.
pub open spec fn metric_spec(line: Seq<u8>) -> Result<MetricModel, ParseErrorReason> {
    let s = trim_end(line);
    let parts = split(s, PIPE);
    let head = parts[0];
    let c = first_index(head, COLON);
    if c < 0 {
        Err(ParseErrorReason::NameOrValueMissing)
    } else {
        let values = split(head.subrange(c + 1, head.len() as int), COLON);
        if !(forall|i: int| 0 <= i < values.len() ==> is_float_literal(#[trigger] values[i])) {
            Err(ParseErrorReason::InvalidValue)
        } else if parts.len() < 2 {
            Err(ParseErrorReason::NoMetricType)
        } else if parts[1].len() > 2 {
            Err(ParseErrorReason::TooManyCharsForMetricType)
        } else {
            match metric_type_of(parts[1]) {
                None => Err(ParseErrorReason::InvalidMetricType),
                Some(t) => Ok(
                    MetricModel {
                        name: head.subrange(0, c),
                        values,
                        sample_rate: metric_field(parts, seq![0x40u8]),
                        timestamp: metric_field(parts, seq![0x54u8]),
                        container_id: metric_field(parts, seq![0x63u8, 0x3Au8]),
                        metric_type: t,
                        tags: split_opt(metric_field(parts, seq![HASH]), COMMA),
                        raw: s,
                    },
                ),
            }
        }
    }
}

pub open spec fn no_event_opts() -> EventOpts {
    EventOpts {
        timestamp: None,
        hostname: None,
        priority: None,
        alert_type: EventAlert::Info,
        aggregation_key: None,
        source_type_name: None,
        tags: Seq::<Seq<u8>>::empty(),
    }
}

/// One optional event field applied over the ones before it; a later field of the same
/// letter replaces an earlier one, tags accumulate, an unknown alert type reads as `info`.
pub open spec fn apply_event_field(o: EventOpts, f: Seq<u8>) -> Option<EventOpts> {
    if f.len() == 0 {
        None
    } else if f[0] == 0x64u8 {
        Some(EventOpts { timestamp: Some(field_value(f)), ..o })
    } else if f[0] == 0x68u8 {
        Some(EventOpts { hostname: Some(field_value(f)), ..o })
    } else if f[0] == 0x70u8 {
        Some(EventOpts { priority: Some(field_value(f)), ..o })
    } else if f[0] == 0x74u8 {
        Some(
            EventOpts {
                alert_type: match alert_of(field_value(f)) {
                    Some(a) => a,
                    None => EventAlert::Info,
                },
                ..o
            },
        )
    } else if f[0] == 0x6Bu8 {
        Some(EventOpts { aggregation_key: Some(field_value(f)), ..o })
    } else if f[0] == 0x73u8 {
        Some(EventOpts { source_type_name: Some(field_value(f)), ..o })
    } else if f[0] == HASH {
        Some(EventOpts { tags: o.tags + split(f.subrange(1, f.len() as int), COMMA), ..o })
    } else {
        None
    }
}

pub open spec fn event_opts(fields: Seq<Seq<u8>>) -> Option<EventOpts>
    decreases fields.len(),
{
    if fields.len() == 0 {
        Some(no_event_opts())
    } else {
        match event_opts(fields.drop_last()) {
            None => None,
            Some(o) => apply_event_field(o, fields.last()),
        }
    }
}

pub open spec fn usize_literal(s: Seq<u8>) -> bool {
    is_unsigned_literal(s) && decimal_value(unsigned_digits(s)) <= usize::MAX
}

/// What an event line parses to. Title and text are taken by byte lengths from the header.
pub open spec fn event_spec(line: Seq<u8>) -> Result<EventModel, ParseErrorReason> {
    let s = trim_end(line);
    let ob = first_index(s, LBRACE);
    let cbr = first_index(s.subrange(ob + 1, s.len() as int), RBRACE);
    let cb = ob + 1 + cbr;
    let lens = split(s.subrange(ob + 1, cb), COMMA);
    let tl = decimal_value(unsigned_digits(lens[0])) as int;
    let xl = decimal_value(unsigned_digits(lens[1])) as int;
    let title_end = cb + 2 + tl;
    let text_end = title_end + 1 + xl;
    if ob < 0 {
        Err(ParseErrorReason::NoOpeningBrace)
    } else if cbr < 0 {
        Err(ParseErrorReason::NoClosingBrace)
    } else if !usize_literal(lens[0]) {
        Err(ParseErrorReason::InvalidTitleLength)
    } else if lens.len() < 2 || !usize_literal(lens[1]) {
        Err(ParseErrorReason::InvalidTextLength)
    } else if title_end > s.len() {
        Err(ParseErrorReason::TitleLengthOverrun)
    } else if text_end > s.len() {
        Err(ParseErrorReason::TextLengthOverrun)
    } else if text_end < s.len() && s[text_end] != PIPE {
        Err(ParseErrorReason::NoPipeAfterText)
    } else {
        let opts = if text_end < s.len() {
            event_opts(split(s.subrange(text_end + 1, s.len() as int), PIPE))
        } else {
            Some(no_event_opts())
        };
        match opts {
            None => Err(ParseErrorReason::UnknownEventField),
            Some(o) => Ok(
                EventModel {
                    title: s.subrange(cb + 2, title_end),
                    text: s.subrange(title_end + 1, text_end),
                    opts: o,
                    raw: s,
                },
            ),
        }
    }
}

pub open spec fn no_check_opts() -> CheckOpts {
    CheckOpts { timestamp: None, hostname: None, message: None, tags: Seq::<Seq<u8>>::empty() }
}

pub open spec fn apply_check_field(o: CheckOpts, f: Seq<u8>) -> Option<CheckOpts> {
    if f.len() == 0 {
        None
    } else if f[0] == 0x64u8 {
        Some(CheckOpts { timestamp: Some(field_value(f)), ..o })
    } else if f[0] == 0x68u8 {
        Some(CheckOpts { hostname: Some(field_value(f)), ..o })
    } else if f[0] == 0x6Du8 {
        Some(CheckOpts { message: Some(field_value(f)), ..o })
    } else if f[0] == HASH {
        Some(CheckOpts { tags: o.tags + split(f.subrange(1, f.len() as int), COMMA), ..o })
    } else {
        None
    }
}

pub open spec fn check_opts(fields: Seq<Seq<u8>>) -> Option<CheckOpts>
    decreases fields.len(),
{
    if fields.len() == 0 {
        Some(no_check_opts())
    } else {
        match check_opts(fields.drop_last()) {
            None => None,
            Some(o) => apply_check_field(o, fields.last()),
        }
    }
}

/// What a service check line parses to.
pub open spec fn check_spec(line: Seq<u8>) -> Result<ServiceCheckModel, ParseErrorReason> {
    let fs = split(trim_end(line), PIPE);
    if fs[0] != seq![0x5Fu8, 0x73u8, 0x63u8] {
        Err(ParseErrorReason::UnexpectedServiceCheckPrefix)
    } else if fs.len() < 2 {
        Err(ParseErrorReason::MissingServiceCheckName)
    } else if fs.len() < 3 {
        Err(ParseErrorReason::MissingServiceCheckStatus)
    } else {
        match status_of(fs[2]) {
            None => Err(ParseErrorReason::InvalidServiceCheckStatus),
            Some(st) => match check_opts(fs.subrange(3, fs.len() as int)) {
                None => Err(ParseErrorReason::UnknownServiceCheckField),
                Some(o) => Ok(
                    ServiceCheckModel { name: fs[1], status: st, opts: o, raw: trim_end(line) },
                ),
            },
        }
    }
}

/// What a line parses to: `_e` opens an event, `_sc` a service check, anything else a metric.
/// A parsed message keeps the line without trailing whitespace as its raw text. A refused
/// metric or event records that trimmed line too, a refused service check the line as given.
pub open spec fn parse_spec(line: Seq<u8>) -> Result<MsgModel, ErrorModel> {
    if has_prefix(line, seq![0x5Fu8, 0x65u8]) {
        match event_spec(line) {
            Ok(e) => Ok(MsgModel::Event(e)),
            Err(r) => Err(ErrorModel { kind: DogStatsDMsgKind::Event, reason: r, raw: trim_end(line) }),
        }
    } else if has_prefix(line, seq![0x5Fu8, 0x73u8, 0x63u8]) {
        match check_spec(line) {
            Ok(c) => Ok(MsgModel::ServiceCheck(c)),
            Err(r) => Err(ErrorModel { kind: DogStatsDMsgKind::ServiceCheck, reason: r, raw: line }),
        }
    } else {
        match metric_spec(line) {
            Ok(m) => Ok(MsgModel::Metric(m)),
            Err(r) => Err(ErrorModel { kind: DogStatsDMsgKind::Metric, reason: r, raw: trim_end(line) }),
        }
    }
}

fn find_field<'a>(parts: &Vec<&'a [u8]>, from: usize, prefix: &[u8]) -> (r: Option<&'a [u8]>)
    requires
        from <= parts.len(),
    ensures
        opt_view(r) == first_field(views(parts@).subrange(from as int, parts.len() as int), prefix@),
{
    let ghost vs = views(parts@);
    let mut i: usize = from;
    assert(vs.subrange(from as int, from as int) =~= Seq::<Seq<u8>>::empty());
    while i < parts.len()
        invariant
            from <= i <= parts.len(),
            vs == views(parts@),
            first_field(vs.subrange(from as int, i as int), prefix@) is None,
        decreases parts.len() - i,
    {
        let p = parts[i];
        assert(vs.subrange(from as int, i + 1).drop_last() =~= vs.subrange(from as int, i as int));
        assert(vs[i as int] == p@);
        if starts_with(p, prefix) {
            let v = slice_subrange(p, prefix.len(), p.len());
            proof {
                lemma_first_field_prefix(vs.subrange(from as int, parts.len() as int), prefix@, i + 1 - from);
                assert(vs.subrange(from as int, parts.len() as int).subrange(0, i + 1 - from)
                    =~= vs.subrange(from as int, i + 1));
            }
            return Some(v);
        }
        i = i + 1;
    }
    assert(vs.subrange(from as int, parts.len() as int) =~= vs.subrange(from as int, i as int));
    None
}

fn all_float_texts(values: &Vec<&[u8]>) -> (r: bool)
    ensures
        r == forall|j: int| 0 <= j < values@.len() ==> is_float_literal(#[trigger] views(values@)[j]),
{
    let mut i: usize = 0;
    while i < values.len()
        invariant
            i <= values.len(),
            forall|j: int| 0 <= j < i ==> is_float_literal(#[trigger] views(values@)[j]),
        decreases values.len() - i,
    {
        assert(views(values@)[i as int] == values[i as int]@);
        if !is_float_text(values[i]) {
            return false;
        }
        i = i + 1;
    }
    true
}

fn value_of<'a>(f: &'a [u8]) -> (r: &'a [u8])
    ensures
        r@ == field_value(f@),
{
    if f.len() >= 2 {
        slice_subrange(f, 2, f.len())
    } else {
        slice_subrange(f, 0, 0)
    }
}

fn push_tags<'a>(tags: &mut Vec<&'a [u8]>, list: &'a [u8])
    ensures
        views(final(tags)@) == views(old(tags)@) + split(list@, COMMA),
{
    let mut more = split_bytes(list, COMMA);
    let ghost before = old(tags)@;
    tags.append(&mut more);
    assert(views(tags@) =~= views(before) + split(list@, COMMA));
}

impl<'a> DogStatsDMsg<'a> {
    pub fn kind(self) -> (r: DogStatsDMsgKind)
        ensures
            r == kind_of(self@),
    {
        match self {
            DogStatsDMsg::Event(_) => DogStatsDMsgKind::Event,
            DogStatsDMsg::ServiceCheck(_) => DogStatsDMsgKind::ServiceCheck,
            DogStatsDMsg::Metric(_) => DogStatsDMsgKind::Metric,
        }
    }

    fn parse_metric(line: &'a [u8]) -> (r: Result<DogStatsDMetricStr<'a>, DogStatsDMsgError>)
        ensures
            match r {
                Ok(m) => metric_spec(line@) == Ok::<MetricModel, ParseErrorReason>(m@),
                Err(e) => metric_spec(line@) == Err::<MetricModel, ParseErrorReason>(e@.reason)
                    && e@.kind == DogStatsDMsgKind::Metric && e@.raw == trim_end(line@),
            },
    {
        let kind = DogStatsDMsgKind::Metric;
        let s = trim_end_bytes(line);
        let parts = split_bytes(s, PIPE);
        proof {
            lemma_split_nonempty(s@, PIPE);
        }
        let ghost vs = views(parts@);
        let head = parts[0];
        assert(vs[0] == head@);
        let c = match find_byte(head, COLON) {
            None => return fail(kind, ParseErrorReason::NameOrValueMissing, s),
            Some(c) => c,
        };
        assert(c < head.len());
        let name = slice_subrange(head, 0, c);
        let vtext = slice_subrange(head, c + 1, head.len());
        let values = split_bytes(vtext, COLON);
        assert(views(values@) == split(head@.subrange(c + 1, head@.len() as int), COLON));
        if !all_float_texts(&values) {
            return fail(kind, ParseErrorReason::InvalidValue, s);
        }
        if parts.len() < 2 {
            return fail(kind, ParseErrorReason::NoMetricType, s);
        }
        let t = parts[1];
        assert(vs[1] == t@);
        if t.len() > 2 {
            return fail(kind, ParseErrorReason::TooManyCharsForMetricType, s);
        }
        let metric_type = match DogStatsDMetricType::from_bytes(t) {
            None => return fail(kind, ParseErrorReason::InvalidMetricType, s),
            Some(mt) => mt,
        };
        let hash: [u8; 1] = [HASH];
        let at: [u8; 1] = [0x40];
        let tee: [u8; 1] = [0x54];
        let cid: [u8; 2] = [0x63, 0x3A];
        assert(hash@ =~= seq![HASH]);
        assert(at@ =~= seq![0x40u8]);
        assert(tee@ =~= seq![0x54u8]);
        assert(cid@ =~= seq![0x63u8, 0x3Au8]);
        let mut tags: Vec<&'a [u8]> = Vec::new();
        match find_field(&parts, 2, hash.as_slice()) {
            Some(list) => {
                push_tags(&mut tags, list);
                assert(views(tags@) =~= split(list@, COMMA));
            },
            None => {
                assert(views(tags@) =~= Seq::<Seq<u8>>::empty());
            },
        }
        let sample_rate = find_field(&parts, 2, at.as_slice());
        let timestamp = find_field(&parts, 2, tee.as_slice());
        let container_id = find_field(&parts, 2, cid.as_slice());
        Ok(
            DogStatsDMetricStr {
                name,
                values,
                sample_rate,
                timestamp,
                container_id,
                metric_type,
                tags,
                raw_msg: s,
            },
        )
    }

    fn apply_event_fields(ev: &mut DogStatsDEventStr<'a>, fields: &Vec<&'a [u8]>) -> (r: bool)
        requires
            old(ev)@.opts == no_event_opts(),
        ensures
            r == event_opts(views(fields@)) is Some,
            r ==> event_opts(views(fields@)) == Some(final(ev)@.opts),
            final(ev).title == old(ev).title,
            final(ev).text == old(ev).text,
            final(ev).raw_msg == old(ev).raw_msg,
    {
        let ghost vs = views(fields@);
        let mut i: usize = 0;
        assert(vs.subrange(0, 0) =~= Seq::<Seq<u8>>::empty());
        while i < fields.len()
            invariant
                i <= fields.len(),
                vs == views(fields@),
                event_opts(vs.subrange(0, i as int)) == Some(ev@.opts),
                ev.title == old(ev).title,
                ev.text == old(ev).text,
                ev.raw_msg == old(ev).raw_msg,
            decreases fields.len() - i,
        {
            let f = fields[i];
            assert(vs.subrange(0, i + 1).drop_last() =~= vs.subrange(0, i as int));
            assert(vs[i as int] == f@);
            if f.len() == 0 {
                proof {
                    lemma_event_opts_stuck(vs, i as int);
                }
                return false;
            }
            let b = f[0];
            if b == 0x64 {
                ev.timestamp = Some(value_of(f));
            } else if b == 0x68 {
                ev.hostname = Some(value_of(f));
            } else if b == 0x70 {
                ev.priority = Some(value_of(f));
            } else if b == 0x74 {
                ev.alert_type = match EventAlert::from_bytes(value_of(f)) {
                    Some(a) => a,
                    None => EventAlert::Info,
                };
            } else if b == 0x6B {
                ev.aggregation_key = Some(value_of(f));
            } else if b == 0x73 {
                ev.source_type_name = Some(value_of(f));
            } else if b == HASH {
                push_tags(&mut ev.tags, slice_subrange(f, 1, f.len()));
            } else {
                proof {
                    lemma_event_opts_stuck(vs, i as int);
                }
                return false;
            }
            i = i + 1;
            assert(event_opts(vs.subrange(0, i as int)) =~= Some(ev@.opts));
        }
        assert(vs.subrange(0, fields.len() as int) =~= vs);
        true
    }

    fn parse_event(line: &'a [u8]) -> (r: Result<DogStatsDEventStr<'a>, DogStatsDMsgError>)
        ensures
            match r {
                Ok(e) => event_spec(line@) == Ok::<EventModel, ParseErrorReason>(e@),
                Err(e) => event_spec(line@) == Err::<EventModel, ParseErrorReason>(e@.reason)
                    && e@.kind == DogStatsDMsgKind::Event && e@.raw == trim_end(line@),
            },
    {
        let kind = DogStatsDMsgKind::Event;
        let s = trim_end_bytes(line);
        let ob = match find_byte(s, LBRACE) {
            None => return fail(kind, ParseErrorReason::NoOpeningBrace, s),
            Some(i) => i,
        };
        assert(ob < s.len());
        let rest = slice_subrange(s, ob + 1, s.len());
        let cbr = match find_byte(rest, RBRACE) {
            None => return fail(kind, ParseErrorReason::NoClosingBrace, s),
            Some(j) => j,
        };
        assert(cbr < rest.len());
        let cb = ob + 1 + cbr;
        let inner = slice_subrange(s, ob + 1, cb);
        let lens = split_bytes(inner, COMMA);
        proof {
            lemma_split_nonempty(inner@, COMMA);
        }
        assert(views(lens@)[0] == lens[0]@);
        let tl = match parse_unsigned(lens[0], usize::MAX as u64) {
            None => return fail(kind, ParseErrorReason::InvalidTitleLength, s),
            Some(v) => v as usize,
        };
        if lens.len() < 2 {
            return fail(kind, ParseErrorReason::InvalidTextLength, s);
        }
        assert(views(lens@)[1] == lens[1]@);
        let xl = match parse_unsigned(lens[1], usize::MAX as u64) {
            None => return fail(kind, ParseErrorReason::InvalidTextLength, s),
            Some(v) => v as usize,
        };
        if s.len() - cb < 2 || tl > s.len() - cb - 2 {
            return fail(kind, ParseErrorReason::TitleLengthOverrun, s);
        }
        let title_end = cb + 2 + tl;
        if title_end >= s.len() || xl > s.len() - title_end - 1 {
            return fail(kind, ParseErrorReason::TextLengthOverrun, s);
        }
        let text_end = title_end + 1 + xl;
        if text_end < s.len() && s[text_end] != PIPE {
            return fail(kind, ParseErrorReason::NoPipeAfterText, s);
        }
        let mut ev = DogStatsDEventStr {
            title: slice_subrange(s, cb + 2, title_end),
            text: slice_subrange(s, title_end + 1, text_end),
            timestamp: None,
            hostname: None,
            priority: None,
            alert_type: EventAlert::Info,
            aggregation_key: None,
            source_type_name: None,
            tags: Vec::new(),
            raw_msg: s,
        };
        assert(views(ev.tags@) =~= Seq::<Seq<u8>>::empty());
        assert(ev@.opts == no_event_opts());
        if text_end < s.len() {
            let fields = split_bytes(slice_subrange(s, text_end + 1, s.len()), PIPE);
            if !Self::apply_event_fields(&mut ev, &fields) {
                return fail(kind, ParseErrorReason::UnknownEventField, s);
            }
        }
        Ok(ev)
    }

    fn apply_check_fields(sc: &mut DogStatsDServiceCheckStr<'a>, fields: &Vec<&'a [u8]>) -> (r:
        bool)
        requires
            3 <= fields.len(),
            old(sc)@.opts == no_check_opts(),
        ensures
            r == check_opts(views(fields@).subrange(3, fields@.len() as int)) is Some,
            r ==> check_opts(views(fields@).subrange(3, fields@.len() as int)) == Some(
                final(sc)@.opts,
            ),
            final(sc).name == old(sc).name,
            final(sc).status == old(sc).status,
            final(sc).raw_msg == old(sc).raw_msg,
    {
        let ghost vs = views(fields@);
        let ghost all = vs.subrange(3, fields@.len() as int);
        let mut i: usize = 3;
        assert(all.subrange(0, 0) =~= Seq::<Seq<u8>>::empty());
        while i < fields.len()
            invariant
                3 <= i <= fields.len(),
                vs == views(fields@),
                all == vs.subrange(3, fields@.len() as int),
                check_opts(all.subrange(0, i - 3)) == Some(sc@.opts),
                sc.name == old(sc).name,
                sc.status == old(sc).status,
                sc.raw_msg == old(sc).raw_msg,
            decreases fields.len() - i,
        {
            let f = fields[i];
            assert(all.subrange(0, i + 1 - 3).drop_last() =~= all.subrange(0, i - 3));
            assert(all[i - 3] == f@);
            if f.len() == 0 {
                proof {
                    lemma_check_opts_stuck(all, i - 3);
                }
                return false;
            }
            let b = f[0];
            if b == 0x64 {
                sc.timestamp = Some(value_of(f));
            } else if b == 0x68 {
                sc.hostname = Some(value_of(f));
            } else if b == 0x6D {
                sc.message = Some(value_of(f));
            } else if b == HASH {
                push_tags(&mut sc.tags, slice_subrange(f, 1, f.len()));
            } else {
                proof {
                    lemma_check_opts_stuck(all, i - 3);
                }
                return false;
            }
            i = i + 1;
            assert(check_opts(all.subrange(0, i - 3)) =~= Some(sc@.opts));
        }
        assert(all.subrange(0, fields.len() - 3) =~= all);
        true
    }

    fn parse_servicecheck(line: &'a [u8]) -> (r: Result<
        DogStatsDServiceCheckStr<'a>,
        DogStatsDMsgError,
    >)
        ensures
            match r {
                Ok(c) => check_spec(line@) == Ok::<ServiceCheckModel, ParseErrorReason>(c@),
                Err(e) => check_spec(line@) == Err::<ServiceCheckModel, ParseErrorReason>(
                    e@.reason,
                ) && e@.kind == DogStatsDMsgKind::ServiceCheck && e@.raw == line@,
            },
    {
        let kind = DogStatsDMsgKind::ServiceCheck;
        let s = trim_end_bytes(line);
        let fields = split_bytes(s, PIPE);
        proof {
            lemma_split_nonempty(s@, PIPE);
        }
        let ghost vs = views(fields@);
        let prefix: [u8; 3] = [0x5F, 0x73, 0x63];
        assert(prefix@ =~= seq![0x5Fu8, 0x73u8, 0x63u8]);
        assert(vs[0] == fields[0]@);
        if !bytes_eq(fields[0], prefix.as_slice()) {
            return fail(kind, ParseErrorReason::UnexpectedServiceCheckPrefix, line);
        }
        if fields.len() < 2 {
            return fail(kind, ParseErrorReason::MissingServiceCheckName, line);
        }
        if fields.len() < 3 {
            return fail(kind, ParseErrorReason::MissingServiceCheckStatus, line);
        }
        assert(vs[1] == fields[1]@);
        assert(vs[2] == fields[2]@);
        let status = match ServiceCheckStatus::from_bytes(fields[2]) {
            None => return fail(kind, ParseErrorReason::InvalidServiceCheckStatus, line),
            Some(st) => st,
        };
        let mut sc = DogStatsDServiceCheckStr {
            name: fields[1],
            status,
            timestamp: None,
            hostname: None,
            message: None,
            tags: Vec::new(),
            raw_msg: s,
        };
        assert(views(sc.tags@) =~= Seq::<Seq<u8>>::empty());
        if !Self::apply_check_fields(&mut sc, &fields) {
            return fail(kind, ParseErrorReason::UnknownServiceCheckField, line);
        }
        Ok(sc)
    }

    /// Parses one DogStatsD line given as bytes.
    pub fn from_bytes(line: &'a [u8]) -> (r: Result<Self, DogStatsDMsgError>)
        ensures
            match r {
                Ok(m) => parse_spec(line@) == Ok::<MsgModel, ErrorModel>(m@),
                Err(e) => parse_spec(line@) == Err::<MsgModel, ErrorModel>(e@),
            },
    {
        let ev: [u8; 2] = [0x5F, 0x65];
        let sc: [u8; 3] = [0x5F, 0x73, 0x63];
        assert(ev@ =~= seq![0x5Fu8, 0x65u8]);
        assert(sc@ =~= seq![0x5Fu8, 0x73u8, 0x63u8]);
        if starts_with(line, ev.as_slice()) {
            match Self::parse_event(line) {
                Ok(e) => Ok(DogStatsDMsg::Event(e)),
                Err(e) => Err(e),
            }
        } else if starts_with(line, sc.as_slice()) {
            match Self::parse_servicecheck(line) {
                Ok(c) => Ok(DogStatsDMsg::ServiceCheck(c)),
                Err(e) => Err(e),
            }
        } else {
            match Self::parse_metric(line) {
                Ok(m) => Ok(DogStatsDMsg::Metric(m)),
                Err(e) => Err(e),
            }
        }
    }

    /// Parses one DogStatsD line.
    pub fn new(str_msg: &'a str) -> (r: Result<Self, DogStatsDMsgError>)
        ensures
            match r {
                Ok(m) => parse_spec(str_msg.spec_bytes()) == Ok::<MsgModel, ErrorModel>(m@),
                Err(e) => parse_spec(str_msg.spec_bytes()) == Err::<MsgModel, ErrorModel>(e@),
            },
    {
        Self::from_bytes(str_msg.as_bytes())
    }
}

proof fn lemma_event_opts_stuck(vs: Seq<Seq<u8>>, i: int)
    requires
        0 <= i < vs.len(),
        event_opts(vs.subrange(0, i)) is Some,
        apply_event_field(event_opts(vs.subrange(0, i))->Some_0, vs[i]) is None,
    ensures
        event_opts(vs) is None,
    decreases vs.len(),
{
    if i == vs.len() - 1 {
        assert(vs.drop_last() =~= vs.subrange(0, i));
    } else {
        assert(vs.drop_last().subrange(0, i) =~= vs.subrange(0, i));
        lemma_event_opts_stuck(vs.drop_last(), i);
    }
}

proof fn lemma_check_opts_stuck(vs: Seq<Seq<u8>>, i: int)
    requires
        0 <= i < vs.len(),
        check_opts(vs.subrange(0, i)) is Some,
        apply_check_field(check_opts(vs.subrange(0, i))->Some_0, vs[i]) is None,
    ensures
        check_opts(vs) is None,
    decreases vs.len(),
{
    if i == vs.len() - 1 {
        assert(vs.drop_last() =~= vs.subrange(0, i));
    } else {
        assert(vs.drop_last().subrange(0, i) =~= vs.subrange(0, i));
        lemma_check_opts_stuck(vs.drop_last(), i);
    }
}

} // verus!
