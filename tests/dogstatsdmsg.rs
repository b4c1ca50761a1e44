use dogstatsd_utils::dogstatsdmsg::{
    DogStatsDMetricType, DogStatsDMsg, DogStatsDMsgError, DogStatsDMsgKind, EventAlert,
    ParseErrorReason, ServiceCheckStatus,
};

fn values(v: &[&[u8]]) -> Vec<f64> {
    v.iter().map(|t| std::str::from_utf8(t).unwrap().parse::<f64>().unwrap()).collect()
}

fn reason_of(input: &str) -> (DogStatsDMsgKind, ParseErrorReason, Vec<u8>) {
    match DogStatsDMsg::new(input) {
        Err(DogStatsDMsgError::ParseError { kind, reason, raw_msg }) => (kind, reason, raw_msg),
        Ok(_) => panic!("parsed, expected an error"),
    }
}

#[test]
fn basic_events() {
    let raw_msg = "_e{2,4}:ab|cdef|d:160|h:myhost|p:high|t:severe|#env:prod,onfire:true\n";
    let msg = match DogStatsDMsg::new(raw_msg) {
        Ok(DogStatsDMsg::Event(m)) => m,
        Err(e) => panic!("Unexpected error: {:?}", e),
        Ok(_) => panic!("Wrong type"),
    };
    assert_eq!(msg.title, &b"ab"[..]);
    assert_eq!(msg.text, &b"cdef"[..]);
    assert_eq!(msg.alert_type, EventAlert::Info);
}

#[test]
fn basic_service_checks() {
    let raw_msg = "_sc|ab|2|d:160|h:myhost|#env:prod,onfire:true|m:mymessage\n";
    let msg = match DogStatsDMsg::new(raw_msg) {
        Ok(DogStatsDMsg::ServiceCheck(m)) => m,
        Ok(_) => panic!("Wrong type"),
        Err(e) => panic!("Unexpected error {:?}", e),
    };
    assert_eq!(msg.hostname, Some(&b"myhost"[..]));
    assert_eq!(msg.timestamp, Some(&b"160"[..]));
    assert_eq!(msg.message, Some(&b"mymessage"[..]));
    assert_eq!(msg.name, &b"ab"[..]);
    assert_eq!(msg.status, ServiceCheckStatus::Critical);
}

#[test]
fn invalid_statsd_msg() {
    let mut found_expected_error = false;
    if let Err(DogStatsDMsgError::ParseError { kind, .. }) = DogStatsDMsg::new("abcdefghiq") {
        found_expected_error = kind == DogStatsDMsgKind::Metric
    }
    assert!(found_expected_error);
}

#[test]
fn event_with_every_basic_field() {
    let input = "_e{2,4}:ab|cdef|d:160|h:myhost|p:high|t:error|#env:prod,onfire:true\n";
    let e = match DogStatsDMsg::new(input) {
        Ok(DogStatsDMsg::Event(e)) => e,
        other => panic!("expected an event, got {:?}", other),
    };
    assert_eq!(e.title, &b"ab"[..]);
    assert_eq!(e.text, &b"cdef"[..]);
    assert_eq!(e.timestamp, Some(&b"160"[..]));
    assert_eq!(e.hostname, Some(&b"myhost"[..]));
    assert_eq!(e.priority, Some(&b"high"[..]));
    assert_eq!(e.alert_type, EventAlert::Error);
    assert_eq!(e.tags, vec![&b"env:prod"[..], &b"onfire:true"[..]]);
    assert_eq!(e.raw_msg, input.trim_end().as_bytes());
}

#[test]
fn service_check_with_every_field() {
    let input = "_sc|ab|2|d:160|h:myhost|#env:prod|m:mymessage\n";
    let c = match DogStatsDMsg::new(input) {
        Ok(DogStatsDMsg::ServiceCheck(c)) => c,
        other => panic!("expected a service check, got {:?}", other),
    };
    assert_eq!(c.name, &b"ab"[..]);
    assert_eq!(c.status, ServiceCheckStatus::Critical);
    assert_eq!(c.timestamp, Some(&b"160"[..]));
    assert_eq!(c.hostname, Some(&b"myhost"[..]));
    assert_eq!(c.tags, vec![&b"env:prod"[..]]);
    assert_eq!(c.message, Some(&b"mymessage"[..]));
    assert_eq!(c.raw_msg, input.trim_end().as_bytes());
}

#[test]
fn metric_with_everything() {
    let input = "metric.name:1|c|@0.5|T1234567890|c:container123|#tag1:value1,tag2";
    let m = match DogStatsDMsg::new(input) {
        Ok(DogStatsDMsg::Metric(m)) => m,
        other => panic!("expected a metric, got {:?}", other),
    };
    assert_eq!(m.name, &b"metric.name"[..]);
    assert_eq!(values(&m.values), vec![1.0]);
    assert_eq!(m.metric_type, DogStatsDMetricType::Count);
    assert_eq!(m.tags, vec![&b"tag1:value1"[..], &b"tag2"[..]]);
    assert_eq!(m.sample_rate, Some(&b"0.5"[..]));
    assert_eq!(m.timestamp, Some(&b"1234567890"[..]));
    assert_eq!(m.container_id, Some(&b"container123"[..]));
    assert_eq!(m.raw_msg, input.as_bytes());
}

#[test]
fn metric_raw_is_line_without_trailing_whitespace() {
    let m = match DogStatsDMsg::new("metric.name:1.321:1.11111|d \r\n") {
        Ok(DogStatsDMsg::Metric(m)) => m,
        other => panic!("expected a metric, got {:?}", other),
    };
    assert_eq!(m.raw_msg, &b"metric.name:1.321:1.11111|d"[..]);
    assert_eq!(values(&m.values), vec![1.321, 1.11111]);
    assert_eq!(m.metric_type, DogStatsDMetricType::Distribution);
}

#[test]
fn metric_types_and_unknown_fields() {
    let cases = [
        ("a:1|c", DogStatsDMetricType::Count),
        ("a:1|g", DogStatsDMetricType::Gauge),
        ("a:1|h", DogStatsDMetricType::Histogram),
        ("a:1|ms", DogStatsDMetricType::Timer),
        ("a:1|s", DogStatsDMetricType::SetMetric),
        ("a:1|d|x:unknown", DogStatsDMetricType::Distribution),
    ];
    for (line, t) in cases {
        match DogStatsDMsg::new(line) {
            Ok(DogStatsDMsg::Metric(m)) => assert_eq!(m.metric_type, t),
            other => panic!("{line}: {:?}", other),
        }
    }
    assert_eq!(DogStatsDMetricType::from_str("ms"), Ok(DogStatsDMetricType::Timer));
    assert_eq!(DogStatsDMetricType::from_str("x"), Err(()));
}

#[test]
fn float_literals_are_accepted_as_std_reads_them() {
    for v in ["1", "-2.5", "+.5", "5.", "1e3", "1E-3", "inf", "-Infinity", "NaN"] {
        let line = format!("a:{v}|g");
        assert!(matches!(DogStatsDMsg::new(&line), Ok(DogStatsDMsg::Metric(_))), "{v}");
        assert!(v.parse::<f64>().is_ok());
    }
    for v in ["", ".", "1e", "e5", "0x10", "1_000", "--1", "1.2.3"] {
        let line = format!("a:{v}|g");
        assert_eq!(reason_of(&line).1, ParseErrorReason::InvalidValue, "{v}");
        assert!(v.parse::<f64>().is_err());
    }
}

#[test]
fn metric_errors() {
    assert_eq!(
        reason_of("metric.name:|c"),
        (DogStatsDMsgKind::Metric, ParseErrorReason::InvalidValue, b"metric.name:|c".to_vec())
    );
    assert_eq!(reason_of("metric.name|1|c").1, ParseErrorReason::NameOrValueMissing);
    assert_eq!(reason_of("metric.name:1").1, ParseErrorReason::NoMetricType);
    assert_eq!(reason_of("metric.name:1|abc").1, ParseErrorReason::TooManyCharsForMetricType);
    assert_eq!(reason_of("metric.name:1|x").1, ParseErrorReason::InvalidMetricType);
    assert_eq!(reason_of("a:1|x  \n").2, b"a:1|x".to_vec());
}

#[test]
fn event_errors() {
    assert_eq!(reason_of("_e2,4}:ab|cdef").1, ParseErrorReason::NoOpeningBrace);
    assert_eq!(reason_of("_e{2,4:ab|cdef").1, ParseErrorReason::NoClosingBrace);
    assert_eq!(reason_of("_e{x,4}:ab|cdef").1, ParseErrorReason::InvalidTitleLength);
    assert_eq!(reason_of("_e{2}:ab|cdef").1, ParseErrorReason::InvalidTextLength);
    assert_eq!(reason_of("_e{2,y}:ab|cdef").1, ParseErrorReason::InvalidTextLength);
    assert_eq!(
        reason_of("_e{100,0}:t|"),
        (DogStatsDMsgKind::Event, ParseErrorReason::TitleLengthOverrun, b"_e{100,0}:t|".to_vec())
    );
    assert_eq!(reason_of("_e{2,9}:ab|cdef").1, ParseErrorReason::TextLengthOverrun);
    assert_eq!(reason_of("_e{2,3}:ab|cdef").1, ParseErrorReason::NoPipeAfterText);
    assert_eq!(reason_of("_e{2,4}:ab|cdef|z:1").1, ParseErrorReason::UnknownEventField);
}

#[test]
fn event_short_title_and_empty_text() {
    match DogStatsDMsg::new("_e{1,0}:t|") {
        Ok(DogStatsDMsg::Event(e)) => {
            assert_eq!(e.title, &b"t"[..]);
            assert_eq!(e.text, &b""[..]);
        }
        other => panic!("{:?}", other),
    }
}

#[test]
fn service_check_errors() {
    let (kind, reason, raw) = reason_of("_scx|ab|2\n");
    assert_eq!(kind, DogStatsDMsgKind::ServiceCheck);
    assert_eq!(reason, ParseErrorReason::UnexpectedServiceCheckPrefix);
    assert_eq!(raw, b"_scx|ab|2\n".to_vec());
    assert_eq!(reason_of("_sc").1, ParseErrorReason::MissingServiceCheckName);
    assert_eq!(reason_of("_sc|ab").1, ParseErrorReason::MissingServiceCheckStatus);
    assert_eq!(reason_of("_sc|ab|7").1, ParseErrorReason::InvalidServiceCheckStatus);
    assert_eq!(reason_of("_sc|ab|0|q:1").1, ParseErrorReason::UnknownServiceCheckField);
}

#[test]
fn kind_of_parsed_lines() {
    assert_eq!(DogStatsDMsg::new("a:1|c").unwrap().kind(), DogStatsDMsgKind::Metric);
    assert_eq!(DogStatsDMsg::new("_e{1,1}:t|t").unwrap().kind(), DogStatsDMsgKind::Event);
    assert_eq!(DogStatsDMsg::new("_sc|n|3").unwrap().kind(), DogStatsDMsgKind::ServiceCheck);
}

#[test]
fn new_parse_error_keeps_its_parts() {
    let e = DogStatsDMsgError::new_parse_error(
        DogStatsDMsgKind::Event,
        ParseErrorReason::NoOpeningBrace,
        b"x".to_vec(),
    );
    assert_eq!(
        e,
        DogStatsDMsgError::ParseError {
            kind: DogStatsDMsgKind::Event,
            reason: ParseErrorReason::NoOpeningBrace,
            raw_msg: b"x".to_vec()
        }
    );
    assert_eq!(ParseErrorReason::NoOpeningBrace.text(), "No opening brace found");
}
