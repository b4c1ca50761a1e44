use dogstatsd_utils::analysis::{analyze_msgs, DogStatsDBatchStats, MetricWeights};
use dogstatsd_utils::dogstatsdreader::DogStatsDReader;
use dogstatsd_utils::msgstats::{self, DogStatsDMessageStats, Kind};

fn stats_of(payload: &[u8]) -> DogStatsDBatchStats {
    let mut reader = DogStatsDReader::new(payload.to_vec()).unwrap();
    analyze_msgs(&mut reader)
}

#[test]
fn counting_contexts() {
    let payload = b"my.metric:1|g\nmy.metric:2|g\nother.metric:20|d|#env:staging\nother.thing:10|d|#datacenter:prod\n";
    let res = stats_of(payload);
    assert_eq!(res.num_contexts(), 3);
}

#[test]
fn counting_contexts_name_variations() {
    let res = stats_of(b"my.metrice:1|g\nmy.metricd:1|g\nmy.metricc:1|g\nmy.metricb:1|g\nmy.metrica:1|g\n");
    assert_eq!(res.num_contexts(), 5);
    let res = stats_of(b"my.metric:1|g|#foo:a\nmy.metric:1|g\nmy.metric:1|g\nmy.metric:1|g\nmy.metric:1|g\n");
    assert_eq!(res.num_contexts(), 2);
}

#[test]
fn counting_contexts_tag_variations() {
    let res = stats_of(b"my.metric:1|g|#foo:a\nmy.metric:1|g|#foo:b\nmy.metric:1|g|#foo:c\nmy.metric:1|g|#foo:d\nmy.metric:1|g|#foo:e\n");
    assert_eq!(res.num_contexts(), 5);
    let res = stats_of(b"my.metric:1|g|#a:foo\nmy.metric:1|g|#b:foo\nmy.metric:1|g|#c:foo\nmy.metric:1|g|#d:foo\nmy.metric:1|g|#e:foo\n");
    assert_eq!(res.num_contexts(), 5);
    let res = stats_of(b"my.metric:1|g|#foo\nmy.metric:1|g|#b:foo\nmy.metric:1|g|#b:foo\nmy.metric:1|g|#d:foo\nmy.metric:1|g|#e:foo\n");
    assert_eq!(res.num_contexts(), 4);
}

#[test]
fn counting_contexts_tag_order() {
    let res = stats_of(b"my.metric:1|g|#foo:a,b,c,d,e\nmy.metric:1|g|#foo:b,a,c,d,e\nmy.metric:1|g|#foo:c,a,b,d,e\nmy.metric:1|g|#foo:d,a,b,c,e\nmy.metric:1|g|#foo:e,a,b,c,d\n");
    assert_eq!(res.num_contexts(), 5);
    let res = stats_of(b"my.metric:1|g|#a:foo,b,c,d,e\nmy.metric:1|g|#b:foo,a,c,d,e\nmy.metric:1|g|#c:foo,a,b,d,e\nmy.metric:1|g|#d:foo,a,b,c,e\nmy.metric:1|g|#e:foo,a,b,c,d\n");
    assert_eq!(res.num_contexts(), 5);
}

#[test]
fn counting_contexts_tag_count() {
    let res = stats_of(b"my.metric:1|g|#foo:a,b,c,d,e\nmy.metric:1|g|#foo:b,a,c,d\nmy.metric:1|g|#foo:c,a,b\nmy.metric:1|g|#foo:d,a\nmy.metric:1|g|#foo:e\nmy.metric:1|g\n");
    assert_eq!(res.num_contexts(), 6);
    let res = stats_of(b"my.metric:1|g|#a:foo,b,c,d,e\nmy.metric:1|g|#b:foo,a,c,d\nmy.metric:1|g|#c:foo,a,b\nmy.metric:1|g|#d:foo,a\nmy.metric:1|g|#e:foo\nmy.metric:1|g\n");
    assert_eq!(res.num_contexts(), 6);
}

#[test]
fn counting_contexts_tag_value_length() {
    let res = stats_of(b"my.metric:1|g|#foo:aaaaaaaaaaaaaa,bbbbbbbbbbbbbb,cccccccccccccc,dddddddddddddd,eeeeeeeeeeeeee\nmy.metric:1|g|#foo:bbbbbbbbbbbbbb,aaaaaaaaaaaaaa,cccccccccccccc,dddddddddddddd\nmy.metric:1|g|#foo:cccccccccccccc,aaaaaaaaaaaaaa,bbbbbbbbbbbbbb\nmy.metric:1|g|#foo:dddddddddddddd,aaaaaaaaaaaaaa\nmy.metric:1|g|#foo:eeeeeeeeeeeeee\nmy.metric:1|g\n");
    assert_eq!(res.num_contexts(), 6);
}

#[test]
fn stats_lading_metric_weights() {
    let res = stats_of(b"my.metric:1|g\nmy.metric:2|g\nother.metric:20|d|#env:staging\nother.thing:10|d|#datacenter:prod\n");
    assert_eq!(res.get_metric_weights(), MetricWeights::new(0, 2, 0, 2, 0, 0));
}

#[test]
fn metric_weight_scale() {
    let mut stats = DogStatsDBatchStats::new();
    stats.metric_types.count = 2;
    stats.metric_types.distribution = 2;
    assert_eq!(stats.get_metric_weights(), MetricWeights::new(2, 0, 0, 2, 0, 0));
    stats.metric_types.count = 200;
    stats.metric_types.distribution = 200;
    assert_eq!(stats.get_metric_weights(), MetricWeights::new(128, 0, 0, 128, 0, 0));
}

#[test]
fn raw_text_four_messages() {
    let res = stats_of(b"my.metric:1|g\nmy.metric:2|g\nother.metric:20|d|#env:staging\nother.thing:10|d|#datacenter:prod\n");
    assert_eq!(res.num_msgs, 4);
    assert_eq!(res.num_contexts(), 3);
    assert_eq!(res.num_metrics, 4);
    assert_eq!(res.metric_types.gauge, 2);
    assert_eq!(res.metric_types.distribution, 2);
    assert_eq!(res.metric_types.count + res.metric_types.histogram + res.metric_types.timer + res.metric_types.set, 0);
    assert_eq!(res.total_unique_tags(), 2);
    assert!(res.reader_analytics.is_none());
}

#[test]
fn five_tag_permutations_are_one_context() {
    let res = stats_of(b"my.metric:1|g|#foo:p,a,b,c,d\nmy.metric:1|g|#a,foo:p,b,c,d\nmy.metric:1|g|#d,c,b,a,foo:p\nmy.metric:1|g|#b,foo:p,d,a,c\nmy.metric:1|g|#c,d,foo:p,a,b\n");
    assert_eq!(res.num_contexts(), 1);
    assert_eq!(res.total_unique_tags(), 5);
}

#[test]
fn repeated_tags_make_another_context() {
    let res = stats_of(b"m:1|g|#a,a,b\nm:1|g|#a,b,b\nm:1|g|#b,a,a\n");
    assert_eq!(res.num_contexts(), 2);
}

#[test]
fn kinds_and_parse_errors_add_up() {
    let res = stats_of(b"a:1|c\n_e{1,1}:t|x\n_sc|n|0\nnot a metric\nb:1:2:3|h\n");
    assert_eq!(res.num_msgs, 4);
    assert_eq!(res.num_metrics, 2);
    assert_eq!(res.num_events, 1);
    assert_eq!(res.num_service_checks, 1);
    assert_eq!(res.num_parse_errors, 1);
    assert_eq!(res.num_msgs_with_multivalue, 1);
    assert_eq!(res.num_metrics + res.num_events + res.num_service_checks, res.num_msgs);
}

#[test]
fn kind_weights_keep_small_counts_and_scale_large_ones() {
    let mut stats = DogStatsDBatchStats::new();
    stats.num_metrics = 4;
    stats.num_events = 1;
    let w = stats.get_kind_weights();
    assert_eq!((w.metric, w.event, w.service_check), (4, 1, 0));
    stats.num_metrics = 1000;
    stats.num_events = 500;
    stats.num_service_checks = 500;
    let w = stats.get_kind_weights();
    assert_eq!((w.metric, w.event, w.service_check), (128, 64, 64));
    let sum = w.metric as u32 + w.event as u32 + w.service_check as u32;
    assert!((249..=261).contains(&sum));
}

#[test]
fn scaled_metric_weights_sum_near_255() {
    let mut stats = DogStatsDBatchStats::new();
    stats.metric_types.count = 1000;
    stats.metric_types.gauge = 333;
    stats.metric_types.histogram = 77;
    stats.metric_types.timer = 5;
    stats.metric_types.set = 1;
    stats.metric_types.distribution = 2999;
    let w = stats.get_metric_weights();
    let sum: u32 = [w.count, w.gauge, w.timer, w.distribution, w.set, w.histogram].iter().map(|x| *x as u32).sum();
    assert!((249..=261).contains(&sum), "{sum}");
    assert_eq!(w.count, 58);
    assert_eq!(w.distribution, 173);
}

#[test]
fn per_line_figures() {
    let s = msgstats::message_stats(b"name:1:2|d|#a,\xc3\xa9");
    assert_eq!(
        s,
        DogStatsDMessageStats { name_length: 4, num_values: 2, num_tags: 2, num_ascii_tags: 1, num_unicode_tags: 1, kind: Some(Kind::Distribution) }
    );
    assert_eq!(msgstats::message_stats(b"_sc|n|0").kind, Some(Kind::ServiceCheck));
    assert_eq!(msgstats::message_stats(b"_e{1,1}:a|b").kind, Some(Kind::Event));
    assert_eq!(msgstats::message_stats(b"nothing").kind, None);
    let mut reader = DogStatsDReader::new(b"x:1|c\ny:1|ms\n".to_vec()).unwrap();
    let all = msgstats::analyze_msgs(&mut reader);
    assert_eq!(all.len(), 2);
    assert_eq!(all[1].kind, Some(Kind::Timer));
}

#[test]
fn compressed_and_plain_text_analyze_alike() {
    let compressed: &[u8] = &[
        0x28, 0xb5, 0x2f, 0xfd, 0x04, 0x58, 0x6d, 0x02, 0x00, 0xe4, 0x03, 0x6d, 0x79, 0x2e,
        0x6d, 0x65, 0x74, 0x72, 0x69, 0x63, 0x3a, 0x31, 0x7c, 0x67, 0x0a, 0x32, 0x7c, 0x67,
        0x0a, 0x6f, 0x74, 0x68, 0x65, 0x72, 0x30, 0x7c, 0x64, 0x7c, 0x23, 0x65, 0x6e, 0x76,
        0x3a, 0x73, 0x74, 0x61, 0x67, 0x69, 0x6e, 0x74, 0x68, 0x69, 0x6e, 0x67, 0x3a, 0x31,
        0x64, 0x61, 0x74, 0x61, 0x63, 0x65, 0x6e, 0x74, 0x65, 0x72, 0x3a, 0x70, 0x72, 0x6f,
        0x64, 0x0a, 0x0a, 0x04, 0x00, 0x41, 0x09, 0x43, 0x28, 0x52, 0x69, 0x16, 0x39, 0xb6,
        0xa9, 0x04, 0xb6, 0x9f, 0x86, 0x7f,
    ];
    let plain = b"my.metric:1|g\nmy.metric:2|g\nother.metric:20|d|#env:staging\nother.thing:10|d|#datacenter:prod\n";
    let a = stats_of(compressed);
    let b = stats_of(plain);
    assert_eq!(a.num_msgs, b.num_msgs);
    assert_eq!(a.num_metrics, b.num_metrics);
    assert_eq!(a.metric_types, b.metric_types);
    assert_eq!(a.num_contexts(), b.num_contexts());
    assert_eq!(a.total_unique_tags(), b.total_unique_tags());
    assert_eq!(a.num_msgs, 4);
}

#[test]
fn a_lone_malformed_line_is_no_message() {
    let res = stats_of(b"xxxxxxxx\n");
    assert_eq!(res.num_msgs, 0);
    assert_eq!(res.num_parse_errors, 1);
}

#[test]
fn analysis_stops_at_a_line_that_is_not_utf8() {
    let res = stats_of(b"a:1|c\nb:2|g|#x\n\xff\xfe:1|c\nc:3|d\n");
    assert_eq!(res.num_msgs, 2);
    assert_eq!(res.num_contexts(), 2);
    assert_eq!(res.total_unique_tags(), 1);
}
