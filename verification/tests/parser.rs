use kreivo_monitor::exposition::parse;
use kreivo_monitor::token::check_value_token;

fn label_names(s: &kreivo_monitor::sample::Sample) -> Vec<Vec<u8>> {
    s.labels.iter().map(|l| l.name.clone()).collect()
}

fn label_value(s: &kreivo_monitor::sample::Sample, key: &[u8]) -> Option<Vec<u8>> {
    s.labels
        .iter()
        .find(|l| l.name.as_slice() == key)
        .map(|l| l.value.clone())
}

#[test]
fn valid_line_yields_one_sample() {
    let (samples, discovered) = parse(b"metric{k=\"v\"} 1.5", 42);
    assert!(discovered.is_none());
    assert_eq!(samples.len(), 1);
    let s = &samples[0];
    assert_eq!(s.timestamp_ms, 42);
    assert_eq!(s.value_token, b"1.5".to_vec());
    assert_eq!(
        String::from_utf8(s.value_token.clone()).unwrap().parse::<f64>().unwrap(),
        1.5f64
    );
    assert_eq!(s.labels.len(), 3);
    assert_eq!(s.labels[0].name, b"__name__".to_vec());
    assert_eq!(s.labels[0].value, b"metric".to_vec());
    assert_eq!(s.labels[1].name, b"job".to_vec());
    assert_eq!(s.labels[1].value, b"parachain-node-scraper".to_vec());
    assert_eq!(s.labels[2].name, b"k".to_vec());
    assert_eq!(s.labels[2].value, b"v".to_vec());
}

#[test]
fn line_without_labels() {
    let (samples, _) = parse(b"up 1", 7);
    assert_eq!(samples.len(), 1);
    assert_eq!(samples[0].labels.len(), 2);
    assert_eq!(samples[0].labels[0].value, b"up".to_vec());
    assert_eq!(samples[0].value_token, b"1".to_vec());
}

#[test]
fn empty_and_comment_and_bad_value_lines_drop() {
    let (samples, discovered) = parse(b"\n# HELP something\nmetric abc\nnospace\n\n", 1);
    assert_eq!(samples.len(), 0);
    assert!(discovered.is_none());
}

#[test]
fn parse_is_deterministic() {
    let text = b"a{x=\"1\"} 2\nsubstrate_build_info{name=\"n\"} 1\nb 3".to_vec();
    let r1 = parse(&text, 99);
    let r2 = parse(&text, 99);
    assert_eq!(r1.0, r2.0);
    assert_eq!(r1.1, r2.1);
}

#[test]
fn instance_propagates_to_all_samples() {
    let text = b"substrate_build_info{name=\"nodeA\"} 1\nother_metric 2";
    let (samples, discovered) = parse(text, 5);
    assert_eq!(discovered, Some(b"nodeA".to_vec()));
    assert_eq!(samples.len(), 2);
    for s in &samples {
        assert_eq!(label_value(s, b"instance"), Some(b"nodeA".to_vec()));
    }
}

#[test]
fn existing_instance_label_is_kept() {
    let text = b"substrate_build_info{name=\"nodeA\"} 1\nhas_own{instance=\"other\"} 2";
    let (samples, discovered) = parse(text, 5);
    assert_eq!(discovered, Some(b"nodeA".to_vec()));
    assert_eq!(samples.len(), 2);
    assert_eq!(label_value(&samples[1], b"instance"), Some(b"other".to_vec()));
    // the unmodified sample gained no second instance label
    assert_eq!(
        label_names(&samples[1])
            .iter()
            .filter(|n| n.as_slice() == b"instance")
            .count(),
        1
    );
}

#[test]
fn instance_discovered_on_earlier_lines_applies_to_them() {
    // discovery is a post-pass over the whole batch, wherever the
    // build-info line stands
    let text = b"early 1\nsubstrate_build_info{name=\"z\"} 1";
    let (samples, _) = parse(text, 5);
    assert_eq!(label_value(&samples[0], b"instance"), Some(b"z".to_vec()));
}

#[test]
fn crlf_lines_parse_like_lf_lines() {
    let (a, _) = parse(b"m 1\r\nn 2\r\n", 3);
    let (b, _) = parse(b"m 1\nn 2\n", 3);
    assert_eq!(a, b);
    assert_eq!(a.len(), 2);
}

#[test]
fn quotes_are_stripped_once() {
    let (samples, _) = parse(b"m{k=\"v\"} 1", 0);
    assert_eq!(label_value(&samples[0], b"k"), Some(b"v".to_vec()));
    let (samples, _) = parse(b"m{k=} 1", 0);
    assert_eq!(label_value(&samples[0], b"k"), Some(b"".to_vec()));
}

#[test]
fn empty_brace_list_gives_no_extra_labels() {
    let (samples, _) = parse(b"m{} 1", 0);
    assert_eq!(samples[0].labels.len(), 2);
}

#[test]
fn empty_metric_name_is_dropped() {
    let (samples, _) = parse(b"{a=\"b\"} 1", 0);
    assert_eq!(samples.len(), 0);
}

#[test]
fn value_token_grammar_matches_float_parsing() {
    // the verified grammar admits a token exactly when std's float parser
    // accepts it
    let cases: [&[u8]; 28] = [
        b"1.5", b"1", b"-2", b"+3.25", b".5", b"1.", b"1e5", b"1E-5", b"2.5e+7", b"inf",
        b"-Inf", b"NaN", b"infinity", b"", b"abc", b"1.5.6", b"0x10", b"1e", b"+", b".",
        b"1 2", b"nan(x)", b"e5", b"-.5", b".e5", b"1_000", b"INFINITY", b"2.e3",
    ];
    for tok in cases {
        let by_std = std::str::from_utf8(tok).unwrap().parse::<f64>().is_ok();
        assert_eq!(check_value_token(tok), by_std, "token {:?}", tok);
    }
}

#[test]
fn later_build_info_overrides_earlier() {
    let text = b"substrate_build_info{name=\"a\"} 1\nsubstrate_build_info{name=\"b\"} 1";
    let (_, discovered) = parse(text, 0);
    assert_eq!(discovered, Some(b"b".to_vec()));
}

#[test]
fn several_labels_keep_their_order() {
    let (samples, _) = parse(b"m{a=\"1\",b=\"2\",c=\"3\"} 9", 0);
    assert_eq!(samples.len(), 1);
    let s = &samples[0];
    assert_eq!(s.labels.len(), 5);
    assert_eq!(s.labels[2].name, b"a".to_vec());
    assert_eq!(s.labels[3].name, b"b".to_vec());
    assert_eq!(s.labels[4].name, b"c".to_vec());
    assert_eq!(s.labels[4].value, b"3".to_vec());
}

#[test]
fn entry_without_equals_is_skipped() {
    let (samples, _) = parse(b"m{a=\"1\",junk,b=\"2\"} 9", 0);
    assert_eq!(samples[0].labels.len(), 4);
    assert_eq!(samples[0].labels[3].name, b"b".to_vec());
}

#[test]
fn descriptor_splits_at_last_space() {
    // spaces inside label values are tolerated by the rsplit policy
    let (samples, _) = parse(b"m{k=\"a b\"} 2", 0);
    assert_eq!(samples.len(), 1);
    assert_eq!(label_value(&samples[0], b"k"), Some(b"a b".to_vec()));
}
