use complex_code_spotter::decode::decode_bytes;
use complex_code_spotter::error::Error;
use complex_code_spotter::metrics::{parse_metric_spec, Complexity};
use complex_code_spotter::output::{create_filenames, OutputFormat};
use complex_code_spotter::region::Region;
use complex_code_spotter::selector::accepts;
use complex_code_spotter::snippets::{get_code_snippets, Language, Snippets};
use complex_code_spotter::{collect_results, finalize_results, SnippetsProducer};

fn strings(v: &[&str]) -> Vec<String> {
    v.iter().map(|s| s.to_string()).collect()
}

#[test]
fn excludes_win_over_keeps() {
    let keep = strings(&["*.rs"]);
    let exclude = strings(&["*_test.rs"]);
    assert!(!accepts("foo_test.rs", &keep, &exclude));
    assert!(accepts("foo.rs", &keep, &exclude));
    assert!(!accepts("foo.py", &keep, &exclude));
}

#[test]
fn no_patterns_accept_everything() {
    assert!(accepts("anything.txt", &strings(&[]), &strings(&[])));
}

#[test]
fn oversized_patterns_are_skipped() {
    // A well-formed pattern beyond the selector's length bound is
    // skipped like a malformed one, on both sides of the policy.
    let long = "a".repeat(5000);
    assert!(accepts("a.rs", &strings(&[]), &vec![long.clone()]));
    assert!(!accepts("a.rs", &vec![long], &strings(&[])));
    // At the bound itself the pattern still takes part.
    let mut at_limit = String::from("{b.rs,");
    at_limit.push_str(&"a".repeat(4089));
    at_limit.push('}');
    assert_eq!(at_limit.chars().count(), 4096);
    assert!(!accepts("b.rs", &strings(&[]), &vec![at_limit]));
}

#[test]
fn malformed_patterns_are_skipped() {
    // A malformed exclude pattern never bars a path.
    assert!(accepts("a.rs", &strings(&[]), &strings(&["["])));
    // A keep set whose only patterns are malformed or empty matches nothing.
    assert!(!accepts("a.rs", &strings(&["["]), &strings(&[])));
    assert!(!accepts("a.rs", &strings(&[""]), &strings(&[])));
}

#[test]
fn utf8_bytes_decode_directly() {
    let r = decode_bytes("hello\nworld".as_bytes());
    assert_eq!(r, Ok(String::from("hello\nworld")));
    // Multi-byte UTF-8 would decode differently under the fallback, so
    // this only passes when the direct interpretation is used.
    let r = decode_bytes("h\u{e9}llo".as_bytes());
    assert_eq!(r, Ok(String::from("h\u{e9}llo")));
}

#[test]
fn fallback_transcoding_behaves_like_direct_text() {
    // Shift-JIS katakana, not valid UTF-8, decodable by the fallback.
    let bytes = [0x83u8, 0x65, 0x83, 0x58, 0x83, 0x67];
    assert!(std::str::from_utf8(&bytes).is_err());
    let text = decode_bytes(&bytes).unwrap();
    assert_eq!(text, "\u{30c6}\u{30b9}\u{30c8}");
    // The decoded text is then processed like any other file.
    let root = Region::new(1, 1, 20, 0, Vec::new());
    let result = get_code_snippets(
        &root,
        Language::Rust,
        String::from("file.rs"),
        text.as_str(),
        &vec![Complexity::Cyclomatic],
        &vec![15],
    )
    .unwrap();
    assert_eq!(result.snippets[0].records[0].text, text);
}

#[test]
fn undecodable_bytes_are_refused() {
    let bytes = vec![0xFFu8; 8192];
    assert_eq!(decode_bytes(&bytes), Err(Error::NonUtf8Conversion));
}

#[test]
fn producer_defaults() {
    let p = SnippetsProducer::new();
    assert_eq!(p.0.complexities, vec![Complexity::Cyclomatic]);
    assert_eq!(p.0.thresholds, vec![15]);
    assert!(!p.0.write);
    assert!(p.0.keep.is_empty());
    assert!(p.0.exclude.is_empty());
    assert_eq!(p.0.output_format, OutputFormat::Markdown);
}

#[test]
fn thresholds_are_clamped() {
    let p = SnippetsProducer::new().thresholds(vec![250, 7, 100]);
    assert_eq!(p.0.thresholds, vec![100, 7, 100]);
}

#[test]
fn builders_update_their_field() {
    let p = SnippetsProducer::new()
        .complexities(vec![Complexity::Cognitive])
        .keep(strings(&["*.rs"]))
        .exclude(strings(&["*_gen.rs"]))
        .enable_write()
        .output_format(OutputFormat::Json);
    assert_eq!(p.0.complexities, vec![Complexity::Cognitive]);
    assert_eq!(p.0.keep, strings(&["*.rs"]));
    assert_eq!(p.0.exclude, strings(&["*_gen.rs"]));
    assert!(p.0.write);
    assert_eq!(p.0.output_format, OutputFormat::Json);
}

#[test]
fn config_requires_a_threshold_per_metric() {
    let p = SnippetsProducer::new()
        .complexities(vec![Complexity::Cyclomatic, Complexity::Cognitive])
        .thresholds(vec![15]);
    assert_eq!(p.check_config(false), Err(Error::Thresholds));
    let ok = SnippetsProducer::new();
    assert_eq!(ok.check_config(false), Ok(()));
}

#[test]
fn config_refuses_a_file_as_output() {
    let p = SnippetsProducer::new();
    match p.check_config(true) {
        Err(Error::FormatPath(msg)) => {
            assert_eq!(msg, "Output path MUST be a directory");
        }
        other => panic!("unexpected result: {:?}", other),
    }
}

#[test]
fn aggregate_keeps_only_files_with_snippets() {
    let s1 = Snippets::new(String::from("a.rs"), Language::Rust);
    let s2 = Snippets::new(String::from("b.rs"), Language::Python);
    let collected = collect_results(vec![None, Some(s1.clone()), None, Some(s2.clone())]);
    assert_eq!(collected, vec![s1, s2]);
}

#[test]
fn empty_aggregate_signals_clean_code() {
    assert_eq!(finalize_results(Vec::new()), None);
    let s = Snippets::new(String::from("a.rs"), Language::Rust);
    assert_eq!(finalize_results(vec![s.clone()]), Some(vec![s]));
}

#[test]
fn filenames_flatten_the_source_path() {
    let mk = |p: &str| Snippets::new(String::from(p), Language::Rust);
    let snippets = vec![
        mk("src/foo/bar.rs"),
        mk("./x/../y.rs"),
        mk("a\\b.rs"),
        mk("/usr/lib.rs"),
    ];
    let names = create_filenames(&snippets);
    assert_eq!(names, vec!["src_foo_bar.rs", "x_y.rs", "a_b.rs", "usr_lib.rs"]);
}

#[test]
fn error_messages() {
    assert_eq!(Error::WrongContent.message(), "Wrong content");
    assert_eq!(
        Error::Thresholds.message(),
        "Each complexity metric MUST have a threshold."
    );
    assert_eq!(
        Error::Concurrent(String::from("worker gone")).message(),
        "Concurrent failure: worker gone"
    );
    assert_eq!(
        Error::NonUtf8Conversion.message(),
        "Impossible to complete a non-utf8 conversion"
    );
}

#[test]
fn default_output_format_name() {
    assert_eq!(OutputFormat::default(), "markdown");
}

#[test]
fn metric_requests_parse_with_default_threshold() {
    assert_eq!(
        parse_metric_spec("cyclomatic"),
        Some((Complexity::Cyclomatic, 15))
    );
    assert_eq!(
        parse_metric_spec(" cognitive "),
        Some((Complexity::Cognitive, 15))
    );
}

#[test]
fn metric_requests_parse_with_explicit_threshold() {
    assert_eq!(
        parse_metric_spec("cognitive:7"),
        Some((Complexity::Cognitive, 7))
    );
    assert_eq!(
        parse_metric_spec(" cyclomatic : 20 "),
        Some((Complexity::Cyclomatic, 20))
    );
    assert_eq!(parse_metric_spec("cyclomatic:0"), Some((Complexity::Cyclomatic, 0)));
    assert_eq!(
        parse_metric_spec("cyclomatic:00015"),
        Some((Complexity::Cyclomatic, 15))
    );
}

#[test]
fn bad_metric_requests_are_refused() {
    assert_eq!(parse_metric_spec("halstead"), None);
    assert_eq!(parse_metric_spec("Cyclomatic"), None);
    assert_eq!(parse_metric_spec("cyclomatic:x"), None);
    assert_eq!(parse_metric_spec("cyclomatic:"), None);
    assert_eq!(parse_metric_spec(":"), None);
    assert_eq!(parse_metric_spec(""), None);
    assert_eq!(
        parse_metric_spec("cyclomatic:99999999999999999999999999999999"),
        None
    );
}
