use complex_code_spotter::metrics::Complexity;
use complex_code_spotter::region::Region;
use complex_code_spotter::snippets::{get_code_snippets, Language, Snippets};

fn leaf(start: usize, end: usize, cyclomatic: usize, cognitive: usize) -> Region {
    Region::new(start, end, cyclomatic, cognitive, Vec::new())
}

fn run_engine(
    root: &Region,
    source: &str,
    complexities: Vec<Complexity>,
    thresholds: Vec<usize>,
) -> Option<Snippets> {
    get_code_snippets(
        root,
        Language::Rust,
        String::from("file.rs"),
        source,
        &complexities,
        &thresholds,
    )
}

#[test]
fn region_new_computes_maxima() {
    let c = leaf(5, 6, 25, 1);
    let b = Region::new(4, 7, 5, 2, vec![c]);
    let a = leaf(2, 3, 20, 3);
    let root = Region::new(1, 10, 3, 0, vec![a, b]);
    assert_eq!(root.cyclomatic_max, 25);
    assert_eq!(root.cognitive_max, 3);
    assert_eq!(root.children[1].cyclomatic_max, 25);
    assert_eq!(root.children[0].cyclomatic_max, 20);
    assert!(root.check());
}

#[test]
fn region_check_rejects_bad_trees() {
    let bad_bounds = Region {
        start_line: 3,
        end_line: 1,
        cyclomatic: 0,
        cyclomatic_max: 0,
        cognitive: 0,
        cognitive_max: 0,
        children: Vec::new(),
    };
    assert!(!bad_bounds.check());
    let bad_max = Region {
        start_line: 1,
        end_line: 2,
        cyclomatic: 7,
        cyclomatic_max: 3,
        cognitive: 0,
        cognitive_max: 0,
        children: Vec::new(),
    };
    assert!(!bad_max.check());
    let leaf_mismatch = Region {
        start_line: 1,
        end_line: 2,
        cyclomatic: 1,
        cyclomatic_max: 2,
        cognitive: 0,
        cognitive_max: 0,
        children: Vec::new(),
    };
    assert!(!leaf_mismatch.check());
}

#[test]
fn metric_value_rule() {
    let r = leaf(1, 2, 10, 0);
    assert_eq!(Complexity::Cyclomatic.value(&r, 15), None);
    assert_eq!(Complexity::Cyclomatic.value(&r, 9), Some(10));
    let deep = Region::new(1, 5, 2, 0, vec![leaf(2, 3, 30, 0)]);
    // own value 2 is returned because the subtree maximum exceeds.
    assert_eq!(Complexity::Cyclomatic.value(&deep, 15), Some(2));
    assert_eq!(Complexity::Cognitive.value(&deep, 15), None);
}

#[test]
fn metric_defaults() {
    assert_eq!(Complexity::Cyclomatic.default_threshold(), 15);
    assert_eq!(Complexity::Cognitive.default_threshold(), 15);
    assert_eq!(
        Complexity::all(),
        vec![Complexity::Cyclomatic, Complexity::Cognitive]
    );
}

#[test]
fn single_region_reports_whole_file() {
    // One top-level region without children, cyclomatic 20, threshold 15.
    let source = "fn main() {\n    let x = 1;\n}\n";
    let root = leaf(1, 3, 20, 0);
    let result = run_engine(&root, source, vec![Complexity::Cyclomatic], vec![15]).unwrap();
    assert_eq!(result.language, Language::Rust);
    assert_eq!(result.snippets.len(), 1);
    let group = &result.snippets[0];
    assert_eq!(group.complexity, Complexity::Cyclomatic);
    assert_eq!(group.records.len(), 1);
    let rec = &group.records[0];
    assert_eq!(rec.complexity, 20);
    assert_eq!(rec.start_line, 1);
    assert_eq!(rec.end_line, 3);
    assert_eq!(rec.text, source);
}

#[test]
fn nested_regions_report_offenders_only() {
    // Root holds A (own 20) and B (own 5) whose child C has own 25:
    // records for A and C alone, each limited to its own lines.
    let source = "l1\nl2\nl3\nl4\nl5\nl6\nl7\nl8\nl9\nl10\n";
    let c = leaf(5, 6, 25, 0);
    let b = Region::new(4, 7, 5, 0, vec![c]);
    let a = leaf(2, 3, 20, 0);
    let root = Region::new(1, 10, 3, 0, vec![a, b]);
    let result = run_engine(&root, source, vec![Complexity::Cyclomatic], vec![15]).unwrap();
    assert_eq!(result.snippets.len(), 1);
    let group = &result.snippets[0];
    assert_eq!(group.complexity, Complexity::Cyclomatic);
    assert_eq!(group.records.len(), 2);
    assert_eq!(group.records[0].complexity, 20);
    assert_eq!(group.records[0].start_line, 2);
    assert_eq!(group.records[0].end_line, 3);
    assert_eq!(group.records[0].text, "l2\nl3");
    assert_eq!(group.records[1].complexity, 25);
    assert_eq!(group.records[1].start_line, 5);
    assert_eq!(group.records[1].end_line, 6);
    assert_eq!(group.records[1].text, "l5\nl6");
}

#[test]
fn maximal_thresholds_report_nothing() {
    let c = leaf(5, 6, 25, 25);
    let b = Region::new(4, 7, 5, 5, vec![c]);
    let a = leaf(2, 3, 20, 20);
    let root = Region::new(1, 10, 3, 3, vec![a, b]);
    let source = "l1\nl2\nl3\nl4\nl5\nl6\nl7\nl8\nl9\nl10\n";
    let result = run_engine(
        &root,
        source,
        vec![Complexity::Cyclomatic, Complexity::Cognitive],
        vec![100, 100],
    );
    assert!(result.is_none());
}

#[test]
fn inflated_maximum_alone_reports_nothing() {
    // The subtree maximum exceeds the threshold but no own value does:
    // the maximum only steers the search, it is never reported itself.
    let child = leaf(2, 3, 10, 0);
    let root = Region {
        start_line: 1,
        end_line: 5,
        cyclomatic: 0,
        cyclomatic_max: 20,
        cognitive: 0,
        cognitive_max: 0,
        children: vec![child],
    };
    assert!(root.check());
    let source = "l1\nl2\nl3\nl4\nl5\n";
    let result = run_engine(&root, source, vec![Complexity::Cyclomatic], vec![15]);
    assert!(result.is_none());
}

#[test]
fn pruned_subtree_is_skipped() {
    // B's subtree maximum stays at the threshold, so nothing inside it
    // is reported even though C's own value exceeds B's own.
    let c = leaf(5, 6, 15, 0);
    let b = Region::new(4, 7, 2, 0, vec![c]);
    let a = leaf(2, 3, 20, 0);
    let root = Region::new(1, 10, 3, 0, vec![a, b]);
    let source = "l1\nl2\nl3\nl4\nl5\nl6\nl7\nl8\nl9\nl10\n";
    let result = run_engine(&root, source, vec![Complexity::Cyclomatic], vec![15]).unwrap();
    let group = &result.snippets[0];
    assert_eq!(group.records.len(), 1);
    assert_eq!(group.records[0].start_line, 2);
}

#[test]
fn two_metrics_report_separate_groups() {
    let a = leaf(2, 3, 20, 1);
    let b = leaf(4, 5, 1, 30);
    let root = Region::new(1, 6, 0, 0, vec![a, b]);
    let source = "l1\nl2\nl3\nl4\nl5\nl6\n";
    let result = run_engine(
        &root,
        source,
        vec![Complexity::Cyclomatic, Complexity::Cognitive],
        vec![15, 15],
    )
    .unwrap();
    assert_eq!(result.snippets.len(), 2);
    assert_eq!(result.snippets[0].complexity, Complexity::Cyclomatic);
    assert_eq!(result.snippets[0].records.len(), 1);
    assert_eq!(result.snippets[0].records[0].start_line, 2);
    assert_eq!(result.snippets[1].complexity, Complexity::Cognitive);
    assert_eq!(result.snippets[1].records.len(), 1);
    assert_eq!(result.snippets[1].records[0].start_line, 4);
}

#[test]
fn extraction_is_idempotent() {
    let c = leaf(5, 6, 25, 2);
    let b = Region::new(4, 7, 5, 1, vec![c]);
    let a = leaf(2, 3, 20, 0);
    let root = Region::new(1, 10, 3, 0, vec![a, b]);
    let source = "l1\nl2\nl3\nl4\nl5\nl6\nl7\nl8\nl9\nl10\n";
    let first = run_engine(&root, source, vec![Complexity::Cyclomatic], vec![8]);
    let second = run_engine(&root, source, vec![Complexity::Cyclomatic], vec![8]);
    assert_eq!(first, second);
}

#[test]
fn carriage_returns_leave_reported_lines() {
    let source = "aa\r\nbb\r\ncc\r\n";
    let child = leaf(2, 2, 20, 0);
    let root = Region::new(1, 3, 0, 0, vec![child]);
    let result = run_engine(&root, source, vec![Complexity::Cyclomatic], vec![15]).unwrap();
    assert_eq!(result.snippets[0].records[0].text, "bb");
}

#[test]
fn lines_beyond_the_file_give_empty_text() {
    let source = "l1\nl2\nl3\n";
    let child = leaf(8, 9, 20, 0);
    let root = Region::new(1, 3, 0, 0, vec![child]);
    let result = run_engine(&root, source, vec![Complexity::Cyclomatic], vec![15]).unwrap();
    let rec = &result.snippets[0].records[0];
    assert_eq!(rec.start_line, 8);
    assert_eq!(rec.text, "");
}

#[test]
fn language_names() {
    assert_eq!(Language::Rust.name(), "rust");
    assert_eq!(Language::Javascript.name(), "javascript");
    assert_eq!(Language::Cpp.name(), "cpp");
    assert_eq!(Language::Preproc.name(), "preproc");
}
