use xml_splitter::filter::any_pattern_matches;
use xml_splitter::{Allowlist, Blocklist, Filter, Split};

fn s(text: &str) -> String {
    text.to_string()
}

fn table(entries: &[(&str, &[&str])]) -> Vec<(String, Vec<String>)> {
    entries
        .iter()
        .map(|(path, texts)| (path.to_string(), texts.iter().map(|t| t.to_string()).collect()))
        .collect()
}

fn filter(
    allow_exact: &[(&str, &[&str])],
    allow_regex: &[(&str, &[&str])],
    block_exact: &[(&str, &[&str])],
    block_regex: &[(&str, &[&str])],
) -> Filter {
    Filter {
        residue: s("res"),
        allowlist: Allowlist { exact: table(allow_exact), regex: table(allow_regex) },
        blocklist: Blocklist { exact: table(block_exact), regex: table(block_regex) },
    }
}

#[test]
fn a_path_without_entries_lets_everything_pass() {
    let filter = filter(&[("p", &["A"])], &[], &[("q", &["B"])], &[]);
    assert!(filter.passes(&s("other"), &s("A")));
    assert!(filter.passes(&s("other"), &s("B")));
    assert!(filter.passes(&s("q"), &s("A")));
}

#[test]
fn the_allowlist_asks_for_one_of_its_texts_or_patterns() {
    let filter = filter(&[("p", &["A", "B"])], &[("p", &["^C[0-9]+$"])], &[], &[]);
    assert!(filter.passes(&s("p"), &s("A")));
    assert!(filter.passes(&s("p"), &s("B")));
    assert!(filter.passes(&s("p"), &s("C12")));
    assert!(!filter.passes(&s("p"), &s("C")));
    assert!(!filter.passes(&s("p"), &s("D")));
    assert!(!filter.passes(&s("p"), &s("^C[0-9]+$")));
}

#[test]
fn an_allowlist_of_patterns_alone_counts_too() {
    let filter = filter(&[], &[("p", &["^x"])], &[], &[]);
    assert!(filter.passes(&s("p"), &s("xy")));
    assert!(!filter.passes(&s("p"), &s("yx")));
    let empty = filter_with_empty_list();
    assert!(!empty.passes(&s("p"), &s("anything")));
}

fn filter_with_empty_list() -> Filter {
    filter(&[("p", &[])], &[], &[], &[])
}

#[test]
fn the_blocklist_stops_its_texts_and_patterns() {
    let filter = filter(&[], &[], &[("p", &["X"])], &[("p", &["secret"])]);
    assert!(!filter.passes(&s("p"), &s("X")));
    assert!(!filter.passes(&s("p"), &s("a secret thing")));
    assert!(filter.passes(&s("p"), &s("x")));
    assert!(filter.passes(&s("q"), &s("X")));
}

#[test]
fn blocking_wins_over_allowing() {
    let filter = filter(&[("p", &["A"])], &[], &[("p", &["A"])], &[]);
    assert!(!filter.passes(&s("p"), &s("A")));
}

#[test]
fn a_pattern_that_does_not_compile_matches_nothing() {
    let filter = filter(&[], &[("p", &["("])], &[], &[("q", &["["])]);
    assert!(!filter.passes(&s("p"), &s("(")));
    assert!(filter.passes(&s("q"), &s("[")));
    assert!(!any_pattern_matches(&vec![s("(")], &s("(")));
    assert!(any_pattern_matches(&vec![s("("), s("b")], &s("abc")));
    assert!(!any_pattern_matches(&vec![], &s("abc")));
}

#[test]
fn the_first_entry_of_a_path_counts() {
    let filter = filter(&[("p", &["A"]), ("p", &["B"])], &[], &[], &[]);
    assert!(filter.passes(&s("p"), &s("A")));
    assert!(!filter.passes(&s("p"), &s("B")));
}

fn split() -> Split {
    Split {
        declaration: false,
        default: s("dflt"),
        grouping: vec![
            (s("p"), vec![(s("A"), s("ga")), (s("B"), s("gb")), (s("A"), s("gc"))]),
            (s("q"), vec![(s("C"), s("ga"))]),
        ],
    }
}

#[test]
fn a_grouping_text_selects_its_group() {
    let split = split();
    assert_eq!(split.select(&s("p"), &s("A"), &s("now")), "ga");
    assert_eq!(split.select(&s("p"), &s("B"), &s("now")), "gb");
    assert_eq!(split.select(&s("q"), &s("C"), &s("now")), "ga");
}

#[test]
fn an_unknown_text_selects_the_default_group() {
    let split = split();
    assert_eq!(split.select(&s("p"), &s("Z"), &s("now")), "dflt");
    assert_eq!(split.select(&s("q"), &s("A"), &s("now")), "dflt");
}

#[test]
fn a_path_without_grouping_leaves_the_group() {
    assert_eq!(split().select(&s("r"), &s("A"), &s("now")), "now");
}

#[test]
fn every_group_is_named_once() {
    assert_eq!(split().groups(&s("res")), vec![s("ga"), s("gb"), s("gc"), s("res"), s("dflt")]);
    assert_eq!(split().groups(&s("ga")), vec![s("ga"), s("gb"), s("gc"), s("dflt")]);
    let bare = Split { declaration: false, default: s("same"), grouping: vec![] };
    assert_eq!(bare.groups(&s("same")), vec![s("same")]);
}

#[test]
fn patterns_that_do_not_compile_are_listed() {
    let filter = filter(&[("p", &["("])], &[("p", &["a+", "(", "[a-z]"]), ("q", &["*"])], &[], &[("r", &["x", "[", "(?P<n>"])]);
    assert_eq!(filter.invalid_patterns(), vec![s("("), s("*"), s("["), s("(?P<n>")]);
    let fine = filter_with_empty_list();
    assert!(fine.invalid_patterns().is_empty());
}
