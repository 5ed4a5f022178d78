use xml_splitter::{
    serialize_text, transform, Allowlist, Blocklist, Config, Dirs, Email, EmailMessage, Ending,
    Filter, Mailer, Outcome, Settings, Source, Split, Timeformat, Transformation,
};

fn s(text: &str) -> String {
    text.to_string()
}

fn base_config() -> Config {
    Config {
        element: s("root/item"),
        filter: Filter {
            residue: s("res"),
            allowlist: Allowlist { exact: vec![], regex: vec![] },
            blocklist: Blocklist { exact: vec![], regex: vec![] },
        },
        split: Split { declaration: false, default: s("dflt"), grouping: vec![] },
        transformations: vec![],
        uploads: vec![],
        settings: Settings {
            lang: s("en"),
            history_size: 3,
            consistency_check: false,
            inconsistency_notification: false,
            dirs: Dirs { original: s("in"), transformed: s("out"), history: s("hist") },
            timeformats: Timeformat { history_folder: s("%Y-%m-%d"), files: s("%Y%m%d") },
            email: Email {
                mailer: Mailer { smtp: s("localhost"), port: 25, auth: false },
                message: EmailMessage { from: s("a@b.c"), reply_to: vec![], to: vec![], subject: s("x") },
            },
        },
    }
}

fn rule(target: &str) -> Transformation {
    Transformation {
        target: s(target),
        keep: true,
        value: s(""),
        nodes: vec![],
        source: Source { datafields: vec![], literals: vec![] },
        parameters: vec![],
        preconditions: vec![],
    }
}

fn output(outcome: &Outcome, group: &str) -> String {
    let events = &outcome.groups.iter().find(|(name, _)| name == group).unwrap().1;
    serialize_text(events).unwrap()
}

fn names(outcome: &Outcome) -> Vec<String> {
    outcome.groups.iter().map(|(name, _)| name.clone()).collect()
}

#[test]
fn grouping_by_text() {
    let mut config = base_config();
    config.split.grouping = vec![(s("root/item/kind"), vec![(s("A"), s("ga")), (s("B"), s("gb"))])];
    let input = b"<root><item><kind>A</kind><v>1</v></item><item><kind>B</kind><v>2</v></item><item><kind>C</kind><v>3</v></item></root>";
    let outcome = transform(input, config).unwrap();
    assert_eq!(outcome.ending, Ending::EndOfDocument);
    assert_eq!(names(&outcome), vec![s("ga"), s("gb"), s("res"), s("dflt")]);
    assert_eq!(output(&outcome, "ga"), "<root><item><kind>A</kind><v>1</v></item></root>");
    assert_eq!(output(&outcome, "gb"), "<root><item><kind>B</kind><v>2</v></item></root>");
    assert_eq!(output(&outcome, "dflt"), "<root><item><kind>C</kind><v>3</v></item></root>");
    assert_eq!(output(&outcome, "res"), "<root></root>");
}

#[test]
fn residue_via_blocklist() {
    let mut config = base_config();
    config.split.grouping = vec![(s("root/item/kind"), vec![(s("X"), s("gx"))])];
    config.filter.blocklist.exact = vec![(s("root/item/kind"), vec![s("X")])];
    let input = b"<root><item><kind>X</kind></item><item><kind>Y</kind></item></root>";
    let outcome = transform(input, config).unwrap();
    assert_eq!(output(&outcome, "res"), "<root><item><kind>X</kind></item></root>");
    assert_eq!(output(&outcome, "gx"), "<root></root>");
    assert_eq!(output(&outcome, "dflt"), "<root><item><kind>Y</kind></item></root>");
}

#[test]
fn elided_subtree_is_left_out() {
    let mut config = base_config();
    let mut secret = rule("root/item/secret");
    secret.keep = false;
    config.transformations = vec![secret];
    let input = b"<root><item><secret><pw>p</pw></secret><v>ok</v></item></root>";
    let outcome = transform(input, config).unwrap();
    assert_eq!(output(&outcome, "dflt"), "<root><item><v>ok</v></item></root>");
}

#[test]
fn literal_value_replaces_the_text() {
    let mut config = base_config();
    let mut fixed = rule("root/item/v");
    fixed.value = s("X");
    config.transformations = vec![fixed];
    let input = b"<root><item><k>1</k><v>1</v></item></root>";
    let outcome = transform(input, config).unwrap();
    assert_eq!(output(&outcome, "dflt"), "<root><item><k>1</k><v>X</v></item></root>");
}

#[test]
fn expression_with_decimal_places() {
    let mut config = base_config();
    let mut scaled = rule("root/item/v");
    scaled.value = s("a*1.0");
    scaled.source.datafields = vec![(s("a"), s("root/item/v"))];
    scaled.parameters = vec![(s("decimal_places"), s("2"))];
    config.transformations = vec![scaled];
    let input = b"<root><item><v>3</v></item></root>";
    let outcome = transform(input, config).unwrap();
    assert_eq!(output(&outcome, "dflt"), "<root><item><v>3.00</v></item></root>");
    assert!(outcome.warnings.is_empty());
}

#[test]
fn append_wrap_under_precondition() {
    let mut config = base_config();
    let mut flag = rule("root/item");
    flag.value = s("yes");
    flag.nodes = vec![(s("append"), s("flag/on"))];
    flag.preconditions = vec![(s("existing"), vec![s("root/item/v")])];
    config.transformations = vec![flag];
    let input = b"<root><item><v>1</v></item><item><w>1</w></item></root>";
    let outcome = transform(input, config).unwrap();
    assert_eq!(
        output(&outcome, "dflt"),
        "<root><item><v>1</v></item><flag><on>yes</on></flag><item><w>1</w></item></root>"
    );
}

#[test]
fn appended_literal_is_escaped_as_it_stands() {
    let mut config = base_config();
    let mut flag = rule("root/item");
    flag.value = s("'yes'");
    flag.nodes = vec![(s("append"), s("flag/on"))];
    flag.preconditions = vec![(s("existing"), vec![s("root/item/v")])];
    config.transformations = vec![flag];
    let input = b"<root><item><v>1</v></item></root>";
    let outcome = transform(input, config).unwrap();
    assert_eq!(
        output(&outcome, "dflt"),
        "<root><item><v>1</v></item><flag><on>&apos;yes&apos;</on></flag></root>"
    );
}
