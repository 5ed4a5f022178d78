use xml_splitter::{
    read_events, rewrite_events, serialize, serialize_text, transform, Allowlist, Blocklist,
    Config, ConfigError, Dirs, Email, EmailMessage, Ending, EventKind, Filter, Mailer, Outcome,
    Rewriter, Settings, Source, Split, Timeformat, Transformation, Warning, XmlEvent,
};

fn s(text: &str) -> String {
    text.to_string()
}

fn pairs(items: &[(&str, &str)]) -> Vec<(String, String)> {
    items.iter().map(|(k, v)| (k.to_string(), v.to_string())).collect()
}

fn config() -> Config {
    Config {
        element: s("root/item"),
        filter: Filter {
            residue: s("res"),
            allowlist: Allowlist { exact: vec![], regex: vec![] },
            blocklist: Blocklist { exact: vec![], regex: vec![] },
        },
        split: Split { declaration: false, default: s("dflt"), grouping: vec![] },
        transformations: vec![],
        uploads: vec![],
        settings: Settings {
            lang: s("en"),
            history_size: 3,
            consistency_check: false,
            inconsistency_notification: false,
            dirs: Dirs { original: s("in"), transformed: s("out"), history: s("hist") },
            timeformats: Timeformat { history_folder: s("%Y-%m-%d"), files: s("%Y%m%d") },
            email: Email {
                mailer: Mailer { smtp: s("localhost"), port: 25, auth: false },
                message: EmailMessage { from: s("a@b.c"), reply_to: vec![], to: vec![], subject: s("x") },
            },
        },
    }
}

fn rule(target: &str, value: &str) -> Transformation {
    Transformation {
        target: s(target),
        keep: true,
        value: s(value),
        nodes: vec![],
        source: Source { datafields: vec![], literals: vec![] },
        parameters: vec![],
        preconditions: vec![],
    }
}

fn output(outcome: &Outcome, group: &str) -> String {
    let events = &outcome.groups.iter().find(|(name, _)| name == group).unwrap().1;
    serialize_text(events).unwrap()
}

fn run(input: &str, config: Config) -> Outcome {
    transform(input.as_bytes(), config).unwrap()
}

#[test]
fn plain_configuration_copies_the_document() {
    let input = "<root a=\"1\"><!--c--><item id=\"1\"><v>1 &amp; 2</v><e/><![CDATA[x]]></item><other><item>o</item></other><item><?p i?></item></root>";
    let outcome = run(input, config());
    assert_eq!(outcome.ending, Ending::EndOfDocument);
    assert_eq!(output(&outcome, "dflt"), input);
    assert_eq!(
        output(&outcome, "res"),
        "<root a=\"1\"><!--c--><other><item>o</item></other></root>"
    );
    assert!(outcome.warnings.is_empty());
}

#[test]
fn texts_of_line_breaks_are_dropped() {
    let input = "<root>\n<item>\r\n<v>1</v>\n  <w>2</w>\n\n</item>\n</root>";
    let outcome = run(input, config());
    assert_eq!(output(&outcome, "dflt"), "<root><item><v>1</v>\n  <w>2</w></item></root>");
}

#[test]
fn the_declaration_is_copied_only_on_request() {
    let input = "<?xml version=\"1.0\"?><root><item>1</item></root>";
    let without = run(input, config());
    assert_eq!(output(&without, "dflt"), "<root><item>1</item></root>");
    let mut with_declaration = config();
    with_declaration.split.declaration = true;
    let with = run(input, with_declaration);
    assert_eq!(output(&with, "dflt"), input);
    assert_eq!(output(&with, "res"), "<?xml version=\"1.0\"?><root></root>");
}

#[test]
fn the_group_starts_over_with_every_split_element() {
    let mut config = config();
    config.split.grouping = vec![(s("root/item/kind"), pairs(&[("A", "ga")]))];
    let outcome = run("<root><item><kind>A</kind></item><item><v>1</v></item></root>", config);
    assert_eq!(output(&outcome, "ga"), "<root><item><kind>A</kind></item></root>");
    assert_eq!(output(&outcome, "dflt"), "<root><item><v>1</v></item></root>");
}

#[test]
fn the_text_that_selects_is_the_unescaped_text() {
    let mut config = config();
    config.split.grouping = vec![(s("root/item/kind"), pairs(&[("t&u", "ga"), ("\u{e4}", "gb")]))];
    let input = "<root><item><kind>t&amp;u</kind></item><item><kind>&#228;</kind></item></root>";
    let outcome = run(input, config);
    assert_eq!(output(&outcome, "ga"), "<root><item><kind>t&amp;u</kind></item></root>");
    assert_eq!(output(&outcome, "gb"), "<root><item><kind>&#228;</kind></item></root>");
    assert_eq!(output(&outcome, "dflt"), "<root></root>");
}

#[test]
fn once_rejected_a_split_element_stays_rejected() {
    let mut config = config();
    config.filter.blocklist.exact = vec![(s("root/item/kind"), vec![s("X")])];
    config.filter.allowlist.regex = vec![(s("root/item/kind"), vec![s("^[A-Z]$")])];
    config.split.grouping = vec![(s("root/item/kind"), pairs(&[("Y", "gy")]))];
    let input = "<root><item><kind>X</kind><kind>Y</kind></item><item><kind>Y</kind></item><item><kind>yy</kind></item></root>";
    let outcome = run(input, config);
    assert_eq!(
        output(&outcome, "res"),
        "<root><item><kind>X</kind><kind>Y</kind></item><item><kind>yy</kind></item></root>"
    );
    assert_eq!(output(&outcome, "gy"), "<root><item><kind>Y</kind></item></root>");
    assert_eq!(output(&outcome, "dflt"), "<root></root>");
}

#[test]
fn a_split_element_goes_to_exactly_one_group() {
    let mut config = config();
    config.split.grouping = vec![(s("root/item/kind"), pairs(&[("A", "ga"), ("B", "gb")]))];
    let outcome = run("<root><item><kind>A</kind><kind>B</kind><v>1</v></item></root>", config);
    let with_item: Vec<&String> = outcome
        .groups
        .iter()
        .filter(|(_, events)| events.iter().any(|e| e.content == b"item".to_vec()))
        .map(|(name, _)| name)
        .collect();
    assert_eq!(with_item, vec![&s("gb")]);
    assert_eq!(output(&outcome, "gb"), "<root><item><kind>A</kind><kind>B</kind><v>1</v></item></root>");
}

#[test]
fn an_elided_subtree_leaves_nothing_behind() {
    let mut config = config();
    let mut secret = rule("root/item/secret", "");
    secret.keep = false;
    config.transformations = vec![secret, rule("root/item/v", "X")];
    let input = "<root><item><secret a=\"1\">t<!--c--><pw>p</pw><![CDATA[d]]><e/><?p i?>&bad;</secret><v>ok</v></item></root>";
    let outcome = run(input, config);
    assert_eq!(outcome.ending, Ending::EndOfDocument);
    assert_eq!(output(&outcome, "dflt"), "<root><item><v>X</v></item></root>");
    assert_eq!(output(&outcome, "res"), "<root></root>");
}

#[test]
fn an_elided_element_above_the_split_element_is_left_out_of_every_group() {
    let mut config = config();
    let mut header = rule("root/header", "");
    header.keep = false;
    config.transformations = vec![header];
    let outcome = run("<root><header><item>h</item></header><item>1</item></root>", config);
    assert_eq!(output(&outcome, "dflt"), "<root><item>1</item></root>");
    assert_eq!(output(&outcome, "res"), "<root></root>");
}

#[test]
fn the_later_of_two_rules_for_one_text_wins() {
    let mut config = config();
    config.transformations = vec![rule("root/item/v", "X"), rule("root/item/v", "Y")];
    let outcome = run("<root><item><v>1</v></item></root>", config);
    assert_eq!(output(&outcome, "dflt"), "<root><item><v>Y</v></item></root>");
}

#[test]
fn a_written_value_is_escaped() {
    let mut config = config();
    config.transformations = vec![rule("root/item/v", "a<b & \"c\"")];
    let outcome = run("<root><item><v>1</v></item></root>", config);
    assert_eq!(output(&outcome, "dflt"), "<root><item><v>a&lt;b &amp; &quot;c&quot;</v></item></root>");
}

#[test]
fn an_insert_wrap_stands_before_the_end_tag_and_an_append_wrap_after_it() {
    let mut config = config();
    let mut first = rule("root/item/v", "one");
    first.nodes = pairs(&[("insert", "n/m")]);
    let mut second = rule("root/item/v", "two");
    second.nodes = pairs(&[("insert", "o"), ("append", "p")]);
    let mut third = rule("root/item/v", "three");
    third.nodes = pairs(&[("append", "q")]);
    config.transformations = vec![first, second, third];
    let outcome = run("<root><item><v>1</v><w>2</w></item></root>", config);
    assert_eq!(
        output(&outcome, "dflt"),
        "<root><item><v>1<n><m>one</m></n><o>two</o></v><p>two</p><q>three</q><w>2</w></item></root>"
    );
}

#[test]
fn a_rule_waits_for_its_preconditions() {
    let mut config = config();
    let mut guarded = rule("root/item/v", "X");
    guarded.preconditions = vec![
        (s("missing"), vec![s("root/item/skip")]),
        (s("existing"), vec![s("root/item/need")]),
    ];
    config.transformations = vec![guarded];
    let input = "<root><item><need></need><v>1</v></item><item><v>2</v></item><item><need></need><skip></skip><v>3</v></item><item><need></need><v>4</v></item></root>";
    let outcome = run(input, config);
    assert_eq!(
        output(&outcome, "dflt"),
        "<root><item><need></need><v>X</v></item><item><v>2</v></item><item><need></need><skip></skip><v>3</v></item><item><need></need><v>X</v></item></root>"
    );
}

#[test]
fn captured_values_do_not_outlive_their_split_element() {
    let mut config = config();
    let mut sum = rule("root/item/sum", "a + b");
    sum.source.datafields = pairs(&[("a", "root/item/a"), ("b", "root/item/b")]);
    config.transformations = vec![sum];
    let input = "<root><item><a>1</a><b>2</b><sum>?</sum></item><item><a>5</a><sum>?</sum></item></root>";
    let outcome = run(input, config);
    assert_eq!(
        output(&outcome, "dflt"),
        "<root><item><a>1</a><b>2</b><sum>3</sum></item><item><a>5</a><sum></sum></item></root>"
    );
}

#[test]
fn literals_join_the_captured_values() {
    let mut config = config();
    let mut price = rule("root/item/gross", "net * (100 + vat) / 100.0");
    price.source.datafields = pairs(&[("net", "root/item/net")]);
    price.source.literals = pairs(&[("vat", "19")]);
    price.parameters = pairs(&[("decimal_places", "2")]);
    config.transformations = vec![price];
    let outcome = run("<root><item><net>200</net><gross>0</gross></item></root>", config);
    assert_eq!(output(&outcome, "dflt"), "<root><item><net>200</net><gross>238.00</gross></item></root>");
}

#[test]
fn warnings_are_handed_on() {
    let mut config = config();
    let mut odd = rule("root/item/v", "a * 1.0");
    odd.source.datafields = pairs(&[("a", "root/item/v")]);
    odd.parameters = pairs(&[("decimal_places", "many")]);
    config.transformations = vec![odd];
    let outcome = run("<root><item><v>3</v></item></root>", config);
    assert_eq!(output(&outcome, "dflt"), "<root><item><v>many</v></item></root>");
    assert_eq!(outcome.warnings, vec![Warning::DecimalPlacesNotParsable]);
}

#[test]
fn a_failed_evaluation_ends_the_run() {
    let mut config = config();
    let mut broken = rule("root/item/v", "a +");
    broken.source.datafields = pairs(&[("a", "root/item/v")]);
    config.transformations = vec![broken];
    let outcome = run("<root><item><v>3</v></item><item><v>4</v></item></root>", config);
    assert!(matches!(outcome.ending, Ending::EvaluationFailure(_)));
    assert_eq!(output(&outcome, "dflt"), "<root>");
}

#[test]
fn a_reader_failure_leaves_what_was_written() {
    let outcome = run("<root><item>1</item><item>2</wrong></root>", config());
    assert_eq!(outcome.ending, Ending::ReaderFailure);
    assert_eq!(output(&outcome, "dflt"), "<root><item>1</item>");
    assert_eq!(output(&outcome, "res"), "<root>");
}

#[test]
fn a_name_that_is_no_utf8_ends_the_run() {
    let events = vec![
        XmlEvent::new(EventKind::Start, b"root".to_vec()),
        XmlEvent::new(EventKind::Start, vec![0x69, 0xff]),
        XmlEvent::new(EventKind::Eof, vec![]),
    ];
    let outcome = rewrite_events(&events, config());
    assert_eq!(outcome.ending, Ending::MalformedName);
    assert_eq!(output(&outcome, "dflt"), "<root>");
}

#[test]
fn a_text_that_cannot_be_read_ends_the_run() {
    let unknown = run("<root><item>&unknown;</item></root>", config());
    assert_eq!(unknown.ending, Ending::MalformedText);
    let open = run("<root>a &amp b</root>", config());
    assert_eq!(open.ending, Ending::MalformedText);
    let events = vec![
        XmlEvent::new(EventKind::Start, b"root".to_vec()),
        XmlEvent::new(EventKind::Text, vec![0x61, 0xff]),
    ];
    assert_eq!(rewrite_events(&events, config()).ending, Ending::MalformedText);
}

#[test]
fn events_without_an_end_leave_the_run_unfinished() {
    let mut events = read_events(b"<root><item>1</item></root>");
    events.pop();
    let outcome = rewrite_events(&events, config());
    assert_eq!(outcome.ending, Ending::Unfinished);
    assert_eq!(output(&outcome, "dflt"), "<root><item>1</item></root>");
    assert_eq!(rewrite_events(&vec![], config()).ending, Ending::Unfinished);
}

#[test]
fn rewriting_a_list_is_rewriting_the_document() {
    let mut config = config();
    config.split.grouping = vec![(s("root/item/kind"), pairs(&[("A", "ga")]))];
    config.transformations = vec![rule("root/item/v", "X")];
    let input = b"<root><item><kind>A</kind><v>1</v></item><item><v>2</v></item></root>";
    let from_bytes = transform(input, config.clone()).unwrap();
    let from_list = rewrite_events(&read_events(input), config);
    assert_eq!(from_bytes.groups, from_list.groups);
    assert_eq!(from_bytes.ending, from_list.ending);
}

#[test]
fn the_path_is_empty_after_the_end_of_the_document() {
    let mut rewriter = Rewriter::new(config());
    let mut last = None;
    for event in read_events(b"<root><item><v>1</v></item><e/></root>") {
        assert!(last.is_none());
        last = rewriter.step(event);
    }
    assert_eq!(last, Some(Ending::EndOfDocument));
    assert_eq!(rewriter.current_path.depth(), 0);
    assert!(rewriter.pending.is_empty());
    assert!(rewriter.keep);
}

#[test]
fn an_element_left_open_stays_on_the_path() {
    let mut rewriter = Rewriter::new(config());
    for event in read_events(b"<root><item>") {
        rewriter.step(event);
    }
    assert_eq!(rewriter.current_path.as_string(), "root/item");
    assert_eq!(serialize(&rewriter.pending), b"<item>".to_vec());
}

#[test]
fn a_rule_with_an_unknown_node_is_refused() {
    let mut config = config();
    let mut odd = rule("root/item/v", "X");
    odd.nodes = pairs(&[("insert", "a"), ("prepend", "b")]);
    config.transformations = vec![rule("root/item/w", "Y"), odd];
    assert_eq!(transform(b"<root/>", config).err(), Some(ConfigError::InvalidNodes(1)));
}

#[test]
fn the_split_element_may_be_the_root() {
    let mut config = config();
    config.element = s("root");
    let outcome = run("<!--c--><root><v>1</v></root><!--d-->", config);
    assert_eq!(output(&outcome, "dflt"), "<!--c--><root><v>1</v></root><!--d-->");
    assert_eq!(output(&outcome, "res"), "<!--c--><!--d-->");
}
