use xml_splitter::{
    check_consistency, due_uploads, Allowlist, Blocklist, Config, Dirs, Email, EmailMessage,
    Filter, Mailer, Settings, Split, Timeformat, Upload,
};

fn s(text: &str) -> String {
    text.to_string()
}

fn list(items: &[&str]) -> Vec<String> {
    items.iter().map(|item| item.to_string()).collect()
}

fn pairs(items: &[(&str, &str)]) -> Vec<(String, String)> {
    items.iter().map(|(k, v)| (k.to_string(), v.to_string())).collect()
}

fn config() -> Config {
    Config {
        element: s("root/item"),
        filter: Filter {
            residue: s("res"),
            allowlist: Allowlist { exact: vec![], regex: vec![] },
            blocklist: Blocklist { exact: vec![], regex: vec![] },
        },
        split: Split { declaration: false, default: s("dflt"), grouping: vec![] },
        transformations: vec![],
        uploads: vec![],
        settings: Settings {
            lang: s("en"),
            history_size: 3,
            consistency_check: true,
            inconsistency_notification: false,
            dirs: Dirs { original: s("in"), transformed: s("out"), history: s("hist") },
            timeformats: Timeformat { history_folder: s("%Y-%m-%d"), files: s("%Y%m%d") },
            email: Email {
                mailer: Mailer { smtp: s("localhost"), port: 25, auth: false },
                message: EmailMessage { from: s("a@b.c"), reply_to: vec![], to: vec![], subject: s("x") },
            },
        },
    }
}

fn upload(included: &[&str], excluded: &[&str]) -> Upload {
    Upload {
        active: true,
        timeout: s("2.5"),
        protocol: s("SFTP"),
        server: s("host"),
        path: s("/in"),
        user: s("me"),
        key: s("id"),
        pubkey: s("id.pub"),
        included: list(included),
        excluded: list(excluded),
    }
}

#[test]
fn a_consistent_configuration_gives_no_report() {
    let mut config = config();
    config.split.grouping = vec![(s("p"), pairs(&[("A", "ga")]))];
    config.filter.allowlist.exact = vec![(s("p"), list(&["A"]))];
    config.filter.blocklist.exact = vec![(s("q"), list(&["A"]))];
    assert_eq!(check_consistency(&config, &vec![], &s("en")), None);
}

#[test]
fn paths_both_allowed_and_blocked_are_reported_alone() {
    let mut config = config();
    config.split.grouping = vec![(s("p"), pairs(&[("A", "ga")]))];
    config.filter.allowlist.exact = vec![(s("p"), list(&["B"])), (s("q"), list(&["B"]))];
    config.filter.allowlist.regex = vec![(s("r"), list(&["B"]))];
    config.filter.blocklist.exact = vec![(s("r"), list(&["C"]))];
    config.filter.blocklist.regex = vec![(s("p"), list(&["C"])), (s("r"), list(&["C"]))];
    let catalog = vec![(s("allow_block_conflict"), pairs(&[("en", "Allowed and blocked")]))];
    assert_eq!(
        check_consistency(&config, &catalog, &s("en")),
        Some(s("Allowed and blocked:\n  \u{2022} p\n  \u{2022} r"))
    );
}

#[test]
fn disagreements_are_reported_kind_by_kind() {
    let mut config = config();
    config.split.grouping = vec![
        (s("p"), pairs(&[("A", "ga"), ("B", "gb")])),
        (s("q"), pairs(&[("X", "gx"), ("Y", "gy")])),
        (s("r"), pairs(&[("Z", "gz")])),
    ];
    config.filter.allowlist.exact = vec![(s("p"), list(&["A", "C"]))];
    config.filter.allowlist.regex = vec![(s("r"), list(&["Z"]))];
    config.filter.blocklist.exact = vec![(s("q"), list(&["X"]))];
    assert_eq!(
        check_consistency(&config, &vec![], &s("en")),
        Some(s(
            "filter_split_conflict:\n\n\u{2022} splitting_without_allowance:\n\n  xml_element: p\n  values: B\n\n\u{2022} splitting_despite_blocking:\n\n  xml_element: q\n  values: X\n\n\u{2022} allowance_without_splitting:\n\n  xml_element: p\n  values: C\n"
        ))
    );
}

#[test]
fn an_upload_without_lists_takes_all_but_residue_and_default() {
    let plain = upload(&[], &[]);
    assert!(plain.accepts(&s("ga"), &s("res"), &s("dflt")));
    assert!(!plain.accepts(&s("res"), &s("res"), &s("dflt")));
    assert!(!plain.accepts(&s("dflt"), &s("res"), &s("dflt")));
}

#[test]
fn an_upload_goes_by_its_lists() {
    let only = upload(&["ga", "res"], &[]);
    assert!(only.accepts(&s("ga"), &s("res"), &s("dflt")));
    assert!(only.accepts(&s("res"), &s("res"), &s("dflt")));
    assert!(!only.accepts(&s("gb"), &s("res"), &s("dflt")));
    let except = upload(&[], &["ga"]);
    assert!(!except.accepts(&s("ga"), &s("res"), &s("dflt")));
    assert!(except.accepts(&s("dflt"), &s("res"), &s("dflt")));
    let both = upload(&["ga", "gb"], &["gb"]);
    assert!(both.accepts(&s("ga"), &s("res"), &s("dflt")));
    assert!(!both.accepts(&s("gb"), &s("res"), &s("dflt")));
    assert!(!both.accepts(&s("gc"), &s("res"), &s("dflt")));
}

#[test]
fn a_file_is_handed_to_the_active_uploads_that_take_its_group() {
    let mut config = config();
    let mut idle = upload(&[], &[]);
    idle.active = false;
    config.uploads = vec![upload(&["ga"], &[]), idle, upload(&[], &["ga"]), upload(&[], &[])];
    assert_eq!(due_uploads(&config, &s("out/ga_in_2024.xml")), vec![0, 3]);
    assert_eq!(due_uploads(&config, &s("out/gb_in_2024.xml")), vec![2, 3]);
    assert_eq!(due_uploads(&config, &s("out/res_in_2024.xml")), vec![2]);
}

#[test]
fn the_transfer_is_called_by_protocol() {
    let lower = list(&["-m", "2.5", "-u", "me:", "--key", "id", "--pubkey", "id.pub", "-T", "out/f.xml", "sftp://host/in/"]);
    assert_eq!(upload(&[], &[]).arguments("out/f.xml"), Some(lower));
    let mut web = upload(&[], &[]);
    web.protocol = s("Https");
    assert_eq!(
        web.arguments("out/f.xml"),
        Some(list(&["-m", "2.5", "-d", "@out/f.xml", "-H", "Content-Type: application/xml", "https://host/in/"]))
    );
    let mut odd = upload(&[], &[]);
    odd.protocol = s("ftp");
    assert_eq!(odd.arguments("out/f.xml"), None);
}

#[test]
fn a_text_in_conflict_is_named_once() {
    let mut config = config();
    config.split.grouping = vec![(s("p"), pairs(&[("A", "ga"), ("A", "gb"), ("B", "gc")]))];
    config.filter.allowlist.exact = vec![(s("p"), list(&["C", "C"]))];
    config.filter.allowlist.regex = vec![(s("p"), list(&["C"])), (s("p"), list(&["A"]))];
    assert_eq!(
        check_consistency(&config, &vec![], &s("en")),
        Some(s(
            "filter_split_conflict:\n\n\u{2022} splitting_without_allowance:\n\n  xml_element: p\n  values: A, B\n\n\u{2022} allowance_without_splitting:\n\n  xml_element: p\n  values: C\n"
        ))
    );
}
