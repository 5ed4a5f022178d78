use xml_splitter::{
    compile_warnings, day_of, embed, format_warning, get_difference, get_intersection,
    join_strings, prefix_of, select_original, serialize, split_text, superordinate,
    update_sliding_window, EventKind, OriginalError, PathTracker, XmlEvent,
};

fn s(text: &str) -> String {
    text.to_string()
}

fn list(items: &[&str]) -> Vec<String> {
    items.iter().map(|item| item.to_string()).collect()
}

fn catalog() -> Vec<(String, Vec<(String, String)>)> {
    vec![
        (s("xml_element"), vec![(s("en"), s("Element"))]),
        (s("values"), vec![(s("en"), s("Values"))]),
    ]
}

#[test]
fn warning_has_two_indented_lines() {
    let element = s("root/item/kind");
    let warning = format_warning((&element, list(&["A", "B"])), &catalog(), &s("en"));
    assert_eq!(warning, "  Element: root/item/kind\n  Values: A, B");
}

#[test]
fn warning_falls_back_to_keys() {
    let element = s("p");
    let warning = format_warning((&element, list(&["A"])), &catalog(), &s("de"));
    assert_eq!(warning, "  xml_element: p\n  values: A");
}

#[test]
fn warnings_are_separated_by_a_rule() {
    let first = s("p");
    let second = s("q");
    let compiled = compile_warnings(
        vec![(&first, list(&["A"])), (&second, list(&["B", "C"]))],
        &catalog(),
        &s("en"),
    );
    assert_eq!(compiled, "  Element: p\n  Values: A\n  ---\n  Element: q\n  Values: B, C");
    assert_eq!(compile_warnings(vec![], &catalog(), &s("en")), "");
}

#[test]
fn intersection_keeps_the_order_of_the_first_list() {
    assert_eq!(get_intersection(&list(&["c", "a", "b"]), &list(&["b", "c", "d"])), list(&["c", "b"]));
    assert_eq!(get_intersection(&list(&["a"]), &list(&[])), list(&[]));
}

#[test]
fn difference_keeps_what_only_the_first_list_has() {
    assert_eq!(get_difference(&list(&["c", "a", "b"]), &list(&["b", "c", "d"])), list(&["a"]));
    assert_eq!(get_difference(&list(&["a", "b"]), &list(&[])), list(&["a", "b"]));
}

#[test]
fn superordinate_is_true_above_and_beside_the_target() {
    let target = list(&["root", "item"]);
    assert!(superordinate(&list(&[]), &target));
    assert!(superordinate(&list(&["root"]), &target));
    assert!(superordinate(&list(&["root", "other"]), &target));
    assert!(superordinate(&list(&["other", "item"]), &target));
    assert!(superordinate(&list(&["root", "other", "item"]), &target));
}

#[test]
fn superordinate_is_false_at_and_below_the_target() {
    let target = list(&["root", "item"]);
    assert!(!superordinate(&list(&["root", "item"]), &target));
    assert!(!superordinate(&list(&["root", "item", "kind"]), &target));
    assert!(!superordinate(&list(&["root"]), &list(&[])));
}

#[test]
fn path_tracker_pushes_and_pops() {
    let mut path = PathTracker::new();
    assert_eq!(path.as_string(), "");
    path.push(s("root"));
    path.push(s("item"));
    assert_eq!(path.as_string(), "root/item");
    assert_eq!(path.depth(), 2);
    assert!(path.equals(&list(&["root", "item"])));
    assert!(!path.equals(&list(&["root"])));
    assert!(!path.is_strict_ancestor_of(&list(&["root", "item"])));
    path.pop();
    assert!(path.is_strict_ancestor_of(&list(&["root", "item"])));
    path.pop();
    path.pop();
    assert_eq!(path.depth(), 0);
}

#[test]
fn splitting_gives_one_piece_more_than_separators() {
    assert_eq!(split_text("a/b/c", '/'), list(&["a", "b", "c"]));
    assert_eq!(split_text("", '/'), list(&[""]));
    assert_eq!(split_text("a/", '/'), list(&["a", ""]));
    assert_eq!(split_text("/a", '/'), list(&["", "a"]));
    assert_eq!(split_text("\u{e4}/\u{f6}", '/'), list(&["\u{e4}", "\u{f6}"]));
}

#[test]
fn joining_undoes_splitting() {
    assert_eq!(join_strings(&list(&["a", "b", "c"]), "/"), "a/b/c");
    assert_eq!(join_strings(&list(&[]), "/"), "");
    assert_eq!(join_strings(&list(&["a"]), ", "), "a");
    assert_eq!(join_strings(&split_text("x//y/", '/'), "/"), "x//y/");
}

#[test]
fn embed_wraps_the_value_in_the_elements_of_the_path() {
    let events = embed(s("v"), s("a/b"));
    assert_eq!(
        events,
        vec![
            XmlEvent::new(EventKind::Start, b"a".to_vec()),
            XmlEvent::new(EventKind::Start, b"b".to_vec()),
            XmlEvent::new(EventKind::Text, b"v".to_vec()),
            XmlEvent::new(EventKind::End, b"b".to_vec()),
            XmlEvent::new(EventKind::End, b"a".to_vec()),
        ]
    );
    assert_eq!(serialize(&events), b"<a><b>v</b></a>".to_vec());
}

#[test]
fn embedded_value_is_escaped() {
    let events = embed(s("<a & 'b' \"c\">"), s("x"));
    assert_eq!(events[1].content, b"&lt;a &amp; &apos;b&apos; &quot;c&quot;&gt;".to_vec());
}

#[test]
fn the_one_file_is_the_original() {
    assert_eq!(select_original(&list(&["in.xml"])), Ok(s("in.xml")));
    assert_eq!(select_original(&list(&[])), Err(OriginalError::Missing));
    assert_eq!(select_original(&list(&["a.xml", "b.xml"])), Err(OriginalError::MoreThanOne));
}

#[test]
fn prefix_is_the_start_of_the_file_name() {
    assert_eq!(prefix_of("out/ga_input_2024.xml"), "ga");
    assert_eq!(prefix_of("ga_input.xml"), "ga");
    assert_eq!(prefix_of("a_b/c"), "c");
    assert_eq!(prefix_of("dir/"), "");
}

#[test]
fn a_folder_is_outdated_after_the_storage_period() {
    let today = day_of("2024-03-10", "%Y-%m-%d").unwrap();
    assert_eq!(day_of("2024-03-10", "%Y-%m-%d"), Some(738955));
    assert_eq!(update_sliding_window("2024-03-01", today, 8, "%Y-%m-%d"), Some(true));
    assert_eq!(update_sliding_window("2024-03-01", today, 9, "%Y-%m-%d"), Some(false));
    assert_eq!(update_sliding_window("2024-03-11", today, 0, "%Y-%m-%d"), Some(false));
    assert_eq!(update_sliding_window("2024-03-09", today, 0, "%Y-%m-%d"), Some(true));
}

#[test]
fn a_folder_that_names_no_date_is_left_alone() {
    let today = day_of("2024-03-10", "%Y-%m-%d").unwrap();
    assert_eq!(update_sliding_window("notes", today, 1, "%Y-%m-%d"), None);
    assert_eq!(day_of("10.03.2024", "%Y-%m-%d"), None);
}

#[test]
fn lists_without_repeats_give_results_without_repeats() {
    let left = list(&["a", "b", "c", "d"]);
    let right = list(&["d", "b", "b", "x"]);
    assert_eq!(get_intersection(&left, &right), list(&["b", "d"]));
    assert_eq!(get_difference(&left, &right), list(&["a", "c"]));
    assert_eq!(get_intersection(&list(&["b", "b"]), &right), list(&["b", "b"]));
}
