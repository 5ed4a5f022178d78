use xml_splitter::get_msg;

fn catalog() -> Vec<(String, Vec<(String, String)>)> {
    vec![(
        "values".to_string(),
        vec![("en".to_string(), "Values".to_string()), ("de".to_string(), "Werte".to_string())],
    )]
}

#[test]
fn message_is_found_by_key_and_language() {
    assert_eq!(get_msg(&catalog(), "values", &"de".to_string()), "Werte");
}

#[test]
fn message_falls_back_to_the_key() {
    assert_eq!(get_msg(&catalog(), "values", &"fr".to_string()), "values");
    assert_eq!(get_msg(&catalog(), "other", &"en".to_string()), "other");
}
