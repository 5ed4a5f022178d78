use xml_splitter::expression::{evaluate_text, render, strip_quotes, typed_binding, Binding, Scalar};
use xml_splitter::guard::is_guarded_expression;
use xml_splitter::{Source, Transformation, Transformer, Warning};

fn s(text: &str) -> String {
    text.to_string()
}

fn pairs(items: &[(&str, &str)]) -> Vec<(String, String)> {
    items.iter().map(|(k, v)| (k.to_string(), v.to_string())).collect()
}

fn value_of(expression: &str, variables: &[(&str, &str)], places: Option<&str>) -> (String, Option<Warning>) {
    let places = places.map(|p| p.to_string());
    evaluate_text(&s(expression), &pairs(variables), places.as_ref()).unwrap()
}

fn bits(value: f64) -> u64 {
    value.to_bits()
}

#[test]
fn variables_are_typed_by_their_text() {
    assert_eq!(typed_binding(&s("12")), Binding::Int(12));
    assert_eq!(typed_binding(&s("+7")), Binding::Int(7));
    assert_eq!(typed_binding(&s("-0")), Binding::Int(0));
    assert_eq!(typed_binding(&s("007")), Binding::Int(7));
    assert_eq!(typed_binding(&s("-9223372036854775808")), Binding::Int(i64::MIN));
    assert_eq!(typed_binding(&s("9223372036854775807")), Binding::Int(i64::MAX));
    assert_eq!(typed_binding(&s("9223372036854775808")), Binding::Float(bits(9223372036854775808.0)));
    assert_eq!(typed_binding(&s("1.5")), Binding::Float(bits(1.5)));
    assert_eq!(typed_binding(&s("1e3")), Binding::Float(bits(1000.0)));
    assert_eq!(typed_binding(&s("abc")), Binding::Text(s("abc")));
    assert_eq!(typed_binding(&s("")), Binding::Text(s("")));
    assert_eq!(typed_binding(&s("+")), Binding::Text(s("+")));
    assert_eq!(typed_binding(&s("-")), Binding::Text(s("-")));
    assert_eq!(typed_binding(&s("1 ")), Binding::Text(s("1 ")));
    assert_eq!(typed_binding(&s("1_000")), Binding::Text(s("1_000")));
}

#[test]
fn integer_results_are_written_in_decimal() {
    assert_eq!(value_of("a + 1", &[("a", "2")], None), (s("3"), None));
    assert_eq!(value_of("a + 1", &[("a", "-5")], None), (s("-4"), None));
    assert_eq!(value_of("a * 10", &[("a", "1234567890")], None), (s("12345678900"), None));
    assert_eq!(value_of("a - a", &[("a", "7")], None), (s("0"), None));
    assert_eq!(value_of("a / 2", &[("a", "3")], None), (s("1"), None));
}

#[test]
fn float_results_are_written_as_floats() {
    assert_eq!(value_of("a * 1.5", &[("a", "3")], None), (s("4.5"), None));
    assert_eq!(value_of("a", &[("a", "12.50")], None), (s("12.5"), None));
    assert_eq!(value_of("a * 1.0", &[("a", "3")], None), (s("3"), None));
}

#[test]
fn decimal_places_fix_the_fraction_digits() {
    assert_eq!(value_of("a * 1.0", &[("a", "3")], Some("2")), (s("3.00"), None));
    assert_eq!(value_of("a / 3.0", &[("a", "2")], Some("3")), (s("0.667"), None));
    assert_eq!(value_of("a", &[("a", "2.5")], Some("0")), (s("2"), None));
    assert_eq!(value_of("a", &[("a", "7")], Some("1")), (s("7.0"), None));
    assert_eq!(value_of("a", &[("a", "7")], Some("+2")), (s("7.00"), None));
}

#[test]
fn unparsable_decimal_places_are_written_as_they_stand() {
    let warning = Some(Warning::DecimalPlacesNotParsable);
    assert_eq!(value_of("a * 1.0", &[("a", "3")], Some("two")), (s("two"), warning));
    assert_eq!(value_of("a", &[("a", "3")], Some("-1")), (s("-1"), warning));
    assert_eq!(value_of("a", &[("a", "3")], Some("")), (s(""), warning));
    assert_eq!(value_of("a", &[("a", "3")], Some("65536")), (s("65536"), warning));
}

#[test]
fn decimal_places_do_not_touch_other_results() {
    assert_eq!(value_of("a + \"x\"", &[("a", "foo")], Some("two")), (s("foox"), None));
    assert_eq!(value_of("a > 1", &[("a", "2")], Some("2")), (s("true"), None));
}

#[test]
fn the_empty_result_is_the_empty_text() {
    assert_eq!(value_of("", &[("a", "1")], None), (s(""), Some(Warning::EmptyValue)));
    assert_eq!(value_of("()", &[], Some("2")), (s(""), Some(Warning::EmptyValue)));
}

#[test]
fn string_results_lose_their_quotes() {
    assert_eq!(value_of("\"abc\"", &[], None), (s("abc"), None));
    assert_eq!(value_of("a + \"-\" + b", &[("a", "x"), ("b", "y")], None), (s("x-y"), None));
    assert_eq!(value_of("a", &[("a", "say \"hi\"")], None), (s("say \"hi\""), None));
    assert_eq!(value_of("(1, \"a\")", &[], None), (s("(1, \"a\")"), None));
}

#[test]
fn quotes_are_stripped_in_pairs_only() {
    assert_eq!(strip_quotes(s("\"a\"")), "a");
    assert_eq!(strip_quotes(s("\"\"")), "");
    assert_eq!(strip_quotes(s("\"")), "\"");
    assert_eq!(strip_quotes(s("\"a")), "\"a");
    assert_eq!(strip_quotes(s("a\"")), "a\"");
    assert_eq!(strip_quotes(s("\"\"a\"\"")), "\"a\"");
    assert_eq!(strip_quotes(s("")), "");
}

#[test]
fn rendering_goes_by_the_kind_of_result() {
    assert_eq!(render(Scalar::Int(-12), None), (s("-12"), None));
    assert_eq!(render(Scalar::Int(i64::MIN), None), (s("-9223372036854775808"), None));
    assert_eq!(render(Scalar::Int(2), Some(&s("3"))), (s("2.000"), None));
    assert_eq!(render(Scalar::Float(bits(0.125)), None), (s("0.125"), None));
    assert_eq!(render(Scalar::Float(bits(0.125)), Some(&s("1"))), (s("0.1"), None));
    assert_eq!(render(Scalar::Empty, Some(&s("1"))), (s(""), Some(Warning::EmptyValue)));
    assert_eq!(render(Scalar::Other(s("\"q\"")), Some(&s("x"))), (s("q"), None));
}

#[test]
fn evaluation_reports_its_errors() {
    assert!(evaluate_text(&s("a +"), &pairs(&[("a", "1")]), None).is_err());
    assert!(evaluate_text(&s("b + 1"), &pairs(&[("a", "1")]), None).is_err());
    assert!(evaluate_text(&s("a / 0"), &pairs(&[("a", "1")]), None).is_err());
    assert!(evaluate_text(&s("a + 1"), &pairs(&[("a", "x")]), None).is_err());
}

#[test]
fn a_variable_of_two_types_is_an_error() {
    let result = evaluate_text(&s("a"), &pairs(&[("a", "1"), ("a", "x")]), None);
    assert_eq!(result, Err(s("a variable has values of two types")));
    let same = evaluate_text(&s("a"), &pairs(&[("a", "1"), ("a", "2")]), None);
    assert_eq!(same, Ok((s("2"), None)));
}

fn rule(value: &str, datafields: &[(&str, &str)], literals: &[(&str, &str)]) -> Transformation {
    Transformation {
        target: s("root/item/v"),
        keep: true,
        value: s(value),
        nodes: vec![],
        source: Source { datafields: pairs(datafields), literals: pairs(literals) },
        parameters: vec![],
        preconditions: vec![
            (s("missing"), vec![s("root/item/skip")]),
            (s("existing"), vec![s("root/item/need")]),
        ],
    }
}

#[test]
fn a_rule_without_variables_has_its_value_at_once() {
    let transformer = Transformer::new(rule("X", &[], &[]));
    assert!(transformer.value_computed);
    assert_eq!(transformer.value_transformed, "X");
    let computed = Transformer::new(rule("a", &[("a", "root/item/a")], &[]));
    assert!(!computed.value_computed);
    assert_eq!(computed.value_transformed, "");
}

#[test]
fn a_rule_is_evaluated_once_every_variable_has_a_value() {
    let mut transformer = Transformer::new(rule("a + b + c", &[("a", "p/a"), ("b", "p/b")], &[("c", "100")]));
    assert_eq!(transformer.check_value(&s("p/x"), &s("9")), Ok(None));
    assert_eq!(transformer.parameters, pairs(&[("c", "100")]));
    assert_eq!(transformer.check_value(&s("p/a"), &s("1")), Ok(None));
    assert_eq!(transformer.value_transformed, "");
    assert_eq!(transformer.check_value(&s("p/b"), &s("20")), Ok(None));
    assert_eq!(transformer.value_transformed, "121");
    assert_eq!(transformer.check_value(&s("p/a"), &s("2")), Ok(None));
    assert_eq!(transformer.value_transformed, "122");
    assert_eq!(transformer.parameters, pairs(&[("c", "100"), ("a", "2"), ("b", "20")]));
    assert!(transformer.check_value(&s("p/a"), &s("x")).is_err());
}

#[test]
fn preconditions_follow_the_paths_that_were_seen() {
    let mut transformer = Transformer::new(rule("X", &[], &[]));
    assert!(!transformer.precondition());
    transformer.mark_seen(&s("root/item/need"));
    assert!(transformer.precondition());
    transformer.mark_seen(&s("root/item/skip"));
    assert!(!transformer.precondition());
    transformer.release();
    assert!(!transformer.precondition());
    transformer.mark_seen(&s("root/item/need"));
    assert!(transformer.precondition());
    transformer.renew();
    assert!(!transformer.precondition());
    assert_eq!(transformer.missing, vec![(s("root/item/skip"), true)]);
    assert_eq!(transformer.existing, vec![(s("root/item/need"), false)]);
}

#[test]
fn eval_expr_keeps_the_result() {
    let mut transformer = Transformer::new(rule("a * 2", &[("a", "p")], &[]));
    transformer.parameters = pairs(&[("a", "21")]);
    assert_eq!(transformer.eval_expr(), Ok(None));
    assert_eq!(transformer.value_transformed, "42");
    transformer.parameters = pairs(&[]);
    assert!(transformer.eval_expr().is_err());
    assert_eq!(transformer.value_transformed, "42");
}

#[test]
fn nodes_name_the_wraps_of_a_rule() {
    let mut wrapping = rule("X", &[], &[]);
    wrapping.nodes = pairs(&[("append", "a/b"), ("insert", "c"), ("append", "d")]);
    assert_eq!(wrapping.wrap_path(xml_splitter::Side::Before), Some(&s("c")));
    assert_eq!(wrapping.wrap_path(xml_splitter::Side::After), Some(&s("a/b")));
    assert!(wrapping.has_valid_nodes());
    let bare = rule("X", &[], &[]);
    assert_eq!(bare.wrap_path(xml_splitter::Side::Before), None);
    assert_eq!(bare.wrap_path(xml_splitter::Side::After), None);
    assert!(bare.has_valid_nodes());
    let mut odd = rule("X", &[], &[]);
    odd.nodes = pairs(&[("insert", "c"), ("Insert", "d")]);
    assert!(!odd.has_valid_nodes());
}

#[test]
fn rules_are_compiled_in_their_order() {
    let rules = vec![rule("X", &[], &[]), rule("a", &[("a", "p")], &[]), rule("Y", &[], &[])];
    assert_eq!(xml_splitter::check_rules(&rules), Ok(()));
    let compiled = xml_splitter::compile_rules(rules);
    let values: Vec<&str> = compiled.iter().map(|t| t.value_transformed.as_str()).collect();
    assert_eq!(values, vec!["X", "", "Y"]);
    let computed: Vec<bool> = compiled.iter().map(|t| t.value_computed).collect();
    assert_eq!(computed, vec![true, false, true]);
    assert!(xml_splitter::compile_rules(vec![]).is_empty());
}

#[test]
fn expressions_that_can_overflow_are_refused() {
    let refused = Err(s("the expression calls a function that is not evaluated"));
    assert_eq!(evaluate_text(&s("shl(1, 64)"), &pairs(&[]), None), refused);
    assert_eq!(evaluate_text(&s("shr(a, 1)"), &pairs(&[("a", "8")]), None), refused);
    assert_eq!(
        evaluate_text(&s("math::abs(a)"), &pairs(&[("a", "-9223372036854775808")]), None),
        refused
    );
    assert_eq!(evaluate_text(&s("str::substring(a, 1)"), &pairs(&[("a", "\u{e4}b")]), None), refused);
    assert_eq!(evaluate_text(&s("1 + shl (1, 2)"), &pairs(&[]), None), refused);
    assert_eq!(evaluate_text(&s("sh/**/l(1, 64)"), &pairs(&[]), None), refused);
    assert_eq!(evaluate_text(&s("s/* */h/* */r(1, 64)"), &pairs(&[]), None), refused);
}

#[test]
fn other_expressions_are_evaluated() {
    assert_eq!(value_of("pushl + 1", &[("pushl", "2")], None), (s("3"), None));
    assert_eq!(value_of("shrink * 2", &[("shrink", "4")], None), (s("8"), None));
    assert_eq!(value_of("a /* note */ + 1", &[("a", "2")], None), (s("3"), None));
    assert_eq!(value_of("cash/total", &[("cash", "6"), ("total", "3")], None), (s("2"), None));
    assert_eq!(value_of("math::sqrt(a)", &[("a", "4")], None), (s("2"), None));
    assert_eq!(value_of("bitand(a, 3)", &[("a", "6")], None), (s("2"), None));
    assert_eq!(value_of("x = true; x", &[], None), (s("true"), None));
}

#[test]
fn the_guard_goes_by_words() {
    assert!(is_guarded_expression(""));
    assert!(is_guarded_expression("a * 1.0"));
    assert!(is_guarded_expression("ashl + shlb + a.shl + shl_1 + math::absolute"));
    assert!(!is_guarded_expression("shl"));
    assert!(!is_guarded_expression("(shr)"));
    assert!(!is_guarded_expression("a+shl(1,2)"));
    assert!(!is_guarded_expression("\u{e4}shl"));
    assert!(!is_guarded_expression("math::abs(1)"));
    assert!(!is_guarded_expression("str::substring(\"a\", 0)"));
    assert!(is_guarded_expression("a // b"));
    assert!(!is_guarded_expression("a // see how long"));
    assert!(!is_guarded_expression("/* */ s h l"));
}
