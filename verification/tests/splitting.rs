//! Tests of the bracket-aware splitter, the bracket trimmer, the
//! numeric-literal matcher, alias resolution, and normalization.
use molang::can_trim_brackets;
use molang::is_string_number;
use molang::normalize;
use molang::split_string;
use molang::split_string_multiple;
use molang::split_string_reverse;
use molang::to_variable_name;
use molang::trim_brackets;

fn cs(s: &str) -> Vec<char> {
    s.chars().collect()
}

fn s(v: &[char]) -> String {
    v.iter().collect()
}

#[test]
fn split_first_occurrence() {
    let r = split_string(&cs("1+2+3"), &cs("+")).unwrap();
    assert_eq!(s(&r.0), "1");
    assert_eq!(s(&r.1), "2+3");
}

#[test]
fn split_skips_nested_operators() {
    let r = split_string(&cs("(1+2)*3"), &cs("*")).unwrap();
    assert_eq!(s(&r.0), "(1+2)");
    assert_eq!(s(&r.1), "3");
    assert!(split_string(&cs("(1+2)"), &cs("+")).is_none());
}

#[test]
fn split_multi_character_operator() {
    let r = split_string(&cs("a&&b&&c"), &cs("&&")).unwrap();
    assert_eq!(s(&r.0), "a");
    assert_eq!(s(&r.1), "b&&c");
}

#[test]
fn split_trailing_partial_operator_is_no_match() {
    // A lone `&` at the end of the text is not an `&&` occurrence.
    assert!(split_string(&cs("(&&)&"), &cs("&&")).is_none());
}

#[test]
fn split_reverse_takes_last_occurrence() {
    let r = split_string_reverse(&cs("1-2-3"), &cs("-")).unwrap();
    assert_eq!(s(&r.0), "1-2");
    assert_eq!(s(&r.1), "3");
}

#[test]
fn split_reverse_keeps_unary_minus() {
    // The minus after `*` is a sign, not a subtraction.
    assert!(split_string_reverse(&cs("2*-5"), &cs("-")).is_none());
    let r = split_string_reverse(&cs("-x"), &cs("-")).unwrap();
    assert_eq!(s(&r.0), "");
    assert_eq!(s(&r.1), "x");
}

#[test]
fn split_reverse_division() {
    let r = split_string_reverse(&cs("12/2/2"), &cs("/")).unwrap();
    assert_eq!(s(&r.0), "12/2");
    assert_eq!(s(&r.1), "2");
}

#[test]
fn split_multiple_pieces() {
    let r = split_string_multiple(&cs("a;b;c"), &cs(";"));
    let texts: Vec<String> = r.iter().map(|p| s(p)).collect();
    assert_eq!(texts, vec!["a".to_string(), "b".to_string(), "c".to_string()]);
}

#[test]
fn split_multiple_without_occurrence_is_whole() {
    let r = split_string_multiple(&cs("abc"), &cs(";"));
    assert_eq!(r.len(), 1);
    assert_eq!(s(&r[0]), "abc");
}

#[test]
fn split_multiple_respects_braces() {
    let r = split_string_multiple(&cs("a;{b;c};d"), &cs(";"));
    let texts: Vec<String> = r.iter().map(|p| s(p)).collect();
    assert_eq!(
        texts,
        vec!["a".to_string(), "{b;c}".to_string(), "d".to_string()]
    );
}

#[test]
fn split_multiple_keeps_empty_pieces() {
    let r = split_string_multiple(&cs("a;;b;"), &cs(";"));
    let texts: Vec<String> = r.iter().map(|p| s(p)).collect();
    assert_eq!(
        texts,
        vec![
            "a".to_string(),
            "".to_string(),
            "b".to_string(),
            "".to_string()
        ]
    );
}

#[test]
fn trim_removes_enclosing_pairs() {
    assert_eq!(s(&trim_brackets(&cs("((x))"))), "x");
    assert_eq!(s(&trim_brackets(&cs("{x}"))), "x");
    assert_eq!(s(&trim_brackets(&cs("({x})"))), "x");
}

#[test]
fn trim_keeps_separate_groups() {
    assert!(!can_trim_brackets(&cs("(a)(b)")));
    assert_eq!(s(&trim_brackets(&cs("(a)(b)"))), "(a)(b)");
    assert!(!can_trim_brackets(&cs("a+b")));
    assert!(can_trim_brackets(&cs("(a+b)")));
}

#[test]
fn trim_of_empty_pair() {
    assert!(can_trim_brackets(&cs("()")));
    assert_eq!(s(&trim_brackets(&cs("()"))), "");
}

#[test]
fn number_pattern_accepts() {
    assert!(is_string_number(&cs("5")));
    assert!(is_string_number(&cs("-5")));
    assert!(is_string_number(&cs("0.25")));
    assert!(is_string_number(&cs("-0.5")));
    assert!(is_string_number(&cs("0.2f")));
    assert!(is_string_number(&cs("5f")));
}

#[test]
fn number_pattern_rejects() {
    assert!(!is_string_number(&cs("")));
    assert!(!is_string_number(&cs("-")));
    assert!(!is_string_number(&cs("f")));
    assert!(!is_string_number(&cs("1.")));
    assert!(!is_string_number(&cs("1.2.3")));
    assert!(!is_string_number(&cs("1+1")));
    assert!(!is_string_number(&cs("1.f")));
    assert!(!is_string_number(&cs("5ff")));
}

#[test]
fn alias_short_forms_expand() {
    assert_eq!(s(&to_variable_name(&cs("q.x"))), "query.x");
    assert_eq!(s(&to_variable_name(&cs("v.x"))), "variable.x");
    assert_eq!(s(&to_variable_name(&cs("t.x"))), "temp.x");
    assert_eq!(s(&to_variable_name(&cs("c.x"))), "context.x");
}

#[test]
fn alias_other_names_unchanged() {
    assert_eq!(s(&to_variable_name(&cs("temp.x"))), "temp.x");
    assert_eq!(s(&to_variable_name(&cs("a.x"))), "a.x");
    assert_eq!(s(&to_variable_name(&cs("x"))), "x");
    assert_eq!(s(&to_variable_name(&cs(""))), "");
}

#[test]
fn normalization_strips_spaces_and_lowers() {
    assert_eq!(s(&normalize(&cs("1 + 1"))), "1+1");
    assert_eq!(s(&normalize(&cs("Math.PI"))), "math.pi");
    assert_eq!(s(&normalize(&cs("Temp.Test = 33"))), "temp.test=33");
}
