//! Tests of the session front end: the fast paths, the parse cache keyed on
//! raw text, and the case/whitespace property.
use molang::ast::Expression;
use molang::ast::OperationType;
use molang::ParseCache;
use molang::ScriptOutcome;

fn cs(s: &str) -> Vec<char> {
    s.chars().collect()
}

fn s(v: &[char]) -> String {
    v.iter().collect()
}

#[test]
fn empty_input_is_the_zero_literal() {
    let mut cache = ParseCache::new();
    match cache.prepare(&cs(""), true) {
        ScriptOutcome::Literal(t) => assert_eq!(s(&t), "0"),
        ScriptOutcome::Evaluate(_) => panic!("expected the fast path"),
    }
    assert_eq!(cache.stored(), 0);
}

#[test]
fn short_number_takes_the_fast_path() {
    let mut cache = ParseCache::new();
    match cache.prepare(&cs("42"), true) {
        ScriptOutcome::Literal(t) => assert_eq!(s(&t), "42"),
        ScriptOutcome::Evaluate(_) => panic!("expected the fast path"),
    }
    assert_eq!(cache.stored(), 0);
}

#[test]
fn fast_path_strips_the_unit_marker() {
    // The literal pattern and the conversion stay in lockstep: what matches
    // the pattern is handed over without the unit marker, so conversion
    // cannot fail.
    let mut cache = ParseCache::new();
    match cache.prepare(&cs("0.2f"), true) {
        ScriptOutcome::Literal(t) => assert_eq!(s(&t), "0.2"),
        ScriptOutcome::Evaluate(_) => panic!("expected the fast path"),
    }
}

#[test]
fn long_number_is_compiled() {
    let mut cache = ParseCache::new();
    match cache.prepare(&cs("123456789"), true) {
        ScriptOutcome::Literal(_) => panic!("expected a tree"),
        ScriptOutcome::Evaluate(e) => {
            assert_eq!(e, Expression::Number(cs("123456789")));
        },
    }
    assert_eq!(cache.stored(), 1);
}

#[test]
fn repeated_script_hits_the_cache_and_agrees() {
    let mut cache = ParseCache::new();
    let raw = cs("1+1");
    let first = match cache.prepare(&raw, true) {
        ScriptOutcome::Evaluate(e) => e,
        ScriptOutcome::Literal(_) => panic!("expected a tree"),
    };
    assert_eq!(cache.stored(), 1);
    assert!(cache.knows(&raw));
    let second = match cache.prepare(&raw, true) {
        ScriptOutcome::Evaluate(e) => e,
        ScriptOutcome::Literal(_) => panic!("expected a tree"),
    };
    assert_eq!(cache.stored(), 1);
    assert_eq!(first, second);
}

#[test]
fn case_and_whitespace_take_separate_slots_with_equal_trees() {
    let mut cache = ParseCache::new();
    let a = match cache.prepare(&cs("1+1"), true) {
        ScriptOutcome::Evaluate(e) => e,
        ScriptOutcome::Literal(_) => panic!("expected a tree"),
    };
    let b = match cache.prepare(&cs("1 + 1"), true) {
        ScriptOutcome::Evaluate(e) => e,
        ScriptOutcome::Literal(_) => panic!("expected a tree"),
    };
    assert_eq!(cache.stored(), 2);
    assert_eq!(a, b);
    assert_eq!(
        a,
        Expression::Operation2(
            OperationType::Add,
            Box::new(Expression::Number(cs("1"))),
            Box::new(Expression::Number(cs("1"))),
        )
    );
}

#[test]
fn disabled_cache_stores_nothing() {
    let mut cache = ParseCache::new();
    let a = match cache.prepare(&cs("2*3"), false) {
        ScriptOutcome::Evaluate(e) => e,
        ScriptOutcome::Literal(_) => panic!("expected a tree"),
    };
    assert_eq!(cache.stored(), 0);
    assert!(!cache.knows(&cs("2*3")));
    let b = match cache.prepare(&cs("2*3"), false) {
        ScriptOutcome::Evaluate(e) => e,
        ScriptOutcome::Literal(_) => panic!("expected a tree"),
    };
    assert_eq!(a, b);
}

#[test]
fn compile_cached_returns_the_compilation() {
    let mut cache = ParseCache::new();
    let e = cache.compile_cached(&cs("t.a = 6"));
    assert_eq!(
        e,
        Expression::Allocation(cs("temp.a"), Box::new(Expression::Number(cs("6"))))
    );
    assert!(cache.knows(&cs("t.a = 6")));
    assert!(!cache.knows(&cs("t.a=6")));
}
