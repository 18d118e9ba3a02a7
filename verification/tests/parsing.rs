//! Tree-level tests of the parser: each script compiles to the expected
//! expression tree. Numeric evaluation of the trees belongs to the host.
use molang::ast::Expression;
use molang::ast::OperationType;
use molang::create_expression_tree;

fn cs(s: &str) -> Vec<char> {
    s.chars().collect()
}

fn num(s: &str) -> Expression {
    Expression::Number(cs(s))
}

fn var(s: &str) -> Expression {
    Expression::Variable(cs(s))
}

fn op1(o: OperationType, a: Expression) -> Expression {
    Expression::Operation1(o, Box::new(a))
}

fn op2(o: OperationType, a: Expression, b: Expression) -> Expression {
    Expression::Operation2(o, Box::new(a), Box::new(b))
}

fn op3(o: OperationType, a: Expression, b: Expression, c: Expression) -> Expression {
    Expression::Operation3(o, Box::new(a), Box::new(b), Box::new(c))
}

fn compile(s: &str) -> Expression {
    create_expression_tree(&cs(s))
}

#[test]
fn basic() {
    assert_eq!(compile("1+1"), op2(OperationType::Add, num("1"), num("1")));
}

#[test]
fn sign() {
    assert_eq!(
        compile("2*-(2/2)"),
        op2(
            OperationType::Multiply,
            num("2"),
            op1(
                OperationType::Invert,
                op2(OperationType::Divide, num("2"), num("2"))
            )
        )
    );
}

#[test]
fn order_of_operation() {
    assert_eq!(
        compile("1 + 1 * 2"),
        op2(
            OperationType::Add,
            num("1"),
            op2(OperationType::Multiply, num("1"), num("2"))
        )
    );
}

#[test]
fn order_of_operation_2() {
    assert_eq!(
        compile("18 - 2 * -0.5"),
        op2(
            OperationType::Subtract,
            num("18"),
            op2(OperationType::Multiply, num("2"), num("-0.5"))
        )
    );
}

#[test]
fn float_type_notation() {
    assert_eq!(
        compile("10 * 0.2f"),
        op2(OperationType::Multiply, num("10"), num("0.2"))
    );
}

#[test]
fn order_of_division() {
    assert_eq!(
        compile("12 / 2 / 2"),
        op2(
            OperationType::Divide,
            op2(OperationType::Divide, num("12"), num("2")),
            num("2")
        )
    );
}

#[test]
fn binary() {
    assert_eq!(
        compile("true ? 10"),
        op2(OperationType::Ternary, num("1"), num("10"))
    );
}

#[test]
fn ternary() {
    assert_eq!(
        compile("false ? 5 : 10"),
        op3(OperationType::Ternary, num("0"), num("5"), num("10"))
    );
}

#[test]
fn greater_or_equal() {
    assert_eq!(
        compile("3 >= 4"),
        op2(OperationType::LargerEqual, num("3"), num("4"))
    );
}

#[test]
fn multi_line() {
    assert_eq!(
        compile("temp.test = 33; return temp.test * 2"),
        Expression::Scope(vec![
            Expression::Allocation(cs("temp.test"), Box::new(num("33"))),
            Expression::ReturnStatement(Box::new(op2(
                OperationType::Multiply,
                var("temp.test"),
                num("2")
            ))),
        ])
    );
}

#[test]
fn return_value() {
    // The second `return` is discarded unparsed: the block holds two
    // statements, the `return` last.
    assert_eq!(
        compile("temp.test = 4; return temp.test; return 5;"),
        Expression::Scope(vec![
            Expression::Allocation(cs("temp.test"), Box::new(num("4"))),
            Expression::ReturnStatement(Box::new(var("temp.test"))),
        ])
    );
}

#[test]
fn math() {
    assert_eq!(
        compile("Math.pow(Math.clamp(500, 0, 3), 2)"),
        op2(
            OperationType::Pow,
            op3(OperationType::Clamp, num("500"), num("0"), num("3")),
            num("2")
        )
    );
}

#[test]
fn aliases() {
    assert_eq!(
        compile("t.a = 6; variable.b = 2; return temp.a / v.b;"),
        Expression::Scope(vec![
            Expression::Allocation(cs("temp.a"), Box::new(num("6"))),
            Expression::Allocation(cs("variable.b"), Box::new(num("2"))),
            Expression::ReturnStatement(Box::new(op2(
                OperationType::Divide,
                var("temp.a"),
                var("variable.b")
            ))),
        ])
    );
}

#[test]
fn lerprotate() {
    assert_eq!(
        compile("Math.lerprotate(10, 380, 0.5) + Math.lerprotate(50, -10, 0.25)"),
        op2(
            OperationType::Add,
            op3(
                OperationType::Lerprotate,
                num("10"),
                num("380"),
                num("0.5")
            ),
            op3(
                OperationType::Lerprotate,
                num("50"),
                num("-10"),
                num("0.25")
            )
        )
    );
}

#[test]
fn inverse_trigonometry() {
    assert_eq!(
        compile("Math.round(Math.acos(-1) + Math.atan2(2, 4))"),
        op1(
            OperationType::Round,
            op2(
                OperationType::Add,
                op1(OperationType::Acos, num("-1")),
                op2(OperationType::Atan2, num("2"), num("4"))
            )
        )
    );
}

#[test]
fn query_in_range() {
    assert_eq!(
        compile("q.in_range(1, 0, 2) && !query.in_range(55, 1, 5)"),
        op2(
            OperationType::And,
            var("query.in_range(1,0,2)"),
            op1(OperationType::Negate, var("query.in_range(55,1,5)"))
        )
    );
}

#[test]
fn query_approx_eq() {
    assert_eq!(
        compile("q.approx_eq(2, 2.00000000002) && !q.approx_eq(2, 2, 3)"),
        op2(
            OperationType::And,
            var("query.approx_eq(2,2.00000000002)"),
            op1(OperationType::Negate, var("query.approx_eq(2,2,3)"))
        )
    );
}

#[test]
fn loops() {
    assert_eq!(
        compile("v.count = 0; loop(10, {v.count = v.count + 1}); return v.count;"),
        Expression::Scope(vec![
            Expression::Allocation(cs("variable.count"), Box::new(num("0"))),
            Expression::Loop(
                Box::new(num("10")),
                Box::new(Expression::Allocation(
                    cs("variable.count"),
                    Box::new(op2(OperationType::Add, var("variable.count"), num("1")))
                ))
            ),
            Expression::ReturnStatement(Box::new(var("variable.count"))),
        ])
    );
}

#[test]
fn not_enough_arguments() {
    // Missing arguments compile to the zero literal; the host's power
    // function then yields its fixed default.
    assert_eq!(
        compile("Math.pow()"),
        op2(OperationType::Pow, num("0"), num("0"))
    );
}

#[test]
fn broken_expression() {
    // Malformed input degrades to a variable reference, which reads as zero.
    assert_eq!(compile(")22 + 5 * (v.something"), var(")22+5*(v.something"));
}

#[test]
fn math_pi_literal() {
    assert_eq!(compile("Math.pi"), num("3.141592653589793"));
}

#[test]
fn unknown_math_name_is_zero() {
    assert_eq!(compile("Math.unknown(5)"), num("0"));
}

#[test]
fn math_without_argument_list_is_zero() {
    assert_eq!(compile("Math.sqrt"), num("0"));
}

#[test]
fn loop_with_one_piece_is_variable() {
    assert_eq!(compile("loop(10)"), var("loop(10)"));
}

#[test]
fn null_coalescing() {
    assert_eq!(
        compile("v.a ?? 5"),
        op2(OperationType::NullCoalescing, var("variable.a"), num("5"))
    );
}

#[test]
fn equality_not_taken_for_assignment() {
    assert_eq!(
        compile("t.a == 3"),
        op2(OperationType::Equal, var("temp.a"), num("3"))
    );
}

#[test]
fn assignment_with_empty_value_is_zero() {
    assert_eq!(
        compile("temp.x ="),
        Expression::Allocation(cs("temp.x"), Box::new(num("0")))
    );
}

#[test]
fn empty_script_is_zero() {
    assert_eq!(compile(""), num("0"));
}

#[test]
fn return_of_empty_is_zero() {
    assert_eq!(
        compile("return"),
        Expression::ReturnStatement(Box::new(num("0")))
    );
}

#[test]
fn brackets_trim_to_literal() {
    assert_eq!(compile("((42))"), num("42"));
}

#[test]
fn unary_minus_after_operator() {
    assert_eq!(
        compile("2*-5"),
        op2(
            OperationType::Multiply,
            num("2"),
            num("-5")
        )
    );
}

#[test]
fn subtraction_is_left_associative() {
    assert_eq!(
        compile("1-2-3"),
        op2(
            OperationType::Subtract,
            op2(OperationType::Subtract, num("1"), num("2")),
            num("3")
        )
    );
}

#[test]
fn negation_prefix() {
    assert_eq!(
        compile("!v.flag"),
        op1(OperationType::Negate, var("variable.flag"))
    );
}

#[test]
fn long_math_names_dispatch() {
    assert_eq!(
        compile("Math.die_roll_integer(2, 1, 6)"),
        op3(OperationType::DierollInt, num("2"), num("1"), num("6"))
    );
    assert_eq!(
        compile("Math.hermite_blend(0.5)"),
        op1(OperationType::HermiteBlend, num("0.5"))
    );
    assert_eq!(
        compile("Math.random_integer(1, 5)"),
        op2(OperationType::RandomInt, num("1"), num("5"))
    );
    assert_eq!(compile("Math.ln(2)"), op1(OperationType::Ln, num("2")));
}

#[test]
fn third_argument_absorbs_the_rest() {
    assert_eq!(
        compile("Math.clamp(1, 2, 3, 4)"),
        op3(OperationType::Clamp, num("1"), num("2"), var("3,4"))
    );
}

#[test]
fn loop_ignores_extra_pieces() {
    assert_eq!(
        compile("loop(2, v.a, v.b)"),
        Expression::Loop(Box::new(num("2")), Box::new(var("variable.a")))
    );
}
