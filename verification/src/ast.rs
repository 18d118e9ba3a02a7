//! The expression tree. A tree is immutable once built; numeric literals are
//! carried as their text (with the unit marker removed), so that the host can
//! convert them when it evaluates a tree.
use vstd::prelude::*;

verus! {

/// The operation a tree node performs; the arity must match the node shape
/// the tag is embedded in.
#[derive(Debug, Clone, Copy, PartialEq, Eq, Structural)]
pub enum OperationType {
    Add,
    Subtract,
    Multiply,
    Divide,
    Negate,
    Invert,
    Ternary,
    And,
    Or,
    Smaller,
    SmallerEqual,
    Larger,
    LargerEqual,
    Equal,
    Unequal,
    NullCoalescing,
    Abs,
    Sin,
    Cos,
    Exp,
    Pow,
    Sqrt,
    Ln,
    Random,
    Ceil,
    Round,
    Trunc,
    Floor,
    Modulo,
    Min,
    Max,
    Clamp,
    Lerp,
    Lerprotate,
    Asin,
    Acos,
    Atan,
    Atan2,
    Dieroll,
    DierollInt,
    HermiteBlend,
    RandomInt,
}

/// The mathematical model of an expression tree: literal text and variable
/// names are character sequences, a block is a sequence of statements.
pub enum SpecExpr {
    Num(Seq<char>),
    Op1(OperationType, Box<SpecExpr>),
    Op2(OperationType, Box<SpecExpr>, Box<SpecExpr>),
    Op3(OperationType, Box<SpecExpr>, Box<SpecExpr>, Box<SpecExpr>),
    Var(Seq<char>),
    Assign(Seq<char>, Box<SpecExpr>),
    Ret(Box<SpecExpr>),
    Repeat(Box<SpecExpr>, Box<SpecExpr>),
    Block(Seq<SpecExpr>),
}

/// An expression tree node.
#[derive(Debug, PartialEq)]
pub enum Expression {
    /// A numeric literal, as text.
    Number(Vec<char>),
    /// A one-argument operation.
    Operation1(OperationType, Box<Expression>),
    /// A two-argument operation.
    Operation2(OperationType, Box<Expression>, Box<Expression>),
    /// A three-argument operation.
    Operation3(OperationType, Box<Expression>, Box<Expression>, Box<Expression>),
    /// A read of a namespaced variable, by its fully qualified name.
    Variable(Vec<char>),
    /// A write of a namespaced variable; evaluates to zero as its own value.
    Allocation(Vec<char>, Box<Expression>),
    /// Ends statement-sequence evaluation with the inner value.
    ReturnStatement(Box<Expression>),
    /// Repeats the second tree as often as the first says.
    Loop(Box<Expression>, Box<Expression>),
    /// A block of statements evaluated in order.
    Scope(Vec<Expression>),
}

/// The models of a sequence of trees.
pub open spec fn view_seq(s: Seq<Expression>) -> Seq<SpecExpr>
    decreases s,
{
    if s.len() == 0 {
        Seq::empty()
    } else {
        seq![s[0]@] + view_seq(s.subrange(1, s.len() as int))
    }
}

impl View for Expression {
    type V = SpecExpr;

    open spec fn view(&self) -> SpecExpr
        decreases self,
    {
        match self {
            Expression::Number(t) => SpecExpr::Num(t@),
            Expression::Operation1(o, a) => SpecExpr::Op1(*o, Box::new((**a)@)),
            Expression::Operation2(o, a, b) => SpecExpr::Op2(*o, Box::new((**a)@), Box::new((**b)@)),
            Expression::Operation3(o, a, b, c) => SpecExpr::Op3(
                *o,
                Box::new((**a)@),
                Box::new((**b)@),
                Box::new((**c)@),
            ),
            Expression::Variable(n) => SpecExpr::Var(n@),
            Expression::Allocation(n, v) => SpecExpr::Assign(n@, Box::new((**v)@)),
            Expression::ReturnStatement(a) => SpecExpr::Ret(Box::new((**a)@)),
            Expression::Loop(c, b) => SpecExpr::Repeat(Box::new((**c)@), Box::new((**b)@)),
            Expression::Scope(v) => SpecExpr::Block(view_seq(v@)),
        }
    }
}

/// The model of a sequence of trees is the sequence of their models.
pub proof fn lemma_view_seq(s: Seq<Expression>)
    ensures
        view_seq(s).len() == s.len(),
        forall|i: int| 0 <= i < s.len() ==> view_seq(s)[i] == #[trigger] s[i]@,
    decreases s,
{
    if s.len() == 0 {
    } else {
        let rest = s.subrange(1, s.len() as int);
        lemma_view_seq(rest);
        assert(view_seq(s) == seq![s[0]@] + view_seq(rest));
        assert forall|i: int| 0 <= i < s.len() implies view_seq(s)[i] == #[trigger] s[i]@ by {
            if i > 0 {
                assert(rest[i - 1] == s[i]);
                assert(view_seq(s)[i] == view_seq(rest)[i - 1]);
            }
        }
    }
}

/// Appending one tree extends the model by its model.
pub proof fn lemma_view_seq_push(s: Seq<Expression>, x: Expression)
    ensures
        view_seq(s.push(x)) == view_seq(s).push(x@),
{
    lemma_view_seq(s.push(x));
    lemma_view_seq(s);
    assert forall|i: int| 0 <= i < s.len() + 1 implies view_seq(s.push(x))[i] == view_seq(s).push(
        x@,
    )[i] by {
        assert(view_seq(s.push(x))[i] == s.push(x)[i]@);
        if i < s.len() {
            assert(s.push(x)[i] == s[i]);
            assert(view_seq(s)[i] == s[i]@);
        } else {
            assert(s.push(x)[i] == x);
        }
    }
    assert(view_seq(s.push(x)) =~= view_seq(s).push(x@));
}

impl Expression {
    /// A structurally equal copy of the tree.
    pub fn duplicate(&self) -> (r: Expression)
        ensures
            r@ == self@,
        decreases self, 0int,
    {
        match self {
            Expression::Number(t) => Expression::Number(crate::text::copy_text(t)),
            Expression::Operation1(o, a) => Expression::Operation1(*o, Box::new(a.duplicate())),
            Expression::Operation2(o, a, b) => Expression::Operation2(
                *o,
                Box::new(a.duplicate()),
                Box::new(b.duplicate()),
            ),
            Expression::Operation3(o, a, b, c) => Expression::Operation3(
                *o,
                Box::new(a.duplicate()),
                Box::new(b.duplicate()),
                Box::new(c.duplicate()),
            ),
            Expression::Variable(n) => Expression::Variable(crate::text::copy_text(n)),
            Expression::Allocation(n, v) => Expression::Allocation(
                crate::text::copy_text(n),
                Box::new(v.duplicate()),
            ),
            Expression::ReturnStatement(a) => Expression::ReturnStatement(Box::new(a.duplicate())),
            Expression::Loop(c, b) => Expression::Loop(
                Box::new(c.duplicate()),
                Box::new(b.duplicate()),
            ),
            Expression::Scope(v) => {
                let out = duplicate_from(v, 0);
                proof {
                    lemma_view_seq(out@);
                    lemma_view_seq(v@);
                    assert forall|k: int| 0 <= k < v@.len() implies view_seq(out@)[k] == view_seq(
                        v@,
                    )[k] by {
                        assert(out@[k]@ == v@[k]@);
                    }
                    assert(view_seq(out@) =~= view_seq(v@));
                }
                Expression::Scope(out)
            },
        }
    }
}

/// Structurally equal copies of the trees of `v` from position `i` on.
pub fn duplicate_from(v: &Vec<Expression>, i: usize) -> (r: Vec<Expression>)
    requires
        i <= v@.len(),
    ensures
        r@.len() == v@.len() - i,
        forall|j: int| 0 <= j < r@.len() ==> #[trigger] r@[j]@ == v@[i + j]@,
    decreases v@, v@.len() - i,
{
    if i == v.len() {
        Vec::new()
    } else {
        let first = v[i].duplicate();
        let mut rest = duplicate_from(v, i + 1);
        let mut out: Vec<Expression> = Vec::new();
        out.push(first);
        out.append(&mut rest);
        out
    }
}

} // verus!
