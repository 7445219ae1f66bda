//! The abstract syntax tree produced by parsing, and the exact semantics of
//! the four binary operators.
//!
//! A program (`Code`) is an ordered sequence of statements (`CodeObject`),
//! each a function call whose arguments are `Expression` trees: literals,
//! parenthesized sub-expressions, nested calls, and binary operator nodes.
//! Every node carries the source location it was parsed from.
use crate::number::{
    gcd_nat, is_reduced, rat_add_result, rat_checked_add, rat_checked_div, rat_checked_mul,
    rat_checked_sub, rat_div_result, rat_mul_result, rat_sub_result, Number,
};
use crate::runtime::runtime_errors::{rt_err_view, RuntimeError, SpecRuntimeError};
use crate::tokenize::Ident;
use crate::{LocatableContent, Location};
use vstd::prelude::*;

verus! {

/// A binary arithmetic operator.
#[derive(Debug, Clone, Copy, PartialEq, Eq, Structural)]
pub enum BinaryExpr {
    Add,
    Subtract,
    Multiply,
    Divide,
}

impl BinaryExpr {
    /// The operator's textual symbol, as a character sequence.
    pub open spec fn spec_symbol(self) -> Seq<char> {
        match self {
            BinaryExpr::Add => seq!['+'],
            BinaryExpr::Subtract => seq!['-'],
            BinaryExpr::Multiply => seq!['*'],
            BinaryExpr::Divide => seq!['/'],
        }
    }

    /// The operator's textual symbol, used in diagnostics.
    pub fn symbol(&self) -> (r: &'static str)
        ensures
            r@ == self.spec_symbol(),
    {
        match self {
            BinaryExpr::Add => {
                proof {
                    reveal_strlit("+");
                    assert("+"@ =~= seq!['+']);
                }
                "+"
            },
            BinaryExpr::Subtract => {
                proof {
                    reveal_strlit("-");
                    assert("-"@ =~= seq!['-']);
                }
                "-"
            },
            BinaryExpr::Multiply => {
                proof {
                    reveal_strlit("*");
                    assert("*"@ =~= seq!['*']);
                }
                "*"
            },
            BinaryExpr::Divide => {
                proof {
                    reveal_strlit("/");
                    assert("/"@ =~= seq!['/']);
                }
                "/"
            },
        }
    }

    /// The operator's precedence tier: multiplicative operators bind
    /// tighter than additive ones.
    pub open spec fn spec_priority(self) -> u8 {
        match self {
            BinaryExpr::Add => 1u8,
            BinaryExpr::Subtract => 1u8,
            BinaryExpr::Multiply => 2u8,
            BinaryExpr::Divide => 2u8,
        }
    }

    pub fn priority(&self) -> (r: u8)
        ensures
            r == self.spec_priority(),
    {
        match self {
            BinaryExpr::Add | BinaryExpr::Subtract => 1,
            BinaryExpr::Multiply | BinaryExpr::Divide => 2,
        }
    }
}

/// A literal runtime value.
#[derive(Debug, Clone, Copy, PartialEq, Eq, Structural)]
pub enum SimpleValue {
    Number(Number),
}

/// A runtime value. One variant today; consumers must be ready for more.
#[derive(Debug, Clone, Copy, PartialEq, Eq, Structural)]
pub enum Value {
    Simple(SimpleValue),
}

impl Value {
    pub fn number(value: Number) -> (r: Value)
        ensures
            r == Value::Simple(SimpleValue::Number(value)),
    {
        Value::Simple(SimpleValue::Number(value))
    }
}

/// The number a value holds.
pub open spec fn value_number(v: Value) -> Number {
    match v {
        Value::Simple(SimpleValue::Number(n)) => n,
    }
}

/// The value's number has a positive denominator.
pub open spec fn value_wf(v: Value) -> bool {
    value_number(v).wf()
}

/// The content of an expression node.
#[derive(Debug)]
pub enum ExpressionContent {
    /// A nested function call: name and arguments.
    ExecuteFn(Ident, Vec<Expression>),
    /// A parenthesized sub-expression: pure transparency wrapper.
    Parenthases(Box<Expression>),
    /// A literal value.
    Literal(SimpleValue),
    /// A binary operator applied to two operands.
    BinaryExpr(BinaryExpr, Box<Expression>, Box<Expression>),
}

/// An expression node with the source region it was parsed from.
#[derive(Debug)]
pub struct Expression {
    pub location: Location,
    pub content: ExpressionContent,
}

/// The content of a statement: a top-level function call.
#[derive(Debug)]
pub enum CodeObjectContent {
    ExecuteFn(Ident, Vec<Expression>),
}

/// A statement with the source region it covers.
pub type CodeObject = LocatableContent<CodeObjectContent>;

/// A program: its statements in evaluation order.
pub type Code = Vec<CodeObject>;

/// Evaluated arguments handed to a function.
pub type Args = Vec<Value>;

/// Mathematical model of an expression.
pub ghost struct SpecExpr {
    pub location: Location,
    pub content: SpecExprContent,
}

pub ghost enum SpecExprContent {
    ExecuteFn(Seq<char>, Seq<SpecExpr>),
    Parenthases(Box<SpecExpr>),
    Literal(SimpleValue),
    BinaryExpr(BinaryExpr, Box<SpecExpr>, Box<SpecExpr>),
}

/// Mathematical model of a statement.
pub ghost struct SpecCodeObject {
    pub location: Location,
    pub name: Seq<char>,
    pub args: Seq<SpecExpr>,
}

pub open spec fn expr_view(e: Expression) -> SpecExpr
    decreases e,
{
    SpecExpr { location: e.location, content: expr_content_view(e.content) }
}

pub open spec fn expr_content_view(c: ExpressionContent) -> SpecExprContent
    decreases c,
{
    match c {
        ExpressionContent::ExecuteFn(name, args) => SpecExprContent::ExecuteFn(
            name@,
            expr_seq_view(args@),
        ),
        ExpressionContent::Parenthases(inner) => SpecExprContent::Parenthases(
            Box::new(expr_view(*inner)),
        ),
        ExpressionContent::Literal(v) => SpecExprContent::Literal(v),
        ExpressionContent::BinaryExpr(op, l, r) => SpecExprContent::BinaryExpr(
            op,
            Box::new(expr_view(*l)),
            Box::new(expr_view(*r)),
        ),
    }
}

pub open spec fn expr_seq_view(q: Seq<Expression>) -> Seq<SpecExpr>
    decreases q,
{
    if q.len() == 0 {
        Seq::empty()
    } else {
        expr_seq_view(q.drop_last()).push(expr_view(q.last()))
    }
}

/// `expr_seq_view` is the elementwise image under `expr_view`.
pub proof fn lemma_expr_seq_view(q: Seq<Expression>)
    ensures
        expr_seq_view(q).len() == q.len(),
        forall|k: int| 0 <= k < q.len() ==> expr_seq_view(q)[k] == expr_view(q[k]),
    decreases q,
{
    if q.len() > 0 {
        lemma_expr_seq_view(q.drop_last());
    }
}

pub open spec fn code_object_view(c: CodeObject) -> SpecCodeObject {
    match c.content {
        CodeObjectContent::ExecuteFn(name, args) => SpecCodeObject {
            location: c.location,
            name: name@,
            args: expr_seq_view(args@),
        },
    }
}

pub open spec fn code_view(q: Seq<CodeObject>) -> Seq<SpecCodeObject> {
    q.map_values(|c: CodeObject| code_object_view(c))
}

/// Every literal in the expression has a positive denominator.
pub open spec fn expr_wf(e: SpecExpr) -> bool
    decreases e,
{
    match e.content {
        SpecExprContent::Literal(SimpleValue::Number(n)) => n.wf(),
        SpecExprContent::Parenthases(inner) => expr_wf(*inner),
        SpecExprContent::BinaryExpr(_, l, r) => expr_wf(*l) && expr_wf(*r),
        SpecExprContent::ExecuteFn(_, args) => exprs_wf(args),
    }
}

pub open spec fn exprs_wf(q: Seq<SpecExpr>) -> bool
    decreases q,
{
    q.len() == 0 || (exprs_wf(q.drop_last()) && expr_wf(q.last()))
}

/// Every expression of the sequence is well formed.
pub proof fn lemma_exprs_wf(q: Seq<SpecExpr>)
    ensures
        exprs_wf(q) <==> (forall|k: int| 0 <= k < q.len() ==> expr_wf(#[trigger] q[k])),
    decreases q,
{
    if q.len() > 0 {
        lemma_exprs_wf(q.drop_last());
        assert(forall|k: int| 0 <= k < q.len() - 1 ==> q.drop_last()[k] == q[k]);
        assert(q.last() == q[q.len() - 1]);
    }
}

pub open spec fn code_object_wf(c: SpecCodeObject) -> bool {
    exprs_wf(c.args)
}

pub open spec fn code_wf(q: Seq<SpecCodeObject>) -> bool {
    forall|k: int| 0 <= k < q.len() ==> code_object_wf(#[trigger] q[k])
}

/// Checks that every literal in the expression has a positive denominator.
pub fn expr_is_wf(e: &Expression) -> (r: bool)
    ensures
        r == expr_wf(expr_view(*e)),
    decreases *e, 0int,
{
    match &e.content {
        ExpressionContent::Literal(SimpleValue::Number(n)) => n.denom() > 0,
        ExpressionContent::Parenthases(inner) => expr_is_wf(inner),
        ExpressionContent::BinaryExpr(_, l, r) => expr_is_wf(l) && expr_is_wf(r),
        ExpressionContent::ExecuteFn(_, args) => exprs_are_wf(args),
    }
}

/// Checks a whole argument vector.
pub fn exprs_are_wf(q: &Vec<Expression>) -> (r: bool)
    ensures
        r == exprs_wf(expr_seq_view(q@)),
    decreases q@, 1int,
{
    let ghost qs = expr_seq_view(q@);
    proof {
        lemma_expr_seq_view(q@);
        lemma_exprs_wf(qs);
    }
    let mut k: usize = 0;
    while k < q.len()
        invariant
            0 <= k <= q@.len(),
            qs == expr_seq_view(q@),
            qs.len() == q@.len(),
            forall|j: int| 0 <= j < q@.len() ==> qs[j] == expr_view(q@[j]),
            forall|j: int| 0 <= j < k ==> expr_wf(#[trigger] qs[j]),
        decreases q@.len() - k,
    {
        if !expr_is_wf(&q[k]) {
            proof {
                assert(qs[k as int] == expr_view(q@[k as int]));
                assert(!expr_wf(qs[k as int]));
                lemma_exprs_wf(qs);
            }
            return false;
        }
        k = k + 1;
    }
    proof {
        lemma_exprs_wf(qs);
    }
    true
}

/// Checks that every literal in the program has a positive denominator.
pub fn code_is_wf(code: &Code) -> (r: bool)
    ensures
        r == code_wf(code_view(code@)),
{
    let ghost cs = code_view(code@);
    let mut k: usize = 0;
    while k < code.len()
        invariant
            0 <= k <= code@.len(),
            cs == code_view(code@),
            cs.len() == code@.len(),
            forall|j: int| 0 <= j < code@.len() ==> cs[j] == code_object_view(code@[j]),
            forall|j: int| 0 <= j < k ==> code_object_wf(#[trigger] cs[j]),
        decreases code@.len() - k,
    {
        match &code[k].content {
            CodeObjectContent::ExecuteFn(_, args) => {
                if !exprs_are_wf(args) {
                    proof {
                        assert(cs[k as int] == code_object_view(code@[k as int]));
                        assert(cs[k as int].args == expr_seq_view(args@));
                        assert(!code_object_wf(cs[k as int]));
                    }
                    return false;
                }
            },
        }
        k = k + 1;
    }
    true
}

/// What `num_rational` returns for the operator applied to the two values.
pub open spec fn rat_op_result(op: BinaryExpr, a: Number, b: Number) -> Option<(i64, i64)> {
    match op {
        BinaryExpr::Add => rat_add_result(a.numer, a.denom, b.numer, b.denom),
        BinaryExpr::Subtract => rat_sub_result(a.numer, a.denom, b.numer, b.denom),
        BinaryExpr::Multiply => rat_mul_result(a.numer, a.denom, b.numer, b.denom),
        BinaryExpr::Divide => rat_div_result(a.numer, a.denom, b.numer, b.denom),
    }
}

/// `r` denotes exactly the operator applied to `a` and `b`, stated by cross
/// multiplication over mathematical integers.
pub open spec fn op_exact(op: BinaryExpr, a: Number, b: Number, r: Number) -> bool {
    match op {
        BinaryExpr::Add => r.numer * a.denom * b.denom == r.denom * (a.numer * b.denom + b.numer
            * a.denom),
        BinaryExpr::Subtract => r.numer * a.denom * b.denom == r.denom * (a.numer * b.denom
            - b.numer * a.denom),
        BinaryExpr::Multiply => r.numer * a.denom * b.denom == r.denom * (a.numer * b.numer),
        BinaryExpr::Divide => r.numer * a.denom * b.numer == r.denom * (a.numer * b.denom),
    }
}

impl BinaryExpr {
    /// What evaluating the operator on two values yields: a division whose
    /// right operand is zero is a `DivisionByZero` error; a division whose
    /// left operand is zero is exactly zero; a result outside the exact
    /// numeric range is a `NumericOverflow` error; otherwise the exact
    /// rational result in lowest terms.
    pub open spec fn spec_eval(self, left: Value, right: Value, location: Location) -> Result<
        Value,
        SpecRuntimeError,
    > {
        let a = value_number(left);
        let b = value_number(right);
        if self == BinaryExpr::Divide && b.numer == 0 {
            Err(SpecRuntimeError::DivisionByZero { location })
        } else if self == BinaryExpr::Divide && a.numer == 0 {
            Ok(Value::Simple(SimpleValue::Number(Number { numer: 0int as i64, denom: 1int as i64 })))
        } else {
            match rat_op_result(self, a, b) {
                Some(p) => Ok(Value::Simple(SimpleValue::Number(Number { numer: p.0, denom: p.1 }))),
                None => Err(SpecRuntimeError::NumericOverflow { location }),
            }
        }
    }

    /// Applies the operator's exact rational semantics to two values; the
    /// result, when there is one, is in lowest terms and denotes exactly
    /// the mathematical sum, difference, product or quotient.
    pub fn eval(&self, left: &Value, right: &Value, location: Location) -> (r: Result<
        Value,
        RuntimeError,
    >)
        requires
            value_wf(*left),
            value_wf(*right),
        ensures
            match r {
                Ok(v) => Ok::<Value, SpecRuntimeError>(v) == self.spec_eval(
                    *left,
                    *right,
                    location,
                ) && value_wf(v) && is_reduced(
                    value_number(v).numer as int,
                    value_number(v).denom as int,
                ) && op_exact(*self, value_number(*left), value_number(*right), value_number(v)),
                Err(e) => Err::<Value, SpecRuntimeError>(rt_err_view(e)) == self.spec_eval(
                    *left,
                    *right,
                    location,
                ),
            },
    {
        match (left, right) {
            (Value::Simple(SimpleValue::Number(a)), Value::Simple(SimpleValue::Number(b))) => {
                if matches!(self, BinaryExpr::Divide) && b.numer == 0 {
                    return Err(RuntimeError::DivisionByZero(location));
                }
                if matches!(self, BinaryExpr::Divide) && a.numer == 0 {
                    proof {
                        assert(gcd_nat(0, 1) == gcd_nat(1, 0)) by {
                            assert(0nat % 1nat == 0);
                        }
                        assert(is_reduced(0, 1));
                    }
                    return Ok(Value::Simple(SimpleValue::Number(Number { numer: 0, denom: 1 })));
                }
                let res = match self {
                    BinaryExpr::Add => rat_checked_add(a.numer, a.denom, b.numer, b.denom),
                    BinaryExpr::Subtract => rat_checked_sub(a.numer, a.denom, b.numer, b.denom),
                    BinaryExpr::Multiply => rat_checked_mul(a.numer, a.denom, b.numer, b.denom),
                    BinaryExpr::Divide => rat_checked_div(a.numer, a.denom, b.numer, b.denom),
                };
                match res {
                    Some(p) => Ok(Value::Simple(SimpleValue::Number(Number {
                        numer: p.0,
                        denom: p.1,
                    }))),
                    None => Err(RuntimeError::NumericOverflow(location)),
                }
            },
        }
    }
}

} // verus!
