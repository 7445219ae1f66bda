//! Parsing: from the nested token stream to the abstract syntax tree.
//!
//! The grammar is `Code := Statement*` with `Statement := Ident Block`,
//! where a block's inner tokens are split on top-level commas into argument
//! slices, and each slice is parsed by an operator-precedence expression
//! parser: multiplicative operators bind tighter than additive ones, and
//! operators of one tier associate to the left — a slice is split at its
//! *last* operator of the lowest tier present. Atoms are literals,
//! parenthesized sub-expressions, and nested calls.
//!
//! The whole parser is specified by the recursive functions `parse_code_s`,
//! `parse_args_s`, `parse_expr_s`, `parse_term_s` and `parse_atom_s`;
//! `parse` is proved to return exactly `spec_parse` of its input, so parsing
//! is a pure function of the token stream.
use crate::ast::{
    expr_view, BinaryExpr, Code, CodeObject, CodeObjectContent, Expression, ExpressionContent,
    SimpleValue, SpecCodeObject, SpecExpr, SpecExprContent,
};
use crate::error::{CompilationError, CompilationErrorKind, Expected, TokenSummary};
use crate::tokenize::{
    token_seq_view, token_view, Punct, SpecToken, SpecTokenContent, Token, TokenContent,
    TokenStream, Value,
};
use crate::Location;
use vstd::prelude::*;

verus! {

/// The binary operator a punctuation token denotes; a comma denotes none.
pub open spec fn punct_op(p: Punct) -> Option<BinaryExpr> {
    match p {
        Punct::Plus => Some(BinaryExpr::Add),
        Punct::Dash => Some(BinaryExpr::Subtract),
        Punct::Asterisk => Some(BinaryExpr::Multiply),
        Punct::Slash => Some(BinaryExpr::Divide),
        Punct::Comma => None,
    }
}

/// Exec counterpart of `punct_op`.
pub fn op_of_punct(p: Punct) -> (r: Option<BinaryExpr>)
    ensures
        r == punct_op(p),
{
    match p {
        Punct::Plus => Some(BinaryExpr::Add),
        Punct::Dash => Some(BinaryExpr::Subtract),
        Punct::Asterisk => Some(BinaryExpr::Multiply),
        Punct::Slash => Some(BinaryExpr::Divide),
        Punct::Comma => None,
    }
}

/// The shape summary of a token, for diagnostics.
pub open spec fn spec_summary(c: SpecTokenContent) -> TokenSummary {
    match c {
        SpecTokenContent::Punct(p) => TokenSummary::Punct(p),
        SpecTokenContent::Ident(_) => TokenSummary::Ident,
        SpecTokenContent::Value(_) => TokenSummary::Value,
        SpecTokenContent::Block(_, _) => TokenSummary::Block,
        SpecTokenContent::Eof => TokenSummary::Eof,
    }
}

/// Exec counterpart of `spec_summary`.
pub fn summarize(c: &TokenContent) -> (r: TokenSummary)
    ensures
        r == spec_summary(crate::tokenize::token_content_view(*c)),
{
    match c {
        TokenContent::Punct(p) => TokenSummary::Punct(*p),
        TokenContent::Ident(_) => TokenSummary::Ident,
        TokenContent::Value(_) => TokenSummary::Value,
        TokenContent::Block(_, _) => TokenSummary::Block,
        TokenContent::Eof => TokenSummary::Eof,
    }
}

/// Token `k` is a binary operator of the given precedence tier.
pub open spec fn is_op_at(ts: Seq<SpecToken>, k: int, tier: u8) -> bool {
    &&& ts[k].content matches SpecTokenContent::Punct(p)
    &&& punct_op(p) matches Some(op)
    &&& op.spec_priority() == tier
}

/// The operator at token `k`.
pub open spec fn op_at(ts: Seq<SpecToken>, k: int) -> BinaryExpr
    recommends
        ts[k].content matches SpecTokenContent::Punct(p) && punct_op(p) is Some,
{
    punct_op(ts[k].content->Punct_0)->0
}

/// The index of the last operator of the tier, or -1 when there is none.
pub open spec fn last_op(ts: Seq<SpecToken>, tier: u8) -> int
    decreases ts.len(),
{
    if ts.len() == 0 {
        -1
    } else if is_op_at(ts, ts.len() - 1, tier) {
        ts.len() - 1
    } else {
        last_op(ts.drop_last(), tier)
    }
}

pub proof fn lemma_last_op(ts: Seq<SpecToken>, tier: u8)
    ensures
        -1 <= last_op(ts, tier) < ts.len(),
        last_op(ts, tier) >= 0 ==> is_op_at(ts, last_op(ts, tier), tier),
        forall|k: int| last_op(ts, tier) < k < ts.len() ==> !is_op_at(ts, k, tier),
    decreases ts.len(),
{
    if ts.len() > 0 && !is_op_at(ts, ts.len() - 1, tier) {
        lemma_last_op(ts.drop_last(), tier);
        assert(forall|k: int|
            0 <= k < ts.len() - 1 ==> ts.drop_last()[k] == ts[k] && (is_op_at(
                ts.drop_last(),
                k,
                tier,
            ) == is_op_at(ts, k, tier)));
    }
}

/// The index of the first top-level comma, or -1 when there is none.
pub open spec fn first_comma(ts: Seq<SpecToken>) -> int
    decreases ts.len(),
{
    if ts.len() == 0 {
        -1
    } else if ts[0].content == SpecTokenContent::Punct(Punct::Comma) {
        0
    } else {
        let r = first_comma(ts.drop_first());
        if r < 0 {
            -1
        } else {
            r + 1
        }
    }
}

pub proof fn lemma_first_comma(ts: Seq<SpecToken>)
    ensures
        -1 <= first_comma(ts) < ts.len(),
        first_comma(ts) >= 0 ==> ts[first_comma(ts)].content == SpecTokenContent::Punct(
            Punct::Comma,
        ),
        forall|k: int|
            0 <= k < first_comma(ts) ==> (#[trigger] ts[k]).content != SpecTokenContent::Punct(
                Punct::Comma,
            ),
        first_comma(ts) == -1 ==> forall|k: int|
            0 <= k < ts.len() ==> (#[trigger] ts[k]).content != SpecTokenContent::Punct(
                Punct::Comma,
            ),
    decreases ts.len(),
{
    if ts.len() > 0 && ts[0].content != SpecTokenContent::Punct(Punct::Comma) {
        let d = ts.drop_first();
        let c = first_comma(ts);
        lemma_first_comma(d);
        assert(forall|k: int| 0 <= k < ts.len() - 1 ==> d[k] == ts[k + 1]);
        assert forall|k: int| 0 <= k < c implies (#[trigger] ts[k]).content
            != SpecTokenContent::Punct(Punct::Comma) by {
            if k > 0 {
                assert(ts[k] == d[k - 1]);
            }
        }
        if c == -1 {
            assert forall|k: int| 0 <= k < ts.len() implies (#[trigger] ts[k]).content
                != SpecTokenContent::Punct(Punct::Comma) by {
                if k > 0 {
                    assert(ts[k] == d[k - 1]);
                }
            }
        }
    }
}

/// The nesting height of a token: blocks count one more than their deepest
/// inner token.
pub open spec fn stok_height(t: SpecToken) -> nat
    decreases t,
{
    match t.content {
        SpecTokenContent::Block(_, inner) => 1 + stoks_height(inner),
        _ => 0,
    }
}

/// The nesting height of a token sequence: that of its deepest token.
pub open spec fn stoks_height(q: Seq<SpecToken>) -> nat
    decreases q,
{
    if q.len() == 0 {
        0
    } else if stoks_height(q.drop_last()) >= stok_height(q.last()) {
        stoks_height(q.drop_last())
    } else {
        stok_height(q.last())
    }
}

/// Every token's height is at most the sequence's.
pub proof fn lemma_stoks_height_le(q: Seq<SpecToken>)
    ensures
        forall|k: int| 0 <= k < q.len() ==> stok_height(#[trigger] q[k]) <= stoks_height(q),
    decreases q,
{
    if q.len() > 0 {
        lemma_stoks_height_le(q.drop_last());
        assert(forall|k: int| 0 <= k < q.len() - 1 ==> q.drop_last()[k] == q[k]);
    }
}

/// A bound on every token's height bounds the sequence's.
pub proof fn lemma_stoks_height_bound(q: Seq<SpecToken>, h: nat)
    requires
        forall|k: int| 0 <= k < q.len() ==> stok_height(#[trigger] q[k]) <= h,
    ensures
        stoks_height(q) <= h,
    decreases q,
{
    if q.len() > 0 {
        assert(forall|k: int| 0 <= k < q.len() - 1 ==> q.drop_last()[k] == q[k]);
        lemma_stoks_height_bound(q.drop_last(), h);
    }
}

/// A subrange is no higher than the whole.
pub proof fn lemma_stoks_height_subrange(q: Seq<SpecToken>, a: int, b: int)
    requires
        0 <= a <= b <= q.len(),
    ensures
        stoks_height(q.subrange(a, b)) <= stoks_height(q),
{
    lemma_stoks_height_le(q);
    assert(forall|k: int| 0 <= k < b - a ==> q.subrange(a, b)[k] == q[a + k]);
    lemma_stoks_height_bound(q.subrange(a, b), stoks_height(q));
}

/// Joins two sub-results into a binary operator node spanning both.
pub open spec fn bin_node(
    op: BinaryExpr,
    left: Result<SpecExpr, CompilationError>,
    right: Result<SpecExpr, CompilationError>,
) -> Result<SpecExpr, CompilationError> {
    match left {
        Err(e) => Err(e),
        Ok(l) => match right {
            Err(e) => Err(e),
            Ok(r) => Ok(
                SpecExpr {
                    location: l.location.spec_join(r.location),
                    content: SpecExprContent::BinaryExpr(op, Box::new(l), Box::new(r)),
                },
            ),
        },
    }
}

/// Parses an argument slice at the additive tier: the slice is split at its
/// last top-level `+` or `-`; with none present it is one term. `ctx` is
/// the location blamed when the slice is empty.
pub open spec fn parse_expr_s(ts: Seq<SpecToken>, ctx: Location) -> Result<
    SpecExpr,
    CompilationError,
>
    decreases stoks_height(ts), ts.len(), 2int,
    via parse_expr_s_decreases
{
    let k = last_op(ts, 1);
    if k >= 0 {
        bin_node(
            op_at(ts, k),
            parse_expr_s(ts.subrange(0, k), ts[k].location),
            parse_term_s(ts.subrange(k + 1, ts.len() as int), ts[k].location),
        )
    } else {
        parse_term_s(ts, ctx)
    }
}

#[via_fn]
proof fn parse_expr_s_decreases(ts: Seq<SpecToken>, ctx: Location) {
    let k = last_op(ts, 1);
    lemma_last_op(ts, 1);
    if k >= 0 {
        lemma_stoks_height_subrange(ts, 0, k);
        lemma_stoks_height_subrange(ts, k + 1, ts.len() as int);
    }
}

/// Parses at the multiplicative tier: split at the last top-level `*` or
/// `/`; with none present the slice is one atom.
pub open spec fn parse_term_s(ts: Seq<SpecToken>, ctx: Location) -> Result<
    SpecExpr,
    CompilationError,
>
    decreases stoks_height(ts), ts.len(), 1int,
    via parse_term_s_decreases
{
    let k = last_op(ts, 2);
    if k >= 0 {
        bin_node(
            op_at(ts, k),
            parse_term_s(ts.subrange(0, k), ts[k].location),
            parse_atom_s(ts.subrange(k + 1, ts.len() as int), ts[k].location),
        )
    } else {
        parse_atom_s(ts, ctx)
    }
}

#[via_fn]
proof fn parse_term_s_decreases(ts: Seq<SpecToken>, ctx: Location) {
    let k = last_op(ts, 2);
    lemma_last_op(ts, 2);
    if k >= 0 {
        lemma_stoks_height_subrange(ts, 0, k);
        lemma_stoks_height_subrange(ts, k + 1, ts.len() as int);
    }
}

/// Parses an atom: a literal, a parenthesized sub-expression, or a nested
/// call `Ident Block`. Exactly the atom's tokens must be present.
pub open spec fn parse_atom_s(ts: Seq<SpecToken>, ctx: Location) -> Result<
    SpecExpr,
    CompilationError,
>
    decreases stoks_height(ts), ts.len(), 0int,
    via parse_atom_s_decreases
{
    if ts.len() == 0 {
        Err(
            CompilationError {
                location: ctx,
                kind: CompilationErrorKind::SyntaxError { expected: Expected::Operand, found: None },
            },
        )
    } else {
        match ts[0].content {
            SpecTokenContent::Value(Value::Number(n)) => {
                if ts.len() == 1 {
                    Ok(
                        SpecExpr {
                            location: ts[0].location,
                            content: SpecExprContent::Literal(SimpleValue::Number(n)),
                        },
                    )
                } else {
                    Err(
                        CompilationError {
                            location: ts[1].location,
                            kind: CompilationErrorKind::SyntaxError {
                                expected: Expected::Operator,
                                found: Some(spec_summary(ts[1].content)),
                            },
                        },
                    )
                }
            },
            SpecTokenContent::Block(_, inner) => {
                if ts.len() == 1 {
                    match parse_expr_s(inner, ts[0].location) {
                        Ok(e) => Ok(
                            SpecExpr {
                                location: ts[0].location,
                                content: SpecExprContent::Parenthases(Box::new(e)),
                            },
                        ),
                        Err(e) => Err(e),
                    }
                } else {
                    Err(
                        CompilationError {
                            location: ts[1].location,
                            kind: CompilationErrorKind::SyntaxError {
                                expected: Expected::Operator,
                                found: Some(spec_summary(ts[1].content)),
                            },
                        },
                    )
                }
            },
            SpecTokenContent::Ident(name) => {
                if ts.len() == 1 {
                    Err(
                        CompilationError {
                            location: ts[0].location,
                            kind: CompilationErrorKind::SyntaxError {
                                expected: Expected::OpenParenth,
                                found: None,
                            },
                        },
                    )
                } else {
                    match ts[1].content {
                        SpecTokenContent::Block(_, inner) => {
                            if ts.len() == 2 {
                                match parse_args_s(inner, ts[1].location) {
                                    Ok(args) => Ok(
                                        SpecExpr {
                                            location: ts[0].location.spec_join(ts[1].location),
                                            content: SpecExprContent::ExecuteFn(name, args),
                                        },
                                    ),
                                    Err(e) => Err(e),
                                }
                            } else {
                                Err(
                                    CompilationError {
                                        location: ts[2].location,
                                        kind: CompilationErrorKind::SyntaxError {
                                            expected: Expected::Operator,
                                            found: Some(spec_summary(ts[2].content)),
                                        },
                                    },
                                )
                            }
                        },
                        _ => Err(
                            CompilationError {
                                location: ts[1].location,
                                kind: CompilationErrorKind::SyntaxError {
                                    expected: Expected::OpenParenth,
                                    found: Some(spec_summary(ts[1].content)),
                                },
                            },
                        ),
                    }
                }
            },
            SpecTokenContent::Punct(p) => Err(
                CompilationError {
                    location: ts[0].location,
                    kind: CompilationErrorKind::SyntaxError {
                        expected: Expected::Operand,
                        found: Some(TokenSummary::Punct(p)),
                    },
                },
            ),
            SpecTokenContent::Eof => Err(
                CompilationError {
                    location: ts[0].location,
                    kind: CompilationErrorKind::SyntaxError {
                        expected: Expected::Operand,
                        found: Some(TokenSummary::Eof),
                    },
                },
            ),
        }
    }
}

#[via_fn]
proof fn parse_atom_s_decreases(ts: Seq<SpecToken>, ctx: Location) {
    if ts.len() > 0 {
        lemma_stoks_height_le(ts);
    }
}

/// Splits a block's inner tokens on top-level commas and parses each slice.
/// An empty slice before a comma, between two commas, or after the last
/// comma is a missing argument: `TwoCommas` at that comma. No tokens at all
/// is an empty argument list.
pub open spec fn parse_args_s(ts: Seq<SpecToken>, ctx: Location) -> Result<
    Seq<SpecExpr>,
    CompilationError,
>
    decreases stoks_height(ts), ts.len(), 3int,
    via parse_args_s_decreases
{
    if ts.len() == 0 {
        Ok(Seq::empty())
    } else {
        let c = first_comma(ts);
        if c == 0 {
            Err(
                CompilationError {
                    location: ts[0].location,
                    kind: CompilationErrorKind::TwoCommas,
                },
            )
        } else if c > 0 {
            match parse_expr_s(ts.subrange(0, c), ts[c].location) {
                Ok(e) => {
                    if c == ts.len() - 1 {
                        Err(
                            CompilationError {
                                location: ts[c].location,
                                kind: CompilationErrorKind::TwoCommas,
                            },
                        )
                    } else {
                        match parse_args_s(ts.subrange(c + 1, ts.len() as int), ctx) {
                            Ok(rest) => Ok(seq![e] + rest),
                            Err(e2) => Err(e2),
                        }
                    }
                },
                Err(e) => Err(e),
            }
        } else {
            match parse_expr_s(ts, ctx) {
                Ok(e) => Ok(seq![e]),
                Err(e2) => Err(e2),
            }
        }
    }
}

#[via_fn]
proof fn parse_args_s_decreases(ts: Seq<SpecToken>, ctx: Location) {
    if ts.len() > 0 {
        lemma_first_comma(ts);
        let c = first_comma(ts);
        if c > 0 {
            lemma_stoks_height_subrange(ts, 0, c);
            lemma_stoks_height_subrange(ts, c + 1, ts.len() as int);
        }
    }
}

/// Parses the statements from index `i` on: each one an identifier followed
/// by a parenthesized argument block, until the `Eof` sentinel or the end
/// of the stream.
pub open spec fn parse_code_s(ts: Seq<SpecToken>, i: int) -> Result<
    Seq<SpecCodeObject>,
    CompilationError,
>
    decreases stoks_height(ts), ts.len() - i, 4int,
    when 0 <= i <= ts.len()
    via parse_code_s_decreases
{
    if i >= ts.len() {
        Ok(Seq::empty())
    } else {
        match ts[i].content {
            SpecTokenContent::Eof => Ok(Seq::empty()),
            SpecTokenContent::Ident(name) => {
                if i + 1 >= ts.len() {
                    Err(
                        CompilationError {
                            location: ts[i].location,
                            kind: CompilationErrorKind::SyntaxError {
                                expected: Expected::OpenParenth,
                                found: None,
                            },
                        },
                    )
                } else {
                    match ts[i + 1].content {
                        SpecTokenContent::Block(_, inner) => {
                            match parse_args_s(inner, ts[i + 1].location) {
                                Ok(args) => {
                                    let stmt = SpecCodeObject {
                                        location: ts[i].location.spec_join(ts[i + 1].location),
                                        name,
                                        args,
                                    };
                                    match parse_code_s(ts, i + 2) {
                                        Ok(rest) => Ok(seq![stmt] + rest),
                                        Err(e) => Err(e),
                                    }
                                },
                                Err(e) => Err(e),
                            }
                        },
                        _ => Err(
                            CompilationError {
                                location: ts[i + 1].location,
                                kind: CompilationErrorKind::SyntaxError {
                                    expected: Expected::OpenParenth,
                                    found: Some(spec_summary(ts[i + 1].content)),
                                },
                            },
                        ),
                    }
                }
            },
            _ => Err(
                CompilationError {
                    location: ts[i].location,
                    kind: CompilationErrorKind::SyntaxError {
                        expected: Expected::Identifier,
                        found: Some(spec_summary(ts[i].content)),
                    },
                },
            ),
        }
    }
}

#[via_fn]
proof fn parse_code_s_decreases(ts: Seq<SpecToken>, i: int) {
    if 0 <= i && i < ts.len() {
        lemma_stoks_height_le(ts);
    }
}

/// What parsing a token stream yields: the specification of `parse`.
pub open spec fn spec_parse(ts: Seq<SpecToken>) -> Result<Seq<SpecCodeObject>, CompilationError> {
    parse_code_s(ts, 0)
}

/// A subrange keeps well-formed numbers.
proof fn lemma_stoks_values_wf_subrange(q: Seq<SpecToken>, a: int, b: int)
    requires
        crate::tokenize::stoks_values_wf(q),
        0 <= a <= b <= q.len(),
    ensures
        crate::tokenize::stoks_values_wf(q.subrange(a, b)),
{
    crate::tokenize::lemma_stoks_values_wf(q);
    crate::tokenize::lemma_stoks_values_wf(q.subrange(a, b));
    assert(forall|k: int| 0 <= k < b - a ==> q.subrange(a, b)[k] == q[a + k]);
}

/// One well-formed expression in front of a well-formed sequence.
proof fn lemma_exprs_wf_cons(e: SpecExpr, rest: Seq<SpecExpr>)
    requires
        crate::ast::expr_wf(e),
        crate::ast::exprs_wf(rest),
    ensures
        crate::ast::exprs_wf(seq![e] + rest),
{
    crate::ast::lemma_exprs_wf(rest);
    crate::ast::lemma_exprs_wf(seq![e] + rest);
    assert(forall|k: int| 1 <= k < rest.len() + 1 ==> (seq![e] + rest)[k] == rest[k - 1]);
    assert((seq![e] + rest)[0] == e);
}

/// An additive-tier parse of well-formed tokens yields a well-formed
/// expression.
pub proof fn lemma_parse_expr_wf(ts: Seq<SpecToken>, ctx: Location)
    requires
        crate::tokenize::stoks_values_wf(ts),
    ensures
        parse_expr_s(ts, ctx) matches Ok(e) ==> crate::ast::expr_wf(e),
    decreases stoks_height(ts), ts.len(), 2int,
{
    let k = last_op(ts, 1);
    lemma_last_op(ts, 1);
    if k >= 0 {
        lemma_stoks_height_subrange(ts, 0, k);
        lemma_stoks_height_subrange(ts, k + 1, ts.len() as int);
        lemma_stoks_values_wf_subrange(ts, 0, k);
        lemma_stoks_values_wf_subrange(ts, k + 1, ts.len() as int);
        lemma_parse_expr_wf(ts.subrange(0, k), ts[k].location);
        lemma_parse_term_wf(ts.subrange(k + 1, ts.len() as int), ts[k].location);
    } else {
        lemma_parse_term_wf(ts, ctx);
    }
}

/// A multiplicative-tier parse of well-formed tokens yields a well-formed
/// expression.
pub proof fn lemma_parse_term_wf(ts: Seq<SpecToken>, ctx: Location)
    requires
        crate::tokenize::stoks_values_wf(ts),
    ensures
        parse_term_s(ts, ctx) matches Ok(e) ==> crate::ast::expr_wf(e),
    decreases stoks_height(ts), ts.len(), 1int,
{
    let k = last_op(ts, 2);
    lemma_last_op(ts, 2);
    if k >= 0 {
        lemma_stoks_height_subrange(ts, 0, k);
        lemma_stoks_height_subrange(ts, k + 1, ts.len() as int);
        lemma_stoks_values_wf_subrange(ts, 0, k);
        lemma_stoks_values_wf_subrange(ts, k + 1, ts.len() as int);
        lemma_parse_term_wf(ts.subrange(0, k), ts[k].location);
        lemma_parse_atom_wf(ts.subrange(k + 1, ts.len() as int), ts[k].location);
    } else {
        lemma_parse_atom_wf(ts, ctx);
    }
}

/// An atom parse of well-formed tokens yields a well-formed expression.
pub proof fn lemma_parse_atom_wf(ts: Seq<SpecToken>, ctx: Location)
    requires
        crate::tokenize::stoks_values_wf(ts),
    ensures
        parse_atom_s(ts, ctx) matches Ok(e) ==> crate::ast::expr_wf(e),
    decreases stoks_height(ts), ts.len(), 0int,
{
    if ts.len() > 0 {
        crate::tokenize::lemma_stoks_values_wf(ts);
        lemma_stoks_height_le(ts);
        match ts[0].content {
            SpecTokenContent::Block(_, inner) => {
                if ts.len() == 1 {
                    assert(crate::tokenize::stok_values_wf(ts[0]));
                    lemma_parse_expr_wf(inner, ts[0].location);
                }
            },
            SpecTokenContent::Ident(_) => {
                if ts.len() >= 2 {
                    match ts[1].content {
                        SpecTokenContent::Block(_, inner) => {
                            if ts.len() == 2 {
                                assert(crate::tokenize::stok_values_wf(ts[1]));
                                lemma_parse_args_wf(inner, ts[1].location);
                            }
                        },
                        _ => {},
                    }
                }
            },
            _ => {},
        }
    }
}

/// Parsing a well-formed argument list yields well-formed expressions.
pub proof fn lemma_parse_args_wf(ts: Seq<SpecToken>, ctx: Location)
    requires
        crate::tokenize::stoks_values_wf(ts),
    ensures
        parse_args_s(ts, ctx) matches Ok(args) ==> crate::ast::exprs_wf(args),
    decreases stoks_height(ts), ts.len(), 3int,
{
    if ts.len() == 0 {
    } else {
        lemma_first_comma(ts);
        let c = first_comma(ts);
        if c > 0 {
            lemma_stoks_height_subrange(ts, 0, c);
            lemma_stoks_values_wf_subrange(ts, 0, c);
            lemma_parse_expr_wf(ts.subrange(0, c), ts[c].location);
            if c < ts.len() - 1 {
                lemma_stoks_height_subrange(ts, c + 1, ts.len() as int);
                lemma_stoks_values_wf_subrange(ts, c + 1, ts.len() as int);
                lemma_parse_args_wf(ts.subrange(c + 1, ts.len() as int), ctx);
                match parse_expr_s(ts.subrange(0, c), ts[c].location) {
                    Ok(e) => {
                        match parse_args_s(ts.subrange(c + 1, ts.len() as int), ctx) {
                            Ok(rest) => {
                                lemma_exprs_wf_cons(e, rest);
                            },
                            Err(_) => {},
                        }
                    },
                    Err(_) => {},
                }
            }
        } else if c < 0 {
            lemma_parse_expr_wf(ts, ctx);
            match parse_expr_s(ts, ctx) {
                Ok(e) => {
                    lemma_exprs_wf_cons(e, Seq::empty());
                    assert(seq![e] + Seq::<SpecExpr>::empty() =~= seq![e]);
                },
                Err(_) => {},
            }
        }
    }
}

/// Parsing well-formed tokens yields a well-formed program.
pub proof fn lemma_parse_code_wf(ts: Seq<SpecToken>, i: int)
    requires
        crate::tokenize::stoks_values_wf(ts),
        0 <= i <= ts.len(),
    ensures
        parse_code_s(ts, i) matches Ok(cs) ==> crate::ast::code_wf(cs),
    decreases stoks_height(ts), ts.len() - i, 4int,
{
    if i < ts.len() {
        crate::tokenize::lemma_stoks_values_wf(ts);
        lemma_stoks_height_le(ts);
        match ts[i].content {
            SpecTokenContent::Ident(name) => {
                if i + 1 < ts.len() {
                    match ts[i + 1].content {
                        SpecTokenContent::Block(_, inner) => {
                            assert(crate::tokenize::stok_values_wf(ts[i + 1]));
                            lemma_parse_args_wf(inner, ts[i + 1].location);
                            lemma_parse_code_wf(ts, i + 2);
                            match parse_args_s(inner, ts[i + 1].location) {
                                Ok(args) => {
                                    let stmt = SpecCodeObject {
                                        location: ts[i].location.spec_join(ts[i + 1].location),
                                        name,
                                        args,
                                    };
                                    match parse_code_s(ts, i + 2) {
                                        Ok(rest) => {
                                            assert(forall|k: int|
                                                1 <= k < rest.len() + 1 ==> (seq![stmt]
                                                    + rest)[k] == rest[k - 1]);
                                            assert((seq![stmt] + rest)[0] == stmt);
                                        },
                                        Err(_) => {},
                                    }
                                },
                                Err(_) => {},
                            }
                        },
                        _ => {},
                    }
                }
            },
            _ => {},
        }
    }
}

/// Two parses of one token stream yield structurally identical programs:
/// parsing is a pure function of its input. The outcomes of `parse` are
/// pinned to `spec_parse`, so any two of them agree.
pub proof fn lemma_parse_deterministic(
    ts: Seq<SpecToken>,
    r1: Result<Seq<SpecCodeObject>, CompilationError>,
    r2: Result<Seq<SpecCodeObject>, CompilationError>,
)
    requires
        r1 == spec_parse(ts),
        r2 == spec_parse(ts),
    ensures
        r1 == r2,
{
}

/// Viewing a subrange of tokens is the subrange of the views.
pub proof fn lemma_token_seq_view_subrange(q: Seq<Token>, a: int, b: int)
    requires
        0 <= a <= b <= q.len(),
    ensures
        token_seq_view(q.subrange(a, b)) == token_seq_view(q).subrange(a, b),
{
    crate::tokenize::lemma_token_seq_view(q);
    crate::tokenize::lemma_token_seq_view(q.subrange(a, b));
    assert(token_seq_view(q.subrange(a, b)) =~= token_seq_view(q).subrange(a, b));
}

/// The index and operator of the last top-level operator of the tier.
fn find_last_op(ts: &[Token], tier: u8) -> (r: Option<(usize, BinaryExpr)>)
    ensures
        match r {
            Some(p) => p.0 < ts@.len() && last_op(token_seq_view(ts@), tier) == p.0 as int && p.1
                == op_at(token_seq_view(ts@), p.0 as int),
            None => last_op(token_seq_view(ts@), tier) == -1,
        },
{
    let ghost v = token_seq_view(ts@);
    proof {
        crate::tokenize::lemma_token_seq_view(ts@);
        lemma_last_op(v, tier);
    }
    let mut j: usize = ts.len();
    while j > 0
        invariant
            0 <= j <= ts@.len(),
            v == token_seq_view(ts@),
            v.len() == ts@.len(),
            forall|k: int| 0 <= k < v.len() ==> v[k] == token_view(ts@[k]),
            forall|k: int| j <= k < v.len() ==> !is_op_at(v, k, tier),
        decreases j,
    {
        j = j - 1;
        match &ts[j].content {
            TokenContent::Punct(p) => {
                match op_of_punct(*p) {
                    Some(op) => {
                        if op.priority() == tier {
                            proof {
                                lemma_last_op(v, tier);
                                assert(is_op_at(v, j as int, tier));
                                assert(last_op(v, tier) == j as int);
                            }
                            return Some((j, op));
                        }
                    },
                    None => {},
                }
            },
            _ => {},
        }
        proof {
            assert(!is_op_at(v, j as int, tier));
        }
    }
    proof {
        lemma_last_op(v, tier);
        assert(last_op(v, tier) == -1);
    }
    None
}

/// The index of the first top-level comma.
fn find_first_comma(ts: &[Token]) -> (r: Option<usize>)
    ensures
        match r {
            Some(c) => c < ts@.len() && first_comma(token_seq_view(ts@)) == c as int,
            None => first_comma(token_seq_view(ts@)) == -1,
        },
{
    let ghost v = token_seq_view(ts@);
    proof {
        crate::tokenize::lemma_token_seq_view(ts@);
        lemma_first_comma(v);
    }
    let mut j: usize = 0;
    while j < ts.len()
        invariant
            0 <= j <= ts@.len(),
            v == token_seq_view(ts@),
            v.len() == ts@.len(),
            forall|k: int| 0 <= k < v.len() ==> v[k] == token_view(ts@[k]),
            forall|k: int|
                0 <= k < j ==> (#[trigger] v[k]).content != SpecTokenContent::Punct(Punct::Comma),
        decreases ts@.len() - j,
    {
        match &ts[j].content {
            TokenContent::Punct(Punct::Comma) => {
                proof {
                    lemma_first_comma(v);
                    assert(v[j as int].content == SpecTokenContent::Punct(Punct::Comma));
                    assert(first_comma(v) == j as int);
                }
                return Some(j);
            },
            _ => {},
        }
        proof {
            assert(v[j as int].content != SpecTokenContent::Punct(Punct::Comma));
        }
        j = j + 1;
    }
    proof {
        lemma_first_comma(v);
        assert(first_comma(v) == -1);
    }
    None
}

/// Parses an argument slice at the additive tier: exactly
/// `parse_expr_s(ts, ctx)`.
pub fn parse_expression(ts: &[Token], ctx: Location) -> (r: Result<Expression, CompilationError>)
    ensures
        match r {
            Ok(e) => parse_expr_s(token_seq_view(ts@), ctx) == Ok::<_, CompilationError>(
                expr_view(e),
            ),
            Err(e) => parse_expr_s(token_seq_view(ts@), ctx) == Err::<SpecExpr, _>(e),
        },
    decreases stoks_height(token_seq_view(ts@)), ts@.len(), 2int,
{
    let ghost v = token_seq_view(ts@);
    proof {
        crate::tokenize::lemma_token_seq_view(ts@);
    }
    match find_last_op(ts, 1) {
        Some((k, op)) => {
            let op_loc = ts[k].location;
            let left_slice = vstd::slice::slice_subrange(ts, 0, k);
            let right_slice = vstd::slice::slice_subrange(ts, k + 1, ts.len());
            proof {
                lemma_token_seq_view_subrange(ts@, 0, k as int);
                lemma_token_seq_view_subrange(ts@, k + 1, ts@.len() as int);
                lemma_stoks_height_subrange(v, 0, k as int);
                lemma_stoks_height_subrange(v, k + 1, v.len() as int);
                assert(v[k as int].location == op_loc);
            }
            let left = match parse_expression(left_slice, op_loc) {
                Ok(e) => e,
                Err(e) => {
                    return Err(e);
                },
            };
            let right = match parse_term(right_slice, op_loc) {
                Ok(e) => e,
                Err(e) => {
                    return Err(e);
                },
            };
            let location = left.location.join(&right.location);
            Ok(Expression {
                location,
                content: ExpressionContent::BinaryExpr(op, Box::new(left), Box::new(right)),
            })
        },
        None => parse_term(ts, ctx),
    }
}

/// Parses at the multiplicative tier: exactly `parse_term_s(ts, ctx)`.
pub fn parse_term(ts: &[Token], ctx: Location) -> (r: Result<Expression, CompilationError>)
    ensures
        match r {
            Ok(e) => parse_term_s(token_seq_view(ts@), ctx) == Ok::<_, CompilationError>(
                expr_view(e),
            ),
            Err(e) => parse_term_s(token_seq_view(ts@), ctx) == Err::<SpecExpr, _>(e),
        },
    decreases stoks_height(token_seq_view(ts@)), ts@.len(), 1int,
{
    let ghost v = token_seq_view(ts@);
    proof {
        crate::tokenize::lemma_token_seq_view(ts@);
    }
    match find_last_op(ts, 2) {
        Some((k, op)) => {
            let op_loc = ts[k].location;
            let left_slice = vstd::slice::slice_subrange(ts, 0, k);
            let right_slice = vstd::slice::slice_subrange(ts, k + 1, ts.len());
            proof {
                lemma_token_seq_view_subrange(ts@, 0, k as int);
                lemma_token_seq_view_subrange(ts@, k + 1, ts@.len() as int);
                lemma_stoks_height_subrange(v, 0, k as int);
                lemma_stoks_height_subrange(v, k + 1, v.len() as int);
                assert(v[k as int].location == op_loc);
            }
            let left = match parse_term(left_slice, op_loc) {
                Ok(e) => e,
                Err(e) => {
                    return Err(e);
                },
            };
            let right = match parse_atom(right_slice, op_loc) {
                Ok(e) => e,
                Err(e) => {
                    return Err(e);
                },
            };
            let location = left.location.join(&right.location);
            Ok(Expression {
                location,
                content: ExpressionContent::BinaryExpr(op, Box::new(left), Box::new(right)),
            })
        },
        None => parse_atom(ts, ctx),
    }
}

/// Parses an atom: exactly `parse_atom_s(ts, ctx)`.
pub fn parse_atom(ts: &[Token], ctx: Location) -> (r: Result<Expression, CompilationError>)
    ensures
        match r {
            Ok(e) => parse_atom_s(token_seq_view(ts@), ctx) == Ok::<_, CompilationError>(
                expr_view(e),
            ),
            Err(e) => parse_atom_s(token_seq_view(ts@), ctx) == Err::<SpecExpr, _>(e),
        },
    decreases stoks_height(token_seq_view(ts@)), ts@.len(), 0int,
{
    let ghost v = token_seq_view(ts@);
    proof {
        crate::tokenize::lemma_token_seq_view(ts@);
    }
    if ts.len() == 0 {
        return Err(CompilationError {
            location: ctx,
            kind: CompilationErrorKind::SyntaxError { expected: Expected::Operand, found: None },
        });
    }
    match &ts[0].content {
        TokenContent::Value(Value::Number(n)) => {
            if ts.len() == 1 {
                Ok(Expression {
                    location: ts[0].location,
                    content: ExpressionContent::Literal(SimpleValue::Number(*n)),
                })
            } else {
                Err(CompilationError {
                    location: ts[1].location,
                    kind: CompilationErrorKind::SyntaxError {
                        expected: Expected::Operator,
                        found: Some(summarize(&ts[1].content)),
                    },
                })
            }
        },
        TokenContent::Block(_, inner) => {
            if ts.len() == 1 {
                proof {
                    assert(stok_height(v[0]) == 1 + stoks_height(
                        v[0].content->Block_1,
                    ));
                    lemma_stoks_height_le(v);
                }
                match parse_expression(inner.as_slice(), ts[0].location) {
                    Ok(e) => Ok(Expression {
                        location: ts[0].location,
                        content: ExpressionContent::Parenthases(Box::new(e)),
                    }),
                    Err(e) => Err(e),
                }
            } else {
                Err(CompilationError {
                    location: ts[1].location,
                    kind: CompilationErrorKind::SyntaxError {
                        expected: Expected::Operator,
                        found: Some(summarize(&ts[1].content)),
                    },
                })
            }
        },
        TokenContent::Ident(name) => {
            if ts.len() == 1 {
                Err(CompilationError {
                    location: ts[0].location,
                    kind: CompilationErrorKind::SyntaxError {
                        expected: Expected::OpenParenth,
                        found: None,
                    },
                })
            } else {
                match &ts[1].content {
                    TokenContent::Block(_, inner) => {
                        if ts.len() == 2 {
                            proof {
                                assert(stok_height(v[1]) == 1 + stoks_height(
                                    v[1].content->Block_1,
                                ));
                                lemma_stoks_height_le(v);
                            }
                            match parse_arguments(inner.as_slice(), ts[1].location) {
                                Ok(args) => {
                                    let location = ts[0].location.join(&ts[1].location);
                                    Ok(Expression {
                                        location,
                                        content: ExpressionContent::ExecuteFn(
                                            crate::tokenize::clone_ident(name),
                                            args,
                                        ),
                                    })
                                },
                                Err(e) => Err(e),
                            }
                        } else {
                            Err(CompilationError {
                                location: ts[2].location,
                                kind: CompilationErrorKind::SyntaxError {
                                    expected: Expected::Operator,
                                    found: Some(summarize(&ts[2].content)),
                                },
                            })
                        }
                    },
                    other => Err(CompilationError {
                        location: ts[1].location,
                        kind: CompilationErrorKind::SyntaxError {
                            expected: Expected::OpenParenth,
                            found: Some(summarize(other)),
                        },
                    }),
                }
            }
        },
        TokenContent::Punct(p) => Err(CompilationError {
            location: ts[0].location,
            kind: CompilationErrorKind::SyntaxError {
                expected: Expected::Operand,
                found: Some(TokenSummary::Punct(*p)),
            },
        }),
        TokenContent::Eof => Err(CompilationError {
            location: ts[0].location,
            kind: CompilationErrorKind::SyntaxError {
                expected: Expected::Operand,
                found: Some(TokenSummary::Eof),
            },
        }),
    }
}

/// Splits a block's inner tokens on top-level commas and parses each slice:
/// exactly `parse_args_s(ts, ctx)`.
pub fn parse_arguments(ts: &[Token], ctx: Location) -> (r: Result<Vec<Expression>, CompilationError>)
    ensures
        match r {
            Ok(v) => parse_args_s(token_seq_view(ts@), ctx) == Ok::<_, CompilationError>(
                crate::ast::expr_seq_view(v@),
            ),
            Err(e) => parse_args_s(token_seq_view(ts@), ctx) == Err::<Seq<SpecExpr>, _>(e),
        },
    decreases stoks_height(token_seq_view(ts@)), ts@.len(), 3int,
{
    let ghost v = token_seq_view(ts@);
    proof {
        crate::tokenize::lemma_token_seq_view(ts@);
    }
    if ts.len() == 0 {
        let out: Vec<Expression> = Vec::new();
        proof {
            assert(crate::ast::expr_seq_view(out@) =~= Seq::<SpecExpr>::empty());
        }
        return Ok(out);
    }
    match find_first_comma(ts) {
        Some(c) => {
            if c == 0 {
                return Err(CompilationError {
                    location: ts[0].location,
                    kind: CompilationErrorKind::TwoCommas,
                });
            }
            let left_slice = vstd::slice::slice_subrange(ts, 0, c);
            proof {
                lemma_token_seq_view_subrange(ts@, 0, c as int);
                lemma_stoks_height_subrange(v, 0, c as int);
            }
            let e = match parse_expression(left_slice, ts[c].location) {
                Ok(e) => e,
                Err(e) => {
                    return Err(e);
                },
            };
            if c == ts.len() - 1 {
                return Err(CompilationError {
                    location: ts[c].location,
                    kind: CompilationErrorKind::TwoCommas,
                });
            }
            let rest_slice = vstd::slice::slice_subrange(ts, c + 1, ts.len());
            proof {
                lemma_token_seq_view_subrange(ts@, c + 1, ts@.len() as int);
                lemma_stoks_height_subrange(v, c + 1, v.len() as int);
            }
            match parse_arguments(rest_slice, ctx) {
                Ok(rest) => {
                    let ghost rest0 = rest@;
                    let mut out: Vec<Expression> = Vec::new();
                    out.push(e);
                    let mut rest = rest;
                    out.append(&mut rest);
                    proof {
                        assert(out@ =~= seq![e] + rest0);
                        assert(crate::ast::expr_seq_view(out@) =~= seq![expr_view(e)]
                            + crate::ast::expr_seq_view(rest0)) by {
                            crate::ast::lemma_expr_seq_view(out@);
                            crate::ast::lemma_expr_seq_view(rest0);
                        }
                    }
                    Ok(out)
                },
                Err(e2) => Err(e2),
            }
        },
        None => {
            match parse_expression(ts, ctx) {
                Ok(e) => {
                    let mut out: Vec<Expression> = Vec::new();
                    out.push(e);
                    proof {
                        crate::ast::lemma_expr_seq_view(out@);
                        assert(crate::ast::expr_seq_view(out@) =~= seq![expr_view(e)]);
                    }
                    Ok(out)
                },
                Err(e2) => Err(e2),
            }
        },
    }
}

/// Prepends already-parsed statements to the outcome of parsing the rest.
pub open spec fn parse_prepend(
    pre: Seq<SpecCodeObject>,
    rest: Result<Seq<SpecCodeObject>, CompilationError>,
) -> Result<Seq<SpecCodeObject>, CompilationError> {
    match rest {
        Ok(cs) => Ok(pre + cs),
        Err(e) => Err(e),
    }
}

/// Consumes the token stream into the program's statement sequence: exactly
/// `spec_parse` of the stream, so parsing is a pure function of its input.
pub fn parse(stream: TokenStream) -> (r: Result<Code, CompilationError>)
    ensures
        match r {
            Ok(code) => spec_parse(token_seq_view(stream@)) == Ok::<_, CompilationError>(
                crate::ast::code_view(code@),
            ),
            Err(e) => spec_parse(token_seq_view(stream@)) == Err::<Seq<SpecCodeObject>, _>(e),
        },
{
    let ghost v = token_seq_view(stream@);
    proof {
        crate::tokenize::lemma_token_seq_view(stream@);
    }
    let ts = stream.as_slice();
    let mut code: Code = Vec::new();
    let mut i: usize = 0;
    proof {
        assert(crate::ast::code_view(code@) =~= Seq::<SpecCodeObject>::empty());
        assert(parse_prepend(crate::ast::code_view(code@), parse_code_s(v, 0)) == parse_code_s(
            v,
            0,
        )) by {
            match parse_code_s(v, 0) {
                Ok(cs) => {
                    assert(Seq::<SpecCodeObject>::empty() + cs =~= cs);
                },
                Err(_) => {},
            }
        }
    }
    while i < ts.len()
        invariant
            0 <= i <= v.len(),
            v == token_seq_view(ts@),
            ts@ == stream@,
            v.len() == ts@.len(),
            forall|k: int| 0 <= k < v.len() ==> v[k] == token_view(ts@[k]),
            parse_code_s(v, 0) == parse_prepend(
                crate::ast::code_view(code@),
                parse_code_s(v, i as int),
            ),
        decreases v.len() - i,
    {
        let loc = ts[i].location;
        match &ts[i].content {
            TokenContent::Eof => {
                proof {
                    assert(parse_code_s(v, i as int) == Ok::<_, CompilationError>(Seq::<
                        SpecCodeObject,
                    >::empty()));
                    assert(crate::ast::code_view(code@) + Seq::<SpecCodeObject>::empty()
                        =~= crate::ast::code_view(code@));
                }
                return Ok(code);
            },
            TokenContent::Ident(name) => {
                if i + 1 >= ts.len() {
                    let err = CompilationError {
                        location: loc,
                        kind: CompilationErrorKind::SyntaxError {
                            expected: Expected::OpenParenth,
                            found: None,
                        },
                    };
                    proof {
                        assert(parse_code_s(v, i as int) == Err::<Seq<SpecCodeObject>, _>(err));
                    }
                    return Err(err);
                }
                match &ts[i + 1].content {
                    TokenContent::Block(_, inner) => {
                        proof {
                            assert(v[i + 1].content matches SpecTokenContent::Block(_, si));
                        }
                        match parse_arguments(inner.as_slice(), ts[i + 1].location) {
                            Ok(args) => {
                                let location = loc.join(&ts[i + 1].location);
                                let stmt = crate::LocatableContent::new(
                                    CodeObjectContent::ExecuteFn(
                                        crate::tokenize::clone_ident(name),
                                        args,
                                    ),
                                    location,
                                );
                                let ghost code0 = crate::ast::code_view(code@);
                                let ghost stmt_v = crate::ast::code_object_view(stmt);
                                proof {
                                    assert(parse_code_s(v, i as int) == (match parse_code_s(
                                        v,
                                        i + 2,
                                    ) {
                                        Ok(rest) => Ok::<_, CompilationError>(seq![stmt_v] + rest),
                                        Err(e) => Err(e),
                                    }));
                                }
                                code.push(stmt);
                                proof {
                                    assert(crate::ast::code_view(code@) =~= code0.push(stmt_v));
                                    assert(parse_prepend(code0, parse_code_s(v, i as int))
                                        == parse_prepend(
                                        crate::ast::code_view(code@),
                                        parse_code_s(v, i + 2),
                                    )) by {
                                        match parse_code_s(v, i + 2) {
                                            Ok(rest) => {
                                                assert(code0 + (seq![stmt_v] + rest) =~= code0.push(
                                                    stmt_v,
                                                ) + rest);
                                            },
                                            Err(_) => {},
                                        }
                                    }
                                }
                                i = i + 2;
                            },
                            Err(e) => {
                                proof {
                                    assert(parse_code_s(v, i as int) == Err::<
                                        Seq<SpecCodeObject>,
                                        _,
                                    >(e));
                                }
                                return Err(e);
                            },
                        }
                    },
                    other => {
                        let err = CompilationError {
                            location: ts[i + 1].location,
                            kind: CompilationErrorKind::SyntaxError {
                                expected: Expected::OpenParenth,
                                found: Some(summarize(other)),
                            },
                        };
                        proof {
                            assert(parse_code_s(v, i as int) == Err::<Seq<SpecCodeObject>, _>(err));
                        }
                        return Err(err);
                    },
                }
            },
            other => {
                let err = CompilationError {
                    location: loc,
                    kind: CompilationErrorKind::SyntaxError {
                        expected: Expected::Identifier,
                        found: Some(summarize(other)),
                    },
                };
                proof {
                    assert(parse_code_s(v, i as int) == Err::<Seq<SpecCodeObject>, _>(err));
                }
                return Err(err);
            },
        }
    }
    proof {
        assert(parse_code_s(v, i as int) == Ok::<_, CompilationError>(Seq::<
            SpecCodeObject,
        >::empty()));
        assert(crate::ast::code_view(code@) + Seq::<SpecCodeObject>::empty() =~= crate::ast::code_view(
            code@,
        ));
    }
    Ok(code)
}

/// What compiling a source yields: its token stream parsed, or the first
/// error of either stage.
pub open spec fn spec_compile(s: Seq<char>) -> Result<Seq<SpecCodeObject>, CompilationError> {
    match crate::tokenize::spec_tokenize(s) {
        Ok(ts) => spec_parse(ts),
        Err(e) => Err(e),
    }
}

/// Turns source text into a parsed program: tokenize, then parse. Every
/// number of the result is well formed, so the program is ready to run.
pub fn compile(source: &Vec<char>) -> (r: Result<Code, CompilationError>)
    ensures
        match r {
            Ok(code) => spec_compile(source@) == Ok::<_, CompilationError>(
                crate::ast::code_view(code@),
            ) && crate::ast::code_wf(crate::ast::code_view(code@)),
            Err(e) => spec_compile(source@) == Err::<Seq<SpecCodeObject>, _>(e),
        },
{
    let n = source.len();
    let stream = match crate::tokenize::tokenize(source) {
        Ok(ts) => ts,
        Err(e) => {
            return Err(e);
        },
    };
    proof {
        crate::tokenize::primary::lemma_lex1_values_wf(source@, 0);
        let flat = crate::tokenize::primary::lex1(source@, 0)->Ok_0;
        crate::tokenize::secondary::lemma_nest_values_wf(
            flat,
            0,
            Seq::empty(),
            Seq::empty(),
            source@.len() as int,
        );
        lemma_parse_code_wf(token_seq_view(stream@), 0);
    }
    parse(stream)
}

} // verus!
