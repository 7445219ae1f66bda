//! Evaluation: a tree walk over parsed expressions against a read-only
//! registry of named functions.
//!
//! A `Runtime` holds the registry, constructed once and read-only
//! thereafter. A function call resolves its name first; then its arguments
//! are evaluated strictly left to right, each to completion before the next,
//! with the first error short-circuiting the whole evaluation; then the
//! function runs on the evaluated arguments. A function that returns no
//! value is legal only as a top-level statement: in expression position its
//! call site fails with a `NonReturingFunctionError`. Values a function
//! emits (the print builtin emits its argument) are appended to an output
//! vector; the caller decides what to do with them.
//!
//! The tree walk is specified by the recursive functions `spec_eval_expr`,
//! `spec_eval_args`, `spec_eval_call`, `spec_run_statement` and
//! `spec_run_code`; each executable function is proved to return exactly
//! its specification's result and to emit exactly its specification's
//! output.
use crate::ast::{
    expr_seq_view, expr_view, expr_wf, exprs_wf, code_object_view, code_object_wf, code_view,
    code_wf, value_wf, Args, Code, CodeObject, CodeObjectContent, Expression, ExpressionContent,
    SimpleValue, SpecCodeObject, SpecExpr, SpecExprContent, Value,
};
use crate::runtime::native_functions::Print;
use crate::runtime::runtime_errors::{
    rt_err_view, NonReturingFunctionError, ResolutionError, RuntimeError, SpecRuntimeError,
};
use crate::tokenize::{clone_ident, ident_eq, Ident};
use crate::{LocatableContent, Location};
use vstd::prelude::*;

pub mod native_functions;
pub mod runtime_errors;

verus! {

/// The capability a registry entry provides: run on evaluated arguments,
/// appending any emitted values to `out`, and return a value or the
/// explicit no-value signal `None`.
pub trait Function {
    /// What running the function yields: the optional result, and the
    /// values it emits.
    spec fn spec_run(&self, args: Seq<Value>) -> (Option<Value>, Seq<Value>);

    fn run(&self, args: &Args, out: &mut Vec<Value>) -> (r: Option<Value>)
        ensures
            r == self.spec_run(args@).0,
            final(out)@ == old(out)@ + self.spec_run(args@).1,
            (forall|k: int| 0 <= k < args@.len() ==> value_wf(#[trigger] args@[k])) ==> (r matches
                Some(v) ==> value_wf(v)),
    ;
}

/// The built-in functions: a fixed set of variants known when the registry
/// is constructed.
#[derive(Debug, Clone, Copy, PartialEq, Eq, Structural)]
pub enum NativeFunction {
    Print,
}

impl Function for NativeFunction {
    open spec fn spec_run(&self, args: Seq<Value>) -> (Option<Value>, Seq<Value>) {
        match *self {
            NativeFunction::Print => Print.spec_run(args),
        }
    }

    fn run(&self, args: &Args, out: &mut Vec<Value>) -> (r: Option<Value>) {
        match self {
            NativeFunction::Print => Print.run(args, out),
        }
    }
}

/// The registry: the first entry with a matching name, if any.
pub open spec fn spec_resolve_from(
    reg: Seq<(Seq<char>, NativeFunction)>,
    name: Seq<char>,
    i: int,
) -> Option<NativeFunction>
    decreases reg.len() - i,
    when 0 <= i <= reg.len()
{
    if i >= reg.len() {
        None
    } else if reg[i].0 == name {
        Some(reg[i].1)
    } else {
        spec_resolve_from(reg, name, i + 1)
    }
}

pub open spec fn spec_resolve(
    reg: Seq<(Seq<char>, NativeFunction)>,
    name: Seq<char>,
) -> Option<NativeFunction> {
    spec_resolve_from(reg, name, 0)
}

/// Evaluating an expression yields a value or an error, and the values
/// emitted along the way, in order.
pub open spec fn spec_eval_expr(reg: Seq<(Seq<char>, NativeFunction)>, e: SpecExpr) -> (
    Result<Value, SpecRuntimeError>,
    Seq<Value>,
)
    decreases e, 0int,
{
    match e.content {
        SpecExprContent::Literal(SimpleValue::Number(n)) => (
            Ok(Value::Simple(SimpleValue::Number(n))),
            Seq::empty(),
        ),
        SpecExprContent::Parenthases(inner) => spec_eval_expr(reg, *inner),
        SpecExprContent::BinaryExpr(op, l, r) => {
            let (lr, lout) = spec_eval_expr(reg, *l);
            match lr {
                Err(e1) => (Err(e1), lout),
                Ok(lv) => {
                    let (rr, rout) = spec_eval_expr(reg, *r);
                    match rr {
                        Err(e2) => (Err(e2), lout + rout),
                        Ok(rv) => (op.spec_eval(lv, rv, e.location), lout + rout),
                    }
                },
            }
        },
        SpecExprContent::ExecuteFn(name, args) => {
            let (cr, cout) = spec_eval_call(reg, name, args, e.location);
            match cr {
                Err(er) => (Err(er), cout),
                Ok(Some(v)) => (Ok(v), cout),
                Ok(None) => (Err(SpecRuntimeError::NonReturning { location: e.location }), cout),
            }
        },
    }
}

/// Evaluates arguments left to right, each to completion before the next;
/// the first error aborts the rest.
pub open spec fn spec_eval_args(reg: Seq<(Seq<char>, NativeFunction)>, args: Seq<SpecExpr>) -> (
    Result<Seq<Value>, SpecRuntimeError>,
    Seq<Value>,
)
    decreases args, 1int,
{
    if args.len() == 0 {
        (Ok(Seq::empty()), Seq::empty())
    } else {
        let (hr, hout) = spec_eval_expr(reg, args[0]);
        match hr {
            Err(e) => (Err(e), hout),
            Ok(v) => {
                let (tr, tout) = spec_eval_args(reg, args.drop_first());
                match tr {
                    Err(e) => (Err(e), hout + tout),
                    Ok(vs) => (Ok(seq![v] + vs), hout + tout),
                }
            },
        }
    }
}

/// A function call: the name is resolved first — an unknown name fails with
/// a `ResolutionError` naming it — then the arguments are evaluated, then
/// the function runs; `Ok(None)` is the explicit no-value signal.
pub open spec fn spec_eval_call(
    reg: Seq<(Seq<char>, NativeFunction)>,
    name: Seq<char>,
    args: Seq<SpecExpr>,
    location: Location,
) -> (Result<Option<Value>, SpecRuntimeError>, Seq<Value>)
    decreases args, 2int,
{
    match spec_resolve(reg, name) {
        None => (Err(SpecRuntimeError::Resolution { name, location }), Seq::empty()),
        Some(f) => {
            let (ar, aout) = spec_eval_args(reg, args);
            match ar {
                Err(e) => (Err(e), aout),
                Ok(vals) => {
                    let (res, fout) = f.spec_run(vals);
                    (Ok(res), aout + fout)
                },
            }
        },
    }
}

/// A top-level statement: its call's optional value, and what it emits.
pub open spec fn spec_run_statement(reg: Seq<(Seq<char>, NativeFunction)>, s: SpecCodeObject) -> (
    Result<Option<Value>, SpecRuntimeError>,
    Seq<Value>,
) {
    spec_eval_call(reg, s.name, s.args, s.location)
}

/// A program: its statements in order, the first error aborting the rest.
pub open spec fn spec_run_code(reg: Seq<(Seq<char>, NativeFunction)>, cs: Seq<SpecCodeObject>) -> (
    Result<Seq<Option<Value>>, SpecRuntimeError>,
    Seq<Value>,
)
    decreases cs.len(),
{
    if cs.len() == 0 {
        (Ok(Seq::empty()), Seq::empty())
    } else {
        let (hr, hout) = spec_run_statement(reg, cs[0]);
        match hr {
            Err(e) => (Err(e), hout),
            Ok(v) => {
                let (tr, tout) = spec_run_code(reg, cs.drop_first());
                match tr {
                    Err(e) => (Err(e), hout + tout),
                    Ok(vs) => (Ok(seq![v] + vs), hout + tout),
                }
            },
        }
    }
}

/// The evaluator: a name-keyed, read-only registry of functions,
/// constructed once.
pub struct Runtime {
    pub functions: Vec<(Ident, NativeFunction)>,
}

impl Runtime {
    /// The registry as an association sequence; resolution takes the first
    /// match.
    pub open spec fn registry_view(self) -> Seq<(Seq<char>, NativeFunction)> {
        self.functions@.map_values(|p: (Ident, NativeFunction)| (p.0@, p.1))
    }

    /// A fresh runtime whose registry holds the print builtin under the
    /// name "print".
    pub fn new() -> (r: Self)
        ensures
            r.registry_view() == seq![
                (seq!['p', 'r', 'i', 'n', 't'], NativeFunction::Print),
            ],
    {
        let name: Ident = vec!['p', 'r', 'i', 'n', 't'];
        let functions: Vec<(Ident, NativeFunction)> = vec![(name, NativeFunction::Print)];
        let r = Self { functions };
        proof {
            assert(r.registry_view() =~= seq![
                (seq!['p', 'r', 'i', 'n', 't'], NativeFunction::Print),
            ]);
        }
        r
    }

    /// Looks the name up in the registry; an unknown name fails with a
    /// `ResolutionError` carrying the name and the call's location.
    pub fn resolve_function(&self, ident: &Ident, location: &Location) -> (r: Result<
        NativeFunction,
        RuntimeError,
    >)
        ensures
            match r {
                Ok(f) => spec_resolve(self.registry_view(), ident@) == Some(f),
                Err(e) => spec_resolve(self.registry_view(), ident@) is None && rt_err_view(e)
                    == (SpecRuntimeError::Resolution { name: ident@, location: *location }),
            },
    {
        let ghost reg = self.registry_view();
        let mut i: usize = 0;
        while i < self.functions.len()
            invariant
                0 <= i <= self.functions@.len(),
                reg == self.registry_view(),
                reg.len() == self.functions@.len(),
                forall|k: int|
                    0 <= k < reg.len() ==> #[trigger] reg[k] == (
                        self.functions@[k].0@,
                        self.functions@[k].1,
                    ),
                spec_resolve(reg, ident@) == spec_resolve_from(reg, ident@, i as int),
            decreases self.functions@.len() - i,
        {
            if ident_eq(&self.functions[i].0, ident) {
                proof {
                    assert(spec_resolve_from(reg, ident@, i as int) == Some(reg[i as int].1));
                }
                return Ok(self.functions[i].1);
            }
            proof {
                assert(spec_resolve_from(reg, ident@, i as int) == spec_resolve_from(
                    reg,
                    ident@,
                    i + 1,
                ));
            }
            i = i + 1;
        }
        Err(RuntimeError::Resolution(ResolutionError::new(LocatableContent::new(
            clone_ident(ident),
            *location,
        ))))
    }

    /// Evaluates one expression: exactly `spec_eval_expr`, appending what
    /// the evaluation emits to `out`.
    pub fn eval_expr(&self, expr: &Expression, out: &mut Vec<Value>) -> (r: Result<
        Value,
        RuntimeError,
    >)
        requires
            expr_wf(expr_view(*expr)),
        ensures
            ({
                let (res, emitted) = spec_eval_expr(self.registry_view(), expr_view(*expr));
                &&& final(out)@ == old(out)@ + emitted
                &&& match r {
                    Ok(v) => res == Ok::<Value, SpecRuntimeError>(v) && value_wf(v),
                    Err(e) => res == Err::<Value, SpecRuntimeError>(rt_err_view(e)),
                }
            }),
        decreases *expr, 0int,
    {
        let ghost reg = self.registry_view();
        match &expr.content {
            ExpressionContent::Literal(SimpleValue::Number(n)) => {
                proof {
                    assert(out@ =~= out@ + Seq::<Value>::empty());
                }
                Ok(Value::Simple(SimpleValue::Number(*n)))
            },
            ExpressionContent::Parenthases(inner) => self.eval_expr(inner, out),
            ExpressionContent::BinaryExpr(op, l, r) => {
                let ghost out0 = out@;
                let lv = match self.eval_expr(l, out) {
                    Ok(v) => v,
                    Err(e) => {
                        return Err(e);
                    },
                };
                let ghost out1 = out@;
                let rv = match self.eval_expr(r, out) {
                    Ok(v) => v,
                    Err(e) => {
                        proof {
                            let (lres, lout) = spec_eval_expr(reg, expr_view(**l));
                            let (rres, rout) = spec_eval_expr(reg, expr_view(**r));
                            assert(out@ =~= out0 + (lout + rout));
                        }
                        return Err(e);
                    },
                };
                proof {
                    let (lres, lout) = spec_eval_expr(reg, expr_view(**l));
                    let (rres, rout) = spec_eval_expr(reg, expr_view(**r));
                    assert(out@ =~= out0 + (lout + rout));
                }
                op.eval(&lv, &rv, expr.location)
            },
            ExpressionContent::ExecuteFn(name, args) => {
                match self.eval_call(name, args, expr.location, out) {
                    Ok(Some(v)) => Ok(v),
                    Ok(None) => Err(RuntimeError::NonReturning(NonReturingFunctionError::new(
                        expr.location,
                    ))),
                    Err(e) => Err(e),
                }
            },
        }
    }

    /// Resolves and runs one call: exactly `spec_eval_call`; `Ok(None)` is
    /// the explicit no-value signal of a side-effect-only function.
    pub fn eval_call(
        &self,
        name: &Ident,
        args: &Vec<Expression>,
        location: Location,
        out: &mut Vec<Value>,
    ) -> (r: Result<Option<Value>, RuntimeError>)
        requires
            exprs_wf(expr_seq_view(args@)),
        ensures
            ({
                let (res, emitted) = spec_eval_call(
                    self.registry_view(),
                    name@,
                    expr_seq_view(args@),
                    location,
                );
                &&& final(out)@ == old(out)@ + emitted
                &&& match r {
                    Ok(v) => res == Ok::<Option<Value>, SpecRuntimeError>(v) && (v matches Some(x)
                        ==> value_wf(x)),
                    Err(e) => res == Err::<Option<Value>, SpecRuntimeError>(rt_err_view(e)),
                }
            }),
        decreases args@, 2int,
    {
        let ghost reg = self.registry_view();
        let f = match self.resolve_function(name, &location) {
            Ok(f) => f,
            Err(e) => {
                proof {
                    assert(out@ =~= out@ + Seq::<Value>::empty());
                }
                return Err(e);
            },
        };
        let ghost out0 = out@;
        let vals = match self.eval_args(args.as_slice(), out) {
            Ok(vals) => vals,
            Err(e) => {
                return Err(e);
            },
        };
        let res = f.run(&vals, out);
        proof {
            let (ar, aout) = spec_eval_args(reg, expr_seq_view(args@));
            let (fres, fout) = f.spec_run(vals@);
            assert(out@ =~= out0 + (aout + fout));
        }
        Ok(res)
    }

    /// Evaluates argument expressions left to right: exactly
    /// `spec_eval_args`; every value returned is well formed.
    pub fn eval_args(&self, args: &[Expression], out: &mut Vec<Value>) -> (r: Result<
        Args,
        RuntimeError,
    >)
        requires
            exprs_wf(expr_seq_view(args@)),
        ensures
            ({
                let (res, emitted) = spec_eval_args(self.registry_view(), expr_seq_view(args@));
                &&& final(out)@ == old(out)@ + emitted
                &&& match r {
                    Ok(vals) => res == Ok::<Seq<Value>, SpecRuntimeError>(vals@) && (forall|k: int|
                        0 <= k < vals@.len() ==> value_wf(#[trigger] vals@[k])),
                    Err(e) => res == Err::<Seq<Value>, SpecRuntimeError>(rt_err_view(e)),
                }
            }),
        decreases args@, 1int,
    {
        let ghost reg = self.registry_view();
        let ghost av = expr_seq_view(args@);
        proof {
            crate::ast::lemma_expr_seq_view(args@);
            crate::ast::lemma_exprs_wf(av);
        }
        if args.len() == 0 {
            let empty: Args = Vec::new();
            proof {
                assert(av =~= Seq::<SpecExpr>::empty());
                assert(out@ =~= out@ + Seq::<Value>::empty());
                assert(empty@ =~= Seq::<Value>::empty());
            }
            return Ok(empty);
        }
        let ghost out0 = out@;
        let head = match self.eval_expr(&args[0], out) {
            Ok(v) => v,
            Err(e) => {
                return Err(e);
            },
        };
        let rest_slice = vstd::slice::slice_subrange(args, 1, args.len());
        proof {
            assert(expr_seq_view(rest_slice@) =~= av.drop_first()) by {
                crate::ast::lemma_expr_seq_view(rest_slice@);
                crate::ast::lemma_expr_seq_view(args@);
            }
            crate::ast::lemma_exprs_wf(av.drop_first());
        }
        let rest = match self.eval_args(rest_slice, out) {
            Ok(vals) => vals,
            Err(e) => {
                proof {
                    let (hr, hout) = spec_eval_expr(reg, av[0]);
                    let (tr, tout) = spec_eval_args(reg, av.drop_first());
                    assert(out@ =~= out0 + (hout + tout));
                }
                return Err(e);
            },
        };
        let mut vals: Args = Vec::new();
        vals.push(head);
        let mut rest = rest;
        let ghost rest0 = rest@;
        vals.append(&mut rest);
        proof {
            let (hr, hout) = spec_eval_expr(reg, av[0]);
            let (tr, tout) = spec_eval_args(reg, av.drop_first());
            assert(out@ =~= out0 + (hout + tout));
            assert(vals@ =~= seq![head] + rest0);
        }
        Ok(vals)
    }

    /// Runs one statement: exactly `spec_run_statement`; `Ok(None)` is the
    /// legal outcome of a side-effect-only function at top level.
    pub fn run_statement(&self, stmt: &CodeObject, out: &mut Vec<Value>) -> (r: Result<
        Option<Value>,
        RuntimeError,
    >)
        requires
            code_object_wf(code_object_view(*stmt)),
        ensures
            ({
                let (res, emitted) = spec_run_statement(
                    self.registry_view(),
                    code_object_view(*stmt),
                );
                &&& final(out)@ == old(out)@ + emitted
                &&& match r {
                    Ok(v) => res == Ok::<Option<Value>, SpecRuntimeError>(v),
                    Err(e) => res == Err::<Option<Value>, SpecRuntimeError>(rt_err_view(e)),
                }
            }),
    {
        match &stmt.content {
            CodeObjectContent::ExecuteFn(name, args) => self.eval_call(
                name,
                args,
                stmt.location,
                out,
            ),
        }
    }

    /// Runs a program's statements in order: exactly `spec_run_code`; the
    /// first error aborts the rest.
    pub fn run_code(&self, code: &Code, out: &mut Vec<Value>) -> (r: Result<
        Vec<Option<Value>>,
        RuntimeError,
    >)
        requires
            code_wf(code_view(code@)),
        ensures
            ({
                let (res, emitted) = spec_run_code(self.registry_view(), code_view(code@));
                &&& final(out)@ == old(out)@ + emitted
                &&& match r {
                    Ok(vs) => res == Ok::<Seq<Option<Value>>, SpecRuntimeError>(vs@),
                    Err(e) => res == Err::<Seq<Option<Value>>, SpecRuntimeError>(rt_err_view(e)),
                }
            }),
    {
        let ghost reg = self.registry_view();
        let ghost cv = code_view(code@);
        let mut results: Vec<Option<Value>> = Vec::new();
        let mut i: usize = 0;
        let ghost out_base = old(out)@;
        let ghost mut emitted = Seq::<Value>::empty();
        proof {
            assert(cv.subrange(0, cv.len() as int) =~= cv);
            assert(out@ =~= out_base + emitted);
            match spec_run_code(reg, cv).0 {
                Ok(rest) => {
                    assert(results@ + rest =~= rest);
                },
                Err(_) => {},
            }
        }
        while i < code.len()
            invariant
                0 <= i <= code@.len(),
                reg == self.registry_view(),
                cv == code_view(code@),
                cv.len() == code@.len(),
                forall|k: int| 0 <= k < cv.len() ==> cv[k] == code_object_view(code@[k]),
                code_wf(cv),
                out_base == old(out)@,
                out@ == out_base + emitted,
                spec_run_code(reg, cv).0 == (match spec_run_code(
                    reg,
                    cv.subrange(i as int, cv.len() as int),
                ).0 {
                    Ok(rest) => Ok::<Seq<Option<Value>>, SpecRuntimeError>(results@ + rest),
                    Err(e) => Err(e),
                }),
                spec_run_code(reg, cv).1 == emitted + spec_run_code(
                    reg,
                    cv.subrange(i as int, cv.len() as int),
                ).1,
            decreases code@.len() - i,
        {
            let ghost tail = cv.subrange(i as int, cv.len() as int);
            proof {
                assert(tail[0] == cv[i as int]);
                assert(tail.drop_first() =~= cv.subrange(i + 1, cv.len() as int));
                assert(code_object_wf(cv[i as int]));
            }
            match self.run_statement(&code[i], out) {
                Ok(v) => {
                    let ghost hout = spec_run_statement(reg, cv[i as int]).1;
                    let ghost rest_pair = spec_run_code(reg, cv.subrange(i + 1, cv.len() as int));
                    let ghost results0 = results@;
                    let ghost emitted0 = emitted;
                    results.push(v);
                    proof {
                        emitted = emitted0 + hout;
                        assert(out@ =~= out_base + emitted);
                        assert(emitted0 + (hout + rest_pair.1) =~= emitted + rest_pair.1);
                        match rest_pair.0 {
                            Ok(rest) => {
                                assert(results0 + (seq![v] + rest) =~= results0.push(v) + rest);
                            },
                            Err(_) => {},
                        }
                    }
                    i = i + 1;
                },
                Err(e) => {
                    proof {
                        let hout = spec_run_statement(reg, cv[i as int]).1;
                        assert(spec_run_code(reg, tail).0 == Err::<
                            Seq<Option<Value>>,
                            SpecRuntimeError,
                        >(rt_err_view(e)));
                        assert(spec_run_code(reg, tail).1 == hout);
                        assert(spec_run_code(reg, cv).1 == emitted + hout);
                        assert(out@ =~= out_base + (emitted + hout));
                    }
                    return Err(e);
                },
            }
        }
        proof {
            assert(cv.subrange(i as int, cv.len() as int) =~= Seq::<SpecCodeObject>::empty());
            assert(results@ + Seq::<Option<Value>>::empty() =~= results@);
            assert(emitted + Seq::<Value>::empty() =~= emitted);
        }
        Ok(results)
    }
}

} // verus!
