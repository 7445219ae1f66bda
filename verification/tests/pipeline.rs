use exprlang::ast::{BinaryExpr, Code, CodeObjectContent, Expression, ExpressionContent, SimpleValue, Value};
use exprlang::error::{CompilationErrorKind, Expected, TokenSummary};
use exprlang::number::Number;
use exprlang::parse::{compile, parse};
use exprlang::runtime::{NativeFunction, Runtime};
use exprlang::runtime::runtime_errors::RuntimeError;
use exprlang::tokenize::primary::{tokenize1, Punct as PrePunct, PreTokenContent};
use exprlang::tokenize::{tokenize, Punct, TokenContent, Tokenizer};
use exprlang::Location;

fn chars(s: &str) -> Vec<char> {
    s.chars().collect()
}

fn loc(begin: usize, len: usize) -> Location {
    Location { begin, len }
}

fn run_source(src: &str) -> (Result<Vec<Option<Value>>, RuntimeError>, Vec<Value>) {
    let code = compile(&chars(src)).expect("source should compile");
    let rt = Runtime::new();
    let mut out = Vec::new();
    let r = rt.run_code(&code, &mut out);
    (r, out)
}

fn number_of(v: &Value) -> Number {
    match v {
        Value::Simple(SimpleValue::Number(n)) => *n,
    }
}

// Token contents are equivalent modulo position offsets: locations are
// ignored at every nesting depth.
fn content_equiv(a: &TokenContent, b: &TokenContent) -> bool {
    match (a, b) {
        (TokenContent::Punct(x), TokenContent::Punct(y)) => x == y,
        (TokenContent::Ident(x), TokenContent::Ident(y)) => x == y,
        (TokenContent::Value(x), TokenContent::Value(y)) => x == y,
        (TokenContent::Eof, TokenContent::Eof) => true,
        (TokenContent::Block(d1, i1), TokenContent::Block(d2, i2)) => {
            d1 == d2 && i1.len() == i2.len() && i1
                .iter()
                .zip(i2.iter())
                .all(|(p, q)| content_equiv(&p.content, &q.content))
        },
        _ => false,
    }
}

// ---- Location ----

#[test]
fn location_accessors_and_end() {
    let l = loc(3, 4);
    assert_eq!(l.begin(), 3);
    assert_eq!(l.len(), 4);
    assert_eq!(l.end(), 7);
}

#[test]
fn location_default_is_one_char_at_start() {
    let l: Location = Default::default();
    assert_eq!(l, loc(0, 1));
}

#[test]
fn location_through_covers_both() {
    let a = loc(2, 3);
    let b = loc(7, 1);
    assert_eq!(a.through(&b), loc(2, 6));
    assert_eq!(a.join(&b), loc(2, 6));
}

// ---- Numbers ----

#[test]
fn number_new_rejects_nonpositive_denominator() {
    assert!(Number::new(1, 0).is_none());
    assert!(Number::new(1, -2).is_none());
    let n = Number::new(3, 4).unwrap();
    assert_eq!(n.numer(), 3);
    assert_eq!(n.denom(), 4);
}

#[test]
fn number_equality_is_by_value() {
    let half_a = Number::new(1, 2).unwrap();
    let half_b = Number::new(5, 10).unwrap();
    let third = Number::new(1, 3).unwrap();
    assert!(half_a.eq_value(&half_b));
    assert!(!half_a.eq_value(&third));
}

#[test]
fn from_integer_has_denominator_one() {
    let n = Number::from_integer(-7);
    assert_eq!(n.numer(), -7);
    assert_eq!(n.denom(), 1);
}

// ---- Operators ----

#[test]
fn operator_symbols() {
    assert_eq!(BinaryExpr::Add.symbol(), "+");
    assert_eq!(BinaryExpr::Subtract.symbol(), "-");
    assert_eq!(BinaryExpr::Multiply.symbol(), "*");
    assert_eq!(BinaryExpr::Divide.symbol(), "/");
}

#[test]
fn operator_priorities() {
    assert_eq!(BinaryExpr::Add.priority(), 1);
    assert_eq!(BinaryExpr::Subtract.priority(), 1);
    assert_eq!(BinaryExpr::Multiply.priority(), 2);
    assert_eq!(BinaryExpr::Divide.priority(), 2);
}

#[test]
fn exact_subtraction_reduces() {
    // 1/2 - 1/3 = 1/6 exactly.
    let a = Value::number(Number::new(1, 2).unwrap());
    let b = Value::number(Number::new(1, 3).unwrap());
    let r = BinaryExpr::Subtract.eval(&a, &b, loc(0, 0)).unwrap();
    let n = number_of(&r);
    assert_eq!((n.numer(), n.denom()), (1, 6));
}

#[test]
fn exact_multiplication_reduces() {
    // 2/3 * 3/4 = 1/2 in lowest terms.
    let a = Value::number(Number::new(2, 3).unwrap());
    let b = Value::number(Number::new(3, 4).unwrap());
    let r = BinaryExpr::Multiply.eval(&a, &b, loc(0, 0)).unwrap();
    let n = number_of(&r);
    assert_eq!((n.numer(), n.denom()), (1, 2));
}

#[test]
fn exact_division_reduces() {
    // (1/2) / (3/4) = 2/3 in lowest terms.
    let a = Value::number(Number::new(1, 2).unwrap());
    let b = Value::number(Number::new(3, 4).unwrap());
    let r = BinaryExpr::Divide.eval(&a, &b, loc(0, 0)).unwrap();
    let n = number_of(&r);
    assert_eq!((n.numer(), n.denom()), (2, 3));
}

#[test]
fn division_by_zero_is_reported() {
    let a = Value::number(Number::new(1, 2).unwrap());
    let b = Value::number(Number::new(0, 5).unwrap());
    let r = BinaryExpr::Divide.eval(&a, &b, loc(4, 2));
    match r {
        Err(RuntimeError::DivisionByZero(l)) => assert_eq!(l, loc(4, 2)),
        other => panic!("expected DivisionByZero, got {:?}", other.map(|v| number_of(&v))),
    }
}

// ---- Lexing ----

#[test]
fn exact_decimal_conversion() {
    // Lexing "0.1" then "0.2" and summing via Add yields exactly 3/10 in
    // lowest terms, never a binary-float approximation.
    let t1 = tokenize(&chars("0.1")).unwrap();
    let t2 = tokenize(&chars("0.2")).unwrap();
    let n1 = match &t1[0].content {
        TokenContent::Value(exprlang::tokenize::Value::Number(n)) => *n,
        other => panic!("expected a number token, got {:?}", other),
    };
    let n2 = match &t2[0].content {
        TokenContent::Value(exprlang::tokenize::Value::Number(n)) => *n,
        other => panic!("expected a number token, got {:?}", other),
    };
    assert_eq!((n1.numer(), n1.denom()), (1, 10));
    assert_eq!((n2.numer(), n2.denom()), (2, 10));
    let sum = BinaryExpr::Add
        .eval(&Value::number(n1), &Value::number(n2), loc(0, 0))
        .unwrap();
    let n = number_of(&sum);
    assert_eq!((n.numer(), n.denom()), (3, 10));
}

#[test]
fn lexer_spans_cover_exact_source_regions() {
    let ts = tokenize(&chars("  12.5 +x")).unwrap();
    assert_eq!(*ts[0].location(), loc(2, 4));
    assert!(matches!(ts[0].content, TokenContent::Value(_)));
    assert_eq!(*ts[1].location(), loc(7, 1));
    assert!(matches!(ts[1].content, TokenContent::Punct(Punct::Plus)));
    assert_eq!(*ts[2].location(), loc(8, 1));
    assert!(matches!(ts[2].content, TokenContent::Ident(_)));
    assert_eq!(*ts[3].location(), loc(9, 0));
    assert!(matches!(ts[3].content, TokenContent::Eof));
    assert_eq!(ts.len(), 4);
}

#[test]
fn round_trip_token_spans() {
    // Re-lexing the substring covered by each token's span yields an
    // equivalent token, modulo position offset.
    let src = "foo(1.5, bar) + 25";
    let cs = chars(src);
    let ts = tokenize(&cs).unwrap();
    for t in &ts {
        let begin = t.location().begin();
        let len = t.location().len();
        let sub: Vec<char> = cs[begin..begin + len].to_vec();
        let re = tokenize(&sub).unwrap();
        if matches!(t.content, TokenContent::Eof) {
            assert_eq!(re.len(), 1);
            assert!(matches!(re[0].content, TokenContent::Eof));
        } else {
            assert_eq!(re.len(), 2, "one token plus the sentinel for {:?}", t);
            // Equivalent content, position offsets aside.
            assert!(content_equiv(&re[0].content, &t.content), "token {:?}", t);
        }
    }
}

#[test]
fn decimal_without_integer_part() {
    let ts = tokenize(&chars(".5")).unwrap();
    let n = match &ts[0].content {
        TokenContent::Value(exprlang::tokenize::Value::Number(n)) => *n,
        other => panic!("expected a number token, got {:?}", other),
    };
    assert_eq!((n.numer(), n.denom()), (5, 10));
}

#[test]
fn decimal_with_trailing_point() {
    let ts = tokenize(&chars("13.")).unwrap();
    let n = match &ts[0].content {
        TokenContent::Value(exprlang::tokenize::Value::Number(n)) => *n,
        other => panic!("expected a number token, got {:?}", other),
    };
    assert_eq!((n.numer(), n.denom()), (13, 1));
    assert_eq!(*ts[0].location(), loc(0, 3));
}

#[test]
fn two_decimal_points_rejected() {
    let e = tokenize(&chars("1.2.3")).unwrap_err();
    assert_eq!(e.kind(), CompilationErrorKind::TwoDecimalPoints);
    assert_eq!(e.location(), loc(0, 4));
}

#[test]
fn lone_point_is_unrecognized() {
    let e = tokenize(&chars(". ")).unwrap_err();
    assert_eq!(e.kind(), CompilationErrorKind::UnrecognizedCharacter);
    assert_eq!(e.location(), loc(0, 1));
}

#[test]
fn unrecognized_character_rejected() {
    let e = tokenize(&chars("foo(#)")).unwrap_err();
    assert_eq!(e.kind(), CompilationErrorKind::UnrecognizedCharacter);
    assert_eq!(e.location(), loc(4, 1));
}

#[test]
fn too_precise_integer_rejected() {
    // One past i64::MAX must be rejected, not silently truncated.
    let e = tokenize(&chars("9223372036854775808")).unwrap_err();
    assert_eq!(e.kind(), CompilationErrorKind::TooPreciseNumber);
    assert_eq!(e.location(), loc(0, 19));
    // i64::MAX itself still lexes.
    assert!(tokenize(&chars("9223372036854775807")).is_ok());
}

#[test]
fn too_precise_fraction_rejected() {
    // Nineteen fractional digits need a denominator beyond the exact range.
    let e = tokenize(&chars("0.0000000000000000001")).unwrap_err();
    assert_eq!(e.kind(), CompilationErrorKind::TooPreciseNumber);
}

#[test]
fn unmatched_open_delimiter() {
    let e = tokenize(&chars("foo(1,2")).unwrap_err();
    assert_eq!(e.kind(), CompilationErrorKind::UnmatchedDelimiter);
    assert_eq!(e.location(), loc(3, 1));
}

#[test]
fn unmatched_close_delimiter() {
    let e = tokenize(&chars("foo(1,2))")).unwrap_err();
    assert_eq!(e.kind(), CompilationErrorKind::UnmatchedDelimiter);
    assert_eq!(e.location(), loc(8, 1));
}

#[test]
fn block_token_spans_delimiters() {
    let ts = tokenize(&chars("foo(1,2)")).unwrap();
    match &ts[1].content {
        TokenContent::Block(_, inner) => {
            assert_eq!(*ts[1].location(), loc(3, 5));
            assert_eq!(inner.len(), 3);
        },
        other => panic!("expected a block token, got {:?}", other),
    }
}

#[test]
fn empty_source_lexes_to_sentinel() {
    let ts = tokenize(&chars("")).unwrap();
    assert_eq!(ts.len(), 1);
    assert!(matches!(ts[0].content, TokenContent::Eof));
    assert_eq!(*ts[0].location(), loc(0, 0));
}

#[test]
fn tokenizer_tracks_cursor() {
    let mut tk = Tokenizer::new();
    assert!(tk.tokenize(&chars("ab(1)")).is_ok());
    assert_eq!(tk.location, loc(5, 0));
    let e = tk.tokenize(&chars("ab(1")).unwrap_err();
    assert_eq!(tk.location, e.location());
}

#[test]
fn primary_pass_produces_flat_tokens() {
    let pre = tokenize1(&chars("(1)+x")).unwrap();
    assert_eq!(pre.len(), 5);
    assert!(matches!(pre[0].content(), PreTokenContent::Punct(PrePunct::OpenParenth)));
    assert!(matches!(pre[1].content(), PreTokenContent::Number(_)));
    assert!(matches!(pre[2].content(), PreTokenContent::Punct(PrePunct::CloseParenth)));
    assert!(matches!(pre[3].content(), PreTokenContent::Punct(PrePunct::Plus)));
    assert!(matches!(pre[4].content(), PreTokenContent::Ident(_)));
    assert_eq!(*pre[1].location(), loc(1, 1));
}

// ---- Parsing ----

fn first_statement_args(code: &Code) -> &Vec<Expression> {
    match &code[0].content {
        CodeObjectContent::ExecuteFn(_, args) => args,
    }
}

#[test]
fn operator_precedence() {
    // "2 + 3 * 4" parses as Add(2, Multiply(3, 4)) and evaluates to 14.
    let code = compile(&chars("print(2 + 3 * 4)")).unwrap();
    let args = first_statement_args(&code);
    match &args[0].content {
        ExpressionContent::BinaryExpr(BinaryExpr::Add, l, r) => {
            assert!(matches!(l.content, ExpressionContent::Literal(_)));
            match &r.content {
                ExpressionContent::BinaryExpr(BinaryExpr::Multiply, rl, rr) => {
                    assert!(matches!(rl.content, ExpressionContent::Literal(_)));
                    assert!(matches!(rr.content, ExpressionContent::Literal(_)));
                },
                other => panic!("expected a product on the right, got {:?}", other),
            }
        },
        other => panic!("expected a sum at the top, got {:?}", other),
    }
    let (r, out) = run_source("print(2 + 3 * 4)");
    assert!(r.is_ok());
    let n = number_of(&out[0]);
    assert_eq!((n.numer(), n.denom()), (14, 1));
}

#[test]
fn left_associativity_within_a_tier() {
    let (r, out) = run_source("print(10 - 3 - 4)");
    assert!(r.is_ok());
    let n = number_of(&out[0]);
    assert_eq!((n.numer(), n.denom()), (3, 1));
}

#[test]
fn parentheses_override_precedence() {
    let (r, out) = run_source("print((2 + 3) * 4)");
    assert!(r.is_ok());
    let n = number_of(&out[0]);
    assert_eq!((n.numer(), n.denom()), (20, 1));
}

#[test]
fn statement_span_covers_name_and_arguments() {
    let code = compile(&chars("foo(1)")).unwrap();
    assert_eq!(*code[0].location(), loc(0, 6));
}

#[test]
fn empty_argument_list_is_zero_arguments() {
    let code = compile(&chars("foo()")).unwrap();
    assert_eq!(first_statement_args(&code).len(), 0);
}

#[test]
fn empty_argument_detection() {
    // "foo(1,,2)" fails with TwoCommas at the empty slot's comma.
    let e = compile(&chars("foo(1,,2)")).unwrap_err();
    assert_eq!(e.kind(), CompilationErrorKind::TwoCommas);
    assert_eq!(e.location(), loc(6, 1));
}

#[test]
fn leading_comma_detection() {
    let e = compile(&chars("foo(,1)")).unwrap_err();
    assert_eq!(e.kind(), CompilationErrorKind::TwoCommas);
    assert_eq!(e.location(), loc(4, 1));
}

#[test]
fn trailing_comma_detection() {
    let e = compile(&chars("foo(1,)")).unwrap_err();
    assert_eq!(e.kind(), CompilationErrorKind::TwoCommas);
    assert_eq!(e.location(), loc(5, 1));
}

#[test]
fn identifier_without_block_is_a_syntax_error() {
    let e = compile(&chars("foo")).unwrap_err();
    assert_eq!(
        e.kind(),
        CompilationErrorKind::SyntaxError {
            expected: Expected::OpenParenth,
            found: Some(TokenSummary::Eof),
        },
    );
}

#[test]
fn identifier_followed_by_value_is_a_syntax_error() {
    let e = compile(&chars("foo 1")).unwrap_err();
    assert_eq!(
        e.kind(),
        CompilationErrorKind::SyntaxError {
            expected: Expected::OpenParenth,
            found: Some(TokenSummary::Value),
        },
    );
    assert_eq!(e.location(), loc(4, 1));
}

#[test]
fn top_level_value_is_a_syntax_error() {
    let e = compile(&chars("2+2")).unwrap_err();
    assert_eq!(
        e.kind(),
        CompilationErrorKind::SyntaxError {
            expected: Expected::Identifier,
            found: Some(TokenSummary::Value),
        },
    );
}

#[test]
fn adjacent_operands_are_a_syntax_error() {
    let e = compile(&chars("foo(1 2)")).unwrap_err();
    assert_eq!(
        e.kind(),
        CompilationErrorKind::SyntaxError {
            expected: Expected::Operator,
            found: Some(TokenSummary::Value),
        },
    );
    assert_eq!(e.location(), loc(6, 1));
}

#[test]
fn missing_operand_is_a_syntax_error() {
    let e = compile(&chars("foo(1 +)")).unwrap_err();
    assert_eq!(
        e.kind(),
        CompilationErrorKind::SyntaxError { expected: Expected::Operand, found: None },
    );
}

#[test]
fn comma_inside_parenthesized_expression_is_a_syntax_error() {
    let e = compile(&chars("foo((1,2))")).unwrap_err();
    match e.kind() {
        CompilationErrorKind::SyntaxError { .. } => {},
        other => panic!("expected a syntax error, got {:?}", other),
    }
}

#[test]
fn nested_calls_parse() {
    let code = compile(&chars("foo(bar(1), 2)")).unwrap();
    let args = first_statement_args(&code);
    assert_eq!(args.len(), 2);
    assert!(matches!(args[0].content, ExpressionContent::ExecuteFn(_, _)));
    assert!(matches!(args[1].content, ExpressionContent::Literal(_)));
}

#[test]
fn empty_source_parses_to_empty_code() {
    let code = compile(&chars("   ")).unwrap();
    assert_eq!(code.len(), 0);
}

#[test]
fn idempotent_reparse() {
    // Parsing the token stream of a given source twice yields structurally
    // identical trees: parsing is a pure function of its input.
    let src = "foo(1 + 2 * 3, bar(4)) baz(5.5)";
    let t1 = tokenize(&chars(src)).unwrap();
    let t2 = tokenize(&chars(src)).unwrap();
    let c1 = parse(t1).unwrap();
    let c2 = parse(t2).unwrap();
    assert_eq!(format!("{:?}", c1), format!("{:?}", c2));
}

// ---- Evaluation ----

#[test]
fn print_emits_its_argument_at_top_level() {
    let (r, out) = run_source("print(1)");
    assert_eq!(r.unwrap(), vec![None]);
    assert_eq!(out.len(), 1);
    let n = number_of(&out[0]);
    assert_eq!((n.numer(), n.denom()), (1, 1));
}

#[test]
fn non_returning_in_expression_position() {
    // print returns no value, so a nested print(1) in a position that
    // expects a value fails at the inner call's span, while "print(1)" as a
    // bare top-level statement succeeds with no value.
    let code = compile(&chars("print(print(1))")).unwrap();
    let rt = Runtime::new();
    let mut out = Vec::new();
    let e = rt.run_code(&code, &mut out).unwrap_err();
    match e {
        RuntimeError::NonReturning(nr) => assert_eq!(nr.location(), loc(6, 8)),
        other => panic!("expected NonReturingFunctionError, got at {:?}", other.location()),
    }
    // The inner argument was evaluated and emitted before the failure.
    assert_eq!(out.len(), 1);
}

#[test]
fn non_returning_under_an_operator() {
    let code = compile(&chars("print(print(1) + 2)")).unwrap();
    let rt = Runtime::new();
    let mut out = Vec::new();
    let e = rt.run_code(&code, &mut out).unwrap_err();
    assert!(matches!(e, RuntimeError::NonReturning(_)));
}

#[test]
fn unknown_function_name() {
    // "bogus(1)" fails with a ResolutionError naming "bogus".
    let code = compile(&chars("bogus(1)")).unwrap();
    let rt = Runtime::new();
    let mut out = Vec::new();
    let e = rt.run_code(&code, &mut out).unwrap_err();
    match e {
        RuntimeError::Resolution(re) => {
            assert_eq!(re.name(), &chars("bogus"));
            assert_eq!(re.location(), loc(0, 8));
        },
        other => panic!("expected ResolutionError, got at {:?}", other.location()),
    }
}

#[test]
fn resolve_function_finds_print() {
    let rt = Runtime::new();
    let f = rt.resolve_function(&chars("print"), &loc(0, 5)).unwrap();
    assert_eq!(f, NativeFunction::Print);
    assert!(rt.resolve_function(&chars("prints"), &loc(0, 6)).is_err());
}

#[test]
fn statements_run_in_order() {
    let (r, out) = run_source("print(1) print(2)");
    assert_eq!(r.unwrap(), vec![None, None]);
    assert_eq!(out.len(), 2);
    assert_eq!(number_of(&out[0]).numer(), 1);
    assert_eq!(number_of(&out[1]).numer(), 2);
}

#[test]
fn first_error_stops_the_program() {
    let code = compile(&chars("print(1) bogus(2) print(3)")).unwrap();
    let rt = Runtime::new();
    let mut out = Vec::new();
    assert!(rt.run_code(&code, &mut out).is_err());
    // Only the first statement's output was emitted.
    assert_eq!(out.len(), 1);
}

#[test]
fn exact_decimal_sum_through_the_pipeline() {
    let (r, out) = run_source("print(0.1 + 0.2)");
    assert!(r.is_ok());
    let n = number_of(&out[0]);
    assert_eq!((n.numer(), n.denom()), (3, 10));
}

#[test]
fn division_by_zero_through_the_pipeline() {
    let code = compile(&chars("print(1/0)")).unwrap();
    let rt = Runtime::new();
    let mut out = Vec::new();
    let e = rt.run_code(&code, &mut out).unwrap_err();
    match e {
        RuntimeError::DivisionByZero(l) => assert_eq!(l, loc(6, 3)),
        other => panic!("expected DivisionByZero, got at {:?}", other.location()),
    }
}

#[test]
fn numeric_overflow_is_reported() {
    let code = compile(&chars("print(9223372036854775807 + 1)")).unwrap();
    let rt = Runtime::new();
    let mut out = Vec::new();
    let e = rt.run_code(&code, &mut out).unwrap_err();
    assert!(matches!(e, RuntimeError::NumericOverflow(_)));
}

#[test]
fn unreduced_literals_compare_equal_by_value() {
    let (r1, out1) = run_source("print(0.50)");
    let (r2, out2) = run_source("print(.5)");
    assert!(r1.is_ok() && r2.is_ok());
    let a = number_of(&out1[0]);
    let b = number_of(&out2[0]);
    assert_eq!((a.numer(), a.denom()), (50, 100));
    assert_eq!((b.numer(), b.denom()), (5, 10));
    assert!(a.eq_value(&b));
}

#[test]
fn runtime_error_messages() {
    let code = compile(&chars("print(1/0)")).unwrap();
    let rt = Runtime::new();
    let mut out = Vec::new();
    let e = rt.run_code(&code, &mut out).unwrap_err();
    assert_eq!(e.message(), "division by zero");
    let code = compile(&chars("bogus(1)")).unwrap();
    let e = rt.run_code(&code, &mut out).unwrap_err();
    assert_eq!(e.message(), "could not resolve the function name");
}

#[test]
fn zero_dividend_divides_to_zero() {
    let (r, out) = run_source("print(0/5)");
    assert!(r.is_ok());
    let n = number_of(&out[0]);
    assert_eq!((n.numer(), n.denom()), (0, 1));
}

#[test]
fn parenthesized_argument_is_transparent() {
    let (r, out) = run_source("print((7))");
    assert!(r.is_ok());
    let n = number_of(&out[0]);
    assert_eq!((n.numer(), n.denom()), (7, 1));
}

#[test]
fn print_with_no_argument_emits_nothing() {
    let (r, out) = run_source("print()");
    assert_eq!(r.unwrap(), vec![None]);
    assert_eq!(out.len(), 0);
}

#[test]
fn zero_divided_by_most_negative_value() {
    // (0 - 2147483648) * 4294967296 is exactly i64::MIN; dividing zero by
    // it must yield exactly zero, not fail.
    let (r, out) = run_source("print(0 / ((0 - 2147483648) * 4294967296))");
    assert!(r.is_ok());
    let n = number_of(&out[0]);
    assert_eq!((n.numer(), n.denom()), (0, 1));
}

#[test]
fn unrepresentable_reciprocal_overflows() {
    // 1 over i64::MIN has no representation with a positive denominator.
    let code = compile(&chars("print(1 / ((0 - 2147483648) * 4294967296))")).unwrap();
    let rt = Runtime::new();
    let mut out = Vec::new();
    let e = rt.run_code(&code, &mut out).unwrap_err();
    assert!(matches!(e, RuntimeError::NumericOverflow(_)));
}

#[test]
fn all_whitespace_kinds_are_skipped() {
    let (r, out) = run_source("print(\t1 +\n2\r)");
    assert!(r.is_ok());
    let n = number_of(&out[0]);
    assert_eq!((n.numer(), n.denom()), (3, 1));
}

#[test]
fn deeply_nested_parentheses() {
    let (r, out) = run_source("print((((1 + 2))) * 3)");
    assert!(r.is_ok());
    let n = number_of(&out[0]);
    assert_eq!((n.numer(), n.denom()), (9, 1));
}

#[test]
fn mixed_tiers_and_division() {
    // (1 + 2) * 3 / 2 = 9/2 exactly.
    let (r, out) = run_source("print((1 + 2) * 3 / 2)");
    assert!(r.is_ok());
    let n = number_of(&out[0]);
    assert_eq!((n.numer(), n.denom()), (9, 2));
}

#[test]
fn identifiers_may_use_either_case() {
    let ts = tokenize(&chars("FooBAR(1)")).unwrap();
    match &ts[0].content {
        TokenContent::Ident(name) => assert_eq!(name, &chars("FooBAR")),
        other => panic!("expected an identifier, got {:?}", other),
    }
}
