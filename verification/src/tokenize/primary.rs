//! Primary tokenization: a single left-to-right scan of the character
//! sequence, with one character of lookahead, into a flat stream of
//! `PreToken`s.
//!
//! Token classes are disjoint and decided by the first character: a digit —
//! or a decimal point immediately followed by a digit — starts a numeric
//! literal; one of the seven punctuation characters is a one-character
//! punctuation token; an alphabetic character starts an identifier;
//! whitespace is skipped; anything else is an `UnrecognizedCharacter` error.
//! Every token's location covers exactly the characters it was read from.
//!
//! The whole pass is specified by the recursive function `lex1`; `tokenize1`
//! is proved to return exactly `lex1(source, 0)`.
use crate::error::{CompilationError, CompilationErrorKind};
use crate::number::{is_digit, literal_number, literal_to_number, Number};
use crate::Location;
use vstd::prelude::*;

verus! {

/// A punctuation character of the flat stream; parentheses are still plain
/// punctuation here, before the secondary pass folds them into blocks.
#[derive(Debug, Clone, Copy, PartialEq, Eq, Structural, Hash)]
pub enum Punct {
    Plus,
    Dash,
    Asterisk,
    Slash,
    Comma,
    OpenParenth,
    CloseParenth,
}

/// The content of one flat token.
#[derive(Debug, Clone)]
pub enum PreTokenContent {
    /// Any punctuation mark or operator character.
    Punct(Punct),
    /// A run of alphabetic characters.
    Ident(Vec<char>),
    /// An exact decimal literal.
    Number(Number),
}

/// A flat token with the source region it covers.
#[derive(Debug, Clone)]
pub struct PreToken {
    pub location: Location,
    pub content: PreTokenContent,
}

impl PreToken {
    pub fn location(&self) -> (r: &Location)
        ensures
            r == self.location,
    {
        &self.location
    }

    pub fn content(&self) -> (r: &PreTokenContent)
        ensures
            r == self.content,
    {
        &self.content
    }

    pub fn new(content: PreTokenContent, location: Location) -> (r: Self)
        ensures
            r.content == content,
            r.location == location,
    {
        Self { content, location }
    }
}

/// Mathematical model of a flat token.
pub ghost struct SpecPreToken {
    pub location: Location,
    pub content: SpecPreTokenContent,
}

pub ghost enum SpecPreTokenContent {
    Punct(Punct),
    Ident(Seq<char>),
    Number(Number),
}

pub open spec fn pre_content_view(c: PreTokenContent) -> SpecPreTokenContent {
    match c {
        PreTokenContent::Punct(p) => SpecPreTokenContent::Punct(p),
        PreTokenContent::Ident(name) => SpecPreTokenContent::Ident(name@),
        PreTokenContent::Number(n) => SpecPreTokenContent::Number(n),
    }
}

pub open spec fn pre_token_view(t: PreToken) -> SpecPreToken {
    SpecPreToken { location: t.location, content: pre_content_view(t.content) }
}

pub open spec fn pre_stream_view(q: Seq<PreToken>) -> Seq<SpecPreToken> {
    q.map_values(|t: PreToken| pre_token_view(t))
}

/// The punctuation token denoted by a character, if any.
pub open spec fn punct_of(c: char) -> Option<Punct> {
    if c == '+' {
        Some(Punct::Plus)
    } else if c == '-' {
        Some(Punct::Dash)
    } else if c == '*' {
        Some(Punct::Asterisk)
    } else if c == '/' {
        Some(Punct::Slash)
    } else if c == ',' {
        Some(Punct::Comma)
    } else if c == '(' {
        Some(Punct::OpenParenth)
    } else if c == ')' {
        Some(Punct::CloseParenth)
    } else {
        None
    }
}

impl Punct {
    /// The punctuation token a single character denotes, if any.
    pub fn from_char(c: char) -> (r: Option<Punct>)
        ensures
            r == punct_of(c),
    {
        match c {
            '+' => Some(Punct::Plus),
            '-' => Some(Punct::Dash),
            '*' => Some(Punct::Asterisk),
            '/' => Some(Punct::Slash),
            ',' => Some(Punct::Comma),
            '(' => Some(Punct::OpenParenth),
            ')' => Some(Punct::CloseParenth),
            _ => None,
        }
    }
}

/// The character is an ASCII letter.
pub open spec fn is_alpha(c: char) -> bool {
    (65 <= c as u32 && c as u32 <= 90) || (97 <= c as u32 && c as u32 <= 122)
}

/// The character is blank: space, tab, carriage return or newline.
pub open spec fn is_space(c: char) -> bool {
    c == ' ' || c == '\t' || c == '\r' || c == '\n'
}

pub fn char_is_digit(c: char) -> (r: bool)
    ensures
        r == is_digit(c),
{
    let u = c as u32;
    48 <= u && u <= 57
}

pub fn char_is_alpha(c: char) -> (r: bool)
    ensures
        r == is_alpha(c),
{
    let u = c as u32;
    (65 <= u && u <= 90) || (97 <= u && u <= 122)
}

pub fn char_is_space(c: char) -> (r: bool)
    ensures
        r == is_space(c),
{
    c == ' ' || c == '\t' || c == '\r' || c == '\n'
}

/// The first position at or after `i` that does not hold a digit.
pub open spec fn digits_end(s: Seq<char>, i: int) -> int
    decreases s.len() - i,
    when 0 <= i <= s.len()
{
    if i < s.len() && is_digit(s[i]) {
        digits_end(s, i + 1)
    } else {
        i
    }
}

pub proof fn lemma_digits_end(s: Seq<char>, i: int)
    requires
        0 <= i <= s.len(),
    ensures
        i <= digits_end(s, i) <= s.len(),
        forall|k: int| i <= k < digits_end(s, i) ==> is_digit(s[k]),
        digits_end(s, i) < s.len() ==> !is_digit(s[digits_end(s, i)]),
    decreases s.len() - i,
{
    if i < s.len() && is_digit(s[i]) {
        lemma_digits_end(s, i + 1);
    }
}

/// The first position at or after `i` that does not hold a letter.
pub open spec fn alpha_end(s: Seq<char>, i: int) -> int
    decreases s.len() - i,
    when 0 <= i <= s.len()
{
    if i < s.len() && is_alpha(s[i]) {
        alpha_end(s, i + 1)
    } else {
        i
    }
}

pub proof fn lemma_alpha_end(s: Seq<char>, i: int)
    requires
        0 <= i <= s.len(),
    ensures
        i <= alpha_end(s, i) <= s.len(),
        forall|k: int| i <= k < alpha_end(s, i) ==> is_alpha(s[k]),
        alpha_end(s, i) < s.len() ==> !is_alpha(s[alpha_end(s, i)]),
    decreases s.len() - i,
{
    if i < s.len() && is_alpha(s[i]) {
        lemma_alpha_end(s, i + 1);
    }
}

/// Position `i` starts a numeric literal: a digit, or a decimal point
/// immediately followed by a digit.
pub open spec fn starts_number(s: Seq<char>, i: int) -> bool {
    is_digit(s[i]) || (s[i] == '.' && i + 1 < s.len() && is_digit(s[i + 1]))
}

/// Where the numeric literal starting at `i` ends: its consecutive digits,
/// and at most one decimal point with the digits after it.
pub open spec fn number_end(s: Seq<char>, i: int) -> int
    recommends
        0 <= i <= s.len(),
{
    let int_end = digits_end(s, i);
    if int_end < s.len() && s[int_end] == '.' {
        digits_end(s, int_end + 1)
    } else {
        int_end
    }
}

/// Prepends a token to the result of lexing the rest of the input.
pub open spec fn lex1_cons(
    t: SpecPreToken,
    rest: Result<Seq<SpecPreToken>, CompilationError>,
) -> Result<Seq<SpecPreToken>, CompilationError> {
    match rest {
        Ok(ts) => Ok(seq![t] + ts),
        Err(e) => Err(e),
    }
}

/// The flat token stream of `s` from position `i` on: the specification of
/// the primary pass.
pub open spec fn lex1(s: Seq<char>, i: int) -> Result<Seq<SpecPreToken>, CompilationError>
    decreases s.len() - i,
    when 0 <= i <= s.len()
    via lex1_decreases
{
    if i >= s.len() {
        Ok(Seq::empty())
    } else {
        let c = s[i];
        if starts_number(s, i) {
            let int_end = digits_end(s, i);
            let has_dot = int_end < s.len() && s[int_end] == '.';
            let lit_end = number_end(s, i);
            if has_dot && lit_end < s.len() && s[lit_end] == '.' {
                Err(CompilationError {
                    location: Location { begin: i as usize, len: (lit_end + 1 - i) as usize },
                    kind: CompilationErrorKind::TwoDecimalPoints,
                })
            } else {
                let intd = s.subrange(i, int_end);
                let fracd = if has_dot {
                    s.subrange(int_end + 1, lit_end)
                } else {
                    Seq::empty()
                };
                let loc = Location { begin: i as usize, len: (lit_end - i) as usize };
                match literal_number(intd, fracd) {
                    Some(n) => lex1_cons(
                        SpecPreToken { location: loc, content: SpecPreTokenContent::Number(n) },
                        lex1(s, lit_end),
                    ),
                    None => Err(CompilationError {
                        location: loc,
                        kind: CompilationErrorKind::TooPreciseNumber,
                    }),
                }
            }
        } else if punct_of(c) is Some {
            lex1_cons(
                SpecPreToken {
                    location: Location { begin: i as usize, len: 1 },
                    content: SpecPreTokenContent::Punct(punct_of(c)->0),
                },
                lex1(s, i + 1),
            )
        } else if is_alpha(c) {
            let e = alpha_end(s, i);
            lex1_cons(
                SpecPreToken {
                    location: Location { begin: i as usize, len: (e - i) as usize },
                    content: SpecPreTokenContent::Ident(s.subrange(i, e)),
                },
                lex1(s, e),
            )
        } else if is_space(c) {
            lex1(s, i + 1)
        } else {
            Err(CompilationError {
                location: Location { begin: i as usize, len: 1 },
                kind: CompilationErrorKind::UnrecognizedCharacter,
            })
        }
    }
}

#[via_fn]
proof fn lex1_decreases(s: Seq<char>, i: int) {
    if 0 <= i && i < s.len() {
        lemma_digits_end(s, i);
        let int_end = digits_end(s, i);
        if int_end < s.len() && s[int_end] == '.' {
            lemma_digits_end(s, int_end + 1);
        }
        lemma_alpha_end(s, i);
    }
}

/// The tokens lie between `lo` and `hi`, in source order, without overlap.
pub open spec fn pre_tokens_bounded(ts: Seq<SpecPreToken>, lo: int, hi: int) -> bool {
    &&& forall|k: int| 0 <= k < ts.len() ==> lo <= (#[trigger] ts[k]).location.begin
    &&& forall|k: int| 0 <= k < ts.len() ==> (#[trigger] ts[k]).location.spec_end() <= hi
    &&& forall|k: int, j: int|
        0 <= k < j < ts.len() ==> (#[trigger] ts[k]).location.spec_end() <= (
        #[trigger] ts[j]).location.begin
}

/// The flat tokens of `s` from position `i` on lie in `[i, s.len())`, in
/// source order, without overlap.
pub proof fn lemma_lex1_bounded(s: Seq<char>, i: int)
    requires
        0 <= i <= s.len(),
        s.len() <= usize::MAX,
    ensures
        lex1(s, i) matches Ok(ts) ==> pre_tokens_bounded(ts, i, s.len() as int),
    decreases s.len() - i,
{
    if i >= s.len() {
    } else if lex1(s, i) is Ok {
        let c = s[i];
        if starts_number(s, i) {
            lemma_digits_end(s, i);
            let int_end = digits_end(s, i);
            let has_dot = int_end < s.len() && s[int_end] == '.';
            if has_dot {
                lemma_digits_end(s, int_end + 1);
            }
            let lit_end = number_end(s, i);
            if is_digit(s[i]) {
                assert(digits_end(s, i) == digits_end(s, i + 1));
            } else {
                assert(digits_end(s, i + 1) == digits_end(s, i + 2));
            }
            assert(i < lit_end <= s.len());
            lemma_lex1_bounded(s, lit_end);
            let ts = lex1(s, i)->Ok_0;
            let rest = lex1(s, lit_end)->Ok_0;
            assert(forall|k: int| 1 <= k < ts.len() ==> ts[k] == rest[k - 1]);
            assert(pre_tokens_bounded(ts, i, s.len() as int));
        } else if punct_of(c) is Some {
            lemma_lex1_bounded(s, i + 1);
            let ts = lex1(s, i)->Ok_0;
            let rest = lex1(s, i + 1)->Ok_0;
            assert(forall|k: int| 1 <= k < ts.len() ==> ts[k] == rest[k - 1]);
            assert(pre_tokens_bounded(ts, i, s.len() as int));
        } else if is_alpha(c) {
            lemma_alpha_end(s, i);
            let e = alpha_end(s, i);
            assert(alpha_end(s, i) == alpha_end(s, i + 1));
            assert(i < e <= s.len());
            lemma_lex1_bounded(s, e);
            let ts = lex1(s, i)->Ok_0;
            let rest = lex1(s, e)->Ok_0;
            assert(forall|k: int| 1 <= k < ts.len() ==> ts[k] == rest[k - 1]);
            assert(pre_tokens_bounded(ts, i, s.len() as int));
        } else if is_space(c) {
            lemma_lex1_bounded(s, i + 1);
        }
    }
}

/// `digits_end` is determined by the characters: a digit run from `j` that
/// stops at `m` ends exactly there.
proof fn lemma_digits_end_exact(s: Seq<char>, j: int, m: int)
    requires
        0 <= j <= m <= s.len(),
        forall|x: int| j <= x < m ==> is_digit(#[trigger] s[x]),
        m < s.len() ==> !is_digit(s[m]),
    ensures
        digits_end(s, j) == m,
    decreases m - j,
{
    if j < m {
        lemma_digits_end_exact(s, j + 1, m);
    }
}

/// `alpha_end` is determined by the characters likewise.
proof fn lemma_alpha_end_exact(s: Seq<char>, j: int, m: int)
    requires
        0 <= j <= m <= s.len(),
        forall|x: int| j <= x < m ==> is_alpha(#[trigger] s[x]),
        m < s.len() ==> !is_alpha(s[m]),
    ensures
        alpha_end(s, j) == m,
    decreases m - j,
{
    if j < m {
        lemma_alpha_end_exact(s, j + 1, m);
    }
}

/// The same token at offset zero.
pub open spec fn shifted(t: SpecPreToken) -> SpecPreToken {
    SpecPreToken { location: Location { begin: 0, len: t.location.len }, content: t.content }
}

/// Round-trip spans: for every token of the flat stream, the substring of
/// the source covered by its span, re-lexed alone, is exactly that token
/// again, at offset zero.
#[verifier::rlimit(100)]
#[verifier::spinoff_prover]
pub proof fn lemma_round_trip_spans(s: Seq<char>, i: int, k: int)
    requires
        0 <= i <= s.len(),
        s.len() <= usize::MAX,
        lex1(s, i) is Ok,
        0 <= k < (lex1(s, i)->Ok_0).len(),
    ensures
        ({
            let t = (lex1(s, i)->Ok_0)[k];
            lex1(s.subrange(t.location.begin as int, t.location.spec_end()), 0) == Ok::<
                _,
                CompilationError,
            >(seq![shifted(t)])
        }),
    decreases s.len() - i,
{
    let ts = lex1(s, i)->Ok_0;
    let c = s[i];
    lemma_lex1_bounded(s, i);
    if starts_number(s, i) {
        lemma_digits_end(s, i);
        let int_end = digits_end(s, i);
        let has_dot = int_end < s.len() && s[int_end] == '.';
        if has_dot {
            lemma_digits_end(s, int_end + 1);
        }
        let lit_end = number_end(s, i);
        if is_digit(s[i]) {
            assert(digits_end(s, i) == digits_end(s, i + 1));
        } else {
            assert(digits_end(s, i + 1) == digits_end(s, i + 2));
        }
        assert(i < lit_end <= s.len());
        if k == 0 {
            let t = ts[0];
            assert(t.location == Location { begin: i as usize, len: (lit_end - i) as usize });
            let sub = s.subrange(i, lit_end);
            assert(forall|x: int| 0 <= x < sub.len() ==> sub[x] == s[i + x]);
            assert(starts_number(sub, 0));
            lemma_digits_end_exact(sub, 0, int_end - i);
            let has_dot_sub = int_end - i < sub.len() && sub[int_end - i] == '.';
            assert(has_dot_sub == has_dot);
            if has_dot {
                lemma_digits_end_exact(sub, int_end - i + 1, lit_end - i);
                assert(sub.subrange(int_end - i + 1, lit_end - i) =~= s.subrange(
                    int_end + 1,
                    lit_end,
                ));
            }
            assert(number_end(sub, 0) == lit_end - i);
            assert(sub.subrange(0, int_end - i) =~= s.subrange(i, int_end));
            let intd = s.subrange(i, int_end);
            let fracd = if has_dot {
                s.subrange(int_end + 1, lit_end)
            } else {
                Seq::<char>::empty()
            };
            assert(literal_number(intd, fracd) is Some);
            let n = literal_number(intd, fracd)->0;
            assert(lex1(sub, lit_end - i) == Ok::<_, CompilationError>(Seq::<
                SpecPreToken,
            >::empty()));
            assert(seq![shifted(t)] + Seq::<SpecPreToken>::empty() =~= seq![shifted(t)]);
        } else {
            lemma_round_trip_spans(s, lit_end, k - 1);
            let rest = lex1(s, lit_end)->Ok_0;
            assert(ts[k] == rest[k - 1]);
        }
    } else if punct_of(c) is Some {
        if k == 0 {
            let t = ts[0];
            let sub = s.subrange(i, i + 1);
            assert(sub[0] == c);
            assert(sub.len() == 1);
            assert(!starts_number(sub, 0));
            assert(lex1(sub, 1) == Ok::<_, CompilationError>(Seq::<SpecPreToken>::empty()));
            assert(seq![shifted(t)] + Seq::<SpecPreToken>::empty() =~= seq![shifted(t)]);
        } else {
            lemma_round_trip_spans(s, i + 1, k - 1);
            let rest = lex1(s, i + 1)->Ok_0;
            assert(ts[k] == rest[k - 1]);
        }
    } else if is_alpha(c) {
        lemma_alpha_end(s, i);
        let e = alpha_end(s, i);
        assert(alpha_end(s, i) == alpha_end(s, i + 1));
        assert(i < e <= s.len());
        if k == 0 {
            let t = ts[0];
            let sub = s.subrange(i, e);
            assert(forall|x: int| 0 <= x < sub.len() ==> sub[x] == s[i + x]);
            assert(is_alpha(sub[0]));
            assert(!is_digit(sub[0]) && sub[0] != '.');
            assert(!starts_number(sub, 0));
            assert(punct_of(sub[0]) is None);
            lemma_alpha_end_exact(sub, 0, e - i);
            assert(sub.subrange(0, e - i) =~= s.subrange(i, e));
            assert(lex1(sub, e - i) == Ok::<_, CompilationError>(Seq::<SpecPreToken>::empty()));
            assert(seq![shifted(t)] + Seq::<SpecPreToken>::empty() =~= seq![shifted(t)]);
        } else {
            lemma_round_trip_spans(s, e, k - 1);
            let rest = lex1(s, e)->Ok_0;
            assert(ts[k] == rest[k - 1]);
        }
    } else if is_space(c) {
        lemma_round_trip_spans(s, i + 1, k);
    }
}

/// A flat token moved left by `d` source positions.
pub open spec fn shift_pre(t: SpecPreToken, d: int) -> SpecPreToken {
    SpecPreToken {
        location: Location { begin: (t.location.begin - d) as usize, len: t.location.len },
        content: t.content,
    }
}

pub open spec fn shift_pre_seq(q: Seq<SpecPreToken>, d: int) -> Seq<SpecPreToken> {
    q.map_values(|t: SpecPreToken| shift_pre(t, d))
}

/// Digit runs translate under taking a suffix of the source.
proof fn lemma_digits_end_shift(s: Seq<char>, p: int, x: int)
    requires
        0 <= p,
        p <= p + x <= s.len(),
    ensures
        digits_end(s.subrange(p, s.len() as int), x) == digits_end(s, p + x) - p,
    decreases s.len() - p - x,
{
    let sub = s.subrange(p, s.len() as int);
    if x < sub.len() && is_digit(sub[x]) {
        lemma_digits_end_shift(s, p, x + 1);
    }
}

/// Letter runs translate under taking a suffix of the source.
proof fn lemma_alpha_end_shift(s: Seq<char>, p: int, x: int)
    requires
        0 <= p,
        p <= p + x <= s.len(),
    ensures
        alpha_end(s.subrange(p, s.len() as int), x) == alpha_end(s, p + x) - p,
    decreases s.len() - p - x,
{
    let sub = s.subrange(p, s.len() as int);
    if x < sub.len() && is_alpha(sub[x]) {
        lemma_alpha_end_shift(s, p, x + 1);
    }
}

/// The numeric-literal case of `lemma_lex1_shift`, given the translation of
/// the remaining stream.
#[verifier::rlimit(100)]
#[verifier::spinoff_prover]
proof fn lemma_lex1_shift_number(s: Seq<char>, p: int, i: int)
    requires
        0 <= p <= i < s.len(),
        s.len() <= usize::MAX,
        lex1(s, i) is Ok,
        starts_number(s, i),
        lex1(s.subrange(p, s.len() as int), number_end(s, i) - p) == Ok::<_, CompilationError>(
            shift_pre_seq(lex1(s, number_end(s, i))->Ok_0, p),
        ),
    ensures
        lex1(s.subrange(p, s.len() as int), i - p) == Ok::<_, CompilationError>(
            shift_pre_seq(lex1(s, i)->Ok_0, p),
        ),
{
    let sub = s.subrange(p, s.len() as int);
    let ts = lex1(s, i)->Ok_0;
    let x = i - p;
    assert(forall|y: int| 0 <= y < sub.len() ==> sub[y] == s[p + y]);
    assert(sub[x] == s[i]);
    assert(starts_number(sub, x));
    lemma_digits_end(s, i);
    let int_end = digits_end(s, i);
    let has_dot = int_end < s.len() && s[int_end] == '.';
    if has_dot {
        lemma_digits_end(s, int_end + 1);
    }
    let lit_end = number_end(s, i);
    if is_digit(s[i]) {
        assert(digits_end(s, i) == digits_end(s, i + 1));
    } else {
        assert(digits_end(s, i + 1) == digits_end(s, i + 2));
    }
    assert(i < lit_end <= s.len());
    lemma_digits_end_shift(s, p, x);
    assert(digits_end(sub, x) == int_end - p);
    let has_dot_sub = int_end - p < sub.len() && sub[int_end - p] == '.';
    assert(has_dot_sub == has_dot);
    if has_dot {
        lemma_digits_end_shift(s, p, int_end + 1 - p);
        assert(sub.subrange(int_end + 1 - p, lit_end - p) =~= s.subrange(int_end + 1, lit_end));
    }
    assert(number_end(sub, x) == lit_end - p);
    assert(sub.subrange(x, int_end - p) =~= s.subrange(i, int_end));
    let intd = s.subrange(i, int_end);
    let fracd = if has_dot {
        s.subrange(int_end + 1, lit_end)
    } else {
        Seq::<char>::empty()
    };
    assert(literal_number(intd, fracd) is Some);
    let n = literal_number(intd, fracd)->0;
    let t0 = SpecPreToken {
        location: Location { begin: i as usize, len: (lit_end - i) as usize },
        content: SpecPreTokenContent::Number(n),
    };
    let rest = lex1(s, lit_end)->Ok_0;
    assert(lex1(s, i) == lex1_cons(t0, lex1(s, lit_end)));
    assert(ts =~= seq![t0] + rest);
    let t0s = shift_pre(t0, p);
    assert(lex1(sub, x) == lex1_cons(t0s, lex1(sub, lit_end - p)));
    assert(seq![t0s] + shift_pre_seq(rest, p) =~= shift_pre_seq(ts, p));
}

/// The lexer is position-local: lexing a suffix of the source yields the
/// same tokens, moved left by the cut.
#[verifier::rlimit(100)]
#[verifier::spinoff_prover]
pub proof fn lemma_lex1_shift(s: Seq<char>, p: int, i: int)
    requires
        0 <= p <= i <= s.len(),
        s.len() <= usize::MAX,
        lex1(s, i) is Ok,
    ensures
        lex1(s.subrange(p, s.len() as int), i - p) == Ok::<_, CompilationError>(
            shift_pre_seq(lex1(s, i)->Ok_0, p),
        ),
    decreases s.len() - i,
{
    let sub = s.subrange(p, s.len() as int);
    let ts = lex1(s, i)->Ok_0;
    let x = i - p;
    assert(forall|y: int| 0 <= y < sub.len() ==> sub[y] == s[p + y]);
    if i >= s.len() {
        assert(shift_pre_seq(ts, p) =~= Seq::<SpecPreToken>::empty());
    } else {
        let c = s[i];
        assert(sub[x] == c);
        assert(starts_number(sub, x) == starts_number(s, i));
        if starts_number(s, i) {
            lemma_digits_end(s, i);
            let int_end = digits_end(s, i);
            if int_end < s.len() && s[int_end] == '.' {
                lemma_digits_end(s, int_end + 1);
            }
            let lit_end = number_end(s, i);
            if is_digit(s[i]) {
                assert(digits_end(s, i) == digits_end(s, i + 1));
            } else {
                assert(digits_end(s, i + 1) == digits_end(s, i + 2));
            }
            assert(i < lit_end <= s.len());
            lemma_lex1_shift(s, p, lit_end);
            lemma_lex1_shift_number(s, p, i);
        } else if punct_of(c) is Some {
            let t0 = SpecPreToken {
                location: Location { begin: i as usize, len: 1 },
                content: SpecPreTokenContent::Punct(punct_of(c)->0),
            };
            let rest = lex1(s, i + 1)->Ok_0;
            assert(lex1(s, i) == lex1_cons(t0, lex1(s, i + 1)));
            assert(ts =~= seq![t0] + rest);
            let t0s = shift_pre(t0, p);
            assert(lex1(sub, x) == lex1_cons(t0s, lex1(sub, x + 1)));
            lemma_lex1_shift(s, p, i + 1);
            assert(lex1(sub, x + 1) == Ok::<_, CompilationError>(shift_pre_seq(rest, p)));
            assert(seq![t0s] + shift_pre_seq(rest, p) =~= shift_pre_seq(ts, p));
        } else if is_alpha(c) {
            lemma_alpha_end(s, i);
            let e = alpha_end(s, i);
            assert(alpha_end(s, i) == alpha_end(s, i + 1));
            assert(i < e <= s.len());
            lemma_alpha_end_shift(s, p, x);
            assert(alpha_end(sub, x) == e - p);
            assert(sub.subrange(x, e - p) =~= s.subrange(i, e));
            let t0 = SpecPreToken {
                location: Location { begin: i as usize, len: (e - i) as usize },
                content: SpecPreTokenContent::Ident(s.subrange(i, e)),
            };
            let rest = lex1(s, e)->Ok_0;
            assert(lex1(s, i) == lex1_cons(t0, lex1(s, e)));
            assert(ts =~= seq![t0] + rest);
            let t0s = shift_pre(t0, p);
            assert(lex1(sub, x) == lex1_cons(t0s, lex1(sub, e - p)));
            lemma_lex1_shift(s, p, e);
            assert(lex1(sub, e - p) == Ok::<_, CompilationError>(shift_pre_seq(rest, p)));
            assert(seq![t0s] + shift_pre_seq(rest, p) =~= shift_pre_seq(ts, p));
        } else if is_space(c) {
            assert(lex1(sub, x) == lex1(sub, x + 1));
            lemma_lex1_shift(s, p, i + 1);
        }
    }
}

/// Restarting the lexer at any of its tokens' begins reproduces exactly the
/// remaining tokens.
pub proof fn lemma_lex1_restart(s: Seq<char>, i: int, k: int)
    requires
        0 <= i <= s.len(),
        s.len() <= usize::MAX,
        lex1(s, i) is Ok,
        0 <= k < (lex1(s, i)->Ok_0).len(),
    ensures
        lex1(s, (lex1(s, i)->Ok_0)[k].location.begin as int) == Ok::<_, CompilationError>(
            (lex1(s, i)->Ok_0).skip(k),
        ),
    decreases s.len() - i,
{
    let ts = lex1(s, i)->Ok_0;
    let c = s[i];
    if starts_number(s, i) {
        lemma_digits_end(s, i);
        let int_end = digits_end(s, i);
        if int_end < s.len() && s[int_end] == '.' {
            lemma_digits_end(s, int_end + 1);
        }
        let lit_end = number_end(s, i);
        if is_digit(s[i]) {
            assert(digits_end(s, i) == digits_end(s, i + 1));
        } else {
            assert(digits_end(s, i + 1) == digits_end(s, i + 2));
        }
        assert(i < lit_end <= s.len());
        let rest = lex1(s, lit_end)->Ok_0;
        if k == 0 {
            assert(ts.skip(0) =~= ts);
        } else {
            lemma_lex1_restart(s, lit_end, k - 1);
            assert(ts[k] == rest[k - 1]);
            assert(ts.skip(k) =~= rest.skip(k - 1));
        }
    } else if punct_of(c) is Some {
        let rest = lex1(s, i + 1)->Ok_0;
        if k == 0 {
            assert(ts.skip(0) =~= ts);
        } else {
            lemma_lex1_restart(s, i + 1, k - 1);
            assert(ts[k] == rest[k - 1]);
            assert(ts.skip(k) =~= rest.skip(k - 1));
        }
    } else if is_alpha(c) {
        lemma_alpha_end(s, i);
        let e = alpha_end(s, i);
        assert(alpha_end(s, i) == alpha_end(s, i + 1));
        assert(i < e <= s.len());
        let rest = lex1(s, e)->Ok_0;
        if k == 0 {
            assert(ts.skip(0) =~= ts);
        } else {
            lemma_lex1_restart(s, e, k - 1);
            assert(ts[k] == rest[k - 1]);
            assert(ts.skip(k) =~= rest.skip(k - 1));
        }
    } else if is_space(c) {
        lemma_lex1_restart(s, i + 1, k);
    }
}

/// The numeric-literal case of `lemma_lex1_truncate`, given the truncation
/// of the remaining stream.
#[verifier::rlimit(100)]
#[verifier::spinoff_prover]
proof fn lemma_lex1_truncate_number(s: Seq<char>, i: int, m: int, b: int)
    requires
        0 <= i < s.len(),
        s.len() <= usize::MAX,
        lex1(s, i) is Ok,
        starts_number(s, i),
        0 <= m < (lex1(s, i)->Ok_0).len(),
        b == (lex1(s, i)->Ok_0)[m].location.spec_end(),
        number_end(s, i) <= b <= s.len(),
        m > 0 ==> lex1(s.subrange(0, b), number_end(s, i)) == Ok::<_, CompilationError>(
            (lex1(s, number_end(s, i))->Ok_0).subrange(0, m),
        ),
    ensures
        lex1(s.subrange(0, b), i) == Ok::<_, CompilationError>(
            (lex1(s, i)->Ok_0).subrange(0, m + 1),
        ),
{
    let sub = s.subrange(0, b);
    let ts = lex1(s, i)->Ok_0;
    assert(forall|y: int| 0 <= y < sub.len() ==> sub[y] == s[y]);
    lemma_digits_end(s, i);
    let int_end = digits_end(s, i);
    let has_dot = int_end < s.len() && s[int_end] == '.';
    if has_dot {
        lemma_digits_end(s, int_end + 1);
    }
    let lit_end = number_end(s, i);
    if is_digit(s[i]) {
        assert(digits_end(s, i) == digits_end(s, i + 1));
    } else {
        assert(digits_end(s, i + 1) == digits_end(s, i + 2));
    }
    assert(i < lit_end <= s.len());
    assert(starts_number(sub, i));
    lemma_digits_end_exact(sub, i, int_end);
    let has_dot_sub = int_end < sub.len() && sub[int_end] == '.';
    assert(has_dot_sub == has_dot);
    if has_dot {
        lemma_digits_end_exact(sub, int_end + 1, lit_end);
        assert(sub.subrange(int_end + 1, lit_end) =~= s.subrange(int_end + 1, lit_end));
    }
    assert(number_end(sub, i) == lit_end);
    assert(sub.subrange(i, int_end) =~= s.subrange(i, int_end));
    let intd = s.subrange(i, int_end);
    let fracd = if has_dot {
        s.subrange(int_end + 1, lit_end)
    } else {
        Seq::<char>::empty()
    };
    assert(literal_number(intd, fracd) is Some);
    let n = literal_number(intd, fracd)->0;
    let t0 = SpecPreToken {
        location: Location { begin: i as usize, len: (lit_end - i) as usize },
        content: SpecPreTokenContent::Number(n),
    };
    let rest = lex1(s, lit_end)->Ok_0;
    assert(lex1(s, i) == lex1_cons(t0, lex1(s, lit_end)));
    assert(ts =~= seq![t0] + rest);
    if m == 0 {
        assert(b == lit_end);
        assert(lex1(sub, lit_end) == Ok::<_, CompilationError>(Seq::<SpecPreToken>::empty()));
        assert(seq![t0] + Seq::<SpecPreToken>::empty() =~= ts.subrange(0, 1));
    } else {
        assert(lex1(sub, i) == lex1_cons(t0, lex1(sub, lit_end)));
        assert(seq![t0] + rest.subrange(0, m) =~= ts.subrange(0, m + 1));
    }
}

/// Cutting the source at a token's end keeps exactly the tokens up to and
/// including it.
#[verifier::rlimit(100)]
#[verifier::spinoff_prover]
pub proof fn lemma_lex1_truncate(s: Seq<char>, i: int, m: int)
    requires
        0 <= i <= s.len(),
        s.len() <= usize::MAX,
        lex1(s, i) is Ok,
        0 <= m < (lex1(s, i)->Ok_0).len(),
    ensures
        lex1(s.subrange(0, (lex1(s, i)->Ok_0)[m].location.spec_end()), i) == Ok::<
            _,
            CompilationError,
        >((lex1(s, i)->Ok_0).subrange(0, m + 1)),
    decreases s.len() - i,
{
    let ts = lex1(s, i)->Ok_0;
    let b = ts[m].location.spec_end();
    let sub = s.subrange(0, b);
    lemma_lex1_bounded(s, i);
    assert(forall|y: int| 0 <= y < sub.len() ==> sub[y] == s[y]);
    let c = s[i];
    if starts_number(s, i) {
        lemma_digits_end(s, i);
        let int_end = digits_end(s, i);
        if int_end < s.len() && s[int_end] == '.' {
            lemma_digits_end(s, int_end + 1);
        }
        let lit_end = number_end(s, i);
        if is_digit(s[i]) {
            assert(digits_end(s, i) == digits_end(s, i + 1));
        } else {
            assert(digits_end(s, i + 1) == digits_end(s, i + 2));
        }
        assert(i < lit_end <= s.len());
        let rest = lex1(s, lit_end)->Ok_0;
        if m > 0 {
            assert(ts[m] == rest[m - 1]);
            assert(ts[0].location.spec_end() <= ts[m].location.begin);
            lemma_lex1_truncate(s, lit_end, m - 1);
        } else {
            assert(b == lit_end);
        }
        assert(lit_end <= b);
        lemma_lex1_truncate_number(s, i, m, b);
    } else if punct_of(c) is Some {
        let rest = lex1(s, i + 1)->Ok_0;
        let t0 = SpecPreToken {
            location: Location { begin: i as usize, len: 1 },
            content: SpecPreTokenContent::Punct(punct_of(c)->0),
        };
        assert(lex1(s, i) == lex1_cons(t0, lex1(s, i + 1)));
        assert(ts =~= seq![t0] + rest);
        if m > 0 {
            assert(ts[m] == rest[m - 1]);
            assert(ts[0].location.spec_end() <= ts[m].location.begin);
            lemma_lex1_truncate(s, i + 1, m - 1);
        } else {
            assert(b == i + 1);
        }
        assert(i + 1 <= b);
        assert(sub[i] == c);
        assert(!starts_number(sub, i));
        assert(lex1(sub, i) == lex1_cons(t0, lex1(sub, i + 1)));
        if m == 0 {
            assert(lex1(sub, i + 1) == Ok::<_, CompilationError>(Seq::<SpecPreToken>::empty()));
            assert(seq![t0] + Seq::<SpecPreToken>::empty() =~= ts.subrange(0, 1));
        } else {
            assert(seq![t0] + rest.subrange(0, m) =~= ts.subrange(0, m + 1));
        }
    } else if is_alpha(c) {
        lemma_alpha_end(s, i);
        let e = alpha_end(s, i);
        assert(alpha_end(s, i) == alpha_end(s, i + 1));
        assert(i < e <= s.len());
        let rest = lex1(s, e)->Ok_0;
        let t0 = SpecPreToken {
            location: Location { begin: i as usize, len: (e - i) as usize },
            content: SpecPreTokenContent::Ident(s.subrange(i, e)),
        };
        assert(lex1(s, i) == lex1_cons(t0, lex1(s, e)));
        assert(ts =~= seq![t0] + rest);
        if m > 0 {
            assert(ts[m] == rest[m - 1]);
            assert(ts[0].location.spec_end() <= ts[m].location.begin);
            lemma_lex1_truncate(s, e, m - 1);
        } else {
            assert(b == e);
        }
        assert(e <= b);
        assert(sub[i] == c);
        assert(!starts_number(sub, i));
        assert(punct_of(c) is None);
        lemma_alpha_end_exact(sub, i, e);
        assert(sub.subrange(i, e) =~= s.subrange(i, e));
        assert(lex1(sub, i) == lex1_cons(t0, lex1(sub, e)));
        if m == 0 {
            assert(lex1(sub, e) == Ok::<_, CompilationError>(Seq::<SpecPreToken>::empty()));
            assert(seq![t0] + Seq::<SpecPreToken>::empty() =~= ts.subrange(0, 1));
        } else {
            assert(seq![t0] + rest.subrange(0, m) =~= ts.subrange(0, m + 1));
        }
    } else if is_space(c) {
        lemma_lex1_bounded(s, i + 1);
        assert(ts[m].location.begin >= i + 1);
        lemma_lex1_truncate(s, i + 1, m);
        assert(sub[i] == c);
        assert(!starts_number(sub, i));
        assert(lex1(sub, i) == lex1(sub, i + 1));
    }
}

/// Every numeric token of the flat stream has a positive denominator.
pub open spec fn pre_tokens_values_wf(ts: Seq<SpecPreToken>) -> bool {
    forall|k: int|
        0 <= k < ts.len() ==> ((#[trigger] ts[k]).content matches SpecPreTokenContent::Number(n)
            ==> n.wf())
}

/// The flat tokens of `s` all hold well-formed numbers: a literal's
/// denominator is a positive power of ten.
pub proof fn lemma_lex1_values_wf(s: Seq<char>, i: int)
    requires
        0 <= i <= s.len(),
    ensures
        lex1(s, i) matches Ok(ts) ==> pre_tokens_values_wf(ts),
    decreases s.len() - i,
{
    if i >= s.len() {
    } else if lex1(s, i) is Ok {
        let c = s[i];
        if starts_number(s, i) {
            lemma_digits_end(s, i);
            let int_end = digits_end(s, i);
            let has_dot = int_end < s.len() && s[int_end] == '.';
            if has_dot {
                lemma_digits_end(s, int_end + 1);
            }
            let lit_end = number_end(s, i);
            if is_digit(s[i]) {
                assert(digits_end(s, i) == digits_end(s, i + 1));
            } else {
                assert(digits_end(s, i + 1) == digits_end(s, i + 2));
            }
            let fracd = if has_dot {
                s.subrange(int_end + 1, lit_end)
            } else {
                Seq::<char>::empty()
            };
            crate::number::lemma_pow10_pos(fracd.len());
            lemma_lex1_values_wf(s, lit_end);
            let ts = lex1(s, i)->Ok_0;
            let rest = lex1(s, lit_end)->Ok_0;
            assert(forall|k: int| 1 <= k < ts.len() ==> ts[k] == rest[k - 1]);
        } else if punct_of(c) is Some {
            lemma_lex1_values_wf(s, i + 1);
            let ts = lex1(s, i)->Ok_0;
            let rest = lex1(s, i + 1)->Ok_0;
            assert(forall|k: int| 1 <= k < ts.len() ==> ts[k] == rest[k - 1]);
        } else if is_alpha(c) {
            lemma_alpha_end(s, i);
            let e = alpha_end(s, i);
            assert(alpha_end(s, i) == alpha_end(s, i + 1));
            lemma_lex1_values_wf(s, e);
            let ts = lex1(s, i)->Ok_0;
            let rest = lex1(s, e)->Ok_0;
            assert(forall|k: int| 1 <= k < ts.len() ==> ts[k] == rest[k - 1]);
        } else if is_space(c) {
            lemma_lex1_values_wf(s, i + 1);
        }
    }
}

/// Every punctuation token of the flat stream covers exactly one character.
pub open spec fn pre_tokens_puncts_unit(ts: Seq<SpecPreToken>) -> bool {
    forall|k: int|
        0 <= k < ts.len() ==> ((#[trigger] ts[k]).content matches SpecPreTokenContent::Punct(_)
            ==> ts[k].location.len == 1)
}

pub proof fn lemma_lex1_puncts_unit(s: Seq<char>, i: int)
    requires
        0 <= i <= s.len(),
    ensures
        lex1(s, i) matches Ok(ts) ==> pre_tokens_puncts_unit(ts),
    decreases s.len() - i,
{
    if i >= s.len() {
    } else if lex1(s, i) is Ok {
        let c = s[i];
        if starts_number(s, i) {
            lemma_digits_end(s, i);
            let int_end = digits_end(s, i);
            if int_end < s.len() && s[int_end] == '.' {
                lemma_digits_end(s, int_end + 1);
            }
            let lit_end = number_end(s, i);
            if is_digit(s[i]) {
                assert(digits_end(s, i) == digits_end(s, i + 1));
            } else {
                assert(digits_end(s, i + 1) == digits_end(s, i + 2));
            }
            lemma_lex1_puncts_unit(s, lit_end);
            let ts = lex1(s, i)->Ok_0;
            let rest = lex1(s, lit_end)->Ok_0;
            assert(forall|k: int| 1 <= k < ts.len() ==> ts[k] == rest[k - 1]);
        } else if punct_of(c) is Some {
            lemma_lex1_puncts_unit(s, i + 1);
            let ts = lex1(s, i)->Ok_0;
            let rest = lex1(s, i + 1)->Ok_0;
            assert(forall|k: int| 1 <= k < ts.len() ==> ts[k] == rest[k - 1]);
        } else if is_alpha(c) {
            lemma_alpha_end(s, i);
            let e = alpha_end(s, i);
            assert(alpha_end(s, i) == alpha_end(s, i + 1));
            lemma_lex1_puncts_unit(s, e);
            let ts = lex1(s, i)->Ok_0;
            let rest = lex1(s, e)->Ok_0;
            assert(forall|k: int| 1 <= k < ts.len() ==> ts[k] == rest[k - 1]);
        } else if is_space(c) {
            lemma_lex1_puncts_unit(s, i + 1);
        }
    }
}

/// Prepends already-emitted tokens to the outcome of lexing the rest.
pub open spec fn lex1_prepend(
    pre: Seq<SpecPreToken>,
    rest: Result<Seq<SpecPreToken>, CompilationError>,
) -> Result<Seq<SpecPreToken>, CompilationError> {
    match rest {
        Ok(ts) => Ok(pre + ts),
        Err(e) => Err(e),
    }
}

proof fn lemma_prepend_cons(
    pre: Seq<SpecPreToken>,
    t: SpecPreToken,
    rest: Result<Seq<SpecPreToken>, CompilationError>,
)
    ensures
        lex1_prepend(pre, lex1_cons(t, rest)) == lex1_prepend(pre.push(t), rest),
{
    match rest {
        Ok(ts) => {
            assert(pre + (seq![t] + ts) =~= pre.push(t) + ts);
        },
        Err(_) => {},
    }
}

proof fn lemma_pre_stream_view_push(q: Seq<PreToken>, t: PreToken)
    ensures
        pre_stream_view(q.push(t)) == pre_stream_view(q).push(pre_token_view(t)),
{
    assert(pre_stream_view(q.push(t)) =~= pre_stream_view(q).push(pre_token_view(t)));
}

/// The next position at or after `from` holding no digit.
fn scan_digits(src: &Vec<char>, from: usize) -> (r: usize)
    requires
        from <= src@.len(),
    ensures
        r == digits_end(src@, from as int),
        from <= r <= src@.len(),
{
    let ghost s = src@;
    let mut k: usize = from;
    while k < src.len() && char_is_digit(src[k])
        invariant
            from <= k <= s.len(),
            s == src@,
            digits_end(s, from as int) == digits_end(s, k as int),
        decreases s.len() - k,
    {
        proof {
            assert(digits_end(s, k as int) == digits_end(s, k + 1int));
        }
        k = k + 1;
    }
    proof {
        assert(digits_end(s, k as int) == k);
    }
    k
}

/// The next position at or after `from` holding no letter.
fn scan_alpha(src: &Vec<char>, from: usize) -> (r: usize)
    requires
        from <= src@.len(),
    ensures
        r == alpha_end(src@, from as int),
        from <= r <= src@.len(),
{
    let ghost s = src@;
    let mut k: usize = from;
    while k < src.len() && char_is_alpha(src[k])
        invariant
            from <= k <= s.len(),
            s == src@,
            alpha_end(s, from as int) == alpha_end(s, k as int),
        decreases s.len() - k,
    {
        proof {
            assert(alpha_end(s, k as int) == alpha_end(s, k + 1int));
        }
        k = k + 1;
    }
    proof {
        assert(alpha_end(s, k as int) == k);
    }
    k
}

/// Copies the characters `src[from..to]` into a fresh vector.
fn copy_range(src: &Vec<char>, from: usize, to: usize) -> (r: Vec<char>)
    requires
        from <= to <= src@.len(),
    ensures
        r@ == src@.subrange(from as int, to as int),
{
    let mut out: Vec<char> = Vec::new();
    let mut k: usize = from;
    proof {
        assert(out@ =~= src@.subrange(from as int, from as int));
    }
    while k < to
        invariant
            from <= k <= to <= src@.len(),
            out@ == src@.subrange(from as int, k as int),
        decreases to - k,
    {
        out.push(src[k]);
        proof {
            assert(out@ =~= src@.subrange(from as int, k + 1int));
        }
        k = k + 1;
    }
    out
}

/// The primary pass: scans the whole character sequence into the flat token
/// stream `lex1(source, 0)`, or the first lexical error.
pub fn tokenize1(source: &Vec<char>) -> (r: Result<Vec<PreToken>, CompilationError>)
    ensures
        match r {
            Ok(v) => lex1(source@, 0) == Ok::<_, CompilationError>(pre_stream_view(v@)),
            Err(e) => lex1(source@, 0) == Err::<Seq<SpecPreToken>, _>(e),
        },
{
    let ghost s = source@;
    let mut tokens: Vec<PreToken> = Vec::new();
    let mut i: usize = 0;
    proof {
        assert(lex1_prepend(pre_stream_view(tokens@), lex1(s, 0)) == lex1(s, 0)) by {
            match lex1(s, 0) {
                Ok(ts) => {
                    assert(pre_stream_view(tokens@) =~= Seq::<SpecPreToken>::empty());
                    assert(pre_stream_view(tokens@) + ts =~= ts);
                },
                Err(_) => {},
            }
        }
    }
    while i < source.len()
        invariant
            0 <= i <= s.len(),
            s == source@,
            lex1(s, 0) == lex1_prepend(pre_stream_view(tokens@), lex1(s, i as int)),
        decreases s.len() - i,
    {
        let c = source[i];
        let is_num = char_is_digit(c) || (c == '.' && i + 1 < source.len() && char_is_digit(
            source[i + 1],
        ));
        proof {
            assert(is_num == starts_number(s, i as int));
        }
        if is_num {
            let int_end = scan_digits(source, i);
            proof {
                lemma_digits_end(s, i as int);
            }
            let has_dot = int_end < source.len() && source[int_end] == '.';
            let lit_end = if has_dot {
                proof {
                    lemma_digits_end(s, int_end + 1);
                }
                scan_digits(source, int_end + 1)
            } else {
                int_end
            };
            proof {
                assert(lit_end == number_end(s, i as int));
                if is_digit(s[i as int]) {
                    assert(digits_end(s, i as int) == digits_end(s, i + 1int));
                    assert(int_end > i);
                } else {
                    assert(int_end == i && has_dot);
                    assert(digits_end(s, i + 1int) == digits_end(s, i + 2int));
                }
                assert(i < lit_end <= s.len());
            }
            if has_dot && lit_end < source.len() && source[lit_end] == '.' {
                let err = CompilationError {
                    location: Location { begin: i, len: lit_end + 1 - i },
                    kind: CompilationErrorKind::TwoDecimalPoints,
                };
                proof {
                    assert(lex1(s, i as int) == Err::<Seq<SpecPreToken>, _>(err));
                }
                return Err(err);
            }
            let frac_start = if has_dot {
                int_end + 1
            } else {
                lit_end
            };
            proof {
                if !has_dot {
                    assert(s.subrange(lit_end as int, lit_end as int) =~= Seq::<char>::empty());
                }
            }
            match literal_to_number(source, i, int_end, frac_start, lit_end) {
                Some(n) => {
                    let tok = PreToken {
                        location: Location { begin: i, len: lit_end - i },
                        content: PreTokenContent::Number(n),
                    };
                    proof {
                        assert(lex1(s, i as int) == lex1_cons(
                            pre_token_view(tok),
                            lex1(s, lit_end as int),
                        ));
                        lemma_prepend_cons(
                            pre_stream_view(tokens@),
                            pre_token_view(tok),
                            lex1(s, lit_end as int),
                        );
                        lemma_pre_stream_view_push(tokens@, tok);
                    }
                    tokens.push(tok);
                    i = lit_end;
                },
                None => {
                    let err = CompilationError {
                        location: Location { begin: i, len: lit_end - i },
                        kind: CompilationErrorKind::TooPreciseNumber,
                    };
                    proof {
                        assert(lex1(s, i as int) == Err::<Seq<SpecPreToken>, _>(err));
                    }
                    return Err(err);
                },
            }
        } else if let Some(p) = Punct::from_char(c) {
            let tok = PreToken {
                location: Location { begin: i, len: 1 },
                content: PreTokenContent::Punct(p),
            };
            proof {
                assert(lex1(s, i as int) == lex1_cons(pre_token_view(tok), lex1(s, i + 1int)));
                lemma_prepend_cons(pre_stream_view(tokens@), pre_token_view(tok), lex1(s, i + 1int));
                lemma_pre_stream_view_push(tokens@, tok);
            }
            tokens.push(tok);
            i = i + 1;
        } else if char_is_alpha(c) {
            let e = scan_alpha(source, i);
            proof {
                lemma_alpha_end(s, i as int);
                assert(alpha_end(s, i as int) == alpha_end(s, i + 1int));
                assert(i < e);
            }
            let name = copy_range(source, i, e);
            let tok = PreToken {
                location: Location { begin: i, len: e - i },
                content: PreTokenContent::Ident(name),
            };
            proof {
                assert(lex1(s, i as int) == lex1_cons(pre_token_view(tok), lex1(s, e as int)));
                lemma_prepend_cons(pre_stream_view(tokens@), pre_token_view(tok), lex1(s, e as int));
                lemma_pre_stream_view_push(tokens@, tok);
            }
            tokens.push(tok);
            i = e;
        } else if char_is_space(c) {
            proof {
                assert(lex1(s, i as int) == lex1(s, i + 1int));
            }
            i = i + 1;
        } else {
            let err = CompilationError {
                location: Location { begin: i, len: 1 },
                kind: CompilationErrorKind::UnrecognizedCharacter,
            };
            proof {
                assert(lex1(s, i as int) == Err::<Seq<SpecPreToken>, _>(err));
            }
            return Err(err);
        }
    }
    proof {
        assert(lex1(s, i as int) == Ok::<_, CompilationError>(Seq::<SpecPreToken>::empty()));
        assert(pre_stream_view(tokens@) + Seq::<SpecPreToken>::empty() =~= pre_stream_view(
            tokens@,
        ));
    }
    Ok(tokens)
}

} // verus!
