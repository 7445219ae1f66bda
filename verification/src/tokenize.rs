//! Lexical analysis.
//!
//! Tokenization runs in two passes. The primary pass (`primary`) scans the
//! character sequence left to right into a flat stream of `PreToken`s:
//! punctuation (including the two parenthesis characters), exact decimal
//! literals, and identifiers, each with the exact source location it was
//! read from. The secondary pass (`secondary`) folds matched parenthesis
//! pairs into nested `Block` tokens and appends the terminating `Eof`
//! sentinel. `tokenize` composes the two.
//!
//! The function `spec_tokenize` is the specification both passes are proved
//! against: the stream returned by `tokenize` is exactly the one it denotes.
use crate::error::CompilationError;
use crate::number::Number;
use crate::Location;
use vstd::prelude::*;

pub mod primary;
pub mod secondary;

verus! {

/// A punctuation token: one of the four binary-operator symbols, or the
/// comma separating call arguments.
#[derive(Debug, Clone, Copy, PartialEq, Eq, Structural, Hash)]
pub enum Punct {
    Plus,
    Dash,
    Asterisk,
    Slash,
    Comma,
}

/// The kind of a matched delimiter pair. Parentheses are the only kind this
/// core supports; the enum reserves room for brackets and braces.
#[derive(Debug, Clone, Copy, PartialEq, Eq, Structural, Hash)]
pub enum DelimiterType {
    Parenthases,
}

/// A literal value read from the source.
#[derive(Debug, Clone, Copy, PartialEq, Eq, Structural, Hash)]
pub enum Value {
    Number(Number),
}

/// The content of one token of the nested stream.
#[derive(Debug)]
pub enum TokenContent {
    /// An operator or separator character.
    Punct(Punct),
    /// A run of alphabetic characters.
    Ident(Vec<char>),
    /// An exact decimal literal.
    Value(Value),
    /// The fully tokenized contents between a matched delimiter pair.
    Block(DelimiterType, Vec<Token>),
    /// The zero-length sentinel terminating every top-level stream.
    Eof,
}

/// A token: its content together with the exact source region it covers.
#[derive(Debug)]
pub struct Token {
    pub location: Location,
    pub content: TokenContent,
}

impl Token {
    pub fn location(&self) -> (r: &Location)
        ensures
            r == self.location,
    {
        &self.location
    }

    pub fn content(&self) -> (r: &TokenContent)
        ensures
            r == self.content,
    {
        &self.content
    }

    pub fn new(content: TokenContent, location: Location) -> (r: Self)
        ensures
            r.content == content,
            r.location == location,
    {
        Self { content, location }
    }
}

pub type TokenStream = Vec<Token>;

/// A name read from the source: a run of alphabetic characters.
pub type Ident = Vec<char>;

/// Two names hold the same characters.
pub fn ident_eq(a: &Ident, b: &Ident) -> (r: bool)
    ensures
        r == (a@ == b@),
{
    if a.len() != b.len() {
        return false;
    }
    let mut k: usize = 0;
    while k < a.len()
        invariant
            0 <= k <= a@.len(),
            a@.len() == b@.len(),
            forall|j: int| 0 <= j < k ==> a@[j] == b@[j],
        decreases a@.len() - k,
    {
        if a[k] != b[k] {
            return false;
        }
        k = k + 1;
    }
    proof {
        assert(a@ =~= b@);
    }
    true
}

/// A fresh copy of a name.
pub fn clone_ident(v: &Ident) -> (r: Ident)
    ensures
        r@ == v@,
{
    let mut out: Vec<char> = Vec::new();
    let mut k: usize = 0;
    while k < v.len()
        invariant
            0 <= k <= v@.len(),
            out@ == v@.subrange(0, k as int),
        decreases v@.len() - k,
    {
        out.push(v[k]);
        proof {
            assert(out@ =~= v@.subrange(0, k + 1int));
        }
        k = k + 1;
    }
    proof {
        assert(out@ =~= v@);
    }
    out
}

/// Mathematical model of a token.
pub ghost struct SpecToken {
    pub location: Location,
    pub content: SpecTokenContent,
}

pub ghost enum SpecTokenContent {
    Punct(Punct),
    Ident(Seq<char>),
    Value(Value),
    Block(DelimiterType, Seq<SpecToken>),
    Eof,
}

/// The model of a token.
pub open spec fn token_view(t: Token) -> SpecToken
    decreases t,
{
    SpecToken { location: t.location, content: token_content_view(t.content) }
}

/// The model of a token's content.
pub open spec fn token_content_view(c: TokenContent) -> SpecTokenContent
    decreases c,
{
    match c {
        TokenContent::Punct(p) => SpecTokenContent::Punct(p),
        TokenContent::Ident(name) => SpecTokenContent::Ident(name@),
        TokenContent::Value(v) => SpecTokenContent::Value(v),
        TokenContent::Block(d, ts) => SpecTokenContent::Block(d, token_seq_view(ts@)),
        TokenContent::Eof => SpecTokenContent::Eof,
    }
}

/// The model of a token sequence, elementwise.
pub open spec fn token_seq_view(q: Seq<Token>) -> Seq<SpecToken>
    decreases q,
{
    if q.len() == 0 {
        Seq::empty()
    } else {
        token_seq_view(q.drop_last()).push(token_view(q.last()))
    }
}

/// `token_seq_view` is the elementwise image under `token_view`.
pub proof fn lemma_token_seq_view(q: Seq<Token>)
    ensures
        token_seq_view(q).len() == q.len(),
        forall|k: int| 0 <= k < q.len() ==> token_seq_view(q)[k] == token_view(q[k]),
    decreases q,
{
    if q.len() > 0 {
        lemma_token_seq_view(q.drop_last());
    }
}

pub proof fn lemma_token_seq_view_push(q: Seq<Token>, t: Token)
    ensures
        token_seq_view(q.push(t)) == token_seq_view(q).push(token_view(t)),
{
    assert(q.push(t).drop_last() =~= q);
    assert(q.push(t).last() == t);
}

/// Every numeric token, at any nesting depth, has a positive denominator.
pub open spec fn stok_values_wf(t: SpecToken) -> bool
    decreases t,
{
    match t.content {
        SpecTokenContent::Value(Value::Number(n)) => n.wf(),
        SpecTokenContent::Block(_, inner) => stoks_values_wf(inner),
        _ => true,
    }
}

pub open spec fn stoks_values_wf(q: Seq<SpecToken>) -> bool
    decreases q,
{
    q.len() == 0 || (stoks_values_wf(q.drop_last()) && stok_values_wf(q.last()))
}

/// Every token of the sequence holds well-formed numbers.
pub proof fn lemma_stoks_values_wf(q: Seq<SpecToken>)
    ensures
        stoks_values_wf(q) <==> (forall|k: int|
            0 <= k < q.len() ==> stok_values_wf(#[trigger] q[k])),
    decreases q,
{
    if q.len() > 0 {
        lemma_stoks_values_wf(q.drop_last());
        assert(forall|k: int| 0 <= k < q.len() - 1 ==> q.drop_last()[k] == q[k]);
        assert(q.last() == q[q.len() - 1]);
    }
}

/// The token stream a character sequence denotes: the flat tokens of the
/// primary pass, nested by the secondary pass, or the first error.
pub open spec fn spec_tokenize(s: Seq<char>) -> Result<Seq<SpecToken>, CompilationError> {
    match primary::lex1(s, 0) {
        Ok(flat) => secondary::nest(flat, 0, Seq::empty(), Seq::empty(), s.len() as int),
        Err(e) => Err(e),
    }
}

/// Converts a character sequence into a delimiter-nested token stream:
/// exactly the stream `spec_tokenize(source)`, or its first error.
pub fn tokenize(source: &Vec<char>) -> (r: Result<TokenStream, CompilationError>)
    ensures
        match r {
            Ok(v) => spec_tokenize(source@) == Ok::<_, CompilationError>(token_seq_view(v@)),
            Err(e) => spec_tokenize(source@) == Err::<Seq<SpecToken>, _>(e),
        },
{
    let flat = match primary::tokenize1(source) {
        Ok(flat) => flat,
        Err(e) => {
            return Err(e);
        },
    };
    let n = source.len();
    proof {
        primary::lemma_lex1_bounded(source@, 0);
    }
    secondary::tokenize2(flat, n)
}

/// The nested-stream content of a flat token that is not a parenthesis.
pub open spec fn leaf_content(c: primary::SpecPreTokenContent) -> SpecTokenContent {
    match c {
        primary::SpecPreTokenContent::Punct(p) => SpecTokenContent::Punct(
            secondary::punct_nested(p)->0,
        ),
        primary::SpecPreTokenContent::Ident(name) => SpecTokenContent::Ident(name),
        primary::SpecPreTokenContent::Number(n) => SpecTokenContent::Value(Value::Number(n)),
    }
}

/// Round-trip spans through the whole lexer: every punctuation, identifier
/// or numeric token of the flat stream — these appear with the same span
/// and content in the nested stream — re-lexes, from the substring its span
/// covers, to exactly the equivalent token at offset zero followed by the
/// sentinel.
pub proof fn lemma_tokenize_round_trip(s: Seq<char>, k: int)
    requires
        s.len() <= usize::MAX,
        primary::lex1(s, 0) is Ok,
        0 <= k < (primary::lex1(s, 0)->Ok_0).len(),
        (primary::lex1(s, 0)->Ok_0)[k].content != primary::SpecPreTokenContent::Punct(
            primary::Punct::OpenParenth,
        ),
        (primary::lex1(s, 0)->Ok_0)[k].content != primary::SpecPreTokenContent::Punct(
            primary::Punct::CloseParenth,
        ),
    ensures
        ({
            let t = (primary::lex1(s, 0)->Ok_0)[k];
            let sub = s.subrange(t.location.begin as int, t.location.spec_end());
            spec_tokenize(sub) == Ok::<_, CompilationError>(
                seq![
                    SpecToken {
                        location: Location { begin: 0, len: t.location.len },
                        content: leaf_content(t.content),
                    },
                    SpecToken {
                        location: Location { begin: t.location.len, len: 0 },
                        content: SpecTokenContent::Eof,
                    },
                ],
            )
        }),
{
    primary::lemma_round_trip_spans(s, 0, k);
    primary::lemma_lex1_bounded(s, 0);
    let t = (primary::lex1(s, 0)->Ok_0)[k];
    let sub = s.subrange(t.location.begin as int, t.location.spec_end());
    let flat = seq![primary::shifted(t)];
    let tok = SpecToken {
        location: Location { begin: 0, len: t.location.len },
        content: leaf_content(t.content),
    };
    let eof = SpecToken {
        location: Location { begin: t.location.len, len: 0 },
        content: SpecTokenContent::Eof,
    };
    assert(sub.len() == t.location.len);
    assert(secondary::nest(flat, 0, Seq::empty(), Seq::empty(), sub.len() as int)
        == secondary::nest(flat, 1, Seq::empty(), seq![tok], sub.len() as int));
    assert(secondary::nest(flat, 1, Seq::empty(), seq![tok], sub.len() as int) == Ok::<
        _,
        CompilationError,
    >(seq![tok].push(eof)));
    assert(seq![tok].push(eof) =~= seq![tok, eof]);
}

/// The lexer loses nothing to nesting: the nested stream it returns,
/// written back out flat, is exactly the flat stream of the primary pass.
/// Every punctuation, identifier and numeric token of the nested stream —
/// at any depth — is therefore a flat token with the same span and content,
/// and the two delimiter characters of every block stand at its span's ends.
pub proof fn lemma_tokenize_flatten(s: Seq<char>)
    requires
        s.len() <= usize::MAX,
    ensures
        spec_tokenize(s) matches Ok(ts) ==> primary::lex1(s, 0) is Ok && secondary::flatten_seq(ts)
            == primary::lex1(s, 0)->Ok_0,
{
    if spec_tokenize(s) is Ok {
        let flat = primary::lex1(s, 0)->Ok_0;
        primary::lemma_lex1_bounded(s, 0);
        primary::lemma_lex1_puncts_unit(s, 0);
        secondary::lemma_nest_flatten(flat, 0, Seq::empty(), Seq::empty(), s.len() as int);
        assert(secondary::unwound(Seq::empty()) + secondary::flatten_seq(Seq::empty())
            + flat.subrange(0, flat.len() as int) =~= flat);
    }
}

/// Round-trip spans for blocks: a top-level block token of the lexer's
/// stream, re-lexed alone from the substring its span covers, yields
/// exactly that block again — contents and all, moved to offset zero —
/// followed by the sentinel.
#[verifier::rlimit(100)]
#[verifier::spinoff_prover]
pub proof fn lemma_block_round_trip(s: Seq<char>, idx: int)
    requires
        s.len() <= usize::MAX,
        spec_tokenize(s) matches Ok(ts0),
        0 <= idx < (spec_tokenize(s)->Ok_0).len(),
        (spec_tokenize(s)->Ok_0)[idx].content matches SpecTokenContent::Block(_, _),
    ensures
        ({
            let t = (spec_tokenize(s)->Ok_0)[idx];
            spec_tokenize(s.subrange(t.location.begin as int, t.location.spec_end())) == Ok::<
                _,
                CompilationError,
            >(
                seq![
                    secondary::shift_tok(t, t.location.begin as int),
                    SpecToken {
                        location: Location { begin: t.location.len, len: 0 },
                        content: SpecTokenContent::Eof,
                    },
                ],
            )
        }),
{
    let ts = spec_tokenize(s)->Ok_0;
    let t = ts[idx];
    let flat = primary::lex1(s, 0)->Ok_0;
    let src_len = s.len() as int;
    lemma_tokenize_flatten(s);
    primary::lemma_lex1_bounded(s, 0);
    primary::lemma_lex1_puncts_unit(s, 0);
    secondary::lemma_nest_sound(flat, 0, Seq::empty(), Seq::empty(), src_len);
    // The block is not the trailing sentinel, so it is a sound token.
    assert(idx < ts.len() - 1);
    assert(ts.drop_last()[idx] == t);
    secondary::lemma_stoks_sound_index(ts.drop_last(), 0, 0, idx);
    // Where the block's flat constituents sit inside the flat stream.
    let pre = ts.subrange(0, idx);
    let post = ts.subrange(idx + 1, ts.len() as int);
    assert(ts =~= (pre + seq![t]) + post);
    secondary::lemma_flatten_concat(pre + seq![t], post);
    secondary::lemma_flatten_concat(pre, seq![t]);
    secondary::lemma_flatten_singleton(t);
    assert(flat =~= secondary::flatten_seq(pre) + secondary::flatten_tok(t)
        + secondary::flatten_seq(post));
    let k = secondary::flatten_seq(pre).len() as int;
    assert(flat.subrange(k, k + secondary::flatten_tok(t).len() as int)
        =~= secondary::flatten_tok(t));
    lemma_block_slice_round_trip(s, t, k);
}

/// Round-trip spans for every block token of the lexer's stream, at any
/// nesting depth: re-lexed alone from the substring its span covers, it
/// yields exactly that block again — contents and all, moved to offset
/// zero — followed by the sentinel.
pub proof fn lemma_block_round_trip_deep(s: Seq<char>, b: SpecToken)
    requires
        s.len() <= usize::MAX,
        spec_tokenize(s) matches Ok(ts0),
        secondary::block_in(b, (spec_tokenize(s)->Ok_0).drop_last()),
        b.content matches SpecTokenContent::Block(_, _),
    ensures
        spec_tokenize(s.subrange(b.location.begin as int, b.location.spec_end())) == Ok::<
            _,
            CompilationError,
        >(
            seq![
                secondary::shift_tok(b, b.location.begin as int),
                SpecToken {
                    location: Location { begin: b.location.len, len: 0 },
                    content: SpecTokenContent::Eof,
                },
            ],
        ),
{
    let ts = spec_tokenize(s)->Ok_0;
    let flat = primary::lex1(s, 0)->Ok_0;
    let src_len = s.len() as int;
    lemma_tokenize_flatten(s);
    primary::lemma_lex1_bounded(s, 0);
    primary::lemma_lex1_puncts_unit(s, 0);
    secondary::lemma_nest_sound(flat, 0, Seq::empty(), Seq::empty(), src_len);
    assert(ts =~= ts.drop_last() + seq![ts.last()]);
    secondary::lemma_flatten_concat(ts.drop_last(), seq![ts.last()]);
    secondary::lemma_flatten_singleton(ts.last());
    assert(flat =~= secondary::flatten_seq(ts.drop_last()));
    assert(flat.subrange(0, secondary::flatten_seq(ts.drop_last()).len() as int)
        =~= secondary::flatten_seq(ts.drop_last()));
    secondary::lemma_deep_slice(flat, 0, ts.drop_last(), 0, b);
    let k = choose|k: int|
        0 <= k && k + secondary::flatten_tok(b).len() <= flat.len() && #[trigger] flat.subrange(
            k,
            k + secondary::flatten_tok(b).len() as int,
        ) == secondary::flatten_tok(b);
    lemma_block_slice_round_trip(s, b, k);
}

/// The shared core of the block round trips: a block whose flat
/// constituents stand at offset `k` of the flat stream re-lexes, from its
/// span's substring, to itself at offset zero plus the sentinel.
#[verifier::rlimit(100)]
#[verifier::spinoff_prover]
proof fn lemma_block_slice_round_trip(s: Seq<char>, t: SpecToken, k: int)
    requires
        s.len() <= usize::MAX,
        primary::lex1(s, 0) is Ok,
        secondary::stok_sound(t, 0),
        t.content matches SpecTokenContent::Block(_, _),
        0 <= k,
        k + secondary::flatten_tok(t).len() <= (primary::lex1(s, 0)->Ok_0).len(),
        (primary::lex1(s, 0)->Ok_0).subrange(k, k + secondary::flatten_tok(t).len() as int)
            == secondary::flatten_tok(t),
    ensures
        spec_tokenize(s.subrange(t.location.begin as int, t.location.spec_end())) == Ok::<
            _,
            CompilationError,
        >(
            seq![
                secondary::shift_tok(t, t.location.begin as int),
                SpecToken {
                    location: Location { begin: t.location.len, len: 0 },
                    content: SpecTokenContent::Eof,
                },
            ],
        ),
{
    let flat = primary::lex1(s, 0)->Ok_0;
    let inner = t.content->Block_1;
    primary::lemma_lex1_bounded(s, 0);
    let bb = t.location.begin as int;
    let ee = t.location.spec_end();
    let fin = secondary::flatten_seq(inner);
    let opener = primary::SpecPreToken {
        location: Location { begin: t.location.begin, len: 1 },
        content: primary::SpecPreTokenContent::Punct(primary::Punct::OpenParenth),
    };
    let closer = primary::SpecPreToken {
        location: Location { begin: (ee - 1) as usize, len: 1 },
        content: primary::SpecPreTokenContent::Punct(primary::Punct::CloseParenth),
    };
    assert(secondary::flatten_tok(t) == seq![opener] + fin + seq![closer]);
    let ftl = secondary::flatten_tok(t).len() as int;
    assert(forall|y: int|
        0 <= y < ftl ==> flat[k + y] == #[trigger] secondary::flatten_tok(t)[y]) by {
        assert(forall|y: int|
            0 <= y < ftl ==> flat.subrange(k, k + ftl)[y] == #[trigger] secondary::flatten_tok(
                t,
            )[y]);
    }
    let m = k + 1 + fin.len() as int;
    assert(secondary::flatten_tok(t)[0] == opener);
    assert(secondary::flatten_tok(t)[ftl - 1] == closer);
    assert(m == k + (ftl - 1));
    assert(flat[k] == opener);
    assert(flat[m] == closer);
    assert(flat[m].location.spec_end() == ee);
    // The flat tokens of the block's substring are its constituents, at
    // offset zero.
    primary::lemma_lex1_truncate(s, 0, m);
    let s1 = s.subrange(0, ee);
    let flat1 = flat.subrange(0, m + 1);
    assert(primary::lex1(s1, 0) == Ok::<_, CompilationError>(flat1));
    primary::lemma_lex1_restart(s1, 0, k);
    assert(flat1[k] == opener);
    assert(primary::lex1(s1, bb) == Ok::<_, CompilationError>(flat1.skip(k)));
    primary::lemma_lex1_shift(s1, bb, bb);
    let sub = s.subrange(bb, ee);
    assert(s1.subrange(bb, s1.len() as int) =~= sub);
    assert(primary::lex1(sub, 0) == Ok::<_, CompilationError>(
        primary::shift_pre_seq(flat1.skip(k), bb),
    ));
    // Shifted, those constituents are the flattening of the shifted block.
    assert(secondary::stoks_sound(inner, bb + 1));
    secondary::lemma_shift_flatten(inner, bb + 1, bb);
    let bt = secondary::shift_tok(t, bb);
    assert(flat1.skip(k) =~= seq![opener] + fin + seq![closer]);
    assert(secondary::flatten_tok(bt) =~= primary::shift_pre_seq(
        seq![opener] + fin + seq![closer],
        bb,
    ));
    let g = primary::shift_pre_seq(flat1.skip(k), bb);
    assert(g == secondary::flatten_tok(bt));
    // Nesting replays the shifted block and appends the sentinel.
    assert(secondary::stok_sound(bt, 0));
    secondary::lemma_stoks_sound_singleton(bt, 0);
    secondary::lemma_flatten_singleton(bt);
    assert(g.subrange(0, secondary::flatten_seq(seq![bt]).len() as int) =~= secondary::flatten_seq(
        seq![bt],
    ));
    secondary::lemma_nest_replay(g, 0, Seq::empty(), Seq::empty(), sub.len() as int, seq![bt], 0);
    assert(Seq::<SpecToken>::empty() + seq![bt] =~= seq![bt]);
    let eof = SpecToken {
        location: Location { begin: t.location.len, len: 0 },
        content: SpecTokenContent::Eof,
    };
    assert(secondary::nest(g, g.len() as int, Seq::empty(), seq![bt], sub.len() as int) == Ok::<
        _,
        CompilationError,
    >(seq![bt].push(eof)));
    assert(seq![bt].push(eof) =~= seq![bt, eof]);
}

/// Round trip of the sentinel: the `Eof` token covers the empty substring
/// at the end of the input, and lexing an empty input yields exactly the
/// sentinel at offset zero.
pub proof fn lemma_eof_round_trip()
    ensures
        spec_tokenize(Seq::empty()) == Ok::<_, CompilationError>(
            seq![
                SpecToken {
                    location: Location { begin: 0, len: 0 },
                    content: SpecTokenContent::Eof,
                },
            ],
        ),
{
    let eof = SpecToken { location: Location { begin: 0, len: 0 }, content: SpecTokenContent::Eof };
    assert(primary::lex1(Seq::empty(), 0) == Ok::<_, CompilationError>(Seq::<
        primary::SpecPreToken,
    >::empty()));
    assert(secondary::nest(Seq::empty(), 0, Seq::empty(), Seq::empty(), 0) == Ok::<
        _,
        CompilationError,
    >(Seq::<SpecToken>::empty().push(eof)));
    assert(Seq::<SpecToken>::empty().push(eof) =~= seq![eof]);
}

/// The tokenization driver: carries the cursor location, which ends up at
/// the end of the input on success and at the offending region on failure.
pub struct Tokenizer {
    pub location: Location,
}

impl Tokenizer {
    pub fn new() -> (r: Self)
        ensures
            r.location == (Location { begin: 0, len: 1 }),
    {
        Self { location: Location { begin: 0, len: 1 } }
    }

    /// Tokenizes the source as `tokenize` does, leaving the cursor at the
    /// end of the input, or at the error's location.
    pub fn tokenize(&mut self, source: &Vec<char>) -> (r: Result<TokenStream, CompilationError>)
        ensures
            match r {
                Ok(v) => spec_tokenize(source@) == Ok::<_, CompilationError>(token_seq_view(v@))
                    && final(self).location == (Location { begin: source@.len() as usize, len: 0 }),
                Err(e) => spec_tokenize(source@) == Err::<Seq<SpecToken>, _>(e)
                    && final(self).location == e.location,
            },
    {
        match tokenize(source) {
            Ok(v) => {
                self.location = Location { begin: source.len(), len: 0 };
                Ok(v)
            },
            Err(e) => {
                self.location = e.location;
                Err(e)
            },
        }
    }
}

} // verus!
