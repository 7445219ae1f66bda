//! Secondary tokenization: delimiter nesting.
//!
//! The flat stream of the primary pass is folded over a stack of open
//! delimiter frames. An opening parenthesis stacks the in-progress buffer
//! and starts a fresh one; a closing parenthesis wraps the just-closed
//! buffer into a `Block` token — whose location runs from the opening
//! character through the closing one — and restores the parent buffer.
//! A closing delimiter with nothing open, or a frame still open at the end
//! of input, is an `UnmatchedDelimiter` error; the error points at the
//! offending closing character, or at the most recently opened unclosed
//! delimiter. On success an `Eof` sentinel (zero length, at the end of the
//! input) terminates the stream.
//!
//! The whole pass is specified by the recursive function `nest`; `tokenize2`
//! is proved to return exactly `nest` of its input.
use crate::error::{CompilationError, CompilationErrorKind};
use crate::tokenize::primary;
use crate::tokenize::primary::{
    pre_stream_view, pre_token_view, PreToken, SpecPreToken, SpecPreTokenContent,
};
use crate::tokenize::{
    lemma_token_seq_view_push, stok_values_wf, stoks_values_wf, token_seq_view, token_view, DelimiterType, Punct, SpecToken, SpecTokenContent,
    Token, TokenContent, TokenStream, Value,
};
use crate::Location;
use vstd::prelude::*;

verus! {

/// The nested-stream punctuation a flat punctuation character becomes;
/// parentheses become blocks instead and have none.
pub open spec fn punct_nested(p: primary::Punct) -> Option<Punct> {
    match p {
        primary::Punct::Plus => Some(Punct::Plus),
        primary::Punct::Dash => Some(Punct::Dash),
        primary::Punct::Asterisk => Some(Punct::Asterisk),
        primary::Punct::Slash => Some(Punct::Slash),
        primary::Punct::Comma => Some(Punct::Comma),
        primary::Punct::OpenParenth => None,
        primary::Punct::CloseParenth => None,
    }
}

/// Exec counterpart of `punct_nested`.
pub fn punct_to_nested(p: primary::Punct) -> (r: Option<Punct>)
    ensures
        r == punct_nested(p),
{
    match p {
        primary::Punct::Plus => Some(Punct::Plus),
        primary::Punct::Dash => Some(Punct::Dash),
        primary::Punct::Asterisk => Some(Punct::Asterisk),
        primary::Punct::Slash => Some(Punct::Slash),
        primary::Punct::Comma => Some(Punct::Comma),
        primary::Punct::OpenParenth => None,
        primary::Punct::CloseParenth => None,
    }
}

/// An open-but-not-yet-closed delimiter during nesting: the location of the
/// opening character, and the parent buffer to restore on close.
pub ghost struct SpecFrame {
    pub open_loc: Location,
    pub parent: Seq<SpecToken>,
}

/// The nested token stream of the flat tokens from index `i` on, given the
/// frames opened so far, the current buffer, and the length of the source
/// (where the `Eof` sentinel sits): the specification of the secondary pass.
pub open spec fn nest(
    flat: Seq<SpecPreToken>,
    i: int,
    stack: Seq<SpecFrame>,
    cur: Seq<SpecToken>,
    src_len: int,
) -> Result<Seq<SpecToken>, CompilationError>
    decreases flat.len() - i,
    when 0 <= i <= flat.len()
{
    if i >= flat.len() {
        if stack.len() > 0 {
            Err(CompilationError {
                location: stack.last().open_loc,
                kind: CompilationErrorKind::UnmatchedDelimiter,
            })
        } else {
            Ok(
                cur.push(
                    SpecToken {
                        location: Location { begin: src_len as usize, len: 0 },
                        content: SpecTokenContent::Eof,
                    },
                ),
            )
        }
    } else {
        let t = flat[i];
        match t.content {
            SpecPreTokenContent::Punct(p) => {
                if p == primary::Punct::OpenParenth {
                    nest(
                        flat,
                        i + 1,
                        stack.push(SpecFrame { open_loc: t.location, parent: cur }),
                        Seq::empty(),
                        src_len,
                    )
                } else if p == primary::Punct::CloseParenth {
                    if stack.len() == 0 {
                        Err(CompilationError {
                            location: t.location,
                            kind: CompilationErrorKind::UnmatchedDelimiter,
                        })
                    } else {
                        let block = SpecToken {
                            location: stack.last().open_loc.spec_through(t.location),
                            content: SpecTokenContent::Block(DelimiterType::Parenthases, cur),
                        };
                        nest(flat, i + 1, stack.drop_last(), stack.last().parent.push(block), src_len)
                    }
                } else {
                    let tok = SpecToken {
                        location: t.location,
                        content: SpecTokenContent::Punct(punct_nested(p)->0),
                    };
                    nest(flat, i + 1, stack, cur.push(tok), src_len)
                }
            },
            SpecPreTokenContent::Ident(name) => {
                let tok = SpecToken { location: t.location, content: SpecTokenContent::Ident(name) };
                nest(flat, i + 1, stack, cur.push(tok), src_len)
            },
            SpecPreTokenContent::Number(n) => {
                let tok = SpecToken {
                    location: t.location,
                    content: SpecTokenContent::Value(Value::Number(n)),
                };
                nest(flat, i + 1, stack, cur.push(tok), src_len)
            },
        }
    }
}

/// The flat punctuation a nested one came from.
pub open spec fn flat_punct(p: Punct) -> primary::Punct {
    match p {
        Punct::Plus => primary::Punct::Plus,
        Punct::Dash => primary::Punct::Dash,
        Punct::Asterisk => primary::Punct::Asterisk,
        Punct::Slash => primary::Punct::Slash,
        Punct::Comma => primary::Punct::Comma,
    }
}

/// The flat tokens a nested token was built from: a block writes back its
/// opening parenthesis, its flattened contents, and its closing
/// parenthesis; the sentinel writes back nothing.
pub open spec fn flatten_tok(t: SpecToken) -> Seq<SpecPreToken>
    decreases t,
{
    match t.content {
        SpecTokenContent::Punct(p) => seq![
            SpecPreToken {
                location: t.location,
                content: SpecPreTokenContent::Punct(flat_punct(p)),
            },
        ],
        SpecTokenContent::Ident(name) => seq![
            SpecPreToken { location: t.location, content: SpecPreTokenContent::Ident(name) },
        ],
        SpecTokenContent::Value(Value::Number(n)) => seq![
            SpecPreToken { location: t.location, content: SpecPreTokenContent::Number(n) },
        ],
        SpecTokenContent::Block(_, inner) => seq![
            SpecPreToken {
                location: Location { begin: t.location.begin, len: 1 },
                content: SpecPreTokenContent::Punct(primary::Punct::OpenParenth),
            },
        ] + flatten_seq(inner) + seq![
            SpecPreToken {
                location: Location {
                    begin: (t.location.begin + t.location.len - 1) as usize,
                    len: 1,
                },
                content: SpecPreTokenContent::Punct(primary::Punct::CloseParenth),
            },
        ],
        SpecTokenContent::Eof => Seq::empty(),
    }
}

pub open spec fn flatten_seq(q: Seq<SpecToken>) -> Seq<SpecPreToken>
    decreases q,
{
    if q.len() == 0 {
        Seq::empty()
    } else {
        flatten_seq(q.drop_last()) + flatten_tok(q.last())
    }
}

/// The flat tokens still folded up in the open frames: each frame's parent
/// buffer followed by its opening parenthesis, bottom of the stack first.
pub open spec fn unwound(stack: Seq<SpecFrame>) -> Seq<SpecPreToken>
    decreases stack,
{
    if stack.len() == 0 {
        Seq::empty()
    } else {
        unwound(stack.drop_last()) + flatten_seq(stack.last().parent) + seq![
            SpecPreToken {
                location: stack.last().open_loc,
                content: SpecPreTokenContent::Punct(primary::Punct::OpenParenth),
            },
        ]
    }
}

/// Nesting inverts flattening: whatever nested stream the secondary pass
/// builds, written back out flat — frames, buffer and remaining input
/// included — it is exactly the flat input. In particular matched
/// delimiters are recovered with nothing lost, reordered or invented.
pub proof fn lemma_nest_flatten(
    flat: Seq<SpecPreToken>,
    i: int,
    stack: Seq<SpecFrame>,
    cur: Seq<SpecToken>,
    src_len: int,
)
    requires
        0 <= i <= flat.len(),
        primary::pre_tokens_bounded(flat, 0, src_len),
        primary::pre_tokens_puncts_unit(flat),
        src_len <= usize::MAX,
        forall|j: int| 0 <= j < stack.len() ==> (#[trigger] stack[j]).open_loc.len == 1,
        forall|j: int|
            0 <= j < stack.len() ==> (#[trigger] stack[j]).open_loc.begin <= (if i < flat.len() {
                flat[i].location.begin as int
            } else {
                src_len
            }),
    ensures
        nest(flat, i, stack, cur, src_len) matches Ok(ts) ==> flatten_seq(ts) == unwound(stack)
            + flatten_seq(cur) + flat.subrange(i, flat.len() as int),
    decreases flat.len() - i,
{
    if i >= flat.len() {
        if stack.len() == 0 {
            let eof = SpecToken {
                location: Location { begin: src_len as usize, len: 0 },
                content: SpecTokenContent::Eof,
            };
            let ts = cur.push(eof);
            assert(ts.drop_last() =~= cur);
            assert(flatten_seq(ts) == flatten_seq(cur) + flatten_tok(eof));
            assert(flatten_seq(cur) + Seq::<SpecPreToken>::empty() =~= flatten_seq(cur));
            assert(unwound(stack) + flatten_seq(cur) + flat.subrange(i, flat.len() as int)
                =~= flatten_seq(cur));
        }
    } else {
        let t = flat[i];
        assert(flat.subrange(i, flat.len() as int) =~= seq![t] + flat.subrange(
            i + 1,
            flat.len() as int,
        ));
        if i + 1 < flat.len() {
            assert(t.location.spec_end() <= flat[i + 1].location.begin);
        }
        assert(t.location.spec_end() <= src_len);
        match t.content {
            SpecPreTokenContent::Punct(p) => {
                if p == primary::Punct::OpenParenth {
                    let frame = SpecFrame { open_loc: t.location, parent: cur };
                    let stack2 = stack.push(frame);
                    assert(forall|j: int| 0 <= j < stack.len() ==> stack2[j] == stack[j]);
                    assert(stack2.drop_last() =~= stack);
                    lemma_nest_flatten(flat, i + 1, stack2, Seq::empty(), src_len);
                    assert(unwound(stack2) == unwound(stack) + flatten_seq(cur) + seq![t]);
                    match nest(flat, i, stack, cur, src_len) {
                        Ok(ts) => {
                            assert(unwound(stack2) + flatten_seq(Seq::<SpecToken>::empty())
                                + flat.subrange(i + 1, flat.len() as int) =~= unwound(stack)
                                + flatten_seq(cur) + flat.subrange(i, flat.len() as int));
                        },
                        Err(_) => {},
                    }
                } else if p == primary::Punct::CloseParenth {
                    if stack.len() > 0 {
                        let frame = stack.last();
                        let block = SpecToken {
                            location: frame.open_loc.spec_through(t.location),
                            content: SpecTokenContent::Block(DelimiterType::Parenthases, cur),
                        };
                        let cur2 = frame.parent.push(block);
                        let stack2 = stack.drop_last();
                        assert(forall|j: int| 0 <= j < stack2.len() ==> stack2[j] == stack[j]);
                        lemma_nest_flatten(flat, i + 1, stack2, cur2, src_len);
                        // The block's span runs from the opening character
                        // through the closing one, both one character wide,
                        // so flattening it recovers both parentheses.
                        assert(frame.open_loc.len == 1);
                        assert(t.location.len == 1);
                        assert(block.location == Location {
                            begin: frame.open_loc.begin,
                            len: (t.location.begin + 1 - frame.open_loc.begin) as usize,
                        });
                        assert(flatten_tok(block) == seq![
                            SpecPreToken {
                                location: frame.open_loc,
                                content: SpecPreTokenContent::Punct(primary::Punct::OpenParenth),
                            },
                        ] + flatten_seq(cur) + seq![t]);
                        assert(cur2.drop_last() =~= frame.parent);
                        assert(flatten_seq(cur2) == flatten_seq(frame.parent) + flatten_tok(block));
                        match nest(flat, i, stack, cur, src_len) {
                            Ok(ts) => {
                                assert(unwound(stack2) + flatten_seq(cur2) + flat.subrange(
                                    i + 1,
                                    flat.len() as int,
                                ) =~= unwound(stack) + flatten_seq(cur) + flat.subrange(
                                    i,
                                    flat.len() as int,
                                ));
                            },
                            Err(_) => {},
                        }
                    }
                } else {
                    let tok = SpecToken {
                        location: t.location,
                        content: SpecTokenContent::Punct(punct_nested(p)->0),
                    };
                    let cur2 = cur.push(tok);
                    lemma_nest_flatten(flat, i + 1, stack, cur2, src_len);
                    assert(cur2.drop_last() =~= cur);
                    assert(flat_punct(punct_nested(p)->0) == p);
                    assert(flatten_tok(tok) == seq![t]);
                    assert(flatten_seq(cur2) == flatten_seq(cur) + seq![t]);
                    match nest(flat, i, stack, cur, src_len) {
                        Ok(ts) => {
                            assert(unwound(stack) + flatten_seq(cur2) + flat.subrange(
                                i + 1,
                                flat.len() as int,
                            ) =~= unwound(stack) + flatten_seq(cur) + flat.subrange(
                                i,
                                flat.len() as int,
                            ));
                        },
                        Err(_) => {},
                    }
                }
            },
            SpecPreTokenContent::Ident(name) => {
                let tok = SpecToken { location: t.location, content: SpecTokenContent::Ident(name) };
                let cur2 = cur.push(tok);
                lemma_nest_flatten(flat, i + 1, stack, cur2, src_len);
                assert(cur2.drop_last() =~= cur);
                assert(flatten_tok(tok) == seq![t]);
                assert(flatten_seq(cur2) == flatten_seq(cur) + seq![t]);
                match nest(flat, i, stack, cur, src_len) {
                    Ok(ts) => {
                        assert(unwound(stack) + flatten_seq(cur2) + flat.subrange(
                            i + 1,
                            flat.len() as int,
                        ) =~= unwound(stack) + flatten_seq(cur) + flat.subrange(
                            i,
                            flat.len() as int,
                        ));
                    },
                    Err(_) => {},
                }
            },
            SpecPreTokenContent::Number(n) => {
                let tok = SpecToken {
                    location: t.location,
                    content: SpecTokenContent::Value(Value::Number(n)),
                };
                let cur2 = cur.push(tok);
                lemma_nest_flatten(flat, i + 1, stack, cur2, src_len);
                assert(cur2.drop_last() =~= cur);
                assert(flatten_tok(tok) == seq![t]);
                assert(flatten_seq(cur2) == flatten_seq(cur) + seq![t]);
                match nest(flat, i, stack, cur, src_len) {
                    Ok(ts) => {
                        assert(unwound(stack) + flatten_seq(cur2) + flat.subrange(
                            i + 1,
                            flat.len() as int,
                        ) =~= unwound(stack) + flatten_seq(cur) + flat.subrange(
                            i,
                            flat.len() as int,
                        ));
                    },
                    Err(_) => {},
                }
            },
        }
    }
}

/// Flattening distributes over concatenation.
pub proof fn lemma_flatten_concat(a: Seq<SpecToken>, b: Seq<SpecToken>)
    ensures
        flatten_seq(a + b) == flatten_seq(a) + flatten_seq(b),
    decreases b.len(),
{
    if b.len() == 0 {
        assert(a + b =~= a);
        assert(flatten_seq(a) + flatten_seq(b) =~= flatten_seq(a));
    } else {
        lemma_flatten_concat(a, b.drop_last());
        assert((a + b).drop_last() =~= a + b.drop_last());
        assert((a + b).last() == b.last());
        assert(flatten_seq(a) + (flatten_seq(b.drop_last()) + flatten_tok(b.last()))
            =~= (flatten_seq(a) + flatten_seq(b.drop_last())) + flatten_tok(b.last()));
    }
}

/// A sound token stands at or after `lo`, within the address range, holds
/// no sentinel, and a block is at least two characters wide with its
/// contents sound strictly inside its parentheses.
pub open spec fn stok_sound(t: SpecToken, lo: int) -> bool
    decreases t,
{
    &&& lo <= t.location.begin
    &&& t.location.spec_end() <= usize::MAX
    &&& match t.content {
        SpecTokenContent::Eof => false,
        SpecTokenContent::Block(_, inner) => t.location.len >= 2 && stoks_sound(
            inner,
            t.location.begin + 1,
        ),
        _ => true,
    }
}

pub open spec fn stoks_sound(q: Seq<SpecToken>, lo: int) -> bool
    decreases q,
{
    q.len() == 0 || (stoks_sound(q.drop_last(), lo) && stok_sound(q.last(), lo))
}

/// Soundness weakens to any earlier lower bound and extracts pointwise.
pub proof fn lemma_stoks_sound_index(q: Seq<SpecToken>, lo: int, lo2: int, k: int)
    requires
        stoks_sound(q, lo),
        lo2 <= lo,
        0 <= k < q.len(),
    ensures
        stok_sound(q[k], lo2),
        stoks_sound(q, lo2),
    decreases q.len(),
{
    if q.len() > 0 {
        if k < q.len() - 1 {
            lemma_stoks_sound_index(q.drop_last(), lo, lo2, k);
        } else {
            if q.len() >= 2 {
                lemma_stoks_sound_index(q.drop_last(), lo, lo2, 0);
            } else {
                assert(q.drop_last().len() == 0);
            }
            lemma_stok_sound_weaken(q.last(), lo, lo2);
        }
        lemma_stoks_sound_weaken(q, lo, lo2);
    }
}

proof fn lemma_stok_sound_weaken(t: SpecToken, lo: int, lo2: int)
    requires
        stok_sound(t, lo),
        lo2 <= lo,
    ensures
        stok_sound(t, lo2),
{
}

proof fn lemma_stoks_sound_weaken(q: Seq<SpecToken>, lo: int, lo2: int)
    requires
        stoks_sound(q, lo),
        lo2 <= lo,
    ensures
        stoks_sound(q, lo2),
    decreases q.len(),
{
    if q.len() > 0 {
        lemma_stoks_sound_weaken(q.drop_last(), lo, lo2);
        lemma_stok_sound_weaken(q.last(), lo, lo2);
    }
}

proof fn lemma_stoks_sound_push(q: Seq<SpecToken>, t: SpecToken, lo: int)
    requires
        stoks_sound(q, lo),
        stok_sound(t, lo),
    ensures
        stoks_sound(q.push(t), lo),
{
    assert(q.push(t).drop_last() =~= q);
    assert(q.push(t).last() == t);
}

/// The lower bound the tokens of frame `j`'s parent buffer obey: the
/// character after the previous frame's opening parenthesis, or the start
/// of the source.
pub open spec fn frame_lo(stack: Seq<SpecFrame>, j: int) -> int {
    if j == 0 {
        0
    } else {
        stack[j - 1].open_loc.begin + 1
    }
}

/// Every token the secondary pass builds is sound: blocks are at least two
/// characters wide, their contents lie strictly inside their parentheses,
/// and no sentinel sits below the top level.
pub proof fn lemma_nest_sound(
    flat: Seq<SpecPreToken>,
    i: int,
    stack: Seq<SpecFrame>,
    cur: Seq<SpecToken>,
    src_len: int,
)
    requires
        0 <= i <= flat.len(),
        primary::pre_tokens_bounded(flat, 0, src_len),
        primary::pre_tokens_puncts_unit(flat),
        src_len <= usize::MAX,
        stoks_sound(
            cur,
            if stack.len() == 0 {
                0
            } else {
                stack.last().open_loc.begin + 1
            },
        ),
        forall|j: int|
            0 <= j < stack.len() ==> stoks_sound(
                (#[trigger] stack[j]).parent,
                frame_lo(stack, j),
            ),
        forall|j: int|
            0 <= j < stack.len() ==> (#[trigger] stack[j]).open_loc.begin >= frame_lo(stack, j),
        forall|j: int| 0 <= j < stack.len() ==> (#[trigger] stack[j]).open_loc.len == 1,
        forall|j: int|
            0 <= j < stack.len() ==> (#[trigger] stack[j]).open_loc.begin + 1 <= (if i
                < flat.len() {
                flat[i].location.begin as int
            } else {
                src_len
            }),
    ensures
        nest(flat, i, stack, cur, src_len) matches Ok(ts) ==> ts.len() >= 1 && ts.last()
            == (SpecToken {
            location: Location { begin: src_len as usize, len: 0 },
            content: SpecTokenContent::Eof,
        }) && stoks_sound(ts.drop_last(), 0),
    decreases flat.len() - i,
{
    if i >= flat.len() {
        if stack.len() == 0 {
            let eof = SpecToken {
                location: Location { begin: src_len as usize, len: 0 },
                content: SpecTokenContent::Eof,
            };
            assert(cur.push(eof).drop_last() =~= cur);
        }
    } else {
        let t = flat[i];
        assert(t.location.spec_end() <= src_len);
        if i + 1 < flat.len() {
            assert(t.location.spec_end() <= flat[i + 1].location.begin);
        }
        match t.content {
            SpecPreTokenContent::Punct(p) => {
                if p == primary::Punct::OpenParenth {
                    let frame = SpecFrame { open_loc: t.location, parent: cur };
                    let stack2 = stack.push(frame);
                    assert(forall|j: int| 0 <= j < stack.len() ==> stack2[j] == stack[j]);
                    assert(forall|j: int|
                        0 <= j < stack.len() ==> frame_lo(stack2, j) == frame_lo(stack, j));
                    assert(t.location.len == 1);
                    lemma_nest_sound(flat, i + 1, stack2, Seq::empty(), src_len);
                } else if p == primary::Punct::CloseParenth {
                    if stack.len() > 0 {
                        let frame = stack.last();
                        let block = SpecToken {
                            location: frame.open_loc.spec_through(t.location),
                            content: SpecTokenContent::Block(DelimiterType::Parenthases, cur),
                        };
                        assert(t.location.len == 1);
                        assert(frame.open_loc.len == 1);
                        assert(frame.open_loc.begin + 1 <= t.location.begin);
                        assert(block.location == Location {
                            begin: frame.open_loc.begin,
                            len: (t.location.begin + 1 - frame.open_loc.begin) as usize,
                        });
                        assert(stok_sound(block, frame_lo(stack, stack.len() - 1)));
                        let stack2 = stack.drop_last();
                        assert(forall|j: int| 0 <= j < stack2.len() ==> stack2[j] == stack[j]);
                        assert(forall|j: int|
                            0 <= j < stack2.len() ==> frame_lo(stack2, j) == frame_lo(stack, j));
                        let cur2 = frame.parent.push(block);
                        lemma_stoks_sound_push(
                            frame.parent,
                            block,
                            frame_lo(stack, stack.len() - 1),
                        );
                        lemma_nest_sound(flat, i + 1, stack2, cur2, src_len);
                    }
                } else {
                    let tok = SpecToken {
                        location: t.location,
                        content: SpecTokenContent::Punct(punct_nested(p)->0),
                    };
                    lemma_stoks_sound_push(
                        cur,
                        tok,
                        if stack.len() == 0 {
                            0
                        } else {
                            stack.last().open_loc.begin + 1
                        },
                    );
                    lemma_nest_sound(flat, i + 1, stack, cur.push(tok), src_len);
                }
            },
            SpecPreTokenContent::Ident(name) => {
                let tok = SpecToken {
                    location: t.location,
                    content: SpecTokenContent::Ident(name),
                };
                lemma_stoks_sound_push(
                    cur,
                    tok,
                    if stack.len() == 0 {
                        0
                    } else {
                        stack.last().open_loc.begin + 1
                    },
                );
                lemma_nest_sound(flat, i + 1, stack, cur.push(tok), src_len);
            },
            SpecPreTokenContent::Number(n) => {
                let tok = SpecToken {
                    location: t.location,
                    content: SpecTokenContent::Value(Value::Number(n)),
                };
                lemma_stoks_sound_push(
                    cur,
                    tok,
                    if stack.len() == 0 {
                        0
                    } else {
                        stack.last().open_loc.begin + 1
                    },
                );
                lemma_nest_sound(flat, i + 1, stack, cur.push(tok), src_len);
            },
        }
    }
}

/// A nested token moved left by `d` source positions, contents and all.
pub open spec fn shift_tok(t: SpecToken, d: int) -> SpecToken
    decreases t,
{
    SpecToken {
        location: Location { begin: (t.location.begin - d) as usize, len: t.location.len },
        content: match t.content {
            SpecTokenContent::Block(dt, inner) => SpecTokenContent::Block(
                dt,
                shift_stoks(inner, d),
            ),
            other => other,
        },
    }
}

pub open spec fn shift_stoks(q: Seq<SpecToken>, d: int) -> Seq<SpecToken>
    decreases q,
{
    if q.len() == 0 {
        Seq::empty()
    } else {
        shift_stoks(q.drop_last(), d).push(shift_tok(q.last(), d))
    }
}

/// Shifting commutes with flattening, and keeps streams sound.
pub proof fn lemma_shift_flatten(q: Seq<SpecToken>, lo: int, d: int)
    requires
        stoks_sound(q, lo),
        0 <= d <= lo,
    ensures
        flatten_seq(shift_stoks(q, d)) == primary::shift_pre_seq(flatten_seq(q), d),
        stoks_sound(shift_stoks(q, d), lo - d),
    decreases q,
{
    if q.len() == 0 {
        assert(primary::shift_pre_seq(flatten_seq(q), d) =~= Seq::<SpecPreToken>::empty());
    } else {
        let q0 = q.drop_last();
        let t = q.last();
        lemma_shift_flatten(q0, lo, d);
        lemma_shift_flatten_tok(t, lo, d);
        assert(shift_stoks(q, d).drop_last() =~= shift_stoks(q0, d));
        assert(shift_stoks(q, d).last() == shift_tok(t, d));
        assert(flatten_seq(shift_stoks(q, d)) == flatten_seq(shift_stoks(q0, d)) + flatten_tok(
            shift_tok(t, d),
        ));
        assert(primary::shift_pre_seq(flatten_seq(q0) + flatten_tok(t), d)
            =~= primary::shift_pre_seq(flatten_seq(q0), d) + primary::shift_pre_seq(
            flatten_tok(t),
            d,
        ));
        lemma_stoks_sound_push(shift_stoks(q0, d), shift_tok(t, d), lo - d);
    }
}

/// One token's case of `lemma_shift_flatten`.
proof fn lemma_shift_flatten_tok(t: SpecToken, lo: int, d: int)
    requires
        stok_sound(t, lo),
        0 <= d <= lo,
    ensures
        flatten_tok(shift_tok(t, d)) == primary::shift_pre_seq(flatten_tok(t), d),
        stok_sound(shift_tok(t, d), lo - d),
    decreases t,
{
    match t.content {
        SpecTokenContent::Block(_, inner) => {
            lemma_shift_flatten(inner, t.location.begin + 1, d);
            let ts = shift_tok(t, d);
            assert(flatten_tok(ts) =~= primary::shift_pre_seq(flatten_tok(t), d));
        },
        _ => {
            assert(flatten_tok(shift_tok(t, d)) =~= primary::shift_pre_seq(flatten_tok(t), d));
        },
    }
}

/// Flattening a single token.
pub proof fn lemma_flatten_singleton(t: SpecToken)
    ensures
        flatten_seq(seq![t]) == flatten_tok(t),
{
    assert(seq![t].drop_last() =~= Seq::<SpecToken>::empty());
    assert(seq![t].last() == t);
    assert(flatten_seq(seq![t].drop_last()) == Seq::<SpecPreToken>::empty());
    assert(Seq::<SpecPreToken>::empty() + flatten_tok(t) =~= flatten_tok(t));
}

/// A single sound token is a sound stream.
pub proof fn lemma_stoks_sound_singleton(t: SpecToken, lo: int)
    requires
        stok_sound(t, lo),
    ensures
        stoks_sound(seq![t], lo),
{
    assert(seq![t].drop_last() =~= Seq::<SpecToken>::empty());
    assert(stoks_sound(seq![t].drop_last(), lo));
    assert(seq![t].last() == t);
    assert(stok_sound(seq![t].last(), lo));
}

/// The token `b` stands somewhere in the stream, at any nesting depth.
pub open spec fn block_in(b: SpecToken, q: Seq<SpecToken>) -> bool
    decreases q,
{
    q.len() > 0 && (block_in_tok(b, q.last()) || block_in(b, q.drop_last()))
}

/// The token `b` is `t` itself, or stands inside its block contents.
pub open spec fn block_in_tok(b: SpecToken, t: SpecToken) -> bool
    decreases t,
{
    t == b || (t.content matches SpecTokenContent::Block(_, inner) && block_in(b, inner))
}

/// Every token standing anywhere in a sound stream whose flattening fills a
/// slice of the flat stream is itself sound, and its own flattening fills a
/// slice of the flat stream.
pub proof fn lemma_deep_slice(
    flat: Seq<SpecPreToken>,
    base: int,
    q: Seq<SpecToken>,
    lo: int,
    b: SpecToken,
)
    requires
        0 <= base,
        base + flatten_seq(q).len() <= flat.len(),
        flat.subrange(base, base + flatten_seq(q).len() as int) == flatten_seq(q),
        0 <= lo,
        stoks_sound(q, lo),
        block_in(b, q),
    ensures
        stok_sound(b, 0),
        exists|k: int|
            0 <= k && k + flatten_tok(b).len() <= flat.len() && #[trigger] flat.subrange(
                k,
                k + flatten_tok(b).len() as int,
            ) == flatten_tok(b),
    decreases q, 1int,
{
    let q0 = q.drop_last();
    let t = q.last();
    let f0 = flatten_seq(q0);
    let ft = flatten_tok(t);
    assert(flatten_seq(q) == f0 + ft);
    let ll = flatten_seq(q).len() as int;
    let j = base + f0.len();
    assert(flat.subrange(base, j) =~= flat.subrange(base, base + ll).subrange(
        0,
        f0.len() as int,
    ));
    assert(flatten_seq(q).subrange(0, f0.len() as int) =~= f0);
    assert(flat.subrange(base, j) =~= f0);
    assert(flat.subrange(j, j + ft.len()) =~= flat.subrange(base, base + ll).subrange(
        f0.len() as int,
        ll,
    ));
    assert(flatten_seq(q).subrange(f0.len() as int, ll) =~= ft);
    assert(flat.subrange(j, j + ft.len()) =~= ft);
    if block_in_tok(b, t) {
        lemma_deep_slice_tok(flat, j, t, lo, b);
    } else {
        lemma_deep_slice(flat, base, q0, lo, b);
    }
}

/// One token's case of `lemma_deep_slice`.
proof fn lemma_deep_slice_tok(flat: Seq<SpecPreToken>, j: int, t: SpecToken, lo: int, b: SpecToken)
    requires
        0 <= j,
        j + flatten_tok(t).len() <= flat.len(),
        flat.subrange(j, j + flatten_tok(t).len() as int) == flatten_tok(t),
        0 <= lo,
        stok_sound(t, lo),
        block_in_tok(b, t),
    ensures
        stok_sound(b, 0),
        exists|k: int|
            0 <= k && k + flatten_tok(b).len() <= flat.len() && #[trigger] flat.subrange(
                k,
                k + flatten_tok(b).len() as int,
            ) == flatten_tok(b),
    decreases t, 0int,
{
    if t == b {
        lemma_stok_sound_weaken(t, lo, 0);
        assert(flat.subrange(j, j + flatten_tok(b).len() as int) == flatten_tok(b));
    } else {
        let inner = t.content->Block_1;
        let fin = flatten_seq(inner);
        let ftl = flatten_tok(t).len() as int;
        assert(flat.subrange(j + 1, j + 1 + fin.len()) =~= flat.subrange(j, j + ftl).subrange(
            1,
            1 + fin.len() as int,
        ));
        assert(flatten_tok(t).subrange(1, 1 + fin.len() as int) =~= fin);
        assert(flat.subrange(j + 1, j + 1 + fin.len()) =~= fin);
        lemma_deep_slice(flat, j + 1, inner, t.location.begin + 1, b);
    }
}

/// Replaying a sound stream: where the flat input carries exactly the
/// flattening of `q`, nesting consumes it and appends `q` to the buffer.
pub proof fn lemma_nest_replay(
    flat: Seq<SpecPreToken>,
    i: int,
    stack: Seq<SpecFrame>,
    cur: Seq<SpecToken>,
    src_len: int,
    q: Seq<SpecToken>,
    lo: int,
)
    requires
        0 <= i,
        i + flatten_seq(q).len() <= flat.len(),
        flat.subrange(i, i + flatten_seq(q).len() as int) == flatten_seq(q),
        stoks_sound(q, lo),
    ensures
        nest(flat, i, stack, cur, src_len) == nest(
            flat,
            i + flatten_seq(q).len() as int,
            stack,
            cur + q,
            src_len,
        ),
    decreases q,
{
    if q.len() == 0 {
        assert(cur + q =~= cur);
    } else {
        let q0 = q.drop_last();
        let t = q.last();
        let f0 = flatten_seq(q0);
        let ft = flatten_tok(t);
        assert(flatten_seq(q) == f0 + ft);
        let j = i + f0.len();
        let ll = flatten_seq(q).len() as int;
        assert(flat.subrange(i, j) =~= flat.subrange(i, i + ll).subrange(0, f0.len() as int));
        assert(flatten_seq(q).subrange(0, f0.len() as int) =~= f0);
        assert(flat.subrange(i, j) =~= f0);
        assert(flat.subrange(j, j + ft.len()) =~= flat.subrange(i, i + ll).subrange(
            f0.len() as int,
            ll,
        ));
        assert(flatten_seq(q).subrange(f0.len() as int, ll) =~= ft);
        assert(flat.subrange(j, j + ft.len()) =~= ft);
        lemma_nest_replay(flat, i, stack, cur, src_len, q0, lo);
        lemma_nest_replay_tok(flat, j, stack, cur + q0, src_len, t, lo);
        assert((cur + q0).push(t) =~= cur + q);
    }
}

/// One token's case of `lemma_nest_replay`.
proof fn lemma_nest_replay_tok(
    flat: Seq<SpecPreToken>,
    j: int,
    stack: Seq<SpecFrame>,
    cur: Seq<SpecToken>,
    src_len: int,
    t: SpecToken,
    lo: int,
)
    requires
        0 <= j,
        j + flatten_tok(t).len() <= flat.len(),
        flat.subrange(j, j + flatten_tok(t).len() as int) == flatten_tok(t),
        stok_sound(t, lo),
    ensures
        nest(flat, j, stack, cur, src_len) == nest(
            flat,
            j + flatten_tok(t).len() as int,
            stack,
            cur.push(t),
            src_len,
        ),
    decreases t,
{
    match t.content {
        SpecTokenContent::Punct(p) => {
            assert(flat[j] == flatten_tok(t)[0]);
            assert(flat_punct(p) != primary::Punct::OpenParenth);
            assert(flat_punct(p) != primary::Punct::CloseParenth);
            assert(punct_nested(flat_punct(p)) == Some(p));
        },
        SpecTokenContent::Ident(_) => {
            assert(flat[j] == flatten_tok(t)[0]);
        },
        SpecTokenContent::Value(Value::Number(_)) => {
            assert(flat[j] == flatten_tok(t)[0]);
        },
        SpecTokenContent::Eof => {
            assert(false);
        },
        SpecTokenContent::Block(_, inner) => {
            let fin = flatten_seq(inner);
            let opener = SpecPreToken {
                location: Location { begin: t.location.begin, len: 1 },
                content: SpecPreTokenContent::Punct(primary::Punct::OpenParenth),
            };
            let closer = SpecPreToken {
                location: Location {
                    begin: (t.location.begin + t.location.len - 1) as usize,
                    len: 1,
                },
                content: SpecPreTokenContent::Punct(primary::Punct::CloseParenth),
            };
            assert(flatten_tok(t) == seq![opener] + fin + seq![closer]);
            assert(flat[j] == flatten_tok(t)[0]);
            assert(flat[j] == opener);
            let frame = SpecFrame { open_loc: opener.location, parent: cur };
            assert(nest(flat, j, stack, cur, src_len) == nest(
                flat,
                j + 1,
                stack.push(frame),
                Seq::empty(),
                src_len,
            ));
            let ftl = flatten_tok(t).len() as int;
            assert(flat.subrange(j + 1, j + 1 + fin.len()) =~= flat.subrange(j, j + ftl).subrange(
                1,
                1 + fin.len() as int,
            ));
            assert(flatten_tok(t).subrange(1, 1 + fin.len() as int) =~= fin);
            assert(flat.subrange(j + 1, j + 1 + fin.len()) =~= fin);
            lemma_nest_replay(flat, j + 1, stack.push(frame), Seq::empty(), src_len, inner, (
            t.location.begin + 1) as int);
            assert(Seq::<SpecToken>::empty() + inner =~= inner);
            let j2 = j + 1 + fin.len();
            assert(flat[j2] == flatten_tok(t)[flatten_tok(t).len() - 1]);
            assert(flat[j2] == closer);
            let block = SpecToken {
                location: frame.open_loc.spec_through(closer.location),
                content: SpecTokenContent::Block(DelimiterType::Parenthases, inner),
            };
            assert(nest(flat, j2, stack.push(frame), inner, src_len) == nest(
                flat,
                j2 + 1,
                stack,
                cur.push(block),
                src_len,
            )) by {
                assert(stack.push(frame).last() == frame);
                assert(stack.push(frame).drop_last() =~= stack);
            }
            assert(block.location == t.location);
            assert(block == t);
        },
    }
}

/// Nesting preserves well-formed numbers: given flat tokens, open frames
/// and a current buffer whose numbers are all well formed, every number of
/// the nested stream is well formed.
pub proof fn lemma_nest_values_wf(
    flat: Seq<SpecPreToken>,
    i: int,
    stack: Seq<SpecFrame>,
    cur: Seq<SpecToken>,
    src_len: int,
)
    requires
        0 <= i <= flat.len(),
        primary::pre_tokens_values_wf(flat),
        forall|j: int| 0 <= j < stack.len() ==> stoks_values_wf((#[trigger] stack[j]).parent),
        stoks_values_wf(cur),
    ensures
        nest(flat, i, stack, cur, src_len) matches Ok(ts) ==> stoks_values_wf(ts),
    decreases flat.len() - i,
{
    crate::tokenize::lemma_stoks_values_wf(cur);
    if i >= flat.len() {
        if stack.len() == 0 {
            let eof = SpecToken {
                location: crate::Location { begin: src_len as usize, len: 0 },
                content: SpecTokenContent::Eof,
            };
            crate::tokenize::lemma_stoks_values_wf(cur.push(eof));
            assert(forall|k: int| 0 <= k < cur.len() ==> cur.push(eof)[k] == cur[k]);
        }
    } else {
        let t = flat[i];
        match t.content {
            SpecPreTokenContent::Punct(p) => {
                if p == primary::Punct::OpenParenth {
                    let stack2 = stack.push(SpecFrame { open_loc: t.location, parent: cur });
                    assert(forall|j: int|
                        0 <= j < stack2.len() ==> stoks_values_wf(
                            (#[trigger] stack2[j]).parent,
                        )) by {
                        assert(forall|j: int| 0 <= j < stack.len() ==> stack2[j] == stack[j]);
                    }
                    lemma_nest_values_wf(flat, i + 1, stack2, Seq::empty(), src_len);
                } else if p == primary::Punct::CloseParenth {
                    if stack.len() > 0 {
                        let block = SpecToken {
                            location: stack.last().open_loc.spec_through(t.location),
                            content: SpecTokenContent::Block(DelimiterType::Parenthases, cur),
                        };
                        let cur2 = stack.last().parent.push(block);
                        crate::tokenize::lemma_stoks_values_wf(stack.last().parent);
                        crate::tokenize::lemma_stoks_values_wf(cur2);
                        assert(forall|k: int|
                            0 <= k < stack.last().parent.len() ==> cur2[k] == stack.last(
                            ).parent[k]);
                        assert(forall|j: int|
                            0 <= j < stack.len() - 1 ==> stack.drop_last()[j] == stack[j]);
                        lemma_nest_values_wf(flat, i + 1, stack.drop_last(), cur2, src_len);
                    }
                } else {
                    let tok = SpecToken {
                        location: t.location,
                        content: SpecTokenContent::Punct(punct_nested(p)->0),
                    };
                    lemma_push_wf(cur, tok);
                    lemma_nest_values_wf(flat, i + 1, stack, cur.push(tok), src_len);
                }
            },
            SpecPreTokenContent::Ident(name) => {
                let tok = SpecToken {
                    location: t.location,
                    content: SpecTokenContent::Ident(name),
                };
                lemma_push_wf(cur, tok);
                lemma_nest_values_wf(flat, i + 1, stack, cur.push(tok), src_len);
            },
            SpecPreTokenContent::Number(n) => {
                let tok = SpecToken {
                    location: t.location,
                    content: SpecTokenContent::Value(Value::Number(n)),
                };
                assert(t.content matches SpecPreTokenContent::Number(m) && m == n);
                lemma_push_wf(cur, tok);
                lemma_nest_values_wf(flat, i + 1, stack, cur.push(tok), src_len);
            },
        }
    }
}

/// Pushing one well-formed token keeps the buffer well formed.
proof fn lemma_push_wf(cur: Seq<SpecToken>, tok: SpecToken)
    requires
        stoks_values_wf(cur),
        stok_values_wf(tok),
    ensures
        stoks_values_wf(cur.push(tok)),
{
    assert(cur.push(tok).drop_last() =~= cur);
    assert(cur.push(tok).last() == tok);
}

/// An open delimiter frame of the executable pass.
struct Frame {
    open_loc: Location,
    tokens: Vec<Token>,
}

spec fn frame_view(f: Frame) -> SpecFrame {
    SpecFrame { open_loc: f.open_loc, parent: token_seq_view(f.tokens@) }
}

spec fn stack_view(q: Seq<Frame>) -> Seq<SpecFrame> {
    q.map_values(|f: Frame| frame_view(f))
}

/// The secondary pass: folds matched parentheses of the flat stream into
/// nested `Block` tokens and appends the `Eof` sentinel, returning exactly
/// `nest(flat, 0, [], [], src_len)`. The flat tokens must lie inside the
/// source (`src_len` characters), in source order.
pub fn tokenize2(flat: Vec<PreToken>, src_len: usize) -> (r: Result<TokenStream, CompilationError>)
    requires
        primary::pre_tokens_bounded(pre_stream_view(flat@), 0, src_len as int),
    ensures
        match r {
            Ok(v) => nest(pre_stream_view(flat@), 0, Seq::empty(), Seq::empty(), src_len as int)
                == Ok::<_, CompilationError>(token_seq_view(v@)),
            Err(e) => nest(pre_stream_view(flat@), 0, Seq::empty(), Seq::empty(), src_len as int)
                == Err::<Seq<SpecToken>, _>(e),
        },
{
    let ghost f = pre_stream_view(flat@);
    let ghost ll = src_len as int;
    let mut stack: Vec<Frame> = Vec::new();
    let mut cur: Vec<Token> = Vec::new();
    let mut i: usize = 0;
    proof {
        assert(stack_view(stack@) =~= Seq::<SpecFrame>::empty());
        assert(token_seq_view(cur@) =~= Seq::<SpecToken>::empty());
        assert(f.len() == flat@.len());
    }
    while i < flat.len()
        invariant
            0 <= i <= flat@.len(),
            f == pre_stream_view(flat@),
            ll == src_len as int,
            f.len() == flat@.len(),
            primary::pre_tokens_bounded(f, 0, ll),
            nest(f, 0, Seq::empty(), Seq::empty(), ll) == nest(
                f,
                i as int,
                stack_view(stack@),
                token_seq_view(cur@),
                ll,
            ),
            forall|j: int|
                0 <= j < stack@.len() ==> (#[trigger] stack@[j]).open_loc.begin <= (if i
                    < f.len() {
                    f[i as int].location.begin as int
                } else {
                    ll
                }),
        decreases flat@.len() - i,
    {
        let ghost t = f[i as int];
        let ghost sv0 = stack_view(stack@);
        let ghost cv0 = token_seq_view(cur@);
        proof {
            assert(t == pre_token_view(flat@[i as int]));
            assert(t.location.spec_end() <= ll);
            if i + 1 < f.len() {
                assert(t.location.spec_end() <= f[i + 1int].location.begin);
            }
        }
        let loc = flat[i].location;
        match &flat[i].content {
            primary::PreTokenContent::Punct(p) => {
                if let Some(np) = punct_to_nested(*p) {
                    let tok = Token { location: loc, content: TokenContent::Punct(np) };
                    proof {
                        lemma_token_seq_view_push(cur@, tok);
                    }
                    cur.push(tok);
                    proof {
                        assert(token_seq_view(cur@) == cv0.push(token_view(tok)));
                        assert(nest(f, i as int, sv0, cv0, ll) == nest(
                            f,
                            i + 1int,
                            stack_view(stack@),
                            token_seq_view(cur@),
                            ll,
                        ));
                    }
                } else if matches!(p, primary::Punct::OpenParenth) {
                    stack.push(Frame { open_loc: loc, tokens: cur });
                    cur = Vec::new();
                    proof {
                        assert(stack@.drop_last().map_values(|fr: Frame| frame_view(fr))
                            =~= sv0);
                        assert(stack_view(stack@) =~= stack@.drop_last().map_values(
                            |fr: Frame| frame_view(fr),
                        ).push(frame_view(stack@.last())));
                        assert(frame_view(stack@.last()) == SpecFrame {
                            open_loc: t.location,
                            parent: cv0,
                        });
                        assert(token_seq_view(cur@) =~= Seq::<SpecToken>::empty());
                        assert(nest(f, i as int, sv0, cv0, ll) == nest(
                            f,
                            i + 1int,
                            stack_view(stack@),
                            token_seq_view(cur@),
                            ll,
                        ));
                    }
                } else {
                    match stack.pop() {
                        None => {
                            let err = CompilationError {
                                location: loc,
                                kind: CompilationErrorKind::UnmatchedDelimiter,
                            };
                            proof {
                                assert(sv0 =~= Seq::<SpecFrame>::empty());
                                assert(nest(f, i as int, sv0, cv0, ll) == Err::<
                                    Seq<SpecToken>,
                                    _,
                                >(err));
                            }
                            return Err(err);
                        },
                        Some(frame) => {
                            proof {
                                let ghost prev = stack@.push(frame);
                                assert(prev =~= stack@.push(frame));
                                assert(stack_view(prev) =~= stack_view(stack@).push(
                                    frame_view(frame),
                                ));
                                assert(sv0 == stack_view(prev));
                                assert(sv0.last() == frame_view(frame));
                                assert(sv0.drop_last() =~= stack_view(stack@));
                                assert(frame.open_loc.begin <= t.location.begin);
                            }
                            let block_loc = frame.open_loc.through(&loc);
                            let block = Token {
                                location: block_loc,
                                content: TokenContent::Block(DelimiterType::Parenthases, cur),
                            };
                            proof {
                                assert(token_view(block) == SpecToken {
                                    location: frame.open_loc.spec_through(t.location),
                                    content: SpecTokenContent::Block(
                                        DelimiterType::Parenthases,
                                        cv0,
                                    ),
                                });
                            }
                            cur = frame.tokens;
                            proof {
                                lemma_token_seq_view_push(cur@, block);
                            }
                            cur.push(block);
                            proof {
                                assert(token_seq_view(cur@) == sv0.last().parent.push(
                                    token_view(block),
                                ));
                                assert(nest(f, i as int, sv0, cv0, ll) == nest(
                                    f,
                                    i + 1int,
                                    stack_view(stack@),
                                    token_seq_view(cur@),
                                    ll,
                                ));
                            }
                        },
                    }
                }
            },
            primary::PreTokenContent::Ident(name) => {
                let tok = Token { location: loc, content: TokenContent::Ident(crate::tokenize::clone_ident(name)) };
                proof {
                    lemma_token_seq_view_push(cur@, tok);
                }
                cur.push(tok);
                proof {
                    assert(token_seq_view(cur@) == cv0.push(token_view(tok)));
                    assert(token_view(tok) == SpecToken {
                        location: t.location,
                        content: SpecTokenContent::Ident(t.content->Ident_0),
                    });
                    assert(nest(f, i as int, sv0, cv0, ll) == nest(
                        f,
                        i + 1int,
                        stack_view(stack@),
                        token_seq_view(cur@),
                        ll,
                    ));
                }
            },
            primary::PreTokenContent::Number(n) => {
                let tok = Token {
                    location: loc,
                    content: TokenContent::Value(Value::Number(*n)),
                };
                proof {
                    lemma_token_seq_view_push(cur@, tok);
                }
                cur.push(tok);
                proof {
                    assert(token_seq_view(cur@) == cv0.push(token_view(tok)));
                    assert(nest(f, i as int, sv0, cv0, ll) == nest(
                        f,
                        i + 1int,
                        stack_view(stack@),
                        token_seq_view(cur@),
                        ll,
                    ));
                }
            },
        }
        i = i + 1;
    }
    if stack.len() > 0 {
        let err = CompilationError {
            location: stack[stack.len() - 1].open_loc,
            kind: CompilationErrorKind::UnmatchedDelimiter,
        };
        proof {
            assert(stack_view(stack@).last() == frame_view(stack@.last()));
        }
        return Err(err);
    }
    let eof = Token { location: Location { begin: src_len, len: 0 }, content: TokenContent::Eof };
    proof {
        assert(stack_view(stack@) =~= Seq::<SpecFrame>::empty());
        lemma_token_seq_view_push(cur@, eof);
    }
    cur.push(eof);
    Ok(cur)
}


} // verus!
