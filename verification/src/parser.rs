//! The grammar-driven parser: one procedure per non-terminal, a
//! shared comma-separated-list driver, and the top-level `program`
//! rule, each emitting its target-text fragment as it recognizes its
//! input.
//!
//! Every rule is specified by a spec function over the token-sequence
//! view; the executable parsers are proved to return exactly what the
//! specification says.  The cursor is a plain index, passed and
//! returned by value; it only ever moves forward, and any need to
//! move past the last token is the structural-incompleteness error.

use vstd::prelude::*;
use vstd::string::*;

use crate::emit::spec_binary_frag;
use crate::emit::spec_finish;
use crate::emit::spec_inputop_frag;
use crate::emit::spec_outputop_frag;
use crate::emit::spec_seed;
use crate::emit::spec_unary_frag;
use crate::lexer::lexer;
use crate::lexer::spec_lex_from;
use crate::token::Mode;
use crate::token::SpecError;
use crate::token::SpecToken;
use crate::token::Token;
use crate::token::TokenKind;
use crate::token::TranslateError;
use crate::token::toks_view;

verus! {

/// The token at position `i`, or the incompleteness error when `i`
/// lies outside the sequence.
pub open spec fn spec_peek(ts: Seq<SpecToken>, i: int) -> Result<SpecToken, SpecError> {
    if 0 <= i < ts.len() {
        Ok(ts[i])
    } else {
        Err(SpecError::Incomplete)
    }
}

/// The cursor moved one token forward, or the incompleteness error
/// when that would reach or pass the end: the final token may only be
/// consumed by the `program` rule itself, never stepped past.
pub open spec fn spec_advance(len: int, i: int) -> Result<int, SpecError> {
    if i + 1 < len {
        Ok(i + 1)
    } else {
        Err(SpecError::Incomplete)
    }
}

/// Demand a token of kind `k` at `i` and step past it.
pub open spec fn spec_expect(ts: Seq<SpecToken>, i: int, k: TokenKind) -> Result<int, SpecError> {
    match spec_peek(ts, i) {
        Err(e) => Err(e),
        Ok(t) => if t.kind != k {
            Err(SpecError::Syntax(t.lexeme))
        } else {
            spec_advance(ts.len() as int, i)
        },
    }
}

/// Demand a token of kind `k` at `i`; the rule ends here, so the
/// cursor steps past it without the not-the-last-token check.
pub open spec fn spec_expect_last(ts: Seq<SpecToken>, i: int, k: TokenKind) -> Result<
    int,
    SpecError,
> {
    match spec_peek(ts, i) {
        Err(e) => Err(e),
        Ok(t) => if t.kind != k {
            Err(SpecError::Syntax(t.lexeme))
        } else {
            Ok(i + 1)
        },
    }
}

/// The `datadef` rule: `ID : (vector | number)`.  A pure shape check;
/// the declared type influences no emitted text.
pub open spec fn spec_datadef(ts: Seq<SpecToken>, i: int) -> Result<int, SpecError> {
    match spec_expect(ts, i, TokenKind::Id) {
        Err(e) => Err(e),
        Ok(i1) => match spec_expect(ts, i1, TokenKind::Colon) {
            Err(e) => Err(e),
            Ok(i2) => match spec_peek(ts, i2) {
                Err(e) => Err(e),
                Ok(t) => if t.kind != TokenKind::Vector && t.kind != TokenKind::Number {
                    Err(SpecError::Syntax(t.lexeme))
                } else {
                    spec_advance(ts.len() as int, i2)
                },
            },
        },
    }
}

/// The `inputop` rule: `ID = read ( STRING , (true|false) , NUM )`,
/// with its emitted fragment.
pub open spec fn spec_inputop(ts: Seq<SpecToken>, i: int, mode: Mode) -> Result<
    (int, Seq<char>),
    SpecError,
> {
    match spec_peek(ts, i) {
        Err(e) => Err(e),
        Ok(t_id) => if t_id.kind != TokenKind::Id {
            Err(SpecError::Syntax(t_id.lexeme))
        } else {
            match spec_advance(ts.len() as int, i) {
                Err(e) => Err(e),
                Ok(i1) => match spec_expect(ts, i1, TokenKind::Assign) {
                    Err(e) => Err(e),
                    Ok(i2) => match spec_expect(ts, i2, TokenKind::Read) {
                        Err(e) => Err(e),
                        Ok(i3) => match spec_expect(ts, i3, TokenKind::LParen) {
                            Err(e) => Err(e),
                            Ok(i4) => match spec_peek(ts, i4) {
                                Err(e) => Err(e),
                                Ok(t_file) => if t_file.kind != TokenKind::StrLit {
                                    Err(SpecError::Syntax(t_file.lexeme))
                                } else {
                                    match spec_advance(ts.len() as int, i4) {
                                        Err(e) => Err(e),
                                        Ok(i5) => match spec_expect(ts, i5, TokenKind::Comma) {
                                            Err(e) => Err(e),
                                            Ok(i6) => spec_inputop_tail(
                                                ts,
                                                i6,
                                                mode,
                                                t_id.lexeme,
                                                t_file.lexeme,
                                            ),
                                        },
                                    }
                                },
                            },
                        },
                    },
                },
            }
        },
    }
}

/// The tail of `inputop` from the boolean onwards:
/// `(true|false) , NUM )`.
pub open spec fn spec_inputop_tail(
    ts: Seq<SpecToken>,
    i6: int,
    mode: Mode,
    id: Seq<char>,
    file: Seq<char>,
) -> Result<(int, Seq<char>), SpecError> {
    match spec_peek(ts, i6) {
        Err(e) => Err(e),
        Ok(t_b) => if t_b.kind != TokenKind::True && t_b.kind != TokenKind::False {
            Err(SpecError::Syntax(t_b.lexeme))
        } else {
            match spec_advance(ts.len() as int, i6) {
                Err(e) => Err(e),
                Ok(i7) => match spec_expect(ts, i7, TokenKind::Comma) {
                    Err(e) => Err(e),
                    Ok(i8) => match spec_peek(ts, i8) {
                        Err(e) => Err(e),
                        Ok(t_num) => if t_num.kind != TokenKind::Num {
                            Err(SpecError::Syntax(t_num.lexeme))
                        } else {
                            match spec_advance(ts.len() as int, i8) {
                                Err(e) => Err(e),
                                Ok(i9) => match spec_expect(ts, i9, TokenKind::RParen) {
                                    Err(e) => Err(e),
                                    Ok(i10) => Ok(
                                        (
                                            i10,
                                            spec_inputop_frag(mode, id, file, t_b, t_num.lexeme),
                                        ),
                                    ),
                                },
                            }
                        },
                    },
                },
            }
        },
    }
}

/// The `processop` rule: `ID = FUNC (...)` where FUNC is binary
/// (`regressiona`, `regressionb`, `correlation`) over `(ID, ID)` or
/// unary (`mean`, `stddev`) over `(ID)`; any other function-position
/// token is a syntax error naming its lexeme.
pub open spec fn spec_processop(ts: Seq<SpecToken>, i: int, mode: Mode) -> Result<
    (int, Seq<char>),
    SpecError,
> {
    match spec_peek(ts, i) {
        Err(e) => Err(e),
        Ok(t_id) => if t_id.kind != TokenKind::Id {
            Err(SpecError::Syntax(t_id.lexeme))
        } else {
            match spec_advance(ts.len() as int, i) {
                Err(e) => Err(e),
                Ok(i1) => match spec_expect(ts, i1, TokenKind::Assign) {
                    Err(e) => Err(e),
                    Ok(i2) => match spec_peek(ts, i2) {
                        Err(e) => Err(e),
                        Ok(t_func) => if t_func.kind == TokenKind::RegressionA || t_func.kind
                            == TokenKind::RegressionB || t_func.kind == TokenKind::Correlation {
                            spec_binary_tail(ts, i2, mode, t_id.lexeme, t_func.lexeme)
                        } else if t_func.kind == TokenKind::Mean || t_func.kind
                            == TokenKind::StdDev {
                            spec_unary_tail(ts, i2, mode, t_id.lexeme, t_func.lexeme)
                        } else {
                            Err(SpecError::Syntax(t_func.lexeme))
                        },
                    },
                },
            }
        },
    }
}

/// The argument list of a binary `processop`: `( ID , ID )` from the
/// function-name position.
pub open spec fn spec_binary_tail(
    ts: Seq<SpecToken>,
    i2: int,
    mode: Mode,
    id: Seq<char>,
    func: Seq<char>,
) -> Result<(int, Seq<char>), SpecError> {
    match spec_advance(ts.len() as int, i2) {
        Err(e) => Err(e),
        Ok(i3) => match spec_expect(ts, i3, TokenKind::LParen) {
            Err(e) => Err(e),
            Ok(i4) => match spec_peek(ts, i4) {
                Err(e) => Err(e),
                Ok(t_p1) => if t_p1.kind != TokenKind::Id {
                    Err(SpecError::Syntax(t_p1.lexeme))
                } else {
                    match spec_advance(ts.len() as int, i4) {
                        Err(e) => Err(e),
                        Ok(i5) => match spec_expect(ts, i5, TokenKind::Comma) {
                            Err(e) => Err(e),
                            Ok(i6) => match spec_peek(ts, i6) {
                                Err(e) => Err(e),
                                Ok(t_p2) => if t_p2.kind != TokenKind::Id {
                                    Err(SpecError::Syntax(t_p2.lexeme))
                                } else {
                                    match spec_advance(ts.len() as int, i6) {
                                        Err(e) => Err(e),
                                        Ok(i7) => match spec_expect_last(
                                            ts,
                                            i7,
                                            TokenKind::RParen,
                                        ) {
                                            Err(e) => Err(e),
                                            Ok(i8) => Ok(
                                                (
                                                    i8,
                                                    spec_binary_frag(
                                                        mode,
                                                        func,
                                                        t_p1.lexeme,
                                                        t_p2.lexeme,
                                                        id,
                                                    ),
                                                ),
                                            ),
                                        },
                                    }
                                },
                            },
                        },
                    }
                },
            },
        },
    }
}

/// The argument list of a unary `processop`: `( ID )` from the
/// function-name position.
pub open spec fn spec_unary_tail(
    ts: Seq<SpecToken>,
    i2: int,
    mode: Mode,
    id: Seq<char>,
    func: Seq<char>,
) -> Result<(int, Seq<char>), SpecError> {
    match spec_advance(ts.len() as int, i2) {
        Err(e) => Err(e),
        Ok(i3) => match spec_expect(ts, i3, TokenKind::LParen) {
            Err(e) => Err(e),
            Ok(i4) => match spec_peek(ts, i4) {
                Err(e) => Err(e),
                Ok(t_p1) => if t_p1.kind != TokenKind::Id {
                    Err(SpecError::Syntax(t_p1.lexeme))
                } else {
                    match spec_advance(ts.len() as int, i4) {
                        Err(e) => Err(e),
                        Ok(i5) => match spec_expect_last(ts, i5, TokenKind::RParen) {
                            Err(e) => Err(e),
                            Ok(i6) => Ok((i6, spec_unary_frag(mode, func, t_p1.lexeme, id))),
                        },
                    }
                },
            },
        },
    }
}

/// The `outputop` rule: a bare `STRING` or `ID`, with its fragment.
pub open spec fn spec_outputop(ts: Seq<SpecToken>, i: int, mode: Mode) -> Result<
    (int, Seq<char>),
    SpecError,
> {
    match spec_peek(ts, i) {
        Err(e) => Err(e),
        Ok(t) => if t.kind != TokenKind::StrLit && t.kind != TokenKind::Id {
            Err(SpecError::Syntax(t.lexeme))
        } else {
            Ok((i + 1, spec_outputop_frag(mode, t.lexeme)))
        },
    }
}

/// Which non-terminal a comma-separated list is made of.
#[derive(Clone, Copy, PartialEq, Eq, Structural, Debug)]
pub enum Rule {
    DataDef,
    InputOp,
    ProcessOp,
    OutputOp,
}

/// One application of the given rule, as (next position, emitted
/// fragment); `datadef` emits nothing.
pub open spec fn spec_rule(ts: Seq<SpecToken>, i: int, rule: Rule, mode: Mode) -> Result<
    (int, Seq<char>),
    SpecError,
> {
    match rule {
        Rule::DataDef => match spec_datadef(ts, i) {
            Err(e) => Err(e),
            Ok(j) => Ok((j, Seq::empty())),
        },
        Rule::InputOp => spec_inputop(ts, i, mode),
        Rule::ProcessOp => spec_processop(ts, i, mode),
        Rule::OutputOp => spec_outputop(ts, i, mode),
    }
}

/// A successful rule application moves the cursor strictly forward
/// and at most to the end of the tokens.
pub proof fn lemma_rule_advances(ts: Seq<SpecToken>, i: int, rule: Rule, mode: Mode)
    ensures
        forall|j: int, f: Seq<char>|
            spec_rule(ts, i, rule, mode) == Ok::<(int, Seq<char>), SpecError>((j, f)) ==> i < j
                <= ts.len(),
{
}

/// A later fragment and final position, glued after what an earlier
/// part of the list already emitted.
pub open spec fn list_glue(pre: Seq<char>, rest: Result<(int, Seq<char>), SpecError>) -> Result<
    (int, Seq<char>),
    SpecError,
> {
    match rest {
        Ok((j, o)) => Ok((j, pre + o)),
        Err(e) => Err(e),
    }
}

/// What follows one list item: stop unless the next token is a comma;
/// after a comma the rule must apply again.  The position returned is
/// that of the first token after the list, which therefore always
/// exists and is not a comma.
pub open spec fn spec_list_rest(ts: Seq<SpecToken>, i: int, rule: Rule, mode: Mode) -> Result<
    (int, Seq<char>),
    SpecError,
>
    decreases ts.len() - i,
    via spec_list_rest_decreases
{
    if !(0 <= i < ts.len()) {
        Err(SpecError::Incomplete)
    } else if ts[i].kind != TokenKind::Comma {
        Ok((i, Seq::empty()))
    } else if !(i + 1 < ts.len()) {
        Err(SpecError::Incomplete)
    } else {
        match spec_rule(ts, i + 1, rule, mode) {
            Err(e) => Err(e),
            Ok((j, f)) => list_glue(f, spec_list_rest(ts, j, rule, mode)),
        }
    }
}

#[via_fn]
proof fn spec_list_rest_decreases(ts: Seq<SpecToken>, i: int, rule: Rule, mode: Mode) {
    lemma_rule_advances(ts, i + 1, rule, mode);
}

/// A whole comma-separated list: the rule applied once, then once
/// more after every following comma.  Lists are never empty: the
/// first application must succeed.
pub open spec fn spec_list(ts: Seq<SpecToken>, i: int, rule: Rule, mode: Mode) -> Result<
    (int, Seq<char>),
    SpecError,
> {
    match spec_rule(ts, i, rule, mode) {
        Err(e) => Err(e),
        Ok((j, f)) => list_glue(f, spec_list_rest(ts, j, rule, mode)),
    }
}

/// The `program` rule: the four sections in order, `end .`, and
/// nothing after; the Prolog clause head is seeded first and the
/// trailing separator fix-up applied last.
pub open spec fn spec_program(ts: Seq<SpecToken>, mode: Mode) -> Result<Seq<char>, SpecError> {
    match spec_expect(ts, 0, TokenKind::Data) {
        Err(e) => Err(e),
        Ok(i1) => match spec_expect(ts, i1, TokenKind::Colon) {
            Err(e) => Err(e),
            Ok(i2) => match spec_list(ts, i2, Rule::DataDef, mode) {
                Err(e) => Err(e),
                Ok((i3, f_data)) => match spec_expect(ts, i3, TokenKind::Input) {
                    Err(e) => Err(e),
                    Ok(i4) => match spec_expect(ts, i4, TokenKind::Colon) {
                        Err(e) => Err(e),
                        Ok(i5) => match spec_list(ts, i5, Rule::InputOp, mode) {
                            Err(e) => Err(e),
                            Ok((i6, f_input)) => match spec_program_tail(ts, i6, mode) {
                                Err(e) => Err(e),
                                Ok(f_rest) => Ok(
                                    spec_finish(mode, spec_seed(mode) + f_data + f_input + f_rest),
                                ),
                            },
                        },
                    },
                },
            },
        },
    }
}

/// The `program` rule from the `process` section onwards; yields the
/// text those sections emit.
pub open spec fn spec_program_tail(ts: Seq<SpecToken>, i6: int, mode: Mode) -> Result<
    Seq<char>,
    SpecError,
> {
    match spec_expect(ts, i6, TokenKind::Process) {
        Err(e) => Err(e),
        Ok(i7) => match spec_expect(ts, i7, TokenKind::Colon) {
            Err(e) => Err(e),
            Ok(i8) => match spec_list(ts, i8, Rule::ProcessOp, mode) {
                Err(e) => Err(e),
                Ok((i9, f_process)) => match spec_expect(ts, i9, TokenKind::Output) {
                    Err(e) => Err(e),
                    Ok(i10) => match spec_expect(ts, i10, TokenKind::Colon) {
                        Err(e) => Err(e),
                        Ok(i11) => match spec_list(ts, i11, Rule::OutputOp, mode) {
                            Err(e) => Err(e),
                            Ok((i12, f_output)) => match spec_expect(ts, i12, TokenKind::End) {
                                Err(e) => Err(e),
                                Ok(i13) => match spec_peek(ts, i13) {
                                    Err(e) => Err(e),
                                    Ok(t_dot) => if t_dot.kind != TokenKind::Period {
                                        Err(SpecError::Syntax(t_dot.lexeme))
                                    } else if i13 != ts.len() - 1 {
                                        Err(SpecError::TrailingContent)
                                    } else {
                                        Ok(f_process + f_output)
                                    },
                                },
                            },
                        },
                    },
                },
            },
        },
    }
}

/// The whole translation: lex the input, then parse and emit.
pub open spec fn spec_translate(s: Seq<char>, mode: Mode) -> Result<Seq<char>, SpecError> {
    match spec_lex_from(s, 0) {
        Err(e) => Err(e),
        Ok(ts) => spec_program(ts, mode),
    }
}

/// The token at `index`, or the incompleteness error past the end:
/// the bounds-checked `peek` every grammar rule reads through.
pub fn get_next_token(index: usize, tokens: &Vec<Token>) -> (r: Result<Token, TranslateError>)
    ensures
        match spec_peek(toks_view(tokens@), index as int) {
            Ok(t) => r matches Ok(tok) && tok@ == t,
            Err(e) => r matches Err(x) && x@ == e,
        },
{
    if index < tokens.len() {
        let t = &tokens[index];
        Ok(Token { kind: t.kind, lexeme: t.lexeme.clone() })
    } else {
        Err(TranslateError::Incomplete)
    }
}

/// The cursor stepped one token forward, or the incompleteness error
/// when position `i + 1` would reach `i_max`, the token count: the
/// last token is never stepped past implicitly.
pub fn increment_i(i: usize, i_max: usize) -> (r: Result<usize, TranslateError>)
    ensures
        match spec_advance(i_max as int, i as int) {
            Ok(j) => r matches Ok(v) && v == j,
            Err(e) => r matches Err(x) && x@ == e,
        },
{
    if i_max > 0 && i < i_max - 1 {
        Ok(i + 1)
    } else {
        Err(TranslateError::Incomplete)
    }
}

/// Parse one `datadef`; nothing is emitted, the accumulator passes
/// through unchanged.
pub fn datadef_parser(
    start_index: usize,
    tokens: &Vec<Token>,
    _mode: &Mode,
    prog_output: String,
) -> (r: Result<(usize, String), TranslateError>)
    ensures
        match spec_datadef(toks_view(tokens@), start_index as int) {
            Ok(j) => r matches Ok(p) && p.0 == j && p.1@ == prog_output@,
            Err(e) => r matches Err(x) && x@ == e,
        },
{
    let mut i = start_index;
    let curr = match get_next_token(i, tokens) {
        Ok(t) => t,
        Err(e) => return Err(e),
    };
    if curr.kind != TokenKind::Id {
        return Err(TranslateError::Syntax(curr.lexeme));
    }
    i = match increment_i(i, tokens.len()) {
        Ok(v) => v,
        Err(e) => return Err(e),
    };
    let curr = match get_next_token(i, tokens) {
        Ok(t) => t,
        Err(e) => return Err(e),
    };
    if curr.kind != TokenKind::Colon {
        return Err(TranslateError::Syntax(curr.lexeme));
    }
    i = match increment_i(i, tokens.len()) {
        Ok(v) => v,
        Err(e) => return Err(e),
    };
    let curr = match get_next_token(i, tokens) {
        Ok(t) => t,
        Err(e) => return Err(e),
    };
    if curr.kind != TokenKind::Vector && curr.kind != TokenKind::Number {
        return Err(TranslateError::Syntax(curr.lexeme));
    }
    i = match increment_i(i, tokens.len()) {
        Ok(v) => v,
        Err(e) => return Err(e),
    };
    Ok((i, prog_output))
}

/// Parse one `inputop` and append its fragment for the given mode.
pub fn inputop_parser(
    start_index: usize,
    tokens: &Vec<Token>,
    mode: &Mode,
    prog_output: String,
) -> (r: Result<(usize, String), TranslateError>)
    ensures
        match spec_inputop(toks_view(tokens@), start_index as int, *mode) {
            Ok((j, frag)) => r matches Ok(p) && p.0 == j && p.1@ == prog_output@ + frag,
            Err(e) => r matches Err(x) && x@ == e,
        },
{
    let ghost out0 = prog_output@;
    let mut prog_output = prog_output;
    let mut i = start_index;
    let id = match get_next_token(i, tokens) {
        Ok(t) => t,
        Err(e) => return Err(e),
    };
    if id.kind != TokenKind::Id {
        return Err(TranslateError::Syntax(id.lexeme));
    }
    i = match increment_i(i, tokens.len()) {
        Ok(v) => v,
        Err(e) => return Err(e),
    };
    let curr = match get_next_token(i, tokens) {
        Ok(t) => t,
        Err(e) => return Err(e),
    };
    if curr.kind != TokenKind::Assign {
        return Err(TranslateError::Syntax(curr.lexeme));
    }
    i = match increment_i(i, tokens.len()) {
        Ok(v) => v,
        Err(e) => return Err(e),
    };
    let curr = match get_next_token(i, tokens) {
        Ok(t) => t,
        Err(e) => return Err(e),
    };
    if curr.kind != TokenKind::Read {
        return Err(TranslateError::Syntax(curr.lexeme));
    }
    i = match increment_i(i, tokens.len()) {
        Ok(v) => v,
        Err(e) => return Err(e),
    };
    let curr = match get_next_token(i, tokens) {
        Ok(t) => t,
        Err(e) => return Err(e),
    };
    if curr.kind != TokenKind::LParen {
        return Err(TranslateError::Syntax(curr.lexeme));
    }
    i = match increment_i(i, tokens.len()) {
        Ok(v) => v,
        Err(e) => return Err(e),
    };
    let file = match get_next_token(i, tokens) {
        Ok(t) => t,
        Err(e) => return Err(e),
    };
    if file.kind != TokenKind::StrLit {
        return Err(TranslateError::Syntax(file.lexeme));
    }
    i = match increment_i(i, tokens.len()) {
        Ok(v) => v,
        Err(e) => return Err(e),
    };
    let curr = match get_next_token(i, tokens) {
        Ok(t) => t,
        Err(e) => return Err(e),
    };
    if curr.kind != TokenKind::Comma {
        return Err(TranslateError::Syntax(curr.lexeme));
    }
    i = match increment_i(i, tokens.len()) {
        Ok(v) => v,
        Err(e) => return Err(e),
    };
    let btok = match get_next_token(i, tokens) {
        Ok(t) => t,
        Err(e) => return Err(e),
    };
    if btok.kind != TokenKind::True && btok.kind != TokenKind::False {
        return Err(TranslateError::Syntax(btok.lexeme));
    }
    i = match increment_i(i, tokens.len()) {
        Ok(v) => v,
        Err(e) => return Err(e),
    };
    let curr = match get_next_token(i, tokens) {
        Ok(t) => t,
        Err(e) => return Err(e),
    };
    if curr.kind != TokenKind::Comma {
        return Err(TranslateError::Syntax(curr.lexeme));
    }
    i = match increment_i(i, tokens.len()) {
        Ok(v) => v,
        Err(e) => return Err(e),
    };
    let num = match get_next_token(i, tokens) {
        Ok(t) => t,
        Err(e) => return Err(e),
    };
    if num.kind != TokenKind::Num {
        return Err(TranslateError::Syntax(num.lexeme));
    }
    i = match increment_i(i, tokens.len()) {
        Ok(v) => v,
        Err(e) => return Err(e),
    };
    let curr = match get_next_token(i, tokens) {
        Ok(t) => t,
        Err(e) => return Err(e),
    };
    if curr.kind != TokenKind::RParen {
        return Err(TranslateError::Syntax(curr.lexeme));
    }
    i = match increment_i(i, tokens.len()) {
        Ok(v) => v,
        Err(e) => return Err(e),
    };
    if *mode == Mode::Prolog {
        prog_output.append("\n   load_data_column(");
        prog_output.append(file.lexeme.as_str());
        prog_output.append(", ");
        prog_output.append(btok.lexeme.as_str());
        prog_output.append(", ");
        prog_output.append(num.lexeme.as_str());
        prog_output.append(", ");
        prog_output.append(id.lexeme.as_str());
        prog_output.append("),");
    } else if *mode == Mode::Scheme {
        prog_output.append("(define ");
        prog_output.append(id.lexeme.as_str());
        prog_output.append(" (read-csv ");
        prog_output.append(file.lexeme.as_str());
        prog_output.append(" #");
        if btok.kind == TokenKind::True {
            prog_output.append("t");
        } else {
            prog_output.append("f");
        }
        prog_output.append(" ");
        prog_output.append(num.lexeme.as_str());
        prog_output.append("))\n");
    }
    proof {
        assert(prog_output@ =~= out0 + spec_inputop_frag(*mode, id@.lexeme, file@.lexeme, btok@, num@.lexeme));
    }
    Ok((i, prog_output))
}

/// Parse one `processop` and append its fragment for the given mode.
pub fn processop_parser(
    start_index: usize,
    tokens: &Vec<Token>,
    mode: &Mode,
    prog_output: String,
) -> (r: Result<(usize, String), TranslateError>)
    ensures
        match spec_processop(toks_view(tokens@), start_index as int, *mode) {
            Ok((j, frag)) => r matches Ok(p) && p.0 == j && p.1@ == prog_output@ + frag,
            Err(e) => r matches Err(x) && x@ == e,
        },
{
    let ghost out0 = prog_output@;
    let mut prog_output = prog_output;
    let mut i = start_index;
    let id = match get_next_token(i, tokens) {
        Ok(t) => t,
        Err(e) => return Err(e),
    };
    if id.kind != TokenKind::Id {
        return Err(TranslateError::Syntax(id.lexeme));
    }
    i = match increment_i(i, tokens.len()) {
        Ok(v) => v,
        Err(e) => return Err(e),
    };
    let curr = match get_next_token(i, tokens) {
        Ok(t) => t,
        Err(e) => return Err(e),
    };
    if curr.kind != TokenKind::Assign {
        return Err(TranslateError::Syntax(curr.lexeme));
    }
    i = match increment_i(i, tokens.len()) {
        Ok(v) => v,
        Err(e) => return Err(e),
    };
    let func = match get_next_token(i, tokens) {
        Ok(t) => t,
        Err(e) => return Err(e),
    };
    if func.kind == TokenKind::RegressionA || func.kind == TokenKind::RegressionB || func.kind
        == TokenKind::Correlation {
        i = match increment_i(i, tokens.len()) {
            Ok(v) => v,
            Err(e) => return Err(e),
        };
        let curr = match get_next_token(i, tokens) {
            Ok(t) => t,
            Err(e) => return Err(e),
        };
        if curr.kind != TokenKind::LParen {
            return Err(TranslateError::Syntax(curr.lexeme));
        }
        i = match increment_i(i, tokens.len()) {
            Ok(v) => v,
            Err(e) => return Err(e),
        };
        let p1 = match get_next_token(i, tokens) {
            Ok(t) => t,
            Err(e) => return Err(e),
        };
        if p1.kind != TokenKind::Id {
            return Err(TranslateError::Syntax(p1.lexeme));
        }
        i = match increment_i(i, tokens.len()) {
            Ok(v) => v,
            Err(e) => return Err(e),
        };
        let curr = match get_next_token(i, tokens) {
            Ok(t) => t,
            Err(e) => return Err(e),
        };
        if curr.kind != TokenKind::Comma {
            return Err(TranslateError::Syntax(curr.lexeme));
        }
        i = match increment_i(i, tokens.len()) {
            Ok(v) => v,
            Err(e) => return Err(e),
        };
        let p2 = match get_next_token(i, tokens) {
            Ok(t) => t,
            Err(e) => return Err(e),
        };
        if p2.kind != TokenKind::Id {
            return Err(TranslateError::Syntax(p2.lexeme));
        }
        i = match increment_i(i, tokens.len()) {
            Ok(v) => v,
            Err(e) => return Err(e),
        };
        let curr = match get_next_token(i, tokens) {
            Ok(t) => t,
            Err(e) => return Err(e),
        };
        if curr.kind != TokenKind::RParen {
            return Err(TranslateError::Syntax(curr.lexeme));
        }
        if *mode == Mode::Prolog {
            prog_output.append("\n   ");
            prog_output.append(func.lexeme.as_str());
            prog_output.append("(");
            prog_output.append(p1.lexeme.as_str());
            prog_output.append(", ");
            prog_output.append(p2.lexeme.as_str());
            prog_output.append(", ");
            prog_output.append(id.lexeme.as_str());
            prog_output.append("),");
        } else if *mode == Mode::Scheme {
            prog_output.append("(define ");
            prog_output.append(id.lexeme.as_str());
            prog_output.append(" (");
            prog_output.append(func.lexeme.as_str());
            prog_output.append(" ");
            prog_output.append(p1.lexeme.as_str());
            prog_output.append(" ");
            prog_output.append(p2.lexeme.as_str());
            prog_output.append("))\n");
        }
        proof {
            assert(prog_output@ =~= out0 + spec_binary_frag(
                *mode,
                func@.lexeme,
                p1@.lexeme,
                p2@.lexeme,
                id@.lexeme,
            ));
        }
        Ok((i + 1, prog_output))
    } else if func.kind == TokenKind::Mean || func.kind == TokenKind::StdDev {
        i = match increment_i(i, tokens.len()) {
            Ok(v) => v,
            Err(e) => return Err(e),
        };
        let curr = match get_next_token(i, tokens) {
            Ok(t) => t,
            Err(e) => return Err(e),
        };
        if curr.kind != TokenKind::LParen {
            return Err(TranslateError::Syntax(curr.lexeme));
        }
        i = match increment_i(i, tokens.len()) {
            Ok(v) => v,
            Err(e) => return Err(e),
        };
        let p1 = match get_next_token(i, tokens) {
            Ok(t) => t,
            Err(e) => return Err(e),
        };
        if p1.kind != TokenKind::Id {
            return Err(TranslateError::Syntax(p1.lexeme));
        }
        i = match increment_i(i, tokens.len()) {
            Ok(v) => v,
            Err(e) => return Err(e),
        };
        let curr = match get_next_token(i, tokens) {
            Ok(t) => t,
            Err(e) => return Err(e),
        };
        if curr.kind != TokenKind::RParen {
            return Err(TranslateError::Syntax(curr.lexeme));
        }
        if *mode == Mode::Prolog {
            prog_output.append("\n   ");
            prog_output.append(func.lexeme.as_str());
            prog_output.append("(");
            prog_output.append(p1.lexeme.as_str());
            prog_output.append(", ");
            prog_output.append(id.lexeme.as_str());
            prog_output.append("),");
        } else if *mode == Mode::Scheme {
            prog_output.append("(define ");
            prog_output.append(id.lexeme.as_str());
            prog_output.append(" (");
            prog_output.append(func.lexeme.as_str());
            prog_output.append(" ");
            prog_output.append(p1.lexeme.as_str());
            prog_output.append("))\n");
        }
        proof {
            assert(prog_output@ =~= out0 + spec_unary_frag(*mode, func@.lexeme, p1@.lexeme, id@.lexeme));
        }
        Ok((i + 1, prog_output))
    } else {
        Err(TranslateError::Syntax(func.lexeme))
    }
}

/// Parse one `outputop` and append its fragment for the given mode.
pub fn outputop_parser(
    start_index: usize,
    tokens: &Vec<Token>,
    mode: &Mode,
    prog_output: String,
) -> (r: Result<(usize, String), TranslateError>)
    ensures
        match spec_outputop(toks_view(tokens@), start_index as int, *mode) {
            Ok((j, frag)) => r matches Ok(p) && p.0 == j && p.1@ == prog_output@ + frag,
            Err(e) => r matches Err(x) && x@ == e,
        },
{
    let ghost out0 = prog_output@;
    let num_tokens = tokens.len();
    let mut prog_output = prog_output;
    let i = start_index;
    let curr = match get_next_token(i, tokens) {
        Ok(t) => t,
        Err(e) => return Err(e),
    };
    if curr.kind != TokenKind::StrLit && curr.kind != TokenKind::Id {
        return Err(TranslateError::Syntax(curr.lexeme));
    }
    if *mode == Mode::Prolog {
        prog_output.append("\n   writeIn(");
        prog_output.append(curr.lexeme.as_str());
        prog_output.append("),");
    } else if *mode == Mode::Scheme {
        prog_output.append("(display ");
        prog_output.append(curr.lexeme.as_str());
        prog_output.append(")\n(newline)\n");
    }
    proof {
        assert(prog_output@ =~= out0 + spec_outputop_frag(*mode, curr@.lexeme));
        assert(toks_view(tokens@).len() == tokens@.len());
        assert(i < num_tokens);
    }
    Ok((i + 1, prog_output))
}

/// Apply the rule a list is made of, once.
fn rule_parser(
    start_index: usize,
    tokens: &Vec<Token>,
    rule: Rule,
    mode: &Mode,
    prog_output: String,
) -> (r: Result<(usize, String), TranslateError>)
    ensures
        match spec_rule(toks_view(tokens@), start_index as int, rule, *mode) {
            Ok((j, frag)) => r matches Ok(p) && p.0 == j && p.1@ == prog_output@ + frag,
            Err(e) => r matches Err(x) && x@ == e,
        },
{
    match rule {
        Rule::DataDef => datadef_parser(start_index, tokens, mode, prog_output),
        Rule::InputOp => inputop_parser(start_index, tokens, mode, prog_output),
        Rule::ProcessOp => processop_parser(start_index, tokens, mode, prog_output),
        Rule::OutputOp => outputop_parser(start_index, tokens, mode, prog_output),
    }
}

/// Parse a whole comma-separated, one-or-more list of the given rule:
/// the rule once, then again after every comma, appending each
/// fragment in source order.
pub fn special_parser(
    start_index: usize,
    tokens: &Vec<Token>,
    rule: Rule,
    mode: &Mode,
    prog_output: String,
) -> (r: Result<(usize, String), TranslateError>)
    ensures
        match spec_list(toks_view(tokens@), start_index as int, rule, *mode) {
            Ok((j, out)) => r matches Ok(p) && p.0 == j && p.1@ == prog_output@ + out,
            Err(e) => r matches Err(x) && x@ == e,
        },
{
    let ghost ts = toks_view(tokens@);
    let ghost out0 = prog_output@;
    let first = match rule_parser(start_index, tokens, rule, mode, prog_output) {
        Ok(p) => p,
        Err(e) => return Err(e),
    };
    let mut i = first.0;
    let mut acc = first.1;
    let ghost mut emitted: Seq<char> = match spec_rule(ts, start_index as int, rule, *mode) {
        Ok(p) => p.1,
        Err(_) => Seq::empty(),
    };
    proof {
        lemma_rule_advances(ts, start_index as int, rule, *mode);
    }
    let mut curr = match get_next_token(i, tokens) {
        Ok(t) => t,
        Err(e) => return Err(e),
    };
    while curr.kind == TokenKind::Comma
        invariant
            ts == toks_view(tokens@),
            (i as int) < ts.len(),
            curr@ == ts[i as int],
            acc@ == out0 + emitted,
            spec_list(ts, start_index as int, rule, *mode) == list_glue(
                emitted,
                spec_list_rest(ts, i as int, rule, *mode),
            ),
        decreases ts.len() - i,
    {
        let ghost i_comma = i as int;
        let ghost emitted_old = emitted;
        i = match increment_i(i, tokens.len()) {
            Ok(v) => v,
            Err(e) => return Err(e),
        };
        let ghost acc_prev = acc@;
        let stepped = match rule_parser(i, tokens, rule, mode, acc) {
            Ok(p) => p,
            Err(e) => return Err(e),
        };
        proof {
            lemma_rule_advances(ts, i_comma + 1, rule, *mode);
        }
        i = stepped.0;
        acc = stepped.1;
        proof {
            let fj: (int, Seq<char>) = match spec_rule(ts, i_comma + 1, rule, *mode) {
                Ok(p) => p,
                Err(_) => (0int, Seq::empty()),
            };
            let f = fj.1;
            emitted = emitted_old + f;
            assert(spec_list_rest(ts, i_comma, rule, *mode) == list_glue(
                f,
                spec_list_rest(ts, fj.0, rule, *mode),
            ));
            match spec_list_rest(ts, fj.0, rule, *mode) {
                Ok((k, o)) => {
                    assert(emitted_old + (f + o) =~= (emitted_old + f) + o);
                },
                Err(_) => {},
            }
            assert((out0 + emitted_old) + f =~= out0 + (emitted_old + f));
        }
        curr = match get_next_token(i, tokens) {
            Ok(t) => t,
            Err(e) => return Err(e),
        };
    }
    proof {
        assert(spec_list_rest(ts, i as int, rule, *mode) == Ok::<(int, Seq<char>), SpecError>(
            (i as int, Seq::empty()),
        ));
        assert(emitted + Seq::<char>::empty() =~= emitted);
    }
    Ok((i, acc))
}

/// Parse a whole program and return the accumulated target text: the
/// four sections in order, `end .` and nothing after it, with the
/// Prolog clause head seeded first and the separator fix-up applied
/// last.
#[verifier::rlimit(100)]
pub fn program_parser(tokens: Vec<Token>, mode: Mode, prog_output: String) -> (r: Result<
    String,
    TranslateError,
>)
    ensures
        match spec_program(toks_view(tokens@), mode) {
            Ok(out) => r matches Ok(s) && s@ == prog_output@ + out,
            Err(e) => r matches Err(x) && x@ == e,
        },
{
    let ghost ts = toks_view(tokens@);
    let ghost out0 = prog_output@;
    let num_tokens = tokens.len();
    let mut acc = prog_output;
    let mut i: usize = 0;
    if mode == Mode::Prolog {
        acc.append("main :-");
    }
    proof {
        assert(acc@ =~= out0 + spec_seed(mode));
    }
    let curr = match get_next_token(i, &tokens) {
        Ok(t) => t,
        Err(e) => return Err(e),
    };
    if curr.kind != TokenKind::Data {
        return Err(TranslateError::Syntax(curr.lexeme));
    }
    i = match increment_i(i, num_tokens) {
        Ok(v) => v,
        Err(e) => return Err(e),
    };
    let curr = match get_next_token(i, &tokens) {
        Ok(t) => t,
        Err(e) => return Err(e),
    };
    if curr.kind != TokenKind::Colon {
        return Err(TranslateError::Syntax(curr.lexeme));
    }
    i = match increment_i(i, num_tokens) {
        Ok(v) => v,
        Err(e) => return Err(e),
    };
    let ghost p_data = i as int;
    let res = match special_parser(i, &tokens, Rule::DataDef, &mode, acc) {
        Ok(p) => p,
        Err(e) => return Err(e),
    };
    i = res.0;
    acc = res.1;
    let ghost f_data: Seq<char> = match spec_list(ts, p_data, Rule::DataDef, mode) {
        Ok(p) => p.1,
        Err(_) => Seq::empty(),
    };
    let curr = match get_next_token(i, &tokens) {
        Ok(t) => t,
        Err(e) => return Err(e),
    };
    if curr.kind != TokenKind::Input {
        return Err(TranslateError::Syntax(curr.lexeme));
    }
    i = match increment_i(i, num_tokens) {
        Ok(v) => v,
        Err(e) => return Err(e),
    };
    let curr = match get_next_token(i, &tokens) {
        Ok(t) => t,
        Err(e) => return Err(e),
    };
    if curr.kind != TokenKind::Colon {
        return Err(TranslateError::Syntax(curr.lexeme));
    }
    i = match increment_i(i, num_tokens) {
        Ok(v) => v,
        Err(e) => return Err(e),
    };
    let ghost p_input = i as int;
    let res = match special_parser(i, &tokens, Rule::InputOp, &mode, acc) {
        Ok(p) => p,
        Err(e) => return Err(e),
    };
    i = res.0;
    acc = res.1;
    let ghost f_input: Seq<char> = match spec_list(ts, p_input, Rule::InputOp, mode) {
        Ok(p) => p.1,
        Err(_) => Seq::empty(),
    };
    let curr = match get_next_token(i, &tokens) {
        Ok(t) => t,
        Err(e) => return Err(e),
    };
    if curr.kind != TokenKind::Process {
        return Err(TranslateError::Syntax(curr.lexeme));
    }
    i = match increment_i(i, num_tokens) {
        Ok(v) => v,
        Err(e) => return Err(e),
    };
    let curr = match get_next_token(i, &tokens) {
        Ok(t) => t,
        Err(e) => return Err(e),
    };
    if curr.kind != TokenKind::Colon {
        return Err(TranslateError::Syntax(curr.lexeme));
    }
    i = match increment_i(i, num_tokens) {
        Ok(v) => v,
        Err(e) => return Err(e),
    };
    let ghost p_process = i as int;
    let res = match special_parser(i, &tokens, Rule::ProcessOp, &mode, acc) {
        Ok(p) => p,
        Err(e) => return Err(e),
    };
    i = res.0;
    acc = res.1;
    let ghost f_process: Seq<char> = match spec_list(ts, p_process, Rule::ProcessOp, mode) {
        Ok(p) => p.1,
        Err(_) => Seq::empty(),
    };
    let curr = match get_next_token(i, &tokens) {
        Ok(t) => t,
        Err(e) => return Err(e),
    };
    if curr.kind != TokenKind::Output {
        return Err(TranslateError::Syntax(curr.lexeme));
    }
    i = match increment_i(i, num_tokens) {
        Ok(v) => v,
        Err(e) => return Err(e),
    };
    let curr = match get_next_token(i, &tokens) {
        Ok(t) => t,
        Err(e) => return Err(e),
    };
    if curr.kind != TokenKind::Colon {
        return Err(TranslateError::Syntax(curr.lexeme));
    }
    i = match increment_i(i, num_tokens) {
        Ok(v) => v,
        Err(e) => return Err(e),
    };
    let ghost p_output = i as int;
    let res = match special_parser(i, &tokens, Rule::OutputOp, &mode, acc) {
        Ok(p) => p,
        Err(e) => return Err(e),
    };
    i = res.0;
    acc = res.1;
    let ghost f_output: Seq<char> = match spec_list(ts, p_output, Rule::OutputOp, mode) {
        Ok(p) => p.1,
        Err(_) => Seq::empty(),
    };
    let curr = match get_next_token(i, &tokens) {
        Ok(t) => t,
        Err(e) => return Err(e),
    };
    if curr.kind != TokenKind::End {
        return Err(TranslateError::Syntax(curr.lexeme));
    }
    i = match increment_i(i, num_tokens) {
        Ok(v) => v,
        Err(e) => return Err(e),
    };
    let curr = match get_next_token(i, &tokens) {
        Ok(t) => t,
        Err(e) => return Err(e),
    };
    if curr.kind != TokenKind::Period {
        return Err(TranslateError::Syntax(curr.lexeme));
    }
    let ghost x = spec_seed(mode) + f_data + f_input + (f_process + f_output);
    proof {
        assert(acc@ =~= out0 + x);
    }
    if mode == Mode::Prolog {
        proof {
            reveal_strlit("main :-");
        }
        let n_acc = acc.as_str().unicode_len();
        let trimmed = acc.as_str().substring_char(0, n_acc - 1).to_owned();
        acc = trimmed;
        acc.append(".");
        proof {
            assert((out0 + x).take((out0.len() + x.len()) - 1) =~= out0 + x.take(x.len() - 1));
            assert((out0 + x.take(x.len() - 1)) + "."@ =~= out0 + (x.take(x.len() - 1) + "."@));
        }
    }
    if i != num_tokens - 1 {
        return Err(TranslateError::TrailingContent);
    }
    proof {
        assert(acc@ =~= out0 + spec_finish(mode, x));
    }
    Ok(acc)
}

/// Translate a whole source text in the given mode: lex it, parse it
/// and return the emitted target text, or the first error.
pub fn translate(input: &str, mode: Mode) -> (r: Result<String, TranslateError>)
    ensures
        match spec_translate(input@, mode) {
            Ok(out) => r matches Ok(s) && s@ == out,
            Err(e) => r matches Err(x) && x@ == e,
        },
{
    let tokens = match lexer(input.to_owned()) {
        Ok(v) => v,
        Err(e) => return Err(e),
    };
    let r = program_parser(tokens, mode, String::new());
    proof {
        match spec_translate(input@, mode) {
            Ok(out) => {
                assert(Seq::<char>::empty() + out =~= out);
            },
            Err(_) => {},
        }
    }
    r
}

} // verus!
