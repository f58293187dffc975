//! Laws of the translator, stated and proved over the specification
//! model that every executable function is already pinned to.
//!
//! The fragment-per-item decomposition says what shape the emitted
//! text always has; the remaining lemmas state determinism of the
//! whole translation, that `datadef`s emit nothing, and that a
//! comma-separated list always consumes at least one item.

use vstd::prelude::*;

use crate::emit::spec_finish;
use crate::emit::spec_seed;
use crate::parser::Rule;
use crate::parser::lemma_rule_advances;
use crate::parser::spec_expect;
use crate::parser::spec_list;
use crate::parser::spec_peek;
use crate::parser::spec_list_rest;
use crate::parser::spec_program;
use crate::parser::spec_program_tail;
use crate::parser::spec_rule;
use crate::parser::spec_translate;
use crate::token::Mode;
use crate::token::SpecError;
use crate::token::SpecToken;
use crate::token::TokenKind;

verus! {

/// All fragments of a list, concatenated in order.
pub open spec fn concat_frags(fs: Seq<Seq<char>>) -> Seq<char>
    decreases fs.len(),
{
    if fs.len() == 0 {
        Seq::empty()
    } else {
        fs[0] + concat_frags(fs.drop_first())
    }
}

/// Concatenating fragment lists concatenates their texts.
pub proof fn lemma_concat_frags_app(a: Seq<Seq<char>>, b: Seq<Seq<char>>)
    ensures
        concat_frags(a + b) == concat_frags(a) + concat_frags(b),
    decreases a.len(),
{
    if a.len() == 0 {
        assert(a + b =~= b);
        assert(Seq::<char>::empty() + concat_frags(b) =~= concat_frags(b));
    } else {
        lemma_concat_frags_app(a.drop_first(), b);
        assert((a + b).drop_first() =~= a.drop_first() + b);
        assert(a[0] + (concat_frags(a.drop_first()) + concat_frags(b)) =~= (a[0] + concat_frags(
            a.drop_first(),
        )) + concat_frags(b));
    }
}

/// The continuation of a list after its first item, as the sequence
/// of fragments its further items emit, one per item, in source
/// order.
pub open spec fn spec_list_rest_frags(ts: Seq<SpecToken>, i: int, rule: Rule, mode: Mode) -> Result<
    (int, Seq<Seq<char>>),
    SpecError,
>
    decreases ts.len() - i,
    via spec_list_rest_frags_decreases
{
    if !(0 <= i < ts.len()) {
        Err(SpecError::Incomplete)
    } else if ts[i].kind != TokenKind::Comma {
        Ok((i, Seq::empty()))
    } else if !(i + 1 < ts.len()) {
        Err(SpecError::Incomplete)
    } else {
        match spec_rule(ts, i + 1, rule, mode) {
            Err(e) => Err(e),
            Ok((j, f)) => match spec_list_rest_frags(ts, j, rule, mode) {
                Err(e) => Err(e),
                Ok((k, fs)) => Ok((k, seq![f] + fs)),
            },
        }
    }
}

#[via_fn]
proof fn spec_list_rest_frags_decreases(ts: Seq<SpecToken>, i: int, rule: Rule, mode: Mode) {
    lemma_rule_advances(ts, i + 1, rule, mode);
}

/// A whole list as the sequence of fragments its items emit, one per
/// item, in source order.
pub open spec fn spec_list_frags(ts: Seq<SpecToken>, i: int, rule: Rule, mode: Mode) -> Result<
    (int, Seq<Seq<char>>),
    SpecError,
> {
    match spec_rule(ts, i, rule, mode) {
        Err(e) => Err(e),
        Ok((j, f)) => match spec_list_rest_frags(ts, j, rule, mode) {
            Err(e) => Err(e),
            Ok((k, fs)) => Ok((k, seq![f] + fs)),
        },
    }
}

proof fn lemma_list_rest_frags(ts: Seq<SpecToken>, i: int, rule: Rule, mode: Mode)
    ensures
        match spec_list_rest(ts, i, rule, mode) {
            Ok((j, out)) => spec_list_rest_frags(ts, i, rule, mode) matches Ok(p) && p.0 == j && out
                == concat_frags(p.1),
            Err(e) => spec_list_rest_frags(ts, i, rule, mode) == Err::<(int, Seq<Seq<char>>),
                SpecError,
            >(e),
        },
    decreases ts.len() - i,
{
    if 0 <= i < ts.len() && ts[i].kind == TokenKind::Comma && i + 1 < ts.len() {
        match spec_rule(ts, i + 1, rule, mode) {
            Ok((j, f)) => {
                lemma_rule_advances(ts, i + 1, rule, mode);
                lemma_list_rest_frags(ts, j, rule, mode);
                match spec_list_rest_frags(ts, j, rule, mode) {
                    Ok((k, fs)) => {
                        assert((seq![f] + fs).drop_first() =~= fs);
                        assert(concat_frags(seq![f] + fs) == f + concat_frags(fs));
                    },
                    Err(_) => {},
                }
            },
            Err(_) => {},
        }
    } else if 0 <= i < ts.len() && ts[i].kind != TokenKind::Comma {
        assert(concat_frags(Seq::<Seq<char>>::empty()) == Seq::<char>::empty());
    }
}

/// The text a list emits decomposes exactly into one fragment per
/// recognized item, concatenated in source order, and there is at
/// least one item.
pub proof fn lemma_list_one_fragment_per_item(ts: Seq<SpecToken>, i: int, rule: Rule, mode: Mode)
    ensures
        match spec_list(ts, i, rule, mode) {
            Ok((j, out)) => spec_list_frags(ts, i, rule, mode) matches Ok(p) && p.0 == j && out
                == concat_frags(p.1) && p.1.len() >= 1,
            Err(e) => spec_list_frags(ts, i, rule, mode) == Err::<(int, Seq<Seq<char>>), SpecError>(
                e,
            ),
        },
{
    match spec_rule(ts, i, rule, mode) {
        Ok((j, f)) => {
            lemma_list_rest_frags(ts, j, rule, mode);
            match spec_list_rest_frags(ts, j, rule, mode) {
                Ok((k, fs)) => {
                    assert((seq![f] + fs).drop_first() =~= fs);
                    assert(concat_frags(seq![f] + fs) == f + concat_frags(fs));
                },
                Err(_) => {},
            }
        },
        Err(_) => {},
    }
}

/// A comma-separated list is never empty: it succeeds only by
/// consuming at least one item (the cursor moves strictly forward),
/// and where its rule fails on the first item the list fails the same
/// way, before looking for any comma.
pub proof fn lemma_list_consumes_first_item(ts: Seq<SpecToken>, i: int, rule: Rule, mode: Mode)
    ensures
        forall|j: int, out: Seq<char>|
            spec_list(ts, i, rule, mode) == Ok::<(int, Seq<char>), SpecError>((j, out)) ==> i < j
                <= ts.len(),
        forall|e: SpecError|
            spec_rule(ts, i, rule, mode) == Err::<(int, Seq<char>), SpecError>(e) ==> spec_list(
                ts,
                i,
                rule,
                mode,
            ) == Err::<(int, Seq<char>), SpecError>(e),
{
    lemma_rule_advances(ts, i, rule, mode);
    match spec_rule(ts, i, rule, mode) {
        Ok((j0, f)) => {
            lemma_list_rest_advances(ts, j0, rule, mode);
        },
        Err(_) => {},
    }
}

/// The continuation of a list never moves the cursor backwards, nor
/// past the end.
proof fn lemma_list_rest_advances(ts: Seq<SpecToken>, i: int, rule: Rule, mode: Mode)
    ensures
        forall|j: int, out: Seq<char>|
            spec_list_rest(ts, i, rule, mode) == Ok::<(int, Seq<char>), SpecError>((j, out)) ==> i
                <= j <= ts.len(),
    decreases ts.len() - i,
{
    if 0 <= i < ts.len() && ts[i].kind == TokenKind::Comma && i + 1 < ts.len() {
        match spec_rule(ts, i + 1, rule, mode) {
            Ok((j0, f)) => {
                lemma_rule_advances(ts, i + 1, rule, mode);
                lemma_list_rest_advances(ts, j0, rule, mode);
            },
            Err(_) => {},
        }
    }
}

/// A `datadef` list emits nothing, in every mode: the declared types
/// are checked for shape and discarded.
pub proof fn lemma_datadefs_emit_nothing(ts: Seq<SpecToken>, i: int, mode: Mode)
    ensures
        forall|j: int, out: Seq<char>|
            spec_list(ts, i, Rule::DataDef, mode) == Ok::<(int, Seq<char>), SpecError>((j, out))
                ==> out == Seq::<char>::empty(),
{
    match spec_rule(ts, i, Rule::DataDef, mode) {
        Ok((j0, f)) => {
            lemma_datadef_rest_emits_nothing(ts, j0, mode);
            match spec_list_rest(ts, j0, Rule::DataDef, mode) {
                Ok((k, o)) => {
                    assert(f + o =~= Seq::<char>::empty());
                },
                Err(_) => {},
            }
        },
        Err(_) => {},
    }
}

proof fn lemma_datadef_rest_emits_nothing(ts: Seq<SpecToken>, i: int, mode: Mode)
    ensures
        forall|j: int, out: Seq<char>|
            spec_list_rest(ts, i, Rule::DataDef, mode) == Ok::<(int, Seq<char>), SpecError>(
                (j, out),
            ) ==> out == Seq::<char>::empty(),
    decreases ts.len() - i,
{
    if 0 <= i < ts.len() && ts[i].kind == TokenKind::Comma && i + 1 < ts.len() {
        match spec_rule(ts, i + 1, Rule::DataDef, mode) {
            Ok((j0, f)) => {
                lemma_rule_advances(ts, i + 1, Rule::DataDef, mode);
                lemma_datadef_rest_emits_nothing(ts, j0, mode);
                match spec_list_rest(ts, j0, Rule::DataDef, mode) {
                    Ok((k, o)) => {
                        assert(f + o =~= Seq::<char>::empty());
                    },
                    Err(_) => {},
                }
            },
            Err(_) => {},
        }
    }
}

/// A whole program as the fragments of its `inputop`s, `processop`s
/// and `outputop`s, one per recognized op, in source order; the
/// `datadef` section is recognized but contributes none.
pub open spec fn spec_program_frags(ts: Seq<SpecToken>, mode: Mode) -> Result<
    Seq<Seq<char>>,
    SpecError,
> {
    match spec_expect(ts, 0, TokenKind::Data) {
        Err(e) => Err(e),
        Ok(i1) => match spec_expect(ts, i1, TokenKind::Colon) {
            Err(e) => Err(e),
            Ok(i2) => match spec_list(ts, i2, Rule::DataDef, mode) {
                Err(e) => Err(e),
                Ok((i3, _f)) => match spec_expect(ts, i3, TokenKind::Input) {
                    Err(e) => Err(e),
                    Ok(i4) => match spec_expect(ts, i4, TokenKind::Colon) {
                        Err(e) => Err(e),
                        Ok(i5) => match spec_list_frags(ts, i5, Rule::InputOp, mode) {
                            Err(e) => Err(e),
                            Ok((i6, in_fs)) => match spec_program_tail_frags(ts, i6, mode) {
                                Err(e) => Err(e),
                                Ok(rest_fs) => Ok(in_fs + rest_fs),
                            },
                        },
                    },
                },
            },
        },
    }
}

/// The fragments of the `process` and `output` sections.
pub open spec fn spec_program_tail_frags(ts: Seq<SpecToken>, i6: int, mode: Mode) -> Result<
    Seq<Seq<char>>,
    SpecError,
> {
    match spec_expect(ts, i6, TokenKind::Process) {
        Err(e) => Err(e),
        Ok(i7) => match spec_expect(ts, i7, TokenKind::Colon) {
            Err(e) => Err(e),
            Ok(i8) => match spec_list_frags(ts, i8, Rule::ProcessOp, mode) {
                Err(e) => Err(e),
                Ok((i9, pr_fs)) => match spec_expect(ts, i9, TokenKind::Output) {
                    Err(e) => Err(e),
                    Ok(i10) => match spec_expect(ts, i10, TokenKind::Colon) {
                        Err(e) => Err(e),
                        Ok(i11) => match spec_list_frags(ts, i11, Rule::OutputOp, mode) {
                            Err(e) => Err(e),
                            Ok((i12, out_fs)) => match spec_expect(ts, i12, TokenKind::End) {
                                Err(e) => Err(e),
                                Ok(i13) => match spec_peek(ts, i13) {
                                    Err(e) => Err(e),
                                    Ok(t_dot) => if t_dot.kind != TokenKind::Period {
                                        Err(SpecError::Syntax(t_dot.lexeme))
                                    } else if i13 != ts.len() - 1 {
                                        Err(SpecError::TrailingContent)
                                    } else {
                                        Ok(pr_fs + out_fs)
                                    },
                                },
                            },
                        },
                    },
                },
            },
        },
    }
}

/// The text a whole program emits is the seed followed by exactly
/// one fragment per recognized `inputop`,
/// `processop` and `outputop`, in source order, with the final
/// fix-up; there is at least one op of each of the three kinds.
pub proof fn lemma_one_fragment_per_op(ts: Seq<SpecToken>, mode: Mode)
    ensures
        match spec_program(ts, mode) {
            Ok(out) => spec_program_frags(ts, mode) matches Ok(frags) && frags.len() >= 3 && out
                == spec_finish(mode, spec_seed(mode) + concat_frags(frags)),
            Err(e) => spec_program_frags(ts, mode) == Err::<Seq<Seq<char>>, SpecError>(e),
        },
{
    match spec_expect(ts, 0, TokenKind::Data) {
        Err(_) => {},
        Ok(i1) => match spec_expect(ts, i1, TokenKind::Colon) {
            Err(_) => {},
            Ok(i2) => {
                lemma_datadefs_emit_nothing(ts, i2, mode);
                match spec_list(ts, i2, Rule::DataDef, mode) {
                    Err(_) => {},
                    Ok((i3, f_data)) => match spec_expect(ts, i3, TokenKind::Input) {
                        Err(_) => {},
                        Ok(i4) => match spec_expect(ts, i4, TokenKind::Colon) {
                            Err(_) => {},
                            Ok(i5) => {
                                lemma_list_one_fragment_per_item(ts, i5, Rule::InputOp, mode);
                                match spec_list(ts, i5, Rule::InputOp, mode) {
                                    Err(_) => {},
                                    Ok((i6, f_input)) => {
                                        lemma_tail_fragments(ts, i6, mode);
                                        match spec_program_tail(ts, i6, mode) {
                                            Err(_) => {},
                                            Ok(f_rest) => {
                                                let in_fs = spec_list_frags(
                                                    ts,
                                                    i5,
                                                    Rule::InputOp,
                                                    mode,
                                                )->Ok_0.1;
                                                let rest_fs = spec_program_tail_frags(
                                                    ts,
                                                    i6,
                                                    mode,
                                                )->Ok_0;
                                                lemma_concat_frags_app(in_fs, rest_fs);
                                                assert(spec_seed(mode) + f_data + f_input + f_rest
                                                    =~= spec_seed(mode) + concat_frags(
                                                    in_fs + rest_fs,
                                                ));
                                            },
                                        }
                                    },
                                }
                            },
                        },
                    },
                }
            },
        },
    }
}

/// The `process` and `output` sections emit exactly the
/// concatenation of their per-op fragments.
proof fn lemma_tail_fragments(ts: Seq<SpecToken>, i6: int, mode: Mode)
    ensures
        match spec_program_tail(ts, i6, mode) {
            Ok(out) => spec_program_tail_frags(ts, i6, mode) matches Ok(fs) && fs.len() >= 2 && out
                == concat_frags(fs),
            Err(e) => spec_program_tail_frags(ts, i6, mode) == Err::<Seq<Seq<char>>, SpecError>(e),
        },
{
    match spec_expect(ts, i6, TokenKind::Process) {
        Err(_) => {},
        Ok(i7) => match spec_expect(ts, i7, TokenKind::Colon) {
            Err(_) => {},
            Ok(i8) => {
                lemma_list_one_fragment_per_item(ts, i8, Rule::ProcessOp, mode);
                match spec_list(ts, i8, Rule::ProcessOp, mode) {
                    Err(_) => {},
                    Ok((i9, f_process)) => match spec_expect(ts, i9, TokenKind::Output) {
                        Err(_) => {},
                        Ok(i10) => match spec_expect(ts, i10, TokenKind::Colon) {
                            Err(_) => {},
                            Ok(i11) => {
                                lemma_list_one_fragment_per_item(ts, i11, Rule::OutputOp, mode);
                                match spec_list(ts, i11, Rule::OutputOp, mode) {
                                    Err(_) => {},
                                    Ok((i12, f_output)) => {
                                        let pr_fs = spec_list_frags(
                                            ts,
                                            i8,
                                            Rule::ProcessOp,
                                            mode,
                                        )->Ok_0.1;
                                        let out_fs = spec_list_frags(
                                            ts,
                                            i11,
                                            Rule::OutputOp,
                                            mode,
                                        )->Ok_0.1;
                                        lemma_concat_frags_app(pr_fs, out_fs);
                                    },
                                }
                            },
                        },
                    },
                }
            },
        },
    }
}

/// Translating the same input twice with the same mode yields the
/// same output, byte for byte: the whole translation is a function of
/// the input text and the mode alone.
pub proof fn lemma_translate_deterministic(
    s: Seq<char>,
    mode: Mode,
    r1: Result<Seq<char>, SpecError>,
    r2: Result<Seq<char>, SpecError>,
)
    requires
        r1 == spec_translate(s, mode),
        r2 == spec_translate(s, mode),
    ensures
        r1 == r2,
{
}

} // verus!
