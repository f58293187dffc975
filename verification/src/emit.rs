//! What each recognized rule instance emits, per output mode.
//!
//! Emission is not a separate pass: the parser appends one fragment
//! per recognized `inputop`, `processop` and `outputop`, in source
//! order.  These spec functions are the single definition of those
//! fragments; the executable parsers are proved to produce exactly
//! their concatenation.

use vstd::prelude::*;

use crate::token::Mode;
use crate::token::SpecToken;
use crate::token::TokenKind;

verus! {

/// What the accumulator holds before any fragment: the Prolog clause
/// head, or nothing.
pub open spec fn spec_seed(mode: Mode) -> Seq<char> {
    if mode == Mode::Prolog {
        "main :-"@
    } else {
        Seq::empty()
    }
}

/// The fragment of one `inputop`: `ID = read ( STRING , BOOL , NUM )`.
/// `b` is the whole boolean token: Prolog prints its lexeme, Scheme
/// only whether it was `true` or `false`.
pub open spec fn spec_inputop_frag(
    mode: Mode,
    id: Seq<char>,
    file: Seq<char>,
    b: SpecToken,
    num: Seq<char>,
) -> Seq<char> {
    match mode {
        Mode::Prolog => "\n   load_data_column("@ + file + ", "@ + b.lexeme + ", "@ + num + ", "@
            + id + "),"@,
        Mode::Scheme => "(define "@ + id + " (read-csv "@ + file + " #"@ + (if b.kind
            == TokenKind::True {
            "t"@
        } else {
            "f"@
        }) + " "@ + num + "))\n"@,
        Mode::Quiet => Seq::empty(),
    }
}

/// The fragment of a binary `processop`: `ID = FUNC ( P1 , P2 )`.
pub open spec fn spec_binary_frag(
    mode: Mode,
    func: Seq<char>,
    p1: Seq<char>,
    p2: Seq<char>,
    id: Seq<char>,
) -> Seq<char> {
    match mode {
        Mode::Prolog => "\n   "@ + func + "("@ + p1 + ", "@ + p2 + ", "@ + id + "),"@,
        Mode::Scheme => "(define "@ + id + " ("@ + func + " "@ + p1 + " "@ + p2 + "))\n"@,
        Mode::Quiet => Seq::empty(),
    }
}

/// The fragment of a unary `processop`: `ID = FUNC ( P1 )`.
pub open spec fn spec_unary_frag(mode: Mode, func: Seq<char>, p1: Seq<char>, id: Seq<char>) -> Seq<
    char,
> {
    match mode {
        Mode::Prolog => "\n   "@ + func + "("@ + p1 + ", "@ + id + "),"@,
        Mode::Scheme => "(define "@ + id + " ("@ + func + " "@ + p1 + "))\n"@,
        Mode::Quiet => Seq::empty(),
    }
}

/// The fragment of one `outputop`: a bare identifier or string
/// literal to print.
pub open spec fn spec_outputop_frag(mode: Mode, val: Seq<char>) -> Seq<char> {
    match mode {
        Mode::Prolog => "\n   writeIn("@ + val + "),"@,
        Mode::Scheme => "(display "@ + val + ")\n(newline)\n"@,
        Mode::Quiet => Seq::empty(),
    }
}

/// The fix-up at `end .`: in Prolog mode the trailing goal separator
/// is replaced with the clause-terminating period; other modes leave
/// the text as it stands.
pub open spec fn spec_finish(mode: Mode, acc: Seq<char>) -> Seq<char> {
    if mode == Mode::Prolog {
        if acc.len() > 0 {
            acc.take(acc.len() - 1) + "."@
        } else {
            "."@
        }
    } else {
        acc
    }
}

} // verus!
