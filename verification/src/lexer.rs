//! The lexer: from raw source text to the token sequence.
//!
//! Scanning is specified by [`spec_lex_from`], a recursive function
//! over the character sequence of the input.  At each position it
//! applies, in order: single-character punctuation; a maximal run of
//! lowercase letters (a reserved word or an identifier); a maximal run
//! of digits; a string literal; whitespace; anything else is a lexical
//! error.  The executable [`lexer`] is proved to return exactly what
//! the specification says, for every input.

use vstd::prelude::*;
use vstd::string::*;

use crate::token::SpecError;
use crate::token::SpecToken;
use crate::token::Token;
use crate::token::TokenKind;
use crate::token::TranslateError;
use crate::token::toks_view;

verus! {

/// A lowercase ASCII letter.
pub open spec fn is_lower(c: char) -> bool {
    97 <= (c as u32) && (c as u32) <= 122
}

/// An ASCII digit.
pub open spec fn is_digit(c: char) -> bool {
    48 <= (c as u32) && (c as u32) <= 57
}

/// ASCII whitespace: space, tab, line feed, form feed, carriage
/// return.
pub open spec fn is_space(c: char) -> bool {
    c == ' ' || c == '\t' || c == '\n' || (c as u32) == 12 || c == '\r'
}

/// One of the six single-character punctuation marks.
pub open spec fn is_punct(c: char) -> bool {
    c == ':' || c == ',' || c == '.' || c == '(' || c == ')' || c == '='
}

/// The token kind of a punctuation character.
pub open spec fn punct_kind(c: char) -> TokenKind {
    if c == ':' {
        TokenKind::Colon
    } else if c == ',' {
        TokenKind::Comma
    } else if c == '.' {
        TokenKind::Period
    } else if c == '(' {
        TokenKind::LParen
    } else if c == ')' {
        TokenKind::RParen
    } else {
        TokenKind::Assign
    }
}

/// A character allowed inside a string literal, between the quotes.
pub open spec fn is_str_body(c: char) -> bool {
    is_lower(c) || is_space(c) || is_digit(c) || c == '.' || c == '='
}

/// The kind of a maximal lowercase run: one of the fifteen reserved
/// words, or an identifier.  Reserved-word status is decided only
/// after the whole run is known.
pub open spec fn kw_kind(lex: Seq<char>) -> TokenKind {
    if lex == "data"@ {
        TokenKind::Data
    } else if lex == "input"@ {
        TokenKind::Input
    } else if lex == "process"@ {
        TokenKind::Process
    } else if lex == "output"@ {
        TokenKind::Output
    } else if lex == "end"@ {
        TokenKind::End
    } else if lex == "true"@ {
        TokenKind::True
    } else if lex == "false"@ {
        TokenKind::False
    } else if lex == "read"@ {
        TokenKind::Read
    } else if lex == "vector"@ {
        TokenKind::Vector
    } else if lex == "number"@ {
        TokenKind::Number
    } else if lex == "regressiona"@ {
        TokenKind::RegressionA
    } else if lex == "regressionb"@ {
        TokenKind::RegressionB
    } else if lex == "mean"@ {
        TokenKind::Mean
    } else if lex == "stddev"@ {
        TokenKind::StdDev
    } else if lex == "correlation"@ {
        TokenKind::Correlation
    } else {
        TokenKind::Id
    }
}

/// The lowercase-letter predicate, as a single named value so that
/// every spec and proof speaks of the same function.
pub open spec fn lower_pred() -> spec_fn(char) -> bool {
    |ch: char| is_lower(ch)
}

/// The digit predicate.
pub open spec fn digit_pred() -> spec_fn(char) -> bool {
    |ch: char| is_digit(ch)
}

/// The string-literal-body predicate.
pub open spec fn str_body_pred() -> spec_fn(char) -> bool {
    |ch: char| is_str_body(ch)
}

/// First position at or after `i` whose character fails `pred`, or
/// the end of `s`: the end of the maximal `pred`-run starting at `i`.
pub open spec fn run_end(s: Seq<char>, i: int, pred: spec_fn(char) -> bool) -> int
    decreases s.len() - i,
{
    if i < 0 || i >= s.len() || !pred(s[i]) {
        i
    } else {
        run_end(s, i + 1, pred)
    }
}

/// The run end lies between `i` and the end of `s`; every character
/// of the run satisfies `pred`, and the character just past it (if
/// any) does not.
pub proof fn lemma_run_end(s: Seq<char>, i: int, pred: spec_fn(char) -> bool)
    requires
        0 <= i <= s.len(),
    ensures
        i <= run_end(s, i, pred) <= s.len(),
        forall|k: int| i <= k < run_end(s, i, pred) ==> pred(s[k]),
        run_end(s, i, pred) < s.len() ==> !pred(s[run_end(s, i, pred)]),
    decreases s.len() - i,
{
    if i < s.len() && pred(s[i]) {
        lemma_run_end(s, i + 1, pred);
    }
}

/// A run that covers `[i, j)` and stops at `j` has its end exactly at
/// `j`.
pub proof fn lemma_run_end_is(s: Seq<char>, i: int, j: int, pred: spec_fn(char) -> bool)
    requires
        0 <= i <= j <= s.len(),
        forall|k: int| i <= k < j ==> pred(s[k]),
        j < s.len() ==> !pred(s[j]),
    ensures
        run_end(s, i, pred) == j,
    decreases j - i,
{
    if i < j {
        assert(pred(s[i]));
        lemma_run_end_is(s, i + 1, j, pred);
    }
}

/// The token scanned from position `i`, as (token, next position), or
/// the error, or `None` when position `i` holds whitespace (skip one
/// character, no token).
pub open spec fn spec_scan(s: Seq<char>, i: int) -> Result<Option<(SpecToken, int)>, SpecError>
    recommends
        0 <= i < s.len(),
{
    let c = s[i];
    if is_punct(c) {
        Ok(Some((SpecToken { kind: punct_kind(c), lexeme: seq![c] }, i + 1)))
    } else if is_lower(c) {
        let j = run_end(s, i, lower_pred());
        let lex = s.subrange(i, j);
        Ok(Some((SpecToken { kind: kw_kind(lex), lexeme: lex }, j)))
    } else if is_digit(c) {
        let j = run_end(s, i, digit_pred());
        Ok(Some((SpecToken { kind: TokenKind::Num, lexeme: s.subrange(i, j) }, j)))
    } else if c == '"' {
        let j = run_end(s, i + 1, str_body_pred());
        if j < s.len() && s[j] == '"' {
            Ok(Some((SpecToken { kind: TokenKind::StrLit, lexeme: s.subrange(i, j + 1) }, j + 1)))
        } else {
            Err(SpecError::UnterminatedString(s.subrange(i, j)))
        }
    } else if is_space(c) {
        Ok(None)
    } else {
        Err(SpecError::UnrecognizedChar(c))
    }
}

/// A successful scan step moves the position strictly forward and not
/// past the end.
pub proof fn lemma_scan_advances(s: Seq<char>, i: int)
    requires
        0 <= i < s.len(),
    ensures
        forall|t: SpecToken, j: int|
            spec_scan(s, i) == Ok::<_, SpecError>(Some((t, j))) ==> i < j <= s.len(),
{
    lemma_run_end(s, i, lower_pred());
    lemma_run_end(s, i, digit_pred());
    if i + 1 <= s.len() {
        lemma_run_end(s, i + 1, str_body_pred());
    }
}

/// The token sequence lexed from position `i` to the end of `s`, or
/// the first lexical error.
pub open spec fn spec_lex_from(s: Seq<char>, i: int) -> Result<Seq<SpecToken>, SpecError>
    decreases s.len() - i,
    via spec_lex_from_decreases
{
    if i < 0 || i >= s.len() {
        Ok(Seq::empty())
    } else {
        match spec_scan(s, i) {
            Err(e) => Err(e),
            Ok(None) => spec_lex_from(s, i + 1),
            Ok(Some((t, j))) => match spec_lex_from(s, j) {
                Err(e) => Err(e),
                Ok(rest) => Ok(seq![t] + rest),
            },
        }
    }
}

#[via_fn]
proof fn spec_lex_from_decreases(s: Seq<char>, i: int) {
    if 0 <= i < s.len() {
        lemma_scan_advances(s, i);
    }
}

/// The tokens already produced, glued to whatever lexing the rest of
/// the input yields.
pub open spec fn lex_prefix(pre: Seq<SpecToken>, rest: Result<Seq<SpecToken>, SpecError>) -> Result<
    Seq<SpecToken>,
    SpecError,
> {
    match rest {
        Ok(ts) => Ok(pre + ts),
        Err(e) => Err(e),
    }
}

/// Runtime test for [`is_lower`].
pub fn is_lower_char(c: char) -> (r: bool)
    ensures
        r == is_lower(c),
{
    let u = c as u32;
    97 <= u && u <= 122
}

/// Runtime test for [`is_digit`].
pub fn is_digit_char(c: char) -> (r: bool)
    ensures
        r == is_digit(c),
{
    let u = c as u32;
    48 <= u && u <= 57
}

/// Runtime test for [`is_space`].
pub fn is_space_char(c: char) -> (r: bool)
    ensures
        r == is_space(c),
{
    let u = c as u32;
    u == 32 || u == 9 || u == 10 || u == 12 || u == 13
}

/// Runtime test for [`is_str_body`].
pub fn is_str_body_char(c: char) -> (r: bool)
    ensures
        r == is_str_body(c),
{
    is_lower_char(c) || is_space_char(c) || is_digit_char(c) || c == '.' || c == '='
}

/// The kind of a punctuation character, or `None` for any other
/// character.
pub fn punct_lookup(c: char) -> (r: Option<TokenKind>)
    ensures
        match r {
            Some(k) => is_punct(c) && k == punct_kind(c),
            None => !is_punct(c),
        },
{
    if c == ':' {
        Some(TokenKind::Colon)
    } else if c == ',' {
        Some(TokenKind::Comma)
    } else if c == '.' {
        Some(TokenKind::Period)
    } else if c == '(' {
        Some(TokenKind::LParen)
    } else if c == ')' {
        Some(TokenKind::RParen)
    } else if c == '=' {
        Some(TokenKind::Assign)
    } else {
        None
    }
}

/// Character-by-character equality of two string slices.
pub fn str_eq(a: &str, b: &str) -> (r: bool)
    ensures
        r == (a@ == b@),
{
    let na = a.unicode_len();
    let nb = b.unicode_len();
    if na != nb {
        return false;
    }
    let mut k: usize = 0;
    while k < na
        invariant
            na == a@.len(),
            nb == b@.len(),
            na == nb,
            k <= na,
            forall|m: int| 0 <= m < k ==> a@[m] == b@[m],
        decreases na - k,
    {
        let ca = a.get_char(k);
        let cb = b.get_char(k);
        if ca != cb {
            return false;
        }
        k = k + 1;
    }
    proof {
        assert(a@ =~= b@);
    }
    true
}

/// Decide whether a maximal lowercase run is a reserved word, and
/// which, or an identifier.
pub fn keyword_lookup(lex: &str) -> (k: TokenKind)
    ensures
        k == kw_kind(lex@),
{
    if str_eq(lex, "data") {
        TokenKind::Data
    } else if str_eq(lex, "input") {
        TokenKind::Input
    } else if str_eq(lex, "process") {
        TokenKind::Process
    } else if str_eq(lex, "output") {
        TokenKind::Output
    } else if str_eq(lex, "end") {
        TokenKind::End
    } else if str_eq(lex, "true") {
        TokenKind::True
    } else if str_eq(lex, "false") {
        TokenKind::False
    } else if str_eq(lex, "read") {
        TokenKind::Read
    } else if str_eq(lex, "vector") {
        TokenKind::Vector
    } else if str_eq(lex, "number") {
        TokenKind::Number
    } else if str_eq(lex, "regressiona") {
        TokenKind::RegressionA
    } else if str_eq(lex, "regressionb") {
        TokenKind::RegressionB
    } else if str_eq(lex, "mean") {
        TokenKind::Mean
    } else if str_eq(lex, "stddev") {
        TokenKind::StdDev
    } else if str_eq(lex, "correlation") {
        TokenKind::Correlation
    } else {
        TokenKind::Id
    }
}

/// Scan the whole input into its token sequence, or report the first
/// lexical error, exactly as [`spec_lex_from`] describes.
pub fn lexer(input: String) -> (r: Result<Vec<Token>, TranslateError>)
    ensures
        match spec_lex_from(input@, 0) {
            Ok(ts) => r matches Ok(v) && toks_view(v@) == ts,
            Err(e) => r matches Err(x) && x@ == e,
        },
{
    let s_ref = input.as_str();
    let n = s_ref.unicode_len();
    let ghost s = input@;
    let mut out: Vec<Token> = Vec::new();
    let mut i: usize = 0;
    while i < n
        invariant
            s == input@,
            s_ref@ == s,
            n == s.len(),
            i <= n,
            spec_lex_from(s, 0) == lex_prefix(toks_view(out@), spec_lex_from(s, i as int)),
        decreases n - i,
    {
        let ghost i0 = i as int;
        let ghost pre = toks_view(out@);
        let c = s_ref.get_char(i);
        match punct_lookup(c) {
            Some(kind) => {
                let lex = s_ref.substring_char(i, i + 1).to_owned();
                let tok = Token { kind, lexeme: lex };
                proof {
                    assert(s.subrange(i0, i0 + 1) =~= seq![s[i0]]);
                }
                let ghost t = SpecToken { kind: punct_kind(c), lexeme: seq![c] };
                out.push(tok);
                i = i + 1;
                proof {
                    assert(spec_scan(s, i0) == Ok::<Option<(SpecToken, int)>, SpecError>(
                        Some((t, i0 + 1)),
                    ));
                    lemma_lex_step(s, pre, t, i0, i0 + 1);
                    assert(toks_view(out@) =~= pre + seq![t]);
                }
            },
            None => {
                if is_lower_char(c) {
                    let start = i;
                    let mut j = i + 1;
                    while j < n && is_lower_char(s_ref.get_char(j))
                        invariant
                            s_ref@ == s,
                            n == s.len(),
                            start < j <= n,
                            is_lower(s[start as int]),
                            forall|m: int| start <= m < j ==> is_lower(s[m]),
                        decreases n - j,
                    {
                        j = j + 1;
                    }
                    proof {
                        lemma_run_end_is(s, start as int, j as int, lower_pred());
                    }
                    let lex = s_ref.substring_char(start, j).to_owned();
                    let kind = keyword_lookup(lex.as_str());
                    let ghost t = SpecToken {
                        kind: kw_kind(s.subrange(start as int, j as int)),
                        lexeme: s.subrange(start as int, j as int),
                    };
                    out.push(Token { kind, lexeme: lex });
                    i = j;
                    proof {
                        assert(spec_scan(s, i0) == Ok::<Option<(SpecToken, int)>, SpecError>(
                            Some((t, j as int)),
                        ));
                        lemma_lex_step(s, pre, t, i0, j as int);
                        assert(toks_view(out@) =~= pre + seq![t]);
                    }
                } else if is_digit_char(c) {
                    let start = i;
                    let mut j = i + 1;
                    while j < n && is_digit_char(s_ref.get_char(j))
                        invariant
                            s_ref@ == s,
                            n == s.len(),
                            start < j <= n,
                            is_digit(s[start as int]),
                            forall|m: int| start <= m < j ==> is_digit(s[m]),
                        decreases n - j,
                    {
                        j = j + 1;
                    }
                    proof {
                        lemma_run_end_is(s, start as int, j as int, digit_pred());
                    }
                    let lex = s_ref.substring_char(start, j).to_owned();
                    let ghost t = SpecToken {
                        kind: TokenKind::Num,
                        lexeme: s.subrange(start as int, j as int),
                    };
                    out.push(Token { kind: TokenKind::Num, lexeme: lex });
                    i = j;
                    proof {
                        assert(spec_scan(s, i0) == Ok::<Option<(SpecToken, int)>, SpecError>(
                            Some((t, j as int)),
                        ));
                        lemma_lex_step(s, pre, t, i0, j as int);
                        assert(toks_view(out@) =~= pre + seq![t]);
                    }
                } else if c == '"' {
                    let start = i;
                    let mut j = i + 1;
                    while j < n && is_str_body_char(s_ref.get_char(j))
                        invariant
                            s_ref@ == s,
                            n == s.len(),
                            start < j <= n,
                            forall|m: int| start < m < j ==> is_str_body(s[m]),
                        decreases n - j,
                    {
                        j = j + 1;
                    }
                    proof {
                        lemma_run_end_is(s, start as int + 1, j as int, str_body_pred());
                    }
                    if j < n && s_ref.get_char(j) == '"' {
                        let lex = s_ref.substring_char(start, j + 1).to_owned();
                        let ghost t = SpecToken {
                            kind: TokenKind::StrLit,
                            lexeme: s.subrange(start as int, j as int + 1),
                        };
                        out.push(Token { kind: TokenKind::StrLit, lexeme: lex });
                        i = j + 1;
                        proof {
                            assert(spec_scan(s, i0) == Ok::<Option<(SpecToken, int)>, SpecError>(
                                Some((t, j as int + 1)),
                            ));
                            lemma_lex_step(s, pre, t, i0, j as int + 1);
                            assert(toks_view(out@) =~= pre + seq![t]);
                        }
                    } else {
                        let partial = s_ref.substring_char(start, j).to_owned();
                        proof {
                            assert(spec_scan(s, i0) == Err::<Option<(SpecToken, int)>, SpecError>(
                                SpecError::UnterminatedString(s.subrange(start as int, j as int)),
                            ));
                        }
                        return Err(TranslateError::UnterminatedString(partial));
                    }
                } else if is_space_char(c) {
                    i = i + 1;
                    proof {
                        assert(spec_scan(s, i0) == Ok::<Option<(SpecToken, int)>, SpecError>(None));
                        assert(spec_lex_from(s, i0) == spec_lex_from(s, i0 + 1));
                    }
                } else {
                    proof {
                        assert(spec_scan(s, i0) == Err::<Option<(SpecToken, int)>, SpecError>(
                            SpecError::UnrecognizedChar(c),
                        ));
                    }
                    return Err(TranslateError::UnrecognizedChar(c));
                }
            },
        }
    }
    proof {
        assert(spec_lex_from(s, n as int) == Ok::<Seq<SpecToken>, SpecError>(Seq::empty()));
        assert(toks_view(out@) + Seq::<SpecToken>::empty() =~= toks_view(out@));
    }
    Ok(out)
}

/// One scan step folds into the whole-input lexing: when scanning at
/// `i` yields token `t` ending at `j`, lexing from `i` is `t` in
/// front of lexing from `j`.
proof fn lemma_lex_step(s: Seq<char>, pre: Seq<SpecToken>, t: SpecToken, i: int, j: int)
    requires
        0 <= i < s.len(),
        spec_scan(s, i) == Ok::<Option<(SpecToken, int)>, SpecError>(Some((t, j))),
    ensures
        lex_prefix(pre, spec_lex_from(s, i)) == lex_prefix(pre + seq![t], spec_lex_from(s, j)),
{
    match spec_lex_from(s, j) {
        Ok(rest) => {
            assert(spec_lex_from(s, i) == Ok::<Seq<SpecToken>, SpecError>(seq![t] + rest));
            assert(pre + (seq![t] + rest) =~= (pre + seq![t]) + rest);
        },
        Err(e) => {
            assert(spec_lex_from(s, i) == Err::<Seq<SpecToken>, SpecError>(e));
        },
    }
}

} // verus!
