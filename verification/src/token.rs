//! Tokens, output modes and error values, together with their
//! mathematical views.

use vstd::prelude::*;

verus! {

/// The closed set of token kinds: fifteen reserved words, six
/// punctuation marks and the three lexeme classes (identifier, number
/// literal, string literal).
#[derive(Clone, Copy, PartialEq, Eq, Structural, Debug)]
pub enum TokenKind {
    Data,
    Input,
    Process,
    Output,
    End,
    Id,
    Num,
    True,
    False,
    Read,
    Colon,
    Comma,
    Period,
    LParen,
    RParen,
    Assign,
    Vector,
    Number,
    RegressionA,
    RegressionB,
    Mean,
    StdDev,
    Correlation,
    StrLit,
}

/// A classified source fragment: its kind and the exact substring it
/// was scanned from.
#[derive(Debug)]
pub struct Token {
    pub kind: TokenKind,
    pub lexeme: String,
}

/// The mathematical value of a [`Token`]: the lexeme as a character
/// sequence.
pub struct SpecToken {
    pub kind: TokenKind,
    pub lexeme: Seq<char>,
}

impl View for Token {
    type V = SpecToken;

    open spec fn view(&self) -> SpecToken {
        SpecToken { kind: self.kind, lexeme: self.lexeme@ }
    }
}

/// The view of a token sequence: each token replaced by its view.
pub open spec fn toks_view(v: Seq<Token>) -> Seq<SpecToken> {
    v.map_values(|t: Token| t@)
}

/// Which target text the translation emits; fixed for a whole run.
#[derive(Clone, Copy, PartialEq, Eq, Structural, Debug)]
pub enum Mode {
    Prolog,
    Scheme,
    Quiet,
}

/// Why a translation was aborted.  The first violation ends the whole
/// run; there is no recovery and no partial result.
#[derive(Debug)]
pub enum TranslateError {
    /// A character no lexing rule accepts.
    UnrecognizedChar(char),
    /// A string literal that was not closed by `"`; carries the
    /// partial lexeme scanned so far, opening quote included.
    UnterminatedString(String),
    /// A token whose kind does not fit the grammar rule being read;
    /// carries the offending lexeme.
    Syntax(String),
    /// The parse would have to read past the last token: the program
    /// is truncated rather than wrong.
    Incomplete,
    /// Tokens remain after the terminal `end .`.
    TrailingContent,
}

/// The mathematical value of a [`TranslateError`].
pub enum SpecError {
    UnrecognizedChar(char),
    UnterminatedString(Seq<char>),
    Syntax(Seq<char>),
    Incomplete,
    TrailingContent,
}

impl View for TranslateError {
    type V = SpecError;

    open spec fn view(&self) -> SpecError {
        match self {
            TranslateError::UnrecognizedChar(c) => SpecError::UnrecognizedChar(*c),
            TranslateError::UnterminatedString(s) => SpecError::UnterminatedString(s@),
            TranslateError::Syntax(s) => SpecError::Syntax(s@),
            TranslateError::Incomplete => SpecError::Incomplete,
            TranslateError::TrailingContent => SpecError::TrailingContent,
        }
    }
}

impl TranslateError {
    /// The human-readable report for this error, in the style the
    /// surrounding tooling prints.
    pub fn message(&self) -> (r: String)
        ensures
            r@ == spec_message(self@),
    {
        let mut out: String = String::new();
        match self {
            TranslateError::UnrecognizedChar(c) => {
                out.append("; LEXICAL ERROR!\n; Unrecognized character '");
                let one: String = char_to_string(*c);
                out.append(one.as_str());
                out.append("'.");
            },
            TranslateError::UnterminatedString(s) => {
                out.append("; SYNTAX ERROR!\n; Expected '\"' after '");
                out.append(s.as_str());
                out.append("'.");
            },
            TranslateError::Syntax(s) => {
                out.append("; SYNTAX ERROR!\n; Syntax error at '");
                out.append(s.as_str());
                out.append("'.");
            },
            TranslateError::Incomplete => {
                out.append("; SYNTAX ERROR!\n; Program incomplete!");
            },
            TranslateError::TrailingContent => {
                out.append("; SYNTAX ERROR!\n; Unexpected characters after 'end.'");
            },
        }
        out
    }
}

/// The report text for each error value.
pub open spec fn spec_message(e: SpecError) -> Seq<char> {
    match e {
        SpecError::UnrecognizedChar(c) => "; LEXICAL ERROR!\n; Unrecognized character '"@ + seq![
            c,
        ] + "'."@,
        SpecError::UnterminatedString(s) => "; SYNTAX ERROR!\n; Expected '\"' after '"@ + s
            + "'."@,
        SpecError::Syntax(s) => "; SYNTAX ERROR!\n; Syntax error at '"@ + s + "'."@,
        SpecError::Incomplete => "; SYNTAX ERROR!\n; Program incomplete!"@,
        SpecError::TrailingContent => "; SYNTAX ERROR!\n; Unexpected characters after 'end.'"@,
    }
}

/// A one-character string holding exactly the given character.
fn char_to_string(c: char) -> (r: String)
    ensures
        r@ == seq![c],
{
    let mut out: String = String::new();
    push_char(&mut out, c);
    out
}

/// Relies on `String::push` from std: appends the given character to
/// the end of the string.
#[verifier::external_body]
fn push_char(s: &mut String, c: char)
    ensures
        final(s)@ == old(s)@ + seq![c],
{
    s.push(c);
}

} // verus!
