use datalang::lexer::lexer;
use datalang::parser::get_next_token;
use datalang::parser::increment_i;
use datalang::parser::Rule;
use datalang::parser::special_parser;
use datalang::parser::datadef_parser;
use datalang::parser::inputop_parser;
use datalang::parser::outputop_parser;
use datalang::parser::processop_parser;
use datalang::parser::program_parser;
use datalang::token::Mode;
use datalang::token::Token;
use datalang::token::TokenKind;
use datalang::token::TranslateError;

fn lex(input: &str) -> Vec<Token> {
    match lexer(input.to_string()) {
        Ok(v) => v,
        Err(e) => panic!("lexing failed: {}", e.message()),
    }
}

#[test]
fn keywords_punctuation_and_classes() {
    let toks = lex("data input process output end true false read vector number \
                    regressiona regressionb mean stddev correlation x 42 \"s\" : , . ( ) =");
    let kinds: Vec<TokenKind> = toks.iter().map(|t| t.kind).collect();
    assert_eq!(
        kinds,
        vec![
            TokenKind::Data,
            TokenKind::Input,
            TokenKind::Process,
            TokenKind::Output,
            TokenKind::End,
            TokenKind::True,
            TokenKind::False,
            TokenKind::Read,
            TokenKind::Vector,
            TokenKind::Number,
            TokenKind::RegressionA,
            TokenKind::RegressionB,
            TokenKind::Mean,
            TokenKind::StdDev,
            TokenKind::Correlation,
            TokenKind::Id,
            TokenKind::Num,
            TokenKind::StrLit,
            TokenKind::Colon,
            TokenKind::Comma,
            TokenKind::Period,
            TokenKind::LParen,
            TokenKind::RParen,
            TokenKind::Assign,
        ]
    );
}

#[test]
fn keyword_prefix_is_an_identifier() {
    // Longest match first, keyword lookup after: `meanx` is one ID,
    // never `mean` followed by `x`.
    let toks = lex("meanx");
    assert_eq!(toks.len(), 1);
    assert_eq!(toks[0].kind, TokenKind::Id);
    assert_eq!(toks[0].lexeme, "meanx");
}

#[test]
fn maximal_digit_run_is_one_number() {
    let toks = lex("12345 6");
    assert_eq!(toks.len(), 2);
    assert_eq!(toks[0].kind, TokenKind::Num);
    assert_eq!(toks[0].lexeme, "12345");
    assert_eq!(toks[1].lexeme, "6");
}

#[test]
fn string_literal_with_digits_spaces_dot_equals_is_one_token() {
    let toks = lex("\"a=1.5 done\"");
    assert_eq!(toks.len(), 1);
    assert_eq!(toks[0].kind, TokenKind::StrLit);
    assert_eq!(toks[0].lexeme, "\"a=1.5 done\"");
}

#[test]
fn whitespace_produces_no_tokens() {
    let toks = lex("  \t\n\r  a \n b  ");
    assert_eq!(toks.len(), 2);
    assert_eq!(toks[0].lexeme, "a");
    assert_eq!(toks[1].lexeme, "b");
}

#[test]
fn unrecognized_character_is_a_lexical_error() {
    let err = lexer("data: A".to_string()).unwrap_err();
    match err {
        TranslateError::UnrecognizedChar(c) => assert_eq!(c, 'A'),
        _ => panic!("expected an unrecognized-character error"),
    }
    let err = lexer("x = read(\"f\");".to_string()).unwrap_err();
    assert!(matches!(err, TranslateError::UnrecognizedChar(';')));
}

#[test]
fn unterminated_string_is_a_lexical_error() {
    let err = lexer("\"abc".to_string()).unwrap_err();
    match err {
        TranslateError::UnterminatedString(partial) => assert_eq!(partial, "\"abc"),
        _ => panic!("expected an unterminated-string error"),
    }
    // An uppercase letter may not stand inside a string literal.
    let err = lexer("\"aB\"".to_string()).unwrap_err();
    match err {
        TranslateError::UnterminatedString(partial) => assert_eq!(partial, "\"a"),
        _ => panic!("expected an unterminated-string error"),
    }
}

#[test]
fn error_messages_name_the_offender() {
    assert_eq!(
        TranslateError::UnrecognizedChar('@').message(),
        "; LEXICAL ERROR!\n; Unrecognized character '@'."
    );
    assert_eq!(
        TranslateError::UnterminatedString("\"ab".to_string()).message(),
        "; SYNTAX ERROR!\n; Expected '\"' after '\"ab'."
    );
    assert_eq!(
        TranslateError::Syntax("badfunc".to_string()).message(),
        "; SYNTAX ERROR!\n; Syntax error at 'badfunc'."
    );
    assert_eq!(
        TranslateError::Incomplete.message(),
        "; SYNTAX ERROR!\n; Program incomplete!"
    );
    assert_eq!(
        TranslateError::TrailingContent.message(),
        "; SYNTAX ERROR!\n; Unexpected characters after 'end.'"
    );
}

#[test]
fn cursor_peek_and_advance() {
    let toks = lex("a : number");
    let t = get_next_token(0, &toks).unwrap();
    assert_eq!(t.kind, TokenKind::Id);
    assert_eq!(t.lexeme, "a");
    let t = get_next_token(2, &toks).unwrap();
    assert_eq!(t.kind, TokenKind::Number);
    assert!(matches!(
        get_next_token(3, &toks),
        Err(TranslateError::Incomplete)
    ));
    assert_eq!(increment_i(0, 3).unwrap(), 1);
    assert_eq!(increment_i(1, 3).unwrap(), 2);
    // The last token may never be stepped past.
    assert!(matches!(increment_i(2, 3), Err(TranslateError::Incomplete)));
    assert!(matches!(increment_i(0, 0), Err(TranslateError::Incomplete)));
}

#[test]
fn datadef_rule_checks_shape_and_emits_nothing() {
    let toks = lex("a : vector ,");
    let (next, out) = datadef_parser(0, &toks, &Mode::Prolog, String::new()).unwrap();
    assert_eq!(next, 3);
    assert_eq!(out, "");
    let toks = lex("a : read ,");
    let err = datadef_parser(0, &toks, &Mode::Prolog, String::new()).unwrap_err();
    match err {
        TranslateError::Syntax(lexeme) => assert_eq!(lexeme, "read"),
        _ => panic!("expected a syntax error"),
    }
}

#[test]
fn inputop_rule_emits_its_fragment() {
    let toks = lex("a = read ( \"f.csv\" , true , 5 ) ,");
    let (next, out) = inputop_parser(0, &toks, &Mode::Prolog, String::new()).unwrap();
    assert_eq!(next, 10);
    assert_eq!(out, "\n   load_data_column(\"f.csv\", true, 5, a),");
    let (_, out) = inputop_parser(0, &toks, &Mode::Scheme, String::new()).unwrap();
    assert_eq!(out, "(define a (read-csv \"f.csv\" #t 5))\n");
    let (_, out) = inputop_parser(0, &toks, &Mode::Quiet, String::from("kept")).unwrap();
    assert_eq!(out, "kept");
}

#[test]
fn processop_rule_emits_its_fragment() {
    let toks = lex("r = regressionb ( a , b ) output");
    let (next, out) = processop_parser(0, &toks, &Mode::Prolog, String::new()).unwrap();
    assert_eq!(next, 8);
    assert_eq!(out, "\n   regressionb(a, b, r),");
    let (_, out) = processop_parser(0, &toks, &Mode::Scheme, String::new()).unwrap();
    assert_eq!(out, "(define r (regressionb a b))\n");
    let toks = lex("m = stddev ( a ) output");
    let (next, out) = processop_parser(0, &toks, &Mode::Scheme, String::new()).unwrap();
    assert_eq!(next, 6);
    assert_eq!(out, "(define m (stddev a))\n");
}

#[test]
fn outputop_rule_emits_its_fragment() {
    let toks = lex("b end");
    let (next, out) = outputop_parser(0, &toks, &Mode::Prolog, String::new()).unwrap();
    assert_eq!(next, 1);
    assert_eq!(out, "\n   writeIn(b),");
    let toks = lex("\"done\" end");
    let (_, out) = outputop_parser(0, &toks, &Mode::Scheme, String::new()).unwrap();
    assert_eq!(out, "(display \"done\")\n(newline)\n");
}

#[test]
fn list_driver_applies_rule_after_each_comma() {
    let toks = lex("a : vector , b : number , c : vector input");
    let (next, out) = special_parser(0, &toks, Rule::DataDef, &Mode::Prolog, String::new()).unwrap();
    assert_eq!(next, 11);
    assert_eq!(out, "");
    let toks = lex("a , \"x\" , b end");
    let (next, out) =
        special_parser(0, &toks, Rule::OutputOp, &Mode::Scheme, String::new()).unwrap();
    assert_eq!(next, 5);
    assert_eq!(
        out,
        "(display a)\n(newline)\n(display \"x\")\n(newline)\n(display b)\n(newline)\n"
    );
}

#[test]
fn program_parser_keeps_the_given_prefix() {
    let toks = lex("data: a:number input: a=read(\"f.csv\",true,5) process: b=mean(a) output: b end.");
    let out = program_parser(toks, Mode::Scheme, String::from("; header\n")).unwrap();
    assert_eq!(
        out,
        "; header\n(define a (read-csv \"f.csv\" #t 5))\n(define b (mean a))\n(display b)\n(newline)\n"
    );
}
