use datalang::parser::translate;
use datalang::token::Mode;
use datalang::token::TranslateError;

const MINIMAL: &str =
    "data: a:number input: a=read(\"f.csv\",true,5) process: b=mean(a) output: b end.";

#[test]
fn minimal_program_prolog() {
    let out = match translate(MINIMAL, Mode::Prolog) {
        Ok(s) => s,
        Err(e) => panic!("translation failed: {}", e.message()),
    };
    assert_eq!(
        out,
        "main :-\n   load_data_column(\"f.csv\", true, 5, a),\n   mean(a, b),\n   writeIn(b)."
    );
}

#[test]
fn minimal_program_scheme() {
    let out = match translate(MINIMAL, Mode::Scheme) {
        Ok(s) => s,
        Err(e) => panic!("translation failed: {}", e.message()),
    };
    assert_eq!(
        out,
        "(define a (read-csv \"f.csv\" #t 5))\n(define b (mean a))\n(display b)\n(newline)\n"
    );
}

#[test]
fn minimal_program_quiet_emits_nothing() {
    let out = translate(MINIMAL, Mode::Quiet).unwrap();
    assert_eq!(out, "");
}

#[test]
fn same_input_same_mode_identical_output() {
    let once = translate(MINIMAL, Mode::Prolog).unwrap();
    let twice = translate(MINIMAL, Mode::Prolog).unwrap();
    assert_eq!(once, twice);
    let s1 = translate(MINIMAL, Mode::Scheme).unwrap();
    let s2 = translate(MINIMAL, Mode::Scheme).unwrap();
    assert_eq!(s1, s2);
}

#[test]
fn vector_datadef_accepted_and_silent() {
    let with_vector = "data: a:number, raw:vector input: a=read(\"f.csv\",true,5) \
                       process: b=mean(a) output: b end.";
    let without = "data: a:number input: a=read(\"f.csv\",true,5) \
                   process: b=mean(a) output: b end.";
    let p1 = translate(with_vector, Mode::Prolog).unwrap();
    let p2 = translate(without, Mode::Prolog).unwrap();
    assert_eq!(p1, p2);
    let s1 = translate(with_vector, Mode::Scheme).unwrap();
    let s2 = translate(without, Mode::Scheme).unwrap();
    assert_eq!(s1, s2);
}

#[test]
fn output_string_with_digits_spaces_dot_equals() {
    let program = "data: a:number input: a=read(\"f.csv\",false,2) \
                   process: b=stddev(a) output: \"a=1.5 done\" end.";
    let out = translate(program, Mode::Prolog).unwrap();
    assert_eq!(
        out,
        "main :-\n   load_data_column(\"f.csv\", false, 2, a),\n   stddev(a, b),\n   writeIn(\"a=1.5 done\")."
    );
    let scheme = translate(program, Mode::Scheme).unwrap();
    assert_eq!(
        scheme,
        "(define a (read-csv \"f.csv\" #f 2))\n(define b (stddev a))\n(display \"a=1.5 done\")\n(newline)\n"
    );
}

#[test]
fn missing_final_period_is_incomplete() {
    let truncated =
        "data: a:number input: a=read(\"f.csv\",true,5) process: b=mean(a) output: b end";
    let err = translate(truncated, Mode::Prolog).unwrap_err();
    assert!(matches!(err, TranslateError::Incomplete));
    let err = translate(truncated, Mode::Quiet).unwrap_err();
    assert!(matches!(err, TranslateError::Incomplete));
}

#[test]
fn unknown_function_is_syntax_error_naming_it() {
    let program =
        "data: a:number input: a=read(\"f.csv\",true,5) process: x=badfunc(a) output: x end.";
    let err = translate(program, Mode::Prolog).unwrap_err();
    match err {
        TranslateError::Syntax(lexeme) => assert_eq!(lexeme, "badfunc"),
        _ => panic!("expected a syntax error"),
    }
}

#[test]
fn trailing_tokens_after_end_rejected() {
    let program =
        "data: a:number input: a=read(\"f.csv\",true,5) process: b=mean(a) output: b end. b";
    let err = translate(program, Mode::Prolog).unwrap_err();
    assert!(matches!(err, TranslateError::TrailingContent));
}

#[test]
fn empty_section_list_rejected() {
    // The datadef list must consume one item before any comma check:
    // `input` in item position is a syntax error naming `input`.
    let program = "data: input: a=read(\"f.csv\",true,5) process: b=mean(a) output: b end.";
    let err = translate(program, Mode::Prolog).unwrap_err();
    match err {
        TranslateError::Syntax(lexeme) => assert_eq!(lexeme, "input"),
        _ => panic!("expected a syntax error"),
    }
}

#[test]
fn lone_comma_does_not_end_a_list() {
    // After a comma the rule must apply again: `input` cannot follow.
    let program =
        "data: a:number, input: a=read(\"f.csv\",true,5) process: b=mean(a) output: b end.";
    let err = translate(program, Mode::Prolog).unwrap_err();
    match err {
        TranslateError::Syntax(lexeme) => assert_eq!(lexeme, "input"),
        _ => panic!("expected a syntax error"),
    }
}

#[test]
fn every_op_emits_one_fragment_in_source_order() {
    let program = "data: x:vector, y:vector \
                   input: x=read(\"x.csv\",true,1), y=read(\"y.csv\",false,2) \
                   process: m=mean(x), s=stddev(y), r=regressiona(x,y), \
                   q=regressionb(x,y), c=correlation(x,y) \
                   output: m, s, r, q, c end.";
    let out = translate(program, Mode::Prolog).unwrap();
    assert_eq!(
        out,
        "main :-\
         \n   load_data_column(\"x.csv\", true, 1, x),\
         \n   load_data_column(\"y.csv\", false, 2, y),\
         \n   mean(x, m),\
         \n   stddev(y, s),\
         \n   regressiona(x, y, r),\
         \n   regressionb(x, y, q),\
         \n   correlation(x, y, c),\
         \n   writeIn(m),\
         \n   writeIn(s),\
         \n   writeIn(r),\
         \n   writeIn(q),\
         \n   writeIn(c)."
    );
    let scheme = translate(program, Mode::Scheme).unwrap();
    assert_eq!(
        scheme,
        "(define x (read-csv \"x.csv\" #t 1))\n\
         (define y (read-csv \"y.csv\" #f 2))\n\
         (define m (mean x))\n\
         (define s (stddev y))\n\
         (define r (regressiona x y))\n\
         (define q (regressionb x y))\n\
         (define c (correlation x y))\n\
         (display m)\n(newline)\n\
         (display s)\n(newline)\n\
         (display r)\n(newline)\n\
         (display q)\n(newline)\n\
         (display c)\n(newline)\n"
    );
}

#[test]
fn missing_section_keyword_rejected() {
    let program = "data: a:number process: b=mean(a) output: b end.";
    let err = translate(program, Mode::Scheme).unwrap_err();
    match err {
        TranslateError::Syntax(lexeme) => assert_eq!(lexeme, "process"),
        _ => panic!("expected a syntax error"),
    }
}

#[test]
fn unary_function_rejects_two_arguments() {
    let program =
        "data: a:number input: a=read(\"f.csv\",true,5) process: b=mean(a,a) output: b end.";
    let err = translate(program, Mode::Prolog).unwrap_err();
    match err {
        TranslateError::Syntax(lexeme) => assert_eq!(lexeme, ","),
        _ => panic!("expected a syntax error"),
    }
}

#[test]
fn binary_function_rejects_one_argument() {
    let program =
        "data: a:number input: a=read(\"f.csv\",true,5) process: b=correlation(a) output: b end.";
    let err = translate(program, Mode::Prolog).unwrap_err();
    match err {
        TranslateError::Syntax(lexeme) => assert_eq!(lexeme, ")"),
        _ => panic!("expected a syntax error"),
    }
}

#[test]
fn empty_input_is_incomplete() {
    let err = translate("", Mode::Prolog).unwrap_err();
    assert!(matches!(err, TranslateError::Incomplete));
    let err = translate("   \n\t ", Mode::Scheme).unwrap_err();
    assert!(matches!(err, TranslateError::Incomplete));
}
