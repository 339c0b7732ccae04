use imp::parse::parse;

fn check(src: &str, expected: &str) {
    assert_eq!(parse(src).unwrap().sexp(), expected);
}

#[test]
fn parse_basic() {
    check("skip", "skip");
    check("true", "true");
    check("false", "false");
    check("123", "123");
    check("-123", "-123");
    check("!a", "!a");
}

#[test]
fn parse_assignment() {
    check("a := 1", "(:= a 1)");
    check("a := 1 + 2", "(:= a (+ 1 2))");
    check("a := (b := 1; !b)", "(:= a (; (:= b 1) !b))");
    check("a := if !cond then 1 else 2", "(:= a (if !cond 1 2))");
}

#[test]
fn parse_operation() {
    check("1 + 2", "(+ 1 2)");
    check("1 + 2 + 3", "(+ (+ 1 2) 3)");
    check("1 >= 2", "(>= 1 2)");
    check("1 + 2 >= 3 + 4", "(>= (+ 1 2) (+ 3 4))");
    check("(1 + 2 >= 3) + 4", "(+ (>= (+ 1 2) 3) 4)");
}

#[test]
fn parse_if() {
    check("if 1 then 2 else 3", "(if 1 2 3)");
}

#[test]
fn parse_while() {
    check("while 1 do 2", "(while 1 2)");
}

#[test]
fn parse_complex() {
    check(
        "i := 0; a := 10; b := 0; while !a >= !b + 2 do (a := !b + 5; i := !i + 1); a := 0",
        "(; (:= i 0) (:= a 10) (:= b 0) (while (>= !a (+ !b 2)) (; (:= a (+ !b 5)) (:= i (+ !i 1)))) (:= a 0))",
    );

    check(
        "while 10 >= !i do if !b then a := 1 else a := 2; a := 3",
        "(; (while (>= 10 !i) (if !b (:= a 1) (:= a 2))) (:= a 3))",
    );

    check(
        "while 10 >= !i do (if !b then a := 1 else a := 2; a := 3)",
        "(while (>= 10 !i) (; (if !b (:= a 1) (:= a 2)) (:= a 3)))",
    );

    check(
        "while 10 >= !i do if !b then a := 1 else (a := 2; a := 3)",
        "(while (>= 10 !i) (if !b (:= a 1) (; (:= a 2) (:= a 3))))",
    );
}

#[test]
fn parse_whitespace_insignificant() {
    check("  a := 1  ", "(:= a 1)");
    check("1+2", "(+ 1 2)");
    check("a:=(b:=1;!b)", "(:= a (; (:= b 1) !b))");
    check("\tif true\nthen 1 else 2", "(if true 1 2)");
}

#[test]
fn parse_integer_limits() {
    check("9223372036854775807", "9223372036854775807");
    check("-9223372036854775808", "-9223372036854775808");
    check("0007", "7");
    assert!(parse("9223372036854775808").is_err());
    assert!(parse("-9223372036854775809").is_err());
}

#[test]
fn parse_rejects_malformed() {
    assert!(parse("").is_err());
    assert!(parse("   ").is_err());
    assert!(parse("1 +").is_err());
    assert!(parse("(1; 2").is_err());
    assert!(parse("a :=").is_err());
    assert!(parse("if 1 then 2").is_err());
    assert!(parse("while 1").is_err());
    assert!(parse("!").is_err());
    assert!(parse("skipx").is_err());
    assert!(parse("1; ").is_err());
}

#[test]
fn parse_error_reports_position() {
    let err = parse("1 + 2 )").unwrap_err();
    assert!(err.position <= 7);
    assert_eq!(parse("skipx").unwrap_err().position, 4);
}

#[test]
fn infix_round_trip() {
    // The infix rendering writes an assignment with `=` and never wraps an
    // operation in parentheses, so the round trip covers programs free of
    // assignments and of operations nested against precedence.
    let programs = [
        "skip",
        "true",
        "-5",
        "!x",
        "1 + 2 >= 3 + 4",
        "while 10 >= !i do 1 + 2",
        "if !b then 1 else 2",
        "1; 2; 3",
        "while 10 >= !i do if !b then 1 else 2; 3",
    ];
    for src in programs {
        let first = parse(src).unwrap();
        let rendered = first.display();
        let second = parse(rendered.as_str()).unwrap();
        assert_eq!(second.sexp(), first.sexp());
    }
}
