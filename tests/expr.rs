use litparse::{parse, Expected, Expr, ParseErr};

fn unexpected_char<T>(c: char, expected: Expected) -> Result<T, ParseErr> {
    Err(ParseErr::UnexpectedChar(c, expected))
}

fn unexpected_eof<T>(expected: Expected) -> Result<T, ParseErr> {
    Err(ParseErr::UnexpectedEOF(expected))
}

#[test]
fn test_parse_start() {
    assert_eq!(parse(""), unexpected_eof(Expected::ExprStart));
    assert_eq!(parse("?"), unexpected_char('?', Expected::ExprStart));

    assert_eq!(parse(" "), unexpected_eof(Expected::ExprStart));
    assert_eq!(parse(" ?"), unexpected_char('?', Expected::ExprStart));
    assert_eq!(parse("\n"), unexpected_eof(Expected::ExprStart));
    assert_eq!(parse("\n?"), unexpected_char('?', Expected::ExprStart));
}

#[test]
fn test_parse_lparen() {
    assert_eq!(parse("("), unexpected_eof(Expected::Char(')')));
    assert_eq!(parse("(?"), unexpected_char('?', Expected::Char(')')));

    // With whitespace
    assert_eq!(parse(" ("), unexpected_eof(Expected::Char(')')));
    assert_eq!(parse(" (?"), unexpected_char('?', Expected::Char(')')));
    assert_eq!(parse("\n("), unexpected_eof(Expected::Char(')')));
    assert_eq!(parse("\n(?"), unexpected_char('?', Expected::Char(')')));
}

#[test]
fn test_parse_unit() {
    assert_eq!(parse("()"), Ok(Expr::Unit));
    assert_eq!(parse("()?"), unexpected_char('?', Expected::EOF));

    // With whitespace
    assert_eq!(parse(" ()"), Ok(Expr::Unit));
    assert_eq!(parse(" ()?"), unexpected_char('?', Expected::EOF));
    assert_eq!(parse("\n()"), Ok(Expr::Unit));
    assert_eq!(parse("\n()?"), unexpected_char('?', Expected::EOF));

    assert_eq!(parse("() "), Ok(Expr::Unit));
    assert_eq!(parse("() ?"), unexpected_char('?', Expected::EOF));
    assert_eq!(parse("()\n"), Ok(Expr::Unit));
    assert_eq!(parse("()\n?"), unexpected_char('?', Expected::EOF));
}

#[test]
fn trailing_text_after_unit_names_end_of_input() {
    assert_eq!(parse(" ()\n \nx()"), unexpected_char('x', Expected::EOF));
    assert_eq!(parse("()()"), unexpected_char('(', Expected::EOF));
}

#[test]
fn first_error_wins_over_trailing_text() {
    assert_eq!(parse("(x)"), unexpected_char('x', Expected::Char(')')));
    assert_eq!(parse("?x"), unexpected_char('?', Expected::ExprStart));
}

#[test]
fn tab_is_not_blank() {
    assert_eq!(parse("\t()"), unexpected_char('\t', Expected::ExprStart));
}
