use litparse::scan::parse;
use litparse::{Expected, ParseErr, Source, Val};

fn values(s: &str) -> Result<Vec<Val>, ParseErr> {
    parse(&mut Source::new(s))
}

fn text(s: &str) -> Val {
    Val::Str(String::from(s))
}

#[test]
fn empty_input_has_no_values() {
    assert_eq!(values(""), Ok(vec![]));
    assert_eq!(values(" "), Ok(vec![]));
}

#[test]
fn blank_and_comment_only_input_has_no_values() {
    assert_eq!(values(" \n \n"), Ok(vec![]));
    assert_eq!(values("# only a comment"), Ok(vec![]));
    assert_eq!(values("# one\n  # two\n"), Ok(vec![]));
    assert_eq!(values("#"), Ok(vec![]));
}

#[test]
fn keywords() {
    assert_eq!(values("Nil"), Ok(vec![Val::Nil]));
    assert_eq!(values("False"), Ok(vec![Val::Bool(false)]));
    assert_eq!(values("True"), Ok(vec![Val::Bool(true)]));
}

#[test]
fn integers() {
    assert_eq!(values("0"), Ok(vec![Val::Int(0)]));
    assert_eq!(values("123"), Ok(vec![Val::Int(123)]));
    assert_eq!(values("-0"), Ok(vec![Val::Int(0)]));
    assert_eq!(values("-123"), Ok(vec![Val::Int(-123)]));
    assert_eq!(values("007"), Ok(vec![Val::Int(7)]));
}

#[test]
fn integer_range_limits() {
    assert_eq!(values("9223372036854775807"), Ok(vec![Val::Int(i64::MAX)]));
    assert_eq!(values("-9223372036854775808"), Ok(vec![Val::Int(i64::MIN)]));
}

#[test]
fn integer_out_of_range_wraps() {
    assert_eq!(values("9223372036854775808"), Ok(vec![Val::Int(i64::MIN)]));
    assert_eq!(values("18446744073709551617"), Ok(vec![Val::Int(1)]));
}

#[test]
fn strings() {
    assert_eq!(values("\"\""), Ok(vec![text("")]));
    assert_eq!(values("\"abc 123 éß😊\""), Ok(vec![text("abc 123 éß😊")]));
    assert_eq!(values("\"# not a comment\""), Ok(vec![text("# not a comment")]));
}

#[test]
fn non_ascii_string_is_kept_verbatim() {
    let parsed = values("\"é😊\"").unwrap();
    assert_eq!(parsed, vec![text("é😊")]);
    match &parsed[0] {
        Val::Str(s) => assert_eq!(s.chars().collect::<Vec<char>>(), vec!['é', '😊']),
        other => panic!("expected a string, got {:?}", other),
    }
}

#[test]
fn comment_before_value() {
    assert_eq!(values(" \n# abc 123 \"\"\nNil"), Ok(vec![Val::Nil]));
}

#[test]
fn many_values() {
    assert_eq!(
        values("Nil False True 0 123 \"\" \"abc 123 éß😊\""),
        Ok(vec![
            Val::Nil,
            Val::Bool(false),
            Val::Bool(true),
            Val::Int(0),
            Val::Int(123),
            text(""),
            text("abc 123 éß😊"),
        ])
    );
}

#[test]
fn many_values_and_comments() {
    assert_eq!(
        values("#\nNil #\nFalse#\n True #\n0#\n 123 #\n\"\"#\n \"abc 123 éß😊\""),
        Ok(vec![
            Val::Nil,
            Val::Bool(false),
            Val::Bool(true),
            Val::Int(0),
            Val::Int(123),
            text(""),
            text("abc 123 éß😊"),
        ])
    );
}

#[test]
fn comments_are_elided() {
    assert_eq!(values("#\nNil #\nFalse"), Ok(vec![Val::Nil, Val::Bool(false)]));
}

#[test]
fn gaps_do_not_change_the_values() {
    let expected = Ok(vec![Val::Int(-4), text("x y"), Val::Nil]);
    assert_eq!(values("-4 \"x y\" Nil"), expected);
    assert_eq!(values("-4\"x y\"Nil"), expected);
    assert_eq!(values("\n\n  -4 # four\n\n\"x y\"\n#\n Nil  # end"), expected);
}

#[test]
fn tokens_that_need_no_gap() {
    assert_eq!(values("1-2"), Ok(vec![Val::Int(1), Val::Int(-2)]));
    assert_eq!(values("12Nil"), Ok(vec![Val::Int(12), Val::Nil]));
    assert_eq!(values("\"a\"True"), Ok(vec![text("a"), Val::Bool(true)]));
    assert_eq!(values("False-1"), Ok(vec![Val::Bool(false), Val::Int(-1)]));
}

#[test]
fn adjacent_identifiers_form_one() {
    assert_eq!(
        values("NilTrue"),
        Err(ParseErr::UnknownIdentifier(String::from("NilTrue")))
    );
    assert_eq!(
        values("Nil0"),
        Err(ParseErr::UnknownIdentifier(String::from("Nil0")))
    );
}

#[test]
fn unterminated_string() {
    assert_eq!(values("\"abc"), Err(ParseErr::UnterminatedString));
    assert_eq!(values("\"ab\ncd\""), Err(ParseErr::UnterminatedString));
    assert_eq!(values("Nil \""), Err(ParseErr::UnterminatedString));
}

#[test]
fn unknown_identifier() {
    assert_eq!(
        values("Maybe"),
        Err(ParseErr::UnknownIdentifier(String::from("Maybe")))
    );
    assert_eq!(
        values("True nil"),
        Err(ParseErr::UnknownIdentifier(String::from("nil")))
    );
    assert_eq!(
        values("a_1"),
        Err(ParseErr::UnknownIdentifier(String::from("a_1")))
    );
}

#[test]
fn minus_needs_a_digit() {
    assert_eq!(values("-"), Err(ParseErr::UnexpectedEOF(Expected::Digit)));
    assert_eq!(
        values("- 1"),
        Err(ParseErr::UnexpectedChar(' ', Expected::Digit))
    );
    assert_eq!(
        values("-x"),
        Err(ParseErr::UnexpectedChar('x', Expected::Digit))
    );
}

#[test]
fn character_that_starts_no_value_expects_end_of_input() {
    assert_eq!(
        values("?"),
        Err(ParseErr::UnexpectedChar('?', Expected::EOF))
    );
    assert_eq!(
        values("Nil True ?"),
        Err(ParseErr::UnexpectedChar('?', Expected::EOF))
    );
    assert_eq!(
        values("Nil False?"),
        Err(ParseErr::UnexpectedChar('?', Expected::EOF))
    );
    assert_eq!(
        values("1 2 ) 3"),
        Err(ParseErr::UnexpectedChar(')', Expected::EOF))
    );
    assert_eq!(
        values("_x"),
        Err(ParseErr::UnexpectedChar('_', Expected::EOF))
    );
    assert_eq!(
        values("\tNil"),
        Err(ParseErr::UnexpectedChar('\t', Expected::EOF))
    );
}

#[test]
fn first_error_stops_the_parse() {
    assert_eq!(
        values("Nil Maybe \"abc"),
        Err(ParseErr::UnknownIdentifier(String::from("Maybe")))
    );
}

#[test]
fn source_yields_each_character_once() {
    let mut src = Source::new("aé");
    assert_eq!(src.next(), Some('a'));
    assert_eq!(src.next(), Some('é'));
    assert_eq!(src.next(), None);
    assert_eq!(src.next(), None);
}

#[test]
fn parse_consumes_the_whole_source() {
    let mut src = Source::new("1 2");
    assert_eq!(parse(&mut src), Ok(vec![Val::Int(1), Val::Int(2)]));
    assert_eq!(src.next(), None);
}
