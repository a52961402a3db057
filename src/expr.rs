use crate::error::{ErrView, Expected, ParseErr};
use crate::source::{stream, Source};
use vstd::prelude::*;

verus! {

/// An expression of the unit-expression language.
#[derive(Clone, Copy, Debug, PartialEq, Eq, Structural)]
pub enum Expr {
    /// `()`
    Unit,
}

/// Characters that may stand around an expression.
pub open spec fn is_blank(c: char) -> bool {
    c == ' ' || c == '\n'
}

/// `t` without its leading spaces and newlines.
pub open spec fn skip_blanks(t: Seq<char>) -> Seq<char>
    decreases t.len(),
{
    if t.len() > 0 && is_blank(t[0]) {
        skip_blanks(t.drop_first())
    } else {
        t
    }
}

/// The expression at the start of `t` (after blanks) and what follows it.
/// On an error, what the source still holds once the offending character
/// (if any) has been pulled.
pub open spec fn expr_prefix(t: Seq<char>) -> Result<(Expr, Seq<char>), (ErrView, Seq<char>)> {
    let u = skip_blanks(t);
    if u.len() == 0 {
        Err((ErrView::UnexpectedEOF(Expected::ExprStart), u))
    } else if u[0] != '(' {
        Err((ErrView::UnexpectedChar(u[0], Expected::ExprStart), u.drop_first()))
    } else if u.len() == 1 {
        Err((ErrView::UnexpectedEOF(Expected::Char(')')), u.drop_first()))
    } else if u[1] != ')' {
        Err((ErrView::UnexpectedChar(u[1], Expected::Char(')')), u.skip(2)))
    } else {
        Ok((Expr::Unit, u.skip(2)))
    }
}

/// The meaning of a whole input: one expression, with only blanks around it.
pub open spec fn expr_of(t: Seq<char>) -> Result<Expr, ErrView> {
    match expr_prefix(t) {
        Err((e, _)) => Err(e),
        Ok((e, rest)) => {
            let v = skip_blanks(rest);
            if v.len() > 0 {
                Err(ErrView::UnexpectedChar(v[0], Expected::EOF))
            } else {
                Ok(e)
            }
        },
    }
}

/// Parses `input` as a single expression surrounded by optional spaces and
/// newlines.
pub fn parse(input: &str) -> (r: Result<Expr, ParseErr>)
    ensures
        match expr_of(input@) {
            Ok(e) => r == Ok::<Expr, ParseErr>(e),
            Err(err) => r is Err && r->Err_0@ == err,
        },
{
    let mut chars = Source::new(input);
    match _parse_expr(&mut chars) {
        Err(e) => Err(e),
        Ok(expr) => match _parse_whitespace(&mut chars) {
            Some(c) => Err(ParseErr::UnexpectedChar(c, Expected::EOF)),
            None => Ok(expr),
        },
    }
}

fn _parse_expr(chars: &mut Source) -> (r: Result<Expr, ParseErr>)
    ensures
        match expr_prefix(old(chars)@) {
            Ok((e, rest)) => r == Ok::<Expr, ParseErr>(e) && final(chars)@ == rest,
            Err((err, left)) => r is Err && r->Err_0@ == err && final(chars)@ == left,
        },
{
    let start = _parse_whitespace(chars);
    let ghost u = skip_blanks(old(chars)@);
    let ghost after = chars@;
    assert(start is Some ==> u.drop_first() =~= after);
    match start {
        Some('(') => match chars.next() {
            Some(')') => {
                assert(chars@ =~= u.skip(2));
                Ok(Expr::Unit)
            },
            Some(c) => {
                assert(chars@ =~= u.skip(2));
                Err(ParseErr::UnexpectedChar(c, Expected::Char(')')))
            },
            None => Err(ParseErr::UnexpectedEOF(Expected::Char(')'))),
        },
        Some(c) => Err(ParseErr::UnexpectedChar(c, Expected::ExprStart)),
        None => Err(ParseErr::UnexpectedEOF(Expected::ExprStart)),
    }
}

/// Pulls characters past spaces and newlines; returns the first other
/// character, or `None` at the end of the input.
fn _parse_whitespace(chars: &mut Source) -> (r: Option<char>)
    ensures
        stream(r, final(chars)@) == skip_blanks(old(chars)@),
        r is None ==> final(chars)@.len() == 0,
{
    loop
        invariant
            skip_blanks(chars@) == skip_blanks(old(chars)@),
        decreases chars@.len(),
    {
        let ghost before = chars@;
        match chars.next() {
            Some(c) => {
                assert(before.drop_first() =~= chars@);
                if c != ' ' && c != '\n' {
                    return Some(c);
                }
            },
            None => {
                return None;
            },
        }
    }
}

} // verus!
