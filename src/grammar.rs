//! What the value scanner computes, stated over sequences of characters.
//!
//! Each scanner is described on the characters it has yet to act on, its
//! lookahead first (see [`crate::source::stream`]), and gives either a value
//! together with the characters that follow it, or an error.
use crate::class::{digit, digit_value, ident_char, letter};
use crate::error::{ErrView, Expected};
use crate::value::ValueView;
use crate::wrap::wrap_i64;
use vstd::prelude::*;

verus! {

/// The outcome of scanning one token: the value and the characters after
/// it, lookahead first; or the error and what the source still holds, the
/// offending character (if any) having been pulled.
pub type Scan = Result<(ValueView, Seq<char>), (ErrView, Seq<char>)>;

/// What the source holds once the first character of `s` is pulled.
pub open spec fn pulled(s: Seq<char>) -> Seq<char> {
    if s.len() == 0 {
        s
    } else {
        s.drop_first()
    }
}

/// What follows the first newline of `t`; nothing if there is none.
pub open spec fn comment_end(t: Seq<char>) -> Seq<char>
    decreases t.len(),
{
    if t.len() == 0 {
        t
    } else if t[0] == '\n' {
        t.drop_first()
    } else {
        comment_end(t.drop_first())
    }
}

/// `t` without its leading spaces, newlines and `#` comments. With
/// `in_comment`, `t` starts inside a comment.
pub open spec fn skip_gap(t: Seq<char>, in_comment: bool) -> Seq<char>
    decreases t.len(),
{
    if t.len() == 0 {
        t
    } else if in_comment {
        skip_gap(t.drop_first(), t[0] != '\n')
    } else if t[0] == ' ' || t[0] == '\n' {
        skip_gap(t.drop_first(), false)
    } else if t[0] == '#' {
        skip_gap(t.drop_first(), true)
    } else {
        t
    }
}

/// How many identifier characters `t` starts with.
pub open spec fn ident_len(t: Seq<char>) -> nat
    decreases t.len(),
{
    if t.len() > 0 && ident_char(t[0]) {
        1 + ident_len(t.drop_first())
    } else {
        0
    }
}

/// How many digits `t` starts with.
pub open spec fn digits_len(t: Seq<char>) -> nat
    decreases t.len(),
{
    if t.len() > 0 && digit(t[0]) {
        1 + digits_len(t.drop_first())
    } else {
        0
    }
}

/// How many characters `t` starts with that may stand inside a string.
pub open spec fn text_len(t: Seq<char>) -> nat
    decreases t.len(),
{
    if t.len() > 0 && t[0] != '"' && t[0] != '\n' {
        1 + text_len(t.drop_first())
    } else {
        0
    }
}

/// The number that a run of decimal digits stands for.
pub open spec fn digits_value(d: Seq<char>) -> int
    decreases d.len(),
{
    if d.len() == 0 {
        0
    } else {
        10 * digits_value(d.drop_last()) + digit_value(d.last())
    }
}

/// The value that a keyword names.
pub open spec fn keyword(w: Seq<char>) -> Option<ValueView> {
    if w == seq!['N', 'i', 'l'] {
        Some(ValueView::Nil)
    } else if w == seq!['F', 'a', 'l', 's', 'e'] {
        Some(ValueView::Bool(false))
    } else if w == seq!['T', 'r', 'u', 'e'] {
        Some(ValueView::Bool(true))
    } else {
        None
    }
}

/// An identifier: a letter and the identifier characters after it.
pub open spec fn scan_ident(t: Seq<char>) -> Scan
    recommends
        t.len() > 0,
{
    let n: int = 1 + ident_len(t.drop_first()) as int;
    match keyword(t.take(n)) {
        Some(v) => Ok((v, t.skip(n))),
        None => Err((ErrView::UnknownIdentifier(t.take(n)), pulled(t.skip(n)))),
    }
}

/// The digits at the start of `t`, negated when `neg`.
pub open spec fn scan_digits(t: Seq<char>, neg: bool) -> Scan {
    let n: int = digits_len(t) as int;
    let m = digits_value(t.take(n));
    Ok((ValueView::Int(wrap_i64(if neg { -m } else { m })), t.skip(n)))
}

/// An integer: digits, or `-` and digits.
pub open spec fn scan_int(t: Seq<char>) -> Scan
    recommends
        t.len() > 0,
{
    if t[0] == '-' {
        let u = t.drop_first();
        if u.len() == 0 {
            Err((ErrView::UnexpectedEOF(Expected::Digit), u))
        } else if !digit(u[0]) {
            Err((ErrView::UnexpectedChar(u[0], Expected::Digit), u.drop_first()))
        } else {
            scan_digits(u, true)
        }
    } else {
        scan_digits(t, false)
    }
}

/// A string: `"`, characters other than `"` and newline taken as they are,
/// then `"`.
pub open spec fn scan_str(t: Seq<char>) -> Scan
    recommends
        t.len() > 0,
{
    let u = t.drop_first();
    let n: int = text_len(u) as int;
    if n < u.len() && u[n] == '"' {
        Ok((ValueView::Str(u.take(n)), u.skip(n + 1)))
    } else {
        Err((ErrView::UnterminatedString, pulled(u.skip(n))))
    }
}

/// One value, chosen by its first character.
pub open spec fn scan_value(t: Seq<char>) -> Scan {
    if t.len() == 0 {
        Err((ErrView::UnexpectedEOF(Expected::ValueStart), t))
    } else if letter(t[0]) {
        scan_ident(t)
    } else if t[0] == '-' || digit(t[0]) {
        scan_int(t)
    } else if t[0] == '"' {
        scan_str(t)
    } else {
        Err((ErrView::UnexpectedChar(t[0], Expected::ValueStart), t.drop_first()))
    }
}

/// A character that can start a value.
pub open spec fn value_start(c: char) -> bool {
    letter(c) || digit(c) || c == '-' || c == '"'
}

/// The values in `t`, in order, with spaces, newlines and comments around
/// and between them; or the first error. Where a value or the end of the
/// input is due, a character that can start no value is reported as standing
/// where the end of the input was expected.
pub open spec fn values_of(t: Seq<char>) -> Result<Seq<ValueView>, ErrView>
    decreases t.len(),
{
    let u = skip_gap(t, false);
    if u.len() == 0 {
        Ok(Seq::empty())
    } else if !value_start(u[0]) {
        Err(ErrView::UnexpectedChar(u[0], Expected::EOF))
    } else {
        match scan_value(u) {
            Err((e, _)) => Err(e),
            Ok((v, rest)) => {
                proof {
                    lemma_skip_gap_shorter(t, false);
                    lemma_scan_value_shorter(u);
                }
                match values_of(rest) {
                    Err(e) => Err(e),
                    Ok(vs) => Ok(seq![v] + vs),
                }
            },
        }
    }
}

/// A character that starts a space, a newline or a comment.
pub open spec fn gap_char(c: char) -> bool {
    c == ' ' || c == '\n' || c == '#'
}

/// Skipping stops at the end of the input or at a character that starts no
/// gap.
pub proof fn lemma_skip_gap_stops(t: Seq<char>, in_comment: bool)
    ensures
        skip_gap(t, in_comment).len() == 0 || !gap_char(skip_gap(t, in_comment)[0]),
    decreases t.len(),
{
    if t.len() > 0 {
        lemma_skip_gap_stops(t.drop_first(), true);
        lemma_skip_gap_stops(t.drop_first(), false);
    }
}

/// Input that starts with no gap is not changed by skipping.
pub proof fn lemma_skip_gap_none(t: Seq<char>)
    requires
        t.len() == 0 || !gap_char(t[0]),
    ensures
        skip_gap(t, false) == t,
{
}

/// Skipping twice is skipping once.
pub proof fn lemma_skip_gap_idem(t: Seq<char>)
    ensures
        skip_gap(skip_gap(t, false), false) == skip_gap(t, false),
{
    lemma_skip_gap_stops(t, false);
    lemma_skip_gap_none(skip_gap(t, false));
}

/// The values of input are those of the input after its leading gap.
pub proof fn lemma_values_of_skip(t: Seq<char>)
    ensures
        values_of(t) == values_of(skip_gap(t, false)),
{
    lemma_skip_gap_idem(t);
}

/// The values of input that starts with no gap.
pub proof fn lemma_values_of_unfold(t: Seq<char>)
    requires
        t.len() > 0,
        !gap_char(t[0]),
    ensures
        values_of(t) == if !value_start(t[0]) {
            Err(ErrView::UnexpectedChar(t[0], Expected::EOF))
        } else {
            match scan_value(t) {
                Err((e, _)) => Err(e),
                Ok((v, rest)) => prepend(seq![v], values_of(rest)),
            }
        },
{
    lemma_skip_gap_none(t);
}

/// `pre` followed by the values of `r`, if `r` holds values.
pub open spec fn prepend(pre: Seq<ValueView>, r: Result<Seq<ValueView>, ErrView>) -> Result<
    Seq<ValueView>,
    ErrView,
> {
    match r {
        Ok(vs) => Ok(pre + vs),
        Err(e) => Err(e),
    }
}

pub proof fn lemma_skip_gap_shorter(t: Seq<char>, in_comment: bool)
    ensures
        skip_gap(t, in_comment).len() <= t.len(),
    decreases t.len(),
{
    if t.len() > 0 {
        lemma_skip_gap_shorter(t.drop_first(), true);
        lemma_skip_gap_shorter(t.drop_first(), false);
    }
}

pub proof fn lemma_run_lengths(t: Seq<char>)
    ensures
        ident_len(t) <= t.len(),
        digits_len(t) <= t.len(),
        text_len(t) <= t.len(),
    decreases t.len(),
{
    if t.len() > 0 {
        lemma_run_lengths(t.drop_first());
    }
}

/// A value that scans consumes at least one character.
pub proof fn lemma_scan_value_shorter(t: Seq<char>)
    ensures
        scan_value(t) matches Ok((_, rest)) ==> rest.len() < t.len(),
{
    if t.len() > 0 {
        lemma_run_lengths(t);
        lemma_run_lengths(t.drop_first());
    }
}

} // verus!
