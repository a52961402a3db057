//! The scanners. Each takes the lookahead character that its caller has
//! already pulled, pulls what it needs from the source, and returns the next
//! unconsumed character (or `None` at the end of the input).
use crate::class::{char_to_digit, digit, digit_value, is_alpha, is_ident_next, is_num, letter};
use crate::error::{ErrView, Expected, ParseErr};
use crate::grammar::{
    comment_end, pulled, digits_len, digits_value, gap_char, ident_len, keyword, lemma_scan_value_shorter,
    lemma_skip_gap_idem, lemma_values_of_unfold,
    prepend, scan_ident, scan_int, scan_str, scan_value, skip_gap, text_len, values_of, Scan,
};
use crate::source::{stream, Source};
use crate::value::{views, Val, ValueView};
use crate::wrap::{
    lemma_wrap_digit_step, lemma_wrap_neg, lemma_wrap_small, lemma_wrapping_mul_add,
    lemma_wrapping_neg, wrap_i64,
};
use vstd::prelude::*;
use vstd::string::StringExecFns;

verus! {

/// Relies on `String::push`: it appends the character at the end.
pub assume_specification[ String::push ](s: &mut String, ch: char)
    ensures
        final(s)@ == old(s)@.push(ch),
;

/// `r` is what scanning gave, and `rest` what the source holds after it,
/// as `expect` says.
pub open spec fn scanned(r: Result<(Option<char>, Val), ParseErr>, rest: Seq<char>, expect: Scan) -> bool {
    match expect {
        Ok((v, after)) => {
            &&& r is Ok
            &&& r->Ok_0.1@ == v
            &&& stream(r->Ok_0.0, rest) == after
            &&& r->Ok_0.0 is None ==> rest.len() == 0
        },
        Err((e, left)) => r is Err && r->Err_0@ == e && rest == left,
    }
}

pub proof fn lemma_comment_end(t: Seq<char>)
    ensures
        skip_gap(t, true) == skip_gap(comment_end(t), false),
        comment_end(t).len() <= t.len(),
    decreases t.len(),
{
    if t.len() > 0 && t[0] != '\n' {
        lemma_comment_end(t.drop_first());
    }
}

/// Pulls the rest of a comment whose `#` has been consumed, up to and
/// including the newline that ends it.
fn parse_comment(input: &mut Source) -> (r: Option<char>)
    ensures
        stream(r, final(input)@) == comment_end(old(input)@),
        r is None ==> final(input)@.len() == 0,
{
    loop
        invariant
            comment_end(input@) == comment_end(old(input)@),
        decreases input@.len(),
    {
        let ghost before = input@;
        match input.next() {
            None => {
                return None;
            },
            Some(c) => {
                assert(before.drop_first() =~= input@);
                if c == '\n' {
                    return input.next();
                }
            },
        }
    }
}

/// Skips one space, newline or comment starting at `first`; the flag says
/// whether `first` started one.
fn parse_ign_one(input: &mut Source, first: char) -> (r: (Option<char>, bool))
    ensures
        r.1 == (first == ' ' || first == '\n' || first == '#'),
        !r.1 ==> r.0 == Some(first) && final(input)@ == old(input)@,
        r.1 ==> skip_gap(stream(r.0, final(input)@), false) == skip_gap(
            seq![first] + old(input)@,
            false,
        ),
        r.1 ==> stream(r.0, final(input)@).len() <= old(input)@.len(),
        r.0 is None ==> final(input)@.len() == 0,
        (first == ' ' || first == '\n') ==> stream(r.0, final(input)@) == old(input)@,
        first == '#' ==> stream(r.0, final(input)@) == comment_end(old(input)@),
{
    let ghost t = seq![first] + old(input)@;
    assert(t.drop_first() =~= old(input)@);
    if first == '#' {
        proof {
            lemma_comment_end(old(input)@);
        }
        (parse_comment(input), true)
    } else if first == ' ' || first == '\n' {
        (input.next(), true)
    } else {
        (Some(first), false)
    }
}

/// Skips spaces, newlines and comments from `first` on; returns the first
/// character after them, or `None` at the end of the input.
fn parse_ign_many(input: &mut Source, first: char) -> (r: Option<char>)
    ensures
        stream(r, final(input)@) == skip_gap(seq![first] + old(input)@, false),
        r matches Some(c) ==> !gap_char(c),
        r is None ==> final(input)@.len() == 0,
        final(input)@.len() <= old(input)@.len(),
{
    let mut cur = first;
    loop
        invariant
            skip_gap(seq![cur] + input@, false) == skip_gap(seq![first] + old(input)@, false),
            input@.len() <= old(input)@.len(),
        decreases input@.len(),
    {
        let (next, consumed) = parse_ign_one(input, cur);
        if !consumed {
            return next;
        }
        match next {
            None => {
                return None;
            },
            Some(c) => {
                cur = c;
            },
        }
    }
}

/// Scans an identifier that starts with the letter `first`.
fn parse_ident(input: &mut Source, first: char) -> (r: Result<(Option<char>, Val), ParseErr>)
    requires
        letter(first),
    ensures
        scanned(r, final(input)@, scan_ident(seq![first] + old(input)@)),
{
    let ghost t = seq![first] + old(input)@;
    let mut acc = String::new();
    acc.push(first);
    assert(t.drop_first() =~= old(input)@);
    loop
        invariant
            t == seq![first] + old(input)@,
            t == acc@ + input@,
            acc@.len() >= 1,
            1 + ident_len(t.drop_first()) == acc@.len() + ident_len(input@),
        decreases input@.len(),
    {
        let ghost before = input@;
        let next = input.next();
        match next {
            Some(c) => {
                assert(before.drop_first() =~= input@);
                assert(before[0] == c);
                if is_ident_next(c) {
                    acc.push(c);
                    assert(t =~= acc@ + input@);
                    continue;
                }
            },
            None => {},
        }
        let ghost n: int = acc@.len() as int;
        assert(t.take(n) =~= acc@);
        assert(t.skip(n) =~= stream(next, input@));
        assert(pulled(stream(next, input@)) =~= input@);
        let res = resolve_ident(acc);
        return match res {
            Ok(v) => Ok((next, v)),
            Err(e) => Err(e),
        };
    }
}

/// The value that an identifier names.
fn resolve_ident(ident: String) -> (r: Result<Val, ParseErr>)
    ensures
        match keyword(ident@) {
            Some(v) => r is Ok && r->Ok_0@ == v,
            None => r is Err && r->Err_0@ == ErrView::UnknownIdentifier(ident@),
        },
{
    let nil = String::from_str("Nil");
    let f = String::from_str("False");
    let t = String::from_str("True");
    proof {
        reveal_strlit("Nil");
        reveal_strlit("False");
        reveal_strlit("True");
        assert(nil@ =~= seq!['N', 'i', 'l']);
        assert(f@ =~= seq!['F', 'a', 'l', 's', 'e']);
        assert(t@ =~= seq!['T', 'r', 'u', 'e']);
    }
    if ident == nil {
        Ok(Val::Nil)
    } else if ident == f {
        Ok(Val::Bool(false))
    } else if ident == t {
        Ok(Val::Bool(true))
    } else {
        Err(ParseErr::UnknownIdentifier(ident))
    }
}

/// Scans an integer that starts with `first`, a `-` or a digit. Digits are
/// accumulated with wrap-around; see [`crate::wrap`].
fn parse_int(input: &mut Source, first: char) -> (r: Result<(Option<char>, Val), ParseErr>)
    requires
        first == '-' || digit(first),
    ensures
        scanned(r, final(input)@, scan_int(seq![first] + old(input)@)),
{
    let ghost t = seq![first] + old(input)@;
    assert(t.drop_first() =~= old(input)@);
    let neg = first == '-';
    let d0 = if neg {
        let ghost before = input@;
        match input.next() {
            None => {
                assert(t.drop_first() =~= input@);
                return Err(ParseErr::UnexpectedEOF(Expected::Digit));
            },
            Some(c) => {
                assert(before.drop_first() =~= input@);
                if !is_num(c) {
                    return Err(ParseErr::UnexpectedChar(c, Expected::Digit));
                }
                c
            },
        }
    } else {
        first
    };
    let ghost u = seq![d0] + input@;
    assert(neg ==> u =~= t.drop_first());
    assert(!neg ==> u =~= t);
    assert(u.drop_first() =~= input@);
    assert(u.take(1).drop_last() =~= Seq::<char>::empty());
    let mut acc: i64 = char_to_digit(d0);
    proof {
        lemma_wrap_small(acc as int);
        assert(u.take(1).last() == d0);
        assert(digits_value(Seq::<char>::empty()) == 0);
        assert(digits_value(u.take(1)) == digit_value(d0));
    }
    let ghost mut k: int = 1;
    assert(u.skip(k) =~= input@);
    loop
        invariant
            t == seq![first] + old(input)@,
            neg == (first == '-'),
            neg ==> u == t.drop_first(),
            !neg ==> u == t,
            1 <= k <= u.len(),
            u.skip(k) == input@,
            acc as int == wrap_i64(digits_value(u.take(k))),
            digits_len(u) == k + digits_len(input@),
        decreases input@.len(),
    {
        let ghost before = input@;
        let next = input.next();
        match next {
            Some(c) => {
                assert(before.drop_first() =~= input@);
                assert(before[0] == c);
                if is_num(c) {
                    let d = char_to_digit(c);
                    proof {
                        let p = u.take(k + 1);
                        assert(p.drop_last() =~= u.take(k));
                        assert(p.last() == c);
                        lemma_wrapping_mul_add(acc, d);
                        lemma_wrap_digit_step(digits_value(u.take(k)), d as int);
                        assert(u.skip(k + 1) =~= input@);
                    }
                    acc = acc.wrapping_mul(10).wrapping_add(d);
                    proof {
                        k = k + 1;
                    }
                    continue;
                }
            },
            None => {},
        }
        let signed = if neg {
            proof {
                lemma_wrapping_neg(acc);
                lemma_wrap_neg(digits_value(u.take(k)));
            }
            0i64.wrapping_sub(acc)
        } else {
            acc
        };
        assert(u.skip(k) =~= stream(next, input@));
        return Ok((next, Val::Int(signed)));
    }
}

/// Scans a string whose opening quote has been consumed. Characters are
/// taken as they are, up to the closing quote; a newline or the end of the
/// input before it is an error.
fn parse_str(input: &mut Source) -> (r: Result<(Option<char>, Val), ParseErr>)
    ensures
        scanned(r, final(input)@, scan_str(seq!['"'] + old(input)@)),
{
    let ghost u = old(input)@;
    assert((seq!['"'] + u).drop_first() =~= u);
    let mut acc = String::new();
    assert(acc@ + input@ =~= u);
    loop
        invariant
            u == old(input)@,
            (seq!['"'] + u).drop_first() == u,
            acc@ + input@ == u,
            text_len(u) == acc@.len() + text_len(input@),
        decreases input@.len(),
    {
        let ghost before = input@;
        match input.next() {
            None => {
                assert(u.skip(acc@.len() as int) =~= input@);
                return Err(ParseErr::UnterminatedString);
            },
            Some(c) => {
                assert(before.drop_first() =~= input@);
                assert(before[0] == c);
                assert(u[acc@.len() as int] == c);
                if c == '\n' {
                    assert(u.skip(acc@.len() as int) =~= before);
                    return Err(ParseErr::UnterminatedString);
                }
                if c == '"' {
                    assert(u.take(acc@.len() as int) =~= acc@);
                    assert(u.skip(acc@.len() as int + 1) =~= input@);
                    let next = input.next();
                    return Ok((next, Val::Str(acc)));
                }
                acc.push(c);
                assert(acc@ + input@ =~= u);
            },
        }
    }
}

/// Scans one value, chosen by its first character `first`.
fn parse_one(input: &mut Source, first: char) -> (r: Result<(Option<char>, Val), ParseErr>)
    ensures
        scanned(r, final(input)@, scan_value(seq![first] + old(input)@)),
{
    let ghost t = seq![first] + old(input)@;
    assert(t[0] == first);
    assert(t.drop_first() =~= old(input)@);
    if is_alpha(first) {
        parse_ident(input, first)
    } else if first == '-' || is_num(first) {
        parse_int(input, first)
    } else if first == '"' {
        parse_str(input)
    } else {
        Err(ParseErr::UnexpectedChar(first, Expected::ValueStart))
    }
}

/// Scans values, with gaps around and between them, from `first` to the end
/// of the input.
fn parse_many(input: &mut Source, first: char) -> (r: Result<Vec<Val>, ParseErr>)
    ensures
        match values_of(seq![first] + old(input)@) {
            Ok(vs) => r is Ok && views(r->Ok_0@) == vs,
            Err(e) => r is Err && r->Err_0@ == e,
        },
        r is Ok ==> final(input)@.len() == 0,
{
    let ghost t = seq![first] + old(input)@;
    let mut acc: Vec<Val> = Vec::new();
    let mut next = parse_ign_many(input, first);
    proof {
        lemma_skip_gap_idem(t);
        assert(views(acc@) =~= Seq::<ValueView>::empty());
        assert(prepend(views(acc@), values_of(t)) =~~= values_of(t));
    }
    loop
        invariant
            t == seq![first] + old(input)@,
            values_of(t) == prepend(views(acc@), values_of(stream(next, input@))),
            next matches Some(c) ==> !gap_char(c),
            next is None ==> input@.len() == 0,
        decreases input@.len(),
    {
        let c = match next {
            None => {
                assert(views(acc@) + Seq::<ValueView>::empty() =~= views(acc@));
                return Ok(acc);
            },
            Some(c) => c,
        };
        let ghost s = seq![c] + input@;
        proof {
            lemma_values_of_unfold(s);
            lemma_scan_value_shorter(s);
            assert(s[0] == c);
        }
        if !(is_alpha(c) || is_num(c) || c == '-' || c == '"') {
            return Err(ParseErr::UnexpectedChar(c, Expected::EOF));
        }
        let (after, v) = match parse_one(input, c) {
            Err(e) => {
                return Err(e);
            },
            Ok(p) => p,
        };
        let ghost rest = stream(after, input@);
        let ghost pre = views(acc@);
        acc.push(v);
        assert(views(acc@) =~= pre + seq![v@]);
        proof {
            lemma_skip_gap_idem(rest);
            let w = values_of(rest);
            if w is Ok {
                assert(pre + (seq![v@] + w->Ok_0) =~= (pre + seq![v@]) + w->Ok_0);
            }
        }
        match after {
            None => {
                assert(views(acc@) + Seq::<ValueView>::empty() =~= views(acc@));
                return Ok(acc);
            },
            Some(d) => {
                next = parse_ign_many(input, d);
            },
        }
    }
}

/// Parses every value in `input`, in order, skipping spaces, newlines and
/// `#` comments around and between them. Parsing stops at the first error.
pub fn parse(input: &mut Source) -> (r: Result<Vec<Val>, ParseErr>)
    ensures
        match values_of(old(input)@) {
            Ok(vs) => r is Ok && views(r->Ok_0@) == vs,
            Err(e) => r is Err && r->Err_0@ == e,
        },
        r is Ok ==> final(input)@.len() == 0,
{
    match input.next() {
        None => Ok(Vec::new()),
        Some(c) => parse_many(input, c),
    }
}

} // verus!
