//! Laws of the value scanner and of the expression parser, stated over the
//! models in [`crate::grammar`] and [`crate::expr`] and proved.
use crate::class::{digit, digit_value, ident_char, letter};
use crate::error::{ErrView, Expected};
use crate::expr::{expr_of, is_blank, skip_blanks, Expr};
use crate::grammar::{
    digits_len, digits_value, gap_char, ident_len, lemma_skip_gap_none, lemma_values_of_skip,
    lemma_values_of_unfold, prepend, scan_str, scan_value, skip_gap, text_len, value_start,
    values_of,
};
use crate::value::ValueView;
use crate::wrap::lemma_wrap_small;
use vstd::prelude::*;

verus! {

/// The character of a decimal digit.
pub open spec fn digit_char(d: int) -> char {
    (d + ('0' as int)) as char
}

/// The decimal digits of `n`, most significant first, without leading zeros.
pub open spec fn decimal(n: nat) -> Seq<char>
    decreases n,
{
    if n < 10 {
        seq![digit_char(n as int)]
    } else {
        decimal(n / 10).push(digit_char((n % 10) as int))
    }
}

/// The text of a literal that stands for `v`.
pub open spec fn literal(v: ValueView) -> Seq<char> {
    match v {
        ValueView::Nil => seq!['N', 'i', 'l'],
        ValueView::Bool(false) => seq!['F', 'a', 'l', 's', 'e'],
        ValueView::Bool(true) => seq!['T', 'r', 'u', 'e'],
        ValueView::Int(n) => if n < 0 {
            seq!['-'] + decimal((-n) as nat)
        } else {
            decimal(n as nat)
        },
        ValueView::Str(s) => seq!['"'] + s + seq!['"'],
    }
}

/// `v` has a literal: an integer in the range of `i64`, a string without
/// quotes or newlines.
pub open spec fn has_literal(v: ValueView) -> bool {
    match v {
        ValueView::Int(n) => i64::MIN <= n <= i64::MAX,
        ValueView::Str(s) => forall|i: int| 0 <= i < s.len() ==> #[trigger] s[i] != '"' && s[i] != '\n',
        _ => true,
    }
}

/// A character that would continue the literal of `v` if it came right after
/// it.
pub open spec fn continues(v: ValueView, c: char) -> bool {
    match v {
        ValueView::Nil => ident_char(c),
        ValueView::Bool(_) => ident_char(c),
        ValueView::Int(_) => digit(c),
        ValueView::Str(_) => false,
    }
}

/// `w` may follow the literal of `v` without changing the token.
pub open spec fn ends_token(v: ValueView, w: Seq<char>) -> bool {
    w.len() == 0 || !continues(v, w[0])
}

/// Reading `g` from the given state (inside a comment or not), whether the
/// reading ends inside a comment; `None` if `g` holds anything but spaces,
/// newlines and `#` comments.
pub open spec fn gap_end(g: Seq<char>, in_comment: bool) -> Option<bool>
    decreases g.len(),
{
    if g.len() == 0 {
        Some(in_comment)
    } else if in_comment {
        gap_end(g.drop_first(), g[0] != '\n')
    } else if g[0] == ' ' || g[0] == '\n' {
        gap_end(g.drop_first(), false)
    } else if g[0] == '#' {
        gap_end(g.drop_first(), true)
    } else {
        None
    }
}

/// `g` holds only spaces, newlines and comments; the last comment may run to
/// the end of `g`.
pub open spec fn is_blank_text(g: Seq<char>) -> bool {
    gap_end(g, false) is Some
}

/// `g` holds only spaces, newlines and comments, each comment ended by a
/// newline.
pub open spec fn is_separator(g: Seq<char>) -> bool {
    gap_end(g, false) == Some(false)
}

/// `gaps[0]`, the literal of `vs[0]`, `gaps[1]`, ..., the literal of the last
/// value, and the last gap.
pub open spec fn layout(gaps: Seq<Seq<char>>, vs: Seq<ValueView>) -> Seq<char>
    decreases vs.len(),
{
    if vs.len() == 0 {
        gaps[0]
    } else {
        gaps[0] + (literal(vs[0]) + layout(gaps.drop_first(), vs.drop_first()))
    }
}

/// One gap before each value and one after the last; every value has a
/// literal; every gap but the last ends outside a comment, and the last holds
/// only spaces, newlines and comments; and a gap between two values is empty
/// only where the second literal cannot continue the first.
pub open spec fn well_spaced(gaps: Seq<Seq<char>>, vs: Seq<ValueView>) -> bool {
    &&& gaps.len() == vs.len() + 1
    &&& forall|i: int| 0 <= i < vs.len() ==> is_separator(#[trigger] gaps[i])
    &&& is_blank_text(gaps[vs.len() as int])
    &&& forall|i: int| 0 <= i < vs.len() ==> has_literal(#[trigger] vs[i])
    &&& forall|i: int|
        0 < i < vs.len() ==> (#[trigger] gaps[i]).len() > 0 || ends_token(vs[i - 1], literal(vs[i]))
}

/// Skipping reads a gap up to its end, in the state the reading ends in.
pub proof fn lemma_skip_over_gap(g: Seq<char>, w: Seq<char>, in_comment: bool)
    requires
        gap_end(g, in_comment) is Some,
    ensures
        skip_gap(g + w, in_comment) == skip_gap(w, gap_end(g, in_comment)->0),
    decreases g.len(),
{
    if g.len() == 0 {
        assert(g + w =~= w);
    } else {
        assert((g + w).drop_first() =~= g.drop_first() + w);
        assert((g + w)[0] == g[0]);
        lemma_skip_over_gap(g.drop_first(), w, if in_comment {
            g[0] != '\n'
        } else {
            g[0] == '#'
        });
    }
}

/// Input made only of spaces, newlines and comments holds no values; the
/// empty input among them.
pub proof fn lemma_blank_input(g: Seq<char>)
    requires
        is_blank_text(g),
    ensures
        values_of(g) == Ok::<Seq<ValueView>, ErrView>(Seq::empty()),
{
    lemma_skip_over_gap(g, Seq::empty(), false);
    assert(g + Seq::<char>::empty() =~= g);
}

proof fn lemma_decimal(n: nat)
    ensures
        decimal(n).len() >= 1,
        forall|i: int| 0 <= i < decimal(n).len() ==> digit(#[trigger] decimal(n)[i]),
        digits_value(decimal(n)) == n,
    decreases n,
{
    assert(digits_value(decimal(n)) == 10 * digits_value(decimal(n).drop_last()) + digit_value(
        decimal(n).last(),
    ));
    if n < 10 {
        assert(decimal(n).drop_last() =~= Seq::<char>::empty());
        assert(digits_value(Seq::<char>::empty()) == 0);
        assert(digit_value(decimal(n).last()) == n);
    } else {
        lemma_decimal(n / 10);
        assert(decimal(n).drop_last() =~= decimal(n / 10));
        assert(digit_value(decimal(n).last()) == n % 10);
        assert(n == 10 * (n / 10) + n % 10);
    }
}

proof fn lemma_digits_len_prefix(d: Seq<char>, w: Seq<char>)
    requires
        forall|i: int| 0 <= i < d.len() ==> digit(#[trigger] d[i]),
        w.len() == 0 || !digit(w[0]),
    ensures
        digits_len(d + w) == d.len(),
        (d + w).take(d.len() as int) == d,
        (d + w).skip(d.len() as int) == w,
    decreases d.len(),
{
    assert((d + w).take(d.len() as int) =~= d);
    assert((d + w).skip(d.len() as int) =~= w);
    if d.len() > 0 {
        assert((d + w).drop_first() =~= d.drop_first() + w);
        assert((d + w)[0] == d[0]);
        lemma_digits_len_prefix(d.drop_first(), w);
    }
}

proof fn lemma_ident_len_prefix(d: Seq<char>, w: Seq<char>)
    requires
        forall|i: int| 0 <= i < d.len() ==> ident_char(#[trigger] d[i]),
        w.len() == 0 || !ident_char(w[0]),
    ensures
        ident_len(d + w) == d.len(),
    decreases d.len(),
{
    if d.len() > 0 {
        assert((d + w).drop_first() =~= d.drop_first() + w);
        assert((d + w)[0] == d[0]);
        lemma_ident_len_prefix(d.drop_first(), w);
    } else {
        assert(d + w =~= w);
    }
}

proof fn lemma_text_len_prefix(s: Seq<char>, w: Seq<char>)
    requires
        forall|i: int| 0 <= i < s.len() ==> #[trigger] s[i] != '"' && s[i] != '\n',
        w.len() > 0,
        w[0] == '"',
    ensures
        text_len(s + w) == s.len(),
    decreases s.len(),
{
    if s.len() > 0 {
        assert((s + w).drop_first() =~= s.drop_first() + w);
        assert((s + w)[0] == s[0]);
        lemma_text_len_prefix(s.drop_first(), w);
    } else {
        assert(s + w =~= w);
    }
}

proof fn lemma_scan_keyword(k: Seq<char>, w: Seq<char>, v: ValueView)
    requires
        k == literal(v),
        v is Nil || v is Bool,
        ends_token(v, w),
    ensures
        scan_value(k + w) == Ok::<(ValueView, Seq<char>), (ErrView, Seq<char>)>((v, w)),
{
    let t = k + w;
    assert(t[0] == k[0]);
    assert(t.drop_first() =~= k.drop_first() + w);
    lemma_ident_len_prefix(k.drop_first(), w);
    assert(t.take(k.len() as int) =~= k);
    assert(t.skip(k.len() as int) =~= w);
}

/// The literal of a value scans back to that value, whatever follows it that
/// does not continue the token.
pub proof fn lemma_scan_literal(v: ValueView, w: Seq<char>)
    requires
        has_literal(v),
        ends_token(v, w),
    ensures
        scan_value(literal(v) + w) == Ok::<(ValueView, Seq<char>), (ErrView, Seq<char>)>((v, w)),
{
    let t = literal(v) + w;
    match v {
        ValueView::Int(n) => {
            if n < 0 {
                let d = decimal((-n) as nat);
                lemma_decimal((-n) as nat);
                assert(t.drop_first() =~= d + w);
                assert(t[0] == '-');
                assert((d + w)[0] == d[0]);
                lemma_digits_len_prefix(d, w);
                lemma_wrap_small(n);
            } else {
                let d = decimal(n as nat);
                lemma_decimal(n as nat);
                assert(t[0] == d[0]);
                lemma_digits_len_prefix(d, w);
                lemma_wrap_small(n);
            }
        },
        ValueView::Str(s) => {
            let u = s + (seq!['"'] + w);
            assert(t.drop_first() =~= u);
            assert(t[0] == '"');
            lemma_text_len_prefix(s, seq!['"'] + w);
            assert(u[s.len() as int] == '"');
            assert(u.take(s.len() as int) =~= s);
            assert(u.skip(s.len() as int + 1) =~= w);
        },
        _ => {
            lemma_scan_keyword(literal(v), w, v);
        },
    }
}

/// Every literal starts with a character that begins no gap.
proof fn lemma_literal_start(v: ValueView)
    requires
        has_literal(v),
    ensures
        literal(v).len() > 0,
        letter(literal(v)[0]) || digit(literal(v)[0]) || literal(v)[0] == '-' || literal(v)[0]
            == '"',
{
    match v {
        ValueView::Int(n) => {
            if n < 0 {
                lemma_decimal((-n) as nat);
            } else {
                lemma_decimal(n as nat);
                assert(digit(decimal(n as nat)[0]));
            }
        },
        _ => {},
    }
}

/// Values laid out as literals, with spaces, newlines and comments before,
/// between and after them, parse back to those values, whatever the gaps
/// hold.
pub proof fn lemma_layout_parses(gaps: Seq<Seq<char>>, vs: Seq<ValueView>)
    requires
        well_spaced(gaps, vs),
    ensures
        values_of(layout(gaps, vs)) == Ok::<Seq<ValueView>, ErrView>(vs),
    decreases vs.len(),
{
    if vs.len() == 0 {
        lemma_blank_input(gaps[0]);
        assert(layout(gaps, vs) == gaps[0]);
        assert(vs =~= Seq::<ValueView>::empty());
    } else {
        let g = gaps[0];
        let gs = gaps.drop_first();
        let rs = vs.drop_first();
        let w = layout(gs, rs);
        let x = literal(vs[0]) + w;
        assert(well_spaced(gs, rs)) by {
            assert forall|i: int| 0 <= i < rs.len() implies is_separator(#[trigger] gs[i]) by {
                assert(gs[i] == gaps[i + 1]);
            }
            assert forall|i: int| 0 <= i < rs.len() implies has_literal(#[trigger] rs[i]) by {
                assert(rs[i] == vs[i + 1]);
            }
            assert forall|i: int| 0 < i < rs.len() implies (#[trigger] gs[i]).len() > 0
                || ends_token(rs[i - 1], literal(rs[i])) by {
                assert(gs[i] == gaps[i + 1]);
            }
        }
        lemma_layout_parses(gs, rs);
        assert(has_literal(vs[0]));
        assert(is_separator(gaps[0]));
        lemma_literal_start(vs[0]);
        lemma_skip_over_gap(g, x, false);
        assert(x[0] == literal(vs[0])[0]);
        lemma_skip_gap_none(x);
        assert(ends_token(vs[0], w)) by {
            let g1 = gs[0];
            if g1.len() > 0 {
                if rs.len() == 0 {
                    assert(w == g1);
                } else {
                    assert(w == g1 + (literal(rs[0]) + layout(gs.drop_first(), rs.drop_first())));
                }
                assert(w[0] == g1[0]);
                assert(gap_end(g1, false) is Some);
            } else if rs.len() > 0 {
                assert(gaps[1].len() == 0);
                assert(ends_token(vs[0], literal(vs[1])));
                lemma_literal_start(rs[0]);
                assert(w =~= g1 + (literal(rs[0]) + layout(gs.drop_first(), rs.drop_first())));
                assert(w[0] == literal(rs[0])[0]);
            } else {
                assert(w == g1);
            }
        }
        lemma_scan_literal(vs[0], w);
        lemma_values_of_unfold(x);
        lemma_values_of_skip(g + x);
        assert(seq![vs[0]] + rs =~= vs);
    }
}

/// `tail` may follow the layout of `vs` with the given gaps without joining
/// its last token or its last gap: it is empty, or starts with a character
/// that begins no gap and does not continue a last literal that no gap
/// follows.
pub open spec fn may_follow(gaps: Seq<Seq<char>>, vs: Seq<ValueView>, tail: Seq<char>) -> bool {
    tail.len() == 0 || (!gap_char(tail[0]) && (gaps.last().len() > 0 || vs.len() == 0
        || !continues(vs.last(), tail[0])))
}

/// A layout of values whose gaps all end outside a comment, followed by a
/// tail that may follow it, parses to those values and then to what the tail
/// gives.
pub proof fn lemma_layout_then(gaps: Seq<Seq<char>>, vs: Seq<ValueView>, tail: Seq<char>)
    requires
        well_spaced(gaps, vs),
        is_separator(gaps.last()),
        may_follow(gaps, vs, tail),
    ensures
        values_of(layout(gaps, vs) + tail) == prepend(vs, values_of(tail)),
    decreases vs.len(),
{
    if vs.len() == 0 {
        let g = gaps[0];
        assert(layout(gaps, vs) == g);
        lemma_skip_over_gap(g, tail, false);
        lemma_skip_gap_none(tail);
        lemma_values_of_skip(g + tail);
        lemma_values_of_skip(tail);
        assert(vs =~= Seq::<ValueView>::empty());
        if values_of(tail) is Ok {
            assert(vs + values_of(tail)->Ok_0 =~= values_of(tail)->Ok_0);
        }
    } else {
        let g = gaps[0];
        let gs = gaps.drop_first();
        let rs = vs.drop_first();
        let w = layout(gs, rs);
        let wt = w + tail;
        let x = literal(vs[0]) + wt;
        assert(well_spaced(gs, rs)) by {
            assert forall|i: int| 0 <= i < rs.len() implies is_separator(#[trigger] gs[i]) by {
                assert(gs[i] == gaps[i + 1]);
            }
            assert forall|i: int| 0 <= i < rs.len() implies has_literal(#[trigger] rs[i]) by {
                assert(rs[i] == vs[i + 1]);
            }
            assert forall|i: int| 0 < i < rs.len() implies (#[trigger] gs[i]).len() > 0
                || ends_token(rs[i - 1], literal(rs[i])) by {
                assert(gs[i] == gaps[i + 1]);
            }
        }
        assert(gs.last() == gaps.last());
        assert(rs.len() > 0 ==> rs.last() == vs.last());
        lemma_layout_then(gs, rs, tail);
        assert(layout(gaps, vs) + tail =~= g + x);
        assert(has_literal(vs[0]));
        assert(is_separator(gaps[0]));
        lemma_literal_start(vs[0]);
        lemma_skip_over_gap(g, x, false);
        assert(x[0] == literal(vs[0])[0]);
        lemma_skip_gap_none(x);
        assert(ends_token(vs[0], wt)) by {
            let g1 = gs[0];
            if g1.len() > 0 {
                if rs.len() == 0 {
                    assert(w == g1);
                } else {
                    assert(w == g1 + (literal(rs[0]) + layout(gs.drop_first(), rs.drop_first())));
                }
                assert(wt[0] == g1[0]);
                assert(gap_end(g1, false) is Some);
            } else if rs.len() > 0 {
                assert(gaps[1].len() == 0);
                assert(ends_token(vs[0], literal(vs[1])));
                lemma_literal_start(rs[0]);
                assert(w =~= g1 + (literal(rs[0]) + layout(gs.drop_first(), rs.drop_first())));
                assert(wt[0] == literal(rs[0])[0]);
            } else {
                assert(w == g1);
                assert(wt =~= tail);
                assert(vs.last() == vs[0]);
            }
        }
        lemma_scan_literal(vs[0], wt);
        lemma_values_of_unfold(x);
        lemma_values_of_skip(g + x);
        assert(seq![vs[0]] + rs =~= vs);
        if values_of(tail) is Ok {
            let z = values_of(tail)->Ok_0;
            assert(seq![vs[0]] + (rs + z) =~= vs + z);
        }
    }
}

/// After a complete sequence of values, a character that can neither start a
/// value nor a gap, and does not continue the last token, is rejected where
/// the end of the input was expected, whatever comes after it.
pub proof fn lemma_trailing_rejected_values(
    gaps: Seq<Seq<char>>,
    vs: Seq<ValueView>,
    c: char,
    r: Seq<char>,
)
    requires
        well_spaced(gaps, vs),
        is_separator(gaps.last()),
        !value_start(c),
        !gap_char(c),
        gaps.last().len() > 0 || vs.len() == 0 || !continues(vs.last(), c),
    ensures
        values_of(layout(gaps, vs) + (seq![c] + r)) == Err::<Seq<ValueView>, ErrView>(
            ErrView::UnexpectedChar(c, Expected::EOF),
        ),
{
    let tail = seq![c] + r;
    assert(tail[0] == c);
    lemma_layout_then(gaps, vs, tail);
    lemma_values_of_unfold(tail);
}

/// The literal of any value that has one parses to that value alone.
pub proof fn lemma_single_literal(v: ValueView)
    requires
        has_literal(v),
    ensures
        values_of(literal(v)) == Ok::<Seq<ValueView>, ErrView>(seq![v]),
{
    let gaps = seq![Seq::<char>::empty(), Seq::<char>::empty()];
    assert(gaps.drop_first() =~= seq![Seq::<char>::empty()]);
    assert(seq![v].drop_first() =~= Seq::<ValueView>::empty());
    assert(layout(gaps.drop_first(), seq![v].drop_first()) == Seq::<char>::empty());
    assert(layout(gaps, seq![v]) =~= literal(v));
    lemma_layout_parses(gaps, seq![v]);
}

/// Whitespace and comments are transparent: two layouts of the same values
/// that differ only in their gaps parse to the same sequence, which is those
/// values.
pub proof fn lemma_gaps_transparent(vs: Seq<ValueView>, gaps1: Seq<Seq<char>>, gaps2: Seq<Seq<char>>)
    requires
        well_spaced(gaps1, vs),
        well_spaced(gaps2, vs),
    ensures
        values_of(layout(gaps1, vs)) == values_of(layout(gaps2, vs)),
        values_of(layout(gaps1, vs)) == Ok::<Seq<ValueView>, ErrView>(vs),
{
    lemma_layout_parses(gaps1, vs);
    lemma_layout_parses(gaps2, vs);
}

/// A string literal keeps every character between its quotes as it is,
/// non-ASCII ones included.
pub proof fn lemma_string_verbatim(s: Seq<char>)
    requires
        forall|i: int| 0 <= i < s.len() ==> #[trigger] s[i] != '"' && s[i] != '\n',
    ensures
        values_of(seq!['"'] + s + seq!['"']) == Ok::<Seq<ValueView>, ErrView>(
            seq![ValueView::Str(s)],
        ),
{
    lemma_single_literal(ValueView::Str(s));
}

/// The string scanner takes every character between the quotes as it is,
/// non-ASCII ones included, whatever follows the closing quote.
pub proof fn lemma_string_scan_verbatim(s: Seq<char>, r: Seq<char>)
    requires
        forall|i: int| 0 <= i < s.len() ==> #[trigger] s[i] != '"' && s[i] != '\n',
    ensures
        scan_str(seq!['"'] + s + seq!['"'] + r) == Ok::<(ValueView, Seq<char>), (ErrView, Seq<char>)>(
            (ValueView::Str(s), r),
        ),
{
    lemma_scan_literal(ValueView::Str(s), r);
    assert(seq!['"'] + s + seq!['"'] + r =~= literal(ValueView::Str(s)) + r);
    assert((literal(ValueView::Str(s)) + r)[0] == '"');
}

/// Blanks before `t` are skipped.
proof fn lemma_skip_leading_blanks(a: Seq<char>, t: Seq<char>)
    requires
        forall|i: int| 0 <= i < a.len() ==> is_blank(#[trigger] a[i]),
        t.len() == 0 || !is_blank(t[0]),
    ensures
        skip_blanks(a + t) == t,
    decreases a.len(),
{
    if a.len() == 0 {
        assert(a + t =~= t);
    } else {
        assert((a + t).drop_first() =~= a.drop_first() + t);
        assert((a + t)[0] == a[0]);
        lemma_skip_leading_blanks(a.drop_first(), t);
    }
}

/// After a complete expression and any blanks, a character that is not a
/// blank is rejected where the end of the input was expected.
pub proof fn lemma_trailing_rejected(a: Seq<char>, b: Seq<char>, c: char, tail: Seq<char>)
    requires
        forall|i: int| 0 <= i < a.len() ==> is_blank(#[trigger] a[i]),
        forall|i: int| 0 <= i < b.len() ==> is_blank(#[trigger] b[i]),
        !is_blank(c),
    ensures
        expr_of(a + seq!['(', ')'] + b + seq![c] + tail) == Err::<Expr, ErrView>(
            ErrView::UnexpectedChar(c, Expected::EOF),
        ),
{
    let rest = b + (seq![c] + tail);
    let u = seq!['(', ')'] + rest;
    assert(a + seq!['(', ')'] + b + seq![c] + tail =~= a + u);
    lemma_skip_leading_blanks(a, u);
    assert(u.skip(2) =~= rest);
    lemma_skip_leading_blanks(b, seq![c] + tail);
}

} // verus!
