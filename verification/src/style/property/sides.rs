//! Lists of values separated by whitespace, and the four sides of a box they give
//! (`margin`, `padding`).
use vstd::prelude::*;

use crate::css::cssom::{
    ComponentValue, ComponentValueModel, cv_view, cvs_view, ident_of, is_ident_named, is_whitespace,
    is_whitespace_value, lemma_cvs_view,
};
use crate::css::dtype::{CssValue, CssValueModel, ValueRead, length_percentage_at, parse_length_percentage_type, read_result};
use crate::css::token::CssToken;
use crate::css::tokenization::CssTokenModel;
use crate::error::Error;
use crate::text::string_of;

verus! {

broadcast use {vstd::seq::group_seq_axioms, lemma_cvs_view};

/// The mathematical values of a list of values.
pub open spec fn values_view(l: Seq<CssValue>) -> Seq<CssValueModel> {
    l.map_values(|v: CssValue| v@)
}

/// `<'margin-top'>` at `p`: `auto`, or a `<length-percentage>` (another keyword panics).
pub open spec fn margin_top_at(vs: Seq<ComponentValueModel>, p: int) -> ValueRead {
    if 0 <= p < vs.len() && ident_of(vs[p]) is Some {
        if ident_of(vs[p]) == Some("auto"@) {
            Some(Ok(CssValueModel::Ident("auto"@)))
        } else {
            None
        }
    } else {
        length_percentage_at(vs, p)
    }
}

/// The grammar of one value of a list of sides.
#[derive(Clone, Copy, Debug, PartialEq, Eq, Structural)]
pub enum SideSyntax {
    /// `<'margin-top'>`: `auto` or a `<length-percentage>`.
    Margin,
    /// `<length-percentage>`.
    Padding,
    /// `<length-percentage>` of a corner; the `/` of elliptical corners panics.
    Radius,
}

/// The component value at `p` is the delimiter `/`.
pub open spec fn is_slash(vs: Seq<ComponentValueModel>, p: int) -> bool {
    0 <= p < vs.len() && vs[p] == ComponentValueModel::PreservedToken(CssTokenModel::Delim('/'))
}

/// The value at `p` of a list of sides written in `syntax`.
pub open spec fn side_at(vs: Seq<ComponentValueModel>, p: int, syntax: SideSyntax) -> ValueRead {
    match syntax {
        SideSyntax::Margin => margin_top_at(vs, p),
        SideSyntax::Padding => length_percentage_at(vs, p),
        SideSyntax::Radius => if is_slash(vs, p) {
            None
        } else {
            length_percentage_at(vs, p)
        },
    }
}

/// The values of `vs` from `i` on, separated by whitespace; the first value refused
/// refuses the list; `None` where reading panics before that.
pub open spec fn spaced_values(vs: Seq<ComponentValueModel>, i: int, syntax: SideSyntax) -> Option<
    Result<Seq<CssValueModel>, ()>,
>
    decreases vs.len() - i,
{
    if i < 0 || i >= vs.len() {
        Some(Ok(Seq::empty()))
    } else if is_whitespace(vs[i]) {
        spaced_values(vs, i + 1, syntax)
    } else {
        match side_at(vs, i, syntax) {
            None => None,
            Some(Err(())) => Some(Err(())),
            Some(Ok(v)) => match spaced_values(vs, i + 1, syntax) {
                Some(Ok(rest)) => Some(Ok(seq![v] + rest)),
                other => other,
            },
        }
    }
}

/// `prefix` put before the values of a list reading.
pub open spec fn after_prefix(
    prefix: Seq<CssValueModel>,
    r: Option<Result<Seq<CssValueModel>, ()>>,
) -> Option<Result<Seq<CssValueModel>, ()>> {
    match r {
        Some(Ok(rest)) => Some(Ok(prefix + rest)),
        other => other,
    }
}

/// The top, right, bottom and left sides given by one to four values.
pub open spec fn sides(l: Seq<CssValueModel>) -> Option<(CssValueModel, CssValueModel, CssValueModel, CssValueModel)> {
    if l.len() == 1 {
        Some((l[0], l[0], l[0], l[0]))
    } else if l.len() == 2 {
        Some((l[0], l[1], l[0], l[1]))
    } else if l.len() == 3 {
        Some((l[0], l[1], l[2], l[1]))
    } else if l.len() == 4 {
        Some((l[0], l[1], l[2], l[3]))
    } else {
        None
    }
}

/// Whether `c` is an ident token.
pub fn is_ident_value(c: &ComponentValue) -> (r: bool)
    ensures
        r == (ident_of(cv_view(*c)) is Some),
{
    match c {
        ComponentValue::PreservedToken(CssToken::Ident(_)) => true,
        _ => false,
    }
}

/// Whether `c` is the delimiter `/`.
fn is_slash_value(c: &ComponentValue) -> (r: bool)
    ensures
        r == (cv_view(*c) == ComponentValueModel::PreservedToken(CssTokenModel::Delim('/'))),
{
    match c {
        ComponentValue::PreservedToken(CssToken::Delim(d)) => *d == '/',
        _ => false,
    }
}

/// Reads a `<'margin-top'>` from `values[p]`.
pub fn parse_margin_top_type(values: &[ComponentValue], p: usize) -> (r: Result<CssValue, Error>)
    requires
        margin_top_at(cvs_view(values@), p as int) is Some,
    ensures
        read_result(r, margin_top_at(cvs_view(values@), p as int)),
{
    proof {
        lemma_cvs_view(values@);
    }
    if p < values.len() && is_ident_value(&values[p]) {
        if is_ident_named(&values[p], "auto") {
            return Ok(CssValue::Ident(string_of("auto")));
        }
        return Err(Error::CssParse(string_of("Expected auto")));
    }
    parse_length_percentage_type(values, p)
}

/// Reads a `<length-percentage>` for a side of `padding` from `values[p]`.
pub fn parse_padding_top_type(values: &[ComponentValue], p: usize) -> (r: Result<CssValue, Error>)
    requires
        length_percentage_at(cvs_view(values@), p as int) is Some,
    ensures
        read_result(r, length_percentage_at(cvs_view(values@), p as int)),
{
    parse_length_percentage_type(values, p)
}

/// Reads the values of `values` separated by whitespace: see `spaced_values`.
pub fn parse_spaced(values: &[ComponentValue], syntax: SideSyntax) -> (r: Result<Vec<CssValue>, Error>)
    requires
        spaced_values(cvs_view(values@), 0, syntax) is Some,
    ensures
        match spaced_values(cvs_view(values@), 0, syntax) {
            Some(Ok(l)) => r matches Ok(v) && values_view(v@) == l,
            Some(Err(())) => r matches Err(Error::CssParse(_)),
            None => false,
        },
{
    let ghost vs = cvs_view(values@);
    proof {
        lemma_cvs_view(values@);
    }
    let mut out: Vec<CssValue> = Vec::new();
    let mut i: usize = 0;
    while i < values.len()
        invariant
            i <= values@.len(),
            vs == cvs_view(values@),
            vs.len() == values@.len(),
            spaced_values(vs, 0, syntax) is Some,
            spaced_values(vs, 0, syntax) == after_prefix(values_view(out@), spaced_values(vs, i as int, syntax)),
        decreases values.len() - i,
    {
        if is_whitespace_value(&values[i]) {
            i = i + 1;
        } else {
            let v = match syntax {
                SideSyntax::Margin => parse_margin_top_type(values, i),
                SideSyntax::Padding => parse_padding_top_type(values, i),
                SideSyntax::Radius => {
                    if is_slash_value(&values[i]) {
                        return Err(Error::CssParse(string_of("Elliptical corners are not supported")));
                    }
                    parse_length_percentage_type(values, i)
                },
            };
            match v {
                Ok(x) => {
                    let ghost before = out@;
                    out.push(x);
                    proof {
                        assert(values_view(out@) =~= values_view(before).push(x@));
                        match spaced_values(vs, i + 1, syntax) {
                            Some(Ok(rest)) => {
                                assert(values_view(before) + (seq![x@] + rest) =~= values_view(out@) + rest);
                            },
                            _ => {},
                        }
                    }
                    i = i + 1;
                },
                Err(e) => {
                    return Err(e);
                },
            }
        }
    }
    proof {
        assert(values_view(out@) + Seq::<CssValueModel>::empty() =~= values_view(out@));
    }
    Ok(out)
}

/// The four sides given by a list of one to four values, as copies.
pub fn sides_of(l: &Vec<CssValue>) -> (r: Option<(CssValue, CssValue, CssValue, CssValue)>)
    ensures
        match sides(values_view(l@)) {
            Some((t, rt, b, lf)) => r matches Some((a, c, d, e)) && a@ == t && c@ == rt && d@ == b && e@ == lf,
            None => r is None,
        },
{
    let n = l.len();
    if n == 1 {
        Some((l[0].copy(), l[0].copy(), l[0].copy(), l[0].copy()))
    } else if n == 2 {
        Some((l[0].copy(), l[1].copy(), l[0].copy(), l[1].copy()))
    } else if n == 3 {
        Some((l[0].copy(), l[1].copy(), l[2].copy(), l[1].copy()))
    } else if n == 4 {
        Some((l[0].copy(), l[1].copy(), l[2].copy(), l[3].copy()))
    } else {
        None
    }
}


/// How one to four values give the four sides, top, right, bottom and left
/// (https://www.w3.org/TR/css-box-3/#margin-shorthand): one value gives all four; two
/// give top and bottom, then right and left; three give top, right and left, then
/// bottom; four give top, right, bottom and left in that order. Other counts give no
/// sides.
pub proof fn lemma_sides(l: Seq<CssValueModel>)
    ensures
        l.len() == 1 ==> sides(l) == Some((l[0], l[0], l[0], l[0])),
        l.len() == 2 ==> sides(l) == Some((l[0], l[1], l[0], l[1])),
        l.len() == 3 ==> sides(l) == Some((l[0], l[1], l[2], l[1])),
        l.len() == 4 ==> sides(l) == Some((l[0], l[1], l[2], l[3])),
        (l.len() == 0 || l.len() > 4) ==> sides(l) is None,
{
}

/// Values separated by whitespace are read one by one, in order, whitespace skipped:
/// two values, each read on its own, read together as the list of the two.
pub proof fn lemma_spaced_pair(vs: Seq<ComponentValueModel>, syntax: SideSyntax, a: CssValueModel, b: CssValueModel)
    requires
        vs.len() == 3,
        is_whitespace(vs[1]),
        !is_whitespace(vs[0]),
        !is_whitespace(vs[2]),
        side_at(vs, 0, syntax) == Some(Ok::<CssValueModel, ()>(a)),
        side_at(vs, 2, syntax) == Some(Ok::<CssValueModel, ()>(b)),
    ensures
        spaced_values(vs, 0, syntax) == Some(Ok::<Seq<CssValueModel>, ()>(seq![a, b])),
{
    assert(spaced_values(vs, 3, syntax) == Some(Ok::<Seq<CssValueModel>, ()>(Seq::empty())));
    assert(spaced_values(vs, 2, syntax) == Some(Ok::<Seq<CssValueModel>, ()>(seq![b])));
    assert(spaced_values(vs, 1, syntax) == Some(Ok::<Seq<CssValueModel>, ()>(seq![b])));
    assert(seq![a] + seq![b] =~= seq![a, b]);
}

} // verus!
