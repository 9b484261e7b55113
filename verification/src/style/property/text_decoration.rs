//! The `text-decoration-line` and `text-decoration-style` properties:
//! https://drafts.csswg.org/css-text-decor/#text-decoration-line-property
use vstd::prelude::*;

use crate::css::cssom::{
    ComponentValue, ComponentValueModel, cvs_view, ident_of, is_ident_named, is_whitespace, is_whitespace_value,
    lemma_cvs_view,
};
use crate::css::dtype::{CssValue, CssValueModel};
use crate::error::Error;
use crate::style::property::sides::values_view;
use crate::text::string_of;

verus! {

broadcast use {vstd::seq::group_seq_axioms, lemma_cvs_view};

/// The cursor after the whitespace that starts at `i`.
pub open spec fn skip_spaces(vs: Seq<ComponentValueModel>, i: int) -> int
    decreases vs.len() - i,
{
    if 0 <= i < vs.len() && is_whitespace(vs[i]) {
        skip_spaces(vs, i + 1)
    } else {
        i
    }
}

/// The line keywords other than `none`.
pub open spec fn is_line_keyword(w: Seq<char>) -> bool {
    w == "underline"@ || w == "overline"@ || w == "line-through"@
}

/// Lines read from `vs[i]` on after the lines `taken`: `underline`, `overline` and
/// `line-through`, each at most once, separated by whitespace. Reading stops before the
/// first value that is not a line keyword not yet taken; where nothing was taken, such an
/// ident is refused. The lines and the index where reading stopped.
pub open spec fn lines_from(vs: Seq<ComponentValueModel>, i: int, taken: Seq<CssValueModel>) -> Result<
    (Seq<CssValueModel>, int),
    (),
>
    decreases vs.len() - i,
{
    if i < 0 || i >= vs.len() {
        Ok((taken, i))
    } else if is_whitespace(vs[i]) {
        lines_from(vs, i + 1, taken)
    } else {
        match ident_of(vs[i]) {
            Some(w) => if is_line_keyword(w) && !taken.contains(CssValueModel::Ident(w)) {
                lines_from(vs, i + 1, taken.push(CssValueModel::Ident(w)))
            } else if taken.len() == 0 {
                Err(())
            } else {
                Ok((taken, i))
            },
            None => Ok((taken, i)),
        }
    }
}

/// `<'text-decoration-line'>` read from `vs[p]` on, after whitespace: `none`, or
/// lines as `lines_from` reads them. The lines and the index after them.
pub open spec fn text_decoration_line_at(vs: Seq<ComponentValueModel>, p: int) -> Result<
    (Seq<CssValueModel>, int),
    (),
> {
    let j = skip_spaces(vs, p);
    if 0 <= j < vs.len() && ident_of(vs[j]) == Some("none"@) {
        Ok((seq![CssValueModel::Ident("none"@)], j + 1))
    } else {
        lines_from(vs, j, Seq::empty())
    }
}

proof fn lemma_lines_from_distinct(vs: Seq<ComponentValueModel>, i: int, taken: Seq<CssValueModel>)
    requires
        taken.no_duplicates(),
    ensures
        lines_from(vs, i, taken) matches Ok((ls, _)) ==> ls.no_duplicates(),
    decreases vs.len() - i,
{
    if 0 <= i < vs.len() {
        if is_whitespace(vs[i]) {
            lemma_lines_from_distinct(vs, i + 1, taken);
        } else if let Some(w) = ident_of(vs[i]) {
            if is_line_keyword(w) && !taken.contains(CssValueModel::Ident(w)) {
                let next = taken.push(CssValueModel::Ident(w));
                assert forall|a: int, b: int| 0 <= a < b < next.len() implies next[a] != next[b] by {
                    if b == taken.len() {
                        assert(taken.contains(next[a]));
                    }
                }
                lemma_lines_from_distinct(vs, i + 1, next);
            }
        }
    }
}

/// A value of `text-decoration-line` names each line at most once.
pub proof fn lemma_lines_distinct(vs: Seq<ComponentValueModel>, p: int)
    ensures
        text_decoration_line_at(vs, p) matches Ok((ls, _)) ==> ls.no_duplicates(),
{
    lemma_lines_from_distinct(vs, skip_spaces(vs, p), Seq::empty());
}

/// The style keywords.
pub open spec fn is_style_keyword(w: Seq<char>) -> bool {
    w == "solid"@ || w == "double"@ || w == "dotted"@ || w == "dashed"@ || w == "wavy"@
}

/// `<'text-decoration-style'>` read from `vs[p]` on, after whitespace: one style
/// keyword, and the index after it; anything else is refused.
pub open spec fn text_decoration_style_at(vs: Seq<ComponentValueModel>, p: int) -> Result<(CssValueModel, int), ()> {
    let j = skip_spaces(vs, p);
    if 0 <= j < vs.len() && ident_of(vs[j]) is Some && is_style_keyword(ident_of(vs[j])->0) {
        Ok((CssValueModel::Ident(ident_of(vs[j])->0), j + 1))
    } else {
        Err(())
    }
}

/// The cursor after the whitespace that starts at `p`.
pub(crate) fn skip_whitespace(values: &[ComponentValue], p: usize) -> (r: usize)
    requires
        p <= values@.len(),
    ensures
        r == skip_spaces(cvs_view(values@), p as int),
        p <= r <= values@.len(),
{
    let ghost vs = cvs_view(values@);
    let mut q = p;
    while q < values.len() && is_whitespace_value(&values[q])
        invariant
            p <= q <= values@.len(),
            vs == cvs_view(values@),
            skip_spaces(vs, p as int) == skip_spaces(vs, q as int),
        decreases values.len() - q,
    {
        q = q + 1;
    }
    q
}

/// The three line keywords are distinct.
proof fn lemma_line_keywords_differ()
    ensures
        "underline"@ != "overline"@,
        "underline"@ != "line-through"@,
        "overline"@ != "line-through"@,
        "none"@ != "underline"@,
        "none"@ != "overline"@,
        "none"@ != "line-through"@,
{
    reveal_strlit("underline");
    reveal_strlit("overline");
    reveal_strlit("line-through");
    reveal_strlit("none");
    assert("underline"@.len() != "overline"@.len());
    assert("underline"@.len() != "line-through"@.len());
    assert("overline"@.len() != "line-through"@.len());
    assert("none"@.len() != "underline"@.len());
    assert("none"@.len() != "overline"@.len());
    assert("none"@.len() != "line-through"@.len());
}

/// Reads a `<'text-decoration-line'>` from `values[p]` on: the lines and the index
/// after them.
fn parse_text_decoration_line_type(values: &[ComponentValue], p: usize) -> (r: Result<(Vec<CssValue>, usize), Error>)
    requires
        p <= values@.len(),
    ensures
        match text_decoration_line_at(cvs_view(values@), p as int) {
            Ok((ls, q)) => r matches Ok((l, q2)) && values_view(l@) == ls && q2 == q,
            Err(()) => r matches Err(Error::CssParse(_)),
        },
{
    let ghost vs = cvs_view(values@);
    proof {
        lemma_line_keywords_differ();
    }
    let j = skip_whitespace(values, p);
    if j < values.len() && is_ident_named(&values[j], "none") {
        let mut l: Vec<CssValue> = Vec::new();
        l.push(CssValue::Ident(string_of("none")));
        proof {
            assert(values_view(l@) =~= seq![CssValueModel::Ident("none"@)]);
        }
        return Ok((l, j + 1));
    }
    let mut l: Vec<CssValue> = Vec::new();
    let mut under = false;
    let mut over = false;
    let mut through = false;
    let mut i = j;
    proof {
        assert(values_view(l@) =~= Seq::<CssValueModel>::empty());
    }
    while i < values.len()
        invariant
            j <= i <= values@.len(),
            vs == cvs_view(values@),
            vs.len() == values@.len(),
            text_decoration_line_at(vs, p as int) == lines_from(vs, i as int, values_view(l@)),
            under == values_view(l@).contains(CssValueModel::Ident("underline"@)),
            over == values_view(l@).contains(CssValueModel::Ident("overline"@)),
            through == values_view(l@).contains(CssValueModel::Ident("line-through"@)),
            values_view(l@).len() == 0 <==> !(under || over || through),
            forall|k: int|
                0 <= k < values_view(l@).len() ==> (#[trigger] values_view(l@)[k] matches CssValueModel::Ident(w)
                    && is_line_keyword(w)),
        decreases values.len() - i,
    {
        let v = &values[i];
        proof {
            lemma_line_keywords_differ();
        }
        if is_whitespace_value(v) {
            i = i + 1;
        } else {
            let is_under = is_ident_named(v, "underline");
            let is_over = is_ident_named(v, "overline");
            let is_through = is_ident_named(v, "line-through");
            let ghost before = values_view(l@);
            if (is_under && !under) || (is_over && !over) || (is_through && !through) {
                let word = if is_under {
                    "underline"
                } else if is_over {
                    "overline"
                } else {
                    "line-through"
                };
                l.push(CssValue::Ident(string_of(word)));
                proof {
                    let w = ident_of(vs[i as int])->0;
                    assert(w == word@);
                    assert(values_view(l@) =~= before.push(CssValueModel::Ident(w)));
                    vstd::seq_lib::lemma_seq_contains_after_push(before, CssValueModel::Ident(w), CssValueModel::Ident("underline"@));
                    vstd::seq_lib::lemma_seq_contains_after_push(before, CssValueModel::Ident(w), CssValueModel::Ident("overline"@));
                    vstd::seq_lib::lemma_seq_contains_after_push(before, CssValueModel::Ident(w), CssValueModel::Ident("line-through"@));
                    vstd::seq_lib::lemma_seq_contains_after_push(before, CssValueModel::Ident(w), CssValueModel::Ident(w));
                    assert(values_view(l@).contains(CssValueModel::Ident(w)));
                }
                if is_under {
                    under = true;
                } else if is_over {
                    over = true;
                } else {
                    through = true;
                }
                i = i + 1;
            } else {
                proof {
                    match ident_of(vs[i as int]) {
                        Some(w) => {
                            if is_line_keyword(w) {
                                assert(before.contains(CssValueModel::Ident(w)));
                            }
                        },
                        None => {},
                    }
                }
                if !under && !over && !through && crate::style::property::sides::is_ident_value(v) {
                    return Err(Error::CssParse(string_of("Invalid text-decoration-line value")));
                }
                return Ok((l, i));
            }
        }
    }
    Ok((l, i))
}

/// Parses the value of `text-decoration-line`: `none`, or `underline`, `overline` and
/// `line-through` in any order, each at most once; reading stops at the first other value
/// (which is refused where it is an ident and no line came before it).
pub fn parse_text_decoration_line(values: &[ComponentValue]) -> (r: Result<Vec<CssValue>, Error>)
    ensures
        match text_decoration_line_at(cvs_view(values@), 0) {
            Ok((ls, _)) => r matches Ok(l) && values_view(l@) == ls,
            Err(()) => r matches Err(Error::CssParse(_)),
        },
{
    match parse_text_decoration_line_type(values, 0) {
        Ok((l, _)) => Ok(l),
        Err(e) => Err(e),
    }
}

/// Reads a `<'text-decoration-style'>` from `values[p]` on: the style and the index
/// after it.
fn parse_text_decoration_style_type(values: &[ComponentValue], p: usize) -> (r: Result<(CssValue, usize), Error>)
    requires
        p <= values@.len(),
    ensures
        match text_decoration_style_at(cvs_view(values@), p as int) {
            Ok((s, q)) => r matches Ok((v, q2)) && v@ == s && q2 == q,
            Err(()) => r matches Err(Error::CssParse(_)),
        },
{
    let j = skip_whitespace(values, p);
    if j < values.len() {
        let v = &values[j];
        let word = if is_ident_named(v, "solid") {
            Some("solid")
        } else if is_ident_named(v, "double") {
            Some("double")
        } else if is_ident_named(v, "dotted") {
            Some("dotted")
        } else if is_ident_named(v, "dashed") {
            Some("dashed")
        } else if is_ident_named(v, "wavy") {
            Some("wavy")
        } else {
            None
        };
        if let Some(w) = word {
            return Ok((CssValue::Ident(string_of(w)), j + 1));
        }
    }
    Err(Error::CssParse(string_of("Invalid text-decoration-style value")))
}

/// Parses the value of `text-decoration-style`: one of `solid`, `double`, `dotted`,
/// `dashed` and `wavy`, after any whitespace.
pub fn parse_text_decoration_style(values: &[ComponentValue]) -> (r: Result<CssValue, Error>)
    ensures
        match text_decoration_style_at(cvs_view(values@), 0) {
            Ok((s, _)) => r matches Ok(v) && v@ == s,
            Err(()) => r matches Err(Error::CssParse(_)),
        },
{
    match parse_text_decoration_style_type(values, 0) {
        Ok((v, _)) => Ok(v),
        Err(e) => Err(e),
    }
}


/// Each style keyword reads as itself, after any whitespace, and the reading goes on
/// after it; any other ident is refused.
pub proof fn lemma_style_keywords(vs: Seq<ComponentValueModel>, p: int, j: int)
    requires
        0 <= p,
        j == skip_spaces(vs, p),
        0 <= j < vs.len(),
    ensures
        ident_of(vs[j]) == Some("solid"@) ==> text_decoration_style_at(vs, p) == Ok::<(CssValueModel, int), ()>((CssValueModel::Ident("solid"@), j + 1)),
        ident_of(vs[j]) == Some("double"@) ==> text_decoration_style_at(vs, p) == Ok::<(CssValueModel, int), ()>((CssValueModel::Ident("double"@), j + 1)),
        ident_of(vs[j]) == Some("dotted"@) ==> text_decoration_style_at(vs, p) == Ok::<(CssValueModel, int), ()>((CssValueModel::Ident("dotted"@), j + 1)),
        ident_of(vs[j]) == Some("dashed"@) ==> text_decoration_style_at(vs, p) == Ok::<(CssValueModel, int), ()>((CssValueModel::Ident("dashed"@), j + 1)),
        ident_of(vs[j]) == Some("wavy"@) ==> text_decoration_style_at(vs, p) == Ok::<(CssValueModel, int), ()>((CssValueModel::Ident("wavy"@), j + 1)),
        ident_of(vs[j]) matches Some(w) && !(w == "solid"@ || w == "double"@ || w == "dotted"@ || w == "dashed"@
            || w == "wavy"@) ==> text_decoration_style_at(vs, p) is Err,
{
    reveal_strlit("solid");
    reveal_strlit("double");
    reveal_strlit("dotted");
    reveal_strlit("dashed");
    reveal_strlit("wavy");
    assert("double"@.len() != "solid"@.len());
    assert("dotted"@.len() != "solid"@.len());
    assert("dotted"@[2] != "double"@[2]);
    assert("dashed"@.len() != "solid"@.len());
    assert("dashed"@[1] != "double"@[1]);
    assert("dashed"@[1] != "dotted"@[1]);
    assert("wavy"@.len() != "solid"@.len());
    assert("wavy"@.len() != "double"@.len());
    assert("wavy"@.len() != "dotted"@.len());
    assert("wavy"@.len() != "dashed"@.len());
}

/// The line keywords read as themselves: `none` alone gives `none`, and a line keyword
/// first (after any whitespace) comes first among the lines read.
pub proof fn lemma_line_keywords(vs: Seq<ComponentValueModel>, p: int, j: int)
    requires
        0 <= p,
        j == skip_spaces(vs, p),
        0 <= j < vs.len(),
    ensures
        ident_of(vs[j]) == Some("none"@) ==> text_decoration_line_at(vs, p) == Ok::<(Seq<CssValueModel>, int), ()>((seq![CssValueModel::Ident("none"@)], j + 1)),
        forall|w: Seq<char>|
            ident_of(vs[j]) == Some(w) && #[trigger] is_line_keyword(w) ==> (text_decoration_line_at(vs, p) matches Ok(
                (ls, _),
            ) && ls.len() >= 1 && ls[0] == CssValueModel::Ident(w)),
{
    lemma_line_keywords_differ();
    if let Some(w) = ident_of(vs[j]) {
        if is_line_keyword(w) {
            let first = seq![CssValueModel::Ident(w)];
            assert(Seq::<CssValueModel>::empty().push(CssValueModel::Ident(w)) =~= first);
            assert(w != "none"@);
            assert(!is_whitespace(vs[j]));
            assert(!Seq::<CssValueModel>::empty().contains(CssValueModel::Ident(w)));
            assert(text_decoration_line_at(vs, p) == lines_from(vs, j, Seq::empty()));
            assert(lines_from(vs, j, Seq::empty()) == lines_from(vs, j + 1, first));
            lemma_lines_prefix(vs, j + 1, first);
            let ls = lines_from(vs, j + 1, first)->Ok_0.0;
            assert(ls[0] == ls.subrange(0, 1)[0]);
        }
    }
}

/// Reading lines on after `taken` keeps `taken` as the start of what is read.
proof fn lemma_lines_prefix(vs: Seq<ComponentValueModel>, i: int, taken: Seq<CssValueModel>)
    requires
        taken.len() >= 1,
    ensures
        lines_from(vs, i, taken) matches Ok((ls, _)) && ls.len() >= taken.len() && ls.subrange(0, taken.len() as int) == taken,
    decreases vs.len() - i,
{
    if 0 <= i < vs.len() {
        if is_whitespace(vs[i]) {
            lemma_lines_prefix(vs, i + 1, taken);
        } else if let Some(w) = ident_of(vs[i]) {
            if is_line_keyword(w) && !taken.contains(CssValueModel::Ident(w)) {
                let next = taken.push(CssValueModel::Ident(w));
                lemma_lines_prefix(vs, i + 1, next);
                let ls = lines_from(vs, i, taken)->Ok_0.0;
                assert(ls.subrange(0, taken.len() as int) =~= ls.subrange(0, next.len() as int).subrange(0, taken.len() as int));
                assert(next.subrange(0, taken.len() as int) =~= taken);
            } else {
                assert(taken.subrange(0, taken.len() as int) =~= taken);
            }
        } else {
            assert(taken.subrange(0, taken.len() as int) =~= taken);
        }
    } else {
        assert(taken.subrange(0, taken.len() as int) =~= taken);
    }
}

} // verus!
