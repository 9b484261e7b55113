//! The `font-size` property: https://developer.mozilla.org/en-US/docs/Web/CSS/font-size
use vstd::prelude::*;

use crate::css::cssom::{ComponentValue, ComponentValueModel, cvs_view, ident_of, is_ident_named, lemma_cvs_view};
use crate::css::dtype::{
    AbsoluteSize, CssValue, CssValueModel, RelativeSize, ValueRead, length_percentage_at,
    parse_length_percentage_type, read_result,
};
use crate::error::Error;
use crate::text::string_of;

verus! {

broadcast use lemma_cvs_view;

/// The value of `font-size`.
#[derive(Clone, Debug, PartialEq)]
pub struct FontSizeProp {
    pub size: CssValue,
}

impl Default for FontSizeProp {
    /// `medium`.
    fn default() -> (p: Self)
        ensures
            p.size == CssValue::AbsoluteSize(AbsoluteSize::Medium),
    {
        Self { size: CssValue::AbsoluteSize(AbsoluteSize::Medium) }
    }
}

/// The `<absolute-size>` keyword `w`.
pub open spec fn absolute_size_of(w: Seq<char>) -> Option<AbsoluteSize> {
    if w == "xx-small"@ {
        Some(AbsoluteSize::XXSmall)
    } else if w == "x-small"@ {
        Some(AbsoluteSize::XSmall)
    } else if w == "small"@ {
        Some(AbsoluteSize::Small)
    } else if w == "medium"@ {
        Some(AbsoluteSize::Medium)
    } else if w == "large"@ {
        Some(AbsoluteSize::Large)
    } else if w == "x-large"@ {
        Some(AbsoluteSize::XLarge)
    } else if w == "xx-large"@ {
        Some(AbsoluteSize::XXLarge)
    } else {
        None
    }
}

/// The `<relative-size>` keyword `w`.
pub open spec fn relative_size_of(w: Seq<char>) -> Option<RelativeSize> {
    if w == "larger"@ {
        Some(RelativeSize::Larger)
    } else if w == "smaller"@ {
        Some(RelativeSize::Smaller)
    } else {
        None
    }
}

/// `<absolute-size>` at `p`.
pub open spec fn absolute_size_at(vs: Seq<ComponentValueModel>, p: int) -> ValueRead {
    if 0 <= p < vs.len() {
        match ident_of(vs[p]) {
            Some(w) => match absolute_size_of(w) {
                Some(s) => Some(Ok(CssValueModel::AbsoluteSize(s))),
                None => Some(Err(())),
            },
            None => Some(Err(())),
        }
    } else {
        Some(Err(()))
    }
}

/// `<relative-size>` at `p`.
pub open spec fn relative_size_at(vs: Seq<ComponentValueModel>, p: int) -> ValueRead {
    if 0 <= p < vs.len() {
        match ident_of(vs[p]) {
            Some(w) => match relative_size_of(w) {
                Some(s) => Some(Ok(CssValueModel::RelativeSize(s))),
                None => Some(Err(())),
            },
            None => Some(Err(())),
        }
    } else {
        Some(Err(()))
    }
}

/// The value of `font-size` written as `vs`: a size keyword, else a `<length-percentage>`.
pub open spec fn font_size_of(vs: Seq<ComponentValueModel>) -> ValueRead {
    if vs.len() > 0 && ident_of(vs[0]) is Some {
        let w = ident_of(vs[0])->0;
        if absolute_size_of(w) is Some {
            absolute_size_at(vs, 0)
        } else if relative_size_of(w) is Some {
            relative_size_at(vs, 0)
        } else {
            Some(Err(()))
        }
    } else {
        length_percentage_at(vs, 0)
    }
}

/// Each size keyword reads as its own size, wherever it stands: `xx-small`, `x-small`,
/// `small`, `medium`, `large`, `x-large` and `xx-large` give the seven absolute sizes in
/// that order, and `larger` and `smaller` the two relative sizes; as the value of
/// `font-size`, a keyword first gives its size.
pub proof fn lemma_size_keywords(vs: Seq<ComponentValueModel>, p: int)
    requires
        0 <= p < vs.len(),
    ensures
        ident_of(vs[p]) == Some("xx-small"@) ==> absolute_size_at(vs, p) == Some(Ok::<CssValueModel, ()>(CssValueModel::AbsoluteSize(AbsoluteSize::XXSmall))),
        ident_of(vs[p]) == Some("x-small"@) ==> absolute_size_at(vs, p) == Some(Ok::<CssValueModel, ()>(CssValueModel::AbsoluteSize(AbsoluteSize::XSmall))),
        ident_of(vs[p]) == Some("small"@) ==> absolute_size_at(vs, p) == Some(Ok::<CssValueModel, ()>(CssValueModel::AbsoluteSize(AbsoluteSize::Small))),
        ident_of(vs[p]) == Some("medium"@) ==> absolute_size_at(vs, p) == Some(Ok::<CssValueModel, ()>(CssValueModel::AbsoluteSize(AbsoluteSize::Medium))),
        ident_of(vs[p]) == Some("large"@) ==> absolute_size_at(vs, p) == Some(Ok::<CssValueModel, ()>(CssValueModel::AbsoluteSize(AbsoluteSize::Large))),
        ident_of(vs[p]) == Some("x-large"@) ==> absolute_size_at(vs, p) == Some(Ok::<CssValueModel, ()>(CssValueModel::AbsoluteSize(AbsoluteSize::XLarge))),
        ident_of(vs[p]) == Some("xx-large"@) ==> absolute_size_at(vs, p) == Some(Ok::<CssValueModel, ()>(CssValueModel::AbsoluteSize(AbsoluteSize::XXLarge))),
        ident_of(vs[0]) == Some("xx-small"@) ==> font_size_of(vs) == Some(Ok::<CssValueModel, ()>(CssValueModel::AbsoluteSize(AbsoluteSize::XXSmall))),
        ident_of(vs[0]) == Some("x-small"@) ==> font_size_of(vs) == Some(Ok::<CssValueModel, ()>(CssValueModel::AbsoluteSize(AbsoluteSize::XSmall))),
        ident_of(vs[0]) == Some("small"@) ==> font_size_of(vs) == Some(Ok::<CssValueModel, ()>(CssValueModel::AbsoluteSize(AbsoluteSize::Small))),
        ident_of(vs[0]) == Some("medium"@) ==> font_size_of(vs) == Some(Ok::<CssValueModel, ()>(CssValueModel::AbsoluteSize(AbsoluteSize::Medium))),
        ident_of(vs[0]) == Some("large"@) ==> font_size_of(vs) == Some(Ok::<CssValueModel, ()>(CssValueModel::AbsoluteSize(AbsoluteSize::Large))),
        ident_of(vs[0]) == Some("x-large"@) ==> font_size_of(vs) == Some(Ok::<CssValueModel, ()>(CssValueModel::AbsoluteSize(AbsoluteSize::XLarge))),
        ident_of(vs[0]) == Some("xx-large"@) ==> font_size_of(vs) == Some(Ok::<CssValueModel, ()>(CssValueModel::AbsoluteSize(AbsoluteSize::XXLarge))),
        ident_of(vs[0]) == Some("larger"@) ==> font_size_of(vs) == Some(Ok::<CssValueModel, ()>(CssValueModel::RelativeSize(RelativeSize::Larger))),
        ident_of(vs[0]) == Some("smaller"@) ==> font_size_of(vs) == Some(Ok::<CssValueModel, ()>(CssValueModel::RelativeSize(RelativeSize::Smaller))),
{
    lemma_size_keywords_differ();
}

/// The size keywords are different words.
proof fn lemma_size_keywords_differ()
    ensures
        "xx-small"@ != "x-small"@,
        "xx-small"@ != "small"@,
        "xx-small"@ != "medium"@,
        "xx-small"@ != "large"@,
        "xx-small"@ != "x-large"@,
        "xx-small"@ != "xx-large"@,
        "xx-small"@ != "larger"@,
        "xx-small"@ != "smaller"@,
        "x-small"@ != "small"@,
        "x-small"@ != "medium"@,
        "x-small"@ != "large"@,
        "x-small"@ != "x-large"@,
        "x-small"@ != "xx-large"@,
        "x-small"@ != "larger"@,
        "x-small"@ != "smaller"@,
        "small"@ != "medium"@,
        "small"@ != "large"@,
        "small"@ != "x-large"@,
        "small"@ != "xx-large"@,
        "small"@ != "larger"@,
        "small"@ != "smaller"@,
        "medium"@ != "large"@,
        "medium"@ != "x-large"@,
        "medium"@ != "xx-large"@,
        "medium"@ != "larger"@,
        "medium"@ != "smaller"@,
        "large"@ != "x-large"@,
        "large"@ != "xx-large"@,
        "large"@ != "larger"@,
        "large"@ != "smaller"@,
        "x-large"@ != "xx-large"@,
        "x-large"@ != "larger"@,
        "x-large"@ != "smaller"@,
        "xx-large"@ != "larger"@,
        "xx-large"@ != "smaller"@,
        "larger"@ != "smaller"@,
{
    reveal_strlit("xx-small");
    reveal_strlit("x-small");
    reveal_strlit("small");
    reveal_strlit("medium");
    reveal_strlit("large");
    reveal_strlit("x-large");
    reveal_strlit("xx-large");
    reveal_strlit("larger");
    reveal_strlit("smaller");
    assert("xx-small"@.len() != "x-small"@.len());
    assert("xx-small"@.len() != "small"@.len());
    assert("xx-small"@.len() != "medium"@.len());
    assert("xx-small"@.len() != "large"@.len());
    assert("xx-small"@.len() != "x-large"@.len());
    assert("xx-small"@[3] != "xx-large"@[3]);
    assert("xx-small"@.len() != "larger"@.len());
    assert("xx-small"@.len() != "smaller"@.len());
    assert("x-small"@.len() != "small"@.len());
    assert("x-small"@.len() != "medium"@.len());
    assert("x-small"@.len() != "large"@.len());
    assert("x-small"@[2] != "x-large"@[2]);
    assert("x-small"@.len() != "xx-large"@.len());
    assert("x-small"@.len() != "larger"@.len());
    assert("x-small"@[0] != "smaller"@[0]);
    assert("small"@.len() != "medium"@.len());
    assert("small"@[0] != "large"@[0]);
    assert("small"@.len() != "x-large"@.len());
    assert("small"@.len() != "xx-large"@.len());
    assert("small"@.len() != "larger"@.len());
    assert("small"@.len() != "smaller"@.len());
    assert("medium"@.len() != "large"@.len());
    assert("medium"@.len() != "x-large"@.len());
    assert("medium"@.len() != "xx-large"@.len());
    assert("medium"@[0] != "larger"@[0]);
    assert("medium"@.len() != "smaller"@.len());
    assert("large"@.len() != "x-large"@.len());
    assert("large"@.len() != "xx-large"@.len());
    assert("large"@.len() != "larger"@.len());
    assert("large"@.len() != "smaller"@.len());
    assert("x-large"@.len() != "xx-large"@.len());
    assert("x-large"@.len() != "larger"@.len());
    assert("x-large"@[0] != "smaller"@[0]);
    assert("xx-large"@.len() != "larger"@.len());
    assert("xx-large"@.len() != "smaller"@.len());
    assert("larger"@.len() != "smaller"@.len());
}

/// Reads an `<absolute-size>` keyword from `values[p]`.
pub fn parse_absolute_size_type(values: &[ComponentValue], p: usize) -> (r: Result<CssValue, Error>)
    ensures
        read_result(r, absolute_size_at(cvs_view(values@), p as int)),
{
    if p >= values.len() {
        return Err(Error::CssParse(string_of("Expected absolute size value but found none")));
    }
    let v = &values[p];
    proof {
        lemma_size_keywords_differ();
        lemma_cvs_view(values@);
    }
    if is_ident_named(v, "xx-small") {
        Ok(CssValue::AbsoluteSize(AbsoluteSize::XXSmall))
    } else if is_ident_named(v, "x-small") {
        Ok(CssValue::AbsoluteSize(AbsoluteSize::XSmall))
    } else if is_ident_named(v, "small") {
        Ok(CssValue::AbsoluteSize(AbsoluteSize::Small))
    } else if is_ident_named(v, "medium") {
        Ok(CssValue::AbsoluteSize(AbsoluteSize::Medium))
    } else if is_ident_named(v, "large") {
        Ok(CssValue::AbsoluteSize(AbsoluteSize::Large))
    } else if is_ident_named(v, "x-large") {
        Ok(CssValue::AbsoluteSize(AbsoluteSize::XLarge))
    } else if is_ident_named(v, "xx-large") {
        Ok(CssValue::AbsoluteSize(AbsoluteSize::XXLarge))
    } else {
        Err(Error::CssParse(string_of("Invalid absolute size value")))
    }
}

/// Reads a `<relative-size>` keyword from `values[p]`.
pub fn parse_relative_size_type(values: &[ComponentValue], p: usize) -> (r: Result<CssValue, Error>)
    ensures
        read_result(r, relative_size_at(cvs_view(values@), p as int)),
{
    if p >= values.len() {
        return Err(Error::CssParse(string_of("Expected relative size value but found none")));
    }
    let v = &values[p];
    proof {
        lemma_size_keywords_differ();
        lemma_cvs_view(values@);
    }
    if is_ident_named(v, "larger") {
        Ok(CssValue::RelativeSize(RelativeSize::Larger))
    } else if is_ident_named(v, "smaller") {
        Ok(CssValue::RelativeSize(RelativeSize::Smaller))
    } else {
        Err(Error::CssParse(string_of("Invalid relative size value")))
    }
}

/// Whether `c` is an ident token.
fn is_ident(c: &ComponentValue) -> (r: bool)
    ensures
        r == (ident_of(crate::css::cssom::cv_view(*c)) is Some),
{
    match c {
        ComponentValue::PreservedToken(crate::css::token::CssToken::Ident(_)) => true,
        _ => false,
    }
}

impl FontSizeProp {
    /// Parses the value of `font-size`.
    pub fn parse(values: &[ComponentValue]) -> (r: Result<Self, Error>)
        requires
            font_size_of(cvs_view(values@)) is Some,
        ensures
            match font_size_of(cvs_view(values@)) {
                Some(Ok(v)) => r matches Ok(p) && p.size@ == v,
                Some(Err(())) => r matches Err(Error::CssParse(_)),
                None => false,
            },
    {
        proof {
            lemma_size_keywords_differ();
        }
        if values.len() > 0 && is_ident(&values[0]) {
            let v = &values[0];
            if is_ident_named(v, "xx-small") || is_ident_named(v, "x-small") || is_ident_named(v, "small")
                || is_ident_named(v, "medium") || is_ident_named(v, "large") || is_ident_named(v, "x-large")
                || is_ident_named(v, "xx-large") {
                Ok(Self { size: parse_absolute_size_type(values, 0)? })
            } else if is_ident_named(v, "larger") || is_ident_named(v, "smaller") {
                Ok(Self { size: parse_relative_size_type(values, 0)? })
            } else {
                Err(Error::CssParse(string_of("Expected absolute or relative size value")))
            }
        } else {
            Ok(Self { size: parse_length_percentage_type(values, 0)? })
        }
    }
}

/// Parses the value of `font-size`: the same reading as `FontSizeProp::parse`.
pub fn parse_font_size(values: &[ComponentValue]) -> (r: Result<FontSizeProp, Error>)
    requires
        font_size_of(cvs_view(values@)) is Some,
    ensures
        match font_size_of(cvs_view(values@)) {
            Some(Ok(v)) => r matches Ok(p) && p.size@ == v,
            Some(Err(())) => r matches Err(Error::CssParse(_)),
            None => false,
        },
{
    FontSizeProp::parse(values)
}

} // verus!
