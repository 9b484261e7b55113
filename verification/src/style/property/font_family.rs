//! The `font-family` property: https://developer.mozilla.org/en-US/docs/Web/CSS/font-family
use vstd::prelude::*;

use crate::css::cssom::{ComponentValue, ComponentValueModel, cvs_view, is_whitespace, is_whitespace_value, lemma_cvs_view};
use crate::css::dtype::{CssValue, CssValueModel};
use crate::css::token::CssToken;
use crate::css::tokenization::CssTokenModel;
use crate::error::Error;
use crate::style::property::sides::values_view;
use crate::text::string_of;

verus! {

broadcast use {vstd::seq::group_seq_axioms, lemma_cvs_view};

/// https://developer.mozilla.org/en-US/docs/Web/CSS/font-family
#[derive(Clone, Debug, PartialEq)]
pub struct FontFamilyProp {
    pub family: Vec<CssValue>,
}

impl Default for FontFamilyProp {
    /// `"Times New Roman", serif`.
    fn default() -> (p: Self)
        ensures
            values_view(p.family@) == seq![
                CssValueModel::String("Times New Roman"@),
                CssValueModel::Ident("serif"@),
            ],
    {
        let family = vec![CssValue::String(string_of("Times New Roman")), CssValue::Ident(string_of("serif"))];
        assert(values_view(family@) =~= seq![
            CssValueModel::String("Times New Roman"@),
            CssValueModel::Ident("serif"@),
        ]);
        Self { family }
    }
}

/// The family names of `vs` from `i` on: names and strings, each after whitespace and
/// at most one comma; a value that is not a preserved token is passed over, any other
/// token refuses the list (`None`). `comma_ok` says whether a comma may come before the next name.
pub open spec fn families_from(vs: Seq<ComponentValueModel>, i: int, comma_ok: bool) -> Option<Seq<CssValueModel>>
    decreases vs.len() - i,
{
    if i < 0 || i >= vs.len() {
        Some(Seq::empty())
    } else if is_whitespace(vs[i]) {
        families_from(vs, i + 1, comma_ok)
    } else if comma_ok && vs[i] == ComponentValueModel::PreservedToken(CssTokenModel::Comma) {
        families_from(vs, i + 1, false)
    } else {
        match vs[i] {
            ComponentValueModel::PreservedToken(CssTokenModel::Ident(f))
            | ComponentValueModel::PreservedToken(CssTokenModel::QuotedString(f)) => match families_from(
                vs,
                i + 1,
                true,
            ) {
                Some(rest) => Some(seq![CssValueModel::String(f)] + rest),
                None => None,
            },
            ComponentValueModel::PreservedToken(_) => None,
            _ => families_from(vs, i + 1, true),
        }
    }
}

/// `prefix` put before the names of a reading.
pub open spec fn prefixed(prefix: Seq<CssValueModel>, r: Option<Seq<CssValueModel>>) -> Option<Seq<CssValueModel>> {
    match r {
        Some(rest) => Some(prefix + rest),
        None => None,
    }
}

impl FontFamilyProp {
    /// Parses a list of family names: see `families_from`.
    pub fn parse(values: &[ComponentValue]) -> (r: Result<Self, Error>)
        ensures
            match families_from(cvs_view(values@), 0, true) {
                Some(l) => r matches Ok(p) && values_view(p.family@) == l,
                None => r matches Err(Error::CssParse(_)),
            },
    {
        let ghost vs = cvs_view(values@);
        proof {
            lemma_cvs_view(values@);
        }
        let mut family: Vec<CssValue> = Vec::new();
        let mut comma_ok = true;
        let mut i: usize = 0;
        proof {
            if let Some(rest) = families_from(vs, 0, true) {
                assert(values_view(family@) + rest =~= rest);
            }
        }
        while i < values.len()
            invariant
                i <= values@.len(),
                vs == cvs_view(values@),
                vs.len() == values@.len(),
                families_from(vs, 0, true) == prefixed(values_view(family@), families_from(vs, i as int, comma_ok)),
            decreases values.len() - i,
        {
            let v = &values[i];
            if is_whitespace_value(v) {
                i = i + 1;
            } else if comma_ok && matches!(v, ComponentValue::PreservedToken(CssToken::Comma)) {
                comma_ok = false;
                i = i + 1;
            } else {
                match v {
                    ComponentValue::PreservedToken(CssToken::Ident(f))
                    | ComponentValue::PreservedToken(CssToken::String(f)) => {
                        let ghost before = family@;
                        family.push(CssValue::String(string_of(f.as_str())));
                        proof {
                            assert(values_view(family@) =~= values_view(before).push(CssValueModel::String(f@)));
                            if let Some(rest) = families_from(vs, i + 1, true) {
                                assert(values_view(before) + (seq![CssValueModel::String(f@)] + rest)
                                    =~= values_view(family@) + rest);
                            }
                        }
                    },
                    ComponentValue::PreservedToken(_) => {
                        return Err(Error::CssParse(string_of("Expected <family-name> or <generic-family>")));
                    },
                    _ => {},
                }
                comma_ok = true;
                i = i + 1;
            }
        }
        assert(values_view(family@) + Seq::<CssValueModel>::empty() =~= values_view(family@));
        Ok(Self { family })
    }
}


/// Family names come out in the order written, a name or a string each, with a comma
/// and whitespace between them passed over; a second comma in a row refuses the list.
pub proof fn lemma_family_list(a: Seq<char>, b: Seq<char>)
    ensures
        families_from(
            seq![
                ComponentValueModel::PreservedToken(CssTokenModel::Ident(a)),
                ComponentValueModel::PreservedToken(CssTokenModel::Comma),
                ComponentValueModel::PreservedToken(CssTokenModel::Whitespace),
                ComponentValueModel::PreservedToken(CssTokenModel::QuotedString(b)),
            ],
            0,
            true,
        ) == Some(seq![CssValueModel::String(a), CssValueModel::String(b)]),
        families_from(
            seq![
                ComponentValueModel::PreservedToken(CssTokenModel::Ident(a)),
                ComponentValueModel::PreservedToken(CssTokenModel::Comma),
                ComponentValueModel::PreservedToken(CssTokenModel::Comma),
                ComponentValueModel::PreservedToken(CssTokenModel::Ident(b)),
            ],
            0,
            true,
        ) is None,
{
    let x = ComponentValueModel::PreservedToken(CssTokenModel::Ident(a));
    let comma = ComponentValueModel::PreservedToken(CssTokenModel::Comma);
    let ws = ComponentValueModel::PreservedToken(CssTokenModel::Whitespace);
    let y = ComponentValueModel::PreservedToken(CssTokenModel::QuotedString(b));
    let v1 = seq![x, comma, ws, y];
    assert(is_whitespace(ws));
    assert(!is_whitespace(x) && !is_whitespace(comma) && !is_whitespace(y));
    assert(families_from(v1, 4, true) == Some(Seq::<CssValueModel>::empty()));
    assert(families_from(v1, 3, false) == Some(seq![CssValueModel::String(b)]));
    assert(families_from(v1, 2, false) == families_from(v1, 3, false));
    assert(families_from(v1, 1, true) == families_from(v1, 2, false));
    assert(seq![CssValueModel::String(a)] + seq![CssValueModel::String(b)] =~= seq![CssValueModel::String(a), CssValueModel::String(b)]);
    let z = ComponentValueModel::PreservedToken(CssTokenModel::Ident(b));
    let v2 = seq![x, comma, comma, z];
    assert(families_from(v2, 2, false) is None);
    assert(families_from(v2, 1, true) == families_from(v2, 2, false));
}
} // verus!
