//! Pieces of the render tree that do not depend on layout.
use vstd::prelude::*;

use crate::css::cssom::{ComponentValue, ComponentValueModel, cvs_view, ident_of, is_ident_named, lemma_cvs_view};

verus! {

broadcast use lemma_cvs_view;

/// How a node takes part in the render tree.
#[derive(Clone, Copy, Debug, PartialEq, Eq, Structural)]
pub enum DisplayType {
    Inline,
    Block,
    /// `display: none`: the node is left out of the render tree.
    NoBox,
}

/// The display type named by the first of `vs`: `inline`, `block` or `none`.
pub open spec fn display_type_of(vs: Seq<ComponentValueModel>) -> Option<DisplayType> {
    if vs.len() == 0 {
        None
    } else {
        match ident_of(vs[0]) {
            Some(w) => if w == "inline"@ {
                Some(DisplayType::Inline)
            } else if w == "block"@ {
                Some(DisplayType::Block)
            } else if w == "none"@ {
                Some(DisplayType::NoBox)
            } else {
                None
            },
            None => None,
        }
    }
}

impl DisplayType {
    /// The display type named by the first of `values`, which must be one of the
    /// keywords `inline`, `block` and `none`.
    pub fn parse(values: &[ComponentValue]) -> (r: Self)
        requires
            display_type_of(cvs_view(values@)) is Some,
        ensures
            display_type_of(cvs_view(values@)) == Some(r),
    {
        let first = &values[0];
        if is_ident_named(first, "inline") {
            DisplayType::Inline
        } else if is_ident_named(first, "block") {
            DisplayType::Block
        } else {
            DisplayType::NoBox
        }
    }
}


/// The keywords name their display types: `inline`, `block` and `none` give the inline,
/// block and no-box types, wherever they stand first.
pub proof fn lemma_display_type_keywords(vs: Seq<ComponentValueModel>)
    requires
        vs.len() > 0,
    ensures
        ident_of(vs[0]) == Some("inline"@) ==> display_type_of(vs) == Some(DisplayType::Inline),
        ident_of(vs[0]) == Some("block"@) ==> display_type_of(vs) == Some(DisplayType::Block),
        ident_of(vs[0]) == Some("none"@) ==> display_type_of(vs) == Some(DisplayType::NoBox),
{
    reveal_strlit("inline");
    reveal_strlit("block");
    reveal_strlit("none");
    assert("block"@.len() != "inline"@.len());
    assert("none"@.len() != "inline"@.len());
    assert("none"@.len() != "block"@.len());
}

} // verus!
