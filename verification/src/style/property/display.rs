//! The `display` property: https://drafts.csswg.org/css-display/#the-display-properties
use vstd::prelude::*;

use crate::css::cssom::{
    ComponentValue, ComponentValueModel, cvs_view, ident_of, is_ident_named, is_whitespace, is_whitespace_value,
    lemma_cvs_view,
};
use crate::css::tokenization::CssTokenModel;
use crate::error::Error;
use crate::text::string_of;

verus! {

broadcast use {vstd::seq::group_seq_axioms, lemma_cvs_view};

#[derive(Clone, Debug, Copy, PartialEq, Eq, Structural)]
pub enum DisplayInside {
    Flow,
    Table,
}

#[derive(Clone, Copy, Debug, PartialEq, Eq, Structural)]
pub enum DisplayOutside {
    Block,
    Inline,
}

#[derive(Clone, Copy, Debug, PartialEq, Eq, Structural)]
pub enum DisplayBox {
    /// `display: none`: the element generates no box at all.
    NoBox,
    Contents,
}

/// https://drafts.csswg.org/css-display/#the-display-properties
#[derive(Clone, Copy, Debug, PartialEq, Eq, Structural)]
pub struct DisplayProp {
    pub inside: DisplayInside,
    pub outside: DisplayOutside,
    pub display_box: Option<DisplayBox>,
}

impl Default for DisplayProp {
    /// `display: inline`, that is, flow layout inside an inline box.
    fn default() -> (d: Self)
        ensures
            d == (DisplayProp { inside: DisplayInside::Flow, outside: DisplayOutside::Inline, display_box: None }),
    {
        Self { inside: DisplayInside::Flow, outside: DisplayOutside::Inline, display_box: None }
    }
}

/// `display` with `d` so far, read on from `vs[i]`: a list of `flow`, `table`, `block`
/// and `inline` separated by whitespace, each of the two halves at most once.
/// `Some(Err(()))` where a half comes twice; `None` where reading does not end
/// (another ident panics, any other value is never consumed).
pub open spec fn display_words(
    vs: Seq<ComponentValueModel>,
    i: int,
    d: DisplayProp,
    inside_done: bool,
    outside_done: bool,
) -> Option<Result<DisplayProp, ()>>
    decreases vs.len() - i,
{
    if i < 0 || i >= vs.len() {
        Some(Ok(d))
    } else if is_whitespace(vs[i]) {
        display_words(vs, i + 1, d, inside_done, outside_done)
    } else {
        match ident_of(vs[i]) {
            Some(w) => if w == "flow"@ || w == "table"@ {
                if inside_done {
                    Some(Err(()))
                } else {
                    let inside = if w == "flow"@ {
                        DisplayInside::Flow
                    } else {
                        DisplayInside::Table
                    };
                    display_words(vs, i + 1, DisplayProp { inside, ..d }, true, outside_done)
                }
            } else if w == "block"@ || w == "inline"@ {
                if outside_done {
                    Some(Err(()))
                } else {
                    let outside = if w == "block"@ {
                        DisplayOutside::Block
                    } else {
                        DisplayOutside::Inline
                    };
                    display_words(vs, i + 1, DisplayProp { outside, ..d }, inside_done, true)
                }
            } else {
                None
            },
            None => None,
        }
    }
}

/// The value of the `display` property written as `vs`; `Some(Err(()))` where it is
/// refused, `None` where reading it does not end.
pub open spec fn display_of(vs: Seq<ComponentValueModel>) -> Option<Result<DisplayProp, ()>> {
    let d = DisplayProp { inside: DisplayInside::Flow, outside: DisplayOutside::Inline, display_box: None };
    if vs.len() == 0 {
        Some(Ok(d))
    } else {
        match ident_of(vs[0]) {
            None => Some(Ok(d)),
            Some(w) => if w == "flow"@ || w == "table"@ || w == "block"@ || w == "inline"@ {
                display_words(vs, 0, d, false, false)
            } else if w == "none"@ {
                Some(Ok(DisplayProp { display_box: Some(DisplayBox::NoBox), ..d }))
            } else if w == "contents"@ {
                Some(Ok(DisplayProp { display_box: Some(DisplayBox::Contents), ..d }))
            } else {
                None
            },
        }
    }
}

impl DisplayProp {
    /// Parses the value of the `display` property: a keyword of `display-box`, or the
    /// `display-outside` and `display-inside` keywords in either order.
    pub fn parse(values: &[ComponentValue]) -> (r: Result<Self, Error>)
        requires
            display_of(cvs_view(values@)) is Some,
        ensures
            match display_of(cvs_view(values@)) {
                Some(Ok(d)) => r == Ok::<DisplayProp, Error>(d),
                Some(Err(())) => r matches Err(Error::CssParse(_)),
                None => false,
            },
    {
        let ghost vs = cvs_view(values@);
        let mut d = DisplayProp { inside: DisplayInside::Flow, outside: DisplayOutside::Inline, display_box: None };
        if values.len() == 0 {
            return Ok(d);
        }
        let first = &values[0];
        proof {
            reveal_strlit("none");
            reveal_strlit("contents");
            reveal_strlit("flow");
            reveal_strlit("table");
            reveal_strlit("block");
            reveal_strlit("inline");
            assert("none"@[0] != "flow"@[0] && "none"@[0] != "table"@[0] && "none"@[0] != "block"@[0]
                && "none"@[0] != "inline"@[0]);
            assert("contents"@.len() != "flow"@.len() && "contents"@.len() != "table"@.len()
                && "contents"@.len() != "block"@.len() && "contents"@.len() != "inline"@.len()
                && "contents"@.len() != "none"@.len());
        }
        if is_ident_named(first, "none") {
            d.display_box = Some(DisplayBox::NoBox);
            return Ok(d);
        }
        if is_ident_named(first, "contents") {
            d.display_box = Some(DisplayBox::Contents);
            return Ok(d);
        }
        if !(is_ident_named(first, "flow") || is_ident_named(first, "table") || is_ident_named(first, "block")
            || is_ident_named(first, "inline")) {
            return Ok(d);
        }
        let mut inside_done = false;
        let mut outside_done = false;
        let mut i: usize = 0;
        while i < values.len()
            invariant
                i <= values@.len(),
                vs == cvs_view(values@),
                display_of(vs) == display_words(vs, i as int, d, inside_done, outside_done),
                display_of(vs) is Some,
            decreases values.len() - i,
        {
            let v = &values[i];
            if is_whitespace_value(v) {
                i = i + 1;
            } else if is_ident_named(v, "flow") || is_ident_named(v, "table") {
                if inside_done {
                    return Err(Error::CssParse(string_of("Inside display value is already parsed")));
                }
                d.inside = if is_ident_named(v, "flow") {
                    DisplayInside::Flow
                } else {
                    DisplayInside::Table
                };
                inside_done = true;
                i = i + 1;
            } else {
                let block = is_ident_named(v, "block");
                if outside_done {
                    return Err(Error::CssParse(string_of("Outside display value is already parsed")));
                }
                d.outside = if block {
                    DisplayOutside::Block
                } else {
                    DisplayOutside::Inline
                };
                outside_done = true;
                i = i + 1;
            }
        }
        Ok(d)
    }
}


/// The display keywords, alone: `block` and `inline` set the outer display type (flow
/// inside), `flow` and `table` the inner one (inline outside), `none` generates no box
/// and `contents` only the contents.
pub proof fn lemma_display_keywords(vs: Seq<ComponentValueModel>, w: Seq<char>)
    requires
        vs == seq![ComponentValueModel::PreservedToken(CssTokenModel::Ident(w))],
    ensures
        w == "block"@ ==> display_of(vs) == Some(Ok::<DisplayProp, ()>(DisplayProp { inside: DisplayInside::Flow, outside: DisplayOutside::Block, display_box: None })),
        w == "inline"@ ==> display_of(vs) == Some(Ok::<DisplayProp, ()>(DisplayProp { inside: DisplayInside::Flow, outside: DisplayOutside::Inline, display_box: None })),
        w == "flow"@ ==> display_of(vs) == Some(Ok::<DisplayProp, ()>(DisplayProp { inside: DisplayInside::Flow, outside: DisplayOutside::Inline, display_box: None })),
        w == "table"@ ==> display_of(vs) == Some(Ok::<DisplayProp, ()>(DisplayProp { inside: DisplayInside::Table, outside: DisplayOutside::Inline, display_box: None })),
        w == "none"@ ==> display_of(vs) == Some(Ok::<DisplayProp, ()>(DisplayProp { inside: DisplayInside::Flow, outside: DisplayOutside::Inline, display_box: Some(DisplayBox::NoBox) })),
        w == "contents"@ ==> display_of(vs) == Some(Ok::<DisplayProp, ()>(DisplayProp { inside: DisplayInside::Flow, outside: DisplayOutside::Inline, display_box: Some(DisplayBox::Contents) })),
{
    reveal_strlit("block");
    reveal_strlit("inline");
    reveal_strlit("flow");
    reveal_strlit("table");
    reveal_strlit("none");
    reveal_strlit("contents");
    assert("inline"@.len() != "block"@.len());
    assert("flow"@.len() != "block"@.len());
    assert("flow"@.len() != "inline"@.len());
    assert("table"@[0] != "block"@[0]);
    assert("table"@.len() != "inline"@.len());
    assert("table"@.len() != "flow"@.len());
    assert("none"@.len() != "block"@.len());
    assert("none"@.len() != "inline"@.len());
    assert("none"@[0] != "flow"@[0]);
    assert("none"@.len() != "table"@.len());
    assert("contents"@.len() != "block"@.len());
    assert("contents"@.len() != "inline"@.len());
    assert("contents"@.len() != "flow"@.len());
    assert("contents"@.len() != "table"@.len());
    assert("contents"@.len() != "none"@.len());
    assert(is_whitespace(vs[0]) == false);
    assert(display_words(vs, 1, DisplayProp { inside: DisplayInside::Flow, outside: DisplayOutside::Block, display_box: None }, false, true) == Some(Ok::<DisplayProp, ()>(DisplayProp { inside: DisplayInside::Flow, outside: DisplayOutside::Block, display_box: None })));
    let d0 = DisplayProp { inside: DisplayInside::Flow, outside: DisplayOutside::Inline, display_box: None };
    assert(display_words(vs, 1, d0, false, true) == Some(Ok::<DisplayProp, ()>(d0)));
    assert(display_words(vs, 1, d0, true, false) == Some(Ok::<DisplayProp, ()>(d0)));
    let dt = DisplayProp { inside: DisplayInside::Table, ..d0 };
    assert(display_words(vs, 1, dt, true, false) == Some(Ok::<DisplayProp, ()>(dt)));
}

/// An outer and an inner keyword together, in either order, set both halves: `block
/// table` and `table block` are a block box with table layout inside.
pub proof fn lemma_display_pair(vs: Seq<ComponentValueModel>, a: Seq<char>, b: Seq<char>)
    requires
        vs == seq![
            ComponentValueModel::PreservedToken(CssTokenModel::Ident(a)),
            ComponentValueModel::PreservedToken(CssTokenModel::Whitespace),
            ComponentValueModel::PreservedToken(CssTokenModel::Ident(b)),
        ],
        (a == "block"@ && b == "table"@) || (a == "table"@ && b == "block"@),
    ensures
        display_of(vs) == Some(Ok::<DisplayProp, ()>(DisplayProp { inside: DisplayInside::Table, outside: DisplayOutside::Block, display_box: None })),
{
    reveal_strlit("block");
    reveal_strlit("inline");
    reveal_strlit("flow");
    reveal_strlit("table");
    reveal_strlit("none");
    reveal_strlit("contents");
    assert("inline"@.len() != "block"@.len());
    assert("flow"@.len() != "block"@.len());
    assert("flow"@.len() != "inline"@.len());
    assert("table"@[0] != "block"@[0]);
    assert("table"@.len() != "inline"@.len());
    assert("table"@.len() != "flow"@.len());
    assert("none"@.len() != "block"@.len());
    assert("none"@.len() != "inline"@.len());
    assert("none"@[0] != "flow"@[0]);
    assert("none"@.len() != "table"@.len());
    assert("contents"@.len() != "block"@.len());
    assert("contents"@.len() != "inline"@.len());
    assert("contents"@.len() != "flow"@.len());
    assert("contents"@.len() != "table"@.len());
    assert("contents"@.len() != "none"@.len());
    let d0 = DisplayProp { inside: DisplayInside::Flow, outside: DisplayOutside::Inline, display_box: None };
    let d = DisplayProp { inside: DisplayInside::Table, outside: DisplayOutside::Block, display_box: None };
    assert(display_words(vs, 3, d, true, true) == Some(Ok::<DisplayProp, ()>(d)));
    if a == "block"@ {
        let d1 = DisplayProp { outside: DisplayOutside::Block, ..d0 };
        assert(display_words(vs, 2, d1, false, true) == Some(Ok::<DisplayProp, ()>(d)));
        assert(display_words(vs, 1, d1, false, true) == Some(Ok::<DisplayProp, ()>(d)));
        assert(display_words(vs, 0, d0, false, false) == Some(Ok::<DisplayProp, ()>(d)));
    } else {
        let d1 = DisplayProp { inside: DisplayInside::Table, ..d0 };
        assert(display_words(vs, 2, d1, true, false) == Some(Ok::<DisplayProp, ()>(d)));
        assert(display_words(vs, 1, d1, true, false) == Some(Ok::<DisplayProp, ()>(d)));
        assert(display_words(vs, 0, d0, false, false) == Some(Ok::<DisplayProp, ()>(d)));
    }
}

} // verus!
