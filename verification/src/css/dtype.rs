//! Units and keyword sizes of CSS values: https://www.w3.org/TR/css-values-3/
use vstd::prelude::*;

use crate::css::cssom::{ComponentValue, ComponentValueModel, cvs_view, lemma_cvs_view};
use crate::css::parser::copy_number;
use crate::css::token::{CssToken, NumericType};
use crate::css::tokenization::{CssTokenModel, NumberModel};
use crate::error::Error;
use crate::text::{str_eq, string_of};

verus! {

broadcast use lemma_cvs_view;

/// https://www.w3.org/TR/css-values-3/
///
/// A number is kept as the token gave it: an integer, or the text of a number
/// with a fraction or an exponent.
#[derive(Clone, Debug, PartialEq)]
pub enum CssValue {
    Ident(String),
    String(String),
    Integer(i32),
    Number(NumericType),
    Dimension(NumericType, String),
    Percentage(NumericType),
    Length(NumericType, LengthUnit),
    Color { r: u8, g: u8, b: u8, a: NumericType },
    HexColor(String),
    AbsoluteSize(AbsoluteSize),
    RelativeSize(RelativeSize),
}

/// A CSS value as a mathematical value.
pub enum CssValueModel {
    Ident(Seq<char>),
    String(Seq<char>),
    Integer(i32),
    Number(NumberModel),
    Dimension(NumberModel, Seq<char>),
    Percentage(NumberModel),
    Length(NumberModel, LengthUnit),
    Color { r: u8, g: u8, b: u8, a: NumberModel },
    HexColor(Seq<char>),
    AbsoluteSize(AbsoluteSize),
    RelativeSize(RelativeSize),
}

impl View for CssValue {
    type V = CssValueModel;

    open spec fn view(&self) -> CssValueModel {
        match self {
            CssValue::Ident(s) => CssValueModel::Ident(s@),
            CssValue::String(s) => CssValueModel::String(s@),
            CssValue::Integer(i) => CssValueModel::Integer(*i),
            CssValue::Number(n) => CssValueModel::Number(n@),
            CssValue::Dimension(n, u) => CssValueModel::Dimension(n@, u@),
            CssValue::Percentage(n) => CssValueModel::Percentage(n@),
            CssValue::Length(n, u) => CssValueModel::Length(n@, *u),
            CssValue::Color { r, g, b, a } => CssValueModel::Color { r: *r, g: *g, b: *b, a: a@ },
            CssValue::HexColor(s) => CssValueModel::HexColor(s@),
            CssValue::AbsoluteSize(s) => CssValueModel::AbsoluteSize(*s),
            CssValue::RelativeSize(s) => CssValueModel::RelativeSize(*s),
        }
    }
}

impl CssValue {
    /// A copy of the value.
    pub fn copy(&self) -> (r: CssValue)
        ensures
            r@ == self@,
    {
        match self {
            CssValue::Ident(s) => CssValue::Ident(string_of(s.as_str())),
            CssValue::String(s) => CssValue::String(string_of(s.as_str())),
            CssValue::Integer(i) => CssValue::Integer(*i),
            CssValue::Number(n) => CssValue::Number(copy_number(n)),
            CssValue::Dimension(n, u) => CssValue::Dimension(copy_number(n), string_of(u.as_str())),
            CssValue::Percentage(n) => CssValue::Percentage(copy_number(n)),
            CssValue::Length(n, u) => CssValue::Length(copy_number(n), *u),
            CssValue::Color { r, g, b, a } => CssValue::Color { r: *r, g: *g, b: *b, a: copy_number(a) },
            CssValue::HexColor(s) => CssValue::HexColor(string_of(s.as_str())),
            CssValue::AbsoluteSize(s) => CssValue::AbsoluteSize(*s),
            CssValue::RelativeSize(s) => CssValue::RelativeSize(*s),
        }
    }
}

/// The length unit written `name` (as the tokenizer keeps it, case and all).
pub open spec fn unit_of(name: Seq<char>) -> Option<LengthUnit> {
    if name == "cm"@ {
        Some(LengthUnit::AbsoluteLengthUnit(AbsoluteLengthUnit::Cm))
    } else if name == "mm"@ {
        Some(LengthUnit::AbsoluteLengthUnit(AbsoluteLengthUnit::Mm))
    } else if name == "q"@ {
        Some(LengthUnit::AbsoluteLengthUnit(AbsoluteLengthUnit::Q))
    } else if name == "in"@ {
        Some(LengthUnit::AbsoluteLengthUnit(AbsoluteLengthUnit::In))
    } else if name == "pc"@ {
        Some(LengthUnit::AbsoluteLengthUnit(AbsoluteLengthUnit::Pc))
    } else if name == "pt"@ {
        Some(LengthUnit::AbsoluteLengthUnit(AbsoluteLengthUnit::Pt))
    } else if name == "px"@ {
        Some(LengthUnit::AbsoluteLengthUnit(AbsoluteLengthUnit::Px))
    } else if name == "em"@ {
        Some(LengthUnit::RelativeLengthUnit(RelativeLengthUnit::Em))
    } else if name == "ex"@ {
        Some(LengthUnit::RelativeLengthUnit(RelativeLengthUnit::Ex))
    } else if name == "ch"@ {
        Some(LengthUnit::RelativeLengthUnit(RelativeLengthUnit::Ch))
    } else if name == "rem"@ {
        Some(LengthUnit::RelativeLengthUnit(RelativeLengthUnit::Rem))
    } else if name == "vw"@ {
        Some(LengthUnit::RelativeLengthUnit(RelativeLengthUnit::Vw))
    } else if name == "vh"@ {
        Some(LengthUnit::RelativeLengthUnit(RelativeLengthUnit::Vh))
    } else if name == "vmin"@ {
        Some(LengthUnit::RelativeLengthUnit(RelativeLengthUnit::Vmin))
    } else if name == "vmax"@ {
        Some(LengthUnit::RelativeLengthUnit(RelativeLengthUnit::Vmax))
    } else {
        None
    }
}

/// What a value parser gives for the component value at `p`: `Some(Ok(v))` when it
/// reads `v` from it, `Some(Err(()))` when it refuses it, `None` when the reader
/// panics (an unknown unit or keyword).
pub type ValueRead = Option<Result<CssValueModel, ()>>;

/// `<length>` at `p`: a dimension with a known unit, or the integer `0` (as `0px`).
pub open spec fn length_at(vs: Seq<ComponentValueModel>, p: int) -> ValueRead {
    if !(0 <= p < vs.len()) {
        Some(Err(()))
    } else {
        match vs[p] {
            ComponentValueModel::PreservedToken(CssTokenModel::Dimension(n, u)) => match unit_of(u) {
                Some(unit) => Some(Ok(CssValueModel::Length(n, unit))),
                None => None,
            },
            ComponentValueModel::PreservedToken(CssTokenModel::Number(NumberModel::Integer(0))) => Some(
                Ok(CssValueModel::Length(NumberModel::Integer(0), LengthUnit::AbsoluteLengthUnit(AbsoluteLengthUnit::Px))),
            ),
            _ => Some(Err(())),
        }
    }
}

/// `<percentage>` at `p`.
pub open spec fn percentage_at(vs: Seq<ComponentValueModel>, p: int) -> ValueRead {
    if 0 <= p < vs.len() {
        match vs[p] {
            ComponentValueModel::PreservedToken(CssTokenModel::Percentage(n)) => Some(
                Ok(CssValueModel::Percentage(n)),
            ),
            _ => Some(Err(())),
        }
    } else {
        Some(Err(()))
    }
}

/// `<length-percentage>` at `p`: a dimension or number is read as a length, a
/// percentage as a percentage.
pub open spec fn length_percentage_at(vs: Seq<ComponentValueModel>, p: int) -> ValueRead {
    if 0 <= p < vs.len() {
        match vs[p] {
            ComponentValueModel::PreservedToken(CssTokenModel::Dimension(_, _))
            | ComponentValueModel::PreservedToken(CssTokenModel::Number(_)) => length_at(vs, p),
            ComponentValueModel::PreservedToken(CssTokenModel::Percentage(_)) => percentage_at(vs, p),
            _ => Some(Err(())),
        }
    } else {
        Some(Err(()))
    }
}

/// The result of an exec value parser against its reading `read`.
pub open spec fn read_result(r: Result<CssValue, Error>, read: ValueRead) -> bool {
    match read {
        Some(Ok(v)) => r matches Ok(x) && x@ == v,
        Some(Err(())) => r matches Err(Error::CssParse(_)),
        None => false,
    }
}

/// The length unit named `name`.
fn unit_named(name: &str) -> (r: Option<LengthUnit>)
    ensures
        r == unit_of(name@),
{
    if str_eq(name, "cm") {
        Some(LengthUnit::AbsoluteLengthUnit(AbsoluteLengthUnit::Cm))
    } else if str_eq(name, "mm") {
        Some(LengthUnit::AbsoluteLengthUnit(AbsoluteLengthUnit::Mm))
    } else if str_eq(name, "q") {
        Some(LengthUnit::AbsoluteLengthUnit(AbsoluteLengthUnit::Q))
    } else if str_eq(name, "in") {
        Some(LengthUnit::AbsoluteLengthUnit(AbsoluteLengthUnit::In))
    } else if str_eq(name, "pc") {
        Some(LengthUnit::AbsoluteLengthUnit(AbsoluteLengthUnit::Pc))
    } else if str_eq(name, "pt") {
        Some(LengthUnit::AbsoluteLengthUnit(AbsoluteLengthUnit::Pt))
    } else if str_eq(name, "px") {
        Some(LengthUnit::AbsoluteLengthUnit(AbsoluteLengthUnit::Px))
    } else if str_eq(name, "em") {
        Some(LengthUnit::RelativeLengthUnit(RelativeLengthUnit::Em))
    } else if str_eq(name, "ex") {
        Some(LengthUnit::RelativeLengthUnit(RelativeLengthUnit::Ex))
    } else if str_eq(name, "ch") {
        Some(LengthUnit::RelativeLengthUnit(RelativeLengthUnit::Ch))
    } else if str_eq(name, "rem") {
        Some(LengthUnit::RelativeLengthUnit(RelativeLengthUnit::Rem))
    } else if str_eq(name, "vw") {
        Some(LengthUnit::RelativeLengthUnit(RelativeLengthUnit::Vw))
    } else if str_eq(name, "vh") {
        Some(LengthUnit::RelativeLengthUnit(RelativeLengthUnit::Vh))
    } else if str_eq(name, "vmin") {
        Some(LengthUnit::RelativeLengthUnit(RelativeLengthUnit::Vmin))
    } else if str_eq(name, "vmax") {
        Some(LengthUnit::RelativeLengthUnit(RelativeLengthUnit::Vmax))
    } else {
        None
    }
}

/// Reads a `<length>` from `values[p]`.
pub fn parse_length_type(values: &[ComponentValue], p: usize) -> (r: Result<CssValue, Error>)
    requires
        length_at(cvs_view(values@), p as int) is Some,
    ensures
        read_result(r, length_at(cvs_view(values@), p as int)),
{
    if p >= values.len() {
        return Err(Error::CssParse(string_of("Expected length value but found none")));
    }
    match &values[p] {
        ComponentValue::PreservedToken(CssToken::Dimension(size, unit)) => {
            match unit_named(unit.as_str()) {
                Some(u) => Ok(CssValue::Length(copy_number(size), u)),
                None => Err(Error::CssParse(string_of("Unknown length unit"))),
            }
        },
        ComponentValue::PreservedToken(CssToken::Number(NumericType::Integer(0))) => Ok(
            CssValue::Length(NumericType::Integer(0), LengthUnit::AbsoluteLengthUnit(AbsoluteLengthUnit::Px)),
        ),
        _ => Err(Error::CssParse(string_of("Expected length value"))),
    }
}

/// Reads a `<percentage>` from `values[p]`.
pub fn parse_percentage_type(values: &[ComponentValue], p: usize) -> (r: Result<CssValue, Error>)
    ensures
        read_result(r, percentage_at(cvs_view(values@), p as int)),
{
    if p >= values.len() {
        return Err(Error::CssParse(string_of("Expected percentage value but found none")));
    }
    match &values[p] {
        ComponentValue::PreservedToken(CssToken::Percentage(size)) => Ok(CssValue::Percentage(copy_number(size))),
        _ => Err(Error::CssParse(string_of("Expected percentage value"))),
    }
}

/// Reads a `<length-percentage>` from `values[p]`.
pub fn parse_length_percentage_type(values: &[ComponentValue], p: usize) -> (r: Result<CssValue, Error>)
    requires
        length_percentage_at(cvs_view(values@), p as int) is Some,
    ensures
        read_result(r, length_percentage_at(cvs_view(values@), p as int)),
{
    if p >= values.len() {
        return Err(Error::CssParse(string_of("Expected length or percentage value but found none")));
    }
    match &values[p] {
        ComponentValue::PreservedToken(CssToken::Dimension(..))
        | ComponentValue::PreservedToken(CssToken::Number(..)) => parse_length_type(values, p),
        ComponentValue::PreservedToken(CssToken::Percentage(..)) => parse_percentage_type(values, p),
        _ => Err(Error::CssParse(string_of("Expected length or percentage value"))),
    }
}

/// The unit of a `<length>`.
#[derive(Clone, Copy, Debug, PartialEq, Eq, Structural)]
pub enum LengthUnit {
    RelativeLengthUnit(RelativeLengthUnit),
    AbsoluteLengthUnit(AbsoluteLengthUnit),
}

/// The name of a length unit, as it is written in a dump: the name of its variant.
pub open spec fn unit_name(u: LengthUnit) -> Seq<char> {
    match u {
        LengthUnit::RelativeLengthUnit(RelativeLengthUnit::Em) => "Em"@,
        LengthUnit::RelativeLengthUnit(RelativeLengthUnit::Ex) => "Ex"@,
        LengthUnit::RelativeLengthUnit(RelativeLengthUnit::Ch) => "Ch"@,
        LengthUnit::RelativeLengthUnit(RelativeLengthUnit::Rem) => "Rem"@,
        LengthUnit::RelativeLengthUnit(RelativeLengthUnit::Vw) => "Vw"@,
        LengthUnit::RelativeLengthUnit(RelativeLengthUnit::Vh) => "Vh"@,
        LengthUnit::RelativeLengthUnit(RelativeLengthUnit::Vmin) => "Vmin"@,
        LengthUnit::RelativeLengthUnit(RelativeLengthUnit::Vmax) => "Vmax"@,
        LengthUnit::AbsoluteLengthUnit(AbsoluteLengthUnit::Cm) => "Cm"@,
        LengthUnit::AbsoluteLengthUnit(AbsoluteLengthUnit::Mm) => "Mm"@,
        LengthUnit::AbsoluteLengthUnit(AbsoluteLengthUnit::Q) => "Q"@,
        LengthUnit::AbsoluteLengthUnit(AbsoluteLengthUnit::In) => "In"@,
        LengthUnit::AbsoluteLengthUnit(AbsoluteLengthUnit::Pc) => "Pc"@,
        LengthUnit::AbsoluteLengthUnit(AbsoluteLengthUnit::Pt) => "Pt"@,
        LengthUnit::AbsoluteLengthUnit(AbsoluteLengthUnit::Px) => "Px"@,
    }
}

impl LengthUnit {
    /// The name of the unit: see `unit_name`.
    pub fn to_string(&self) -> (s: String)
        ensures
            s@ == unit_name(*self),
    {
        let name = match self {
            LengthUnit::RelativeLengthUnit(RelativeLengthUnit::Em) => "Em",
            LengthUnit::RelativeLengthUnit(RelativeLengthUnit::Ex) => "Ex",
            LengthUnit::RelativeLengthUnit(RelativeLengthUnit::Ch) => "Ch",
            LengthUnit::RelativeLengthUnit(RelativeLengthUnit::Rem) => "Rem",
            LengthUnit::RelativeLengthUnit(RelativeLengthUnit::Vw) => "Vw",
            LengthUnit::RelativeLengthUnit(RelativeLengthUnit::Vh) => "Vh",
            LengthUnit::RelativeLengthUnit(RelativeLengthUnit::Vmin) => "Vmin",
            LengthUnit::RelativeLengthUnit(RelativeLengthUnit::Vmax) => "Vmax",
            LengthUnit::AbsoluteLengthUnit(AbsoluteLengthUnit::Cm) => "Cm",
            LengthUnit::AbsoluteLengthUnit(AbsoluteLengthUnit::Mm) => "Mm",
            LengthUnit::AbsoluteLengthUnit(AbsoluteLengthUnit::Q) => "Q",
            LengthUnit::AbsoluteLengthUnit(AbsoluteLengthUnit::In) => "In",
            LengthUnit::AbsoluteLengthUnit(AbsoluteLengthUnit::Pc) => "Pc",
            LengthUnit::AbsoluteLengthUnit(AbsoluteLengthUnit::Pt) => "Pt",
            LengthUnit::AbsoluteLengthUnit(AbsoluteLengthUnit::Px) => "Px",
        };
        string_of(name)
    }
}

/// https://www.w3.org/TR/css-values-3/#relative-lengths
#[derive(Clone, Copy, Debug, PartialEq, Eq, Structural)]
pub enum RelativeLengthUnit {
    Em,
    Ex,
    Ch,
    Rem,
    Vw,
    Vh,
    Vmin,
    Vmax,
}

/// https://www.w3.org/TR/css-values-3/#absolute-lengths
#[derive(Clone, Copy, Debug, PartialEq, Eq, Structural)]
pub enum AbsoluteLengthUnit {
    Cm,
    Mm,
    Q,
    In,
    Pc,
    Pt,
    Px,
}

/// https://www.w3.org/TR/css-fonts-3/#absolute-size-value
#[derive(Clone, Copy, Debug, PartialEq, Eq, Structural)]
pub enum AbsoluteSize {
    XXSmall,
    XSmall,
    Small,
    Medium,
    Large,
    XLarge,
    XXLarge,
}

/// https://www.w3.org/TR/css-fonts-3/#relative-size-value
#[derive(Clone, Copy, Debug, PartialEq, Eq, Structural)]
pub enum RelativeSize {
    Larger,
    Smaller,
}


/// Each length unit reads as its own unit, wherever a dimension with it stands: `cm`,
/// `mm`, `q`, `in`, `pc`, `pt` and `px` as the absolute units of those names, `em`, `ex`,
/// `ch`, `rem`, `vw`, `vh`, `vmin` and `vmax` as the relative ones; the number is kept,
/// and the integer 0 reads as `0px`. A length is also a length-percentage.
pub proof fn lemma_length_units(vs: Seq<ComponentValueModel>, p: int, n: NumberModel)
    requires
        0 <= p < vs.len(),
    ensures
        vs[p] == ComponentValueModel::PreservedToken(CssTokenModel::Dimension(n, "cm"@)) ==> length_at(vs, p) == Some(Ok::<CssValueModel, ()>(CssValueModel::Length(n, LengthUnit::AbsoluteLengthUnit(AbsoluteLengthUnit::Cm)))),
        vs[p] == ComponentValueModel::PreservedToken(CssTokenModel::Dimension(n, "mm"@)) ==> length_at(vs, p) == Some(Ok::<CssValueModel, ()>(CssValueModel::Length(n, LengthUnit::AbsoluteLengthUnit(AbsoluteLengthUnit::Mm)))),
        vs[p] == ComponentValueModel::PreservedToken(CssTokenModel::Dimension(n, "q"@)) ==> length_at(vs, p) == Some(Ok::<CssValueModel, ()>(CssValueModel::Length(n, LengthUnit::AbsoluteLengthUnit(AbsoluteLengthUnit::Q)))),
        vs[p] == ComponentValueModel::PreservedToken(CssTokenModel::Dimension(n, "in"@)) ==> length_at(vs, p) == Some(Ok::<CssValueModel, ()>(CssValueModel::Length(n, LengthUnit::AbsoluteLengthUnit(AbsoluteLengthUnit::In)))),
        vs[p] == ComponentValueModel::PreservedToken(CssTokenModel::Dimension(n, "pc"@)) ==> length_at(vs, p) == Some(Ok::<CssValueModel, ()>(CssValueModel::Length(n, LengthUnit::AbsoluteLengthUnit(AbsoluteLengthUnit::Pc)))),
        vs[p] == ComponentValueModel::PreservedToken(CssTokenModel::Dimension(n, "pt"@)) ==> length_at(vs, p) == Some(Ok::<CssValueModel, ()>(CssValueModel::Length(n, LengthUnit::AbsoluteLengthUnit(AbsoluteLengthUnit::Pt)))),
        vs[p] == ComponentValueModel::PreservedToken(CssTokenModel::Dimension(n, "px"@)) ==> length_at(vs, p) == Some(Ok::<CssValueModel, ()>(CssValueModel::Length(n, LengthUnit::AbsoluteLengthUnit(AbsoluteLengthUnit::Px)))),
        vs[p] == ComponentValueModel::PreservedToken(CssTokenModel::Dimension(n, "em"@)) ==> length_at(vs, p) == Some(Ok::<CssValueModel, ()>(CssValueModel::Length(n, LengthUnit::RelativeLengthUnit(RelativeLengthUnit::Em)))),
        vs[p] == ComponentValueModel::PreservedToken(CssTokenModel::Dimension(n, "ex"@)) ==> length_at(vs, p) == Some(Ok::<CssValueModel, ()>(CssValueModel::Length(n, LengthUnit::RelativeLengthUnit(RelativeLengthUnit::Ex)))),
        vs[p] == ComponentValueModel::PreservedToken(CssTokenModel::Dimension(n, "ch"@)) ==> length_at(vs, p) == Some(Ok::<CssValueModel, ()>(CssValueModel::Length(n, LengthUnit::RelativeLengthUnit(RelativeLengthUnit::Ch)))),
        vs[p] == ComponentValueModel::PreservedToken(CssTokenModel::Dimension(n, "rem"@)) ==> length_at(vs, p) == Some(Ok::<CssValueModel, ()>(CssValueModel::Length(n, LengthUnit::RelativeLengthUnit(RelativeLengthUnit::Rem)))),
        vs[p] == ComponentValueModel::PreservedToken(CssTokenModel::Dimension(n, "vw"@)) ==> length_at(vs, p) == Some(Ok::<CssValueModel, ()>(CssValueModel::Length(n, LengthUnit::RelativeLengthUnit(RelativeLengthUnit::Vw)))),
        vs[p] == ComponentValueModel::PreservedToken(CssTokenModel::Dimension(n, "vh"@)) ==> length_at(vs, p) == Some(Ok::<CssValueModel, ()>(CssValueModel::Length(n, LengthUnit::RelativeLengthUnit(RelativeLengthUnit::Vh)))),
        vs[p] == ComponentValueModel::PreservedToken(CssTokenModel::Dimension(n, "vmin"@)) ==> length_at(vs, p) == Some(Ok::<CssValueModel, ()>(CssValueModel::Length(n, LengthUnit::RelativeLengthUnit(RelativeLengthUnit::Vmin)))),
        vs[p] == ComponentValueModel::PreservedToken(CssTokenModel::Dimension(n, "vmax"@)) ==> length_at(vs, p) == Some(Ok::<CssValueModel, ()>(CssValueModel::Length(n, LengthUnit::RelativeLengthUnit(RelativeLengthUnit::Vmax)))),
        vs[p] == ComponentValueModel::PreservedToken(CssTokenModel::Number(NumberModel::Integer(0))) ==> length_at(vs, p)
            == Some(Ok::<CssValueModel, ()>(CssValueModel::Length(NumberModel::Integer(0), LengthUnit::AbsoluteLengthUnit(AbsoluteLengthUnit::Px)))),
        vs[p] is PreservedToken && (vs[p]->PreservedToken_0 is Dimension || vs[p]->PreservedToken_0 is Number) ==> length_percentage_at(vs, p) == length_at(vs, p),
{
    reveal_strlit("cm");
    reveal_strlit("mm");
    reveal_strlit("q");
    reveal_strlit("in");
    reveal_strlit("pc");
    reveal_strlit("pt");
    reveal_strlit("px");
    reveal_strlit("em");
    reveal_strlit("ex");
    reveal_strlit("ch");
    reveal_strlit("rem");
    reveal_strlit("vw");
    reveal_strlit("vh");
    reveal_strlit("vmin");
    reveal_strlit("vmax");
    assert("mm"@[0] != "cm"@[0]);
    assert("q"@.len() != "cm"@.len());
    assert("q"@.len() != "mm"@.len());
    assert("in"@[0] != "cm"@[0]);
    assert("in"@[0] != "mm"@[0]);
    assert("in"@.len() != "q"@.len());
    assert("pc"@[0] != "cm"@[0]);
    assert("pc"@[0] != "mm"@[0]);
    assert("pc"@.len() != "q"@.len());
    assert("pc"@[0] != "in"@[0]);
    assert("pt"@[0] != "cm"@[0]);
    assert("pt"@[0] != "mm"@[0]);
    assert("pt"@.len() != "q"@.len());
    assert("pt"@[0] != "in"@[0]);
    assert("pt"@[1] != "pc"@[1]);
    assert("px"@[0] != "cm"@[0]);
    assert("px"@[0] != "mm"@[0]);
    assert("px"@.len() != "q"@.len());
    assert("px"@[0] != "in"@[0]);
    assert("px"@[1] != "pc"@[1]);
    assert("px"@[1] != "pt"@[1]);
    assert("em"@[0] != "cm"@[0]);
    assert("em"@[0] != "mm"@[0]);
    assert("em"@.len() != "q"@.len());
    assert("em"@[0] != "in"@[0]);
    assert("em"@[0] != "pc"@[0]);
    assert("em"@[0] != "pt"@[0]);
    assert("em"@[0] != "px"@[0]);
    assert("ex"@[0] != "cm"@[0]);
    assert("ex"@[0] != "mm"@[0]);
    assert("ex"@.len() != "q"@.len());
    assert("ex"@[0] != "in"@[0]);
    assert("ex"@[0] != "pc"@[0]);
    assert("ex"@[0] != "pt"@[0]);
    assert("ex"@[0] != "px"@[0]);
    assert("ex"@[1] != "em"@[1]);
    assert("ch"@[1] != "cm"@[1]);
    assert("ch"@[0] != "mm"@[0]);
    assert("ch"@.len() != "q"@.len());
    assert("ch"@[0] != "in"@[0]);
    assert("ch"@[0] != "pc"@[0]);
    assert("ch"@[0] != "pt"@[0]);
    assert("ch"@[0] != "px"@[0]);
    assert("ch"@[0] != "em"@[0]);
    assert("ch"@[0] != "ex"@[0]);
    assert("rem"@.len() != "cm"@.len());
    assert("rem"@.len() != "mm"@.len());
    assert("rem"@.len() != "q"@.len());
    assert("rem"@.len() != "in"@.len());
    assert("rem"@.len() != "pc"@.len());
    assert("rem"@.len() != "pt"@.len());
    assert("rem"@.len() != "px"@.len());
    assert("rem"@.len() != "em"@.len());
    assert("rem"@.len() != "ex"@.len());
    assert("rem"@.len() != "ch"@.len());
    assert("vw"@[0] != "cm"@[0]);
    assert("vw"@[0] != "mm"@[0]);
    assert("vw"@.len() != "q"@.len());
    assert("vw"@[0] != "in"@[0]);
    assert("vw"@[0] != "pc"@[0]);
    assert("vw"@[0] != "pt"@[0]);
    assert("vw"@[0] != "px"@[0]);
    assert("vw"@[0] != "em"@[0]);
    assert("vw"@[0] != "ex"@[0]);
    assert("vw"@[0] != "ch"@[0]);
    assert("vw"@.len() != "rem"@.len());
    assert("vh"@[0] != "cm"@[0]);
    assert("vh"@[0] != "mm"@[0]);
    assert("vh"@.len() != "q"@.len());
    assert("vh"@[0] != "in"@[0]);
    assert("vh"@[0] != "pc"@[0]);
    assert("vh"@[0] != "pt"@[0]);
    assert("vh"@[0] != "px"@[0]);
    assert("vh"@[0] != "em"@[0]);
    assert("vh"@[0] != "ex"@[0]);
    assert("vh"@[0] != "ch"@[0]);
    assert("vh"@.len() != "rem"@.len());
    assert("vh"@[1] != "vw"@[1]);
    assert("vmin"@.len() != "cm"@.len());
    assert("vmin"@.len() != "mm"@.len());
    assert("vmin"@.len() != "q"@.len());
    assert("vmin"@.len() != "in"@.len());
    assert("vmin"@.len() != "pc"@.len());
    assert("vmin"@.len() != "pt"@.len());
    assert("vmin"@.len() != "px"@.len());
    assert("vmin"@.len() != "em"@.len());
    assert("vmin"@.len() != "ex"@.len());
    assert("vmin"@.len() != "ch"@.len());
    assert("vmin"@.len() != "rem"@.len());
    assert("vmin"@.len() != "vw"@.len());
    assert("vmin"@.len() != "vh"@.len());
    assert("vmax"@.len() != "cm"@.len());
    assert("vmax"@.len() != "mm"@.len());
    assert("vmax"@.len() != "q"@.len());
    assert("vmax"@.len() != "in"@.len());
    assert("vmax"@.len() != "pc"@.len());
    assert("vmax"@.len() != "pt"@.len());
    assert("vmax"@.len() != "px"@.len());
    assert("vmax"@.len() != "em"@.len());
    assert("vmax"@.len() != "ex"@.len());
    assert("vmax"@.len() != "ch"@.len());
    assert("vmax"@.len() != "rem"@.len());
    assert("vmax"@.len() != "vw"@.len());
    assert("vmax"@.len() != "vh"@.len());
    assert("vmax"@[2] != "vmin"@[2]);
}

} // verus!
