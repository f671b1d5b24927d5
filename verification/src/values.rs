//! The closed tagged value model for one cell of a table.
//!
//! A cell is exactly one of Boolean, Integer, Text or Null.  The tag is
//! derived either from a driver type tag at fetch time (`from_driver`)
//! or from a declared type name at decode time (`from_declared`), and
//! every value has a total, lossless rendering apart from the known
//! collapse of Null onto the empty string.
use vstd::prelude::*;

use crate::num::{dec_render, parse_i32_or_default, parse_i32_or_zero, render_i32};
use crate::text::str_eq;

verus! {

/// One cell's value together with its type tag.
#[derive(Clone, Debug, PartialEq, Eq)]
pub enum TaggedValue {
    Boolean(bool),
    Integer(i32),
    Text(String),
    Null,
}

/// The mathematical shape of a `TaggedValue`, with text as `Seq<char>`.
#[verifier::ext_equal]
pub enum ValModel {
    Boolean(bool),
    Integer(int),
    Text(Seq<char>),
    Null,
}

impl View for TaggedValue {
    type V = ValModel;

    open spec fn view(&self) -> ValModel {
        match self {
            TaggedValue::Boolean(b) => ValModel::Boolean(*b),
            TaggedValue::Integer(i) => ValModel::Integer(*i as int),
            TaggedValue::Text(s) => ValModel::Text(s@),
            TaggedValue::Null => ValModel::Null,
        }
    }
}

impl DeepView for TaggedValue {
    type V = ValModel;

    open spec fn deep_view(&self) -> ValModel {
        self.view()
    }
}

/// The canonical text of a value: `true`/`false`, decimal digits, the
/// text verbatim, or the empty string for Null.
pub open spec fn render_spec(v: ValModel) -> Seq<char> {
    match v {
        ValModel::Boolean(b) => if b {
            "true"@
        } else {
            "false"@
        },
        ValModel::Integer(i) => dec_render(i),
        ValModel::Text(s) => s,
        ValModel::Null => Seq::<char>::empty(),
    }
}

/// The reverse constructor from a declared type name and raw text:
/// `boolean` compares the text with `true`, `text` keeps it verbatim,
/// `number` parses it with a silent default of zero, and any other name
/// yields Null.
pub open spec fn from_declared_spec(declared: Seq<char>, raw: Seq<char>) -> ValModel {
    if declared == "boolean"@ {
        ValModel::Boolean(raw == "true"@)
    } else if declared == "text"@ {
        ValModel::Text(raw)
    } else if declared == "number"@ {
        ValModel::Integer(parse_i32_or_zero(raw))
    } else {
        ValModel::Null
    }
}

/// The driver-side type tag of a fetched column, as the value model
/// distinguishes them.
#[derive(Clone, Copy, Debug, PartialEq, Eq, Structural)]
pub enum DriverType {
    Bool,
    Int2,
    Int4,
    Int8,
    Text,
    Other,
}

/// What extracting one cell from the driver produced: a typed value, or
/// a failed extraction.
#[derive(Clone, Debug)]
pub enum DriverValue {
    Bool(bool),
    Int(i32),
    Text(String),
    Missing,
}

pub open spec fn driver_int_type(t: DriverType) -> bool {
    t == DriverType::Int2 || t == DriverType::Int4 || t == DriverType::Int8
}

/// The tag that `from_driver` assigns: a recognized tag with a matching
/// extraction keeps the value; everything else becomes Null.
pub open spec fn from_driver_spec(t: DriverType, raw: DriverValue) -> ValModel {
    match raw {
        DriverValue::Bool(b) => if t == DriverType::Bool {
            ValModel::Boolean(b)
        } else {
            ValModel::Null
        },
        DriverValue::Int(i) => if driver_int_type(t) {
            ValModel::Integer(i as int)
        } else {
            ValModel::Null
        },
        DriverValue::Text(s) => if t == DriverType::Text {
            ValModel::Text(s@)
        } else {
            ValModel::Null
        },
        DriverValue::Missing => ValModel::Null,
    }
}

impl TaggedValue {
    /// Construct a value from a live driver type tag and the outcome of
    /// extracting the cell; total, never failing the caller.
    pub fn from_driver(t: DriverType, raw: DriverValue) -> (r: TaggedValue)
        ensures
            r@ == from_driver_spec(t, raw),
    {
        match raw {
            DriverValue::Bool(b) => if t == DriverType::Bool {
                TaggedValue::Boolean(b)
            } else {
                TaggedValue::Null
            },
            DriverValue::Int(i) => if t == DriverType::Int2 || t == DriverType::Int4 || t
                == DriverType::Int8 {
                TaggedValue::Integer(i)
            } else {
                TaggedValue::Null
            },
            DriverValue::Text(s) => if t == DriverType::Text {
                TaggedValue::Text(s)
            } else {
                TaggedValue::Null
            },
            DriverValue::Missing => TaggedValue::Null,
        }
    }

    /// Reconstruct a value from a declared type name and raw text.
    pub fn from_declared(declared: &str, raw: &str) -> (r: TaggedValue)
        ensures
            r@ == from_declared_spec(declared@, raw@),
    {
        if str_eq(declared, "boolean") {
            TaggedValue::Boolean(str_eq(raw, "true"))
        } else if str_eq(declared, "text") {
            TaggedValue::Text(raw.to_owned())
        } else if str_eq(declared, "number") {
            TaggedValue::Integer(parse_i32_or_default(raw))
        } else {
            TaggedValue::Null
        }
    }

    /// The canonical text rendering of the value.
    pub fn render(&self) -> (r: String)
        ensures
            r@ == render_spec(self@),
    {
        match self {
            TaggedValue::Boolean(b) => if *b {
                "true".to_owned()
            } else {
                "false".to_owned()
            },
            TaggedValue::Integer(i) => render_i32(*i),
            TaggedValue::Text(s) => s.clone(),
            TaggedValue::Null => String::new(),
        }
    }
}

/// The declared-type dispatcher of the original row model, kept as a thin
/// front over `TaggedValue::from_declared`.
pub struct PostgresRowMatcher {}

impl PostgresRowMatcher {
    pub fn match_type(t: &String, data: &String) -> (r: TaggedValue)
        ensures
            r@ == from_declared_spec(t@, data@),
    {
        TaggedValue::from_declared(t.as_str(), data.as_str())
    }
}

// ---------------------------------------------------------------------------
// Laws of the value model
// ---------------------------------------------------------------------------

/// Null and the empty Text render identically: the format's known,
/// documented collapse, asserted rather than repaired.
pub proof fn lemma_null_empty_text_collapse()
    ensures
        render_spec(ValModel::Null) == Seq::<char>::empty(),
        render_spec(ValModel::Text(Seq::<char>::empty())) == Seq::<char>::empty(),
        render_spec(ValModel::Null) == render_spec(ValModel::Text(Seq::<char>::empty())),
{
}

/// A declared type rebuilds a value when reconstructing its rendering
/// returns the value itself; the round-trip law is stated over this.
pub open spec fn rebuilds(declared: Seq<char>, v: ValModel) -> bool {
    from_declared_spec(declared, render_spec(v)) == v
}

/// `boolean` rebuilds every Boolean value.
pub proof fn lemma_boolean_rebuilds(b: bool)
    ensures
        rebuilds("boolean"@, ValModel::Boolean(b)),
{
    reveal_strlit("true");
    reveal_strlit("false");
    assert("false"@.len() == 5);
    assert("true"@.len() == 4);
}

/// `number` rebuilds every Integer value in `i32`'s range.
pub proof fn lemma_number_rebuilds(i: int)
    requires
        i32::MIN <= i <= i32::MAX,
    ensures
        rebuilds("number"@, ValModel::Integer(i)),
{
    reveal_strlit("boolean");
    reveal_strlit("text");
    reveal_strlit("number");
    assert("boolean"@.len() == 7);
    assert("text"@.len() == 4);
    assert("number"@.len() == 6);
    crate::num::lemma_parse_of_render(i);
}

/// `text` rebuilds every Text value.
pub proof fn lemma_text_rebuilds(s: Seq<char>)
    ensures
        rebuilds("text"@, ValModel::Text(s)),
{
    reveal_strlit("boolean");
    reveal_strlit("text");
    assert("boolean"@.len() == 7);
    assert("text"@.len() == 4);
}

/// Any declared type outside the three recognized names rebuilds Null.
pub proof fn lemma_other_rebuilds_null(declared: Seq<char>)
    requires
        declared != "boolean"@,
        declared != "text"@,
        declared != "number"@,
    ensures
        rebuilds(declared, ValModel::Null),
{
}

} // verus!
