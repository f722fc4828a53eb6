//! The typed-value representation: a closed tagged union of the value
//! kinds a property can hold, together with its mathematical model.

use vstd::prelude::*;

verus! {

use crate::num::{is_i64_lit, int_value, is_double_lit, parse_i64, is_double};
use crate::text::str_eq;
use vstd::string::StringExecFns;

/// The kind of a property value.  Once a property is constructed its
/// value's tag never changes; only the payload within that tag is
/// replaced.
#[derive(Clone, Copy, Debug, PartialEq, Eq, Structural)]
pub enum Tag {
    Null,
    Path,
    Str,
    Hex,
    Bool,
    Int,
    Double,
}

/// The mathematical model of a property value.
///
/// Text payloads are sequences of characters; integers are unbounded
/// here and bounded to 64 bits in the executable type.  A `Double`
/// holds the accepted decimal literal verbatim: the engine stores and
/// round-trips the text and never computes with the number.
pub enum ValueModel {
    Null,
    Path(Seq<char>),
    Str(Seq<char>),
    Hex(Seq<char>),
    Bool(bool),
    Int(int),
    Double(Seq<char>),
}

/// A property value: `Null`, a path, a plain string, a hexadecimal
/// literal kept as text, a boolean, a signed 64-bit integer, or a
/// floating-point literal kept as text.
#[derive(Debug)]
pub enum PropertyValue {
    Null,
    Path(String),
    Str(String),
    Hex(String),
    Bool(bool),
    Int(i64),
    Double(String),
}

impl View for PropertyValue {
    type V = ValueModel;

    open spec fn view(&self) -> ValueModel {
        match self {
            PropertyValue::Null => ValueModel::Null,
            PropertyValue::Path(s) => ValueModel::Path(s@),
            PropertyValue::Str(s) => ValueModel::Str(s@),
            PropertyValue::Hex(s) => ValueModel::Hex(s@),
            PropertyValue::Bool(b) => ValueModel::Bool(*b),
            PropertyValue::Int(i) => ValueModel::Int(*i as int),
            PropertyValue::Double(s) => ValueModel::Double(s@),
        }
    }
}

/// The tag of a value model.
pub open spec fn tag_of(v: ValueModel) -> Tag {
    match v {
        ValueModel::Null => Tag::Null,
        ValueModel::Path(_) => Tag::Path,
        ValueModel::Str(_) => Tag::Str,
        ValueModel::Hex(_) => Tag::Hex,
        ValueModel::Bool(_) => Tag::Bool,
        ValueModel::Int(_) => Tag::Int,
        ValueModel::Double(_) => Tag::Double,
    }
}

impl PropertyValue {
    /// The tag of this value.
    pub fn tag(&self) -> (t: Tag)
        ensures
            t == tag_of(self@),
    {
        match self {
            PropertyValue::Null => Tag::Null,
            PropertyValue::Path(_) => Tag::Path,
            PropertyValue::Str(_) => Tag::Str,
            PropertyValue::Hex(_) => Tag::Hex,
            PropertyValue::Bool(_) => Tag::Bool,
            PropertyValue::Int(_) => Tag::Int,
            PropertyValue::Double(_) => Tag::Double,
        }
    }

    /// An exact copy of this value.
    pub fn duplicate(&self) -> (r: PropertyValue)
        ensures
            r@ == self@,
    {
        match self {
            PropertyValue::Null => PropertyValue::Null,
            PropertyValue::Path(s) => PropertyValue::Path(s.clone()),
            PropertyValue::Str(s) => PropertyValue::Str(s.clone()),
            PropertyValue::Hex(s) => PropertyValue::Hex(s.clone()),
            PropertyValue::Bool(b) => PropertyValue::Bool(*b),
            PropertyValue::Int(i) => PropertyValue::Int(*i),
            PropertyValue::Double(s) => PropertyValue::Double(s.clone()),
        }
    }
}

/// Why a textual value could not be applied to a property.
#[derive(Clone, Copy, Debug, PartialEq, Eq, Structural)]
pub enum SetError {
    /// No property of that name exists under that section.
    UnknownProperty,
    /// The property holds an integer and the text is not a base-10
    /// signed 64-bit integer.
    BadInt,
    /// The property holds a floating-point value and the text is not
    /// an accepted floating-point literal.
    BadDouble,
}

/// Coercion of a textual value into the tag already established for a
/// property.  The tag never changes: only the payload is replaced.
///
/// - `Null` stays `Null` (a no-op set).
/// - `Path`, `Str` and `Hex` store the text verbatim.
/// - `Bool` becomes `true` exactly when the text is the literal
///   `true`; anything else becomes `false`, deliberately without an
///   error path.
/// - `Int` parses the text as a base-10 signed 64-bit integer and
///   fails with `BadInt` otherwise.
/// - `Double` keeps the text when it is an accepted floating-point
///   literal and fails with `BadDouble` otherwise.
pub open spec fn coerce(cur: ValueModel, text: Seq<char>) -> Result<ValueModel, SetError> {
    match cur {
        ValueModel::Null => Ok(ValueModel::Null),
        ValueModel::Path(_) => Ok(ValueModel::Path(text)),
        ValueModel::Str(_) => Ok(ValueModel::Str(text)),
        ValueModel::Hex(_) => Ok(ValueModel::Hex(text)),
        ValueModel::Bool(_) => Ok(ValueModel::Bool(text == "true"@)),
        ValueModel::Int(_) => if is_i64_lit(text) {
            Ok(ValueModel::Int(int_value(text)))
        } else {
            Err(SetError::BadInt)
        },
        ValueModel::Double(_) => if is_double_lit(text) {
            Ok(ValueModel::Double(text))
        } else {
            Err(SetError::BadDouble)
        },
    }
}

/// The model of a coercion result.
pub open spec fn coerce_result_model(r: Result<PropertyValue, SetError>) -> Result<
    ValueModel,
    SetError,
> {
    match r {
        Ok(v) => Ok(v@),
        Err(e) => Err(e),
    }
}

/// Coerce a textual value into the tag of `cur`, per [`coerce`].
pub fn coerce_value(cur: &PropertyValue, text: &str) -> (r: Result<PropertyValue, SetError>)
    ensures
        coerce_result_model(r) == coerce(cur@, text@),
{
    match cur {
        PropertyValue::Null => Ok(PropertyValue::Null),
        PropertyValue::Path(_) => Ok(PropertyValue::Path(String::from_str(text))),
        PropertyValue::Str(_) => Ok(PropertyValue::Str(String::from_str(text))),
        PropertyValue::Hex(_) => Ok(PropertyValue::Hex(String::from_str(text))),
        PropertyValue::Bool(_) => Ok(PropertyValue::Bool(str_eq(text, "true"))),
        PropertyValue::Int(_) => match parse_i64(text) {
            Some(v) => Ok(PropertyValue::Int(v)),
            None => Err(SetError::BadInt),
        },
        PropertyValue::Double(_) => if is_double(text) {
            Ok(PropertyValue::Double(String::from_str(text)))
        } else {
            Err(SetError::BadDouble)
        },
    }
}

/// When a property may legitimately be mutated after startup.
/// Enforcement is a caller concern: the store exposes the class but
/// does not itself police it.
#[derive(Clone, Copy, Debug, PartialEq, Eq, Structural)]
pub enum Changeable {
    OnlyAtStart,
    Always,
    WhenIdle,
}

} // verus!
