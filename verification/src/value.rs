//! The closed union of values a structured field can carry, and its rendering
//! as JSON text.

use vstd::prelude::*;

use crate::text::{append_escaped, append_i64, append_u64, push_char, spec_escape, spec_i64_str,
    spec_u64_str};

verus! {

/// A JSON-representable field value: null, boolean, signed or unsigned
/// integer, string, or a pre-rendered composite value.
///
/// `Json` carries text that is already a complete JSON value (a number a
/// fraction could not represent exactly otherwise, or a composite value
/// rendered by an external visitor); it is emitted verbatim.
#[derive(Debug)]
pub enum FieldValue {
    Null,
    Bool(bool),
    I64(i64),
    U64(u64),
    Str(String),
    Json(String),
}

/// The mathematical mirror of [`FieldValue`], with strings as character
/// sequences.
pub enum SpecValue {
    Null,
    Bool(bool),
    I64(i64),
    U64(u64),
    Str(Seq<char>),
    Json(Seq<char>),
}

impl Clone for FieldValue {
    fn clone(&self) -> (r: Self)
        ensures
            r@ == self@,
    {
        match self {
            FieldValue::Null => FieldValue::Null,
            FieldValue::Bool(b) => FieldValue::Bool(*b),
            FieldValue::I64(i) => FieldValue::I64(*i),
            FieldValue::U64(u) => FieldValue::U64(*u),
            FieldValue::Str(s) => FieldValue::Str(s.clone()),
            FieldValue::Json(s) => FieldValue::Json(s.clone()),
        }
    }
}

impl View for FieldValue {
    type V = SpecValue;

    open spec fn view(&self) -> SpecValue {
        match self {
            FieldValue::Null => SpecValue::Null,
            FieldValue::Bool(b) => SpecValue::Bool(*b),
            FieldValue::I64(i) => SpecValue::I64(*i),
            FieldValue::U64(u) => SpecValue::U64(*u),
            FieldValue::Str(s) => SpecValue::Str(s@),
            FieldValue::Json(s) => SpecValue::Json(s@),
        }
    }
}

/// The JSON text a value renders to: `null`, `true`/`false`, decimal digits,
/// a quoted escaped string literal, or pre-rendered text verbatim.
pub open spec fn spec_render_value(v: SpecValue) -> Seq<char> {
    match v {
        SpecValue::Null => "null"@,
        SpecValue::Bool(b) => if b {
            "true"@
        } else {
            "false"@
        },
        SpecValue::I64(i) => spec_i64_str(i),
        SpecValue::U64(u) => spec_u64_str(u),
        SpecValue::Str(s) => seq!['"'] + spec_escape(s) + seq!['"'],
        SpecValue::Json(s) => s,
    }
}

/// Appends the JSON text of `v` to `out`.
pub fn append_value(out: &mut String, v: &FieldValue)
    ensures
        final(out)@ == old(out)@ + spec_render_value(v@),
{
    match v {
        FieldValue::Null => {
            out.append("null");
        },
        FieldValue::Bool(b) => {
            if *b {
                out.append("true");
            } else {
                out.append("false");
            }
        },
        FieldValue::I64(i) => {
            append_i64(out, *i);
        },
        FieldValue::U64(u) => {
            append_u64(out, *u);
        },
        FieldValue::Str(s) => {
            push_char(out, '"');
            append_escaped(out, s.as_str());
            push_char(out, '"');
            proof {
                assert(out@ =~= old(out)@ + spec_render_value(v@));
            }
        },
        FieldValue::Json(s) => {
            out.append(s.as_str());
        },
    }
}

} // verus!
