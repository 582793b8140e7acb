use vstd::prelude::*;

use crate::builder::JsonExpr;
use crate::json::{Json, JsonVal};
use crate::number::{
    double_bits_from_i128, double_bits_from_i64, double_bits_from_single_bits,
    double_bits_from_u128, double_bits_from_u64, double_bits_of_int, double_bits_of_single_bits,
};

verus! {

/// The number leaf denoted by an integer source: the bit pattern of the
/// nearest double. An integer beyond two to the 53rd in magnitude loses
/// precision here; that narrowing is deliberate.
pub open spec fn number_of_int(i: int) -> JsonVal {
    JsonVal::Number(double_bits_of_int(i) as u64)
}

/// Scalar sources that coerce into a document leaf, dispatched by the
/// source value's own type. Adding a new coercible source type means adding
/// one impl here; the value model and the builder stay untouched.
pub trait ToJson: Sized {
    /// The leaf value this source denotes.
    spec fn json_view(self) -> JsonVal;

    /// Coerce the source into a document leaf.
    fn to_json(self) -> (j: Json)
        ensures
            j@ == self.json_view(),
            j.wf(),
    ;
}

impl ToJson for bool {
    open spec fn json_view(self) -> JsonVal {
        JsonVal::Boolean(self)
    }

    fn to_json(self) -> (j: Json) {
        Json::Boolean(self)
    }
}

impl ToJson for u8 {
    open spec fn json_view(self) -> JsonVal {
        number_of_int(self as int)
    }

    fn to_json(self) -> (j: Json) {
        Json::Number(double_bits_from_u64(self as u64))
    }
}

impl ToJson for u16 {
    open spec fn json_view(self) -> JsonVal {
        number_of_int(self as int)
    }

    fn to_json(self) -> (j: Json) {
        Json::Number(double_bits_from_u64(self as u64))
    }
}

impl ToJson for u32 {
    open spec fn json_view(self) -> JsonVal {
        number_of_int(self as int)
    }

    fn to_json(self) -> (j: Json) {
        Json::Number(double_bits_from_u64(self as u64))
    }
}

impl ToJson for u64 {
    open spec fn json_view(self) -> JsonVal {
        number_of_int(self as int)
    }

    fn to_json(self) -> (j: Json) {
        Json::Number(double_bits_from_u64(self))
    }
}

impl ToJson for u128 {
    open spec fn json_view(self) -> JsonVal {
        number_of_int(self as int)
    }

    fn to_json(self) -> (j: Json) {
        Json::Number(double_bits_from_u128(self))
    }
}

impl ToJson for usize {
    open spec fn json_view(self) -> JsonVal {
        number_of_int(self as int)
    }

    fn to_json(self) -> (j: Json) {
        Json::Number(double_bits_from_u64(self as u64))
    }
}

impl ToJson for i8 {
    open spec fn json_view(self) -> JsonVal {
        number_of_int(self as int)
    }

    fn to_json(self) -> (j: Json) {
        Json::Number(double_bits_from_i64(self as i64))
    }
}

impl ToJson for i16 {
    open spec fn json_view(self) -> JsonVal {
        number_of_int(self as int)
    }

    fn to_json(self) -> (j: Json) {
        Json::Number(double_bits_from_i64(self as i64))
    }
}

impl ToJson for i32 {
    open spec fn json_view(self) -> JsonVal {
        number_of_int(self as int)
    }

    fn to_json(self) -> (j: Json) {
        Json::Number(double_bits_from_i64(self as i64))
    }
}

impl ToJson for i64 {
    open spec fn json_view(self) -> JsonVal {
        number_of_int(self as int)
    }

    fn to_json(self) -> (j: Json) {
        Json::Number(double_bits_from_i64(self))
    }
}

impl ToJson for i128 {
    open spec fn json_view(self) -> JsonVal {
        number_of_int(self as int)
    }

    fn to_json(self) -> (j: Json) {
        Json::Number(double_bits_from_i128(self))
    }
}

impl ToJson for isize {
    open spec fn json_view(self) -> JsonVal {
        number_of_int(self as int)
    }

    fn to_json(self) -> (j: Json) {
        Json::Number(double_bits_from_i64(self as i64))
    }
}

impl ToJson for String {
    open spec fn json_view(self) -> JsonVal {
        JsonVal::String(self@)
    }

    fn to_json(self) -> (j: Json) {
        Json::String(self)
    }
}

impl<'a> ToJson for &'a str {
    open spec fn json_view(self) -> JsonVal {
        JsonVal::String(self@)
    }

    fn to_json(self) -> (j: Json) {
        Json::String(self.to_owned())
    }
}

impl Json {
    /// A number leaf carrying a caller-supplied double bit pattern, the
    /// coercion of a double-precision source.
    pub fn from_f64_bits(bits: u64) -> (j: Json)
        ensures
            j@ == JsonVal::Number(bits),
            j.wf(),
    {
        Json::Number(bits)
    }

    /// A number leaf from a single-precision source's bit pattern, widened
    /// exactly to double precision.
    pub fn from_f32_bits(bits: u32) -> (j: Json)
        ensures
            j@ == JsonVal::Number(double_bits_of_single_bits(bits) as u64),
            j.wf(),
    {
        Json::Number(double_bits_from_single_bits(bits))
    }
}

impl JsonExpr {
    /// The leaf production of the builder grammar: any coercible scalar
    /// expression becomes a leaf of the literal description.
    pub fn scalar<T: ToJson>(v: T) -> (e: JsonExpr)
        ensures
            e.value() == v.json_view(),
            e.wf(),
    {
        JsonExpr::Leaf(v.to_json())
    }
}

} // verus!
