//! The runtime shape of values the crate can traverse.
//!
//! A [`Value`] holds what a live value's memory holds, in introspected
//! form: a scalar, or the ordered children of a struct.  Whether a
//! value actually belongs to a descriptor is the well-formedness
//! relation [`wf_value`]: the producer guarantees it when it hands out
//! a descriptor for a value, and every traversal below relies on it.

use crate::shape::Identity;
use crate::shape::Kind;
use crate::shape::TypeDesc;
use vstd::prelude::*;

verus! {

/// An introspected value: the location a type-erased view points at.
pub enum Value {
    /// A UTF-8 string.
    Str(String),
    /// An unsigned 8-bit integer.
    U8(u8),
    /// An unsigned 16-bit integer.
    U16(u16),
    /// An unsigned 32-bit integer.
    U32(u32),
    /// An unsigned 64-bit integer.
    U64(u64),
    /// A signed 8-bit integer.
    I8(i8),
    /// A signed 16-bit integer.
    I16(i16),
    /// A signed 32-bit integer.
    I32(i32),
    /// A signed 64-bit integer.
    I64(i64),
    /// A composite value: the children of a struct, in declaration
    /// order.
    Record(Vec<Value>),
    /// A value whose type offers no introspection.
    Hidden,
}

/// The children of a composite value, in declaration order.
pub open spec fn children_of(v: Value) -> Seq<Value> {
    match v {
        Value::Record(cs) => cs@,
        _ => Seq::empty(),
    }
}

/// True when a scalar value is an instance of the identity.
pub open spec fn scalar_matches(v: Value, id: Identity) -> bool {
    match id {
        Identity::Str => v is Str,
        Identity::U8 => v is U8,
        Identity::U16 => v is U16,
        Identity::U32 => v is U32,
        Identity::U64 => v is U64,
        Identity::I8 => v is I8,
        Identity::I16 => v is I16,
        Identity::I32 => v is I32,
        Identity::I64 => v is I64,
        Identity::Hidden => v is Hidden,
        Identity::Named(_) => false,
    }
}

/// True when the value is an instance of the descriptor: a scalar
/// matches the declared identity (and a string value fits the wire
/// format's length field), a struct value carries exactly the declared
/// children, each well-formed against its field's type, and a value of
/// any other kind is opaque to introspection.
pub open spec fn wf_value(v: Value, d: TypeDesc) -> bool
    decreases v,
{
    match d.kind {
        Kind::Scalar => scalar_matches(v, d.identity) && (v matches Value::Str(s)
            ==> vstd::utf8::encode_utf8(s@).len() <= 0xffffffff),
        Kind::Struct => v matches Value::Record(cs) && cs@.len() == d.fields@.len() && (forall|
            i: int,
        |
            0 <= i < cs@.len() ==> wf_value(#[trigger] cs@[i], d.fields@[i].shape)),
        _ => v is Hidden,
    }
}

} // verus!
