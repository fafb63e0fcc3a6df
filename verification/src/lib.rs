//! Introspection-driven binary encoding.
//!
//! A value's layout is described once by an immutable type descriptor
//! ([`shape::TypeDesc`]), registered in a read-only table
//! ([`registry::Registry`]); a borrowed, type-erased view
//! ([`peek::Peek`]) walks any value together with its descriptor; and
//! a single generic serializer ([`msgpack`]) turns the view into
//! compact, deterministic, MessagePack-compatible bytes.  Field names
//! on the wire are computed by the case-convention rules of
//! [`naming`], and enum discriminant literals are evaluated by
//! [`discriminant`].

pub mod discriminant;
pub mod error;
pub mod msgpack;
pub mod naming;
pub mod peek;
pub mod registry;
pub mod shape;
pub mod value;
