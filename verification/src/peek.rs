//! Borrowed, type-erased views over live values.
//!
//! A [`Peek`] pairs a value's location with its type descriptor, so
//! generic code can inspect the value's kind and walk its fields
//! without knowing the concrete type.  A view never owns the value it
//! points at; every operation is a read-only projection, and typed
//! extraction is a checked, fallible operation — never an unchecked
//! reinterpretation.

use crate::error::Error;
use crate::shape::FieldDesc;
use crate::shape::Identity;
use crate::shape::Kind;
use crate::shape::TypeDesc;
use crate::value::Value;
use crate::value::children_of;
use crate::value::wf_value;
use vstd::prelude::*;

verus! {

/// A borrowed pairing of a value and its type descriptor.
#[derive(Clone, Copy)]
pub struct Peek<'a> {
    /// Where the value lives.  The view borrows it, never owns it.
    pub value: &'a Value,
    /// The value's immutable type descriptor.
    pub desc: &'a TypeDesc,
}

/// The refinement of a view whose descriptor kind is `Struct`: its
/// fields can be iterated in descriptor order.
#[derive(Clone, Copy)]
pub struct StructPeek<'a> {
    /// Where the struct value lives.
    pub value: &'a Value,
    /// The struct's type descriptor.
    pub desc: &'a TypeDesc,
}

/// The refinement of a view whose descriptor kind is `Scalar`: a leaf
/// whose value can be extracted once the identity matches.
#[derive(Clone, Copy)]
pub struct ScalarPeek<'a> {
    /// Where the scalar value lives.
    pub value: &'a Value,
    /// The scalar's type descriptor.
    pub desc: &'a TypeDesc,
}

impl<'a> Peek<'a> {
    /// True when the value is an instance of the descriptor — the
    /// producer's obligation for every view it hands out.
    pub open spec fn wf(self) -> bool {
        wf_value(*self.value, *self.desc)
    }

    /// Builds the view over a value and its descriptor.
    pub fn new(value: &'a Value, desc: &'a TypeDesc) -> (r: Peek<'a>)
        ensures
            r.value == value,
            r.desc == desc,
    {
        Peek { value, desc }
    }

    /// The paired type descriptor; total, never fails.
    pub fn shape(&self) -> (r: &'a TypeDesc)
        ensures
            r == self.desc,
    {
        self.desc
    }

    /// Checked extraction of a string.  Succeeds exactly when the
    /// descriptor's identity (and the value behind it) is a string.
    pub fn get_str(&self) -> (r: Result<&'a String, Error>)
        ensures
            r matches Ok(s) ==> self.desc.identity == Identity::Str && *self.value == Value::Str(
                *s,
            ),
            r matches Err(e) ==> e == Error::TypeMismatch,
            self.wf() && self.desc.kind == Kind::Scalar ==> (r is Ok <==> self.desc.identity
                == Identity::Str),
    {
        match self.desc.identity {
            Identity::Str => match self.value {
                Value::Str(s) => Ok(s),
                _ => Err(Error::TypeMismatch),
            },
            _ => Err(Error::TypeMismatch),
        }
    }

    /// Checked extraction of a `u8`.
    pub fn get_u8(&self) -> (r: Result<u8, Error>)
        ensures
            r matches Ok(n) ==> self.desc.identity == Identity::U8 && *self.value == Value::U8(n),
            r matches Err(e) ==> e == Error::TypeMismatch,
            self.wf() && self.desc.kind == Kind::Scalar ==> (r is Ok <==> self.desc.identity
                == Identity::U8),
    {
        match self.desc.identity {
            Identity::U8 => match self.value {
                Value::U8(n) => Ok(*n),
                _ => Err(Error::TypeMismatch),
            },
            _ => Err(Error::TypeMismatch),
        }
    }

    /// Checked extraction of a `u16`.
    pub fn get_u16(&self) -> (r: Result<u16, Error>)
        ensures
            r matches Ok(n) ==> self.desc.identity == Identity::U16 && *self.value == Value::U16(n),
            r matches Err(e) ==> e == Error::TypeMismatch,
            self.wf() && self.desc.kind == Kind::Scalar ==> (r is Ok <==> self.desc.identity
                == Identity::U16),
    {
        match self.desc.identity {
            Identity::U16 => match self.value {
                Value::U16(n) => Ok(*n),
                _ => Err(Error::TypeMismatch),
            },
            _ => Err(Error::TypeMismatch),
        }
    }

    /// Checked extraction of a `u32`.
    pub fn get_u32(&self) -> (r: Result<u32, Error>)
        ensures
            r matches Ok(n) ==> self.desc.identity == Identity::U32 && *self.value == Value::U32(n),
            r matches Err(e) ==> e == Error::TypeMismatch,
            self.wf() && self.desc.kind == Kind::Scalar ==> (r is Ok <==> self.desc.identity
                == Identity::U32),
    {
        match self.desc.identity {
            Identity::U32 => match self.value {
                Value::U32(n) => Ok(*n),
                _ => Err(Error::TypeMismatch),
            },
            _ => Err(Error::TypeMismatch),
        }
    }

    /// Checked extraction of a `u64`.
    pub fn get_u64(&self) -> (r: Result<u64, Error>)
        ensures
            r matches Ok(n) ==> self.desc.identity == Identity::U64 && *self.value == Value::U64(n),
            r matches Err(e) ==> e == Error::TypeMismatch,
            self.wf() && self.desc.kind == Kind::Scalar ==> (r is Ok <==> self.desc.identity
                == Identity::U64),
    {
        match self.desc.identity {
            Identity::U64 => match self.value {
                Value::U64(n) => Ok(*n),
                _ => Err(Error::TypeMismatch),
            },
            _ => Err(Error::TypeMismatch),
        }
    }

    /// Checked extraction of an `i8`.
    pub fn get_i8(&self) -> (r: Result<i8, Error>)
        ensures
            r matches Ok(n) ==> self.desc.identity == Identity::I8 && *self.value == Value::I8(n),
            r matches Err(e) ==> e == Error::TypeMismatch,
            self.wf() && self.desc.kind == Kind::Scalar ==> (r is Ok <==> self.desc.identity
                == Identity::I8),
    {
        match self.desc.identity {
            Identity::I8 => match self.value {
                Value::I8(n) => Ok(*n),
                _ => Err(Error::TypeMismatch),
            },
            _ => Err(Error::TypeMismatch),
        }
    }

    /// Checked extraction of an `i16`.
    pub fn get_i16(&self) -> (r: Result<i16, Error>)
        ensures
            r matches Ok(n) ==> self.desc.identity == Identity::I16 && *self.value == Value::I16(n),
            r matches Err(e) ==> e == Error::TypeMismatch,
            self.wf() && self.desc.kind == Kind::Scalar ==> (r is Ok <==> self.desc.identity
                == Identity::I16),
    {
        match self.desc.identity {
            Identity::I16 => match self.value {
                Value::I16(n) => Ok(*n),
                _ => Err(Error::TypeMismatch),
            },
            _ => Err(Error::TypeMismatch),
        }
    }

    /// Checked extraction of an `i32`.
    pub fn get_i32(&self) -> (r: Result<i32, Error>)
        ensures
            r matches Ok(n) ==> self.desc.identity == Identity::I32 && *self.value == Value::I32(n),
            r matches Err(e) ==> e == Error::TypeMismatch,
            self.wf() && self.desc.kind == Kind::Scalar ==> (r is Ok <==> self.desc.identity
                == Identity::I32),
    {
        match self.desc.identity {
            Identity::I32 => match self.value {
                Value::I32(n) => Ok(*n),
                _ => Err(Error::TypeMismatch),
            },
            _ => Err(Error::TypeMismatch),
        }
    }

    /// Checked extraction of an `i64`.
    pub fn get_i64(&self) -> (r: Result<i64, Error>)
        ensures
            r matches Ok(n) ==> self.desc.identity == Identity::I64 && *self.value == Value::I64(n),
            r matches Err(e) ==> e == Error::TypeMismatch,
            self.wf() && self.desc.kind == Kind::Scalar ==> (r is Ok <==> self.desc.identity
                == Identity::I64),
    {
        match self.desc.identity {
            Identity::I64 => match self.value {
                Value::I64(n) => Ok(*n),
                _ => Err(Error::TypeMismatch),
            },
            _ => Err(Error::TypeMismatch),
        }
    }

    /// The scalar refinement of this view.  Fails with a type-mismatch
    /// error exactly when the descriptor kind is not `Scalar`.
    pub fn into_scalar(self) -> (r: Result<ScalarPeek<'a>, Error>)
        ensures
            r matches Ok(sp) ==> self.desc.kind == Kind::Scalar && sp.value == self.value
                && sp.desc == self.desc,
            r matches Err(e) ==> e == Error::TypeMismatch && self.desc.kind != Kind::Scalar,
    {
        match self.desc.kind {
            Kind::Scalar => Ok(ScalarPeek { value: self.value, desc: self.desc }),
            _ => Err(Error::TypeMismatch),
        }
    }

    /// The struct refinement of this view.  Fails with a type-mismatch
    /// error exactly when the descriptor kind is not `Struct`.
    pub fn into_struct(self) -> (r: Result<StructPeek<'a>, Error>)
        ensures
            r matches Ok(sp) ==> self.desc.kind == Kind::Struct && sp.value == self.value
                && sp.desc == self.desc,
            r matches Err(e) ==> e == Error::TypeMismatch && self.desc.kind != Kind::Struct,
    {
        match self.desc.kind {
            Kind::Struct => Ok(StructPeek { value: self.value, desc: self.desc }),
            _ => Err(Error::TypeMismatch),
        }
    }
}

impl<'a> ScalarPeek<'a> {
    /// True when the value is an instance of the descriptor.
    pub open spec fn wf(self) -> bool {
        wf_value(*self.value, *self.desc) && self.desc.kind == Kind::Scalar
    }

    /// The scalar's declared identity.
    pub fn identity(&self) -> (r: Identity)
        ensures
            r == self.desc.identity,
    {
        self.desc.identity
    }

    /// The whole view this refinement came from: extraction itself is
    /// the view's checked `get` family.
    pub fn as_peek(&self) -> (r: Peek<'a>)
        ensures
            r.value == self.value,
            r.desc == self.desc,
    {
        Peek { value: self.value, desc: self.desc }
    }
}

impl<'a> StructPeek<'a> {
    /// True when the value is an instance of the descriptor.
    pub open spec fn wf(self) -> bool {
        wf_value(*self.value, *self.desc) && self.desc.kind == Kind::Struct
    }

    /// The declared number of fields.
    pub fn field_count(&self) -> (r: usize)
        ensures
            r == self.desc.fields@.len(),
    {
        self.desc.fields.len()
    }

    /// The field descriptor and child view at one position, in
    /// descriptor order.  The child borrows from the same underlying
    /// value and carries the field's own descriptor.
    pub fn field_at(&self, i: usize) -> (r: (&'a FieldDesc, Peek<'a>))
        requires
            self.wf(),
            i < self.desc.fields@.len(),
        ensures
            *r.0 == self.desc.fields@[i as int],
            *r.1.value == children_of(*self.value)[i as int],
            *r.1.desc == self.desc.fields@[i as int].shape,
            r.1.wf(),
    {
        let fd = &self.desc.fields[i];
        match self.value {
            Value::Record(cs) => {
                let child = Peek { value: &cs[i], desc: &fd.shape };
                (fd, child)
            },
            _ => vstd::pervasive::unreached(),
        }
    }

    /// All (field descriptor, child view) pairs, in descriptor order.
    /// Each call produces the sequence afresh from its start.
    pub fn fields(&self) -> (r: Vec<(&'a FieldDesc, Peek<'a>)>)
        requires
            self.wf(),
        ensures
            r@.len() == self.desc.fields@.len(),
            forall|i: int|
                0 <= i < r@.len() ==> *(#[trigger] r@[i]).0 == self.desc.fields@[i] && *r@[i].1.value
                    == children_of(*self.value)[i] && *r@[i].1.desc == self.desc.fields@[i].shape,
    {
        let n = self.field_count();
        let mut out: Vec<(&'a FieldDesc, Peek<'a>)> = Vec::new();
        let mut i: usize = 0;
        while i < n
            invariant
                self.wf(),
                n == self.desc.fields@.len(),
                0 <= i <= n,
                out@.len() == i,
                forall|j: int|
                    0 <= j < i ==> *(#[trigger] out@[j]).0 == self.desc.fields@[j]
                        && *out@[j].1.value == children_of(*self.value)[j] && *out@[j].1.desc
                        == self.desc.fields@[j].shape,
            decreases n - i,
        {
            let pair = self.field_at(i);
            out.push(pair);
            i = i + 1;
        }
        out
    }
}

} // verus!
