//! Immutable type descriptors.
//!
//! A descriptor states, once per type, everything generic code needs
//! in order to traverse and encode a value of that type: its
//! structural [`Kind`], a stable [`Identity`] for checked downcasts,
//! the ordered field list of a struct, and a small operation table.
//! Descriptors are built by a producer before any value is inspected
//! and are never mutated afterwards; the rest of the crate only reads
//! them.

use crate::naming::RenameRule;
use crate::naming::apply_spec;
use vstd::prelude::*;
use vstd::string::StrSliceExecFns;
use vstd::string::StringExecFns;

verus! {

/// The structural classification of a described type.
#[derive(Clone, Copy, Debug, PartialEq, Eq, Structural)]
pub enum Kind {
    /// A leaf value: a string or an integer, resolved by identity.
    Scalar,
    /// A product type with an ordered list of named fields.
    Struct,
    /// A sum type; carries the fields of its active variant.
    Enumeration,
    /// An ordered collection.
    List,
    /// A keyed collection.
    Mapping,
    /// An optional value.
    Optional,
    /// A type that deliberately offers no introspection.
    Opaque,
}

/// A stable type identity, used for safe downcasting: a caller may ask
/// whether a descriptor's value is an instance of a concrete type
/// without any unchecked cast.
#[derive(Clone, Copy, Debug, PartialEq, Eq, Structural)]
pub enum Identity {
    /// A UTF-8 string.
    Str,
    /// An unsigned 8-bit integer.
    U8,
    /// An unsigned 16-bit integer.
    U16,
    /// An unsigned 32-bit integer.
    U32,
    /// An unsigned 64-bit integer.
    U64,
    /// A signed 8-bit integer.
    I8,
    /// A signed 16-bit integer.
    I16,
    /// A signed 32-bit integer.
    I32,
    /// A signed 64-bit integer.
    I64,
    /// The identity shared by types that hide their contents.
    Hidden,
    /// The producer-chosen token of a composite or named type.
    Named(u64),
}

/// Attributes a producer may attach to a field.  They are carried for
/// consumers to consult; the serializer itself never invents skip or
/// default behaviour from them.
#[derive(Debug)]
pub enum FieldAttr {
    /// The field's wire name was overridden outright.
    Rename(String),
    /// A default value is supplied when the field is absent.
    DefaultValue,
    /// The field may be skipped when serializing.
    SkipSerializing,
    /// The field is excluded from debug output.
    Sensitive,
    /// Uninterpreted passthrough metadata.
    Arbitrary(String),
}

/// The minimal operation table of a descriptor.  An opaque type's
/// table carries nothing beyond the label its debug formatter prints.
#[derive(Debug)]
pub struct OpTable {
    /// The label the debug-format operation prints for this type.
    pub debug_label: String,
}

impl OpTable {
    /// A table whose debug formatter prints the given label.
    pub fn with_label(label: &str) -> (r: OpTable)
        ensures
            r.debug_label@ == label@,
    {
        OpTable { debug_label: String::from_str(label) }
    }

    /// The debug-format operation: renders the type's label.
    pub fn debug_format(&self) -> (r: String)
        ensures
            r@ == self.debug_label@,
    {
        self.debug_label.clone()
    }
}

/// Everything recorded about one field of a struct (or of an enum's
/// active variant): its declared and wire names, where it lives in the
/// containing value, its flags and attributes, and its own type's
/// descriptor.  A field descriptor is owned by exactly one type
/// descriptor.
pub struct FieldDesc {
    /// The name the field was declared under.
    pub raw_name: String,
    /// The name written to the wire, fixed at descriptor-build time.
    pub wire_name: String,
    /// The field's byte offset inside the containing value.
    pub byte_offset: usize,
    /// Excluded from debug output; independent of serialization.
    pub sensitive: bool,
    /// Producer-attached metadata.
    pub attributes: Vec<FieldAttr>,
    /// The descriptor of the field's own type.
    pub shape: TypeDesc,
}

/// The immutable descriptor of one type.
pub struct TypeDesc {
    /// Structural classification.
    pub kind: Kind,
    /// Stable identity for checked downcasts.
    pub identity: Identity,
    /// Ordered field descriptors; empty unless `kind` is `Struct` (or
    /// the active-variant fields of an enum).
    pub fields: Vec<FieldDesc>,
    /// The type's operation table.
    pub ops: OpTable,
}

/// True when the identifier is entirely ASCII digits — a tuple index,
/// which is never renamed.
pub open spec fn is_numeric_name(s: Seq<char>) -> bool {
    forall|i: int| 0 <= i < s.len() ==> '0' <= #[trigger] s[i] && s[i] <= '9'
}

/// The wire name mandated for a field: the explicit override when one
/// is present; otherwise the raw name itself when it is numeric;
/// otherwise the container's rename rule applied to the raw name (the
/// passthrough rule leaves it unchanged).
pub open spec fn wire_name_spec(
    raw: Seq<char>,
    explicit: Option<Seq<char>>,
    rule: RenameRule,
) -> Seq<char> {
    match explicit {
        Some(e) => e,
        None => if is_numeric_name(raw) {
            raw
        } else {
            apply_spec(rule, raw)
        },
    }
}

/// The view of an optional borrowed string.
pub open spec fn opt_str_view(o: Option<&str>) -> Option<Seq<char>> {
    match o {
        Some(s) => Some(s@),
        None => None,
    }
}

/// Computes a field's wire name from its raw name, an optional
/// explicit override, and the container's rename rule.
pub fn resolve_wire_name(raw_name: &str, explicit: Option<&str>, rule: RenameRule) -> (r: String)
    ensures
        r@ == wire_name_spec(raw_name@, opt_str_view(explicit), rule),
{
    match explicit {
        Some(e) => String::from_str(e),
        None => {
            if is_numeric(raw_name) {
                String::from_str(raw_name)
            } else {
                rule.apply(raw_name)
            }
        },
    }
}

fn is_numeric(s: &str) -> (r: bool)
    ensures
        r == is_numeric_name(s@),
{
    let n = s.unicode_len();
    let mut i: usize = 0;
    while i < n
        invariant
            n == s@.len(),
            0 <= i <= n,
            forall|j: int| 0 <= j < i ==> '0' <= #[trigger] s@[j] && s@[j] <= '9',
        decreases n - i,
    {
        let u = s.get_char(i) as u32;
        if u < 48 || u > 57 {
            return false;
        }
        i = i + 1;
    }
    true
}

impl FieldDesc {
    /// Builds a field descriptor, computing the wire name exactly once
    /// from the override, the rule and the raw name.
    pub fn build(
        raw_name: &str,
        explicit_rename: Option<&str>,
        rule: RenameRule,
        byte_offset: usize,
        sensitive: bool,
        attributes: Vec<FieldAttr>,
        shape: TypeDesc,
    ) -> (r: FieldDesc)
        ensures
            r.raw_name@ == raw_name@,
            r.wire_name@ == wire_name_spec(raw_name@, opt_str_view(explicit_rename), rule),
            r.byte_offset == byte_offset,
            r.sensitive == sensitive,
            r.attributes == attributes,
            r.shape == shape,
    {
        let wire_name = resolve_wire_name(raw_name, explicit_rename, rule);
        FieldDesc {
            raw_name: String::from_str(raw_name),
            wire_name,
            byte_offset,
            sensitive,
            attributes,
            shape,
        }
    }
}

/// True for the scalar identities the serializer can encode.
pub open spec fn scalar_encodable(id: Identity) -> bool {
    match id {
        Identity::Str => true,
        Identity::U8 => true,
        Identity::U16 => true,
        Identity::U32 => true,
        Identity::U64 => true,
        Identity::I8 => true,
        Identity::I16 => true,
        Identity::I32 => true,
        Identity::I64 => true,
        Identity::Hidden => false,
        Identity::Named(_) => false,
    }
}

/// True when the serializer has an encoding path for every part of the
/// descriptor: an encodable scalar, or a struct whose field types are
/// all supported in turn.  Every other kind — opaque types in
/// particular — has no registered path and is rejected.
pub open spec fn supported(d: TypeDesc) -> bool
    decreases d,
{
    match d.kind {
        Kind::Scalar => scalar_encodable(d.identity),
        Kind::Struct => fields_supported(d.fields@),
        _ => false,
    }
}

/// True when every field's type in the list is supported.
pub open spec fn fields_supported(fs: Seq<FieldDesc>) -> bool
    decreases fs,
{
    fs.len() == 0 || (supported(fs.last().shape) && fields_supported(fs.drop_last()))
}

/// The machine limits a usable descriptor observes: a struct's
/// declared field count and each field's wire name must fit the wire
/// format's 32-bit length fields, recursively.  A producer never
/// builds a descriptor beyond them.
pub open spec fn desc_wf(d: TypeDesc) -> bool
    decreases d,
{
    match d.kind {
        Kind::Struct => d.fields@.len() <= 0xffffffff && fields_wf(d.fields@),
        _ => true,
    }
}

/// True when every field in the list observes the machine limits.
pub open spec fn fields_wf(fs: Seq<FieldDesc>) -> bool
    decreases fs,
{
    fs.len() == 0 || (field_wf(fs.last()) && fields_wf(fs.drop_last()))
}

/// The machine limits one field observes: its wire name fits the wire
/// format's string header, and its own descriptor is within limits.
pub open spec fn field_wf(f: FieldDesc) -> bool
    decreases f,
{
    vstd::utf8::encode_utf8(f.wire_name@).len() <= 0xffffffff && desc_wf(f.shape)
}

/// Each field of a within-limits field list is within limits.
pub proof fn lemma_fields_wf_index(fs: Seq<FieldDesc>, i: int)
    requires
        fields_wf(fs),
        0 <= i < fs.len(),
    ensures
        field_wf(fs[i]),
    decreases fs.len(),
{
    if i < fs.len() - 1 {
        lemma_fields_wf_index(fs.drop_last(), i);
        assert(fs.drop_last()[i] == fs[i]);
    }
}

/// Each field's type in a supported field list is supported.
pub proof fn lemma_fields_supported_index(fs: Seq<FieldDesc>, i: int)
    requires
        fields_supported(fs),
        0 <= i < fs.len(),
    ensures
        supported(fs[i].shape),
    decreases fs.len(),
{
    if i < fs.len() - 1 {
        lemma_fields_supported_index(fs.drop_last(), i);
        assert(fs.drop_last()[i] == fs[i]);
    }
}

impl TypeDesc {
    /// The descriptor of a scalar type with the given identity.
    pub fn scalar(identity: Identity, debug_label: &str) -> (r: TypeDesc)
        ensures
            r.kind == Kind::Scalar,
            r.identity == identity,
            r.fields@.len() == 0,
            r.ops.debug_label@ == debug_label@,
    {
        TypeDesc {
            kind: Kind::Scalar,
            identity,
            fields: Vec::new(),
            ops: OpTable::with_label(debug_label),
        }
    }

    /// The descriptor of a struct type: a producer-chosen identity
    /// token and the ordered field descriptors.
    pub fn struct_of(token: u64, fields: Vec<FieldDesc>, debug_label: &str) -> (r: TypeDesc)
        ensures
            r.kind == Kind::Struct,
            r.identity == Identity::Named(token),
            r.fields == fields,
            r.ops.debug_label@ == debug_label@,
    {
        TypeDesc {
            kind: Kind::Struct,
            identity: Identity::Named(token),
            fields,
            ops: OpTable::with_label(debug_label),
        }
    }

    /// The descriptor of a type that cannot be introspected at all.
    pub fn opaque(debug_label: &str) -> (r: TypeDesc)
        ensures
            r.kind == Kind::Opaque,
            r.identity == Identity::Hidden,
            r.fields@.len() == 0,
            r.ops.debug_label@ == debug_label@,
    {
        TypeDesc {
            kind: Kind::Opaque,
            identity: Identity::Hidden,
            fields: Vec::new(),
            ops: OpTable::with_label(debug_label),
        }
    }
}

/// Helper type for opaque members
pub struct Opaque<T>(T);

impl<T> Opaque<T> {
    /// The wrapped value, for specifications.
    pub closed spec fn inner(self) -> T {
        self.0
    }

    /// Wraps a value whose type stays uninterpreted.
    pub fn new(value: T) -> (r: Opaque<T>)
        ensures
            r.inner() == value,
    {
        Opaque(value)
    }

    /// Gives the wrapped value back.
    pub fn into_inner(self) -> (r: T)
        ensures
            r == self.inner(),
    {
        self.0
    }

    /// The descriptor shared by all opaque wrappers: a scalar whose
    /// identity is hidden, so nothing further can be learned of it.
    /// Its operation table can do no more than print a fixed label.
    pub fn shape() -> (r: TypeDesc)
        ensures
            r.kind == Kind::Scalar,
            r.identity == Identity::Hidden,
            r.fields@.len() == 0,
            r.ops.debug_label@ == "Opaque"@,
            !supported(r),
    {
        TypeDesc::scalar(Identity::Hidden, "Opaque")
    }
}

} // verus!
