use facet_wire::error::Error;
use facet_wire::msgpack::serialize;
use facet_wire::msgpack::to_vec;
use facet_wire::naming::RenameRule;
use facet_wire::peek::Peek;
use facet_wire::registry::Registry;
use facet_wire::shape::FieldDesc;
use facet_wire::shape::Identity;
use facet_wire::shape::Kind;
use facet_wire::shape::Opaque;
use facet_wire::shape::TypeDesc;
use facet_wire::value::Value;

fn field(name: &str, rule: RenameRule, shape: TypeDesc) -> FieldDesc {
    FieldDesc::build(name, None, rule, 0, false, Vec::new(), shape)
}

fn person_desc() -> TypeDesc {
    let fields = vec![
        field("name", RenameRule::Passthrough, TypeDesc::scalar(Identity::Str, "String")),
        field("age", RenameRule::Passthrough, TypeDesc::scalar(Identity::U8, "u8")),
    ];
    TypeDesc::struct_of(1, fields, "Person")
}

fn person_value() -> Value {
    Value::Record(vec![Value::Str("Ada".to_string()), Value::U8(36)])
}

#[test]
fn end_to_end_person() {
    let desc = person_desc();
    let value = person_value();
    let bytes = to_vec(&value, &desc).unwrap();
    let expected = vec![
        0x82, // fixmap, 2 entries
        0xa4, b'n', b'a', b'm', b'e', // "name"
        0xa3, b'A', b'd', b'a', // "Ada"
        0xa3, b'a', b'g', b'e', // "age"
        36,   // positive fixint
    ];
    assert_eq!(bytes, expected);
}

#[test]
fn reencoding_is_stable() {
    let desc = person_desc();
    let value = person_value();
    assert_eq!(to_vec(&value, &desc).unwrap(), to_vec(&value, &desc).unwrap());
    let mut b1 = Vec::new();
    let mut b2 = Vec::new();
    assert!(serialize(Peek::new(&value, &desc), &mut b1).is_ok());
    assert!(serialize(Peek::new(&value, &desc), &mut b2).is_ok());
    assert_eq!(b1, b2);
}

#[test]
fn struct_fields_keep_declaration_order() {
    let fields = vec![
        field("a", RenameRule::Passthrough, TypeDesc::scalar(Identity::U8, "u8")),
        field("b", RenameRule::Passthrough, TypeDesc::scalar(Identity::U8, "u8")),
        field("c", RenameRule::Passthrough, TypeDesc::scalar(Identity::U8, "u8")),
    ];
    let desc = TypeDesc::struct_of(2, fields, "Triple");
    let value = Value::Record(vec![Value::U8(1), Value::U8(2), Value::U8(3)]);
    let expected = vec![0x83, 0xa1, b'a', 1, 0xa1, b'b', 2, 0xa1, b'c', 3];
    assert_eq!(to_vec(&value, &desc).unwrap(), expected);
    assert_eq!(to_vec(&value, &desc).unwrap(), expected);
}

#[test]
fn all_scalar_identities_encode() {
    let cases: Vec<(Identity, Value, Vec<u8>)> = vec![
        (Identity::Str, Value::Str("hi".to_string()), vec![0xa2, b'h', b'i']),
        (Identity::U8, Value::U8(200), vec![0xcc, 200]),
        (Identity::U16, Value::U16(300), vec![0xcd, 0x01, 0x2c]),
        (Identity::U32, Value::U32(70000), vec![0xce, 0x00, 0x01, 0x11, 0x70]),
        (
            Identity::U64,
            Value::U64(4294967296),
            vec![0xcf, 0x00, 0x00, 0x00, 0x01, 0x00, 0x00, 0x00, 0x00],
        ),
        (Identity::I8, Value::I8(-5), vec![0xfb]),
        (Identity::I16, Value::I16(-200), vec![0xd1, 0xff, 0x38]),
        (Identity::I32, Value::I32(-40000), vec![0xd2, 0xff, 0xff, 0x63, 0xc0]),
        (Identity::I64, Value::I64(17), vec![0x11]),
    ];
    for (id, value, expected) in cases {
        let desc = TypeDesc::scalar(id, "scalar");
        assert_eq!(to_vec(&value, &desc).unwrap(), expected);
    }
}

#[test]
fn nested_structs_encode_recursively() {
    let inner = TypeDesc::struct_of(
        11,
        vec![field("x", RenameRule::Passthrough, TypeDesc::scalar(Identity::U8, "u8"))],
        "Inner",
    );
    let outer = TypeDesc::struct_of(
        12,
        vec![field("in", RenameRule::Passthrough, inner)],
        "Outer",
    );
    let value = Value::Record(vec![Value::Record(vec![Value::U8(7)])]);
    let expected = vec![0x81, 0xa2, b'i', b'n', 0x81, 0xa1, b'x', 7];
    assert_eq!(to_vec(&value, &outer).unwrap(), expected);
}

#[test]
fn rename_rule_reaches_the_wire() {
    let fields = vec![
        field("fooBar", RenameRule::SnakeCase, TypeDesc::scalar(Identity::U8, "u8")),
    ];
    let desc = TypeDesc::struct_of(3, fields, "Renamed");
    let value = Value::Record(vec![Value::U8(1)]);
    let expected = vec![0x81, 0xa7, b'f', b'o', b'o', b'_', b'b', b'a', b'r', 1];
    assert_eq!(to_vec(&value, &desc).unwrap(), expected);
}

#[test]
fn explicit_rename_overrides_rule() {
    let fd = FieldDesc::build(
        "fooBar",
        Some("exact"),
        RenameRule::SnakeCase,
        0,
        false,
        Vec::new(),
        TypeDesc::scalar(Identity::U8, "u8"),
    );
    assert_eq!(fd.wire_name, "exact");
    assert_eq!(fd.raw_name, "fooBar");
}

#[test]
fn numeric_field_names_are_never_renamed() {
    let fd = field("0", RenameRule::PascalCase, TypeDesc::scalar(Identity::U8, "u8"));
    assert_eq!(fd.wire_name, "0");
    let fd = field("12", RenameRule::ScreamingSnakeCase, TypeDesc::scalar(Identity::U8, "u8"));
    assert_eq!(fd.wire_name, "12");
}

#[test]
fn sensitive_flag_does_not_affect_serialization() {
    let fields = vec![
        FieldDesc::build(
            "secret",
            None,
            RenameRule::Passthrough,
            0,
            true,
            Vec::new(),
            TypeDesc::scalar(Identity::U8, "u8"),
        ),
    ];
    let desc = TypeDesc::struct_of(4, fields, "Secretive");
    let value = Value::Record(vec![Value::U8(9)]);
    let expected = vec![0x81, 0xa6, b's', b'e', b'c', b'r', b'e', b't', 9];
    assert_eq!(to_vec(&value, &desc).unwrap(), expected);
}

#[test]
fn opaque_values_are_rejected_not_encoded() {
    let desc = Opaque::<u32>::shape();
    let value = Value::Hidden;
    let mut out = Vec::new();
    let r = serialize(Peek::new(&value, &desc), &mut out);
    assert_eq!(r, Err(Error::UnsupportedType));
    assert!(out.is_empty());
}

#[test]
fn unsupported_kinds_are_rejected() {
    let desc = TypeDesc::opaque("Mystery");
    let value = Value::Hidden;
    let mut out = Vec::new();
    assert_eq!(serialize(Peek::new(&value, &desc), &mut out), Err(Error::UnsupportedType));
    assert!(out.is_empty());
}

#[test]
fn unsupported_field_fails_the_struct() {
    let fields = vec![
        field("ok", RenameRule::Passthrough, TypeDesc::scalar(Identity::U8, "u8")),
        field("bad", RenameRule::Passthrough, Opaque::<u8>::shape()),
    ];
    let desc = TypeDesc::struct_of(5, fields, "Partial");
    let value = Value::Record(vec![Value::U8(1), Value::Hidden]);
    let mut out = Vec::new();
    assert_eq!(serialize(Peek::new(&value, &desc), &mut out), Err(Error::UnsupportedType));
}

#[test]
fn typed_extraction_is_checked() {
    let desc = TypeDesc::scalar(Identity::Str, "String");
    let value = Value::Str("Ada".to_string());
    let pv = Peek::new(&value, &desc);
    assert_eq!(pv.get_str().map(|s| s.as_str()), Ok("Ada"));
    assert_eq!(pv.get_u8(), Err(Error::TypeMismatch));
    assert_eq!(pv.get_i64(), Err(Error::TypeMismatch));

    let desc = TypeDesc::scalar(Identity::U8, "u8");
    let value = Value::U8(7);
    let pv = Peek::new(&value, &desc);
    assert_eq!(pv.get_u8(), Ok(7));
    assert!(pv.get_str().is_err());
}

#[test]
fn struct_view_iterates_in_order() {
    let desc = person_desc();
    let value = person_value();
    let pv = Peek::new(&value, &desc);
    assert_eq!(pv.shape().kind, Kind::Struct);
    let sp = pv.into_struct().unwrap();
    assert_eq!(sp.field_count(), 2);
    let pairs = sp.fields();
    assert_eq!(pairs.len(), 2);
    assert_eq!(pairs[0].0.wire_name, "name");
    assert_eq!(pairs[1].0.wire_name, "age");
    assert_eq!(pairs[1].1.get_u8(), Ok(36));
}

#[test]
fn into_struct_requires_struct_kind() {
    let desc = TypeDesc::scalar(Identity::U8, "u8");
    let value = Value::U8(1);
    let pv = Peek::new(&value, &desc);
    assert!(pv.into_struct().is_err());
}

#[test]
fn registry_resolves_registered_types_only() {
    let mut reg = Registry::new();
    reg.register(person_desc());
    reg.register(TypeDesc::scalar(Identity::U8, "u8"));

    assert!(reg.lookup(Identity::Named(1)).is_ok());
    assert!(reg.lookup(Identity::U8).is_ok());
    assert_eq!(reg.lookup(Identity::U64).err(), Some(Error::KindResolution));

    let value = person_value();
    let pv = reg.view_of(&value, Identity::Named(1)).unwrap();
    let bytes = to_vec(pv.value, pv.desc).unwrap();
    assert_eq!(bytes, to_vec(&value, &person_desc()).unwrap());

    assert_eq!(reg.view_of(&value, Identity::Named(99)).err(), Some(Error::KindResolution));
}

#[test]
fn error_descriptions() {
    assert_eq!(Error::KindResolution.describe(), "no descriptor registered for this type");
    assert_eq!(
        Error::TypeMismatch.describe(),
        "descriptor identity does not match the requested type"
    );
    assert_eq!(Error::UnsupportedType.describe(), "no encoding rule for this descriptor");
}

#[test]
fn opaque_wrapper_round_trips_its_value() {
    let wrapped = Opaque::new(42u32);
    assert_eq!(wrapped.into_inner(), 42);
    let shape = Opaque::<String>::shape();
    assert_eq!(shape.kind, Kind::Scalar);
    assert_eq!(shape.identity, Identity::Hidden);
    assert_eq!(shape.ops.debug_format(), "Opaque");
}

#[test]
fn scalar_view_refinement() {
    let desc = TypeDesc::scalar(Identity::U16, "u16");
    let value = Value::U16(300);
    let pv = Peek::new(&value, &desc);
    let sv = pv.into_scalar().unwrap();
    assert_eq!(sv.identity(), Identity::U16);
    assert_eq!(sv.as_peek().get_u16(), Ok(300));
    assert!(pv.into_struct().is_err());

    let desc = person_desc();
    let value = person_value();
    assert!(Peek::new(&value, &desc).into_scalar().is_err());
}

#[test]
fn to_vec_surfaces_the_classified_error() {
    let desc = Opaque::<u32>::shape();
    let value = Value::Hidden;
    assert_eq!(to_vec(&value, &desc), Err(Error::UnsupportedType));
    let desc = TypeDesc::opaque("Mystery");
    assert_eq!(to_vec(&Value::Hidden, &desc), Err(Error::UnsupportedType));
}
