use bcbc::casting::{
    bytevar_flen, bytevar_frange, bytevar_ulen, bytevar_urange, ext1_of_marker, from_h4l4,
    to_h4l4, unzigzag, zigzag, Ext1, Tag, H4,
};
use bcbc::reader::Reader;
use bcbc::casting::Schema;
use bcbc::{Error, HashId, StdId, Type, TypeId, Value};

#[test]
fn header_packing_and_unpacking() {
    assert_eq!(from_h4l4(H4::Mapping, 0x2), 0x72);
    assert_eq!(from_h4l4(H4::Ext1, 0x0), 0x00);
    assert_eq!(from_h4l4(H4::Struct, 0xf), 0xbf);
    assert_eq!(to_h4l4(0x72).unwrap(), (H4::Mapping, 0x2));
    assert_eq!(to_h4l4(0xbf).unwrap(), (H4::Struct, 0xf));
    assert_eq!(to_h4l4(0xc3).unwrap_err(), Error::Tag(0xc3));
    assert!(H4::Int.is_num());
    assert!(H4::UInt.is_num());
    assert!(H4::Float.is_num());
    assert!(!H4::String.is_num());
    assert!(!H4::Ext1.is_num());
    assert_eq!(ext1_of_marker(0x4), Some(Ext1::Present));
    assert_eq!(ext1_of_marker(0x8), None);
}

#[test]
fn bytevar_trimming_rules() {
    // Unsigned values strip leading zero bytes, keeping at least one.
    assert_eq!(bytevar_ulen(&[0, 0, 0, 0, 0, 0, 0, 0]), 1);
    assert_eq!(bytevar_ulen(&[0, 0, 0, 0, 0, 0, 0, 9]), 1);
    assert_eq!(bytevar_ulen(&[0, 0, 0, 0, 0, 1, 0, 0]), 3);
    assert_eq!(bytevar_ulen(&[5, 0, 0, 0, 0, 0, 0, 0]), 8);
    assert_eq!(bytevar_urange(3), 5);
    assert_eq!(bytevar_urange(8), 0);
    // Floating-point patterns strip trailing zero bytes instead.
    assert_eq!(bytevar_flen(&[0, 0, 0, 0, 0, 0, 0, 0]), 1);
    assert_eq!(bytevar_flen(&[0x40, 0x49, 0, 0, 0, 0, 0, 0]), 2);
    assert_eq!(bytevar_flen(&[0, 0, 0, 0, 0, 0, 0, 1]), 8);
    assert_eq!(bytevar_frange(2), 2);
}

#[test]
fn zigzag_pairs_signs() {
    assert_eq!(zigzag(0), 0);
    assert_eq!(zigzag(-1), 1);
    assert_eq!(zigzag(1), 2);
    assert_eq!(zigzag(-7777777), 15555553);
    assert_eq!(zigzag(i64::MIN), u64::MAX);
    for u in [0u64, 1, 2, 9, 15555553, u64::MAX] {
        assert_eq!(zigzag(unzigzag(u)), u);
    }
    for i in [0i64, 1, -1, 24393, -7777777, i64::MAX, i64::MIN] {
        assert_eq!(unzigzag(zigzag(i)), i);
    }
}

#[test]
fn tags_and_shapes() {
    assert_eq!(Tag::Unknown.code(), 0x00);
    assert_eq!(Tag::Struct.code(), 0x0f);
    assert_eq!(Tag::TypeId.code(), 0x11);
    assert_eq!(Type::Mapping(Box::new(Type::UInt), Box::new(Type::Bool)).as_tag(), Tag::Mapping);
    assert_eq!(Value::Unit.as_tag(), Tag::Unit);
    assert_eq!(Value::Int(-3).as_tag(), Tag::Int);
    let v = Value::Tuple(vec![
        Value::UInt(1),
        Value::List(Type::String, vec![]),
        Value::Struct(TypeId::Anonymous, vec![]),
    ]);
    assert_eq!(
        v.as_type(),
        Type::Tuple(vec![
            Type::UInt,
            Type::List(Box::new(Type::String)),
            Type::Struct(TypeId::Anonymous),
        ])
    );
}

#[test]
fn accessors_hand_back_contents() {
    assert_eq!(Value::Unit.into_unit().unwrap(), ());
    assert_eq!(Value::Bool(true).into_bool().unwrap(), true);
    assert_eq!(Value::Int(-9).into_int().unwrap(), -9);
    assert_eq!(Value::UInt(9).into_uint().unwrap(), 9);
    assert_eq!(Value::Float(7).into_float().unwrap(), 7);
    assert_eq!(Value::String("hi".to_owned()).into_string().unwrap(), "hi");
    assert_eq!(Value::Bytes(vec![1, 2]).into_bytes().unwrap(), vec![1, 2]);
    assert_eq!(
        Value::Option(Type::Bool, Box::new(Some(Value::Bool(false)))).into_option().unwrap(),
        Some(Value::Bool(false))
    );
    assert_eq!(
        Value::List(Type::UInt, vec![Value::UInt(4)]).into_list().unwrap(),
        vec![Value::UInt(4)]
    );
    assert_eq!(
        Value::Mapping(Type::UInt, Type::Bool, vec![(Value::UInt(1), Value::Bool(true))])
            .into_mapping()
            .unwrap(),
        vec![(Value::UInt(1), Value::Bool(true))]
    );
    assert_eq!(Value::Tuple(vec![Value::Unit]).into_tuple().unwrap(), vec![Value::Unit]);
    assert_eq!(
        Value::Alias(TypeId::Anonymous, Box::new(Value::UInt(2))).into_alias().unwrap(),
        Value::UInt(2)
    );
    assert_eq!(Value::CEnum(TypeId::Anonymous, 11).into_c_enum().unwrap(), 11);
    assert_eq!(
        Value::Enum(TypeId::Anonymous, 5, Box::new(Value::Unit)).into_enum().unwrap(),
        (5, Value::Unit)
    );
    assert_eq!(
        Value::Struct(TypeId::Anonymous, vec![Value::Unit]).into_struct().unwrap(),
        vec![Value::Unit]
    );
    assert_eq!(Value::Type(Type::Bool).into_type().unwrap(), Type::Bool);
    assert_eq!(
        Value::TypeId(TypeId::Std(StdId { schema: 2, id: 3 })).into_type_id().unwrap(),
        TypeId::Std(StdId { schema: 2, id: 3 })
    );
}

#[test]
fn reader_cursor_basics() {
    let buf = vec![0xaa, 0xbb, 0xcc];
    let mut r = Reader::new(&buf);
    assert_eq!(r.consumed(), 0);
    assert_eq!(r.byte().unwrap(), 0xaa);
    assert_eq!(r.bytes(2).unwrap(), vec![0xbb, 0xcc]);
    assert_eq!(r.consumed(), 3);
    assert_eq!(r.byte().unwrap_err(), Error::Truncated);
    assert!(r.finish().is_ok());

    let mut r2 = Reader::new(&buf);
    assert_eq!(r2.byte().unwrap(), 0xaa);
    assert_eq!(r2.finish().unwrap_err(), Error::TrailingBytes);
    assert_eq!(r2.into_rest(), vec![0xbb, 0xcc]);
}

#[test]
fn reader_parses_type_ids() {
    let anon = vec![0x00];
    assert_eq!(Reader::new(&anon).typeid().unwrap(), TypeId::Anonymous);
    let std_id = vec![0x01, 0x5f, 0x49];
    assert_eq!(
        Reader::new(&std_id).typeid().unwrap(),
        TypeId::Std(StdId { schema: 0x01, id: 0x5f49 })
    );
    let hash = vec![0xff, 1, 2, 3, 4, 5, 6, 7];
    assert_eq!(
        Reader::new(&hash).typeid().unwrap(),
        TypeId::Hash(HashId { hash: [1, 2, 3, 4, 5, 6, 7] })
    );
    let cut = vec![0xff, 1, 2];
    assert_eq!(Reader::new(&cut).typeid().unwrap_err(), Error::Truncated);
}

struct Flag {
    up: bool,
}

impl Schema for Flag {
    fn serialize(self) -> Value {
        Value::Bool(self.up)
    }

    fn deserialize(v: Value) -> Flag {
        Flag { up: v.into_bool().unwrap() }
    }
}

#[test]
fn schema_round_trips_a_native_type() {
    let v = Value::serialize_from(Flag { up: true });
    assert_eq!(v, Value::Bool(true));
    let f: Flag = v.deserialize_into();
    assert!(f.up);
}
