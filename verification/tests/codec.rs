use bcbc::{HashId, StdId, Type, TypeId, Value};

fn case(v: Value, exp: Vec<u8>) {
    println!("{:?}", &v);
    let buf = v.clone().encode();
    println!("len={}", exp.len());
    println!("{:02x?}", &exp);
    println!("len={}", buf.len());
    println!("{:02x?}", &buf);
    assert_eq!(&buf, &exp);
    let v2 = Value::decode(&buf).unwrap();
    assert_eq!(v, v2);
}

#[test]
fn test() {
    case(
        Value::Mapping(
            Type::UInt,
            Type::List(Box::new(Type::String)),
            vec![
                (
                    Value::UInt(123),
                    Value::List(
                        Type::String,
                        vec![
                            Value::String("hello".to_owned()),
                            Value::String("goodbye".to_owned()),
                        ],
                    ),
                ),
                (
                    Value::UInt(999999),
                    Value::List(
                        Type::String,
                        vec![
                            Value::String("thanks".to_owned()),
                            Value::String("how are you".to_owned()),
                        ],
                    ),
                ),
            ],
        ),
        vec![
            0x72, 0x04, 0x09, 0x06, //
            0x2c, 0x7b, 0x62, 0x06, 0x45, 0x68, 0x65, 0x6c, 0x6c, 0x6f, 0x47, 0x67, 0x6f, 0x6f,
            0x64, 0x62, 0x79, 0x65, //
            0x2e, 0x00, 0x0f, 0x42, 0x3f, 0x62, 0x06, 0x46, 0x74, 0x68, 0x61, 0x6e, 0x6b, 0x73,
            0x4b, 0x68, 0x6f, 0x77, 0x20, 0x61, 0x72, 0x65, 0x20, 0x79, 0x6f, 0x75,
        ],
    );

    case(
        Value::Tuple(vec![
            Value::Unit,
            Value::Bool(false),
            Value::Int(-7777777),
            Value::UInt(24393),
            Value::Float(50.0_f64.to_bits()),
            Value::String("Berylosft".to_owned()),
            Value::Bytes(b"(\x00)".to_vec()),
            Value::Option(Type::String, Box::new(None)),
            Value::Option(Type::Bool, Box::new(Some(Value::Bool(true)))),
            Value::Alias(
                TypeId::Hash(HashId { hash: [0xfe, 0xdc, 0xba, 0x98, 0x76, 0x54, 0x32] }),
                Box::new(Value::Bytes(b"\xff".to_vec())),
            ),
            Value::CEnum(TypeId::Std(StdId { schema: 0x01, id: 0x5f50 }), 11),
            Value::Enum(
                TypeId::Std(StdId { schema: 0x01, id: 0x5f49 }),
                5,
                Box::new(Value::Int(5)),
            ),
            Value::Enum(
                TypeId::Std(StdId { schema: 0xfe, id: 0x00aa }),
                163,
                Box::new(Value::UInt(12)),
            ),
            Value::Type(Type::List(Box::new(Type::List(Box::new(Type::Struct(
                TypeId::Anonymous,
            )))))),
            Value::TypeId(TypeId::Hash(HashId {
                hash: [0xfe, 0xdc, 0xba, 0x98, 0x76, 0x54, 0x32],
            })),
            Value::Option(
                Type::Tuple(vec![Type::Int, Type::Unit, Type::Unknown]),
                Box::new(Some(Value::Tuple(vec![
                    Value::Int(9),
                    Value::Unit,
                    Value::Bool(true),
                ]))),
            ),
        ]),
        vec![
            0x8c, 0x10, //
            0x00, //
            0x01, //
            0x1e, 0x00, 0xed, 0x5b, 0xe1, //
            0x2d, 0x5f, 0x49, //
            0x32, 0x40, 0x49, //
            0x49, 0x42, 0x65, 0x72, 0x79, 0x6c, 0x6f, 0x73, 0x66, 0x74, //
            0x53, 0x28, 0x00, 0x29, //
            0x03, 0x06, //
            0x04, 0x02, 0x02, //
            0x05, 0xff, 0xfe, 0xdc, 0xba, 0x98, 0x76, 0x54, 0x32, 0x51, 0xff, //
            0x9b, 0x01, 0x5f, 0x50, //
            0xa5, 0x01, 0x5f, 0x49, 0x1a, //
            0xac, 0xa3, 0xfe, 0x00, 0xaa, 0x2c, 0x0c, //
            0x06, 0x09, 0x09, 0x0f, 0x00, //
            0x07, 0xff, 0xfe, 0xdc, 0xba, 0x98, 0x76, 0x54, 0x32, //
            0x04, 0x0b, 0x03, 0x03, 0x01, 0x00, 0x83, 0x1c, 0x12, 0x00, 0x02,
        ],
    )
}

#[test]
fn unit_and_bool_single_bytes() {
    case(Value::Bool(false), vec![0x01]);
    case(Value::Unit, vec![0x00]);
    case(Value::Bool(true), vec![0x02]);
}

#[test]
fn numeric_minimality_boundaries() {
    // Inline magnitudes stop at 11; the explicit classes are 1, 2, 4 and
    // 8 bytes, each entered exactly past the previous class's ceiling.
    case(Value::UInt(0), vec![0x20]);
    case(Value::UInt(11), vec![0x2b]);
    case(Value::UInt(12), vec![0x2c, 0x0c]);
    case(Value::UInt(255), vec![0x2c, 0xff]);
    case(Value::UInt(256), vec![0x2d, 0x01, 0x00]);
    case(Value::UInt(65535), vec![0x2d, 0xff, 0xff]);
    case(Value::UInt(65536), vec![0x2e, 0x00, 0x01, 0x00, 0x00]);
    case(Value::UInt(0xffff_ffff), vec![0x2e, 0xff, 0xff, 0xff, 0xff]);
    case(
        Value::UInt(0x1_0000_0000),
        vec![0x2f, 0x00, 0x00, 0x00, 0x01, 0x00, 0x00, 0x00, 0x00],
    );
    case(Value::UInt(u64::MAX), vec![0x2f, 0xff, 0xff, 0xff, 0xff, 0xff, 0xff, 0xff, 0xff]);
}

#[test]
fn zigzag_signed_integers() {
    case(Value::Int(0), vec![0x10]);
    case(Value::Int(-1), vec![0x11]);
    case(Value::Int(1), vec![0x12]);
    case(Value::Int(5), vec![0x1a]);
    case(Value::Int(-6), vec![0x1b]);
    case(Value::Int(6), vec![0x1c, 0x0c]);
    case(Value::Int(i64::MAX), vec![0x1f, 0xff, 0xff, 0xff, 0xff, 0xff, 0xff, 0xff, 0xfe]);
    case(Value::Int(i64::MIN), vec![0x1f, 0xff, 0xff, 0xff, 0xff, 0xff, 0xff, 0xff, 0xff]);
}

#[test]
fn float_trims_trailing_zero_bytes() {
    // 50.0 is 0x4049000000000000: only the two leading bytes travel.
    case(Value::Float(50.0_f64.to_bits()), vec![0x32, 0x40, 0x49]);
    // A zero pattern still keeps one byte.
    case(Value::Float(0), vec![0x31, 0x00]);
    // A pattern with a nonzero low byte needs all eight.
    case(
        Value::Float(0x4049_0000_0000_0001),
        vec![0x38, 0x40, 0x49, 0x00, 0x00, 0x00, 0x00, 0x00, 0x01],
    );
}

#[test]
fn self_description_of_empty_containers() {
    // The element types are on the wire even with nothing inside, and
    // decoding recovers them.
    case(Value::Option(Type::UInt, Box::new(None)), vec![0x03, 0x04]);
    case(Value::List(Type::String, vec![]), vec![0x60, 0x06]);
    case(Value::Mapping(Type::UInt, Type::Bool, vec![]), vec![0x70, 0x04, 0x02]);
    case(Value::Tuple(vec![]), vec![0x80]);
}

#[test]
fn mapping_keeps_order_and_duplicates() {
    // A mapping is an ordered association sequence: duplicate keys are
    // carried and come back in order, never rejected.
    let v = Value::Mapping(
        Type::UInt,
        Type::Bool,
        vec![
            (Value::UInt(7), Value::Bool(true)),
            (Value::UInt(7), Value::Bool(false)),
        ],
    );
    let buf = v.clone().encode();
    assert_eq!(buf, vec![0x72, 0x04, 0x02, 0x27, 0x02, 0x27, 0x01]);
    assert_eq!(Value::decode(&buf).unwrap(), v);
}

#[test]
fn streaming_two_values_back_to_back() {
    let a = Value::UInt(999999);
    let b = Value::String("fine".to_owned());
    let mut cat = a.clone().encode();
    cat.extend_from_slice(&b.clone().encode());
    let (first, rest) = Value::decode_first_value(&cat);
    assert_eq!(first.unwrap(), a);
    let (second, rest2) = Value::decode_first_value(&rest);
    assert_eq!(second.unwrap(), b);
    assert!(rest2.is_empty());
    // The same two values decode independently as whole inputs.
    assert_eq!(Value::decode(&a.clone().encode()).unwrap(), a);
    assert_eq!(Value::decode(&b.clone().encode()).unwrap(), b);
}
