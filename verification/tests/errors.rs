use bcbc::casting::Tag;
use bcbc::{Error, Type, TypeId, Value};

#[test]
fn truncation_at_every_boundary_fails() {
    let v = Value::Tuple(vec![
        Value::UInt(999999),
        Value::String("hello".to_owned()),
        Value::Float(50.0_f64.to_bits()),
        Value::Option(Type::Bool, Box::new(Some(Value::Bool(true)))),
        Value::TypeId(TypeId::Std(bcbc::StdId { schema: 0x01, id: 0x5f49 })),
    ]);
    let buf = v.encode();
    for cut in 0..buf.len() {
        let short = buf[..cut].to_vec();
        let err = Value::decode(&short).unwrap_err();
        assert_eq!(err.err, Error::Truncated);
        assert_eq!(err.buf, short);
        assert!(err.pos <= short.len());
    }
    assert!(Value::decode(&buf).is_ok());
}

#[test]
fn invalid_header_bytes_are_tag_errors() {
    // Kind nibbles 0xc..0xf name no kind; the offset is just past the
    // offending header byte.
    let err = Value::decode(&vec![0xc0]).unwrap_err();
    assert_eq!(err.err, Error::Tag(0xc0));
    assert_eq!(err.pos, 1);
    assert_eq!(Value::decode(&vec![0xff]).unwrap_err().err, Error::Tag(0xff));
    // Marker modifiers 0x8..0xf name no extension marker.
    assert_eq!(Value::decode(&vec![0x08]).unwrap_err().err, Error::Tag(0x08));
    assert_eq!(Value::decode(&vec![0x0f]).unwrap_err().err, Error::Tag(0x0f));
    // A floating-point header must announce one to eight payload bytes.
    assert_eq!(Value::decode(&vec![0x30]).unwrap_err().err, Error::Tag(0x30));
    assert_eq!(Value::decode(&vec![0x39, 0x00]).unwrap_err().err, Error::Tag(0x39));
}

#[test]
fn unknown_type_tag_is_a_type_tag_error() {
    // An empty list whose element-type byte names no descriptor.
    let err = Value::decode(&vec![0x60, 0x55]).unwrap_err();
    assert_eq!(err.err, Error::TypeTag(0x55));
    assert_eq!(err.pos, 2);
}

#[test]
fn invalid_utf8_string_payload() {
    // The offset is past the payload, where the validation happened.
    let err = Value::decode(&vec![0x41, 0xff]).unwrap_err();
    assert_eq!(err.err, Error::Utf8);
    assert_eq!(err.pos, 2);
}

#[test]
fn failure_positions_point_at_the_detection_offset() {
    // A 2-byte magnitude announced but only one byte present: the read
    // stops where the magnitude bytes begin.
    let err = Value::decode(&vec![0x2d, 0x01]).unwrap_err();
    assert_eq!(err.err, Error::Truncated);
    assert_eq!(err.pos, 1);
    assert_eq!(err.buf, vec![0x2d, 0x01]);
    // The streaming entry point hands back the suffix at that offset.
    let (res, rest) = Value::decode_first_value(&vec![0x2d, 0x01]);
    assert_eq!(res.unwrap_err(), Error::Truncated);
    assert_eq!(rest, vec![0x01]);
}

#[test]
fn trailing_bytes_are_rejected() {
    let err = Value::decode(&vec![0x00, 0x00]).unwrap_err();
    assert_eq!(err.err, Error::TrailingBytes);
    assert_eq!(err.pos, 1);
}

#[test]
fn nesting_past_the_depth_budget_fails() {
    // A type value wrapping an option descriptor more than MAX_DEPTH
    // levels deep.
    let mut bytes = vec![0x06];
    for _ in 0..(bcbc::MAX_DEPTH + 1) {
        bytes.push(0x08);
    }
    bytes.push(0x01);
    let err = Value::decode(&bytes).unwrap_err();
    assert_eq!(err.err, Error::DepthLimit);
}

#[test]
fn deep_but_allowed_nesting_round_trips() {
    // Just under the budget: value depth MAX_DEPTH exactly.
    let mut t = Type::Unit;
    for _ in 0..(bcbc::MAX_DEPTH - 2) {
        t = Type::Option(Box::new(t));
    }
    let v = Value::Type(t);
    let buf = v.clone().encode();
    assert_eq!(Value::decode(&buf).unwrap(), v);
}

#[test]
fn accessors_report_the_wrong_variant() {
    assert_eq!(Value::Unit.into_bool().unwrap_err(), Error::WrongVariant(Tag::Unit));
    assert_eq!(
        Value::Bool(true).into_uint().unwrap_err(),
        Error::WrongVariant(Tag::Bool)
    );
    assert_eq!(
        Value::UInt(3).into_unit().unwrap_err(),
        Error::WrongVariant(Tag::UInt)
    );
    assert_eq!(
        Value::Tuple(vec![]).into_list().unwrap_err(),
        Error::WrongVariant(Tag::Tuple)
    );
}

#[test]
fn non_minimal_magnitudes_still_decode() {
    // The decoder is liberal: a small magnitude sent in a wide class is
    // accepted, though the writer would never emit it.
    let v = Value::decode(&vec![0x2c, 0x05]).unwrap();
    assert_eq!(v, Value::UInt(5));
    let v = Value::decode(&vec![0x2d, 0x00, 0x05]).unwrap();
    assert_eq!(v, Value::UInt(5));
}
