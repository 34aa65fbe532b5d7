use rediserde::{Deserializer, Error, Reading, RespDataKind, Serializer};

fn de(s: &str) -> Deserializer<'_> {
    Deserializer::new(s.as_bytes())
}

fn bytes_of(f: impl FnOnce(&mut Serializer)) -> Vec<u8> {
    let mut s = Serializer::new();
    f(&mut s);
    s.into_bytes()
}

#[test]
fn round_trip_scalars() {
    for b in [true, false] {
        let out = bytes_of(|s| s.serialize_bool(b));
        assert_eq!(Deserializer::new(&out).deserialize_bool().unwrap(), b);
    }
    for v in [i64::MIN, -1, 0, 7, i64::MAX] {
        let out = bytes_of(|s| s.serialize_i64(v));
        assert_eq!(Deserializer::new(&out).deserialize_i64().unwrap(), v);
    }
    for v in [0u64, 42, u64::MAX] {
        let out = bytes_of(|s| s.serialize_u64(v));
        assert_eq!(Deserializer::new(&out).deserialize_u64().unwrap(), v);
    }
    let out = bytes_of(|s| s.serialize_str("héllo"));
    assert_eq!(Deserializer::new(&out).deserialize_string().unwrap(), "héllo");
    let out = bytes_of(|s| s.serialize_char('x'));
    assert_eq!(Deserializer::new(&out).deserialize_char().unwrap(), 'x');
}

#[test]
fn wide_char_round_trip() {
    for c in ['é', '€', '😀', 'x'] {
        let out = bytes_of(|s| s.serialize_char(c));
        assert_eq!(Deserializer::new(&out).deserialize_char().unwrap(), c);
    }
    let out = bytes_of(|s| s.serialize_char('é'));
    assert_eq!(out, "$2\r\né\r\n".as_bytes());
    assert!(matches!(de("$2\r\nab\r\n").deserialize_char(), Err(Error::DeserializeError(_))));
    assert!(matches!(de("$0\r\n\r\n").deserialize_char(), Err(Error::DeserializeError(_))));
}

#[test]
fn bytes_round_trip() {
    let payload: &[u8] = &[0, 255, 13, 10, 36];
    let mut out = bytes_of(|s| s.serialize_bytes(payload));
    out.extend_from_slice(b":7\r\n");
    let mut d = Deserializer::new(&out);
    assert_eq!(d.deserialize_bytes().unwrap(), payload);
    assert_eq!(d.deserialize_i64().unwrap(), 7);
    assert_eq!(de("$-1\r\n").deserialize_byte_buf().unwrap(), Vec::<u8>::new());
    assert!(matches!(de("+ab\r\n").deserialize_bytes(), Err(Error::UnexpectedByte { found: '+', .. })));
}

#[test]
fn wide_integers() {
    assert_eq!(de("(42\r\n").deserialize_i128().unwrap(), 42);
    assert_eq!(de("(42\r\n").deserialize_u128().unwrap(), 42);
    assert_eq!(
        de("(340282366920938463463374607431768211455\r\n").deserialize_u128().unwrap(),
        u128::MAX
    );
    assert!(de("(340282366920938463463374607431768211456\r\n").deserialize_u128().is_err());
    assert_eq!(
        de("(-170141183460469231731687303715884105728\r\n").deserialize_i128().unwrap(),
        i128::MIN
    );
    assert!(de("(-170141183460469231731687303715884105729\r\n").deserialize_i128().is_err());
    assert_eq!(de(":-9223372036854775808\r\n").deserialize_i64().unwrap(), i64::MIN);
    assert!(de(":-1\r\n").deserialize_u128().is_err());
}

#[test]
fn lossy_some_unit_and_none() {
    let none = bytes_of(|s| s.serialize_none());
    let unit = bytes_of(|s| s.serialize_unit());
    assert_eq!(none, b"_\r\n");
    assert_eq!(unit, none);
    assert!(!Deserializer::new(&unit).deserialize_option().unwrap());
}

#[test]
fn lossy_null_and_empty_bulk() {
    assert_eq!(de("$-1\r\n").deserialize_string().unwrap(), "");
    assert_eq!(de("$0\r\n\r\n").deserialize_string().unwrap(), "");
}

#[test]
fn lossy_small_u64_is_big_number() {
    assert_eq!(bytes_of(|s| s.serialize_u64(42)), b"(42\r\n");
    assert_ne!(bytes_of(|s| s.serialize_u64(42)), b":42\r\n");
}

#[test]
fn numeric_coercion_boundary() {
    assert!(matches!(
        de("(300\r\n").deserialize_u8(),
        Err(Error::UnexpectedByte { found: '3', .. })
    ));
    assert_eq!(de("(300\r\n").deserialize_u16().unwrap(), 300);
    assert_eq!(de("(42\r\n").deserialize_u8().unwrap(), 42);
    assert_eq!(de("(42\r\n").deserialize_i8().unwrap(), 42);
    assert_eq!(de("(42\r\n").deserialize_i64().unwrap(), 42);
    assert!(de("(-42\r\n").deserialize_u8().is_err());
    assert!(de("(18446744073709551616\r\n").deserialize_u64().is_err());
    assert!(de(":1.5\r\n").deserialize_i64().is_err());
}

#[test]
fn length_exactness() {
    let mut d = de("*2\r\n:1\r\n");
    let mut seq = d.deserialize_seq().unwrap();
    assert!(seq.next_element());
    assert_eq!(d.deserialize_i64().unwrap(), 1);
    assert!(seq.next_element());
    assert!(matches!(d.deserialize_i64(), Err(Error::UnexpectedEnd)));
}

#[test]
fn accessor_stops_at_declared_count() {
    let mut d = de("*1\r\n:1\r\n:2\r\n");
    let mut seq = d.deserialize_seq().unwrap();
    assert_eq!(seq.remaining(), 1);
    assert!(seq.next_element());
    assert_eq!(d.deserialize_i64().unwrap(), 1);
    assert!(!seq.next_element());
    assert_eq!(seq.remaining(), 0);
}

#[test]
fn enum_framing() {
    let raw = "%2\r\n+Newtype\r\n:1\r\n+Other\r\n:2\r\n";
    assert!(matches!(
        de("%99999999999999999999999\r\n+A\r\n:1\r\n").deserialize_enum(),
        Err(Error::ExpectedLength)
    ));
    assert!(matches!(de(raw).deserialize_enum(), Err(Error::DeserializeError(_))));
    assert!(matches!(de("%0\r\n").deserialize_enum(), Err(Error::DeserializeError(_))));
    let v = de("+Unit\r\n").deserialize_enum().unwrap();
    assert!(v.payload_variant().is_err());
    let v = de("%1\r\n+Newtype\r\n:1\r\n").deserialize_enum().unwrap();
    assert!(v.unit_variant().is_err());
}

#[test]
fn boolean_literal() {
    assert!(de("#t\r\n").deserialize_bool().unwrap());
    assert!(!de("#f\r\n").deserialize_bool().unwrap());
    assert!(matches!(
        de("#x\r\n").deserialize_bool(),
        Err(Error::UnexpectedByte { found: 'x', .. })
    ));
    assert!(matches!(
        de("#T\r\n").deserialize_bool(),
        Err(Error::UnexpectedByte { found: 'T', .. })
    ));
}

#[test]
fn scenario_u8() {
    assert_eq!(bytes_of(|s| s.serialize_u8(42)), b":42\r\n");
    assert_eq!(de(":42\r\n").deserialize_u8().unwrap(), 42);
}

#[test]
fn scenario_u64_down_coercion() {
    assert_eq!(bytes_of(|s| s.serialize_u64(42)), b"(42\r\n");
    assert_eq!(de("(42\r\n").deserialize_u8().unwrap(), 42);
}

#[test]
fn scenario_vec_of_strings() {
    let out = bytes_of(|s| {
        s.serialize_seq(Some(2));
        s.serialize_str("Hello");
        s.serialize_str("World");
    });
    assert_eq!(out, b"*2\r\n$5\r\nHello\r\n$5\r\nWorld\r\n");
}

#[test]
fn scenario_null_bulk_string() {
    assert_eq!(de("$-1\r\n").deserialize_string().unwrap(), "");
}

#[test]
fn scenario_newtype_variant() {
    let mut d = de("%1\r\n+Newtype\r\n:1\r\n");
    let v = d.deserialize_enum().unwrap();
    assert_eq!(v.variant(), "Newtype");
    assert!(v.has_payload());
    assert_eq!(d.deserialize_u32().unwrap(), 1);
}

#[test]
fn scenario_optional_array() {
    let mut d = de("*2\r\n:1\r\n_\r\n");
    let mut seq = d.deserialize_seq().unwrap();
    let mut out = Vec::new();
    while seq.next_element() {
        out.push(if d.deserialize_option().unwrap() {
            Some(d.deserialize_u8().unwrap())
        } else {
            None
        });
    }
    assert_eq!(out, vec![Some(1), None]);
}

#[test]
fn error_variants() {
    assert!(matches!(de("").deserialize_i64(), Err(Error::UnexpectedEnd)));
    assert!(matches!(de("?1\r\n").deserialize_i64(), Err(Error::UnrecognizedStart)));
    assert!(matches!(de("+1\r\n").deserialize_i64(), Err(Error::UnexpectedByte { found: '+', .. })));
    assert!(matches!(de("*x\r\n").deserialize_seq(), Err(Error::ExpectedLength)));
    let invalid: &[u8] = b"$2\r\n\xff\xfe\r\n";
    assert!(matches!(Deserializer::new(invalid).deserialize_string(), Err(Error::InvalidUtf8)));
    assert!(matches!(
        Serializer::new().serialize_map(None),
        Err(Error::SerializeError(_))
    ));
    assert!(matches!(de(":42").deserialize_i64(), Err(Error::UnexpectedEnd)));
    assert!(matches!(de(":42\r").deserialize_i64(), Err(Error::UnexpectedByte { found: '\r', .. })));
    assert!(matches!(de(":42\rx").deserialize_i64(), Err(Error::UnexpectedByte { found: '\r', .. })));
    assert!(matches!(de("+\r\n").deserialize_string(), Err(Error::UnexpectedEnd)));
    assert!(matches!(de("$5\r\nab\r\n").deserialize_string(), Err(Error::UnexpectedEnd)));
    assert!(matches!(de("#t\r\n").deserialize_string(), Err(Error::UnexpectedByte { found: '#', .. })));
}

#[test]
fn headers_and_sets() {
    let mut s = Serializer::new();
    s.serialize_seq(None);
    assert_eq!(s.output().as_slice(), b"*-1\r\n");
    assert!(matches!(de("*-1\r\n").deserialize_seq(), Err(Error::ExpectedLength)));
    assert_eq!(de("~3\r\n").deserialize_seq().unwrap().remaining(), 3);
    assert_eq!(de(">0\r\n").deserialize_seq().unwrap().remaining(), 0);
    assert_eq!(de("|1\r\n").deserialize_map().unwrap().remaining(), 1);
    assert!(de("%1\r\n").deserialize_seq().is_err());
}

#[test]
fn registry() {
    assert_eq!(RespDataKind::from_prefix_bytes(b'%'), Some(RespDataKind::MapData));
    assert_eq!(RespDataKind::from_prefix_char('~'), Some(RespDataKind::SetData));
    assert_eq!(RespDataKind::from_prefix_bytes(b'?'), None);
    assert_eq!(RespDataKind::BigNumber.to_prefix_char(), '(');
    assert_eq!(RespDataKind::Push.to_prefix_bytes(), b'>');
    assert_eq!(de("=3\r\nabc\r\n").peek_kind().unwrap(), RespDataKind::VerbatimString);
    assert_eq!(de("~2\r\n").deserialize_any().unwrap(), Reading::Sequence);
    assert_eq!(de("(1\r\n").deserialize_any().unwrap(), Reading::BigInteger);
    assert_eq!(de("!1\r\nx\r\n").deserialize_any().unwrap(), Reading::Text);
    assert_eq!(de("|0\r\n").deserialize_any().unwrap(), Reading::Pairs);
    assert!(matches!(de("?").deserialize_any(), Err(Error::UnrecognizedStart)));
    assert_eq!(u8::from(RespDataKind::Attributes), b'|');
    assert_eq!(char::from(RespDataKind::Null), '_');
    assert_eq!(RespDataKind::try_from(b'#'), Ok(RespDataKind::Boolean));
    assert_eq!(RespDataKind::try_from('!'), Ok(RespDataKind::BulkError));
    assert_eq!(RespDataKind::try_from('x'), Err(()));
    assert_eq!(RespDataKind::try_from('é'), Err(()));
}

#[test]
fn reported_byte_and_expectation() {
    match de(":42\rx").deserialize_i64() {
        Err(Error::UnexpectedByte { expected, found }) => {
            assert_eq!(expected, "\r\n");
            assert_eq!(found, '\r');
        }
        other => panic!("unexpected {other:?}"),
    }
    match de("x\r\n").deserialize_unit() {
        Err(Error::UnexpectedByte { expected, found }) => {
            assert_eq!(expected, "_");
            assert_eq!(found, 'x');
        }
        other => panic!("unexpected {other:?}"),
    }
    assert!(matches!(
        de("(300\r\n").deserialize_u8(),
        Err(Error::UnexpectedByte { found: '3', .. })
    ));
    assert!(matches!(de("$2\r\n42\r\n").deserialize_i64(), Err(Error::UnexpectedByte { found: '$', .. })));
}
