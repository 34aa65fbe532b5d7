use rediserde::Serializer;
use std::collections::HashMap;

fn written(f: impl FnOnce(&mut Serializer)) -> String {
    let mut s = Serializer::new();
    f(&mut s);
    s.into_string().unwrap()
}

fn test_u(val: u8, expected: &str) {
    assert_eq!(written(|s| s.serialize_u8(val)), expected, "u8");
    assert_eq!(written(|s| s.serialize_u16(val as u16)), expected, "u16");
    assert_eq!(written(|s| s.serialize_u32(val as u32)), expected, "u32");
    assert_eq!(written(|s| s.serialize_u64(val as u64)), format!("({}\r\n", val), "u64");
}

fn test_i(val: i8, expected: &str) {
    assert_eq!(written(|s| s.serialize_i8(val)), expected, "i8");
    assert_eq!(written(|s| s.serialize_i16(val as i16)), expected, "i16");
    assert_eq!(written(|s| s.serialize_i32(val as i32)), expected, "i32");
    assert_eq!(written(|s| s.serialize_i64(val as i64)), expected, "i64");
    assert_eq!(written(|s| s.serialize_i64(val as isize as i64)), expected, "isize");
}

#[test]
fn ser_test_number() {
    test_u(42, ":42\r\n");
    test_i(42, ":42\r\n");
    test_i(-42, ":-42\r\n");
}

#[test]
fn ser_test_big_number() {
    let expected = "(12345678901234567890\r\n";
    let val = 12345678901234567890_u64;
    assert_eq!(written(|s| s.serialize_u64(val)), expected);
    assert_eq!(written(|s| s.serialize_u64(val as usize as u64)), expected, "usize");
}

#[test]
fn ser_test_float() {
    let float = |text: String| written(|s| s.serialize_float_text(&text));
    assert_eq!(float(3.1_f32.to_string()), ",3.1\r\n", "plus f32");
    assert_eq!(float(3.1_f64.to_string()), ",3.1\r\n", "plus f64");
    assert_eq!(float((-3.1_f32).to_string()), ",-3.1\r\n", "plus f32");
    assert_eq!(float((-3.1_f64).to_string()), ",-3.1\r\n", "plus f64");
    assert_eq!(float(2e20_f64.to_string()), ",200000000000000000000\r\n", "exp f64");
    assert_eq!(float(2e-20_f64.to_string()), ",0.00000000000000000002\r\n", "neg exp f64");
}

#[test]
fn ser_test_string() {
    assert_eq!(written(|s| s.serialize_str("Hello, World!")), "$13\r\nHello, World!\r\n");
    assert_eq!(written(|s| s.serialize_str(&String::from("Hello"))), "$5\r\nHello\r\n");
    assert_eq!(written(|s| s.serialize_str(&String::new())), "$0\r\n\r\n");
}

#[test]
fn ser_test_array() {
    let arr = vec!["Hello".to_owned(), "World".to_owned()];
    let out = written(|s| {
        s.serialize_seq(Some(arr.len()));
        for item in &arr {
            s.serialize_str(item);
        }
    });
    assert_eq!(out, "*2\r\n$5\r\nHello\r\n$5\r\nWorld\r\n");

    let arr = vec![-1i32, -2i32];
    let out = written(|s| {
        s.serialize_seq(Some(arr.len()));
        for item in &arr {
            s.serialize_i32(*item);
        }
    });
    assert_eq!(out, "*2\r\n:-1\r\n:-2\r\n");

    let arr = vec![Some(1u8), None];
    let out = written(|s| {
        s.serialize_seq(Some(arr.len()));
        for item in &arr {
            match item {
                Some(v) => s.serialize_u8(*v),
                None => s.serialize_none(),
            }
        }
    });
    assert_eq!(out, "*2\r\n:1\r\n_\r\n");
}

#[test]
fn ser_test_map() {
    let mut map = HashMap::new();
    map.insert("key1".to_owned(), "value1".to_owned());
    map.insert("key2".to_owned(), "value2".to_owned());
    let out = written(|s| {
        s.serialize_map(Some(map.len())).unwrap();
        for (k, v) in &map {
            s.serialize_str(k);
            s.serialize_str(v);
        }
    });
    let expected1 = "%2\r\n$4\r\nkey1\r\n$6\r\nvalue1\r\n$4\r\nkey2\r\n$6\r\nvalue2\r\n";
    let expected2 = "%2\r\n$4\r\nkey2\r\n$6\r\nvalue2\r\n$4\r\nkey1\r\n$6\r\nvalue1\r\n";
    assert!(out == expected1 || out == expected2);
}

struct Test {
    int: u32,
    seq: Vec<String>,
    opt: Option<f64>,
}

fn encode_test(t: &Test) -> String {
    written(|s| {
        s.serialize_struct(3);
        s.serialize_str("int");
        s.serialize_u32(t.int);
        s.serialize_str("seq");
        s.serialize_seq(Some(t.seq.len()));
        for item in &t.seq {
            s.serialize_str(item);
        }
        s.serialize_str("opt");
        match t.opt {
            Some(v) => s.serialize_float_text(&v.to_string()),
            None => s.serialize_none(),
        }
    })
}

#[test]
fn ser_test_struct() {
    let test = Test {
        int: 1,
        seq: vec!["a".to_owned(), "b".to_owned()],
        opt: Some(3.1),
    };
    let out = encode_test(&test);
    let expected1 = "%3\r\n$3\r\nint\r\n:1\r\n$3\r\nseq\r\n*2\r\n$1\r\na\r\n$1\r\nb\r\n$3\r\nopt\r\n,3.1\r\n";
    let expected2 = "%3\r\n$3\r\nseq\r\n*2\r\n$1\r\na\r\n$1\r\nb\r\n$3\r\nint\r\n:1\r\n$3\r\nopt\r\n,3.1\r\n";
    let expected3 = "%3\r\n$3\r\nopt\r\n,3.1\r\n$3\r\nint\r\n:1\r\n$3\r\nseq\r\n*2\r\n$1\r\na\r\n$1\r\nb\r\n";
    assert!(out == expected1 || out == expected2 || out == expected3);

    let test = Test {
        int: 1,
        seq: vec!["a".to_owned(), "b".to_owned()],
        opt: None,
    };
    let out = encode_test(&test);
    let expected1 =
        "%3\r\n$3\r\nint\r\n:1\r\n$3\r\nseq\r\n*2\r\n$1\r\na\r\n$1\r\nb\r\n$3\r\nopt\r\n_\r\n";
    let expected2 =
        "%3\r\n$3\r\nseq\r\n*2\r\n$1\r\na\r\n$1\r\nb\r\n$3\r\nint\r\n:1\r\n$3\r\nopt\r\n_\r\n";
    let expected3 =
        "%3\r\n$3\r\nopt\r\n_\r\n$3\r\nint\r\n:1\r\n$3\r\nseq\r\n*2\r\n$1\r\na\r\n$1\r\nb\r\n";
    assert!(out == expected1 || out == expected2 || out == expected3);
}

#[test]
fn ser_test_enum() {
    assert_eq!(written(|s| s.serialize_unit_variant("Unit")), "$4\r\nUnit\r\n");
    assert_eq!(written(|s| s.serialize_unit_variant("AnotherUnit")), "$11\r\nAnotherUnit\r\n");
    let out = written(|s| {
        s.serialize_newtype_variant("Newtype");
        s.serialize_u32(1);
    });
    assert_eq!(out, "%1\r\n$7\r\nNewtype\r\n:1\r\n");
    let out = written(|s| {
        s.serialize_tuple_variant("Tuple", 2);
        s.serialize_u32(1);
        s.serialize_u32(2);
    });
    assert_eq!(out, "%1\r\n$5\r\nTuple\r\n*2\r\n:1\r\n:2\r\n");
    let out = written(|s| {
        s.serialize_struct_variant("Struct", 1);
        s.serialize_str("a");
        s.serialize_u32(1);
    });
    assert_eq!(out, "%1\r\n$6\r\nStruct\r\n%1\r\n$1\r\na\r\n:1\r\n")
}

#[test]
fn default_serializer_is_empty() {
    let s = Serializer::default();
    assert!(s.output().is_empty());
    assert_eq!(s.into_string().unwrap(), "");
}
