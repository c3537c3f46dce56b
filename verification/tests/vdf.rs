use sam::float::{FloatTexts, FloatValue};
use sam::vdf::{
    parse, Cursor, Error, KeyValue, Value, MAX_DEPTH, TAG_COLOR, TAG_END, TAG_FLOAT32, TAG_INT32, TAG_NONE,
    TAG_POINTER, TAG_STRING, TAG_UINT64, TAG_WIDE_STRING,
};

/// Builds `root { "outer" { "name" = "hello", "count" = 42i32 } }`.
fn sample() -> Vec<u8> {
    let mut b = Vec::new();
    b.push(TAG_NONE);
    b.extend_from_slice(b"outer\0");
    b.push(TAG_STRING);
    b.extend_from_slice(b"name\0");
    b.extend_from_slice(b"hello\0");
    b.push(TAG_INT32);
    b.extend_from_slice(b"count\0");
    b.extend_from_slice(&42i32.to_le_bytes());
    b.push(TAG_END); // closes "outer"
    b.push(TAG_END); // closes root
    b
}

/// The decimal texts of every real number below a node.
fn texts_for(bits: Vec<u32>) -> FloatTexts {
    let mut texts = FloatTexts::new();
    for pattern in bits {
        texts.insert(pattern, f32::from_bits(pattern).to_string());
    }
    texts
}

/// A real number as the schema gives it.
fn resolved(value: FloatValue) -> f32 {
    let parsed = match &value {
        FloatValue::Bits(_) => None,
        FloatValue::Text { text, .. } => text.parse::<f32>().ok().map(|v| v.to_bits()),
    };
    f32::from_bits(value.resolve(parsed))
}

#[test]
fn parses_nested_document() {
    let kv = parse(&sample()).expect("should parse");
    let outer = kv.get("outer");
    assert!(outer.is_valid());
    assert_eq!(outer.get("name").as_str(), Some("hello"));
    assert_eq!(outer.get("count").as_i32_or(0), 42);
}

#[test]
fn lookup_is_case_insensitive() {
    let kv = parse(&sample()).unwrap();
    assert_eq!(kv.get("OUTER").get("NaMe").as_str(), Some("hello"));
}

#[test]
fn missing_lookups_chain_without_panicking() {
    let kv = parse(&sample()).unwrap();
    let missing = kv.get("nope").get("also-nope").get("still-nope");
    assert!(!missing.is_valid());
    assert_eq!(missing.as_i32_or(7), 7);
    assert_eq!(missing.as_string_or("fallback", &FloatTexts::new()), "fallback");
}

#[test]
fn coerces_across_types() {
    let mut b = Vec::new();
    b.push(TAG_STRING);
    b.extend_from_slice(b"numeric_string\0");
    b.extend_from_slice(b"123\0");
    b.push(TAG_FLOAT32);
    b.extend_from_slice(b"real\0");
    b.extend_from_slice(&2.75f32.to_le_bytes());
    b.push(TAG_END);

    let kv = parse(&b).unwrap();
    // A string node still answers integer and boolean queries, which the
    // schema relies on for fields like "min" and "incrementonly".
    assert_eq!(kv.get("numeric_string").as_i32_or(0), 123);
    assert!(kv.get("numeric_string").as_bool_or(false));
    // Floats truncate toward zero when read as an integer.
    assert_eq!(kv.get("real").as_i32_or(0), 2);
    assert_eq!(resolved(kv.get("real").as_f32_or(0)), 2.75);
}

#[test]
fn get_all_returns_every_match() {
    let mut b = Vec::new();
    for _ in 0..3 {
        b.push(TAG_NONE);
        b.extend_from_slice(b"bits\0");
        b.push(TAG_END);
    }
    b.push(TAG_END);

    let kv = parse(&b).unwrap();
    assert_eq!(kv.get_all("bits").len(), 3);
}

#[test]
fn rejects_truncated_input() {
    let mut truncated = sample();
    truncated.truncate(truncated.len() - 4);
    assert!(parse(&truncated).is_err());
}

#[test]
fn rejects_unknown_type_tag() {
    let b = vec![99u8, b'x', 0];
    assert_eq!(parse(&b), Err(Error::UnknownType(99)));
}

#[test]
fn tolerates_trailing_nul_padding() {
    let mut padded = sample();
    padded.extend_from_slice(&[0, 0, 0, 0]);
    assert!(parse(&padded).is_ok());
}

#[test]
fn rejects_trailing_garbage() {
    let mut trailing = sample();
    trailing.extend_from_slice(b"junk");
    assert_eq!(parse(&trailing), Err(Error::TrailingData));
}

#[test]
fn every_strict_prefix_of_a_document_is_rejected() {
    let whole = sample();
    for len in 0..whole.len() {
        assert!(parse(&whole[..len]).is_err(), "a prefix of {len} bytes");
    }
}

#[test]
fn padding_does_not_change_what_is_read() {
    let mut padded = sample();
    padded.extend_from_slice(&[0; 9]);
    assert_eq!(parse(&padded).unwrap(), parse(&sample()).unwrap());
}

#[test]
fn every_error_has_an_input_and_a_message() {
    assert_eq!(parse(&[]), Err(Error::UnexpectedEof));
    assert_eq!(Error::UnexpectedEof.message(), "unexpected end of input");

    let short = [TAG_INT32, b'n', 0, 1, 2];
    assert_eq!(parse(&short), Err(Error::UnexpectedEof));

    assert_eq!(Error::UnknownType(99).message(), "unknown value type 99");

    let wide = [TAG_WIDE_STRING, b'w', 0];
    assert_eq!(parse(&wide), Err(Error::WideStringUnsupported));
    assert_eq!(Error::WideStringUnsupported.message(), "wide strings are unsupported");

    let open = [TAG_STRING, b'n', 0, b'x'];
    assert_eq!(parse(&open), Err(Error::UnterminatedString));
    assert_eq!(Error::UnterminatedString.message(), "unterminated string");

    assert_eq!(Error::InvalidUtf8.message(), "invalid UTF-8 in string");
    assert_eq!(Error::TrailingData.message(), "trailing data after root container");

    let mut deep = Vec::new();
    for _ in 0..MAX_DEPTH + 1 {
        deep.extend_from_slice(&[TAG_NONE, b'd', 0]);
    }
    assert_eq!(parse(&deep), Err(Error::DepthLimitExceeded));
    assert_eq!(Error::DepthLimitExceeded.message(), "nesting depth limit exceeded");
}

#[test]
fn the_deepest_allowed_nesting_is_read() {
    let mut deep = Vec::new();
    for _ in 0..MAX_DEPTH {
        deep.extend_from_slice(&[TAG_NONE, b'd', 0]);
    }
    for _ in 0..MAX_DEPTH + 1 {
        deep.push(TAG_END);
    }
    let kv = parse(&deep).unwrap();
    assert_eq!(kv.children.len(), 1);
}

#[test]
fn text_that_is_not_utf8_is_salvaged() {
    let mut b = vec![TAG_STRING];
    b.extend_from_slice(b"name\0");
    b.extend_from_slice(&[b'a', 0xff, b'b', 0]);
    b.push(TAG_END);
    let kv = parse(&b).unwrap();
    assert_eq!(kv.get("name").as_str(), Some("a\u{fffd}b"));
}

#[test]
fn scalars_of_every_type_are_read() {
    let mut b = Vec::new();
    b.push(TAG_INT32);
    b.extend_from_slice(b"i\0");
    b.extend_from_slice(&(-5i32).to_le_bytes());
    b.push(TAG_POINTER);
    b.extend_from_slice(b"p\0");
    b.extend_from_slice(&7u32.to_le_bytes());
    b.push(TAG_COLOR);
    b.extend_from_slice(b"c\0");
    b.extend_from_slice(&0xff00_ff00u32.to_le_bytes());
    b.push(TAG_UINT64);
    b.extend_from_slice(b"u\0");
    b.extend_from_slice(&0x1_0000_0003u64.to_le_bytes());
    b.push(TAG_FLOAT32);
    b.extend_from_slice(b"f\0");
    b.extend_from_slice(&(-1.5f32).to_le_bytes());
    b.push(TAG_END);

    let kv = parse(&b).unwrap();
    let texts = texts_for(kv.float_bits());
    assert_eq!(kv.get("i").as_string_or("", &texts), "-5");
    assert_eq!(kv.get("p").as_string_or("", &texts), "7");
    assert_eq!(kv.get("c").as_string_or("", &texts), "4278255360");
    assert_eq!(kv.get("u").as_string_or("", &texts), "4294967299");
    assert_eq!(kv.get("f").as_string_or("", &texts), "-1.5");
    assert_eq!(kv.get("u").as_i32_or(0), 3);
    assert_eq!(kv.get("f").as_i32_or(0), -1);
    assert_eq!(kv.get("p").as_i32_or(-9), -9);
    assert_eq!(resolved(kv.get("i").as_f32_or(0)), -5.0);
    assert_eq!(resolved(kv.get("u").as_f32_or(0)), 3.0);
    assert!(kv.get("u").as_bool_or(false));
    assert!(!kv.get("c").as_bool_or(false));
    assert!(kv.is_container());
    assert!(!kv.get("i").is_container());
    assert_eq!(kv.get("i").found.unwrap().value, Value::Int32(-5));
    assert_eq!(kv.clone(), kv);
}

#[test]
fn a_nameless_node_counts_as_absent() {
    let b = [TAG_NONE, 0, TAG_END, TAG_END];
    let kv = parse(&b).unwrap();
    assert!(!kv.children[0].is_valid());
    assert!(kv.is_valid());
}

#[test]
fn numbers_in_text_are_read_with_their_sign() {
    let mut b = Vec::new();
    for (name, value) in [
        ("plain", " 12 "),
        ("negative", "-2147483648"),
        ("plus", "+3"),
        ("large", "2147483648"),
        ("words", "twelve"),
        ("real", "0.5"),
    ] {
        b.push(TAG_STRING);
        b.extend_from_slice(name.as_bytes());
        b.push(0);
        b.extend_from_slice(value.as_bytes());
        b.push(0);
    }
    b.push(TAG_END);
    let kv = parse(&b).unwrap();
    assert_eq!(kv.get("plain").as_i32_or(0), 12);
    assert_eq!(kv.get("negative").as_i32_or(0), i32::MIN);
    assert_eq!(kv.get("plus").as_i32_or(0), 3);
    assert_eq!(kv.get("large").as_i32_or(-1), -1);
    assert_eq!(kv.get("words").as_i32_or(-1), -1);
    assert!(kv.get("words").as_bool_or(true));
    assert_eq!(resolved(kv.get("real").as_f32_or(0)), 0.5);
    assert_eq!(resolved(kv.get("words").as_f32_or(2.5f32.to_bits())), 2.5);
}

#[test]
fn lookup_folds_case_beyond_ascii() {
    let leaf = |name: &str, value: i32| KeyValue {
        name: name.into(),
        value: Value::Int32(value),
        children: Vec::new(),
    };
    let kv = KeyValue {
        name: "r".into(),
        value: Value::Container,
        children: vec![leaf("É", 1), leaf("é", 2), leaf("STRASSE", 3)],
    };
    assert_eq!(kv.get("é").as_i32_or(0), 1);
    assert_eq!(kv.get("É").as_i32_or(0), 1);
    assert_eq!(kv.get_all("é").len(), 2);
    assert_eq!(kv.get("strasse").as_i32_or(0), 3);
    assert!(!kv.get("e").is_valid());
}

#[test]
fn a_failed_read_leaves_the_cursor() {
    let data = [b'a', b'b', b'c'];
    let mut cursor = Cursor { data: &data, pos: 1 };
    assert_eq!(cursor.cstr(), Err(Error::UnterminatedString));
    assert_eq!(cursor.u32(), Err(Error::UnexpectedEof));
    assert_eq!(cursor.i32(), Err(Error::UnexpectedEof));
    assert_eq!(cursor.u64(), Err(Error::UnexpectedEof));
    assert!(cursor.take(3).is_err());
    assert_eq!(cursor.pos, 1);
    assert_eq!(cursor.data, &data);
    cursor.pos = 3;
    assert_eq!(cursor.u8(), Err(Error::UnexpectedEof));
    assert_eq!(cursor.pos, 3);
}

#[test]
fn any_cut_document_ends_early() {
    let data = sample();
    for len in 0..data.len() {
        assert!(matches!(
            parse(&data[..len]),
            Err(Error::UnexpectedEof) | Err(Error::UnterminatedString)
        ));
    }
}

#[test]
fn lookup_folds_all_of_latin_1() {
    for u in 0..=0xffu8 {
        let name = (u as char).to_string();
        let kv = KeyValue {
            name: "r".into(),
            value: Value::Container,
            children: vec![KeyValue {
                name: name.clone(),
                value: Value::Int32(1),
                children: Vec::new(),
            }],
        };
        let capital = (0x41..=0x5a).contains(&u) || (0xc0..=0xde).contains(&u) && u != 0xd7;
        let small = if capital { (u + 32) as char } else { u as char };
        assert_eq!(kv.get(&small.to_string()).as_i32_or(0), 1, "{u:#x}");
        assert_eq!(name.to_lowercase(), small.to_string());
    }
}
