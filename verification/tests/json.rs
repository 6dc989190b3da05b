use airline::server::json::writer::{push_quoted, push_value, ObjectWriter};
use airline::server::{JsonArray, JsonChild, JsonError, JsonNumber, JsonObject, ToJson};

fn object(text: &str) -> Result<JsonObject, JsonError> {
    JsonObject::from_string(text.to_string())
}

fn array(text: &str) -> Result<JsonArray, JsonError> {
    JsonArray::from_string(text.to_string())
}

fn first_text(text: &str) -> Option<String> {
    array(text).ok().and_then(|a| a.get(0).and_then(|c| c.string()))
}

#[test]
fn object_with_string_member() {
    let o = object("{\"name\":\"abc\"}").unwrap();
    assert_eq!(o.len(), 1);
    assert_eq!(o.string("name"), Some("abc".to_string()));
    assert_eq!(o.string("other"), None);
    assert_eq!(o.string("Name"), None);
    assert_eq!(o.i32("name"), None);
    assert_eq!(o.bool("name"), None);
    assert!(o.object("name").is_none());
    assert!(o.array("name").is_none());
}

#[test]
fn array_of_three_numbers() {
    let a = array("[1,2,3]").unwrap();
    assert_eq!(a.len(), 3);
    assert_eq!(a.all().len(), 3);
    assert_eq!(a.all()[0].i32(), Some(1));
    assert_eq!(a.all()[1].i32(), Some(2));
    assert_eq!(a.all()[2].i32(), Some(3));
    assert!(a.get(3).is_none());
}

#[test]
fn typed_accessors_by_key() {
    let o = object(
        "{\"s\":\"x\",\"n\":-7,\"t\":true,\"f\":false,\"z\":null,\"o\":{\"k\":1},\"a\":[\"y\"]}",
    )
    .unwrap();
    assert_eq!(o.len(), 7);
    assert_eq!(o.string("s"), Some("x".to_string()));
    assert_eq!(o.i32("n"), Some(-7));
    assert_eq!(o.bool("t"), Some(true));
    assert_eq!(o.bool("f"), Some(false));
    assert!(o.get("z").unwrap().is_null());
    assert_eq!(o.object("o").unwrap().i32("k"), Some(1));
    assert_eq!(o.array("a").unwrap().get(0).unwrap().string(), Some("y".to_string()));
    assert_eq!(o.string("n"), None);
    assert_eq!(o.i32("s"), None);
    assert_eq!(o.i32("t"), None);
    assert_eq!(o.bool("z"), None);
    assert!(o.object("a").is_none());
    assert!(o.array("o").is_none());
    assert!(o.get("missing").is_none());
    assert_eq!(o.i32("missing"), None);
    let (key, value) = o.entry(1).unwrap();
    assert_eq!(key, "n");
    assert_eq!(value.i32(), Some(-7));
    assert!(o.entry(7).is_none());
}

#[test]
fn child_accessors() {
    assert_eq!(JsonChild::Text("t".to_string()).string(), Some("t".to_string()));
    assert_eq!(JsonChild::Text("1".to_string()).i32(), None);
    assert_eq!(JsonChild::Boolean(true).bool(), Some(true));
    assert_eq!(JsonChild::Boolean(true).string(), None);
    assert!(JsonChild::Null.is_null());
    assert!(!JsonChild::Boolean(false).is_null());
    assert_eq!(JsonChild::Null.i32(), None);
    assert_eq!(JsonChild::Number(JsonNumber::from_i32(5)).i32(), Some(5));
    assert!(JsonChild::Object(JsonObject::new()).object().is_some());
    assert!(JsonChild::Object(JsonObject::new()).array().is_none());
    assert!(JsonChild::Array(JsonArray::new()).array().is_some());
    assert!(JsonChild::Array(JsonArray::new()).object().is_none());
}

#[test]
fn wrong_kind_and_not_json() {
    assert_eq!(object("[1]").err(), Some(JsonError::WrongKind));
    assert_eq!(array("{}").err(), Some(JsonError::WrongKind));
    assert_eq!(object("12").err(), Some(JsonError::WrongKind));
    assert_eq!(array("\"x\"").err(), Some(JsonError::WrongKind));
    assert_eq!(object("null").err(), Some(JsonError::WrongKind));
    assert_eq!(object("{\"a\":}").err(), Some(JsonError::NotJson));
    assert_eq!(object("").err(), Some(JsonError::NotJson));
    assert_eq!(object("   ").err(), Some(JsonError::NotJson));
    assert_eq!(object("{} x").err(), Some(JsonError::NotJson));
    assert_eq!(object("{}{}").err(), Some(JsonError::NotJson));
    assert_eq!(object("{").err(), Some(JsonError::NotJson));
    assert_eq!(object("{\"a\":1,}").err(), Some(JsonError::NotJson));
    assert_eq!(object("{\"a\" 1}").err(), Some(JsonError::NotJson));
    assert_eq!(object("{a:1}").err(), Some(JsonError::NotJson));
    assert_eq!(object("{\"a\":1 \"b\":2}").err(), Some(JsonError::NotJson));
    assert_eq!(object("{,}").err(), Some(JsonError::NotJson));
    assert_eq!(array("[").err(), Some(JsonError::NotJson));
    assert_eq!(array("[1,]").err(), Some(JsonError::NotJson));
    assert_eq!(array("[,1]").err(), Some(JsonError::NotJson));
    assert_eq!(array("[1 2]").err(), Some(JsonError::NotJson));
    assert_eq!(array("[1]]").err(), Some(JsonError::NotJson));
    assert_eq!(array("[tru]").err(), Some(JsonError::NotJson));
    assert_eq!(array("[True]").err(), Some(JsonError::NotJson));
    assert_eq!(array("[nul]").err(), Some(JsonError::NotJson));
    assert_eq!(array("[\"open]").err(), Some(JsonError::NotJson));
}

#[test]
fn white_space_is_allowed_between_tokens() {
    let o = object(" \t\r\n{ \"a\" :\n[ 1 ,\t2 ] , \"b\" : { } , \"c\":[ ]\n}\n ").unwrap();
    assert_eq!(o.len(), 3);
    assert_eq!(o.array("a").unwrap().len(), 2);
    assert_eq!(o.object("b").unwrap().len(), 0);
    assert_eq!(o.array("c").unwrap().len(), 0);
    assert_eq!(object("{\u{a0}}").err(), Some(JsonError::NotJson));
    assert_eq!(array("[1\u{b}]").err(), Some(JsonError::NotJson));
}

#[test]
fn a_key_written_again_takes_the_later_value_in_its_place() {
    let o = object("{\"a\":1,\"b\":2,\"a\":3}").unwrap();
    assert_eq!(o.len(), 2);
    assert_eq!(o.i32("a"), Some(3));
    assert_eq!(o.i32("b"), Some(2));
    assert_eq!(o.entry(0).unwrap().0, "a");
    assert_eq!(o.entry(1).unwrap().0, "b");
    assert_eq!(o.to_json(), "{\"a\":3,\"b\":2}");
    let mut built = JsonObject::new();
    built.insert("x".to_string(), JsonChild::Null);
    built.insert("y".to_string(), JsonChild::Boolean(true));
    built.insert("x".to_string(), JsonChild::Boolean(false));
    assert_eq!(built.len(), 2);
    assert_eq!(built.bool("x"), Some(false));
    assert_eq!(built.to_json(), "{\"x\":false,\"y\":true}");
}

#[test]
fn escapes_are_read() {
    assert_eq!(first_text("[\"\\\"\\\\\\/\\b\\f\\n\\r\\t\"]"), Some("\"\\/\u{8}\u{c}\n\r\t".to_string()));
    assert_eq!(first_text("[\"\\u0041\\u00e9\\u00E9\\u20ac\"]"), Some("Aéé€".to_string()));
    assert_eq!(first_text("[\"\\ud83d\\ude00\"]"), Some("😀".to_string()));
    assert_eq!(first_text("[\"\\uD83D\\uDE00!\"]"), Some("😀!".to_string()));
    assert_eq!(first_text("[\"\\u0000\"]"), Some("\u{0}".to_string()));
    assert_eq!(first_text("[\"é😀\"]"), Some("é😀".to_string()));
    assert_eq!(first_text("[\"\"]"), Some("".to_string()));
    assert_eq!(first_text("[\"\u{7f}\"]"), Some("\u{7f}".to_string()));
}

#[test]
fn bad_strings_are_refused() {
    for text in [
        "[\"\\x\"]",
        "[\"\\u12\"]",
        "[\"\\u12g4\"]",
        "[\"\\ud83d\"]",
        "[\"\\ud83d\\u0041\"]",
        "[\"\\ud83dx\"]",
        "[\"\\ude00\"]",
        "[\"\\ud83d\\ud83d\"]",
        "[\"a\nb\"]",
        "[\"a\tb\"]",
        "[\"a\u{1f}b\"]",
        "[\"\\\"]",
        "[\"\\",
        "['a']",
    ] {
        assert_eq!(array(text).err(), Some(JsonError::NotJson), "{}", text);
    }
}

#[test]
fn numerals() {
    for good in [
        "0", "-0", "7", "10", "-12", "1.5", "0.0", "-0.25", "1e5", "1E5", "1e+5", "1e-5",
        "12.50e-03", "0e0", "2147483648", "123456789012345678901234567890",
    ] {
        let n = JsonNumber::parse(good).unwrap();
        assert_eq!(n.numeral(), good);
        assert_eq!(n.to_json(), good);
        let a = array(&format!("[{}]", good)).unwrap();
        assert_eq!(a.to_json(), format!("[{}]", good));
    }
    for bad in [
        "", "-", "+1", "01", "-01", "1.", ".5", "1.e5", "1e", "1e+", "1e5.0", "0x10", "1 ", " 1",
        "--1", "1-", "NaN", "Infinity", "1,0", "١",
    ] {
        assert!(JsonNumber::parse(bad).is_none(), "{}", bad);
    }
    for bad in [
        "-", "+1", "01", "-01", "1.", ".5", "1.e5", "1e", "1e+", "1e5.0", "0x10", "--1", "1-",
        "NaN", "Infinity", "١",
    ] {
        assert!(array(&format!("[{}]", bad)).is_err(), "{}", bad);
    }
}

#[test]
fn numbers_as_i32() {
    let cases: Vec<(&str, Option<i32>)> = vec![
        ("0", Some(0)),
        ("-0", Some(0)),
        ("7", Some(7)),
        ("-12", Some(-12)),
        ("2147483647", Some(i32::MAX)),
        ("-2147483648", Some(i32::MIN)),
        ("2147483648", None),
        ("-2147483649", None),
        ("99999999999999999999", None),
        ("-99999999999999999999", None),
        ("1.0", None),
        ("1e2", None),
        ("-1.5", None),
    ];
    for (numeral, value) in cases {
        assert_eq!(JsonNumber::parse(numeral).unwrap().i32(), value, "{}", numeral);
    }
}

#[test]
fn numbers_from_i32() {
    for n in [0, 1, -1, 9, 10, 11, 99, 100, -100, 12345, i32::MAX, i32::MIN] {
        let number = JsonNumber::from_i32(n);
        assert_eq!(number.numeral(), &n.to_string());
        assert_eq!(number.i32(), Some(n));
        assert_eq!(JsonNumber::parse(&n.to_string()).unwrap().i32(), Some(n));
    }
}

#[test]
fn values_are_written_compactly() {
    assert_eq!(JsonChild::Null.to_json(), "null");
    assert_eq!(JsonChild::Boolean(true).to_json(), "true");
    assert_eq!(JsonChild::Boolean(false).to_json(), "false");
    assert_eq!(JsonChild::Text("a".to_string()).to_json(), "\"a\"");
    assert_eq!(JsonChild::Number(JsonNumber::from_i32(-3)).to_json(), "-3");
    assert_eq!(JsonObject::new().to_json(), "{}");
    assert_eq!(JsonArray::new().to_json(), "[]");
    let mut a = JsonArray::new();
    a.push(JsonChild::Array(JsonArray::new()));
    a.push(JsonChild::Object(JsonObject::new()));
    a.push(JsonChild::Null);
    assert_eq!(a.to_json(), "[[],{},null]");
    let mut o = JsonObject::new();
    o.insert("k".to_string(), JsonChild::Array(a));
    assert_eq!(o.to_json(), "{\"k\":[[],{},null]}");
    let mut out = "x=".to_string();
    push_value(&mut out, &JsonChild::Object(o));
    assert_eq!(out, "x={\"k\":[[],{},null]}");
}

#[test]
fn strings_are_quoted_and_escaped() {
    let mut out = String::new();
    push_quoted(&mut out, "a\"b\\c/d\u{8}\u{c}\n\r\t\u{0}\u{1}\u{1f}\u{7f}é😀");
    assert_eq!(
        out,
        "\"a\\\"b\\\\c/d\\b\\f\\n\\r\\t\\u0000\\u0001\\u001f\u{7f}é😀\""
    );
    assert_eq!("".to_string().to_json(), "\"\"");
    assert_eq!("plain".to_string().to_json(), "\"plain\"");
    assert_eq!("\u{b}\u{e}\u{10}".to_string().to_json(), "\"\\u000b\\u000e\\u0010\"");
}

#[test]
fn scalars_and_sequences_are_written() {
    assert_eq!(true.to_json(), "true");
    assert_eq!(false.to_json(), "false");
    assert_eq!(0i32.to_json(), "0");
    assert_eq!(i32::MIN.to_json(), "-2147483648");
    assert_eq!(i64::MIN.to_json(), "-9223372036854775808");
    assert_eq!(i64::MAX.to_json(), "9223372036854775807");
    assert_eq!(u32::MAX.to_json(), "4294967295");
    assert_eq!(u64::MAX.to_json(), "18446744073709551615");
    assert_eq!(7u64.to_json(), "7");
    assert_eq!(Vec::<bool>::new().to_json(), "[]");
    assert_eq!(vec![true].to_json(), "[true]");
    assert_eq!(vec![1i32, -2, 3].to_json(), "[1,-2,3]");
    assert_eq!(vec!["a".to_string(), "b\"".to_string()].to_json(), "[\"a\",\"b\\\"\"]");
    assert_eq!(vec![vec![1u32], vec![], vec![2, 3]].to_json(), "[[1],[],[2,3]]");
}

#[test]
fn object_writer_writes_members_in_order() {
    let w = ObjectWriter::new();
    assert_eq!(w.finish(), "{}");
    let mut w = ObjectWriter::new();
    w.member("b", &1i32);
    w.member("a", &"x".to_string());
    w.member("a\"", &vec![true, false]);
    assert_eq!(w.finish(), "{\"b\":1,\"a\":\"x\",\"a\\\"\":[true,false]}");
}

#[test]
fn write_then_parse_gives_the_tree_again() {
    let mut inner = JsonArray::new();
    inner.push(JsonChild::Number(JsonNumber::parse("-12.5e3").unwrap()));
    inner.push(JsonChild::Null);
    inner.push(JsonChild::Boolean(false));
    let mut deep = JsonObject::new();
    deep.insert("".to_string(), JsonChild::Array(JsonArray::new()));
    inner.push(JsonChild::Object(deep));
    let mut o = JsonObject::new();
    o.insert("text".to_string(), JsonChild::Text("a\"b\\c\n\u{1}é".to_string()));
    o.insert("list".to_string(), JsonChild::Array(inner));
    o.insert("k\"ey\n".to_string(), JsonChild::Number(JsonNumber::from_i32(i32::MIN)));
    let out = o.to_json();
    assert_eq!(
        out,
        "{\"text\":\"a\\\"b\\\\c\\n\\u0001é\",\"list\":[-12.5e3,null,false,{\"\":[]}],\"k\\\"ey\\n\":-2147483648}"
    );
    let back = object(&out).unwrap();
    assert_eq!(back.len(), 3);
    assert_eq!(back.entry(0).unwrap().0, "text");
    assert_eq!(back.entry(1).unwrap().0, "list");
    assert_eq!(back.entry(2).unwrap().0, "k\"ey\n");
    assert_eq!(back.string("text"), Some("a\"b\\c\n\u{1}é".to_string()));
    assert_eq!(back.i32("k\"ey\n"), Some(i32::MIN));
    let list = back.array("list").unwrap();
    assert_eq!(list.len(), 4);
    assert_eq!(list.get(0).unwrap().i32(), None);
    assert_eq!(list.get(0).unwrap().to_json(), "-12.5e3");
    assert!(list.get(1).unwrap().is_null());
    assert_eq!(list.get(2).unwrap().bool(), Some(false));
    assert_eq!(list.get(3).unwrap().object().unwrap().array("").unwrap().len(), 0);
    assert_eq!(back.to_json(), out);
}

#[test]
fn nested_values_are_read() {
    let a = array("[[[[[[[[[[{\"a\":[{\"b\":[[]]}]}]]]]]]]]]]").unwrap();
    let mut child = a.get(0).unwrap();
    for _ in 0..8 {
        child = child.array().unwrap().get(0).unwrap();
    }
    let o = child.array().unwrap().get(0).unwrap().object().unwrap();
    assert_eq!(o.array("a").unwrap().len(), 1);
    assert_eq!(a.to_json(), "[[[[[[[[[[{\"a\":[{\"b\":[[]]}]}]]]]]]]]]]");
}
