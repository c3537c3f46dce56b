use sam::survey::{is_schema_file, survey, tally, totals, Dialect, Finding};
use sam::vdf::{parse, KeyValue, Value};

fn node(name: &str, value: Value, children: Vec<KeyValue>) -> KeyValue {
    KeyValue { name: name.into(), value, children }
}

fn group(name: &str, children: Vec<KeyValue>) -> KeyValue {
    node(name, Value::Container, children)
}

fn text(name: &str, value: &str) -> KeyValue {
    node(name, Value::String(value.into()), Vec::new())
}

fn number(name: &str, value: i32) -> KeyValue {
    node(name, Value::Int32(value), Vec::new())
}

fn document(entries: Vec<KeyValue>) -> KeyValue {
    group("", vec![group("620", vec![group("stats", entries)])])
}

fn finding(dialect: Dialect, value: Option<&str>, achievements: usize) -> Finding {
    Finding { dialect, value: value.map(str::to_string), achievements }
}

#[test]
fn each_dialect_is_told_apart() {
    let bits = |n: usize| group("bits", (0..n).map(|i| group(&i.to_string(), Vec::new())).collect());
    let root = document(vec![
        group("1", vec![text("type", "INT")]),
        group("2", vec![number("type_int", 4), bits(2), bits(3)]),
        group("3", vec![number("type", 2)]),
        group("4", Vec::new()),
        group("5", vec![text("type", "x"), number("type_int", 1)]),
        group("6", vec![text("type_int", "many")]),
    ]);
    let found = survey(&root).unwrap();
    assert_eq!(
        found,
        vec![
            finding(Dialect::Name, Some("int"), 0),
            finding(Dialect::TypeInt, Some("int:4"), 5),
            finding(Dialect::Number, Some("num:2"), 0),
            finding(Dialect::Untyped, None, 0),
            finding(Dialect::Name, Some("x"), 0),
            finding(Dialect::TypeInt, Some("int:-1"), 0),
        ]
    );
    assert_eq!(totals(&found), (5, 5));
    assert_eq!(totals(&Vec::new()), (0, 0));
}

#[test]
fn only_the_first_part_is_surveyed() {
    let part = |name: &str| group(name, vec![group("stats", vec![group(name, Vec::new())])]);
    let found = survey(&group("", vec![part("7"), part("8"), part("9")])).unwrap();
    assert_eq!(found.len(), 1);
    assert_eq!(survey(&group("", vec![group("7", Vec::new())])), Some(Vec::new()));
    assert_eq!(survey(&parse(&[8]).unwrap()), None);
}

#[test]
fn labels_are_counted_in_order() {
    let labels: Vec<String> = ["int", "float", "int", "", "INT", "int", "float"]
        .iter()
        .map(|s| s.to_string())
        .collect();
    let counted: Vec<(String, usize)> = [("", 1), ("INT", 1), ("float", 2), ("int", 3)]
        .iter()
        .map(|(s, n)| (s.to_string(), *n))
        .collect();
    assert_eq!(tally(&labels), counted);
    assert!(tally(&Vec::new()).is_empty());
}

#[test]
fn dialects_have_names() {
    assert_eq!(Dialect::Name.label(), "type (string)");
    assert_eq!(Dialect::TypeInt.label(), "type_int");
    assert_eq!(Dialect::Number.label(), "type (numeric)");
    assert_eq!(Dialect::Untyped.label(), "no type node");
}

#[test]
fn schema_files_are_known_by_name() {
    assert!(is_schema_file("UserGameStatsSchema_620.bin"));
    assert!(is_schema_file("UserGameStatsSchema_.bin"));
    assert!(is_schema_file("UserGameStatsSchema_x.bin"));
    assert!(!is_schema_file("UserGameStats_620.bin"));
    assert!(!is_schema_file("UserGameStatsSchema_620.bi"));
    assert!(!is_schema_file(".bin"));
    assert!(!is_schema_file(""));
}
