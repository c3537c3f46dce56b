use sam::error::Error;
use sam::float::{FloatTexts, FloatValue};
use sam::schema::{
    is_protected, AchievementDefinition, GameSchema, StatBounds, UserStatType,
    PERMISSION_PROTECTED_MASK,
};
use sam::vdf;

/// Serialises a minimal schema document in the binary KeyValues format.
struct Builder(Vec<u8>);

impl Builder {
    fn new() -> Self {
        Self(Vec::new())
    }
    fn open(mut self, name: &str) -> Self {
        self.0.push(0);
        self.0.extend_from_slice(name.as_bytes());
        self.0.push(0);
        self
    }
    fn string(mut self, name: &str, value: &str) -> Self {
        self.0.push(1);
        self.0.extend_from_slice(name.as_bytes());
        self.0.push(0);
        self.0.extend_from_slice(value.as_bytes());
        self.0.push(0);
        self
    }
    fn number(mut self, name: &str, value: i32) -> Self {
        self.0.push(2);
        self.0.extend_from_slice(name.as_bytes());
        self.0.push(0);
        self.0.extend_from_slice(&value.to_le_bytes());
        self
    }
    fn float(mut self, name: &str, value: f32) -> Self {
        self.0.push(3);
        self.0.extend_from_slice(name.as_bytes());
        self.0.push(0);
        self.0.extend_from_slice(&value.to_le_bytes());
        self
    }
    fn close(mut self) -> Self {
        self.0.push(8);
        self
    }
    fn build(self) -> Vec<u8> {
        self.0
    }
}

fn parse(data: &[u8], app_id: u32, language: &str) -> GameSchema {
    let kv = vdf::parse(data).expect("fixture should parse");
    let mut texts = FloatTexts::new();
    for bits in kv.float_bits() {
        texts.insert(bits, f32::from_bits(bits).to_string());
    }
    GameSchema::from_keyvalues(&kv, app_id, language, &texts)
}

#[test]
fn reads_new_style_string_types() {
    let data = Builder::new()
        .open("480")
        .open("stats")
        .open("1")
        .string("type", "int")
        .string("name", "kills")
        .number("permission", 0)
        .open("display")
        .open("name")
        .string("english", "Kills")
        .close()
        .close()
        .close()
        .close()
        .close()
        .close()
        .build();

    let schema = parse(&data, 480, "english");
    assert_eq!(schema.stats.len(), 1);
    assert_eq!(schema.stats[0].id, "kills");
    assert_eq!(schema.stats[0].display_name, "Kills");
    assert!(schema.stats[0].is_integer());
}

#[test]
fn reads_legacy_type_int_dialect() {
    // Older caches carry a numeric type_int instead of a type string.
    let data = Builder::new()
        .open("480")
        .open("stats")
        .open("1")
        .number("type_int", 1)
        .string("name", "legacy_stat")
        .close()
        .close()
        .close()
        .close()
        .build();

    let schema = parse(&data, 480, "english");
    assert_eq!(schema.stats.len(), 1);
    assert!(schema.stats[0].is_integer());
}

#[test]
fn collects_achievements_from_repeated_bits_blocks() {
    let mut b = Builder::new().open("480").open("stats").open("1");
    b = b.string("type", "achievements");
    for i in 0..2 {
        b = b
            .open("bits")
            .open("0")
            .string("name", &format!("ACH_{i}"))
            .open("display")
            .open("name")
            .string("english", &format!("Achievement {i}"))
            .close()
            .string("icon", "on.jpg")
            .string("icon_gray", "off.jpg")
            .close()
            .close()
            .close();
    }
    // Closes, innermost first: "1", "stats", "480", then the root.
    let data = b.close().close().close().close().build();

    let schema = parse(&data, 480, "english");
    assert_eq!(schema.achievements.len(), 2);
    assert_eq!(schema.achievements[0].id, "ACH_0");
    assert_eq!(schema.achievements[1].name, "Achievement 1");
    assert_eq!(schema.achievements[0].icon_for(true), "on.jpg");
    assert_eq!(schema.achievements[0].icon_for(false), "off.jpg");
}

#[test]
fn falls_back_to_english_then_to_id() {
    let data = Builder::new()
        .open("480")
        .open("stats")
        .open("1")
        .string("type", "int")
        .string("name", "only_english")
        .open("display")
        .open("name")
        .string("english", "English Name")
        .close()
        .close()
        .close()
        .open("2")
        .string("type", "int")
        .string("name", "no_display_at_all")
        .close()
        .close()
        .close()
        .close()
        .build();

    // German is absent, so the English string is used.
    let schema = parse(&data, 480, "german");
    assert_eq!(schema.stats[0].display_name, "English Name");
    // With no display block at all, the stat id stands in.
    assert_eq!(schema.stats[1].display_name, "no_display_at_all");
}

#[test]
fn missing_icon_gray_falls_back_to_the_unlocked_icon() {
    let def = AchievementDefinition {
        id: "A".into(),
        name: "A".into(),
        description: String::new(),
        icon_normal: "on.jpg".into(),
        icon_locked: String::new(),
        hidden: false,
        permission: 0,
    };
    assert_eq!(def.icon_for(false), "on.jpg");
}

#[test]
fn permission_bits_mark_protected_entries() {
    assert!(!is_protected(0));
    assert!(is_protected(1));
    assert!(is_protected(2));
    assert!(is_protected(3));
    // Bits outside the mask do not imply protection on their own.
    assert!(!is_protected(4));
}

#[test]
fn only_the_mask_protects() {
    assert_eq!(PERMISSION_PROTECTED_MASK, 3);
    assert!(is_protected(-1));
    assert!(!is_protected(-4));
    assert!(is_protected(5));
}

#[test]
fn stat_types_have_names_and_numbers() {
    assert_eq!(UserStatType::from_name("INT"), Some(UserStatType::Integer));
    assert_eq!(UserStatType::from_name("Integer"), Some(UserStatType::Integer));
    assert_eq!(UserStatType::from_name("float"), Some(UserStatType::Float));
    assert_eq!(UserStatType::from_name("AvgRate"), Some(UserStatType::AverageRate));
    assert_eq!(UserStatType::from_name("averagerate"), Some(UserStatType::AverageRate));
    assert_eq!(UserStatType::from_name("achievements"), Some(UserStatType::Achievements));
    assert_eq!(
        UserStatType::from_name("GroupAchievements"),
        Some(UserStatType::GroupAchievements)
    );
    assert_eq!(UserStatType::from_name("invalid"), Some(UserStatType::Invalid));
    assert_eq!(UserStatType::from_name("text"), None);
    assert_eq!(UserStatType::from_raw(2), UserStatType::Float);
    assert_eq!(UserStatType::from_raw(5), UserStatType::GroupAchievements);
    assert_eq!(UserStatType::from_raw(6), UserStatType::Invalid);
    assert_eq!(UserStatType::from_raw(-1), UserStatType::Invalid);
}

fn one_stat(b: Builder) -> Builder {
    b.close().close().close().close()
}

#[test]
fn integer_bounds_have_their_defaults() {
    let data = one_stat(
        Builder::new()
            .open("7")
            .open("stats")
            .open("1")
            .string("type", "int")
            .string("name", "s")
            .string("max", "100")
            .number("incrementonly", 1)
            .number("permission", 2),
    )
    .build();
    let schema = parse(&data, 7, "english");
    assert_eq!(
        schema.stats[0].bounds,
        StatBounds::Integer {
            min: i32::MIN,
            max: 100,
            max_change: 0,
            default: 0,
        }
    );
    assert!(schema.stats[0].increment_only);
    assert!(schema.stats[0].is_protected());
}

#[test]
fn float_bounds_are_kept_as_patterns_or_text() {
    let data = one_stat(
        Builder::new()
            .open("7")
            .open("stats")
            .open("1")
            .string("type", "avgrate")
            .string("name", "s")
            .float("min", 0.5)
            .string("max", " 9.75 ")
            .number("default", 3),
    )
    .build();
    let schema = parse(&data, 7, "english");
    assert!(!schema.stats[0].is_integer());
    assert_eq!(
        schema.stats[0].bounds,
        StatBounds::Float {
            min: FloatValue::Bits(0.5f32.to_bits()),
            max: FloatValue::Text {
                text: "9.75".to_string(),
                fallback: f32::MAX.to_bits(),
            },
            max_change: FloatValue::Bits(0),
            default: FloatValue::Bits(3.0f32.to_bits()),
        }
    );
}

#[test]
fn a_mismatched_file_is_read_by_its_first_part() {
    let data = one_stat(
        Builder::new()
            .open("999")
            .open("stats")
            .open("1")
            .string("type", "int")
            .string("name", "other"),
    )
    .build();
    let schema = parse(&data, 7, "english");
    assert_eq!(schema.app_id, 7);
    assert_eq!(schema.stats[0].id, "other");
}

/// A document whose parts each hold one statistic, named after the part.
fn in_parts(names: &[&str]) -> Vec<u8> {
    let mut b = Builder::new();
    for (i, name) in names.iter().enumerate() {
        b = b
            .open(name)
            .open("stats")
            .open("1")
            .string("type", "int")
            .string("name", &format!("stat {i}"))
            .close()
            .close()
            .close();
    }
    b.close().build()
}

fn stat_read(names: &[&str], app_id: u32) -> String {
    let schema = parse(&in_parts(names), app_id, "english");
    assert_eq!(schema.app_id, app_id);
    assert_eq!(schema.stats.len(), 1);
    schema.stats[0].id.clone()
}

#[test]
fn the_part_named_after_the_app_is_read_wherever_it_stands() {
    assert_eq!(stat_read(&["7", "999", "8"], 7), "stat 0");
    assert_eq!(stat_read(&["999", "7", "8"], 7), "stat 1");
    assert_eq!(stat_read(&["999", "8", "7"], 7), "stat 2");
    assert_eq!(stat_read(&["999", "7", "7"], 7), "stat 1");
    assert_eq!(stat_read(&["07", "77", "\u{ff17}", "\u{130}", "7"], 7), "stat 4");
    assert_eq!(stat_read(&["x", "4294967295"], u32::MAX), "stat 1");
}

#[test]
fn without_such_a_part_the_first_is_read() {
    assert_eq!(stat_read(&["999", "8"], 7), "stat 0");
    assert_eq!(stat_read(&["\u{ff17}", "07"], 7), "stat 0");
}

#[test]
fn a_lone_part_may_have_any_name() {
    for name in ["7", "999", "stats", "\u{c9}", "\u{ff17}", ""] {
        assert_eq!(stat_read(&[name], 7), "stat 0");
    }
}

#[test]
fn an_empty_document_gives_an_empty_schema() {
    let schema = parse(&[8], 7, "english");
    assert_eq!(schema.app_id, 7);
    assert!(schema.stats.is_empty());
    assert!(schema.achievements.is_empty());
    assert_eq!(GameSchema::default().app_id, 0);
}

#[test]
fn entries_without_an_id_are_passed_over() {
    let data = Builder::new()
        .open("7")
        .open("stats")
        .open("1")
        .string("type", "int")
        .close()
        .open("2")
        .string("type", "achievements")
        .open("bits")
        .open("0")
        .string("name", "")
        .close()
        .open("1")
        .string("name", "A")
        .close()
        .close()
        .close()
        .close()
        .close()
        .close()
        .build();
    let schema = parse(&data, 7, "english");
    assert!(schema.stats.is_empty());
    assert_eq!(schema.achievements.len(), 1);
    assert_eq!(schema.achievements[0].name, "A");
}

#[test]
fn stat_names_are_told_apart_by_type() {
    let data = Builder::new()
        .open("7")
        .open("stats")
        .open("1")
        .string("type", "int")
        .string("name", "a")
        .close()
        .open("2")
        .string("type", "float")
        .string("name", "b")
        .close()
        .open("3")
        .string("type", "integer")
        .string("name", "c")
        .close()
        .close()
        .close()
        .close()
        .build();
    let schema = parse(&data, 7, "english");
    assert_eq!(schema.integer_stat_names(), vec!["a", "c"]);
    assert_eq!(schema.float_stat_names(), vec!["b"]);
}

#[test]
fn achievements_are_found_by_id() {
    let data = Builder::new()
        .open("7")
        .open("stats")
        .open("1")
        .string("type", "achievements")
        .open("bits")
        .open("0")
        .string("name", "A")
        .open("display")
        .string("hidden", "1")
        .string("desc", "Bare text")
        .close()
        .close()
        .open("1")
        .string("name", "B")
        .number("permission", 1)
        .close()
        .close()
        .close()
        .close()
        .close()
        .close()
        .build();
    let schema = parse(&data, 7, "english");
    assert!(schema.achievement("A").unwrap().hidden);
    assert_eq!(schema.achievement("A").unwrap().description, "Bare text");
    assert!(schema.achievement("B").unwrap().is_protected());
    assert!(schema.achievement("C").is_none());
}

#[test]
fn a_schema_is_loaded_or_the_reason_is_given() {
    let data = Builder::new()
        .open("7")
        .open("stats")
        .open("1")
        .string("type", "int")
        .string("name", "A")
        .close()
        .close()
        .close()
        .close()
        .build();
    let texts = FloatTexts::new();
    let schema = GameSchema::load(Ok(data.clone()), 7, "english", &texts).unwrap();
    assert_eq!(schema.app_id, 7);
    assert_eq!(schema.integer_stat_names(), vec!["A"]);
    assert_eq!(
        GameSchema::load(Ok(data[..5].to_vec()), 7, "english", &texts),
        Err(Error::Vdf(vdf::Error::UnterminatedString))
    );
    assert_eq!(
        GameSchema::load(Ok(data[..3].to_vec()), 7, "english", &texts),
        Err(Error::Vdf(vdf::Error::UnexpectedEof))
    );
    let words = "No such file".to_string();
    assert_eq!(
        GameSchema::load(Err(words.clone()), 7, "english", &texts),
        Err(Error::Io(words))
    );
}

#[test]
fn no_bits_container_is_dropped() {
    let mut builder = Builder::new()
        .open("7")
        .open("stats")
        .open("1")
        .string("type", "groupachievements");
    for name in ["A", "B", "C"] {
        builder = builder.open("bits").open("0").string("name", name).close().close();
    }
    let schema = parse(&builder.close().close().close().close().build(), 7, "english");
    let ids: Vec<&str> = schema.achievements.iter().map(|a| a.id.as_str()).collect();
    assert_eq!(ids, vec!["A", "B", "C"]);
}
