use orfile::config::ConfigMap;
use orfile::resolve::{
    decode, decode_field, names_field, resolve, ConfigError, ConfigFile, DecodeError, Field, Record,
};
use orfile::schema::{decode_value, parse_signed, parse_unsigned, FieldKind, FieldSpec, TypedValue};
use orfile::value::ConfigValue;

fn strings(items: &[&str]) -> Vec<String> {
    items.iter().map(|s| s.to_string()).collect()
}

fn pairs(items: &[(&str, &str)]) -> Vec<(String, String)> {
    items.iter().map(|p| (p.0.to_string(), p.1.to_string())).collect()
}

fn field(name: &str, kind: FieldKind, required: bool) -> FieldSpec {
    FieldSpec { name: name.to_string(), kind, required }
}

fn set(name: &str, value: TypedValue) -> Field {
    Field { name: name.to_string(), value: Some(value) }
}

fn add_shape() -> Vec<FieldSpec> {
    vec![field("left", FieldKind::Unsigned, true), field("right", FieldKind::Unsigned, true)]
}

fn number(text: &str) -> ConfigValue {
    ConfigValue::Number(text.to_string())
}

#[test]
fn resolves_the_three_layers_into_a_record() {
    let vars = pairs(&[("ADD_LEFT", "5")]);
    let file = ConfigFile::Contents("{\"right\": 7}".to_string());
    let record = resolve("ADD", &vars, &file, &strings(&["--left", "10"]), &add_shape());
    assert_eq!(
        record,
        Ok(Record {
            fields: vec![set("left", TypedValue::Unsigned(10)), set("right", TypedValue::Unsigned(7))]
        })
    );
}

#[test]
fn a_string_from_the_environment_is_no_number() {
    let vars = pairs(&[("ADD_LEFT", "5"), ("ADD_RIGHT", "7")]);
    let refused = resolve("ADD", &vars, &ConfigFile::Absent, &Vec::new(), &add_shape());
    assert_eq!(
        refused,
        Err(ConfigError::Deserialization(DecodeError::Mismatch {
            field: "left".to_string(),
            expected: FieldKind::Unsigned,
        }))
    );
}

#[test]
fn a_missing_required_field_is_a_deserialization_error() {
    let refused =
        resolve("ADD", &Vec::new(), &ConfigFile::Absent, &strings(&["--left", "10"]), &add_shape());
    assert_eq!(
        refused,
        Err(ConfigError::Deserialization(DecodeError::MissingField { field: "right".to_string() }))
    );
}

#[test]
fn an_unknown_key_is_a_deserialization_error() {
    let pairs = strings(&["--left", "1", "--right", "2", "--middle", "3"]);
    let refused = resolve("ADD", &Vec::new(), &ConfigFile::Absent, &pairs, &add_shape());
    assert_eq!(
        refused,
        Err(ConfigError::Deserialization(DecodeError::UnknownField { field: "middle".to_string() }))
    );
}

#[test]
fn the_first_field_that_fails_is_reported() {
    let pairs = strings(&["--right", "x", "--middle", "3"]);
    let refused = resolve("ADD", &Vec::new(), &ConfigFile::Absent, &pairs, &add_shape());
    assert_eq!(
        refused,
        Err(ConfigError::Deserialization(DecodeError::MissingField { field: "left".to_string() }))
    );
}

#[test]
fn a_file_error_comes_before_any_decoding() {
    let file = ConfigFile::Unreadable { path: "p".to_string(), cause: "c".to_string() };
    assert_eq!(
        resolve("ADD", &Vec::new(), &file, &Vec::new(), &add_shape()),
        Err(ConfigError::Io { path: "p".to_string(), cause: "c".to_string() })
    );
    let broken = ConfigFile::Contents("not json".to_string());
    assert!(matches!(
        resolve("ADD", &Vec::new(), &broken, &Vec::new(), &add_shape()),
        Err(ConfigError::Parse { .. })
    ));
}

#[test]
fn decodes_every_kind_of_field() {
    let shape = vec![
        field("name", FieldKind::Text, true),
        field("on", FieldKind::Bool, true),
        field("count", FieldKind::Unsigned, true),
        field("offset", FieldKind::Signed, true),
        field("ratio", FieldKind::Number, true),
        field("inner", FieldKind::Structured, true),
        field("note", FieldKind::Text, false),
        field("gone", FieldKind::Text, false),
    ];
    let file = ConfigFile::Contents(
        "{\"name\": \"n\", \"on\": true, \"count\": 3, \"offset\": -4, \"ratio\": 1.5, \
         \"inner\": {\"a\": 1}, \"note\": null}"
            .to_string(),
    );
    let record = resolve("X", &Vec::new(), &file, &Vec::new(), &shape).unwrap();
    assert_eq!(
        record.fields,
        vec![
            set("name", TypedValue::Text("n".to_string())),
            set("on", TypedValue::Bool(true)),
            set("count", TypedValue::Unsigned(3)),
            set("offset", TypedValue::Signed(-4)),
            set("ratio", TypedValue::Number("1.5".to_string())),
            set("inner", TypedValue::Structured("{\"a\":1}".to_string())),
            Field { name: "note".to_string(), value: None },
            Field { name: "gone".to_string(), value: None },
        ]
    );
}

#[test]
fn null_does_not_fit_a_required_field() {
    let mut map = ConfigMap::new();
    map.insert("left".to_string(), ConfigValue::Null);
    assert_eq!(
        decode_field(&map, &field("left", FieldKind::Unsigned, true)),
        Err(DecodeError::Mismatch { field: "left".to_string(), expected: FieldKind::Unsigned })
    );
    assert_eq!(decode_field(&map, &field("left", FieldKind::Unsigned, false)), Ok(None));
}

#[test]
fn an_empty_mapping_fits_an_empty_shape() {
    assert_eq!(decode(&ConfigMap::new(), &Vec::new()), Ok(Record { fields: vec![] }));
}

#[test]
fn knows_the_names_of_a_shape() {
    assert!(names_field(&add_shape(), &"left".to_string()));
    assert!(!names_field(&add_shape(), &"middle".to_string()));
    assert!(!names_field(&Vec::new(), &"left".to_string()));
}

#[test]
fn reads_unsigned_integers_to_the_last_one() {
    assert_eq!(parse_unsigned("0"), Some(0));
    assert_eq!(parse_unsigned("10"), Some(10));
    assert_eq!(parse_unsigned("18446744073709551615"), Some(u64::MAX));
    assert_eq!(parse_unsigned("18446744073709551616"), None);
    assert_eq!(parse_unsigned("99999999999999999999999"), None);
    assert_eq!(parse_unsigned(""), None);
    assert_eq!(parse_unsigned("007"), None);
    assert_eq!(parse_unsigned("00"), None);
    assert_eq!(parse_unsigned("+5"), None);
    assert_eq!(parse_unsigned("-5"), None);
    assert_eq!(parse_unsigned("-0"), None);
    assert_eq!(parse_unsigned("5.0"), None);
    assert_eq!(parse_unsigned("1e3"), None);
}

#[test]
fn reads_signed_integers_to_both_ends() {
    assert_eq!(parse_signed("0"), Some(0));
    assert_eq!(parse_signed("-0"), Some(0));
    assert_eq!(parse_signed("-4"), Some(-4));
    assert_eq!(parse_signed("9223372036854775807"), Some(i64::MAX));
    assert_eq!(parse_signed("9223372036854775808"), None);
    assert_eq!(parse_signed("-9223372036854775808"), Some(i64::MIN));
    assert_eq!(parse_signed("-9223372036854775809"), None);
    assert_eq!(parse_signed("-"), None);
    assert_eq!(parse_signed("--1"), None);
    assert_eq!(parse_signed("-01"), None);
    assert_eq!(parse_signed("+1"), None);
    assert_eq!(parse_signed("1.0"), None);
}

#[test]
fn a_value_fits_its_own_kind_only() {
    assert_eq!(decode_value(FieldKind::Unsigned, &number("10")), Some(TypedValue::Unsigned(10)));
    assert_eq!(decode_value(FieldKind::Signed, &number("10")), Some(TypedValue::Signed(10)));
    assert_eq!(
        decode_value(FieldKind::Number, &number("+5")),
        Some(TypedValue::Number("+5".to_string()))
    );
    assert_eq!(decode_value(FieldKind::Unsigned, &number("+5")), None);
    assert_eq!(decode_value(FieldKind::Unsigned, &number("5.0")), None);
    assert_eq!(decode_value(FieldKind::Unsigned, &number("-1")), None);
    assert_eq!(decode_value(FieldKind::Text, &number("10")), None);
    assert_eq!(decode_value(FieldKind::Unsigned, &ConfigValue::Text("10".to_string())), None);
    assert_eq!(decode_value(FieldKind::Bool, &ConfigValue::Bool(false)), Some(TypedValue::Bool(false)));
    assert_eq!(decode_value(FieldKind::Bool, &ConfigValue::Null), None);
    assert_eq!(decode_value(FieldKind::Text, &ConfigValue::Structured("[]".to_string())), None);
}

#[test]
fn a_record_gives_the_value_of_a_field_by_name() {
    let record = Record {
        fields: vec![
            set("left", TypedValue::Unsigned(10)),
            Field { name: "note".to_string(), value: None },
            set("left", TypedValue::Unsigned(11)),
        ],
    };
    assert_eq!(record.get("left"), Some(&TypedValue::Unsigned(10)));
    assert_eq!(record.get("note"), None);
    assert_eq!(record.get("right"), None);
}

#[test]
fn a_decode_error_names_its_field_in_words() {
    let missing = DecodeError::MissingField { field: "right".to_string() };
    let unknown = DecodeError::UnknownField { field: "middle".to_string() };
    let mismatch = DecodeError::Mismatch { field: "left".to_string(), expected: FieldKind::Unsigned };
    assert_eq!(missing.message(), "missing field `right`");
    assert_eq!(unknown.message(), "unknown field `middle`");
    assert_eq!(mismatch.message(), "invalid type for field `left`, expected an unsigned integer");
    assert_eq!(missing.field(), "right");
    assert_eq!(unknown.field(), "middle");
    assert_eq!(mismatch.field(), "left");
}

#[test]
fn every_kind_has_a_name() {
    assert_eq!(orfile::resolve::kind_text(FieldKind::Text), "a string");
    assert_eq!(orfile::resolve::kind_text(FieldKind::Bool), "a boolean");
    assert_eq!(orfile::resolve::kind_text(FieldKind::Unsigned), "an unsigned integer");
    assert_eq!(orfile::resolve::kind_text(FieldKind::Signed), "a signed integer");
    assert_eq!(orfile::resolve::kind_text(FieldKind::Number), "a number");
    assert_eq!(orfile::resolve::kind_text(FieldKind::Structured), "an array or object");
}

#[test]
fn a_config_error_says_what_was_being_done() {
    let io = ConfigError::Io { path: "/etc/add.json".to_string(), cause: "denied".to_string() };
    let parse = ConfigError::Parse { message: "EOF while parsing".to_string() };
    let decode =
        ConfigError::Deserialization(DecodeError::MissingField { field: "right".to_string() });
    assert_eq!(io.message(), "Failed to read file at /etc/add.json: denied");
    assert_eq!(parse.message(), "Failed to parse config file: EOF while parsing");
    assert_eq!(decode.message(), "Failed to deserialize merged config: missing field `right`");
}
