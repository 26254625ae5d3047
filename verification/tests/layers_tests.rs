use orfile::config::ConfigMap;
use orfile::layers::{apply_env, apply_members, apply_trailing, env_field_name, trailing_field_name};
use orfile::resolve::{merge_layers, ConfigError, ConfigFile};
use orfile::value::ConfigValue;

fn strings(items: &[&str]) -> Vec<String> {
    items.iter().map(|s| s.to_string()).collect()
}

fn pairs(items: &[(&str, &str)]) -> Vec<(String, String)> {
    items.iter().map(|p| (p.0.to_string(), p.1.to_string())).collect()
}

fn number(text: &str) -> ConfigValue {
    ConfigValue::Number(text.to_string())
}

fn text(s: &str) -> ConfigValue {
    ConfigValue::Text(s.to_string())
}

#[test]
fn a_variable_with_the_prefix_names_a_field() {
    assert_eq!(env_field_name("ADD_LEFT", "ADD"), Some("left".to_string()));
    assert_eq!(env_field_name("ADD_MAX_SIZE", "ADD"), Some("max_size".to_string()));
    assert_eq!(env_field_name("ADD_", "ADD"), Some("".to_string()));
}

#[test]
fn doubled_underscores_collapse_from_the_left() {
    assert_eq!(env_field_name("ADD_MAX__SIZE", "ADD"), Some("max_size".to_string()));
    assert_eq!(env_field_name("ADD_A___B", "ADD"), Some("a__b".to_string()));
    assert_eq!(env_field_name("ADD_A____B", "ADD"), Some("a__b".to_string()));
    assert_eq!(env_field_name("ADD__LEFT", "ADD"), Some("_left".to_string()));
}

#[test]
fn a_variable_without_the_prefix_names_none() {
    assert_eq!(env_field_name("OTHER_LEFT", "ADD"), None);
    assert_eq!(env_field_name("ADD", "ADD"), None);
    assert_eq!(env_field_name("ADDLEFT", "ADD"), None);
    assert_eq!(env_field_name("add_left", "ADD"), None);
    assert_eq!(env_field_name("", "ADD"), None);
}

#[test]
fn only_ascii_capitals_are_lowered() {
    assert_eq!(env_field_name("ADD_ÄB", "ADD"), Some("Äb".to_string()));
}

#[test]
fn a_trailing_flag_names_a_field() {
    assert_eq!(trailing_field_name("--left"), "left");
    assert_eq!(trailing_field_name("--max-size"), "max_size");
    assert_eq!(trailing_field_name("--Max-Size"), "max_size");
    assert_eq!(trailing_field_name("-l"), "l");
    assert_eq!(trailing_field_name("---x"), "x");
    assert_eq!(trailing_field_name("left"), "left");
    assert_eq!(trailing_field_name("--"), "");
    assert_eq!(trailing_field_name("--a--b"), "a__b");
}

#[test]
fn the_environment_sets_strings() {
    let mut map = ConfigMap::new();
    apply_env(&mut map, "ADD", &pairs(&[("ADD_LEFT", "5"), ("HOME", "/root"), ("ADD_ON", "true")]));
    assert_eq!(map.get("left"), Some(&text("5")));
    assert_eq!(map.get("on"), Some(&text("true")));
    assert_eq!(map.entries().len(), 2);
}

#[test]
fn among_variables_of_one_field_the_last_wins() {
    let mut map = ConfigMap::new();
    apply_env(&mut map, "ADD", &pairs(&[("ADD_LEFT", "5"), ("ADD_left", "6")]));
    assert_eq!(map.get("left"), Some(&text("6")));
}

#[test]
fn members_are_merged_as_they_are() {
    let mut map = ConfigMap::new();
    let members = vec![
        ("right".to_string(), number("7")),
        ("name".to_string(), text("7")),
        ("on".to_string(), ConfigValue::Bool(true)),
        ("right".to_string(), number("8")),
    ];
    apply_members(&mut map, &members);
    assert_eq!(map.get("right"), Some(&number("8")));
    assert_eq!(map.get("name"), Some(&text("7")));
    assert_eq!(map.get("on"), Some(&ConfigValue::Bool(true)));
    assert_eq!(map.entries().len(), 3);
}

#[test]
fn a_string_in_the_file_stays_a_string() {
    let file = ConfigFile::Contents("{\"left\": \"42\", \"on\": \"true\"}".to_string());
    let map = merge_layers("ADD", &Vec::new(), &file, &Vec::new()).unwrap();
    assert_eq!(map.get("left"), Some(&text("42")));
    assert_eq!(map.get("on"), Some(&text("true")));
}

#[test]
fn trailing_tokens_are_taken_two_by_two() {
    let mut map = ConfigMap::new();
    apply_trailing(&mut map, &strings(&["--left", "10", "--name", "hello", "--on", "true"]));
    assert_eq!(map.get("left"), Some(&number("10")));
    assert_eq!(map.get("name"), Some(&text("hello")));
    assert_eq!(map.get("on"), Some(&ConfigValue::Bool(true)));
    assert_eq!(map.entries().len(), 3);
}

#[test]
fn a_last_token_without_a_partner_is_dropped() {
    let mut map = ConfigMap::new();
    apply_trailing(&mut map, &strings(&["--left", "10", "--right"]));
    assert_eq!(map.get("left"), Some(&number("10")));
    assert_eq!(map.get("right"), None);
    let mut single = ConfigMap::new();
    apply_trailing(&mut single, &strings(&["--left"]));
    assert!(single.entries().is_empty());
}

#[test]
fn among_pairs_of_one_field_the_last_wins() {
    let mut map = ConfigMap::new();
    apply_trailing(&mut map, &strings(&["--left", "1", "--LEFT", "2"]));
    assert_eq!(map.get("left"), Some(&number("2")));
}

#[test]
fn the_command_line_wins_over_file_and_environment() {
    let vars = pairs(&[("ADD_LEFT", "5"), ("ADD_RIGHT", "6"), ("ADD_ONLY_ENV", "e")]);
    let file = ConfigFile::Contents("{\"left\": 8, \"right\": 7}".to_string());
    let map = merge_layers("ADD", &vars, &file, &strings(&["--left", "10"])).unwrap();
    assert_eq!(map.get("left"), Some(&number("10")));
    assert_eq!(map.get("right"), Some(&number("7")));
    assert_eq!(map.get("only_env"), Some(&text("e")));
    assert_eq!(map.get("unset"), None);
    assert_eq!(map.entries().len(), 3);
}

#[test]
fn without_a_file_the_other_layers_are_merged() {
    let vars = pairs(&[("ADD_LEFT", "5"), ("ADD_RIGHT", "6")]);
    let map = merge_layers("ADD", &vars, &ConfigFile::Absent, &strings(&["--left", "10"])).unwrap();
    assert_eq!(map.get("left"), Some(&number("10")));
    assert_eq!(map.get("right"), Some(&text("6")));
}

#[test]
fn a_file_that_holds_no_object_sets_nothing() {
    let vars = pairs(&[("ADD_LEFT", "5")]);
    let file = ConfigFile::Contents("[1, 2, 3]".to_string());
    let map = merge_layers("ADD", &vars, &file, &Vec::new()).unwrap();
    assert_eq!(map.get("left"), Some(&text("5")));
    assert_eq!(map.entries().len(), 1);
}

#[test]
fn a_file_that_cannot_be_read_is_an_io_error() {
    let file = ConfigFile::Unreadable {
        path: "/no/such/file".to_string(),
        cause: "No such file or directory".to_string(),
    };
    assert_eq!(
        merge_layers("ADD", &Vec::new(), &file, &strings(&["--left", "1"])).unwrap_err(),
        ConfigError::Io {
            path: "/no/such/file".to_string(),
            cause: "No such file or directory".to_string(),
        }
    );
}

#[test]
fn a_malformed_file_is_a_parse_error() {
    let file = ConfigFile::Contents("{\"left\": ".to_string());
    let refused = merge_layers("ADD", &Vec::new(), &file, &strings(&["--left", "1"])).unwrap_err();
    assert!(matches!(refused, ConfigError::Parse { .. }));
}

#[test]
fn the_prefix_of_a_record_is_its_name_in_upper_snake_case() {
    assert_eq!(orfile::layers::struct_prefix("Add"), "ADD");
    assert_eq!(orfile::layers::struct_prefix("KebabDivide"), "KEBAB_DIVIDE");
    assert_eq!(orfile::layers::struct_prefix("kebab_divide"), "KEBAB_DIVIDE");
    assert_eq!(orfile::layers::struct_prefix("XMLHttpRequest"), "XML_HTTP_REQUEST");
}

#[test]
fn a_record_reads_the_variables_under_its_upper_snake_prefix() {
    let prefix = orfile::layers::struct_prefix("KebabDivide");
    assert_eq!(env_field_name("KEBAB_DIVIDE_LEFT", &prefix), Some("left".to_string()));
    assert_eq!(env_field_name("KEBABDIVIDE_LEFT", &prefix), None);
    let vars = pairs(&[("KEBAB_DIVIDE_LEFT", "5"), ("KEBABDIVIDE_RIGHT", "6")]);
    let map = merge_layers(&prefix, &vars, &ConfigFile::Absent, &Vec::new()).unwrap();
    assert_eq!(map.get("left"), Some(&text("5")));
    assert_eq!(map.get("right"), None);
}

#[test]
fn the_order_of_the_environment_does_not_matter() {
    let one = pairs(&[("ADD_LEFT", "5"), ("PATH", "/bin"), ("ADD_RIGHT", "6")]);
    let other = pairs(&[("ADD_RIGHT", "6"), ("ADD_LEFT", "5"), ("PATH", "/bin")]);
    let a = merge_layers("ADD", &one, &ConfigFile::Absent, &Vec::new()).unwrap();
    let b = merge_layers("ADD", &other, &ConfigFile::Absent, &Vec::new()).unwrap();
    assert_eq!(a.get("left"), b.get("left"));
    assert_eq!(a.get("right"), b.get("right"));
    assert_eq!(a.entries().len(), b.entries().len());
}
