use orfile::partition::{partition, starts_with_dash};

fn strings(items: &[&str]) -> Vec<String> {
    items.iter().map(|s| s.to_string()).collect()
}

#[test]
fn routes_each_flag_to_its_own_namespace() {
    let tokens = strings(&["--add.left", "1", "--add.right", "2", "--multiply.left", "3"]);
    assert_eq!(partition(&tokens, "add"), strings(&["--left", "1", "--right", "2"]));
    assert_eq!(partition(&tokens, "multiply"), strings(&["--left", "3"]));
}

#[test]
fn leaves_the_input_as_it_was() {
    let tokens = strings(&["--add.left", "1", "--other"]);
    let copy = tokens.clone();
    let _ = partition(&tokens, "add");
    assert_eq!(tokens, copy);
}

#[test]
fn strips_the_short_prefix_to_one_dash() {
    let tokens = strings(&["-add.l", "1", "-add.v"]);
    assert_eq!(partition(&tokens, "add"), strings(&["-l", "1", "-v"]));
}

#[test]
fn does_not_take_a_dashed_token_as_a_value() {
    let tokens = strings(&["--add.verbose", "--add.left", "1"]);
    assert_eq!(partition(&tokens, "add"), strings(&["--verbose", "--left", "1"]));
}

#[test]
fn takes_a_bare_token_after_a_flag_as_its_value() {
    let tokens = strings(&["--add.verbose", "stray", "more"]);
    assert_eq!(partition(&tokens, "add"), strings(&["--verbose", "stray"]));
}

#[test]
fn drops_tokens_of_other_namespaces_without_error() {
    let tokens = strings(&["--left", "1", "positional", "--divide.left", "4", "-x"]);
    assert_eq!(partition(&tokens, "add"), Vec::<String>::new());
}

#[test]
fn a_value_is_not_scanned_as_a_flag_again() {
    let tokens = strings(&["--add.name", "add.x", "--add.left", "1"]);
    assert_eq!(partition(&tokens, "add"), strings(&["--name", "add.x", "--left", "1"]));
}

#[test]
fn a_dashed_token_after_a_flag_is_scanned_on_its_own() {
    let tokens = strings(&["--add.a", "-add.b", "--mul.c"]);
    assert_eq!(partition(&tokens, "add"), strings(&["--a", "-b"]));
}

#[test]
fn takes_off_the_leading_prefix_only() {
    let tokens = strings(&["--add.x--add.y"]);
    assert_eq!(partition(&tokens, "add"), strings(&["--x--add.y"]));
}

#[test]
fn a_flag_must_be_followed_by_its_dot() {
    let tokens = strings(&["--add", "1", "--addx.left", "2", "--add."]);
    assert_eq!(partition(&tokens, "add"), strings(&["--"]));
}

#[test]
fn partitions_nothing_out_of_nothing() {
    assert_eq!(partition(&Vec::new(), "add"), Vec::<String>::new());
}

#[test]
fn stripped_tokens_are_not_selected_again() {
    let tokens = strings(&["--add.left", "1", "--add.right", "2", "--multiply.left", "3"]);
    let once = partition(&tokens, "add");
    assert_eq!(partition(&once, "add"), Vec::<String>::new());
}

#[test]
fn a_nested_namespace_is_selected_again() {
    let tokens = strings(&["--add.add.x"]);
    let once = partition(&tokens, "add");
    assert_eq!(once, strings(&["--add.x"]));
    assert_eq!(partition(&once, "add"), strings(&["--x"]));
}

#[test]
fn handles_tokens_beyond_ascii() {
    let tokens = strings(&["--größe.länge", "zwölf", "--größe.ü"]);
    assert_eq!(partition(&tokens, "größe"), strings(&["--länge", "zwölf", "--ü"]));
}

#[test]
fn an_empty_flag_has_the_prefixes_of_dashes_and_dot() {
    let tokens = strings(&["--.x", "1", "-.y", "--z"]);
    assert_eq!(partition(&tokens, ""), strings(&["--x", "1", "-y"]));
}

#[test]
fn tells_dashed_tokens_from_values() {
    assert!(starts_with_dash("-"));
    assert!(starts_with_dash("--left"));
    assert!(!starts_with_dash(""));
    assert!(!starts_with_dash("1"));
    assert!(!starts_with_dash("a-b"));
}
