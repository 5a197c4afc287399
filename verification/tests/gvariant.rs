use ratclick::shortcut::gvariant::{format_string, format_string_list, parse_string_list};

#[test]
fn parses_arrays() {
    assert_eq!(
        parse_string_list("['<Alt>F7', '<Super>x']"),
        vec!["<Alt>F7", "<Super>x"]
    );
}

#[test]
fn parses_empty_arrays_in_both_spellings() {
    assert!(parse_string_list("[]").is_empty());
    assert!(parse_string_list("@as []").is_empty());
    assert!(parse_string_list("  @as []  ").is_empty());
}

#[test]
fn parses_bare_strings() {
    assert_eq!(parse_string_list("'<Primary>q'"), vec!["<Primary>q"]);
}

#[test]
fn parses_nothing() {
    assert!(parse_string_list("nothing").is_empty());
    assert!(parse_string_list("@ms nothing").is_empty());
}

#[test]
fn does_not_split_on_a_comma_inside_an_accelerator() {
    assert_eq!(parse_string_list("['<Super>comma']"), vec!["<Super>comma"]);
    assert_eq!(parse_string_list("['a,b', 'c']"), vec!["a,b", "c"]);
}

#[test]
fn handles_escaped_quotes() {
    assert_eq!(parse_string_list(r"['it\'s']"), vec!["it's"]);
}

#[test]
fn formatting_roundtrips() {
    let items = vec!["<Super>c".to_string(), "it's".to_string()];
    assert_eq!(parse_string_list(&format_string_list(&items)), items);
}

#[test]
fn empty_list_formats_with_a_type_annotation() {
    assert_eq!(format_string_list(&[]), "@as []");
}

#[test]
fn single_strings_are_quoted_and_escaped() {
    assert_eq!(format_string("it's a \\ test"), r"'it\'s a \\ test'");
    let back = parse_string_list(&format_string("a,b"));
    assert_eq!(back, vec!["a,b"]);
}

#[test]
fn values_that_are_not_strings_or_arrays_hold_nothing() {
    assert!(parse_string_list("('a', 'b')").is_empty());
    assert!(parse_string_list("'a' 'b'").is_empty());
    assert!(parse_string_list("'a', 'b'").is_empty());
    assert!(parse_string_list("uint32 5").is_empty());
    assert!(parse_string_list("'unterminated").is_empty());
    assert_eq!(parse_string_list("\"<Super>q\""), vec!["<Super>q"]);
    assert_eq!(parse_string_list(r"'it\'s'"), vec!["it's"]);
}
