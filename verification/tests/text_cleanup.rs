use card_reader::text::{clean_description, clean_name};

#[test]
fn name_keeps_only_first_line() {
    assert_eq!(clean_name("Goblin\nSome garbage\n"), "Goblin");
}

#[test]
fn name_without_newline_is_kept_whole() {
    assert_eq!(clean_name("Goblin"), "Goblin");
}

#[test]
fn name_of_empty_text_is_empty() {
    assert_eq!(clean_name(""), "");
    assert_eq!(clean_name("\nGoblin"), "");
}

#[test]
fn description_joins_lines_and_trims() {
    assert_eq!(clean_description("A long\ndescription here.\n"), "A long description here.");
}

#[test]
fn description_trims_surrounding_whitespace() {
    assert_eq!(clean_description("  \t hi\nthere \r\n"), "hi there");
}

#[test]
fn description_of_whitespace_is_empty() {
    assert_eq!(clean_description(""), "");
    assert_eq!(clean_description("\n \n\t"), "");
}

#[test]
fn description_trims_unicode_whitespace() {
    assert_eq!(clean_description("\u{a0}A\nB \u{a0}"), "A B");
    assert_eq!(clean_description("X\n\u{a0}"), "X");
    assert_eq!(clean_description("\u{2003}\u{2028}"), "");
}

#[test]
fn description_keeps_inner_spacing() {
    assert_eq!(clean_description("a  b\n\nc"), "a  b  c");
}
