use acronym::stages::{
    collect_acronym_letters, expand_camel_case_list, is_all_uppercase_or_nonalpha,
    remove_punctuation_except_hyphen, replace_hyphen_with_space, split_at_uppercase,
    split_camel_case, split_on_whitespace,
};

fn strings(ws: &[&str]) -> Vec<String> {
    ws.iter().map(|w| w.to_string()).collect()
}

#[test]
fn sanitizer_removes_punctuation() {
    assert_eq!(remove_punctuation_except_hyphen("Mr. Smith's high-quality, A&B"), "Mr Smiths high-quality AB");
    assert_eq!(remove_punctuation_except_hyphen(""), "");
    assert_eq!(remove_punctuation_except_hyphen("über 42\tx"), "über 42\tx");
}

#[test]
fn sanitizer_is_idempotent() {
    let once = remove_punctuation_except_hyphen("It's a (well-known) fact: 3.14!");
    assert_eq!(once, "Its a well-known fact 314");
    assert_eq!(remove_punctuation_except_hyphen(&once), once);
}

#[test]
fn hyphens_become_spaces() {
    assert_eq!(replace_hyphen_with_space("metal-oxide--x"), "metal oxide  x");
    assert_eq!(replace_hyphen_with_space(""), "");
}

#[test]
fn tokens_are_maximal_non_whitespace_runs() {
    assert_eq!(split_on_whitespace("  Ruby \t on\nRails  "), strings(&["Ruby", "on", "Rails"]));
    assert_eq!(split_on_whitespace(""), strings(&[]));
    assert_eq!(split_on_whitespace("   "), strings(&[]));
    assert_eq!(split_on_whitespace("one"), strings(&["one"]));
}

#[test]
fn all_uppercase_or_nonalpha() {
    assert!(is_all_uppercase_or_nonalpha("GNU"));
    assert!(is_all_uppercase_or_nonalpha("42"));
    assert!(is_all_uppercase_or_nonalpha("A"));
    assert!(is_all_uppercase_or_nonalpha(""));
    assert!(!is_all_uppercase_or_nonalpha("GNu"));
    assert!(!is_all_uppercase_or_nonalpha("ä"));
}

#[test]
fn split_at_uppercase_cuts_before_capitals() {
    assert_eq!(split_at_uppercase("PortableNetworkGraphics"), strings(&["Portable", "Network", "Graphics"]));
    assert_eq!(split_at_uppercase("Save9Now"), strings(&["Save9", "Now"]));
    assert_eq!(split_at_uppercase("iPhone"), strings(&["i", "Phone"]));
    assert_eq!(split_at_uppercase(""), strings(&[]));
}

#[test]
fn camel_case_split_rules() {
    assert_eq!(split_camel_case("HyperText"), strings(&["Hyper", "Text"]));
    assert_eq!(split_camel_case("GNU"), strings(&["GNU"]));
    assert_eq!(split_camel_case("123"), strings(&["123"]));
    assert_eq!(split_camel_case("ÉcoleNormale"), strings(&["École", "Normale"]));
    assert_eq!(split_camel_case(""), strings(&[]));
}

#[test]
fn expansion_keeps_token_order() {
    let tokens = strings(&["HyperText", "GNU", "on"]);
    assert_eq!(expand_camel_case_list(&tokens), strings(&["Hyper", "Text", "GNU", "on"]));
    assert_eq!(expand_camel_case_list(&[]), strings(&[]));
}

#[test]
fn collector_uppercases_initials() {
    assert_eq!(collect_acronym_letters(&strings(&["hyper", "Text", "9lives", "élan"])), "HT9é");
    assert_eq!(collect_acronym_letters(&[]), "");
}

#[test]
fn collector_marks_empty_word() {
    assert_eq!(collect_acronym_letters(&strings(&["a", "", "b"])), "A\0B");
}
