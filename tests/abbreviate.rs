use acronym::abbreviate;

#[test]
fn basic() {
    assert_eq!(abbreviate("Portable Network Graphics"), "PNG");
}

#[test]
fn lowercase_words() {
    assert_eq!(abbreviate("Ruby on Rails"), "ROR");
}

#[test]
fn hyphenated_words() {
    assert_eq!(abbreviate("Complementary metal-oxide semiconductor"), "CMOS");
}

#[test]
fn long_phrase() {
    assert_eq!(abbreviate("Rolling On The Floor Laughing Out Loud"), "ROTFLOL");
}

#[test]
fn lone_hyphen() {
    assert_eq!(abbreviate("Something - I made up from thin air"), "SIMUFTA");
}

#[test]
fn empty_phrase() {
    assert_eq!(abbreviate(""), "");
}

#[test]
fn all_caps_word_is_not_split() {
    assert_eq!(abbreviate("GNU Image Manipulation Program"), "GIMP");
}

#[test]
fn camel_case_word_is_split() {
    assert_eq!(abbreviate("HyperText Markup Language"), "HTML");
}

#[test]
fn punctuation_is_dropped() {
    assert_eq!(abbreviate("The Road _Not_ Taken"), "TRNT");
    assert_eq!(abbreviate("Halley's Comet"), "HC");
    assert_eq!(abbreviate("Mr. Smith"), "MS");
}

#[test]
fn punctuation_joins_what_it_separated() {
    assert_eq!(abbreviate("rock&roll"), "R");
}

#[test]
fn whitespace_only_phrase() {
    assert_eq!(abbreviate(" \t\n  "), "");
}

#[test]
fn punctuation_only_phrase() {
    assert_eq!(abbreviate("!?.,;'"), "");
}

#[test]
fn consecutive_delimiters() {
    assert_eq!(abbreviate("Something -- I  made up"), "SIMU");
}

#[test]
fn digits_stay_with_the_word_before() {
    assert_eq!(abbreviate("Save9Now"), "SN");
}

#[test]
fn initial_digit_is_kept() {
    assert_eq!(abbreviate("1st place"), "1P");
}

#[test]
fn non_ascii_lowercase_initial_is_kept() {
    assert_eq!(abbreviate("élan vital"), "éV");
}

#[test]
fn one_letter_per_word_of_expansion() {
    let phrase = "PortableNetworkGraphics and GNU";
    assert_eq!(abbreviate(phrase).chars().count(), 5);
    assert_eq!(abbreviate(phrase), "PNGAG");
}

#[test]
fn reordering_words_reorders_letters() {
    assert_eq!(abbreviate("Portable Network Graphics"), "PNG");
    assert_eq!(abbreviate("Graphics Portable Network"), "GPN");
    assert_eq!(abbreviate("metal-oxide Complementary"), "MOC");
}

#[test]
fn letters_are_uppercase_ascii() {
    let out = abbreviate("the quick brown-fox jumpsOver, the lazy dog!");
    assert_eq!(out, "TQBFJOTLD");
    assert!(out.chars().all(|c| c.is_ascii_uppercase()));
}
