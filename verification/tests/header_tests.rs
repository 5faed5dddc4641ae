use ws_relay::headers::capitalize_header_name;

#[test]
fn plain_header_is_capitalized() {
    assert_eq!(capitalize_header_name("content-type"), "Content-Type");
}

#[test]
fn upper_case_input_is_normalized() {
    assert_eq!(capitalize_header_name("X-FORWARDED-FOR"), "X-Forwarded-For");
}

#[test]
fn underscores_become_dashes() {
    assert_eq!(capitalize_header_name("x_forwarded_for"), "X-Forwarded-For");
    assert_eq!(capitalize_header_name("USER_AGENT"), "User-Agent");
}

#[test]
fn single_word_header() {
    assert_eq!(capitalize_header_name("host"), "Host");
}

#[test]
fn empty_name_stays_empty() {
    assert_eq!(capitalize_header_name(""), "");
}

#[test]
fn empty_pieces_are_kept() {
    assert_eq!(capitalize_header_name("a--b"), "A--B");
    assert_eq!(capitalize_header_name("_x"), "-X");
    assert_eq!(capitalize_header_name("x-"), "X-");
}

#[test]
fn multi_character_uppercase_mapping_is_kept() {
    // The uppercase of the first character may be more than one character.
    assert_eq!(capitalize_header_name("ße"), "SSe");
}
