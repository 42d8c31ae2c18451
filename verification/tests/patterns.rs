use graphql_schema_parser::patterns::{Pattern, find_first_match_text, remove_all_matches, find_all_matches};

fn chars(s: &str) -> Vec<char> {
    s.chars().collect()
}

#[test]
fn words_include_letters_beyond_ascii() {
    let w = find_first_match_text(Pattern::Words, &chars("café au lait")).unwrap();
    assert_eq!(w.iter().collect::<String>(), "café");
}

#[test]
fn whitespace_removal() {
    let r = remove_all_matches(Pattern::Whitespace, &chars(" a b\t\nc "));
    assert_eq!(r.iter().collect::<String>(), "abc");
}

#[test]
fn first_word_takes_a_lone_word_character() {
    let ms = find_all_matches(Pattern::FirstWord, &chars("a bc {d"));
    assert_eq!(ms, vec![(0, 1), (2, 4), (5, 7)]);
}

#[test]
fn block_strings_are_found() {
    let ms = find_all_matches(Pattern::BlockString, &chars("x \"\"\"doc\"\"\" y"));
    assert_eq!(ms, vec![(2, 11)]);
}

#[test]
fn string_literals_end_at_the_next_quote() {
    let ms = find_all_matches(Pattern::StringLiteral, &chars("a: \"x y\" b: \"z\""));
    assert_eq!(ms, vec![(3, 8), (12, 15)]);
}
