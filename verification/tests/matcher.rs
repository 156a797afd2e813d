use dictosaurus::matcher::replace_found;
use dictosaurus::pattern::pattern_of;

#[test]
fn phrase_patterns_escape_words_and_allow_flexible_whitespace() {
    let phrase: Vec<char> = "c++ new.york".chars().collect();
    assert_eq!(pattern_of(&phrase), "(?iu:c\\+\\+\\s+new\\.york)");
    let single: Vec<char> = "ёлка".chars().collect();
    assert_eq!(pattern_of(&single), "(?iu:ёлка)");
}

#[test]
fn found_ranges_are_replaced_longest_first() {
    let text = "new york city";
    let found = vec![vec![(0, 8)], vec![(4, 13)]];
    let terms = vec!["A".to_string(), "B".to_string()];

    assert_eq!(replace_found(text, &found, &terms), "new B");
}

#[test]
fn found_ranges_inside_words_or_empty_are_ignored() {
    let text = "concatenate cat";
    let found = vec![vec![(3, 6), (12, 15), (0, 0)]];
    let terms = vec!["Cat".to_string()];

    assert_eq!(replace_found(text, &found, &terms), "concatenate Cat");
}

#[test]
fn found_byte_ranges_map_to_characters() {
    let text = "ёлка и ёлка";
    let found = vec![vec![(0, 8), (12, 20)]];
    let terms = vec!["Ель".to_string()];

    assert_eq!(replace_found(text, &found, &terms), "Ель и Ель");
}

#[test]
fn equal_length_matches_prefer_the_earlier_start() {
    let text = "ab ab";
    let found = vec![vec![(3, 5)], vec![(0, 2)]];
    let terms = vec!["X".to_string(), "Y".to_string()];

    assert_eq!(replace_found(text, &found, &terms), "Y X");
}
