use live_set_song_splitter::ocr::fuzzy_match_artist;
use live_set_song_splitter::ocr::fuzzy_match_artist_reason;

fn assert_fuzzy_match_artist(line_input: &str, artist_input: &str) {
    let result = fuzzy_match_artist_reason(line_input, artist_input);
    if !result.bool() {
        assert!(false, "{:?}", result)
    }
}

#[test]
fn test_exact_match() {
    assert_fuzzy_match_artist("John Doe", "John Doe");
    assert_fuzzy_match_artist("John Doe:", "John Doe");
}

#[test]
fn test_case_insensitive() {
    assert_fuzzy_match_artist("JOHN DOE", "john doe");
    assert_fuzzy_match_artist("john doe", "JOHN DOE");
}

#[test]
fn test_space_handling() {
    assert_fuzzy_match_artist("JohnDoe", "John Doe");
    assert_fuzzy_match_artist("John Doe", "JohnDoe");
}

#[test]
fn test_empty_artist() {
    assert!(!fuzzy_match_artist("John Doe", ""));
}

#[test]
fn test_empty_line() {
    assert!(!fuzzy_match_artist("", "John Doe"));
}

#[test]
fn test_partial_match_start() {
    assert_fuzzy_match_artist("John Doe Extra", "John Doe");
}

#[test]
fn test_no_match() {
    assert!(!fuzzy_match_artist("Jane Smith", "John Doe"));
}

#[test]
fn test_ratio_threshold() {
    assert!(!fuzzy_match_artist("johndo", "johndoe890"));
    assert_fuzzy_match_artist("johndoe", "johndoe890");
}

#[test]
fn test_fuzzy_name() {
    assert_fuzzy_match_artist("Teylor swift", "Taylor Swift");
}

#[test]
fn test_one_special_char_one_letter() {
    assert_fuzzy_match_artist("sieFra Hull &", "Sierra Hull");
}

#[test]
fn test_fuzzy_cutoff() {
    assert!(fuzzy_match_artist(
        "gillian welch & davi",
        "Gillian Welch & David Rawlings"
    ));
}

#[test]
fn test_fuzzy_diacritics() {
    assert_fuzzy_match_artist("Takacs Quartet", "Takács Quartet");
}

#[test]
fn test_fuzzy_special() {
    assert_fuzzy_match_artist("Taylor swift “*", "Taylor Swift");
}

#[test]
fn test_one_character_corruption() {
    assert_fuzzy_match_artist("Johm Doe", "John Doe");
}
