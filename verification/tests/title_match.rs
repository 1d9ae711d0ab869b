use live_set_song_splitter::ocr::matches_song_title;
use live_set_song_splitter::ocr::matches_song_title_weighted;
use live_set_song_splitter::ocr::normalize_text;
use live_set_song_splitter::ocr::strip_movement_prefix;
use live_set_song_splitter::ocr::weights_for_greedy_extractor;
use live_set_song_splitter::ocr::MatchReason;

#[test]
fn test_normalize_text() {
    assert_eq!(normalize_text("Hello, World!"), "helloworld");
    assert_eq!(normalize_text("Test123"), "test123");
    assert_eq!(normalize_text("  Spaces   "), "spaces");
    assert_eq!(normalize_text("UPPERCASE"), "uppercase");
    assert_eq!(normalize_text("special-@#$-chars"), "specialchars");
}

#[test]
fn test_matches_song_title_weighted() {
    // Test punctuation
    let greedy = weights_for_greedy_extractor();
    assert!(matches_song_title_weighted(
        &vec!["__ My Everythi".to_string()],
        "My Everything",
        false,
        &greedy
    )
    .is_some());
}

#[test]
fn test_matches_song_title() {
    // Test exact matches
    let lines = vec!["hello world".to_string(), "test song".to_string()];
    assert!(matches_song_title(&lines, "test song", false).is_some());

    // Test partial matches
    assert!(matches_song_title(&lines, "test", false).is_some());
    assert!(matches_song_title(&lines, "song", false).is_some());

    // Test case insensitivity
    assert!(matches_song_title(&lines, "TEST SONG", false).is_some());

    // Test with overlay
    assert!(matches_song_title(&lines, "hello world test", true).is_some());

    // Test non-matches
    let other_lines = vec!["completely different".to_string()];
    assert!(!matches_song_title(&other_lines, "test song", true).is_some());
}

#[test]
fn test_matches_overlay() {
    // Test fuzzy matching (only works with overlay flag)
    let ocr_lines = vec!["helo wrld".to_string()]; // OCR might miss letters
    assert!(!matches_song_title(&ocr_lines, "hello world", false).is_some()); // Should fail without overlay
    let result = matches_song_title(&ocr_lines, "hello world", true);
    assert!(result.is_some()); // Should pass with overlay
}

#[test]
fn test_matches_song_title_20_chars() {
    let other_lines = vec!["-THUSIIS WHY (IDON'TSPRING".to_string()];
    assert!(matches_song_title(
        &other_lines,
        "..THUS IS WHY ( I DON'T SPRING 4 LOVE )",
        true
    )
    .is_some());
}

#[test]
fn test_matches_song_title_15_chars() {
    let lines = vec!["IsTHERE'S NO SEATII".to_string()];
    assert!(matches_song_title(
        &lines,
        "IF THERE'S NO SEAT IN THE SKY (WILL YOU FORGIVE ME???)",
        true
    )
    .is_some());
}

#[test]
fn test_not_matches_small_text() {
    let lines = vec!["//".to_string()];
    assert!(!matches_song_title(&lines, "too much", true).is_some());
}

#[test]
fn test_missing_beginning_and_end() {
    let lines = vec!["ummer Depres".to_string()];
    assert!(matches_song_title(&lines, "Summer Depression", true).is_some());
}

#[test]
fn test_copyright() {
    let lines = vec!["© Quarto (Fado Pager".to_string()];
    assert!(matches_song_title(&lines, "O Quarto (fado Pagem)", true).is_some());
}

#[test]
fn test_accents() {
    let lines = vec!["No Timé to’ Lose".to_string()];
    assert!(matches_song_title(&lines, "No Time to Lose", true).is_some());
}

#[test]
fn test_too_loose() {
    let lines = vec!["seenaneiias Thibaudcn™".to_string()];
    let song_title = "heitor villa-lobos: \"o polichinelo\" (from a prole do bebê no. 1)";
    let result = matches_song_title(&lines, &song_title, true);
    if let Some(ref r) = result {
        print_match_result(r);
    }
    assert!(!result.is_some());
}

#[test]
fn test_multi_line() {
    let lines = vec![
        "Lay Me Down".to_string(),
        "(feat, LaDonna Harley-Péters)".to_string(),
    ];
    assert!(
        matches_song_title(&lines, "Lay Me Down (feat. LaDonna Harley-Peters)", true).is_some()
    );
}

#[test]
fn test_movement_strip() {
    let stripped = strip_movement_prefix("Movement Two: \"Omnyama\"");
    assert!(stripped == Some("Omnyama".to_string()), "{:?}", stripped);
    let lines = vec!["Omnyama".to_string()];
    assert!(matches_song_title(&lines, "Movement Two: \"Omnyama\"", true).is_some());
}

fn print_match_result(result: &(MatchReason, String, u32)) {
    let (reason, line, lev_dist) = result;
    println!(
        "Match found! line='{}' dist={} reason={:?}",
        line, lev_dist, reason,
    );
}
