use live_set_song_splitter::scrape::parse_concert_info;
use live_set_song_splitter::scrape::ConcertPage;
use live_set_song_splitter::scrape::StoryNode;

// Test successful parsing of a sample concert page
#[test]
fn test_sample_concert_parsing() {
    let page = ConcertPage {
        title: "Test Artist: Tiny Desk Concert".to_string(),
        story_title: Some("Test Artist: Tiny Desk Concert".to_string()),
        date: Some("2023-01-01".to_string()),
        story: Some(vec![
            StoryNode::Para("A description of the concert.".to_string()),
            StoryNode::Para("SET LIST".to_string()),
            StoryNode::List(vec![
                "Test Song 1".to_string(),
                "Test Song 2".to_string(),
                "Test Song 3".to_string(),
            ]),
            StoryNode::Para("MUSICIANS".to_string()),
            StoryNode::List(vec![
                "Test Artist: vocals, guitar".to_string(),
                "Test Bassist: bass".to_string(),
                "Test Drummer: drums".to_string(),
            ]),
        ]),
    };
    let result = parse_concert_info(&page, "https://example.com/test");

    if let Err(e) = &result {
        println!("Error: {}", e.message());
    }

    // Assert that parsing succeeds
    assert!(result.is_ok(), "Failed to parse sample concert");

    // Get the parsed concert info
    let concert_info = result.ok().unwrap();

    // Verify the extracted information
    assert_eq!(concert_info.artist, "Test Artist");
    assert_eq!(
        concert_info.album,
        Some("Test Artist: Tiny Desk Concert".to_string())
    );
    assert_eq!(concert_info.date, Some("2023-01-01".to_string()));
    assert_eq!(concert_info.show, "Tiny Desk Concerts");

    // Verify set list
    assert_eq!(concert_info.set_list.len(), 3);
    assert_eq!(concert_info.set_list[0].title, "Test Song 1");
    assert_eq!(concert_info.set_list[1].title, "Test Song 2");
    assert_eq!(concert_info.set_list[2].title, "Test Song 3");

    // Verify musicians
    assert_eq!(concert_info.musicians.len(), 3);
    assert_eq!(concert_info.musicians[0].name, "Test Artist");
    assert_eq!(
        concert_info.musicians[0].instruments,
        vec!["vocals", "guitar"]
    );
    assert_eq!(concert_info.musicians[1].name, "Test Bassist");
    assert_eq!(concert_info.musicians[1].instruments, vec!["bass"]);
    assert_eq!(concert_info.musicians[2].name, "Test Drummer");
    assert_eq!(concert_info.musicians[2].instruments, vec!["drums"]);
}

// Test edge cases
#[test]
fn test_missing_title() {
    let page = ConcertPage {
        title: "".to_string(),
        story_title: None,
        date: None,
        story: None,
    };

    let result = parse_concert_info(&page, "https://example.com/test");
    assert!(result.is_err());
    assert!(result.err().unwrap().message().contains("Title is empty"));
}

#[test]
fn test_missing_story_title() {
    let page = ConcertPage {
        title: "Some Artist: Tiny Desk Concert".to_string(),
        story_title: None,
        date: None,
        story: None,
    };

    let result = parse_concert_info(&page, "https://example.com/test");
    assert!(result.is_err());
    assert!(result
        .err()
        .unwrap()
        .message()
        .contains("No story title found"));
}

#[test]
fn test_missing_date() {
    let page = ConcertPage {
        title: "Some Artist: Tiny Desk Concert".to_string(),
        story_title: Some("Some Concert".to_string()),
        date: None,
        story: None,
    };

    let result = parse_concert_info(&page, "https://example.com/test");
    assert!(result.is_err());
    assert!(result.err().unwrap().message().contains("No date found"));
}

#[test]
fn test_missing_set_list() {
    let page = ConcertPage {
        title: "Some Artist: Tiny Desk Concert".to_string(),
        story_title: Some("Some Concert".to_string()),
        date: Some("2023-01-01".to_string()),
        story: Some(vec![
            StoryNode::Para("Description".to_string()),
            StoryNode::Para("MUSICIANS".to_string()),
            StoryNode::List(vec!["Test Artist: vocals".to_string()]),
        ]),
    };

    let result = parse_concert_info(&page, "https://example.com/test");
    assert!(result.is_err());
    assert!(result
        .err()
        .unwrap()
        .message()
        .contains("No set list found"));
}

#[test]
fn test_missing_musicians() {
    let page = ConcertPage {
        title: "Some Artist: Tiny Desk Concert".to_string(),
        story_title: Some("Some Concert".to_string()),
        date: Some("2023-01-01".to_string()),
        story: Some(vec![
            StoryNode::Para("Description".to_string()),
            StoryNode::Para("SET LIST".to_string()),
            StoryNode::List(vec!["Test Song".to_string()]),
        ]),
    };

    let result = parse_concert_info(&page, "https://example.com/test");
    assert!(result.is_err());
    // Check that the error is related to musicians being missing
    let error_msg = result.err().unwrap().message();
    println!("Error message: {}", error_msg);
    assert!(
        error_msg.contains("musicians"),
        "expected contains musicians: {}",
        error_msg
    );
}

#[test]
fn test_musicians_paragraph_form() {
    let page = ConcertPage {
        title: "Some Artist: Tiny Desk Concert".to_string(),
        story_title: Some("Some Concert".to_string()),
        date: Some("2023-01-01".to_string()),
        story: Some(vec![
            StoryNode::Para("SET LIST".to_string()),
            StoryNode::List(vec!["Test Song".to_string()]),
            StoryNode::Para("MUSICIANS".to_string()),
            StoryNode::Para("Alice (vocals, guitar); Bob (bass)".to_string()),
        ]),
    };
    let info = parse_concert_info(&page, "https://example.com/test")
        .ok()
        .unwrap();
    assert_eq!(info.musicians.len(), 2);
    assert_eq!(info.musicians[0].name, "Alice ");
    assert_eq!(info.musicians[0].instruments, vec!["vocals", "guitar"]);
    assert_eq!(info.musicians[1].instruments, vec!["bass"]);
}

#[test]
fn test_musicians_paragraph_unreadable() {
    let page = ConcertPage {
        title: "Some Artist: Tiny Desk Concert".to_string(),
        story_title: Some("Some Concert".to_string()),
        date: Some("2023-01-01".to_string()),
        story: Some(vec![
            StoryNode::Para("SET LIST".to_string()),
            StoryNode::List(vec!["Test Song".to_string()]),
            StoryNode::Para("MUSICIANS".to_string()),
            StoryNode::Para("Garbage".to_string()),
        ]),
    };
    let result = parse_concert_info(&page, "https://example.com/test");
    let msg = result.err().unwrap().message();
    assert_eq!(
        msg,
        "Did not understand musician instrument list: Garbage"
    );
}
