use live_set_song_splitter::archive::archive_url;
use live_set_song_splitter::archive::extract_listings;
use live_set_song_splitter::archive::get_last_day_of_month;
use live_set_song_splitter::archive::two_digit;
use live_set_song_splitter::archive::ArticleData;
use live_set_song_splitter::audio::find_silence_points;
use live_set_song_splitter::audio::refinement_threshold;
use live_set_song_splitter::audio::silence_timestamps;
use live_set_song_splitter::concert::SetMetaData;
use live_set_song_splitter::concert::Song;
use live_set_song_splitter::ocr::normalize_text;
use live_set_song_splitter::ocr::parse_tesseract_output;
use live_set_song_splitter::scrape::concert_info_filename;
use live_set_song_splitter::scrape::strip_suffix;
use live_set_song_splitter::segments::check_all_songs_found;
use live_set_song_splitter::segments::choose_refined_timestamp;
use live_set_song_splitter::segments::frame_number_from_image_filename;
use live_set_song_splitter::segments::match_song_titles;
use live_set_song_splitter::segments::metadata_fields;
use live_set_song_splitter::segments::plan_segments;
use live_set_song_splitter::segments::refine_last_song_end_time;
use live_set_song_splitter::segments::refine_segments_with_audio_analysis;
use live_set_song_splitter::segments::remaining_titles;
use live_set_song_splitter::segments::scan_step;
use live_set_song_splitter::segments::segments_from_boundaries;
use live_set_song_splitter::segments::sort_songs_for_matching;
use live_set_song_splitter::segments::text_pass_action;
use live_set_song_splitter::segments::AudioSegment;
use live_set_song_splitter::segments::FrameAction;
use live_set_song_splitter::segments::ScanState;
use live_set_song_splitter::segments::SongSegment;
use live_set_song_splitter::segments::SplitError;
use live_set_song_splitter::textops::sanitize_filename;
use live_set_song_splitter::video::find_black_frame_end_time;
use live_set_song_splitter::video::is_black_frame;
use live_set_song_splitter::video::VideoInfo;

fn song(title: &str) -> Song {
    Song {
        title: title.to_string(),
    }
}

fn song_segment(title: &str, start_ms: u64, end_ms: u64) -> SongSegment {
    SongSegment {
        song: song(title),
        segment: AudioSegment {
            start_ms,
            end_ms,
            is_song: true,
        },
    }
}

// Normalization is idempotent on ordinary text.
#[test]
fn test_normalize_idempotent_samples() {
    for s in [
        "Hello, World!",
        "No Timé to’ Lose",
        "  Spaces   ",
        "UPPERCASE",
        "",
        "Takács Quartet 123",
    ] {
        let once = normalize_text(s);
        let twice = normalize_text(&once);
        assert_eq!(once, twice);
    }
}

// A title truncated mid-word matches when at least 40% of it is present.
#[test]
fn test_prefix_forty_percent() {
    let lines = vec!["ummer Depres".to_string()];
    assert!(live_set_song_splitter::ocr::matches_song_title(&lines, "Summer Depression", true).is_some());
}

// Segment assembly: contiguous, starts at zero, ends at the total duration.
#[test]
fn test_segment_assembly_invariant() {
    let boundaries = vec![
        ("song b".to_string(), 40_000u64),
        ("song a".to_string(), 5_000u64),
        ("song c".to_string(), 95_000u64),
    ];
    let songs = vec![song("Song A"), song("Song B"), song("Song C")];
    let segments = segments_from_boundaries(boundaries, &songs, 120_000);
    assert_eq!(segments.len(), 3);
    assert_eq!(segments[0].segment.start_ms, 0);
    for i in 0..segments.len() - 1 {
        assert_eq!(segments[i].segment.end_ms, segments[i + 1].segment.start_ms);
    }
    assert_eq!(segments[2].segment.end_ms, 120_000);
    assert_eq!(segments[0].song.title, "Song A");
    assert_eq!(segments[1].song.title, "Song B");
    assert_eq!(segments[2].song.title, "Song C");
    assert_eq!(segments[1].segment.start_ms, 40_000);
}

// Silence detection: 3 seconds of silence then sound gives one midpoint.
#[test]
fn test_find_silence_points_synthetic() {
    // One profile frame is 1024/44100 s; 130 frames are just over 3 seconds.
    let mut profile: Vec<u64> = vec![0; 130];
    profile.extend(vec![1_000_000u64; 50]);
    let points = find_silence_points(&profile, 500_000);
    assert_eq!(points, vec![65]);
    let ts = silence_timestamps(&points);
    // Frame 65 sits at the 1.5-second mark.
    assert_eq!(ts, vec![1509]);
}

#[test]
fn test_find_silence_points_too_short() {
    // A 1-second dip is below the 2-second minimum.
    let mut profile: Vec<u64> = vec![1_000_000u64; 50];
    profile.extend(vec![0u64; 43]);
    profile.extend(vec![1_000_000u64; 50]);
    let points = find_silence_points(&profile, 500_000);
    assert!(points.is_empty());
}

#[test]
fn test_refinement_threshold_clamps() {
    // Empty profile falls back to the base threshold.
    assert_eq!(refinement_threshold(&vec![]), 5000);
    // A very loud profile is clamped down to the base threshold.
    assert_eq!(refinement_threshold(&vec![1_000_000; 4]), 5000);
    // A very quiet profile is clamped up to a tenth of the base.
    assert_eq!(refinement_threshold(&vec![0, 0, 0, 0]), 500);
    // In between, a quarter of the mean.
    assert_eq!(refinement_threshold(&vec![8_000, 8_000]), 2_000);
}

// End-to-end: two songs confirmed, no refinement signal found.
#[test]
fn test_end_to_end_two_songs() {
    let songs = vec![song("Song A"), song("Song B")];
    let boundaries = vec![
        ("song a".to_string(), 5_000u64),
        ("song b".to_string(), 40_000u64),
    ];
    let total = 90_000u64;
    let segments = segments_from_boundaries(boundaries, &songs, total);
    // No silence anywhere: the energy profile stays loud.
    let profile = vec![1_000_000u64; 200];
    let refined = refine_segments_with_audio_analysis(&segments, &profile, total);
    // No black frame found either.
    let ended = refine_last_song_end_time(&refined, None);
    assert!(check_all_songs_found(&ended, &songs).is_ok());
    let plan = plan_segments(&ended, &songs).ok().unwrap();
    assert_eq!(plan.len(), 2);
    assert_eq!(plan[0].title, "Song A");
    assert_eq!(plan[0].start_ms, 0);
    assert_eq!(plan[0].end_ms, 40_000);
    assert_eq!(plan[0].track, 1);
    assert_eq!(plan[1].title, "Song B");
    assert_eq!(plan[1].start_ms, 40_000);
    assert_eq!(plan[1].end_ms, total);
    assert_eq!(plan[1].track, 2);
}

// Mismatch: three songs expected, two boundaries confirmed.
#[test]
fn test_mismatch_names_missing_title() {
    let songs = vec![song("Song A"), song("Song B"), song("Song C")];
    let segments = vec![
        song_segment("Song A", 0, 40_000),
        song_segment("Song B", 40_000, 90_000),
    ];
    let result = check_all_songs_found(&segments, &songs);
    assert!(result.is_err());
    let err = result.err().unwrap();
    let msg = err.message();
    assert!(msg.contains("Song C"), "{}", msg);
    assert!(!msg.contains("Song A"), "{}", msg);
    match err {
        SplitError::MissingSongs(missing) => assert_eq!(missing, vec!["Song C".to_string()]),
        _ => panic!("wrong error variant"),
    }
}

#[test]
fn test_too_many_segments() {
    let songs = vec![song("Song A")];
    let segments = vec![
        song_segment("Song A", 0, 40_000),
        song_segment("Song B", 40_000, 90_000),
    ];
    let result = plan_segments(&segments, &songs);
    assert!(result.is_err());
    let msg = result.err().unwrap().message();
    assert_eq!(
        msg,
        "Too many segments detected. 2 segments but only 1 songs provided."
    );
}

// The audio pass pulls a boundary back to the latest silence midpoint in its
// look-back window.
#[test]
fn test_audio_pass_nudges_boundary() {
    let songs = vec![song("Song A"), song("Song B")];
    let boundaries = vec![
        ("song a".to_string(), 0u64),
        ("song b".to_string(), 10_000u64),
    ];
    let total = 20_000u64;
    let segments = segments_from_boundaries(boundaries, &songs, total);
    // Loud, then 2.5 s of silence around the 8.5-second mark, then loud again.
    // Frame f covers time f * 1024 / 44100 s: silence from frame 310 to 418.
    let mut profile = vec![1_000_000u64; 310];
    profile.extend(vec![0u64; 108]);
    profile.extend(vec![1_000_000u64; 444]);
    let refined = refine_segments_with_audio_analysis(&segments, &profile, total);
    // Midpoint frame 364 is at 8452 ms, within [7000, 10000).
    assert_eq!(refined[1].segment.start_ms, 8452);
    assert_eq!(refined[0].segment.end_ms, 8452);
    assert_eq!(refined[1].segment.end_ms, total);
}

#[test]
fn test_black_frame_search() {
    // Three frames: bright, black, black. The earliest black frame wins.
    let bright = vec![200u8; 100];
    let black = vec![10u8; 100];
    assert!(!is_black_frame(&bright, 25));
    assert!(is_black_frame(&black, 25));
    let frames = vec![(3u64, bright.clone()), (7u64, black.clone()), (9u64, black)];
    let t = find_black_frame_end_time(&frames, 60_000, 25);
    // 60 s + 7/30 s.
    assert_eq!(t, Some(60_233));
    let none = find_black_frame_end_time(&vec![(1u64, bright)], 60_000, 25);
    assert_eq!(none, None);
}

#[test]
fn test_last_song_end_refinement() {
    let segments = vec![
        song_segment("Song A", 0, 40_000),
        song_segment("Song B", 40_000, 90_000),
    ];
    let refined = refine_last_song_end_time(&segments, Some(85_000));
    assert_eq!(refined[1].segment.end_ms, 85_000);
    assert_eq!(refined[0].segment.end_ms, 40_000);
    let kept = refine_last_song_end_time(&segments, None);
    assert_eq!(kept[1].segment.end_ms, 90_000);
}

#[test]
fn test_video_info_from_probe() {
    let packets = "0.000000,K__\n0.033367,__\n0.066733,__\n0.100100,K__\n0.133467,__\n";
    let info = VideoInfo::from_probe("12.345678", "0.000000", "30000/1001", packets)
        .ok()
        .unwrap();
    assert_eq!(info.duration_ms, 12_345);
    assert_eq!(info.framerate, 30);
    assert_eq!(info.frames.len(), 5);
    assert!(info.frames[0].is_keyframe);
    assert!(!info.frames[1].is_keyframe);
    assert_eq!(info.frames[3].timestamp_ms, 100);
    assert_eq!(info.keyframe_indices, vec![0, 3]);

    // A non-zero start offset is rejected.
    let bad = VideoInfo::from_probe("12.0", "1.5", "30/1", packets);
    assert!(bad.is_err());
    let msg = bad.err().unwrap().message();
    assert!(msg.contains("Start time is not 0"), "{}", msg);

    // A missing duration is rejected.
    assert!(VideoInfo::from_probe("N/A", "0", "30/1", packets).is_err());
}

#[test]
fn test_nearest_frames_by_time() {
    let packets = "0.0,K\n0.5,_\n1.0,_\n1.5,K\n2.0,_\n2.5,K\n";
    let info = VideoInfo::from_probe("3.0", "0", "2/1", packets).ok().unwrap();
    // Time 0.7 s: first keyframe at or after is index 3 (1.5 s); the window
    // starts at keyframe 0; the first frame at or after is index 2 (1.0 s).
    let ((kf_before, frame_before), frame_at, kf_at) = info.nearest_frames_by_time(700);
    assert_eq!(kf_before, 0);
    assert_eq!(frame_before, 1);
    assert_eq!(frame_at, Some(2));
    assert_eq!(kf_at, Some(3));
    // A time beyond every frame has no snap target.
    let (_, frame_at, kf_at) = info.nearest_frames_by_time(9_000);
    assert_eq!(frame_at, None);
    assert_eq!(kf_at, None);
}

#[test]
fn test_backward_scan_state_machine() {
    // Searching never stops.
    let (s1, stop1) = scan_step(ScanState::Searching, 90, false);
    assert!(matches!(s1, ScanState::Searching));
    assert!(!stop1);
    // A first match starts tracking.
    let (s2, stop2) = scan_step(s1, 80, true);
    assert!(matches!(s2, ScanState::Found { earliest: 80 }));
    assert!(!stop2);
    // Earlier matches advance the earliest frame.
    let (s3, stop3) = scan_step(s2, 70, true);
    assert!(matches!(s3, ScanState::Found { earliest: 70 }));
    assert!(!stop3);
    // The first failure after a match stops the scan.
    let (s4, stop4) = scan_step(s3, 60, false);
    assert!(matches!(s4, ScanState::Found { earliest: 70 }));
    assert!(stop4);
}

#[test]
fn test_text_pass_actions() {
    assert!(matches!(text_pass_action(0, 2, None, 10), FrameAction::Analyze));
    assert!(matches!(
        text_pass_action(2, 2, Some(40_000), 50),
        FrameAction::Stop
    ));
    // 20 s after a boundary at 5 s is within the 30-second hold-off.
    assert!(matches!(
        text_pass_action(1, 2, Some(5_000), 20),
        FrameAction::Skip
    ));
    assert!(matches!(
        text_pass_action(1, 2, Some(5_000), 36),
        FrameAction::Analyze
    ));
}

#[test]
fn test_match_song_titles_picks_best() {
    let lines = vec!["test song".to_string()];
    let titles = vec!["completely different".to_string(), "test song".to_string()];
    let best = match_song_titles(&lines, false, &titles);
    let (idx, _, line, score) = best.unwrap();
    assert_eq!(idx, 1);
    assert_eq!(line, "test song");
    assert_eq!(score, 0);
    let none = match_song_titles(&lines, false, &vec!["zzz qqq www".to_string()]);
    assert!(none.is_none());
}

#[test]
fn test_sorting_and_remaining_titles() {
    let songs = vec![song("Ab"), song("LONG TITLE HERE"), song("Mid one")];
    let sorted = sort_songs_for_matching(&songs);
    assert_eq!(
        sorted,
        vec![
            "long title here".to_string(),
            "mid one".to_string(),
            "ab".to_string()
        ]
    );
    let matched = vec![("mid one".to_string(), 42u64)];
    let remaining = remaining_titles(&sorted, &matched);
    assert_eq!(
        remaining,
        vec!["long title here".to_string(), "ab".to_string()]
    );
}

#[test]
fn test_choose_refined_timestamp() {
    assert_eq!(choose_refined_timestamp(3_500, 5), 3_500);
    assert_eq!(choose_refined_timestamp(0, 5), 5_000);
    assert_eq!(choose_refined_timestamp(6_000, 5), 5_000);
}

#[test]
fn test_frame_number_from_image_filename() {
    assert_eq!(frame_number_from_image_filename("42.png"), 42);
    assert_eq!(frame_number_from_image_filename("7bw.png"), 0);
    assert_eq!(frame_number_from_image_filename("42.jpg"), 0);
    assert_eq!(frame_number_from_image_filename(".png"), 0);
}

#[test]
fn test_parse_tesseract_output() {
    let text = "John Doe\nSong Title\n\n";
    let parsed = parse_tesseract_output(text, "john doe");
    let (lines, overlay) = parsed.unwrap();
    assert_eq!(lines, vec!["John Doe".to_string(), "Song Title".to_string()]);
    assert!(overlay);
    // Too short to trust.
    assert!(parse_tesseract_output("ab", "john doe").is_none());
    // Only blank lines.
    assert!(parse_tesseract_output("   \n   \n   ", "john doe").is_none());
    // First line unrelated to the artist.
    let (_, overlay) = parse_tesseract_output("Completely Else\nX", "john doe").unwrap();
    assert!(!overlay);
}

#[test]
fn test_metadata_fields() {
    let meta = SetMetaData {
        artist: "Test Artist".to_string(),
        album: Some("The Album".to_string()),
        date: Some("2023-01-01".to_string()),
        show: None,
    };
    let title = "Song A".to_string();
    let fields = metadata_fields(Some(&title), &meta, Some(3));
    assert_eq!(
        fields,
        vec![
            ("artist".to_string(), "Test Artist".to_string()),
            ("title".to_string(), "Song A".to_string()),
            ("album".to_string(), "The Album".to_string()),
            ("date".to_string(), "2023".to_string()),
            ("track".to_string(), "3".to_string()),
        ]
    );
    let bare = SetMetaData {
        artist: "A".to_string(),
        album: None,
        date: None,
        show: None,
    };
    assert_eq!(
        metadata_fields(None, &bare, None),
        vec![("artist".to_string(), "A".to_string())]
    );
}

#[test]
fn test_year_and_folder_name() {
    let meta = SetMetaData {
        artist: "Artist".to_string(),
        album: Some("Show : Live: At Home:Now".to_string()),
        date: Some("2019-07-04".to_string()),
        show: None,
    };
    assert_eq!(meta.year(), Some("2019".to_string()));
    assert_eq!(meta.folder_name(), "Show - Live - At Home-Now");
    let no_date = SetMetaData {
        artist: "Artist".to_string(),
        album: None,
        date: None,
        show: None,
    };
    assert_eq!(no_date.year(), None);
    assert_eq!(no_date.folder_name(), "Artist");
}

#[test]
fn test_sanitize_filename() {
    assert_eq!(sanitize_filename("A/B:C?"), "A_B_C_");
    assert_eq!(sanitize_filename("  .hidden.  "), "hidden");
    assert_eq!(sanitize_filename("???"), "__");
    assert_eq!(sanitize_filename("."), "untitled");
    assert_eq!(sanitize_filename("a<>|b"), "a__b");
}

#[test]
fn test_strip_suffix_and_info_filename() {
    assert_eq!(strip_suffix("guitar)", ")"), "guitar");
    assert_eq!(strip_suffix("guitar", ")"), "guitar");
    let name = concert_info_filename("Test Artist!").ok().unwrap();
    assert_eq!(name, "test_artist_info.json");
    assert!(concert_info_filename("!!!").is_err());
}

#[test]
fn test_archive_helpers() {
    assert_eq!(get_last_day_of_month(2023, 2), 28);
    assert_eq!(get_last_day_of_month(2024, 2), 29);
    assert_eq!(get_last_day_of_month(1900, 2), 28);
    assert_eq!(get_last_day_of_month(2000, 2), 29);
    assert_eq!(get_last_day_of_month(2023, 4), 30);
    assert_eq!(get_last_day_of_month(2023, 12), 31);
    assert_eq!(two_digit(7), "07");
    assert_eq!(two_digit(28), "28");
    assert_eq!(
        archive_url("2023", "01", "15"),
        "https://www.npr.org/series/tiny-desk-concerts/archive?date=01-15-2023"
    );
}

#[test]
fn test_extract_listings() {
    let articles = vec![ArticleData {
        title_text: "  Great Band  ".to_string(),
        url: "https://example.com/a".to_string(),
        date_attr: "2023-05-01".to_string(),
        teaser_text: "  May 1, 2023 • A short teaser.  ".to_string(),
        date_text: " May 1, 2023 ".to_string(),
    }];
    let listings = extract_listings(&articles);
    assert_eq!(listings.len(), 1);
    assert_eq!(listings[0].title, "Great Band");
    assert_eq!(listings[0].url, "https://example.com/a");
    assert_eq!(listings[0].date, "2023-05-01");
    assert_eq!(listings[0].teaser, "A short teaser.");
}

// Equal normalized line and title give a containment match with score 0.
#[test]
fn test_equal_normalized_is_containment() {
    let lines = vec!["Test Song!".to_string()];
    let m = live_set_song_splitter::ocr::matches_song_title(&lines, "test song", false);
    let (reason, line, score) = m.unwrap();
    assert!(matches!(
        reason,
        live_set_song_splitter::ocr::MatchReason::Contains
    ));
    assert_eq!(line, "Test Song!");
    assert_eq!(score, 0);
}

// The matcher is deterministic for fixed inputs.
#[test]
fn test_match_deterministic_runs() {
    let lines = vec!["ummer Depres".to_string()];
    let a = live_set_song_splitter::ocr::matches_song_title(&lines, "Summer Depression", true);
    let b = live_set_song_splitter::ocr::matches_song_title(&lines, "Summer Depression", true);
    assert_eq!(format!("{:?}", a), format!("{:?}", b));
}

// The backward scan's result snaps to the preceding keyframe, never a plain
// frame and never a later one.
#[test]
fn test_refined_boundary_snaps_to_keyframe() {
    let packets = "0.0,K\n0.5,_\n1.0,_\n1.5,K\n2.0,_\n2.5,K\n";
    let info = VideoInfo::from_probe("3.0", "0", "2/1", packets).ok().unwrap();
    // Earliest match maps to frame 4 (2.0 s); the keyframe before it is at 1.5 s.
    assert_eq!(info.refined_boundary_time(1, 1, 4), Some(1500));
    // No match found at a positive frame number: nothing to report.
    assert_eq!(info.refined_boundary_time(0, 1, 4), None);
}
