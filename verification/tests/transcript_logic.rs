use modular_agent_web::entity::{resolve_entity, unescape_lenient};
use modular_agent_web::error::AgentError;
use modular_agent_web::input::InputValue;
use modular_agent_web::timedtext::{
    assemble_timedtext, parse_time_value, parse_timedtext, TimeUnit, TimedTextToken,
};
use modular_agent_web::yt_transcript::{
    android_user_agent, build_transcript, check_playability, choose_caption_track,
    input_video_id, parse_languages, select_track, transcript_text, video_id_from_url,
    CaptionTrack, Captions, CaptionsTracklist, PlayabilityStatus, PlayerResponse, TrackName,
    TrackNameRun,
};

fn track(language_code: &str, kind: Option<&str>) -> CaptionTrack {
    CaptionTrack {
        base_url: format!("https://example.com/{}", language_code),
        language_code: language_code.to_string(),
        kind: kind.map(|kind| kind.to_string()),
        name: None,
    }
}

fn player(status: Option<PlayabilityStatus>, tracks: Option<Vec<CaptionTrack>>) -> PlayerResponse {
    PlayerResponse {
        playability_status: status,
        captions: tracks.map(|caption_tracks| Captions {
            player_captions_tracklist_renderer: Some(CaptionsTracklist { caption_tracks }),
        }),
    }
}

fn message_of(e: &AgentError) -> String {
    e.message().clone()
}

#[test]
fn user_agent_echoes_the_client_version() {
    assert_eq!(
        android_user_agent(),
        "com.google.android.youtube/20.10.38 (Linux; U; Android 11) gzip"
    );
}

#[test]
fn only_the_asr_kind_is_generated() {
    assert!(track("en", Some("asr")).is_generated());
    assert!(!track("en", Some("ASR")).is_generated());
    assert!(!track("en", Some("forced")).is_generated());
    assert!(!track("en", None).is_generated());
}

#[test]
fn empty_simple_text_falls_back_to_language_code_without_runs() {
    let mut t = track("de", None);
    t.name = Some(TrackName {
        simple_text: Some(String::new()),
        runs: Some(vec![TrackNameRun { text: "German".to_string() }]),
    });
    assert_eq!(t.display_name(), "de");

    let mut empty_runs = track("de", None);
    empty_runs.name = Some(TrackName { simple_text: None, runs: Some(vec![]) });
    assert_eq!(empty_runs.display_name(), "de");
}

#[test]
fn track_language_matches_ignoring_ascii_case() {
    let tracks = vec![track("ja", None), track("EN", None)];
    let languages = vec!["en".to_string()];
    let selected = select_track(&tracks, &languages).unwrap();
    assert_eq!(selected.language_code, "EN");
}

#[test]
fn first_manual_track_of_a_language_is_chosen() {
    let mut first = track("en", None);
    first.base_url = "first".to_string();
    let mut second = track("en", None);
    second.base_url = "second".to_string();
    let tracks = vec![track("en", Some("asr")), first, second];
    let languages = vec!["fr".to_string(), "en".to_string()];
    assert_eq!(select_track(&tracks, &languages).unwrap().base_url, "first");
}

#[test]
fn no_track_message_lists_languages_and_tracks() {
    let tracks = vec![track("en", Some("asr")), track("ja", None)];
    let languages = vec!["fr".to_string(), "de".to_string()];
    let err = select_track(&tracks, &languages).unwrap_err();
    assert!(matches!(err, AgentError::InvalidValue(_)));
    assert_eq!(
        message_of(&err),
        "No transcript found for languages [fr, de]. Available: [en (auto-generated), ja]"
    );
}

#[test]
fn text_without_references_is_unchanged() {
    assert_eq!(unescape_lenient("plain caption text"), "plain caption text");
    assert_eq!(unescape_lenient(""), "");
    assert_eq!(unescape_lenient("no refs; here"), "no refs; here");
}

#[test]
fn unescape_keeps_bare_and_unknown_references() {
    assert_eq!(unescape_lenient("Tom & Jerry"), "Tom & Jerry");
    assert_eq!(unescape_lenient("a &lt; b &gt; c"), "a < b > c");
    assert_eq!(unescape_lenient("&unknown; &amp;"), "&unknown; &");
    assert_eq!(unescape_lenient("&;"), "&;");
    assert_eq!(unescape_lenient("&&amp;"), "&&");
    assert_eq!(unescape_lenient("tail &"), "tail &");
    assert_eq!(unescape_lenient("&amp;#39;"), "&#39;");
}

#[test]
fn unescape_resolves_character_references() {
    assert_eq!(unescape_lenient("&#x41;&#65;&#+66;&#X43;"), "AABC");
    assert_eq!(unescape_lenient("&#xD800;"), "&#xD800;");
    assert_eq!(unescape_lenient("&#x110000;"), "&#x110000;");
    assert_eq!(unescape_lenient("&#4294967296;"), "&#4294967296;");
    assert_eq!(unescape_lenient("&#-1;&#x;&#;"), "&#-1;&#x;&#;");
    assert_eq!(unescape_lenient("a&#0;b"), "a\u{0}b");
    assert_eq!(unescape_lenient("&#128512;"), "\u{1F600}");
}

#[test]
fn resolve_entity_handles_each_form() {
    assert_eq!(resolve_entity("quot"), Some("\"".to_string()));
    assert_eq!(resolve_entity("apos"), Some("'".to_string()));
    assert_eq!(resolve_entity("nbsp"), None);
    assert_eq!(resolve_entity("#x26"), Some("&".to_string()));
    assert_eq!(resolve_entity("#12g"), None);
    assert_eq!(resolve_entity(""), None);
}

#[test]
fn languages_are_trimmed_and_empty_ones_dropped() {
    assert_eq!(parse_languages(" en, ja ,,fr "), vec!["en", "ja", "fr"]);
    assert_eq!(parse_languages("en"), vec!["en"]);
    assert!(parse_languages("").is_empty());
    assert!(parse_languages(" , \t,").is_empty());
}

#[test]
fn transcript_text_joins_snippets_with_spaces() {
    let snippets = parse_timedtext(
        r#"<timedtext><body><p t="0" d="1">one</p><p t="1" d="1">two</p></body></timedtext>"#,
    )
    .unwrap();
    assert_eq!(transcript_text(&snippets), "one two");
    let single = parse_timedtext(r#"<timedtext><body><p t="0" d="1">one</p></body></timedtext>"#)
        .unwrap();
    assert_eq!(transcript_text(&single), "one");
    assert_eq!(transcript_text(&Vec::new()), "");
}

#[test]
fn cdata_sections_contribute_text() {
    let snippets =
        parse_timedtext(r#"<timedtext><body><p t="0" d="1"><![CDATA[x < y]]></p></body></timedtext>"#)
            .unwrap();
    assert_eq!(snippets[0].text, "x < y");
}

#[test]
fn time_attribute_entities_are_resolved() {
    let snippets = parse_timedtext(
        r#"<timedtext><body><p t="1&#50;00" d="2&#x35;00">a</p><p d="5" t="3000">b</p></body></timedtext>"#,
    )
    .unwrap();
    assert_eq!(snippets.len(), 2);
    assert_eq!(snippets[0].start.literal, "1200");
    assert_eq!(snippets[0].duration.as_ref().unwrap().literal, "2500");
    assert_eq!(snippets[1].start.literal, "3000");
    assert_eq!(snippets[1].duration.as_ref().unwrap().literal, "5");
}

#[test]
fn malformed_attribute_lists_are_errors() {
    let snippets =
        parse_timedtext(r#"<timedtext><body><p t="0" t="1">a</p></body></timedtext>"#).unwrap();
    // A repeated key is not checked by the lookup, so the first value counts.
    assert_eq!(snippets[0].start.literal, "0");
    let err = parse_timedtext(r#"<timedtext><body><p d t="0">a</p></body></timedtext>"#).unwrap_err();
    assert!(message_of(&err).starts_with("Timedtext attribute error: "), "{}", message_of(&err));
}

#[test]
fn time_attributes_are_trimmed_and_keep_their_unit() {
    let snippets =
        parse_timedtext(r#"<transcript><text start=" 2.5 ">a</text></transcript>"#).unwrap();
    assert_eq!(snippets[0].start.literal, "2.5");
    assert_eq!(snippets[0].start.unit, TimeUnit::Seconds);
    assert!(snippets[0].duration.is_none());

    let snippets = parse_timedtext(r#"<body><p t="10" d="x">a</p></body>"#).unwrap();
    assert_eq!(snippets[0].start.unit, TimeUnit::Milliseconds);
    assert!(snippets[0].duration.is_none());
}

#[test]
fn time_literals_follow_the_float_grammar() {
    let samples = [
        "1", "1.", ".5", "1.5", "-1.5", "+2", "1e3", "1E-3", "2.5e+7", "inf", "-Infinity",
        "NaN", "nan", ".", "", "e5", "1e", "1e+", "1.2.3", "0x10", "1_000", "abc", "+", "-",
        "in", "infinit", " 7 ", "1 2",
    ];
    for s in samples {
        let expected = s.trim().parse::<f64>().is_ok();
        let got = parse_time_value(&Some(s.to_string()), TimeUnit::Seconds).is_some();
        assert_eq!(got, expected, "literal {:?}", s);
    }
}

#[test]
fn assembly_unescapes_only_legacy_text() {
    let tokens = vec![
        TimedTextToken::Cue {
            legacy: true,
            start: Some("1".to_string()),
            duration: Some("2".to_string()),
        },
        TimedTextToken::Text("a &amp; b".to_string()),
        TimedTextToken::Cue {
            legacy: false,
            start: Some("3000".to_string()),
            duration: None,
        },
        TimedTextToken::Text("c &amp; d".to_string()),
        TimedTextToken::CueEnd,
        TimedTextToken::Cue {
            legacy: false,
            start: Some("abc".to_string()),
            duration: None,
        },
        TimedTextToken::Text("ignored".to_string()),
        TimedTextToken::Cue {
            legacy: false,
            start: Some("4000".to_string()),
            duration: None,
        },
        TimedTextToken::Text("  ".to_string()),
        TimedTextToken::Cue {
            legacy: false,
            start: Some("5000".to_string()),
            duration: None,
        },
        TimedTextToken::Reference { name: "lt".to_string(), char_ref: None },
        TimedTextToken::Reference { name: "#33".to_string(), char_ref: Some('!') },
        TimedTextToken::Reference { name: "bogus".to_string(), char_ref: None },
    ];
    let snippets = assemble_timedtext(tokens);
    assert_eq!(snippets.len(), 3);
    assert_eq!(snippets[0].text, "a & b");
    assert_eq!(snippets[0].duration.as_ref().unwrap().literal, "2");
    assert_eq!(snippets[1].text, "c &amp; d");
    assert_eq!(snippets[1].start.literal, "3000");
    assert_eq!(snippets[2].text, "<!&bogus;");
}

#[test]
fn input_ports_name_the_video() {
    assert_eq!(
        input_video_id("video_id", &InputValue::Text("abc".to_string())).unwrap(),
        "abc"
    );
    assert_eq!(
        input_video_id("url", &InputValue::Text("https://youtube.com/watch?v=xyz".to_string()))
            .unwrap(),
        "xyz"
    );
    let err = input_video_id("other", &InputValue::Text("abc".to_string())).unwrap_err();
    assert_eq!(message_of(&err), "Unexpected input port 'other'");
    let err = input_video_id("video_id", &InputValue::Other).unwrap_err();
    assert_eq!(message_of(&err), "Input value for 'video_id' must be a string");
    let err = input_video_id("url", &InputValue::List(vec![])).unwrap_err();
    assert_eq!(message_of(&err), "Input value for 'url' must be a string");
}

#[test]
fn url_errors_name_the_url() {
    let err = video_id_from_url("not a url").unwrap_err();
    assert!(matches!(err, AgentError::InvalidValue(_)));
    assert!(message_of(&err).starts_with("Invalid URL 'not a url': "));
    assert_eq!(
        message_of(&video_id_from_url("https://example.com/watch?v=x").unwrap_err()),
        "URL 'https://example.com/watch?v=x' is not a valid YouTube URL"
    );
    assert_eq!(
        message_of(&video_id_from_url("https://www.youtube.com/watch").unwrap_err()),
        "Could not find 'v' parameter in URL 'https://www.youtube.com/watch'"
    );
    assert_eq!(video_id_from_url("https://youtu.be//abc").unwrap(), "abc");
    assert_eq!(
        video_id_from_url("https://youtube.com/watch?a=1&v=first&v=second").unwrap(),
        "first"
    );
}

#[test]
fn unplayable_videos_report_status_and_reason() {
    let p = player(
        Some(PlayabilityStatus { status: Some("LOGIN_REQUIRED".to_string()), reason: None }),
        None,
    );
    let err = check_playability("vid", &p).unwrap_err();
    assert!(matches!(err, AgentError::IoError(_)));
    assert_eq!(
        message_of(&err),
        "YouTube will not play video 'vid': LOGIN_REQUIRED (no reason given)"
    );
    let p = player(
        Some(PlayabilityStatus { status: None, reason: Some("private".to_string()) }),
        None,
    );
    assert_eq!(
        message_of(&check_playability("vid", &p).unwrap_err()),
        "YouTube will not play video 'vid': UNKNOWN (private)"
    );
    let p = player(Some(PlayabilityStatus { status: Some("OK".to_string()), reason: None }), None);
    assert!(check_playability("vid", &p).is_ok());
    assert!(check_playability("vid", &player(None, None)).is_ok());
}

#[test]
fn videos_without_captions_are_refused() {
    let languages = vec!["en".to_string()];
    let err = choose_caption_track("vid", player(None, None), &languages).unwrap_err();
    assert_eq!(message_of(&err), "Video 'vid' has no captions");
    let err = choose_caption_track("vid", player(None, Some(vec![])), &languages).unwrap_err();
    assert!(matches!(err, AgentError::InvalidValue(_)));
    let chosen = choose_caption_track(
        "vid",
        player(None, Some(vec![track("en", Some("asr")), track("en", None)])),
        &languages,
    )
    .unwrap();
    assert!(!chosen.is_generated());
}

#[test]
fn empty_timedtext_is_an_error_and_fields_come_from_the_track() {
    let mut t = track("en", Some("asr"));
    t.name = Some(TrackName { simple_text: Some("English".to_string()), runs: None });
    let err = build_transcript("vid", &t, "<html>error</html>").unwrap_err();
    assert!(matches!(err, AgentError::IoError(_)));
    assert_eq!(message_of(&err), "Transcript for video 'vid' (en) came back empty");

    let transcript =
        build_transcript("vid", &t, r#"<timedtext><body><p t="5" d="1">hi</p></body></timedtext>"#)
            .unwrap();
    assert_eq!(transcript.video_id, "vid");
    assert_eq!(transcript.language, "English");
    assert_eq!(transcript.language_code, "en");
    assert!(transcript.is_generated);
    assert_eq!(transcript.snippets.len(), 1);
}

#[test]
fn malformed_documents_are_io_errors() {
    let err = parse_timedtext(r#"<timedtext><p t="1" d="1">a</p><!-- x"#).unwrap_err();
    assert!(matches!(err, AgentError::IoError(_)));
    assert!(message_of(&err).starts_with("Timedtext parse error: "));
    let err = parse_timedtext(r#"<timedtext><p t="1&bogus;">a</p></timedtext>"#).unwrap_err();
    assert!(message_of(&err).starts_with("Timedtext attribute error: "));
}
