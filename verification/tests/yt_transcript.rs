use modular_agent_web::error::AgentError;
use modular_agent_web::timedtext::{parse_timedtext, TimeUnit, TimeValue};
use modular_agent_web::yt_transcript::{
    select_track, video_id_from_url, CaptionTrack, TrackName, TrackNameRun,
};

const SRV3: &str = r#"<?xml version="1.0" encoding="utf-8"?>
<timedtext format="3">
<head><wp id="0"/><ws id="0"/></head>
<body>
<p t="1200" d="2500">Never gonna give you up</p>
<p t="3700" d="1800"><s>Never </s><s t="300">gonna </s><s t="600">let you down</s></p>
<p t="5500" d="900">Tom &amp; Jerry &#39;n friends</p>
<p t="6400" d="10"></p>
</body>
</timedtext>"#;

const LEGACY: &str = r#"<?xml version="1.0" encoding="utf-8"?>
<transcript>
<text start="1.2" dur="2.5">Never gonna give you up</text>
<text start="3.7" dur="1.8">Never gonna &amp;#39;let you down&amp;#39;</text>
</transcript>"#;

/// The time in seconds, as the transcript output carries it.
fn seconds(t: &TimeValue) -> f64 {
    let value: f64 = t.literal.parse().unwrap();
    match t.unit {
        TimeUnit::Seconds => value,
        TimeUnit::Milliseconds => value / 1000.0,
    }
}

fn duration_seconds(t: &Option<TimeValue>) -> f64 {
    match t {
        Some(t) => seconds(t),
        None => 0.0,
    }
}

fn track(language_code: &str, kind: Option<&str>) -> CaptionTrack {
    CaptionTrack {
        base_url: format!("https://example.com/{}", language_code),
        language_code: language_code.to_string(),
        kind: kind.map(|kind| kind.to_string()),
        name: None,
    }
}

#[test]
fn parses_srv3_with_nested_segments() {
    let snippets = parse_timedtext(SRV3).unwrap();
    assert_eq!(snippets.len(), 3);

    assert_eq!(snippets[0].text, "Never gonna give you up");
    assert_eq!(seconds(&snippets[0].start), 1.2);
    assert_eq!(duration_seconds(&snippets[0].duration), 2.5);

    // Nested <s> segments are concatenated into one snippet.
    assert_eq!(snippets[1].text, "Never gonna let you down");
    assert_eq!(seconds(&snippets[1].start), 3.7);
}

#[test]
fn resolves_entities() {
    let snippets = parse_timedtext(SRV3).unwrap();
    assert_eq!(snippets[2].text, "Tom & Jerry 'n friends");
}

#[test]
fn parses_legacy_format_in_seconds() {
    let snippets = parse_timedtext(LEGACY).unwrap();
    assert_eq!(snippets.len(), 2);
    assert_eq!(seconds(&snippets[0].start), 1.2);
    assert_eq!(duration_seconds(&snippets[0].duration), 2.5);
    // Double-escaped text needs the extra unescape pass.
    assert_eq!(snippets[1].text, "Never gonna 'let you down'");
}

#[test]
fn invalid_char_ref_does_not_abort_the_parse() {
    let xml = r#"<timedtext format="3"><body>
<p t="0" d="1000">a&#0;b</p>
<p t="1000" d="1000">good</p>
</body></timedtext>"#;
    let snippets = parse_timedtext(xml).unwrap();
    assert_eq!(snippets.len(), 2);
    assert_eq!(snippets[0].text, "a&#0;b");
    assert_eq!(snippets[1].text, "good");
}

#[test]
fn srv3_text_is_unescaped_only_once() {
    // A caption whose real text contains entity-looking strings, e.g. a
    // programming tutorial. srv3 escapes once, so no second pass.
    let xml = r#"<timedtext format="3"><body>
<p t="0" d="1000">write &amp;lt;div&amp;gt; here</p>
</body></timedtext>"#;
    let snippets = parse_timedtext(xml).unwrap();
    assert_eq!(snippets[0].text, "write &lt;div&gt; here");
}

#[test]
fn legacy_bare_ampersand_does_not_block_entity_resolution() {
    let xml = r#"<transcript>
<text start="0" dur="1">Tom &amp; Jerry isn&amp;#39;t bad</text>
</transcript>"#;
    let snippets = parse_timedtext(xml).unwrap();
    assert_eq!(snippets[0].text, "Tom & Jerry isn't bad");
}

#[test]
fn elements_without_timing_are_not_snippets() {
    let html = "<html><body><p>Sorry, an error occurred</p></body></html>";
    assert!(parse_timedtext(html).unwrap().is_empty());

    let bad_time = r#"<timedtext format="3"><body><p t="abc" d="1000">x</p></body></timedtext>"#;
    assert!(parse_timedtext(bad_time).unwrap().is_empty());
}

#[test]
fn empty_document_yields_no_snippets() {
    assert!(parse_timedtext("").unwrap().is_empty());
    assert!(
        parse_timedtext("<timedtext format=\"3\"><body/></timedtext>")
            .unwrap()
            .is_empty()
    );
}

#[test]
fn prefers_manual_track_over_generated() {
    let tracks = vec![track("en", Some("asr")), track("en", None)];
    let languages = vec!["en".to_string()];
    let selected = select_track(&tracks, &languages).unwrap();
    assert!(!selected.is_generated());
}

#[test]
fn falls_back_to_generated_track() {
    let tracks = vec![track("ja", None), track("en", Some("asr"))];
    let languages = vec!["en".to_string()];
    let selected = select_track(&tracks, &languages).unwrap();
    assert_eq!(selected.language_code, "en");
    assert!(selected.is_generated());
}

#[test]
fn earlier_language_wins_over_later_manual_track() {
    let tracks = vec![track("en", Some("asr")), track("ja", None)];
    let languages = vec!["en".to_string(), "ja".to_string()];
    let selected = select_track(&tracks, &languages).unwrap();
    assert_eq!(selected.language_code, "en");
    assert!(selected.is_generated());
}

#[test]
fn unknown_language_lists_available_tracks() {
    let tracks = vec![track("en", Some("asr"))];
    let languages = vec!["fr".to_string()];
    let err = select_track(&tracks, &languages).unwrap_err();
    let AgentError::InvalidValue(message) = err else {
        panic!("expected InvalidValue");
    };
    assert!(message.contains("fr"));
    assert!(message.contains("en (auto-generated)"));
}

#[test]
fn display_name_falls_back_to_language_code() {
    assert_eq!(track("en", None).display_name(), "en");

    let mut named = track("en", None);
    named.name = Some(TrackName {
        simple_text: Some("English".to_string()),
        runs: None,
    });
    assert_eq!(named.display_name(), "English");

    let mut with_runs = track("en", None);
    with_runs.name = Some(TrackName {
        simple_text: None,
        runs: Some(vec![
            TrackNameRun {
                text: "English ".to_string(),
            },
            TrackNameRun {
                text: "(auto-generated)".to_string(),
            },
        ]),
    });
    assert_eq!(with_runs.display_name(), "English (auto-generated)");
}

#[test]
fn video_id_is_extracted_from_url_forms() {
    assert_eq!(
        video_id_from_url("https://youtu.be/dQw4w9WgXcQ").unwrap(),
        "dQw4w9WgXcQ"
    );
    assert_eq!(
        video_id_from_url("https://www.youtube.com/watch?v=dQw4w9WgXcQ&t=10s").unwrap(),
        "dQw4w9WgXcQ"
    );
    assert!(video_id_from_url("https://example.com/watch?v=x").is_err());
    assert!(video_id_from_url("https://www.youtube.com/watch").is_err());
}
