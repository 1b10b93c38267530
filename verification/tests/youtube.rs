use tgrab::youtube::{extract_innertube_key, extract_title, extract_video_id};

// ── extract_video_id ─────────────────────────────────────────────────────

#[test]
fn video_id_from_watch_url() {
    assert_eq!(
        extract_video_id("https://www.youtube.com/watch?v=dQw4w9WgXcQ"),
        Some("dQw4w9WgXcQ".into())
    );
}

#[test]
fn video_id_from_short_url() {
    assert_eq!(
        extract_video_id("https://youtu.be/dQw4w9WgXcQ"),
        Some("dQw4w9WgXcQ".into())
    );
}

#[test]
fn video_id_from_embed_url() {
    assert_eq!(
        extract_video_id("https://www.youtube.com/embed/dQw4w9WgXcQ"),
        Some("dQw4w9WgXcQ".into())
    );
}

#[test]
fn video_id_none_for_homepage() {
    assert_eq!(extract_video_id("https://www.youtube.com/"), None);
}

// ── extract_innertube_key ────────────────────────────────────────────────

#[test]
fn extracts_innertube_key() {
    let html = r#"var config = {"INNERTUBE_API_KEY": "AIzaSyTest123"};"#;
    assert_eq!(extract_innertube_key(html), Some("AIzaSyTest123".into()));
}

#[test]
fn extracts_trimmed_title() {
    let html = "<html><head><title>  Never Gonna Give You Up\n</title></head>";
    assert_eq!(extract_title(html), Some("Never Gonna Give You Up".into()));
}

// ── extract_caption_info_from_innertube ──────────────────────────────────

use tgrab::json::Json;
use tgrab::youtube::{extract_caption_info_from_innertube, parse_transcript_xml, CaptionError};
use tgrab::youtube::{caption_line, innertube_body, innertube_headers, innertube_url, page_title, watch_url};

fn text(s: &str) -> Json {
    Json::String(s.to_string())
}

fn object(entries: Vec<(&str, Json)>) -> Json {
    Json::Object(entries.into_iter().map(|(k, v)| (k.to_string(), v)).collect())
}

fn track(base_url: &str, language_code: &str) -> Json {
    object(vec![("baseUrl", text(base_url)), ("languageCode", text(language_code))])
}

fn innertube(tracks: Vec<Json>) -> Json {
    object(vec![(
        "captions",
        object(vec![(
            "playerCaptionsTracklistRenderer",
            object(vec![("captionTracks", Json::Array(tracks))]),
        )]),
    )])
}

#[test]
fn extracts_caption_url_from_innertube() {
    let json = innertube(vec![track("https://example.com/timedtext?lang=en", "en")]);
    let (_, url) = extract_caption_info_from_innertube(&json, "Test Video", None).unwrap();
    assert_eq!(url, "https://example.com/timedtext?lang=en");
}

#[test]
fn strips_fmt_srv3_from_caption_url() {
    let json = innertube(vec![track("https://example.com/timedtext?lang=en&fmt=srv3", "en")]);
    let (_, url) = extract_caption_info_from_innertube(&json, "Title", None).unwrap();
    assert_eq!(url, "https://example.com/timedtext?lang=en");
}

#[test]
fn selects_language_track() {
    let json = innertube(vec![
        track("https://example.com/en", "en"),
        track("https://example.com/ja", "ja"),
    ]);
    let (_, url) = extract_caption_info_from_innertube(&json, "Title", Some("ja")).unwrap();
    assert_eq!(url, "https://example.com/ja");
}

// ── parse_transcript_xml ─────────────────────────────────────────────────

/// Seconds as the transcript's attribute text reads, `0` when it does not.
fn seconds(s: &str) -> f64 {
    s.parse().unwrap_or(0.0)
}

#[test]
fn parses_basic_transcript() {
    let xml = r#"<?xml version="1.0" encoding="utf-8" ?>
            <transcript>
              <text start="0.0" dur="3.0">Hello world</text>
              <text start="3.0" dur="2.0">How are you?</text>
            </transcript>"#;

    let lines = parse_transcript_xml(xml).unwrap();
    assert_eq!(lines.len(), 2);
    assert_eq!(lines[0].text, "Hello world");
    assert_eq!(seconds(&lines[0].offset), 0.0);
    assert_eq!(seconds(&lines[0].duration), 3.0);
    assert_eq!(lines[1].text, "How are you?");
}

#[test]
fn decodes_xml_entities() {
    let xml = r#"<transcript><text start="0" dur="1">Rock &amp; Roll &#39;til you drop</text></transcript>"#;
    let lines = parse_transcript_xml(xml).unwrap();
    assert_eq!(lines[0].text, "Rock & Roll 'til you drop");
}

#[test]
fn skips_empty_lines() {
    let xml = r#"<transcript>
            <text start="0" dur="1">Hello</text>
            <text start="1" dur="1">   </text>
            <text start="2" dur="1">World</text>
        </transcript>"#;
    let lines = parse_transcript_xml(xml).unwrap();
    assert_eq!(lines.len(), 2);
}

// ── further cases ─────────────────────────────────────────────────────────

#[test]
fn caption_errors_and_messages() {
    let none = object(vec![]);
    let err = extract_caption_info_from_innertube(&none, "T", None).unwrap_err();
    assert!(matches!(err, CaptionError::NoCaptionTracks));
    assert_eq!(err.message(), "No caption tracks available for this video");

    let empty = innertube(vec![]);
    assert!(matches!(
        extract_caption_info_from_innertube(&empty, "T", None),
        Err(CaptionError::NoCaptionTracks)
    ));

    let two = innertube(vec![
        track("https://example.com/en", "en"),
        object(vec![("baseUrl", text("https://example.com/x"))]),
        track("https://example.com/ja", "ja"),
    ]);
    let err = extract_caption_info_from_innertube(&two, "T", Some("fr")).unwrap_err();
    assert_eq!(err.message(), "Language 'fr' not available. Available: en, ja");

    let no_url = innertube(vec![object(vec![("languageCode", text("en"))])]);
    let err = extract_caption_info_from_innertube(&no_url, "T", None).unwrap_err();
    assert!(matches!(err, CaptionError::MissingBaseUrl));
    assert_eq!(err.message(), "Missing baseUrl in caption track");
}

#[test]
fn caption_title_is_the_page_title() {
    let json = innertube(vec![track("https://example.com/a", "en")]);
    let (title, url) = extract_caption_info_from_innertube(&json, "My Page", None).unwrap();
    assert_eq!(title, "My Page");
    assert_eq!(url, "https://example.com/a");
}

#[test]
fn first_track_of_the_language_wins() {
    let json = innertube(vec![
        track("https://example.com/ja1", "ja"),
        track("https://example.com/ja2", "ja"),
    ]);
    let (_, url) = extract_caption_info_from_innertube(&json, "T", Some("ja")).unwrap();
    assert_eq!(url, "https://example.com/ja1");
}

#[test]
fn transcript_keeps_times_as_written() {
    let xml = r#"<transcript><text start="12.5" dur="0.75">  spaced out  </text><text>no times</text></transcript>"#;
    let lines = parse_transcript_xml(xml).unwrap();
    assert_eq!(lines.len(), 2);
    assert_eq!(lines[0].text, "spaced out");
    assert_eq!(lines[0].offset, "12.5");
    assert_eq!(lines[0].duration, "0.75");
    assert_eq!(lines[1].offset, "");
    assert_eq!(seconds(&lines[1].offset), 0.0);
}

#[test]
fn transcript_reports_bad_xml() {
    assert!(parse_transcript_xml("<transcript><text start=\"0\">a</wrong></transcript>").is_err());
    assert!(parse_transcript_xml("<transcript><text start=0>a</text></transcript>").is_err());
}

#[test]
fn transcript_ignores_other_elements() {
    let xml = r#"<transcript><p>not a caption</p><text start="1" dur="1">yes</text></transcript>"#;
    let lines = parse_transcript_xml(xml).unwrap();
    assert_eq!(lines.len(), 1);
    assert_eq!(lines[0].text, "yes");
}

#[test]
fn request_pieces() {
    assert_eq!(watch_url("dQw4w9WgXcQ"), "https://www.youtube.com/watch?v=dQw4w9WgXcQ");
    assert_eq!(innertube_url("KEY"), "https://www.youtube.com/youtubei/v1/player?key=KEY");
    assert_eq!(
        innertube_body("abc"),
        r#"{"context":{"client":{"clientName":"ANDROID","clientVersion":"20.10.38"}},"videoId":"abc"}"#
    );
    assert_eq!(innertube_headers(None), vec![("Content-Type".to_string(), "application/json".to_string())]);
    assert_eq!(innertube_headers(Some("ja")).len(), 2);
    assert_eq!(innertube_headers(Some("ja"))[1], ("Accept-Language".to_string(), "ja".to_string()));
    assert_eq!(page_title("<title> T </title>", "id"), "T");
    assert_eq!(page_title("<html></html>", "id"), "id");
    assert_eq!(caption_line(0, "a"), "[0:00] a");
    assert_eq!(caption_line(65, "b"), "[1:05] b");
    assert_eq!(caption_line(3599, "c"), "[59:59] c");
    assert_eq!(caption_line(3600, "d"), "[60:00] d");
}

#[test]
fn video_id_cases() {
    assert_eq!(extract_video_id("https://m.youtube.com/watch?feature=share&v=dQw4w9WgXcQ"), Some("dQw4w9WgXcQ".into()));
    assert_eq!(extract_video_id("https://www.youtube.com/shorts/dQw4w9WgXcQ"), None);
    assert_eq!(extract_video_id("https://www.youtube.com/user/name/dQw4w9WgXcQ"), Some("dQw4w9WgXcQ".into()));
    assert_eq!(extract_video_id("https://youtu.be/short"), None);
    assert_eq!(extract_video_id("youtu.be/dQw4w9WgXcQ"), Some("dQw4w9WgXcQ".into()));
}

#[test]
fn innertube_key_cases() {
    assert_eq!(extract_innertube_key(r#""INNERTUBE_API_KEY":"k_-9""#), Some("k_-9".into()));
    assert_eq!(extract_innertube_key(r#""INNERTUBE_API_KEY" :	"k""#), Some("k".into()));
    assert_eq!(extract_innertube_key(r#""INNERTUBE_API_KEY": """#), None);
    assert_eq!(extract_innertube_key(r#""INNERTUBE_API_KEY": "a b" "INNERTUBE_API_KEY": "c""#), Some("c".into()));
    assert_eq!(extract_title("<title>a</title><title>b</title>"), Some("a".into()));
    assert_eq!(extract_title("<title>a<b></title>"), None);
}

// ── transcript events ────────────────────────────────────────────────────

use tgrab::xml::{read_events, XmlEvent};
use tgrab::youtube::{caption_times, lines_of_events, TranscriptError, TranscriptLine};

fn line(text: &str, offset: &str, duration: &str) -> TranscriptLine {
    TranscriptLine { text: text.to_string(), offset: offset.to_string(), duration: duration.to_string() }
}

fn text_tag(attributes: Vec<(&str, &str)>) -> XmlEvent {
    XmlEvent::Start {
        name: b"text".to_vec(),
        attributes: attributes.into_iter().map(|(k, v)| Ok((k.as_bytes().to_vec(), v.as_bytes().to_vec()))).collect(),
    }
}

fn caption(s: &str) -> XmlEvent {
    XmlEvent::Text(Ok(s.to_string()))
}

#[test]
fn transcript_of_empty_documents_is_empty() {
    assert_eq!(parse_transcript_xml("").unwrap(), vec![]);
    assert_eq!(parse_transcript_xml(r#"<transcript><p>Hi</p></transcript>"#).unwrap(), vec![]);
    assert_eq!(
        parse_transcript_xml(r#"<transcript><text start="0" dur="1"/><text start="1" dur="1"></text></transcript>"#).unwrap(),
        vec![]
    );
}

#[test]
fn transcript_fails_on_mismatched_end_tag() {
    let r = parse_transcript_xml(r#"<transcript><text start="0" dur="1">Hi</text></oops>"#);
    assert!(matches!(r, Err(TranscriptError::Xml(_))));
}

#[test]
fn transcript_times_default_to_empty() {
    let xml = r#"<transcript><text>Hi</text><text start="x" dur="2.5">Yo</text></transcript>"#;
    let lines = parse_transcript_xml(xml).unwrap();
    assert_eq!(lines, vec![line("Hi", "", ""), line("Yo", "x", "2.5")]);
    assert_eq!(seconds(&lines[1].offset), 0.0);
    assert_eq!(seconds(&lines[1].duration), 2.5);
}

#[test]
fn transcript_basic_lines_exactly() {
    let xml = "<?xml version=\"1.0\" encoding=\"utf-8\" ?>\n<transcript>\n<text start=\"0.0\" dur=\"3.0\">Hello world</text>\n<text start=\"3.0\" dur=\"2.0\">How are you?</text>\n</transcript>";
    let lines = parse_transcript_xml(xml).unwrap();
    assert_eq!(lines, vec![line("Hello world", "0.0", "3.0"), line("How are you?", "3.0", "2.0")]);
    let xml = r#"<transcript><text start="0" dur="1">Rock &amp; Roll &#39;til you drop</text></transcript>"#;
    assert_eq!(parse_transcript_xml(xml).unwrap(), vec![line("Rock & Roll 'til you drop", "0", "1")]);
}

#[test]
fn transcript_bad_escape_and_attribute_errors() {
    assert!(matches!(
        parse_transcript_xml(r#"<transcript><text start="0">a &bogus; b</text></transcript>"#),
        Err(TranscriptError::Xml(_))
    ));
    assert!(matches!(
        parse_transcript_xml(r#"<transcript><text start="0" start="1">a</text></transcript>"#),
        Err(TranscriptError::Attribute(_))
    ));
}

#[test]
fn read_events_ends_at_the_end() {
    let events = read_events("<a>x</a>");
    assert_eq!(events.len(), 4);
    assert!(matches!(&events[0], XmlEvent::Start { name, attributes } if name == b"a" && attributes.is_empty()));
    assert!(matches!(&events[1], XmlEvent::Text(Ok(s)) if s == "x"));
    assert!(matches!(events[2], XmlEvent::Other));
    assert!(matches!(events[3], XmlEvent::Eof));
    let events = read_events("");
    assert_eq!(events.len(), 1);
    assert!(matches!(events[0], XmlEvent::Eof));
    let events = read_events("<a></b>");
    assert!(matches!(events.last(), Some(XmlEvent::Error(_))));
}

#[test]
fn lines_of_events_follow_the_tags() {
    let events = vec![
        text_tag(vec![("start", "1"), ("dur", "2"), ("other", "z")]),
        caption("  one  "),
        XmlEvent::Other,
        caption("stray text"),
        text_tag(vec![("dur", "4")]),
        caption("   "),
        text_tag(vec![]),
        text_tag(vec![("start", "9")]),
        caption("taken by the tag before"),
        XmlEvent::Start { name: b"p".to_vec(), attributes: vec![] },
        caption("not a caption"),
        text_tag(vec![("start", "5"), ("start", "6")]),
        caption("two"),
        XmlEvent::Eof,
        caption("after the end"),
    ];
    let lines = lines_of_events(&events).unwrap();
    assert_eq!(lines, vec![line("one", "1", "2"), line("two", "6", "")]);
    assert_eq!(lines_of_events(&vec![]).unwrap(), vec![]);
    assert_eq!(lines_of_events(&vec![text_tag(vec![]), caption("x")]).unwrap(), vec![line("x", "", "")]);
}

#[test]
fn lines_of_events_errors() {
    let bad_utf8 = XmlEvent::Start { name: b"text".to_vec(), attributes: vec![Ok((b"start".to_vec(), vec![0xff]))] };
    assert!(matches!(lines_of_events(&vec![bad_utf8, caption("x")]), Err(TranscriptError::Utf8(_))));
    let events = read_events("<a></b>");
    let err = events.into_iter().last().unwrap();
    assert!(matches!(lines_of_events(&vec![caption("x"), err]), Err(TranscriptError::Xml(_))));
    assert_eq!(
        caption_times(&vec![Ok((b"dur".to_vec(), b"3".to_vec())), Ok((b"start".to_vec(), b"1".to_vec()))]).unwrap(),
        ("1".to_string(), "3".to_string())
    );
    assert_eq!(caption_times(&vec![]).unwrap(), (String::new(), String::new()));
}
