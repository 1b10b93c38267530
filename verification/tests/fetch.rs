use tgrab::fetch::{caption_request, player_request, transcript_response, FetchError, RequestFailure};
use tgrab::youtube::TranscriptError;

fn player_json(tracks: &str) -> String {
    format!(r#"{{"captions":{{"playerCaptionsTracklistRenderer":{{"captionTracks":[{tracks}]}}}}}}"#)
}

#[test]
fn watch_page_gives_the_player_request() {
    let page = r#"<title>My video</title> "INNERTUBE_API_KEY": "K1""#.to_string();
    let req = player_request("abc", Some("ja"), Ok(page)).ok().unwrap();
    assert_eq!(req.title, "My video");
    assert_eq!(req.url, "https://www.youtube.com/youtubei/v1/player?key=K1");
    assert_eq!(
        req.body,
        r#"{"context":{"client":{"clientName":"ANDROID","clientVersion":"20.10.38"}},"videoId":"abc"}"#
    );
    assert_eq!(req.headers.len(), 2);
    assert_eq!(req.headers[1], ("Accept-Language".to_string(), "ja".to_string()));

    let req = player_request("abc", None, Ok(r#""INNERTUBE_API_KEY":"K2""#.to_string())).ok().unwrap();
    assert_eq!(req.title, "abc");
    assert_eq!(req.headers.len(), 1);
}

#[test]
fn watch_page_errors() {
    assert_eq!(
        player_request("abc", None, Ok("<html></html>".to_string())).err(),
        Some("INNERTUBE_API_KEY not found in page".to_string())
    );
    assert_eq!(
        player_request("abc", None, Err(RequestFailure::Send("timed out".into()))).err(),
        Some("Failed to fetch YouTube page: timed out".to_string())
    );
    assert_eq!(
        player_request("abc", None, Err(RequestFailure::Read("bad body".into()))).err(),
        Some("Failed to read YouTube page: bad body".to_string())
    );
}

#[test]
fn player_response_gives_the_caption_url() {
    let json = player_json(r#"{"baseUrl":"https://example.com/t?x=1&fmt=srv3","languageCode":"en"}"#);
    assert_eq!(
        caption_request("T", None, Ok(json)),
        Ok(("T".to_string(), "https://example.com/t?x=1".to_string()))
    );
}

#[test]
fn player_response_errors() {
    assert_eq!(
        caption_request("T", None, Err(RequestFailure::Send("refused".into()))),
        Err("Failed to call Innertube API: refused".to_string())
    );
    assert_eq!(
        caption_request("T", None, Err(RequestFailure::Read("cut".into()))),
        Err("Failed to read Innertube response: cut".to_string())
    );
    assert_eq!(
        caption_request("T", None, Ok("not json".into())),
        Err(format!(
            "Failed to parse Innertube JSON: {}",
            serde_json::from_str::<serde_json::Value>("not json").unwrap_err()
        ))
    );
    assert_eq!(
        caption_request("T", None, Ok("{}".into())),
        Err("No caption tracks available for this video".to_string())
    );
    let json = player_json(r#"{"baseUrl":"u","languageCode":"en"}"#);
    assert_eq!(
        caption_request("T", Some("fr"), Ok(json)),
        Err("Language 'fr' not available. Available: en".to_string())
    );
}

#[test]
fn transcript_xml_gives_the_transcript() {
    let xml = r#"<transcript><text start="1" dur="2">Hi</text></transcript>"#.to_string();
    let t = transcript_response("Title".to_string(), Ok(xml)).ok().unwrap();
    assert_eq!(t.title, "Title");
    assert_eq!(t.lines.len(), 1);
    assert_eq!(t.lines[0].text, "Hi");
    assert_eq!(t.lines[0].offset, "1");
    assert_eq!(t.lines[0].duration, "2");
}

#[test]
fn transcript_xml_errors() {
    match transcript_response("T".into(), Err(RequestFailure::Send("dns".into()))) {
        Err(FetchError::Message(m)) => assert_eq!(m, "Failed to fetch transcript XML: dns"),
        _ => panic!("expected a message"),
    }
    match transcript_response("T".into(), Err(RequestFailure::Read("eof".into()))) {
        Err(FetchError::Message(m)) => assert_eq!(m, "Failed to read transcript XML: eof"),
        _ => panic!("expected a message"),
    }
    assert!(matches!(
        transcript_response("T".into(), Ok("<a></b>".into())),
        Err(FetchError::Transcript(TranscriptError::Xml(_)))
    ));
}
