use tgrab::twitter::api_url;

#[test]
fn api_url_from_x_com() {
    assert_eq!(
        api_url("https://x.com/user/status/123456"),
        Some("https://api.fxtwitter.com/user/status/123456".into())
    );
}

#[test]
fn api_url_from_twitter_com() {
    assert_eq!(
        api_url("https://twitter.com/user/status/123456"),
        Some("https://api.fxtwitter.com/user/status/123456".into())
    );
}

#[test]
fn api_url_from_www_twitter_com() {
    assert_eq!(
        api_url("https://www.twitter.com/user/status/123456"),
        Some("https://api.fxtwitter.com/user/status/123456".into())
    );
}

#[test]
fn api_url_preserves_user_and_id() {
    assert_eq!(
        api_url("https://x.com/rustlang/status/9999"),
        Some("https://api.fxtwitter.com/rustlang/status/9999".into())
    );
}

#[test]
fn api_url_none_for_non_status_url() {
    assert_eq!(api_url("https://x.com/user"), None);
}

use tgrab::json::Json;
use tgrab::twitter::format_post;

fn object(entries: Vec<(&str, Json)>) -> Json {
    Json::Object(entries.into_iter().map(|(k, v)| (k.to_string(), v)).collect())
}

#[test]
fn formats_post_with_author() {
    let response = object(vec![(
        "tweet",
        object(vec![
            ("text", Json::String("Hello, world".into())),
            ("author", object(vec![("screen_name", Json::String("rustlang".into()))])),
        ]),
    )]);
    assert_eq!(format_post(&response), Some("@rustlang:\n\nHello, world".into()));
}

#[test]
fn unknown_author_when_missing() {
    let response = object(vec![(
        "tweet",
        object(vec![
            ("text", Json::String("hi".into())),
            ("author", object(vec![("screen_name", Json::Number("7".into()))])),
        ]),
    )]);
    assert_eq!(format_post(&response), Some("@unknown:\n\nhi".into()));
}

#[test]
fn no_post_without_text() {
    let response = object(vec![("tweet", object(vec![("text", Json::Null)]))]);
    assert_eq!(format_post(&response), None);
    assert_eq!(format_post(&Json::Array(vec![])), None);
}

#[test]
fn api_url_takes_the_first_post_and_whole_id() {
    assert_eq!(
        api_url("see x.com/a/status/12 and twitter.com/b/status/34"),
        Some("https://api.fxtwitter.com/a/status/12".into())
    );
    assert_eq!(
        api_url("https://x.com/user/status/123abc"),
        Some("https://api.fxtwitter.com/user/status/123".into())
    );
}

#[test]
fn api_url_of_an_api_url_is_itself() {
    for url in ["https://x.com/user/status/123", "twitter.com/a_b/status/9?x=1", "https://www.x.com/u/status/1/photo"] {
        let api = api_url(url).unwrap();
        assert_eq!(api_url(&api), Some(api.clone()));
    }
}

use tgrab::fetch::RequestFailure;
use tgrab::twitter::{post_api_url, post_from_body, post_from_response};

#[test]
fn post_api_url_or_error() {
    assert_eq!(post_api_url("https://x.com/u/status/12"), Ok("https://api.fxtwitter.com/u/status/12".to_string()));
    assert_eq!(post_api_url("https://x.com/u"), Err("Could not parse Twitter URL: https://x.com/u".to_string()));
}

#[test]
fn post_from_api_body() {
    let body = r#"{"code":200,"tweet":{"text":"Hello, world","author":{"screen_name":"rustlang","id":5}}}"#;
    assert_eq!(post_from_body(body), Ok("@rustlang:\n\nHello, world".to_string()));
    assert_eq!(post_from_body(r#"{"tweet":{"text":"hi","likes":1.5}}"#), Ok("@unknown:\n\nhi".to_string()));
    assert_eq!(post_from_body(r#"{"tweet":{}}"#), Err("No text field in fxtwitter response".to_string()));
    let bad = "{\"tweet\":";
    assert_eq!(
        post_from_body(bad),
        Err(serde_json::from_str::<serde_json::Value>(bad).unwrap_err().to_string())
    );
}

#[test]
fn post_from_api_response() {
    let api = "https://api.fxtwitter.com/u/status/1";
    assert_eq!(
        post_from_response(api, Err(RequestFailure::Send("timeout".into()))),
        Err("HTTP error fetching https://api.fxtwitter.com/u/status/1: timeout".to_string())
    );
    assert_eq!(
        post_from_response(api, Err(RequestFailure::Read("reset".into()))),
        Err("Failed to read response body: reset".to_string())
    );
    assert_eq!(
        post_from_response(api, Ok(r#"{"tweet":{"text":"t","author":{"screen_name":"a"}}}"#.into())),
        Ok("@a:\n\nt".to_string())
    );
}
