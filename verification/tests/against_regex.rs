//! The URL and page recognisers, checked on many generated inputs against
//! the `regex` patterns that define them.

use regex::Regex;
use tgrab::bluesky::rewrite_url;
use tgrab::router::{route, Service};
use tgrab::twitter::{api_url, extract_content};
use tgrab::youtube::{extract_innertube_key, extract_title, extract_video_id};

const YOUTUBE: &str =
    r"(?:youtube\.com/(?:[^/]+/.+/|(?:v|e(?:mbed)?)/|.*[?&]v=)|youtu\.be/)([^&?/\s]{11})";
const TWITTER: &str = r"(?:https?://)?(?:www\.)?(?:twitter\.com|x\.com)/\w+/status/\d+";
const TWITTER_PARTS: &str = r"(?:https?://)?(?:www\.)?(?:twitter\.com|x\.com)/(\w+)/status/(\d+)";
const BLUESKY: &str = r"(?:https?://)?bsky\.app/profile/[^/]+/post/[A-Za-z0-9]+";

fn urls() -> Vec<String> {
    let prefixes = ["", "https://", "http://", "www.", "https://www.", "m.", "youtu"];
    let hosts = [
        "youtube.com/", "youtu.be/", "twitter.com/", "x.com/", "bsky.app/profile/", "youtube.com",
        "x.co/",
    ];
    let middles = [
        "watch?v=", "embed/", "v/", "e/", "user/name/", "a/b/", "watch?x=1&v=", "?v=", "shorts/", "",
        "x\n/", "user/status/", "did:plc:x/post/", "abc/post/", "a/v=/", "émbed/",
    ];
    let ids = [
        "dQw4w9WgXcQ", "dQw4w9WgXc", "dQw4w9 gXcQ", "12345678901", "abc123", "１２３", "٣٤٥", "x_y",
        "ab/cdefghijklm", "abcdefghijk/lmnopqrstuv",
    ];
    let suffixes = ["", "&t=42s", "/", "/status/9", "?v=ABCDEFGHIJK", "\n", "/post/xyz", "/status/x"];
    let mut out = Vec::new();
    for p in prefixes {
        for h in hosts {
            for m in middles {
                for i in ids {
                    for s in suffixes {
                        out.push(format!("{p}{h}{m}{i}{s}"));
                    }
                }
            }
        }
    }
    out
}

fn expected_route(url: &str, yt: &Regex, tw: &Regex, bs: &Regex) -> Option<Service> {
    if let Some(c) = yt.captures(url) {
        return Some(Service::YouTube(c[1].to_string()));
    }
    if tw.is_match(url) {
        return Some(Service::Twitter(url.to_string()));
    }
    if bs.is_match(url) {
        return Some(Service::Bluesky(url.to_string()));
    }
    None
}

#[test]
fn route_and_video_id_agree_with_the_patterns() {
    let yt = Regex::new(YOUTUBE).unwrap();
    let tw = Regex::new(TWITTER).unwrap();
    let bs = Regex::new(BLUESKY).unwrap();
    for url in urls() {
        assert_eq!(route(&url).ok(), expected_route(&url, &yt, &tw, &bs), "route({url:?})");
        assert_eq!(
            extract_video_id(&url),
            yt.captures(&url).map(|c| c[1].to_string()),
            "extract_video_id({url:?})"
        );
    }
}

#[test]
fn api_url_agrees_with_the_pattern() {
    let re = Regex::new(TWITTER_PARTS).unwrap();
    for url in urls() {
        let expected = re
            .captures(&url)
            .map(|c| format!("https://api.fxtwitter.com/{}/status/{}", &c[1], &c[2]));
        assert_eq!(api_url(&url), expected, "api_url({url:?})");
    }
}

#[test]
fn rewrite_agrees_with_str_replace() {
    for url in urls() {
        assert_eq!(rewrite_url(&url), url.replace("://bsky.app/", "://fxbsky.app/"));
    }
    let odd = "https://bsky.app/://bsky.app/://bsky.app/x";
    assert_eq!(rewrite_url(odd), odd.replace("://bsky.app/", "://fxbsky.app/"));
}

#[test]
fn page_patterns_agree() {
    let key = Regex::new(r#""INNERTUBE_API_KEY"\s*:\s*"([A-Za-z0-9_-]+)""#).unwrap();
    let title = Regex::new(r"<title>([^<]*)</title>").unwrap();
    let pages = [
        r#"{"INNERTUBE_API_KEY": "AIzaSyTest123"}"#,
        r#""INNERTUBE_API_KEY"
:	"x-y_z""#,
        r#""INNERTUBE_API_KEY": "a.b" "INNERTUBE_API_KEY":"ok""#,
        r#""INNERTUBE_API_KEY": ""#,
        "<title>\u{3000}Title\u{a0}</title>",
        "<title></title><title>x</title>",
        "<title>a\nb</title>",
        "<title>a",
        "",
    ];
    for page in pages {
        assert_eq!(
            extract_innertube_key(page),
            key.captures(page).map(|c| c[1].to_string()),
            "key of {page:?}"
        );
        assert_eq!(
            extract_title(page),
            title.captures(page).map(|c| c[1].trim().to_string()),
            "title of {page:?}"
        );
    }
}

#[test]
fn unicode_word_and_digit_classes() {
    // `\w` and `\d` are Unicode classes: full-width digits count as both.
    assert_eq!(
        api_url("https://x.com/ユーザー/status/１２３"),
        Some("https://api.fxtwitter.com/ユーザー/status/１２３".into())
    );
    assert_eq!(api_url("https://x.com/user/status/x"), None);
}

#[test]
fn og_description_content() {
    let page = r#"<head><meta property="og:description" content="Hello there"/><meta property="og:description" content="second"/></head>"#;
    assert_eq!(extract_content(page), Some("Hello there".into()));
    assert_eq!(extract_content("<head></head>"), None);
}
