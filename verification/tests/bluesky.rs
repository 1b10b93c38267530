use tgrab::bluesky::{handle_in, og_title, post_content, post_from_response, profile, rewrite_url};
use tgrab::fetch::RequestFailure;

#[test]
fn rewrites_bsky_app() {
    assert_eq!(
        rewrite_url("https://bsky.app/profile/user.bsky.social/post/abc123"),
        "https://fxbsky.app/profile/user.bsky.social/post/abc123"
    );
}

#[test]
fn rewrites_did_profile() {
    assert_eq!(
        rewrite_url("https://bsky.app/profile/did:plc:abc123/post/xyz789"),
        "https://fxbsky.app/profile/did:plc:abc123/post/xyz789"
    );
}

#[test]
fn preserves_full_path() {
    assert_eq!(
        rewrite_url("https://bsky.app/profile/handle.bsky.social/post/3kv7"),
        "https://fxbsky.app/profile/handle.bsky.social/post/3kv7"
    );
}

#[test]
fn other_urls_unchanged() {
    assert_eq!(rewrite_url("bsky.app/profile/a/post/b"), "bsky.app/profile/a/post/b");
    assert_eq!(rewrite_url("https://example.com/"), "https://example.com/");
    assert_eq!(rewrite_url("http://bsky.app/x://bsky.app/"), "http://fxbsky.app/x://fxbsky.app/");
}

#[test]
fn profile_of_post_urls() {
    assert_eq!(profile("https://bsky.app/profile/user.bsky.social/post/abc123"), Some("user.bsky.social".into()));
    assert_eq!(profile("bsky.app/profile/did:plc:abc123/post/xyz789"), Some("did:plc:abc123".into()));
    assert_eq!(profile("https://bsky.app/profile/user.bsky.social"), None);
    assert_eq!(profile("https://bsky.app/profile/a/post/-x bsky.app/profile/b/post/y"), Some("b".into()));
}

#[test]
fn post_content_names_the_handle() {
    let page = r#"<meta property="og:title" content="x"><meta property="og:description" content="Hello sky">"#;
    assert_eq!(
        post_content("https://bsky.app/profile/user.bsky.social/post/abc123", page),
        Some("@user.bsky.social on Bluesky:\n\nHello sky".into())
    );
    let page = r#"<meta property="og:title" content="Alice (@alice.bsky.social)"><meta property="og:description" content="Hi">"#;
    assert_eq!(
        post_content("https://bsky.app/profile/did:plc:abc123/post/xyz", page),
        Some("@alice.bsky.social on Bluesky:\n\nHi".into())
    );
    assert_eq!(post_content("https://bsky.app/profile/user.bsky.social/post/abc123", "<html></html>"), None);
    assert_eq!(post_content("https://example.com/", page), Some("@alice.bsky.social on Bluesky:\n\nHi".into()));
    let nameless = r#"<meta property="og:description" content="Hi">"#;
    assert_eq!(post_content("https://example.com/", nameless), None);
}

#[test]
fn rewrite_twice_and_back() {
    for url in [
        "https://bsky.app/profile/user.bsky.social/post/abc123",
        "http://bsky.app/x://bsky.app/",
        "https://example.com/",
        "://bsky.app/://bsky.app/",
    ] {
        let once = rewrite_url(url);
        assert!(!once.contains("://bsky.app/"));
        assert_eq!(rewrite_url(&once), once);
        assert_eq!(once.replace("://fxbsky.app/", "://bsky.app/"), url);
    }
}

#[test]
fn handle_from_the_page_title() {
    assert_eq!(og_title(r#"<meta property="og:title" content="A (@a.b)">"#), Some("A (@a.b)".into()));
    assert_eq!(og_title(r#"<meta property="og:title" content="open"#), None);
    assert_eq!(handle_in("Alice (@alice.bsky.social)"), Some("alice.bsky.social".into()));
    assert_eq!(handle_in("x (@) y (@b)"), Some("b".into()));
    assert_eq!(handle_in("no handle (@open"), None);
}

#[test]
fn post_from_page_response() {
    let url = "https://bsky.app/profile/a.bsky.social/post/1";
    let proxy = "https://fxbsky.app/profile/a.bsky.social/post/1";
    assert_eq!(
        post_from_response(url, proxy, Err(RequestFailure::Send("no route".into()))),
        Err("HTTP error fetching https://fxbsky.app/profile/a.bsky.social/post/1: no route".to_string())
    );
    assert_eq!(
        post_from_response(url, proxy, Err(RequestFailure::Read("cut".into()))),
        Err("Failed to read response body: cut".to_string())
    );
    assert_eq!(
        post_from_response(url, proxy, Ok("<html></html>".into())),
        Err("Could not extract post content from FxEmbed response".to_string())
    );
}
