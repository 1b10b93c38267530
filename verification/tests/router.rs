use tgrab::router::{route, Service};

// ── YouTube ──────────────────────────────────────────────────────────────

#[test]
fn youtube_standard_watch() {
    assert_eq!(
        route("https://www.youtube.com/watch?v=dQw4w9WgXcQ").unwrap(),
        Service::YouTube("dQw4w9WgXcQ".into())
    );
}

#[test]
fn youtube_no_www() {
    assert_eq!(
        route("https://youtube.com/watch?v=dQw4w9WgXcQ").unwrap(),
        Service::YouTube("dQw4w9WgXcQ".into())
    );
}

#[test]
fn youtube_short_url() {
    assert_eq!(
        route("https://youtu.be/dQw4w9WgXcQ").unwrap(),
        Service::YouTube("dQw4w9WgXcQ".into())
    );
}

#[test]
fn youtube_embed() {
    assert_eq!(
        route("https://www.youtube.com/embed/dQw4w9WgXcQ").unwrap(),
        Service::YouTube("dQw4w9WgXcQ".into())
    );
}

#[test]
fn youtube_v_path() {
    assert_eq!(
        route("https://www.youtube.com/v/dQw4w9WgXcQ").unwrap(),
        Service::YouTube("dQw4w9WgXcQ".into())
    );
}

#[test]
fn youtube_mobile() {
    assert_eq!(
        route("https://m.youtube.com/watch?v=dQw4w9WgXcQ").unwrap(),
        Service::YouTube("dQw4w9WgXcQ".into())
    );
}

#[test]
fn youtube_with_timestamp() {
    assert_eq!(
        route("https://www.youtube.com/watch?v=dQw4w9WgXcQ&t=42s").unwrap(),
        Service::YouTube("dQw4w9WgXcQ".into())
    );
}

// ── Twitter / X ──────────────────────────────────────────────────────────

#[test]
fn twitter_x_com() {
    assert_eq!(
        route("https://x.com/user/status/1234567890").unwrap(),
        Service::Twitter("https://x.com/user/status/1234567890".into())
    );
}

#[test]
fn twitter_twitter_com() {
    assert_eq!(
        route("https://twitter.com/user/status/1234567890").unwrap(),
        Service::Twitter("https://twitter.com/user/status/1234567890".into())
    );
}

#[test]
fn twitter_www_prefix() {
    assert_eq!(
        route("https://www.twitter.com/user/status/1234567890").unwrap(),
        Service::Twitter("https://www.twitter.com/user/status/1234567890".into())
    );
}

// ── Bluesky ──────────────────────────────────────────────────────────────

#[test]
fn bluesky_post() {
    assert_eq!(
        route("https://bsky.app/profile/user.bsky.social/post/abc123").unwrap(),
        Service::Bluesky("https://bsky.app/profile/user.bsky.social/post/abc123".into())
    );
}

#[test]
fn bluesky_did_profile() {
    // DIDs contain colons which are valid in URL path segments
    assert_eq!(
        route("https://bsky.app/profile/did:plc:abc123/post/xyz789").unwrap(),
        Service::Bluesky("https://bsky.app/profile/did:plc:abc123/post/xyz789".into())
    );
}

// ── Unsupported ───────────────────────────────────────────────────────────

#[test]
fn unsupported_url_returns_err() {
    assert!(route("https://example.com/page").is_err());
}

#[test]
fn bare_youtube_homepage_returns_err() {
    assert!(route("https://www.youtube.com/").is_err());
}

// ── further cases ─────────────────────────────────────────────────────────

use tgrab::router::RouteError;

#[test]
fn unsupported_url_message() {
    let err = route("https://example.com/page").unwrap_err();
    assert!(matches!(&err, RouteError::UnsupportedUrl(u) if u == "https://example.com/page"));
    assert_eq!(err.message(), "Unsupported URL: https://example.com/page");
}

#[test]
fn scheme_and_www_are_optional() {
    for rest in [
        "youtube.com/watch?v=dQw4w9WgXcQ",
        "x.com/user/status/1",
        "bsky.app/profile/a/post/b",
        "example.com/",
    ] {
        let bare = route(rest);
        for prefix in ["https://", "http://", "www.", "https://www.", "http://www."] {
            let full = format!("{prefix}{rest}");
            let routed = route(&full);
            match (&bare, &routed) {
                (Ok(Service::YouTube(a)), Ok(Service::YouTube(b))) => assert_eq!(a, b),
                (Ok(Service::Twitter(_)), Ok(Service::Twitter(u))) => assert_eq!(u, &full),
                (Ok(Service::Bluesky(_)), Ok(Service::Bluesky(u))) => assert_eq!(u, &full),
                (Err(_), Err(_)) => {}
                other => panic!("{full}: {other:?}"),
            }
        }
    }
}

#[test]
fn youtube_wins_over_other_patterns() {
    assert_eq!(
        route("https://x.com/user/status/1?next=youtu.be/dQw4w9WgXcQ").unwrap(),
        Service::YouTube("dQw4w9WgXcQ".into())
    );
}

#[test]
fn bluesky_needs_an_alphanumeric_post_id() {
    assert!(route("https://bsky.app/profile/a/post/-").is_err());
    assert!(route("https://bsky.app/profile//post/abc").is_err());
}
