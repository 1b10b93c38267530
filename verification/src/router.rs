use vstd::prelude::*;
use crate::text::chars_of;
use crate::youtube::{video_id_of, video_id_start_exec};

verus! {

/// Which service a URL belongs to.
#[derive(Debug, PartialEq, Eq)]
pub enum Service {
    /// YouTube video; contains the 11-character video ID.
    YouTube(String),
    /// Twitter / X post; the URL itself, kept for rewriting later.
    Twitter(String),
    /// Bluesky post; the URL itself, kept for rewriting later.
    Bluesky(String),
}

/// A [`Service`] with its text as a character sequence.
pub enum ServiceView {
    YouTube(Seq<char>),
    Twitter(Seq<char>),
    Bluesky(Seq<char>),
}

impl View for Service {
    type V = ServiceView;

    open spec fn view(&self) -> ServiceView {
        match self {
            Service::YouTube(id) => ServiceView::YouTube(id@),
            Service::Twitter(url) => ServiceView::Twitter(url@),
            Service::Bluesky(url) => ServiceView::Bluesky(url@),
        }
    }
}

/// The service that handles `url`: YouTube when the video id pattern
/// matches, else Twitter / X, else Bluesky; none when no pattern matches.
pub open spec fn service_of(url: Seq<char>) -> Option<ServiceView> {
    match video_id_of(url) {
        Some(id) => Some(ServiceView::YouTube(id)),
        None => if crate::twitter::is_post_url(url) {
            Some(ServiceView::Twitter(url))
        } else if crate::bluesky::is_post_url(url) {
            Some(ServiceView::Bluesky(url))
        } else {
            None
        },
    }
}

/// Why a URL was not routed.
#[derive(Debug)]
pub enum RouteError {
    /// No supported service recognises the URL (which it holds).
    UnsupportedUrl(String),
}

impl RouteError {
    /// The error as text: `Unsupported URL: <url>`.
    pub fn message(&self) -> (r: String)
        ensures
            match self {
                RouteError::UnsupportedUrl(url) => r@ == "Unsupported URL: "@ + url@,
            },
    {
        match self {
            RouteError::UnsupportedUrl(url) => {
                let mut m = String::from_str("Unsupported URL: ");
                m.append(url.as_str());
                m
            },
        }
    }
}

/// Inspect `url` and return which [`Service`] should handle it.
///
/// # Errors
///
/// Returns an error if the URL does not match any supported service.
pub fn route(url: &str) -> (r: Result<Service, RouteError>)
    ensures
        match r {
            Ok(svc) => service_of(url@) == Some(svc@),
            Err(RouteError::UnsupportedUrl(u)) => service_of(url@) is None && u@ == url@,
        },
{
    let s = chars_of(url);
    if let Some(i) = video_id_start_exec(&s) {
        return Ok(Service::YouTube(crate::text::substring(url, i, i + 11)));
    }
    if crate::twitter::is_post_url_exec(&s) {
        return Ok(Service::Twitter(String::from_str(url)));
    }
    if crate::bluesky::is_post_url_exec(&s) {
        return Ok(Service::Bluesky(String::from_str(url)));
    }
    Err(RouteError::UnsupportedUrl(String::from_str(url)))
}

} // verus!
