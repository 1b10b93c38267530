use vstd::prelude::*;
use crate::json::{json_of, parse_json};
use crate::xml::xml_events;
use crate::youtube::{caption_error_text, caption_info, extract_caption_info_from_innertube,
    extract_innertube_key, innertube_body, innertube_headers, innertube_key_of, innertube_url,
    lines_trimmed, lines_view, opt_view, page_title, parse_transcript_xml, title_of, transcript_of,
    Transcript, TranscriptError, TranscriptErrorKind};

verus! {

// The decisions of a transcript fetch, one function per request: what the
// response of one request gives, the next request or the transcript, or
// the error text. The requests themselves are made by the program.

/// Why a request gave nothing, with the reason as text: it could not be
/// sent, or its response could not be read.
pub enum RequestFailure {
    Send(String),
    Read(String),
}

/// The error text of a failed request: `sent` or `read` by the way it
/// failed, then `: ` and the reason.
pub open spec fn failure_text(f: RequestFailure, sent: Seq<char>, read: Seq<char>) -> Seq<char> {
    match f {
        RequestFailure::Send(reason) => sent + ": "@ + reason@,
        RequestFailure::Read(reason) => read + ": "@ + reason@,
    }
}

pub(crate) fn failure_message(f: RequestFailure, sent: &str, read: &str) -> (r: String)
    ensures
        r@ == failure_text(f, sent@, read@),
{
    let (mut m, reason) = match f {
        RequestFailure::Send(reason) => (String::from_str(sent), reason),
        RequestFailure::Read(reason) => (String::from_str(read), reason),
    };
    m.append(": ");
    m.append(reason.as_str());
    proof {
        reveal_strlit(": ");
    }
    m
}

/// The Innertube player request, and the page title that it goes with.
pub struct PlayerRequest {
    pub title: String,
    pub url: String,
    pub body: String,
    pub headers: Vec<(String, String)>,
}

/// After the watch page: the player request for the page's Innertube key,
/// with the page's title (the video id where it has none).
pub fn player_request(video_id: &str, lang: Option<&str>, page: Result<String, RequestFailure>) -> (r:
    Result<PlayerRequest, String>)
    ensures
        match page {
            Err(f) => r matches Err(m) && m@ == failure_text(
                f,
                "Failed to fetch YouTube page"@,
                "Failed to read YouTube page"@,
            ),
            Ok(html) => match innertube_key_of(html@) {
                None => r matches Err(m) && m@ == "INNERTUBE_API_KEY not found in page"@,
                Some(key) => r matches Ok(req) && {
                    &&& req.title@ == match title_of(html@) {
                        Some(t) => t,
                        None => video_id@,
                    }
                    &&& req.url@ == "https://www.youtube.com/youtubei/v1/player?key="@ + key
                    &&& req.body@
                        == "{\"context\":{\"client\":{\"clientName\":\"ANDROID\",\"clientVersion\":\"20.10.38\"}},\"videoId\":\""@
                        + video_id@ + "\"}"@
                    &&& req.headers@.len() == if lang is Some { 2int } else { 1int }
                    &&& req.headers@[0].0@ == "Content-Type"@
                    &&& req.headers@[0].1@ == "application/json"@
                    &&& lang matches Some(l) ==> req.headers@[1].0@ == "Accept-Language"@
                        && req.headers@[1].1@ == l@
                },
            },
        },
{
    let html = match page {
        Ok(html) => html,
        Err(f) => return Err(failure_message(f, "Failed to fetch YouTube page", "Failed to read YouTube page")),
    };
    let key = match extract_innertube_key(html.as_str()) {
        Some(k) => k,
        None => return Err(String::from_str("INNERTUBE_API_KEY not found in page")),
    };
    Ok(PlayerRequest {
        title: page_title(html.as_str(), video_id),
        url: innertube_url(key.as_str()),
        body: innertube_body(video_id),
        headers: innertube_headers(lang),
    })
}

/// After the player response: from its JSON, the title and the URL of the
/// transcript XML.
pub fn caption_request(
    title: &str,
    lang: Option<&str>,
    response: Result<String, RequestFailure>,
) -> (r: Result<(String, String), String>)
    ensures
        match response {
            Err(f) => r matches Err(m) && m@ == failure_text(
                f,
                "Failed to call Innertube API"@,
                "Failed to read Innertube response"@,
            ),
            Ok(body) => match json_of(body@) {
                Err(e) => r matches Err(m) && m@ == "Failed to parse Innertube JSON: "@ + e,
                Ok(json) => match caption_info(json, title@, opt_view(lang)) {
                    Ok((t, u)) => r matches Ok((t2, u2)) && t2@ == t && u2@ == u,
                    Err(e) => r matches Err(m) && m@ == caption_error_text(e),
                },
            },
        },
{
    let body = match response {
        Ok(body) => body,
        Err(f) => return Err(
            failure_message(f, "Failed to call Innertube API", "Failed to read Innertube response"),
        ),
    };
    let json = match parse_json(body.as_str()) {
        Ok(json) => json,
        Err(reason) => {
            let mut m = String::from_str("Failed to parse Innertube JSON: ");
            m.append(reason.as_str());
            return Err(m);
        },
    };
    match extract_caption_info_from_innertube(&json, title, lang) {
        Ok(info) => Ok(info),
        Err(e) => Err(e.message()),
    }
}

/// Why a transcript fetch failed at its last step: a failed request, as
/// text, or transcript XML that could not be read.
pub enum FetchError {
    Message(String),
    Transcript(TranscriptError),
}

/// After the transcript XML: the transcript.
pub fn transcript_response(title: String, xml: Result<String, RequestFailure>) -> (r: Result<
    Transcript,
    FetchError,
>)
    ensures
        match xml {
            Err(f) => r matches Err(FetchError::Message(m)) && m@ == failure_text(
                f,
                "Failed to fetch transcript XML"@,
                "Failed to read transcript XML"@,
            ),
            Ok(x) => match r {
                Ok(t) => t.title@ == title@ && transcript_of(xml_events(x@)) == Ok::<_, TranscriptErrorKind>(
                    lines_view(t.lines@),
                ) && lines_trimmed(t.lines@),
                Err(FetchError::Transcript(e)) => transcript_of(xml_events(x@)) == Err::<
                    Seq<(Seq<char>, Seq<char>, Seq<char>)>,
                    _,
                >(e.kind()),
                Err(FetchError::Message(_)) => false,
            },
        },
{
    let x = match xml {
        Ok(x) => x,
        Err(f) => return Err(
            FetchError::Message(
                failure_message(f, "Failed to fetch transcript XML", "Failed to read transcript XML"),
            ),
        ),
    };
    match parse_transcript_xml(x.as_str()) {
        Ok(lines) => Ok(Transcript { title, lines }),
        Err(e) => Err(FetchError::Transcript(e)),
    }
}

} // verus!
