use vstd::prelude::*;
use crate::charclass::{CharClass, class_contains, in_class, run_end, run_end_exec};
use crate::json::{Json, as_str, index, json_of, parse_json};
use crate::fetch::{RequestFailure, failure_message, failure_text};
use crate::text::{substring, chars_of, first_some, has_lit_at, last_in, lemma_first_some_in,
    lemma_last_in_found, lit_at};

verus! {

// The post URL pattern of `regex` notation
//   (?:https?://)?(?:www\.)?(?:twitter\.com|x\.com)/(\w+)/status/(\d+)
// Its optional prefixes never decide whether or where the rest matches (no
// `twitter.com/` or `x.com/` can begin inside `https://www.`), so a match
// exists exactly where `(?:twitter\.com|x\.com)/\w+/status/\d+` matches, and
// the leftmost match holds the leftmost such core.

/// Where the user name starts, after `twitter.com/` or `x.com/` at `p`.
pub open spec fn host_end(s: Seq<char>, p: int) -> Option<int> {
    if lit_at(s, p, "twitter.com/"@) {
        Some(p + 12)
    } else if lit_at(s, p, "x.com/"@) {
        Some(p + 6)
    } else {
        None
    }
}

/// `/status/` at `e`, then a decimal digit.
pub open spec fn status_at(s: Seq<char>) -> spec_fn(int) -> bool {
    |e: int| lit_at(s, e, "/status/"@) && e + 8 < s.len() && in_class(CharClass::Digit, s[e + 8])
}

/// The end of the user name that `\w+`, backing off from the longest run of
/// word characters at `q`, leaves for `/status/\d`.
pub open spec fn user_end(s: Seq<char>, q: int) -> Option<int> {
    last_in(q + 1, run_end(s, q, CharClass::Word) + 1, status_at(s))
}

/// Start and end of the user name in a match of the core at `p`.
pub open spec fn post_match_at(s: Seq<char>, p: int) -> Option<(int, int)> {
    match host_end(s, p) {
        Some(q) => match user_end(s, q) {
            Some(e) => Some((q, e)),
            None => None,
        },
        None => None,
    }
}

pub open spec fn post_matcher(s: Seq<char>) -> spec_fn(int) -> Option<(int, int)> {
    |p: int| post_match_at(s, p)
}

/// The pattern matches somewhere in `s`.
pub open spec fn is_post_url(s: Seq<char>) -> bool {
    exists|p: int| 0 <= p < s.len() && (#[trigger] post_match_at(s, p)) is Some
}

/// The user name and the post id that the leftmost match captures.
pub open spec fn post_parts(s: Seq<char>) -> Option<(Seq<char>, Seq<char>)> {
    match first_some(0, s.len() as int, post_matcher(s)) {
        Some((q, e)) => Some(
            (s.subrange(q, e), s.subrange(e + 8, run_end(s, e + 8, CharClass::Digit))),
        ),
        None => None,
    }
}

/// The fxtwitter JSON API URL for the post that `s` names.
pub open spec fn api_url_of(s: Seq<char>) -> Option<Seq<char>> {
    match post_parts(s) {
        Some((user, id)) => Some("https://api.fxtwitter.com/"@ + user + "/status/"@ + id),
        None => None,
    }
}

proof fn lemma_post_match_at_valid(s: Seq<char>, p: int)
    ensures
        post_match_at(s, p) matches Some((q, e)) ==> {
            &&& 0 <= q < e
            &&& e + 8 < s.len()
            &&& lit_at(s, e, "/status/"@)
            &&& in_class(CharClass::Digit, s[e + 8])
        },
{
    reveal_strlit("/status/");
    if let Some(q) = host_end(s, p) {
        lemma_last_in_found(q + 1, run_end(s, q, CharClass::Word) + 1, status_at(s));
    }
}

/// A match is found by the leftmost search exactly when it exists.
pub proof fn lemma_post_parts_iff_match(s: Seq<char>)
    ensures
        post_parts(s) is Some <==> is_post_url(s),
{
    lemma_first_some_in(0, s.len() as int, post_matcher(s));
    if is_post_url(s) {
        let p = choose|p: int| 0 <= p < s.len() && (#[trigger] post_match_at(s, p)) is Some;
        assert(post_matcher(s)(p) is Some);
    }
    if post_parts(s) is Some {
        let v = first_some(0, s.len() as int, post_matcher(s))->0;
        let p = choose|p: int| 0 <= p < s.len() && #[trigger] post_matcher(s)(p) == Some(v);
        assert(post_match_at(s, p) is Some);
    }
}

fn post_match_at_exec(s: &Vec<char>, p: usize) -> (r: Option<(usize, usize)>)
    requires
        p <= s@.len(),
    ensures
        match r {
            Some((q, e)) => post_match_at(s@, p as int) == Some((q as int, e as int)),
            None => post_match_at(s@, p as int) is None,
        },
{
    assert(s@.len() == s.len());
    let long = chars_of("twitter.com/");
    let short = chars_of("x.com/");
    let status = chars_of("/status/");
    proof {
        reveal_strlit("twitter.com/");
        reveal_strlit("x.com/");
        reveal_strlit("/status/");
    }
    let q = if has_lit_at(s, p, &long) {
        p + 12
    } else if has_lit_at(s, p, &short) {
        p + 6
    } else {
        return None;
    };
    let w = run_end_exec(s, q, CharClass::Word);
    let ghost pred = status_at(s@);
    let mut best: Option<usize> = None;
    let mut k = q;
    while k < w
        invariant
            q <= k <= w,
            w <= s@.len(),
            s@.len() == s.len(),
            status@ == "/status/"@,
            status@.len() == 8,
            pred == status_at(s@),
            match best {
                Some(x) => last_in(q + 1, k + 1, pred) == Some(x as int),
                None => last_in(q + 1, k + 1, pred) is None,
            },
        decreases w - k,
    {
        let e = k + 1;
        if has_lit_at(s, e, &status) && e + 8 < s.len() && class_contains(
            &CharClass::Digit,
            s[e + 8],
        ) {
            best = Some(e);
        }
        k = k + 1;
    }
    match best {
        Some(x) => Some((q, x)),
        None => None,
    }
}

/// Start and end of the user name in the leftmost match.
fn post_match_exec(s: &Vec<char>) -> (r: Option<(usize, usize)>)
    ensures
        match r {
            Some((q, e)) => {
                &&& first_some(0, s@.len() as int, post_matcher(s@)) == Some((q as int, e as int))
                &&& q < e
                &&& e + 8 < s@.len()
                &&& lit_at(s@, e as int, "/status/"@)
            },
            None => first_some(0, s@.len() as int, post_matcher(s@)) is None,
        },
{
    let n = s.len();
    let ghost m = post_matcher(s@);
    let mut p: usize = 0;
    while p < n
        invariant
            n == s@.len(),
            p <= n,
            m == post_matcher(s@),
            first_some(0, n as int, m) == first_some(p as int, n as int, m),
        decreases n - p,
    {
        let found = post_match_at_exec(s, p);
        if found.is_some() {
            proof {
                lemma_post_match_at_valid(s@, p as int);
            }
            return found;
        }
        p = p + 1;
    }
    None
}

/// Whether `s` holds a Twitter / X post URL.
pub fn is_post_url_exec(s: &Vec<char>) -> (r: bool)
    ensures
        r == is_post_url(s@),
{
    proof {
        lemma_post_parts_iff_match(s@);
    }
    post_match_exec(s).is_some()
}

/// Build the fxtwitter JSON API URL from a Twitter / X post URL.
pub fn api_url(url: &str) -> (r: Option<String>)
    ensures
        match r {
            Some(u) => api_url_of(url@) == Some(u@),
            None => api_url_of(url@) is None,
        },
{
    let s = chars_of(url);
    assert(s@.len() == s.len());
    match post_match_exec(&s) {
        Some((q, e)) => {
            let d = run_end_exec(&s, e + 8, CharClass::Digit);
            let mut out = String::from_str("https://api.fxtwitter.com/");
            out.append(url.substring_char(q, e));
            out.append("/status/");
            out.append(url.substring_char(e + 8, d));
            Some(out)
        },
        None => None,
    }
}

/// `tweet.text` of an fxtwitter API response.
pub open spec fn post_text(v: Json) -> Option<Seq<char>> {
    as_str(index(index(v, "tweet"@), "text"@))
}

/// `tweet.author.screen_name` of an fxtwitter API response, `unknown` when
/// it has none.
pub open spec fn post_author(v: Json) -> Seq<char> {
    match as_str(index(index(index(v, "tweet"@), "author"@), "screen_name"@)) {
        Some(name) => name,
        None => "unknown"@,
    }
}

/// The post as text: `@author:`, a blank line, then the post text.
pub open spec fn post_content(v: Json) -> Option<Seq<char>> {
    match post_text(v) {
        Some(text) => Some("@"@ + post_author(v) + ":\n\n"@ + text),
        None => None,
    }
}

/// Format an fxtwitter API response as `@author:\n\ntext`; `None` when the
/// response has no post text.
pub fn format_post(response: &Json) -> (r: Option<String>)
    ensures
        match r {
            Some(t) => post_content(*response) == Some(t@),
            None => post_content(*response) is None,
        },
{
    let tweet = response.get("tweet");
    let text = match tweet {
        Some(t) => match t.get("text") {
            Some(v) => v.as_str(),
            None => None,
        },
        None => None,
    };
    let text = match text {
        Some(t) => t,
        None => return None,
    };
    let author = match tweet {
        Some(t) => match t.get("author") {
            Some(a) => match a.get("screen_name") {
                Some(v) => v.as_str(),
                None => None,
            },
            None => None,
        },
        None => None,
    };
    let mut out = String::from_str("@");
    match author {
        Some(a) => out.append(a.as_str()),
        None => out.append("unknown"),
    }
    out.append(":\n\n");
    out.append(text.as_str());
    Some(out)
}

/// The fxtwitter API URL of a post URL, or the error text when the URL
/// names no post.
pub fn post_api_url(url: &str) -> (r: Result<String, String>)
    ensures
        match api_url_of(url@) {
            Some(a) => r matches Ok(u) && u@ == a,
            None => r matches Err(m) && m@ == "Could not parse Twitter URL: "@ + url@,
        },
{
    match api_url(url) {
        Some(u) => Ok(u),
        None => {
            let mut m = String::from_str("Could not parse Twitter URL: ");
            m.append(url);
            Err(m)
        },
    }
}

/// The post that a body of the fxtwitter API holds: its JSON read by
/// `serde_json`, then formatted; the parse error, or the want of a post
/// text, as the error text.
pub fn post_from_body(body: &str) -> (r: Result<String, String>)
    ensures
        match json_of(body@) {
            Err(e) => r matches Err(m) && m@ == e,
            Ok(v) => match post_content(v) {
                Some(t) => r matches Ok(p) && p@ == t,
                None => r matches Err(m) && m@ == "No text field in fxtwitter response"@,
            },
        },
{
    let json = match parse_json(body) {
        Ok(v) => v,
        Err(reason) => return Err(reason),
    };
    match format_post(&json) {
        Some(p) => Ok(p),
        None => Err(String::from_str("No text field in fxtwitter response")),
    }
}

/// After the request to the API URL `api`: the post, or the error text.
pub fn post_from_response(api: &str, response: Result<String, RequestFailure>) -> (r: Result<String, String>)
    ensures
        match response {
            Err(f) => r matches Err(m) && m@ == failure_text(
                f,
                "HTTP error fetching "@ + api@,
                "Failed to read response body"@,
            ),
            Ok(body) => match json_of(body@) {
                Err(e) => r matches Err(m) && m@ == e,
                Ok(v) => match post_content(v) {
                    Some(t) => r matches Ok(p) && p@ == t,
                    None => r matches Err(m) && m@ == "No text field in fxtwitter response"@,
                },
            },
        },
{
    match response {
        Ok(body) => post_from_body(body.as_str()),
        Err(f) => {
            let mut sent = String::from_str("HTTP error fetching ");
            sent.append(api);
            Err(failure_message(f, sent.as_str(), "Failed to read response body"))
        },
    }
}

// The post text of an FxEmbed page: the `og:description` meta tag, found as
// `<meta property="og:description" content="([^"]*)"`.

/// The content that a meta tag beginning at `p` holds, as its start and end.
pub open spec fn description_at(s: Seq<char>, p: int) -> Option<(int, int)> {
    if lit_at(s, p, "<meta property=\"og:description\" content=\""@) {
        let b = p + 41;
        let e = run_end(s, b, CharClass::NotQuote);
        if e < s.len() {
            Some((b, e))
        } else {
            None
        }
    } else {
        None
    }
}

pub open spec fn description_matcher(s: Seq<char>) -> spec_fn(int) -> Option<(int, int)> {
    |p: int| description_at(s, p)
}

/// The `og:description` content of the first such meta tag.
pub open spec fn description_of(s: Seq<char>) -> Option<Seq<char>> {
    match first_some(0, s.len() as int, description_matcher(s)) {
        Some((b, e)) => Some(s.subrange(b, e)),
        None => None,
    }
}

fn description_at_exec(s: &Vec<char>, p: usize) -> (r: Option<(usize, usize)>)
    requires
        p <= s@.len(),
    ensures
        match r {
            Some((b, e)) => description_at(s@, p as int) == Some((b as int, e as int)) && b <= e
                <= s@.len(),
            None => description_at(s@, p as int) is None,
        },
{
    assert(s@.len() == s.len());
    let tag = chars_of("<meta property=\"og:description\" content=\"");
    proof {
        reveal_strlit("<meta property=\"og:description\" content=\"");
    }
    if !has_lit_at(s, p, &tag) {
        return None;
    }
    let b = p + 41;
    let e = run_end_exec(s, b, CharClass::NotQuote);
    if e < s.len() {
        Some((b, e))
    } else {
        None
    }
}

/// Extract the post text that an FxEmbed page puts in its `og:description`
/// meta tag.
pub fn extract_content(html: &str) -> (r: Option<String>)
    ensures
        match r {
            Some(t) => description_of(html@) == Some(t@),
            None => description_of(html@) is None,
        },
{
    let s = chars_of(html);
    let n = s.len();
    let ghost m = description_matcher(s@);
    let mut p: usize = 0;
    while p < n
        invariant
            n == s@.len(),
            p <= n,
            s@ == html@,
            m == description_matcher(s@),
            first_some(0, n as int, m) == first_some(p as int, n as int, m),
        decreases n - p,
    {
        if let Some((b, e)) = description_at_exec(&s, p) {
            return Some(substring(html, b, e));
        }
        p = p + 1;
    }
    None
}

} // verus!
