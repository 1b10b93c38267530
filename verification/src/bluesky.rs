use vstd::prelude::*;
use crate::charclass::{CharClass, is_ascii_alnum, run_end, run_end_exec};
use crate::text::{chars_of, first_some, has_lit_at, lit_at, replace_all, replace_str, substring};
use crate::twitter::{description_of, extract_content};
use crate::fetch::{RequestFailure, failure_message, failure_text};

verus! {

// The post URL pattern of `regex` notation
//   (?:https?://)?bsky\.app/profile/[^/]+/post/[A-Za-z0-9]+
// Its optional scheme never decides whether the rest matches, so a match
// exists exactly where `bsky\.app/profile/[^/]+/post/[A-Za-z0-9]` does.
// `[^/]+` can only end at the first `/` after the profile.

/// A Bluesky post URL begins at `p` (scheme aside).
pub open spec fn post_at(s: Seq<char>, p: int) -> bool {
    lit_at(s, p, "bsky.app/profile/"@) && {
        let b = p + 17;
        let f = run_end(s, b, CharClass::NotSlash);
        &&& b < f
        &&& lit_at(s, f, "/post/"@)
        &&& f + 6 < s.len()
        &&& is_ascii_alnum(s[f + 6])
    }
}

/// The pattern matches somewhere in `s`.
pub open spec fn is_post_url(s: Seq<char>) -> bool {
    exists|p: int| 0 <= p < s.len() && #[trigger] post_at(s, p)
}

fn post_at_exec(s: &Vec<char>, p: usize) -> (r: bool)
    requires
        p <= s@.len(),
    ensures
        r == post_at(s@, p as int),
{
    assert(s@.len() == s.len());
    let profile = chars_of("bsky.app/profile/");
    let post = chars_of("/post/");
    proof {
        reveal_strlit("bsky.app/profile/");
        reveal_strlit("/post/");
    }
    if !has_lit_at(s, p, &profile) {
        return false;
    }
    let b = p + 17;
    let f = run_end_exec(s, b, CharClass::NotSlash);
    if b < f && has_lit_at(s, f, &post) && f + 6 < s.len() {
        let c = s[f + 6];
        ('A' <= c && c <= 'Z') || ('a' <= c && c <= 'z') || ('0' <= c && c <= '9')
    } else {
        false
    }
}

/// Whether `s` holds a Bluesky post URL.
pub fn is_post_url_exec(s: &Vec<char>) -> (r: bool)
    ensures
        r == is_post_url(s@),
{
    let n = s.len();
    let mut p: usize = 0;
    while p < n
        invariant
            n == s@.len(),
            p <= n,
            forall|j: int| 0 <= j < p ==> !#[trigger] post_at(s@, j),
        decreases n - p,
    {
        if post_at_exec(s, p) {
            return true;
        }
        p = p + 1;
    }
    false
}

/// The profile (handle or DID) of a post URL beginning at `p`, as its
/// start and end.
pub open spec fn profile_at(s: Seq<char>, p: int) -> Option<(int, int)> {
    if post_at(s, p) {
        Some((p + 17, run_end(s, p + 17, CharClass::NotSlash)))
    } else {
        None
    }
}

pub open spec fn profile_matcher(s: Seq<char>) -> spec_fn(int) -> Option<(int, int)> {
    |p: int| profile_at(s, p)
}

/// The profile of the first post URL in `s`.
pub open spec fn profile_of(s: Seq<char>) -> Option<Seq<char>> {
    match first_some(0, s.len() as int, profile_matcher(s)) {
        Some((b, e)) => Some(s.subrange(b, e)),
        None => None,
    }
}

/// The profile (handle or DID) named in a Bluesky post URL:
/// `bsky.app/profile/<profile>/post/<id>`.
pub fn profile(url: &str) -> (r: Option<String>)
    ensures
        match r {
            Some(h) => profile_of(url@) == Some(h@),
            None => profile_of(url@) is None,
        },
{
    let s = chars_of(url);
    let n = s.len();
    let ghost m = profile_matcher(s@);
    let mut p: usize = 0;
    while p < n
        invariant
            n == s@.len(),
            p <= n,
            s@ == url@,
            m == profile_matcher(s@),
            first_some(0, n as int, m) == first_some(p as int, n as int, m),
        decreases n - p,
    {
        if post_at_exec(&s, p) {
            let f = run_end_exec(&s, p + 17, CharClass::NotSlash);
            return Some(substring(url, p + 17, f));
        }
        p = p + 1;
    }
    None
}

/// The `og:title` content of a meta tag beginning at `p`, as its start and
/// end: `<meta property="og:title" content="([^"]*)"`.
pub open spec fn title_tag_at(s: Seq<char>, p: int) -> Option<(int, int)> {
    if lit_at(s, p, "<meta property=\"og:title\" content=\""@) {
        let b = p + 35;
        let e = run_end(s, b, CharClass::NotQuote);
        if e < s.len() {
            Some((b, e))
        } else {
            None
        }
    } else {
        None
    }
}

pub open spec fn title_tag_matcher(s: Seq<char>) -> spec_fn(int) -> Option<(int, int)> {
    |p: int| title_tag_at(s, p)
}

/// The `og:title` content of the first such meta tag of a page.
pub open spec fn og_title_of(s: Seq<char>) -> Option<Seq<char>> {
    match first_some(0, s.len() as int, title_tag_matcher(s)) {
        Some((b, e)) => Some(s.subrange(b, e)),
        None => None,
    }
}

/// A handle written `(@<handle>)` beginning at `p`, as its start and end:
/// `\(@([^)]+)\)`.
pub open spec fn handle_at(t: Seq<char>, p: int) -> Option<(int, int)> {
    if lit_at(t, p, "(@"@) {
        let b = p + 2;
        let e = run_end(t, b, CharClass::NotCloseParen);
        if b < e < t.len() {
            Some((b, e))
        } else {
            None
        }
    } else {
        None
    }
}

pub open spec fn handle_matcher(t: Seq<char>) -> spec_fn(int) -> Option<(int, int)> {
    |p: int| handle_at(t, p)
}

/// The first handle written `(@<handle>)` in `t`.
pub open spec fn handle_of(t: Seq<char>) -> Option<Seq<char>> {
    match first_some(0, t.len() as int, handle_matcher(t)) {
        Some((b, e)) => Some(t.subrange(b, e)),
        None => None,
    }
}

/// The author handle that an FxEmbed page names in its title,
/// `<name> (@<handle>)`.
pub open spec fn page_handle(html: Seq<char>) -> Option<Seq<char>> {
    match og_title_of(html) {
        Some(t) => handle_of(t),
        None => None,
    }
}

/// The author of a post: the handle of the page, or, where the page names
/// none, the profile of the post URL.
pub open spec fn author_of(url: Seq<char>, html: Seq<char>) -> Option<Seq<char>> {
    match page_handle(html) {
        Some(h) => Some(h),
        None => profile_of(url),
    }
}

/// The `og:title` content of a page.
pub fn og_title(html: &str) -> (r: Option<String>)
    ensures
        match r {
            Some(t) => og_title_of(html@) == Some(t@),
            None => og_title_of(html@) is None,
        },
{
    let s = chars_of(html);
    let n = s.len();
    let tag = chars_of("<meta property=\"og:title\" content=\"");
    proof {
        reveal_strlit("<meta property=\"og:title\" content=\"");
    }
    let ghost m = title_tag_matcher(s@);
    let mut p: usize = 0;
    while p < n
        invariant
            n == s@.len(),
            p <= n,
            s@ == html@,
            tag@ == "<meta property=\"og:title\" content=\""@,
            tag@.len() == 35,
            m == title_tag_matcher(s@),
            first_some(0, n as int, m) == first_some(p as int, n as int, m),
        decreases n - p,
    {
        if has_lit_at(&s, p, &tag) {
            let e = run_end_exec(&s, p + 35, CharClass::NotQuote);
            if e < n {
                return Some(substring(html, p + 35, e));
            }
        }
        p = p + 1;
    }
    None
}

/// The first handle written `(@<handle>)` in a text.
pub fn handle_in(t: &str) -> (r: Option<String>)
    ensures
        match r {
            Some(h) => handle_of(t@) == Some(h@),
            None => handle_of(t@) is None,
        },
{
    let s = chars_of(t);
    let n = s.len();
    let open = chars_of("(@");
    proof {
        reveal_strlit("(@");
    }
    let ghost m = handle_matcher(s@);
    let mut p: usize = 0;
    while p < n
        invariant
            n == s@.len(),
            p <= n,
            s@ == t@,
            open@ == "(@"@,
            open@.len() == 2,
            m == handle_matcher(s@),
            first_some(0, n as int, m) == first_some(p as int, n as int, m),
        decreases n - p,
    {
        if has_lit_at(&s, p, &open) {
            let e = run_end_exec(&s, p + 2, CharClass::NotCloseParen);
            if p + 2 < e && e < n {
                return Some(substring(t, p + 2, e));
            }
        }
        p = p + 1;
    }
    None
}

/// A post as printed: `@<handle> on Bluesky:`, a blank line, then the text.
pub open spec fn post_message(handle: Seq<char>, text: Seq<char>) -> Seq<char> {
    seq!['@'] + handle + " on Bluesky:\n\n"@ + text
}

/// The post that an FxEmbed page shows for a Bluesky post URL: the author
/// (see [`author_of`]) and the page's `og:description` text. `None` when
/// the page has no description, or no author can be told.
pub fn post_content(url: &str, html: &str) -> (r: Option<String>)
    ensures
        match (author_of(url@, html@), description_of(html@)) {
            (Some(h), Some(t)) => r matches Some(m) && m@ == post_message(h, t),
            _ => r is None,
        },
{
    let text = match extract_content(html) {
        Some(t) => t,
        None => return None,
    };
    let from_page = match og_title(html) {
        Some(title) => handle_in(title.as_str()),
        None => None,
    };
    let handle = match from_page {
        Some(h) => h,
        None => match profile(url) {
            Some(h) => h,
            None => return None,
        },
    };
    let mut out = String::from_str("@");
    out.append(handle.as_str());
    out.append(" on Bluesky:\n\n");
    out.append(text.as_str());
    proof {
        reveal_strlit("@");
        reveal_strlit(" on Bluesky:\n\n");
        assert(out@ =~= post_message(handle@, text@));
    }
    Some(out)
}

/// After the request to the FxEmbed page `proxy_url` of the post `url`:
/// the post, or the error text.
pub fn post_from_response(url: &str, proxy_url: &str, response: Result<String, RequestFailure>) -> (r:
    Result<String, String>)
    ensures
        match response {
            Err(f) => r matches Err(m) && m@ == failure_text(
                f,
                "HTTP error fetching "@ + proxy_url@,
                "Failed to read response body"@,
            ),
            Ok(html) => match (author_of(url@, html@), description_of(html@)) {
                (Some(h), Some(t)) => r matches Ok(m) && m@ == post_message(h, t),
                _ => r matches Err(m) && m@ == "Could not extract post content from FxEmbed response"@,
            },
        },
{
    match response {
        Ok(html) => match post_content(url, html.as_str()) {
            Some(p) => Ok(p),
            None => Err(String::from_str("Could not extract post content from FxEmbed response")),
        },
        Err(f) => {
            let mut sent = String::from_str("HTTP error fetching ");
            sent.append(proxy_url);
            Err(failure_message(f, sent.as_str(), "Failed to read response body"))
        },
    }
}

/// Rewrite a Bluesky URL to its FxEmbed proxy equivalent.
///
/// `bsky.app` → `fxbsky.app`
pub fn rewrite_url(url: &str) -> (r: String)
    ensures
        r@ == replace_all(url@, "://bsky.app/"@, "://fxbsky.app/"@),
{
    proof {
        reveal_strlit("://bsky.app/");
    }
    replace_str(url, "://bsky.app/", "://fxbsky.app/")
}

} // verus!
