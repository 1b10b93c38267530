use vstd::prelude::*;
use crate::charclass::{CharClass, all_in_class, in_class, run_end, lemma_run_end};
use crate::json::Json;
use crate::router::{ServiceView, service_of};
use crate::text::{contains, first_some, lemma_first_some_first, lemma_first_some_in,
    lemma_replace_all_absent, lemma_replace_all_first, lemma_replace_all_removes,
    lemma_replace_all_undone, replace_all};
use crate::twitter::{api_url_of, host_end, is_post_url, lemma_post_parts_iff_match, post_match_at,
    post_matcher, post_parts, status_at, user_end};
use crate::text::{last_in, lit_at};
use crate::text::{decimal, digit_char};
use crate::youtube::{two_digits, nested_path_id, short_path_id, query_id, video_id_at, video_id_matcher,
    slash_before_id, query_before_id, chosen_track, id_at, language_code, lemma_video_id_start_valid,
    plain_caption_url, track_matcher, video_id_of, video_id_start};

verus! {

/// `route` finds a YouTube video exactly when `extract_video_id` finds an
/// id, and then with that same id.
pub proof fn law_route_youtube_is_extract_video_id(url: Seq<char>, id: Seq<char>)
    ensures
        (service_of(url) == Some(ServiceView::YouTube(id))) == (video_id_of(url) == Some(id)),
{
}

/// A video id is eleven characters, none of them `&`, `?`, `/` or white space.
pub proof fn law_video_id_is_eleven_id_chars(url: Seq<char>)
    ensures
        video_id_of(url) matches Some(id) ==> id.len() == 11 && all_in_class(
            id,
            0,
            11,
            CharClass::VideoIdChar,
        ),
{
    lemma_video_id_start_valid(url);
    if let Some(i) = video_id_start(url) {
        let id = url.subrange(i, i + 11);
        assert forall|k: int| 0 <= k < 11 implies #[trigger] in_class(
            CharClass::VideoIdChar,
            id[k],
        ) by {
            assert(id[k] == url[i + k]);
            assert(in_class(CharClass::VideoIdChar, url[i + k]));
        }
    }
}

/// The router's Twitter / X pattern and the API URL builder's agree: a URL
/// that the router sends to Twitter / X has an API URL, and a URL has one
/// exactly when the post pattern matches it.
pub proof fn law_twitter_route_has_api_url(url: Seq<char>)
    ensures
        is_post_url(url) <==> api_url_of(url) is Some,
        service_of(url) == Some(ServiceView::Twitter(url)) ==> api_url_of(url) is Some,
{
    lemma_post_parts_iff_match(url);
}

/// An API URL is `https://api.fxtwitter.com/<user>/status/<id>`, the user a
/// non-empty run of word characters and the id a non-empty run of digits,
/// both taken from the URL.
pub proof fn law_api_url_shape(url: Seq<char>)
    ensures
        api_url_of(url) matches Some(api) ==> exists|user: Seq<char>, id: Seq<char>|
            {
                &&& api == "https://api.fxtwitter.com/"@ + user + "/status/"@ + id
                &&& user.len() > 0
                &&& all_in_class(user, 0, user.len() as int, CharClass::Word)
                &&& id.len() > 0
                &&& all_in_class(id, 0, id.len() as int, CharClass::Digit)
                &&& #[trigger] post_parts(url) == Some((user, id))
            },
{
    lemma_first_some_in(0, url.len() as int, post_matcher(url));
    if let Some((q, e)) = first_some(0, url.len() as int, post_matcher(url)) {
        let p = choose|p: int| 0 <= p < url.len() && #[trigger] post_matcher(url)(p) == Some((q, e));
        assert(post_match_at(url, p) == Some((q, e)));
        reveal_strlit("twitter.com/");
        reveal_strlit("x.com/");
        reveal_strlit("/status/");
        let w = run_end(url, q, CharClass::Word);
        crate::text::lemma_last_in_found(q + 1, w + 1, crate::twitter::status_at(url));
        lemma_run_end(url, q, CharClass::Word);
        lemma_run_end(url, e + 8, CharClass::Digit);
        let user = url.subrange(q, e);
        let d = run_end(url, e + 8, CharClass::Digit);
        let id = url.subrange(e + 8, d);
        assert forall|k: int| 0 <= k < user.len() implies #[trigger] in_class(
            CharClass::Word,
            user[k],
        ) by {
            assert(user[k] == url[q + k]);
            assert(in_class(CharClass::Word, url[q + k]));
        }
        assert(d > e + 8) by {
            if d == e + 8 {
                assert(in_class(CharClass::Digit, url[e + 8]));
            }
        }
        assert forall|k: int| 0 <= k < id.len() implies #[trigger] in_class(
            CharClass::Digit,
            id[k],
        ) by {
            assert(id[k] == url[e + 8 + k]);
            assert(in_class(CharClass::Digit, url[e + 8 + k]));
        }
        assert(post_parts(url) == Some((user, id)));
    }
}

/// A run of `class` from `i` that stops at `e` (at the end, or before a
/// character outside the class) ends at `e`.
proof fn lemma_run_end_at(s: Seq<char>, i: int, e: int, class: CharClass)
    requires
        0 <= i <= e <= s.len(),
        all_in_class(s, i, e, class),
        e < s.len() ==> !in_class(class, s[e]),
    ensures
        run_end(s, i, class) == e,
{
    lemma_run_end(s, i, class);
    let r = run_end(s, i, class);
    if r < e {
        assert(in_class(class, s[r]));
    } else if r > e {
        assert(in_class(class, s[e]));
    }
}

/// An fxtwitter API URL is its own API URL: in
/// `https://api.fxtwitter.com/<user>/status/<id>` the post pattern finds
/// `twitter.com/<user>/status/<id>`, with the same user and id.
pub proof fn law_api_url_is_fixed_point(url: Seq<char>)
    ensures
        api_url_of(url) matches Some(api) ==> api_url_of(api) == Some(api),
{
    law_api_url_shape(url);
    if let Some(a) = api_url_of(url) {
        let (user, id) = post_parts(url)->0;
        let pre = "https://api.fxtwitter.com/"@;
        let st = "/status/"@;
        reveal_strlit("https://api.fxtwitter.com/");
        reveal_strlit("/status/");
        reveal_strlit("twitter.com/");
        reveal_strlit("x.com/");
        assert(a == pre + user + st + id);
        assert(user.len() > 0 && all_in_class(user, 0, user.len() as int, CharClass::Word));
        assert(id.len() > 0 && all_in_class(id, 0, id.len() as int, CharClass::Digit));
        let e: int = 26 + user.len() as int;
        let n = a.len() as int;
        assert(n == e + 8 + id.len());
        // Nothing of the pattern begins before `twitter.com/`.
        assert forall|p: int| 0 <= p < 14 implies (#[trigger] post_matcher(a)(p)) is None by {
            assert(a[p] == pre[p]);
            assert(a[p + 1] == pre[p + 1]);
            if lit_at(a, p, "twitter.com/"@) {
                assert(a.subrange(p, p + 12)[1] == a[p + 1]);
            }
            if lit_at(a, p, "x.com/"@) {
                assert(a.subrange(p, p + 6)[0] == a[p]);
                assert(a.subrange(p, p + 6)[1] == a[p + 1]);
            }
        }
        // At 14: the user runs to the `/` before `status/`.
        assert(a.subrange(14, 26) =~= "twitter.com/"@);
        assert(host_end(a, 14) == Some(26int));
        assert forall|k: int| 26 <= k < e implies #[trigger] in_class(CharClass::Word, a[k]) by {
            assert(a[k] == user[k - 26]);
            assert(in_class(CharClass::Word, user[k - 26]));
        }
        assert(a[e] == '/');
        lemma_run_end_at(a, 26, e, CharClass::Word);
        assert(a.subrange(e, e + 8) =~= st);
        assert(a[e + 8] == id[0]);
        assert(status_at(a)(e));
        assert(user_end(a, 26) == Some(e));
        assert(post_match_at(a, 14) == Some((26int, e)));
        lemma_first_some_skip(0, 14, n, post_matcher(a));
        // The id runs to the end.
        assert forall|k: int| e + 8 <= k < n implies #[trigger] in_class(CharClass::Digit, a[k]) by {
            assert(a[k] == id[k - e - 8]);
            assert(in_class(CharClass::Digit, id[k - e - 8]));
        }
        lemma_run_end_at(a, e + 8, n, CharClass::Digit);
        assert(a.subrange(26, e) =~= user);
        assert(a.subrange(e + 8, n) =~= id);
        assert(post_parts(a) == Some((user, id)));
    }
}

/// A URL without `://bsky.app/` is left as it is by the Bluesky rewrite.
pub proof fn law_rewrite_keeps_other_urls(url: Seq<char>)
    requires
        !contains(url, "://bsky.app/"@),
    ensures
        replace_all(url, "://bsky.app/"@, "://fxbsky.app/"@) == url,
{
    lemma_replace_all_absent(url, "://bsky.app/"@, "://fxbsky.app/"@);
}

/// A Bluesky URL `<scheme>://bsky.app/<path>` becomes
/// `<scheme>://fxbsky.app/<path>`: the host changes and nothing else.
pub proof fn law_rewrite_bsky_host(scheme: Seq<char>, path: Seq<char>)
    requires
        !contains(scheme, "://bsky.app/"@),
        !contains(path, "://bsky.app/"@),
    ensures
        replace_all(scheme + "://bsky.app/"@ + path, "://bsky.app/"@, "://fxbsky.app/"@) == scheme
            + "://fxbsky.app/"@ + path,
{
    reveal_strlit("://bsky.app/");
    let from = "://bsky.app/"@;
    assert forall|j: int| 0 < j < from.len() implies #[trigger] from[j] != from[0] by {}
    lemma_replace_all_first(scheme, path, from, "://fxbsky.app/"@);
    lemma_replace_all_absent(path, from, "://fxbsky.app/"@);
}

/// The Bluesky rewrite leaves no `://bsky.app/` behind, so rewriting a
/// rewritten URL changes nothing.
pub proof fn law_rewrite_is_idempotent(url: Seq<char>)
    ensures
        !contains(replace_all(url, "://bsky.app/"@, "://fxbsky.app/"@), "://bsky.app/"@),
        replace_all(replace_all(url, "://bsky.app/"@, "://fxbsky.app/"@), "://bsky.app/"@, "://fxbsky.app/"@)
            == replace_all(url, "://bsky.app/"@, "://fxbsky.app/"@),
{
    reveal_strlit("://bsky.app/");
    reveal_strlit("://fxbsky.app/");
    let from = "://bsky.app/"@;
    let to = "://fxbsky.app/"@;
    assert(to.take(12)[3] != from[3]);
    assert forall|j: int| 1 <= j < to.len() implies #[trigger] to[j] != from[0] by {}
    assert forall|j: int| 1 <= j < from.len() implies #[trigger] from[j] != to[0] by {}
    lemma_replace_all_removes(url, from, to);
    lemma_replace_all_absent(replace_all(url, from, to), from, to);
}

/// Replacing `://fxbsky.app/` back by `://bsky.app/` in a rewritten URL
/// gives the URL again, when it held no `://fxbsky.app/` of its own.
pub proof fn law_rewrite_is_undone(url: Seq<char>)
    requires
        !contains(url, "://fxbsky.app/"@),
    ensures
        replace_all(replace_all(url, "://bsky.app/"@, "://fxbsky.app/"@), "://fxbsky.app/"@, "://bsky.app/"@)
            == url,
{
    reveal_strlit("://bsky.app/");
    reveal_strlit("://fxbsky.app/");
    let to = "://fxbsky.app/"@;
    assert forall|j: int| 1 <= j < to.len() implies #[trigger] to[j] != to[0] by {}
    lemma_replace_all_undone(url, "://bsky.app/"@, to);
}

/// A caption URL that ends in `&fmt=srv3`, and has it nowhere else, loses
/// that suffix; one without it is kept as it is.
pub proof fn law_caption_url_strips_srv3(base: Seq<char>, rest: Seq<char>)
    requires
        !contains(base, "&fmt=srv3"@),
        !contains(rest, "&fmt=srv3"@),
    ensures
        plain_caption_url(base + "&fmt=srv3"@ + rest) == base + rest,
        plain_caption_url(base) == base,
{
    reveal_strlit("&fmt=srv3");
    reveal_strlit("");
    let from = "&fmt=srv3"@;
    assert forall|j: int| 0 < j < from.len() implies #[trigger] from[j] != from[0] by {}
    lemma_replace_all_first(base, rest, from, ""@);
    lemma_replace_all_absent(rest, from, ""@);
    lemma_replace_all_absent(base, from, ""@);
    assert(base + ""@ + rest =~= base + rest);
}

/// With a language asked for, the track chosen is the first one in that
/// language; when none is, no track is chosen.
pub proof fn law_chosen_track_is_first_in_language(tracks: Seq<Json>, lang: Seq<char>)
    ensures
        chosen_track(tracks, Some(lang)) matches Some(t) ==> exists|i: int|
            0 <= i < tracks.len() && tracks[i] == t && language_code(t) == Some(lang) && forall|
                j: int,
            | 0 <= j < i ==> language_code(#[trigger] tracks[j]) != Some(lang),
        chosen_track(tracks, Some(lang)) is None ==> forall|i: int|
            0 <= i < tracks.len() ==> language_code(#[trigger] tracks[i]) != Some(lang),
{
    let m = track_matcher(tracks, lang);
    lemma_first_some_first(0, tracks.len() as int, m);
    lemma_first_some_in(0, tracks.len() as int, m);
    if let Some(t) = chosen_track(tracks, Some(lang)) {
        let i = choose|i: int|
            0 <= i < tracks.len() && #[trigger] m(i) == Some(t) && forall|j: int|
                0 <= j < i ==> (#[trigger] m(j)) is None;
        assert forall|j: int| 0 <= j < i implies language_code(#[trigger] tracks[j]) != Some(
            lang,
        ) by {
            assert(m(j) is None);
        }
    } else {
        assert forall|i: int| 0 <= i < tracks.len() implies language_code(
            #[trigger] tracks[i],
        ) != Some(lang) by {
            assert(m(i) is None);
        }
    }
}

// ── Where the URL patterns may start ─────────────────────────────────────

/// One of the URL patterns (YouTube, Twitter / X, Bluesky) can begin at `p`.
pub open spec fn starts_a_pattern(s: Seq<char>, p: int) -> bool {
    ||| lit_at(s, p, "youtube.com/"@)
    ||| lit_at(s, p, "youtu.be/"@)
    ||| lit_at(s, p, "twitter.com/"@)
    ||| lit_at(s, p, "x.com/"@)
    ||| lit_at(s, p, "bsky.app/profile/"@)
}

/// `a` and `b` go to the same service, and to the same video for YouTube.
pub open spec fn same_route(a: Seq<char>, b: Seq<char>) -> bool {
    match (service_of(a), service_of(b)) {
        (None, None) => true,
        (Some(ServiceView::YouTube(x)), Some(ServiceView::YouTube(y))) => x == y,
        (Some(ServiceView::Twitter(_)), Some(ServiceView::Twitter(_))) => true,
        (Some(ServiceView::Bluesky(_)), Some(ServiceView::Bluesky(_))) => true,
        _ => false,
    }
}

pub open spec fn shifted(o: Option<int>, k: int) -> Option<int> {
    match o {
        Some(x) => Some(x + k),
        None => None,
    }
}

proof fn lemma_lit_shift(w: Seq<char>, u: Seq<char>, i: int, t: Seq<char>)
    requires
        0 <= i,
    ensures
        lit_at(w + u, w.len() + i, t) == lit_at(u, i, t),
{
    let s = w + u;
    let k = w.len() as int;
    if i + t.len() <= u.len() {
        assert(s.subrange(k + i, k + i + t.len()) =~= u.subrange(i, i + t.len()));
    }
}

proof fn lemma_run_end_shift(w: Seq<char>, u: Seq<char>, i: int, c: CharClass)
    requires
        0 <= i <= u.len(),
    ensures
        run_end(w + u, w.len() + i, c) == w.len() + run_end(u, i, c),
    decreases u.len() - i,
{
    let s = w + u;
    let k = w.len() as int;
    if i < u.len() {
        assert(s[k + i] == u[i]);
        if in_class(c, u[i]) {
            lemma_run_end_shift(w, u, i + 1, c);
        }
    }
}

proof fn lemma_id_at_shift(w: Seq<char>, u: Seq<char>, i: int)
    requires
        0 <= i,
    ensures
        id_at(w + u, w.len() + i) == id_at(u, i),
{
    let s = w + u;
    let k = w.len() as int;
    if i + 11 <= u.len() {
        if id_at(u, i) {
            assert forall|j: int| k + i <= j < k + i + 11 implies #[trigger] in_class(
                CharClass::VideoIdChar,
                s[j],
            ) by {
                assert(s[j] == u[j - k]);
                assert(in_class(CharClass::VideoIdChar, u[j - k]));
            }
        }
        if id_at(s, k + i) {
            assert forall|j: int| i <= j < i + 11 implies #[trigger] in_class(
                CharClass::VideoIdChar,
                u[j],
            ) by {
                assert(s[k + j] == u[j]);
                assert(in_class(CharClass::VideoIdChar, s[k + j]));
            }
        }
    }
}

proof fn lemma_last_in_shift(
    lo: int,
    hi: int,
    k: int,
    p: spec_fn(int) -> bool,
    q: spec_fn(int) -> bool,
)
    requires
        forall|x: int| lo <= x < hi ==> p(k + x) == #[trigger] q(x),
    ensures
        last_in(k + lo, k + hi, p) == shifted(last_in(lo, hi, q), k),
    decreases hi - lo,
{
    if hi > lo {
        assert(p(k + (hi - 1)) == q(hi - 1));
        assert(k + hi - 1 == k + (hi - 1));
        if !q(hi - 1) {
            lemma_last_in_shift(lo, hi - 1, k, p, q);
        }
    }
}

proof fn lemma_video_id_at_shift(w: Seq<char>, u: Seq<char>, p: int)
    requires
        0 <= p <= u.len(),
    ensures
        video_id_at(w + u, w.len() + p) == shifted(video_id_at(u, p), w.len() as int),
{
    let s = w + u;
    let k = w.len() as int;
    reveal_strlit("youtube.com/");
    reveal_strlit("youtu.be/");
    lemma_lit_shift(w, u, p, "youtube.com/"@);
    lemma_lit_shift(w, u, p, "youtu.be/"@);
    lemma_id_at_shift(w, u, p + 9);
    if lit_at(u, p, "youtube.com/"@) {
        let b = p + 12;
        // [^/]+/.+/
        lemma_run_end_shift(w, u, b, CharClass::NotSlash);
        lemma_run_end(u, b, CharClass::NotSlash);
        let f = run_end(u, b, CharClass::NotSlash);
        if b < f < u.len() {
            lemma_run_end_shift(w, u, f + 1, CharClass::NotNewline);
            lemma_run_end(u, f + 1, CharClass::NotNewline);
            let nl = run_end(u, f + 1, CharClass::NotNewline);
            assert forall|x: int| f + 2 <= x < nl implies slash_before_id(s)(k + x)
                == #[trigger] slash_before_id(u)(x) by {
                assert(s[k + x] == u[x]);
                lemma_id_at_shift(w, u, x + 1);
                assert(k + x + 1 == k + (x + 1));
            }
            lemma_last_in_shift(f + 2, nl, k, slash_before_id(s), slash_before_id(u));
            assert(nested_path_id(s, k + b) == shifted(nested_path_id(u, b), k));
        } else {
            assert(nested_path_id(s, k + b) == shifted(nested_path_id(u, b), k));
        }
        // v/, embed/, e/
        reveal_strlit("v/");
        reveal_strlit("embed/");
        reveal_strlit("e/");
        lemma_lit_shift(w, u, b, "v/"@);
        lemma_lit_shift(w, u, b, "embed/"@);
        lemma_lit_shift(w, u, b, "e/"@);
        lemma_id_at_shift(w, u, b + 2);
        lemma_id_at_shift(w, u, b + 6);
        assert(k + b + 2 == k + (b + 2));
        assert(k + b + 6 == k + (b + 6));
        assert(short_path_id(s, k + b) == shifted(short_path_id(u, b), k));
        // .*[?&]v=
        lemma_run_end_shift(w, u, b, CharClass::NotNewline);
        lemma_run_end(u, b, CharClass::NotNewline);
        let nl = run_end(u, b, CharClass::NotNewline);
        assert forall|x: int| b <= x < nl implies query_before_id(s)(k + x)
            == #[trigger] query_before_id(u)(x) by {
            assert(s[k + x] == u[x]);
            lemma_lit_shift(w, u, x + 1, "v="@);
            lemma_id_at_shift(w, u, x + 3);
            assert(k + x + 1 == k + (x + 1));
            assert(k + x + 3 == k + (x + 3));
        }
        lemma_last_in_shift(b, nl, k, query_before_id(s), query_before_id(u));
        assert(query_id(s, k + b) == shifted(query_id(u, b), k));
        assert(k + p + 12 == k + b);
    } else {
        assert(k + p + 9 == k + (p + 9));
    }
}

proof fn lemma_first_some_skip<T>(lo: int, k: int, hi: int, m: spec_fn(int) -> Option<T>)
    requires
        lo <= k <= hi,
        forall|j: int| lo <= j < k ==> (#[trigger] m(j)) is None,
    ensures
        first_some(lo, hi, m) == first_some(k, hi, m),
    decreases k - lo,
{
    if lo < k {
        assert(m(lo) is None);
        lemma_first_some_skip(lo + 1, k, hi, m);
    }
}

proof fn lemma_first_some_shift(
    lo: int,
    hi: int,
    k: int,
    m1: spec_fn(int) -> Option<int>,
    m2: spec_fn(int) -> Option<int>,
)
    requires
        forall|x: int| lo <= x < hi ==> m1(k + x) == shifted(#[trigger] m2(x), k),
    ensures
        first_some(k + lo, k + hi, m1) == shifted(first_some(lo, hi, m2), k),
    decreases hi - lo,
{
    if hi > lo {
        assert(m1(k + lo) == shifted(m2(lo), k));
        if m2(lo) is None {
            lemma_first_some_shift(lo + 1, hi, k, m1, m2);
            assert(k + lo + 1 == k + (lo + 1));
        }
    }
}

proof fn lemma_post_shift(w: Seq<char>, u: Seq<char>, p: int)
    requires
        0 <= p <= u.len(),
    ensures
        (post_match_at(w + u, w.len() + p) is Some) == (post_match_at(u, p) is Some),
        crate::bluesky::post_at(w + u, w.len() + p) == crate::bluesky::post_at(u, p),
{
    let s = w + u;
    let k = w.len() as int;
    reveal_strlit("twitter.com/");
    reveal_strlit("x.com/");
    reveal_strlit("/status/");
    reveal_strlit("bsky.app/profile/");
    reveal_strlit("/post/");
    lemma_lit_shift(w, u, p, "twitter.com/"@);
    lemma_lit_shift(w, u, p, "x.com/"@);
    lemma_lit_shift(w, u, p, "bsky.app/profile/"@);
    let q = if lit_at(u, p, "twitter.com/"@) {
        p + 12
    } else {
        p + 6
    };
    if lit_at(u, p, "twitter.com/"@) || lit_at(u, p, "x.com/"@) {
        lemma_run_end_shift(w, u, q, CharClass::Word);
        lemma_run_end(u, q, CharClass::Word);
        let r = run_end(u, q, CharClass::Word);
        assert forall|x: int| q + 1 <= x < r + 1 implies crate::twitter::status_at(s)(k + x)
            == #[trigger] crate::twitter::status_at(u)(x) by {
            lemma_lit_shift(w, u, x, "/status/"@);
            if x + 8 < u.len() {
                assert(s[k + x + 8] == u[x + 8]);
            }
        }
        lemma_last_in_shift(q + 1, r + 1, k, crate::twitter::status_at(s), crate::twitter::status_at(u));
        assert(k + q + 1 == k + (q + 1));
        assert(k + r + 1 == k + (r + 1));
    }
    if lit_at(u, p, "bsky.app/profile/"@) {
        let b = p + 17;
        lemma_run_end_shift(w, u, b, CharClass::NotSlash);
        lemma_run_end(u, b, CharClass::NotSlash);
        let f = run_end(u, b, CharClass::NotSlash);
        lemma_lit_shift(w, u, f, "/post/"@);
        if f + 6 < u.len() {
            assert(s[k + f + 6] == u[f + 6]);
        }
        assert(k + p + 17 == k + b);
    }
}

/// Text in front of a URL that no pattern can start in changes nothing of
/// where the URL is routed: the patterns search the URL, they are not
/// anchored at its start.
pub proof fn law_prefix_without_pattern_start(w: Seq<char>, u: Seq<char>)
    requires
        forall|p: int| 0 <= p < w.len() ==> !#[trigger] starts_a_pattern(w + u, p),
    ensures
        same_route(w + u, u),
{
    let s = w + u;
    let k = w.len() as int;
    reveal_strlit("youtube.com/");
    reveal_strlit("youtu.be/");
    reveal_strlit("twitter.com/");
    reveal_strlit("x.com/");
    reveal_strlit("bsky.app/profile/");
    // YouTube: no match begins in the prefix; later ones are the URL's, moved.
    let m1 = video_id_matcher(s);
    let m2 = video_id_matcher(u);
    assert forall|j: int| 0 <= j < k implies (#[trigger] m1(j)) is None by {
        assert(!starts_a_pattern(s, j));
    }
    lemma_first_some_skip(0, k, s.len() as int, m1);
    assert forall|x: int| 0 <= x < u.len() implies m1(k + x) == shifted(#[trigger] m2(x), k) by {
        lemma_video_id_at_shift(w, u, x);
    }
    lemma_first_some_shift(0, u.len() as int, k, m1, m2);
    assert(k + u.len() == s.len());
    if let Some(i) = video_id_start(u) {
        lemma_video_id_start_valid(u);
        assert(s.subrange(k + i, k + i + 11) =~= u.subrange(i, i + 11));
    }
    // Twitter / X and Bluesky: a match exists in one exactly when in the other.
    if is_post_url(s) {
        let p = choose|p: int| 0 <= p < s.len() && (#[trigger] post_match_at(s, p)) is Some;
        if p < k {
            assert(starts_a_pattern(s, p));
        }
        lemma_post_shift(w, u, p - k);
        assert(post_match_at(u, p - k) is Some);
    }
    if is_post_url(u) {
        let p = choose|p: int| 0 <= p < u.len() && (#[trigger] post_match_at(u, p)) is Some;
        lemma_post_shift(w, u, p);
        assert(post_match_at(s, k + p) is Some);
    }
    if crate::bluesky::is_post_url(s) {
        let p = choose|p: int| 0 <= p < s.len() && #[trigger] crate::bluesky::post_at(s, p);
        if p < k {
            assert(starts_a_pattern(s, p));
        }
        lemma_post_shift(w, u, p - k);
        assert(crate::bluesky::post_at(u, p - k));
    }
    if crate::bluesky::is_post_url(u) {
        let p = choose|p: int| 0 <= p < u.len() && #[trigger] crate::bluesky::post_at(u, p);
        lemma_post_shift(w, u, p);
        assert(crate::bluesky::post_at(s, k + p));
    }
}

/// A pattern can only begin at `y`, `x`, `b`, or at `t` followed by `w`.
proof fn lemma_pattern_start_chars(s: Seq<char>, p: int)
    ensures
        starts_a_pattern(s, p) ==> 0 <= p && p + 1 < s.len() && (s[p] == 'y' || s[p] == 'x' || s[p]
            == 'b' || (s[p] == 't' && s[p + 1] == 'w')),
{
    reveal_strlit("youtube.com/");
    reveal_strlit("youtu.be/");
    reveal_strlit("twitter.com/");
    reveal_strlit("x.com/");
    reveal_strlit("bsky.app/profile/");
    if starts_a_pattern(s, p) {
        let t = if lit_at(s, p, "youtube.com/"@) {
            "youtube.com/"@
        } else if lit_at(s, p, "youtu.be/"@) {
            "youtu.be/"@
        } else if lit_at(s, p, "twitter.com/"@) {
            "twitter.com/"@
        } else if lit_at(s, p, "x.com/"@) {
            "x.com/"@
        } else {
            "bsky.app/profile/"@
        };
        assert(lit_at(s, p, t));
        assert(s[p] == s.subrange(p, p + t.len())[0]);
        assert(s[p + 1] == s.subrange(p, p + t.len())[1]);
    }
}

/// No pattern begins inside `w` when `w` holds no `y`, `x` or `b`, and
/// each of its `t`s is followed, inside `w`, by something other than `w`.
proof fn lemma_prefix_starts_nothing(w: Seq<char>, u: Seq<char>)
    requires
        forall|p: int|
            0 <= p < w.len() ==> #[trigger] w[p] != 'y' && w[p] != 'x' && w[p] != 'b' && (w[p]
                == 't' ==> p + 1 < w.len() && w[p + 1] != 'w'),
    ensures
        forall|p: int| 0 <= p < w.len() ==> !#[trigger] starts_a_pattern(w + u, p),
{
    assert forall|p: int| 0 <= p < w.len() implies !#[trigger] starts_a_pattern(w + u, p) by {
        lemma_pattern_start_chars(w + u, p);
        assert((w + u)[p] == w[p]);
        if p + 1 < w.len() {
            assert((w + u)[p + 1] == w[p + 1]);
        }
    }
}

/// The scheme may be omitted and a `www.` prefix is accepted: with
/// `https://`, `http://`, `www.`, or a scheme and `www.` in front, a URL is
/// routed as it is without them (same service, same video).
pub proof fn law_scheme_and_www_are_optional(u: Seq<char>)
    ensures
        same_route("https://"@ + u, u),
        same_route("http://"@ + u, u),
        same_route("www."@ + u, u),
        same_route("https://www."@ + u, u),
        same_route("http://www."@ + u, u),
{
    reveal_strlit("https://");
    reveal_strlit("http://");
    reveal_strlit("www.");
    reveal_strlit("https://www.");
    reveal_strlit("http://www.");
    lemma_prefix_starts_nothing("https://"@, u);
    lemma_prefix_starts_nothing("http://"@, u);
    lemma_prefix_starts_nothing("www."@, u);
    lemma_prefix_starts_nothing("https://www."@, u);
    lemma_prefix_starts_nothing("http://www."@, u);
    law_prefix_without_pattern_start("https://"@, u);
    law_prefix_without_pattern_start("http://"@, u);
    law_prefix_without_pattern_start("www."@, u);
    law_prefix_without_pattern_start("https://www."@, u);
    law_prefix_without_pattern_start("http://www."@, u);
}

/// The seconds of a `[M:SS]` timestamp are always two decimal digits.
pub proof fn law_timestamp_seconds_are_two_digits(secs: nat)
    ensures
        two_digits(secs % 60) == seq![digit_char(secs % 60 / 10), digit_char(secs % 60 % 10)],
{
    let n = secs % 60;
    if n < 10 {
        assert(decimal(n) == seq![digit_char(n)]);
        assert(n / 10 == 0 && n % 10 == n);
        assert(two_digits(n) =~= seq!['0', digit_char(n)]);
        assert(digit_char(0) == '0');
    } else {
        assert(n / 10 < 10);
        assert(decimal(n / 10) == seq![digit_char(n / 10)]);
        assert(decimal(n) =~= seq![digit_char(n / 10), digit_char(n % 10)]);
    }
}


/// The last position in `[lo, hi)` where `p` holds is `j`, when `p` holds
/// at `j` and nowhere after it.
proof fn lemma_last_in_at(lo: int, hi: int, p: spec_fn(int) -> bool, j: int)
    requires
        lo <= j < hi,
        p(j),
        forall|k: int| j < k < hi ==> !#[trigger] p(k),
    ensures
        last_in(lo, hi, p) == Some(j),
    decreases hi - j,
{
    if hi - 1 > j {
        assert(!p(hi - 1));
        lemma_last_in_at(lo, hi - 1, p, j);
    }
}

/// A character that YouTube video ids are made of may stand in an id:
/// anything but `&`, `?`, `/` and white space.
pub open spec fn id_char(c: char) -> bool {
    c != '&' && c != '?' && c != '/' && !crate::text::is_white_space(c)
}

/// In `youtube.com/watch?v=<id>` and `youtu.be/<id>` the video id is the
/// eleven characters after the prefix, whatever they are among the id
/// characters (`-` and `_` included).
proof fn lemma_watch_and_short_urls(id: Seq<char>)
    requires
        id.len() == 11,
        forall|k: int| 0 <= k < 11 ==> id_char(#[trigger] id[k]),
    ensures
        video_id_of("youtube.com/watch?v="@ + id) == Some(id),
        video_id_of("youtu.be/"@ + id) == Some(id),
{
    reveal_strlit("youtube.com/watch?v=");
    reveal_strlit("youtube.com/");
    reveal_strlit("youtu.be/");
    reveal_strlit("v/");
    reveal_strlit("embed/");
    reveal_strlit("e/");
    reveal_strlit("v=");
    // The watch URL.
    let u = "youtube.com/watch?v="@ + id;
    assert(u.len() == 31);
    assert forall|k: int| 20 <= k < 31 implies #[trigger] in_class(CharClass::VideoIdChar, u[k]) by {
        assert(u[k] == id[k - 20]);
        assert(id_char(id[k - 20]));
    }
    assert(id_at(u, 20));
    assert(u.subrange(0, 12) =~= "youtube.com/"@);
    assert forall|k: int| 12 <= k < 31 implies #[trigger] in_class(CharClass::NotSlash, u[k]) by {
        if k >= 20 {
            assert(u[k] == id[k - 20]);
            assert(id_char(id[k - 20]));
        }
    }
    lemma_run_end_at(u, 12, 31, CharClass::NotSlash);
    assert(nested_path_id(u, 12) is None);
    assert(u[12] == 'w');
    assert(!lit_at(u, 12, "v/"@)) by { assert(u.subrange(12, 14)[0] == u[12]); }
    assert(!lit_at(u, 12, "embed/"@)) by { assert(u.subrange(12, 18)[0] == u[12]); }
    assert(!lit_at(u, 12, "e/"@)) by { assert(u.subrange(12, 14)[0] == u[12]); }
    assert(short_path_id(u, 12) is None);
    assert forall|k: int| 12 <= k < 31 implies #[trigger] in_class(CharClass::NotNewline, u[k]) by {
        if k >= 20 {
            assert(u[k] == id[k - 20]);
            assert(id_char(id[k - 20]));
        }
    }
    lemma_run_end_at(u, 12, 31, CharClass::NotNewline);
    assert(u.subrange(18, 20) =~= "v="@);
    assert(query_before_id(u)(17));
    assert forall|k: int| 17 < k < 31 implies !#[trigger] query_before_id(u)(k) by {
        if k >= 20 {
            assert(u[k] == id[k - 20]);
            assert(id_char(id[k - 20]));
        }
    }
    lemma_last_in_at(12, 31, query_before_id(u), 17);
    assert(query_id(u, 12) == Some(20int));
    assert(video_id_at(u, 0) == Some(20int));
    assert(video_id_matcher(u)(0) == Some(20int));
    assert(u.subrange(20, 31) =~= id);
    // The short URL.
    let v = "youtu.be/"@ + id;
    assert(v.len() == 20);
    assert(!lit_at(v, 0, "youtube.com/"@)) by { assert(v.subrange(0, 12)[5] == v[5]); }
    assert(v.subrange(0, 9) =~= "youtu.be/"@);
    assert forall|k: int| 9 <= k < 20 implies #[trigger] in_class(CharClass::VideoIdChar, v[k]) by {
        assert(v[k] == id[k - 9]);
        assert(id_char(id[k - 9]));
    }
    assert(video_id_at(v, 0) == Some(9int));
    assert(video_id_matcher(v)(0) == Some(9int));
    assert(v.subrange(9, 20) =~= id);
}

/// A watch URL `https://www.youtube.com/watch?v=<id>`, or a short URL
/// `https://youtu.be/<id>`, with an id of eleven id characters (`-` and `_`
/// among them) is routed to YouTube with exactly that id, which is also the
/// id that `extract_video_id` gives.
pub proof fn law_watch_url_gives_its_id(id: Seq<char>)
    requires
        id.len() == 11,
        forall|k: int| 0 <= k < 11 ==> id_char(#[trigger] id[k]),
    ensures
        video_id_of("https://www.youtube.com/watch?v="@ + id) == Some(id),
        service_of("https://www.youtube.com/watch?v="@ + id) == Some(ServiceView::YouTube(id)),
        video_id_of("youtube.com/watch?v="@ + id) == Some(id),
        video_id_of("https://youtu.be/"@ + id) == Some(id),
        service_of("https://youtu.be/"@ + id) == Some(ServiceView::YouTube(id)),
{
    lemma_watch_and_short_urls(id);
    reveal_strlit("https://www.youtube.com/watch?v=");
    reveal_strlit("https://www.");
    reveal_strlit("youtube.com/watch?v=");
    reveal_strlit("https://youtu.be/");
    reveal_strlit("https://");
    reveal_strlit("youtu.be/");
    let u = "youtube.com/watch?v="@ + id;
    let v = "youtu.be/"@ + id;
    law_scheme_and_www_are_optional(u);
    law_scheme_and_www_are_optional(v);
    assert("https://www.youtube.com/watch?v="@ + id =~= "https://www."@ + u);
    assert("https://youtu.be/"@ + id =~= "https://"@ + v);
}

/// The ids of YouTube's own alphabet, `[A-Za-z0-9_-]`, are id characters.
pub proof fn law_youtube_alphabet_ids(id: Seq<char>)
    requires
        id.len() == 11,
        forall|k: int|
            0 <= k < 11 ==> ('A' <= #[trigger] id[k] <= 'Z' || 'a' <= id[k] <= 'z' || '0' <= id[k] <= '9'
                || id[k] == '-' || id[k] == '_'),
    ensures
        video_id_of("https://www.youtube.com/watch?v="@ + id) == Some(id),
        service_of("https://www.youtube.com/watch?v="@ + id) == Some(ServiceView::YouTube(id)),
{
    assert forall|k: int| 0 <= k < 11 implies id_char(#[trigger] id[k]) by {}
    law_watch_url_gives_its_id(id);
}

/// With no language asked for, the caption URL is that of the first track
/// of the response, `&fmt=srv3` removed, whatever the other tracks are; and
/// a first track without a `baseUrl` text is an error even when later
/// tracks have one.
pub proof fn law_no_language_takes_the_first_track(v: Json, title: Seq<char>, tracks: Seq<Json>)
    requires
        crate::json::as_array(
            crate::json::index(
                crate::json::index(crate::json::index(v, "captions"@), "playerCaptionsTracklistRenderer"@),
                "captionTracks"@,
            ),
        ) == Some(tracks),
        tracks.len() > 0,
    ensures
        crate::json::as_str(crate::json::index(tracks[0], "baseUrl"@)) matches Some(raw)
            ==> crate::youtube::caption_info(v, title, None) == Ok::<
            (Seq<char>, Seq<char>),
            crate::youtube::CaptionErrorView,
        >((title, replace_all(raw, "&fmt=srv3"@, ""@))),
        crate::json::as_str(crate::json::index(tracks[0], "baseUrl"@)) is None
            ==> crate::youtube::caption_info(v, title, None) == Err::<
            (Seq<char>, Seq<char>),
            crate::youtube::CaptionErrorView,
        >(crate::youtube::CaptionErrorView::MissingBaseUrl),
{
}

proof fn lemma_trim_start_white(w: Seq<char>, x: Seq<char>)
    requires
        forall|k: int| 0 <= k < w.len() ==> crate::text::is_white_space(#[trigger] w[k]),
    ensures
        crate::text::trim_start(w + x) == crate::text::trim_start(x),
    decreases w.len(),
{
    if w.len() == 0 {
        assert(w + x =~= x);
    } else {
        assert((w + x)[0] == w[0]);
        assert((w + x).skip(1) =~= w.skip(1) + x);
        assert forall|k: int| 0 <= k < w.skip(1).len() implies crate::text::is_white_space(
            #[trigger] w.skip(1)[k],
        ) by {
            assert(w.skip(1)[k] == w[k + 1]);
        }
        lemma_trim_start_white(w.skip(1), x);
    }
}

proof fn lemma_trim_end_white(x: Seq<char>, w: Seq<char>)
    requires
        forall|k: int| 0 <= k < w.len() ==> crate::text::is_white_space(#[trigger] w[k]),
    ensures
        crate::text::trim_end(x + w) == crate::text::trim_end(x),
    decreases w.len(),
{
    if w.len() == 0 {
        assert(x + w =~= x);
    } else {
        assert((x + w).last() == w.last());
        assert(crate::text::is_white_space(w[w.len() - 1]));
        assert((x + w).drop_last() =~= x + w.drop_last());
        assert forall|k: int| 0 <= k < w.drop_last().len() implies crate::text::is_white_space(
            #[trigger] w.drop_last()[k],
        ) by {
            assert(w.drop_last()[k] == w[k]);
        }
        lemma_trim_end_white(x, w.drop_last());
    }
}

/// Text with white space only around it trims to itself, line feeds and
/// all inside.
proof fn lemma_trim_around(w1: Seq<char>, core: Seq<char>, w2: Seq<char>)
    requires
        forall|k: int| 0 <= k < w1.len() ==> crate::text::is_white_space(#[trigger] w1[k]),
        forall|k: int| 0 <= k < w2.len() ==> crate::text::is_white_space(#[trigger] w2[k]),
        core.len() > 0,
        !crate::text::is_white_space(core[0]),
        !crate::text::is_white_space(core.last()),
    ensures
        crate::text::trim(w1 + core + w2) == core,
{
    assert(w1 + core + w2 =~= w1 + (core + w2));
    lemma_trim_start_white(w1, core + w2);
    assert((core + w2)[0] == core[0]);
    lemma_trim_end_white(core, w2);
}

/// A `<text>` caption whose text is white space, then `core`, then white
/// space gives exactly one line: all of `core` (line feeds inside it kept),
/// with the tag's `start` and `dur` values as its times.
pub proof fn law_caption_text_is_trimmed_whole(
    w1: Seq<char>,
    core: Seq<char>,
    w2: Seq<char>,
    start: Seq<u8>,
    dur: Seq<u8>,
)
    requires
        forall|k: int| 0 <= k < w1.len() ==> crate::text::is_white_space(#[trigger] w1[k]),
        forall|k: int| 0 <= k < w2.len() ==> crate::text::is_white_space(#[trigger] w2[k]),
        core.len() > 0,
        !crate::text::is_white_space(core[0]),
        !crate::text::is_white_space(core.last()),
        vstd::utf8::valid_utf8(start),
        vstd::utf8::valid_utf8(dur),
    ensures
        crate::youtube::transcript_of(
            seq![
                crate::xml::EventView::Start {
                    name: seq![116u8, 101, 120, 116],
                    attributes: seq![
                        Some((seq![115u8, 116, 97, 114, 116], start)),
                        Some((seq![100u8, 117, 114], dur)),
                    ],
                },
                crate::xml::EventView::Text(Some(w1 + core + w2)),
                crate::xml::EventView::Eof,
            ],
        ) == Ok::<_, crate::youtube::TranscriptErrorKind>(
            seq![(core, vstd::utf8::decode_utf8(start), vstd::utf8::decode_utf8(dur))],
        ),
{
    let attrs: Seq<Option<(Seq<u8>, Seq<u8>)>> = seq![
        Some((seq![115u8, 116, 97, 114, 116], start)),
        Some((seq![100u8, 117, 114], dur)),
    ];
    let events = seq![
        crate::xml::EventView::Start { name: seq![116u8, 101, 120, 116], attributes: attrs },
        crate::xml::EventView::Text(Some(w1 + core + w2)),
        crate::xml::EventView::Eof,
    ];
    lemma_trim_around(w1, core, w2);
    let times = (vstd::utf8::decode_utf8(start), vstd::utf8::decode_utf8(dur));
    let empty: (Seq<char>, Seq<char>) = (seq![], seq![]);
    assert(attrs.drop_first().drop_first() =~= Seq::<Option<(Seq<u8>, Seq<u8>)>>::empty());
    assert(crate::youtube::times_after(empty, seq![115u8, 116, 97, 114, 116], times.0) == (times.0, empty.1));
    assert(crate::youtube::times_after((times.0, empty.1), seq![100u8, 117, 114], times.1) == times);
    assert(crate::youtube::times_of(attrs.drop_first().drop_first(), times) == Ok::<_, crate::youtube::TranscriptErrorKind>(times));
    assert(crate::youtube::times_of(attrs.drop_first(), (times.0, empty.1)) == Ok::<_, crate::youtube::TranscriptErrorKind>(times));
    assert(crate::youtube::times_of(attrs, empty) == Ok::<_, crate::youtube::TranscriptErrorKind>(times));
    assert(seq![116u8, 101, 120, 116] =~= crate::youtube::text_tag());
    let rest = events.drop_first();
    assert(rest[0] == crate::xml::EventView::Text(Some(w1 + core + w2)));
    assert(rest.drop_first()[0] == crate::xml::EventView::Eof);
    assert(crate::youtube::lines_from(rest.drop_first(), None) == Ok::<Seq<(Seq<char>, Seq<char>, Seq<char>)>, crate::youtube::TranscriptErrorKind>(seq![]));
    let line = seq![(core, times.0, times.1)];
    assert(crate::youtube::caption_of(w1 + core + w2, times) == line);
    assert(line + Seq::<(Seq<char>, Seq<char>, Seq<char>)>::empty() =~= line);
    assert(crate::youtube::lines_from(rest, Some(times)) == Ok::<_, crate::youtube::TranscriptErrorKind>(line));
}

/// A post whose `tweet.text` is the string `t` is `@<screen name>:`, a
/// blank line, then `t`: the screen name is `tweet.author.screen_name`
/// whatever else the author object holds, and `unknown` where that is no
/// string.
pub proof fn law_post_names_the_screen_name(v: Json, t: Seq<char>)
    requires
        crate::json::as_str(crate::json::index(crate::json::index(v, "tweet"@), "text"@)) == Some(t),
    ensures
        crate::json::as_str(
            crate::json::index(crate::json::index(crate::json::index(v, "tweet"@), "author"@), "screen_name"@),
        ) matches Some(s) ==> crate::twitter::post_content(v) == Some("@"@ + s + ":\n\n"@ + t),
        crate::json::as_str(
            crate::json::index(crate::json::index(crate::json::index(v, "tweet"@), "author"@), "screen_name"@),
        ) is None ==> crate::twitter::post_content(v) == Some("@unknown:\n\n"@ + t),
{
    reveal_strlit("@");
    reveal_strlit(":\n\n");
    reveal_strlit("unknown");
    reveal_strlit("@unknown:\n\n");
    assert("@"@ + "unknown"@ + ":\n\n"@ + t =~= "@unknown:\n\n"@ + t);
}

/// A post without a `tweet.text` string is no post.
pub proof fn law_post_needs_its_text(v: Json)
    requires
        crate::json::as_str(crate::json::index(crate::json::index(v, "tweet"@), "text"@)) is None,
    ensures
        crate::twitter::post_content(v) is None,
{
}

/// No occurrence of `tag` begins before it in `pre + tag + after` when
/// `pre` holds none and the tag's first character occurs in it only first.
proof fn lemma_no_tag_before(pre: Seq<char>, tag: Seq<char>, after: Seq<char>)
    requires
        tag.len() > 0,
        forall|j: int| 1 <= j < tag.len() ==> #[trigger] tag[j] != tag[0],
        !contains(pre, tag),
    ensures
        forall|p: int| 0 <= p < pre.len() ==> !#[trigger] lit_at(pre + tag + after, p, tag),
{
    let s = pre + tag + after;
    let k = pre.len() as int;
    let n = tag.len() as int;
    assert forall|p: int| 0 <= p < pre.len() implies !#[trigger] lit_at(pre + tag + after, p, tag) by {
        if lit_at(s, p, tag) {
            if p + n <= k {
                assert(pre.subrange(p, p + n) =~= s.subrange(p, p + n));
                assert(lit_at(pre, p, tag));
            } else {
                assert(s.subrange(p, p + n)[k - p] == s[k]);
                assert(s[k] == tag[0]);
            }
        }
    }
}

/// The post text of a page is the whole content of its first
/// `og:description` meta tag, up to the closing quote, line feeds and all:
/// for a page `pre`, the tag, `t`, `"`, `rest`, with no such tag in `pre`
/// and no `"` in `t`, it is `t`.
pub proof fn law_description_is_the_whole_content(pre: Seq<char>, t: Seq<char>, rest: Seq<char>)
    requires
        !contains(pre, "<meta property=\"og:description\" content=\""@),
        forall|k: int| 0 <= k < t.len() ==> #[trigger] t[k] != '"',
    ensures
        crate::twitter::description_of(
            pre + "<meta property=\"og:description\" content=\""@ + t + seq!['"'] + rest,
        ) == Some(t),
{
    let tag = "<meta property=\"og:description\" content=\""@;
    reveal_strlit("<meta property=\"og:description\" content=\"");
    let s = pre + tag + t + seq!['"'] + rest;
    let k = pre.len() as int;
    let m = crate::twitter::description_matcher(s);
    assert forall|j: int| 1 <= j < tag.len() implies #[trigger] tag[j] != tag[0] by {}
    lemma_no_tag_before(pre, tag, t + seq!['"'] + rest);
    assert(s =~= pre + tag + (t + seq!['"'] + rest));
    assert forall|p: int| 0 <= p < k implies (#[trigger] m(p)) is None by {
        assert(!lit_at(s, p, tag));
    }
    lemma_first_some_skip(0, k, s.len() as int, m);
    assert(s.subrange(k, k + 41) =~= tag);
    let b = k + 41;
    let e = b + t.len();
    assert forall|j: int| b <= j < e implies #[trigger] in_class(CharClass::NotQuote, s[j]) by {
        assert(s[j] == t[j - b]);
    }
    assert(s[e] == '"');
    lemma_run_end_at(s, b, e, CharClass::NotQuote);
    assert(m(k) == Some((b, e)));
    assert(s.subrange(b, e) =~= t);
}

/// The title of a page is the whole content of its first `og:title` meta
/// tag, up to the closing quote.
pub proof fn law_title_is_the_whole_content(pre: Seq<char>, t: Seq<char>, rest: Seq<char>)
    requires
        !contains(pre, "<meta property=\"og:title\" content=\""@),
        forall|k: int| 0 <= k < t.len() ==> #[trigger] t[k] != '"',
    ensures
        crate::bluesky::og_title_of(pre + "<meta property=\"og:title\" content=\""@ + t + seq!['"'] + rest)
            == Some(t),
{
    let tag = "<meta property=\"og:title\" content=\""@;
    reveal_strlit("<meta property=\"og:title\" content=\"");
    let s = pre + tag + t + seq!['"'] + rest;
    let k = pre.len() as int;
    let m = crate::bluesky::title_tag_matcher(s);
    assert forall|j: int| 1 <= j < tag.len() implies #[trigger] tag[j] != tag[0] by {}
    lemma_no_tag_before(pre, tag, t + seq!['"'] + rest);
    assert(s =~= pre + tag + (t + seq!['"'] + rest));
    assert forall|p: int| 0 <= p < k implies (#[trigger] m(p)) is None by {
        assert(!lit_at(s, p, tag));
    }
    lemma_first_some_skip(0, k, s.len() as int, m);
    assert(s.subrange(k, k + 35) =~= tag);
    let b = k + 35;
    let e = b + t.len();
    assert forall|j: int| b <= j < e implies #[trigger] in_class(CharClass::NotQuote, s[j]) by {
        assert(s[j] == t[j - b]);
    }
    assert(s[e] == '"');
    lemma_run_end_at(s, b, e, CharClass::NotQuote);
    assert(m(k) == Some((b, e)));
    assert(s.subrange(b, e) =~= t);
}

/// A title `<name> (@<handle>)` with no `(` in the name names the handle
/// (all of it, up to the closing parenthesis).
pub proof fn law_title_names_the_handle(name: Seq<char>, h: Seq<char>)
    requires
        forall|k: int| 0 <= k < name.len() ==> #[trigger] name[k] != '(',
        h.len() > 0,
        forall|k: int| 0 <= k < h.len() ==> #[trigger] h[k] != ')',
    ensures
        crate::bluesky::handle_of(name + " (@"@ + h + ")"@) == Some(h),
{
    reveal_strlit(" (@");
    reveal_strlit(")");
    reveal_strlit("(@");
    let t = name + " (@"@ + h + ")"@;
    let k = name.len() as int;
    let m = crate::bluesky::handle_matcher(t);
    assert forall|p: int| 0 <= p < k + 1 implies (#[trigger] m(p)) is None by {
        if lit_at(t, p, "(@"@) {
            assert(t.subrange(p, p + 2)[0] == t[p]);
            if p < k {
                assert(t[p] == name[p]);
            } else {
                assert(t[p] == ' ');
            }
        }
    }
    lemma_first_some_skip(0, k + 1, t.len() as int, m);
    assert(t.subrange(k + 1, k + 3) =~= "(@"@);
    let b = k + 3;
    let e = b + h.len();
    assert forall|j: int| b <= j < e implies #[trigger] in_class(CharClass::NotCloseParen, t[j]) by {
        assert(t[j] == h[j - b]);
    }
    assert(t[e] == ')');
    lemma_run_end_at(t, b, e, CharClass::NotCloseParen);
    assert(m(k + 1) == Some((b, e)));
    assert(t.subrange(b, e) =~= h);
}

/// A Bluesky post is `@<handle> on Bluesky:`, a blank line, then the whole
/// description, with the handle that the page's title names, whatever the
/// post URL says.
pub proof fn law_bluesky_post_uses_the_page(url: Seq<char>, html: Seq<char>, name: Seq<char>, h: Seq<char>, t: Seq<char>)
    requires
        crate::bluesky::og_title_of(html) == Some(name + " (@"@ + h + ")"@),
        forall|k: int| 0 <= k < name.len() ==> #[trigger] name[k] != '(',
        h.len() > 0,
        forall|k: int| 0 <= k < h.len() ==> #[trigger] h[k] != ')',
        crate::twitter::description_of(html) == Some(t),
    ensures
        crate::bluesky::author_of(url, html) == Some(h),
        crate::bluesky::post_message(h, t) == "@"@ + h + " on Bluesky:\n\n"@ + t,
{
    law_title_names_the_handle(name, h);
    reveal_strlit("@");
    assert(crate::bluesky::post_message(h, t) =~= "@"@ + h + " on Bluesky:\n\n"@ + t);
}

/// How a transcript goes on from its first event: the end of the input
/// ends it with no more lines, an error of the reader fails it, and a text
/// outside a caption, an end tag or other event, or a start tag other than
/// `<text>` is passed over. A caption, a `<text>` tag with no attributes and
/// then a text of white space around `core`, puts the line `core` before
/// the lines of what follows, or fails as what follows fails.
pub proof fn law_transcript_steps(rest: Seq<crate::xml::EventView>, name: Seq<u8>, w1: Seq<char>, core: Seq<char>, w2: Seq<char>)
    ensures
        crate::youtube::transcript_of(seq![crate::xml::EventView::Eof] + rest)
            == Ok::<Seq<(Seq<char>, Seq<char>, Seq<char>)>, crate::youtube::TranscriptErrorKind>(seq![]),
        crate::youtube::transcript_of(seq![crate::xml::EventView::Error] + rest)
            == Err::<Seq<(Seq<char>, Seq<char>, Seq<char>)>, _>(crate::youtube::TranscriptErrorKind::Xml),
        crate::youtube::transcript_of(seq![crate::xml::EventView::Other] + rest)
            == crate::youtube::transcript_of(rest),
        crate::youtube::transcript_of(seq![crate::xml::EventView::Text(Some(core))] + rest)
            == crate::youtube::transcript_of(rest),
        name != seq![116u8, 101, 120, 116] ==> crate::youtube::transcript_of(
            seq![crate::xml::EventView::Start { name: name, attributes: seq![] }] + rest,
        ) == crate::youtube::transcript_of(rest),
        ({
            &&& forall|k: int| 0 <= k < w1.len() ==> crate::text::is_white_space(#[trigger] w1[k])
            &&& forall|k: int| 0 <= k < w2.len() ==> crate::text::is_white_space(#[trigger] w2[k])
            &&& core.len() > 0
            &&& !crate::text::is_white_space(core[0])
            &&& !crate::text::is_white_space(core.last())
        }) ==> {
            let caption = seq![
                crate::xml::EventView::Start { name: seq![116u8, 101, 120, 116], attributes: seq![] },
                crate::xml::EventView::Text(Some(w1 + core + w2)),
            ];
            match crate::youtube::transcript_of(rest) {
                Ok(lines) => crate::youtube::transcript_of(caption + rest) == Ok::<
                    _,
                    crate::youtube::TranscriptErrorKind,
                >(seq![(core, Seq::<char>::empty(), Seq::<char>::empty())] + lines),
                Err(k) => crate::youtube::transcript_of(caption + rest) == Err::<
                    Seq<(Seq<char>, Seq<char>, Seq<char>)>,
                    _,
                >(k),
            }
        },
{
    assert((seq![crate::xml::EventView::Eof] + rest)[0] == crate::xml::EventView::Eof);
    assert((seq![crate::xml::EventView::Error] + rest)[0] == crate::xml::EventView::Error);
    assert((seq![crate::xml::EventView::Other] + rest).drop_first() =~= rest);
    assert((seq![crate::xml::EventView::Text(Some(core))] + rest).drop_first() =~= rest);
    assert((seq![crate::xml::EventView::Start { name: name, attributes: seq![] }] + rest).drop_first() =~= rest);
    assert(seq![116u8, 101, 120, 116] =~= crate::youtube::text_tag());
    if forall|k: int| 0 <= k < w1.len() ==> crate::text::is_white_space(#[trigger] w1[k]) {
        if forall|k: int| 0 <= k < w2.len() ==> crate::text::is_white_space(#[trigger] w2[k]) {
            if core.len() > 0 && !crate::text::is_white_space(core[0]) && !crate::text::is_white_space(core.last()) {
                lemma_trim_around(w1, core, w2);
                let raw = w1 + core + w2;
                let caption = seq![
                    crate::xml::EventView::Start { name: seq![116u8, 101, 120, 116], attributes: seq![] },
                    crate::xml::EventView::Text(Some(raw)),
                ];
                let all = caption + rest;
                let empty: (Seq<char>, Seq<char>) = (seq![], seq![]);
                assert(all[0] == caption[0]);
                assert(crate::youtube::times_of(seq![], empty) == Ok::<_, crate::youtube::TranscriptErrorKind>(empty));
                assert(all.drop_first()[0] == crate::xml::EventView::Text(Some(raw)));
                assert(all.drop_first().drop_first() =~= rest);
                let line = seq![(core, Seq::<char>::empty(), Seq::<char>::empty())];
                assert(crate::youtube::caption_of(raw, empty) == line);
                assert(crate::youtube::lines_from(all.drop_first(), Some(empty)) == crate::youtube::after_lines(
                    line,
                    crate::youtube::lines_from(rest, None),
                ));
            }
        }
    }
}

/// A post URL `https://x.com/<user>/status/<id>`, with a user name of ASCII
/// letters, digits and `_` and an id of ASCII digits, has the API URL
/// `https://api.fxtwitter.com/<user>/status/<id>`: the same user and id.
pub proof fn law_x_post_url_gives_its_api_url(user: Seq<char>, id: Seq<char>)
    requires
        user.len() > 0,
        forall|k: int|
            0 <= k < user.len() ==> ('A' <= #[trigger] user[k] <= 'Z' || 'a' <= user[k] <= 'z' || '0'
                <= user[k] <= '9' || user[k] == '_'),
        id.len() > 0,
        forall|k: int| 0 <= k < id.len() ==> '0' <= #[trigger] id[k] <= '9',
    ensures
        api_url_of("https://x.com/"@ + user + "/status/"@ + id) == Some(
            "https://api.fxtwitter.com/"@ + user + "/status/"@ + id,
        ),
{
    let pre = "https://x.com/"@;
    let st = "/status/"@;
    reveal_strlit("https://x.com/");
    reveal_strlit("/status/");
    reveal_strlit("twitter.com/");
    reveal_strlit("x.com/");
    let a = pre + user + st + id;
    let q: int = 14;
    let e: int = 14 + user.len() as int;
    let n = a.len() as int;
    assert(n == e + 8 + id.len());
    assert forall|p: int| 0 <= p < 8 implies (#[trigger] post_matcher(a)(p)) is None by {
        assert(a[p] == pre[p]);
        assert(a[p + 1] == pre[p + 1]);
        if lit_at(a, p, "twitter.com/"@) {
            assert(a.subrange(p, p + 12)[0] == a[p]);
            assert(a.subrange(p, p + 12)[1] == a[p + 1]);
        }
        if lit_at(a, p, "x.com/"@) {
            assert(a.subrange(p, p + 6)[0] == a[p]);
        }
    }
    assert(a.subrange(8, 14) =~= "x.com/"@);
    assert(!lit_at(a, 8, "twitter.com/"@)) by {
        if lit_at(a, 8, "twitter.com/"@) {
            assert(a.subrange(8, 20)[0] == a[8]);
        }
    }
    assert(host_end(a, 8) == Some(q));
    assert forall|k: int| q <= k < e implies #[trigger] in_class(CharClass::Word, a[k]) by {
        assert(a[k] == user[k - q]);
    }
    assert(a[e] == '/');
    lemma_run_end_at(a, q, e, CharClass::Word);
    assert(a.subrange(e, e + 8) =~= st);
    assert(a[e + 8] == id[0]);
    assert(status_at(a)(e));
    assert(user_end(a, q) == Some(e));
    assert(post_match_at(a, 8) == Some((q, e)));
    lemma_first_some_skip(0, 8, n, post_matcher(a));
    assert forall|k: int| e + 8 <= k < n implies #[trigger] in_class(CharClass::Digit, a[k]) by {
        assert(a[k] == id[k - e - 8]);
    }
    lemma_run_end_at(a, e + 8, n, CharClass::Digit);
    assert(a.subrange(q, e) =~= user);
    assert(a.subrange(e + 8, n) =~= id);
    assert(post_parts(a) == Some((user, id)));
}

/// A URL `https://bsky.app/profile/<profile>/post/<id>`, with a profile
/// without `/` and an id that begins with an ASCII letter or digit, is a
/// Bluesky post URL, and its profile is `<profile>`.
pub proof fn law_bluesky_post_url(profile: Seq<char>, id: Seq<char>)
    requires
        profile.len() > 0,
        forall|k: int| 0 <= k < profile.len() ==> #[trigger] profile[k] != '/',
        id.len() > 0,
        'A' <= id[0] <= 'Z' || 'a' <= id[0] <= 'z' || '0' <= id[0] <= '9',
    ensures
        crate::bluesky::is_post_url("https://bsky.app/profile/"@ + profile + "/post/"@ + id),
        crate::bluesky::profile_of("https://bsky.app/profile/"@ + profile + "/post/"@ + id) == Some(profile),
{
    reveal_strlit("https://bsky.app/profile/");
    reveal_strlit("bsky.app/profile/");
    reveal_strlit("/post/");
    let u = "https://bsky.app/profile/"@ + profile + "/post/"@ + id;
    let b: int = 25;
    let f: int = 25 + profile.len() as int;
    assert(u.subrange(8, 25) =~= "bsky.app/profile/"@);
    assert forall|k: int| b <= k < f implies #[trigger] in_class(CharClass::NotSlash, u[k]) by {
        assert(u[k] == profile[k - b]);
    }
    assert(u[f] == '/');
    lemma_run_end_at(u, b, f, CharClass::NotSlash);
    assert(u.subrange(f, f + 6) =~= "/post/"@);
    assert(u[f + 6] == id[0]);
    assert(crate::bluesky::post_at(u, 8));
    let m = crate::bluesky::profile_matcher(u);
    assert forall|p: int| 0 <= p < 8 implies (#[trigger] m(p)) is None by {
        if lit_at(u, p, "bsky.app/profile/"@) {
            assert(u.subrange(p, p + 17)[0] == u[p]);
        }
    }
    lemma_first_some_skip(0, 8, u.len() as int, m);
    assert(m(8) == Some((b, f)));
    assert(u.subrange(b, f) =~= profile);
}

} // verus!
