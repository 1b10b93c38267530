use vstd::prelude::*;
use crate::charclass::{CharClass, all_in_class, in_class, run_end, run_end_exec};
use crate::json::{Json, as_array, as_str, index};
use crate::xml::{EventView, XmlEvent, attribute_view, events_view, read_events, utf8_text, xml_events};
use vstd::utf8::{decode_utf8, valid_utf8};
use quick_xml::events::attributes::AttrError;
use crate::text::{join, join_strings, replace_all, replace_str, texts, as_int, chars_of, first_some, has_lit_at, last_in, lemma_first_some_in,
    lemma_last_in_found, lit_at, substring, trim, trim_str, is_trimmed_nonempty, lemma_trim_ends,
    decimal, decimal_string};

verus! {

// The video id pattern of `regex` notation
//   (?:youtube\.com/(?:[^/]+/.+/|(?:v|e(?:mbed)?)/|.*[?&]v=)|youtu\.be/)([^&?/\s]{11})
// read with the leftmost-first semantics of `regex`: the leftmost start
// wins, and at that start the alternatives are tried in order, each greedy
// repetition backing off from its longest extent.

/// Eleven video-id characters (`[^&?/\s]{11}`) start at `i`.
pub open spec fn id_at(s: Seq<char>, i: int) -> bool {
    &&& 0 <= i
    &&& i + 11 <= s.len()
    &&& all_in_class(s, i, i + 11, CharClass::VideoIdChar)
}

/// `q` is a `/` that an id follows.
pub open spec fn slash_before_id(s: Seq<char>) -> spec_fn(int) -> bool {
    |q: int| s[q] == '/' && id_at(s, q + 1)
}

/// `[?&]v=` at `j`, then an id.
pub open spec fn query_before_id(s: Seq<char>) -> spec_fn(int) -> bool {
    |j: int| (s[j] == '?' || s[j] == '&') && lit_at(s, j + 1, "v="@) && id_at(s, j + 3)
}

/// First alternative after `youtube.com/` (which ends at `b`): `[^/]+/.+/`.
/// `[^/]+` can only end at the first `/`; `.+` takes the last `/` before the
/// next line feed that an id follows. The result is where the id starts.
pub open spec fn nested_path_id(s: Seq<char>, b: int) -> Option<int> {
    let f = run_end(s, b, CharClass::NotSlash);
    if b < f < s.len() {
        let nl = run_end(s, f + 1, CharClass::NotNewline);
        match last_in(f + 2, nl, slash_before_id(s)) {
            Some(q) => Some(q + 1),
            None => None,
        }
    } else {
        None
    }
}

/// Second alternative: `v/`, `embed/` or `e/`, tried in that order.
pub open spec fn short_path_id(s: Seq<char>, b: int) -> Option<int> {
    if lit_at(s, b, "v/"@) && id_at(s, b + 2) {
        Some(b + 2)
    } else if lit_at(s, b, "embed/"@) && id_at(s, b + 6) {
        Some(b + 6)
    } else if lit_at(s, b, "e/"@) && id_at(s, b + 2) {
        Some(b + 2)
    } else {
        None
    }
}

/// Third alternative: `.*[?&]v=`, the last such query key before the next
/// line feed that an id follows.
pub open spec fn query_id(s: Seq<char>, b: int) -> Option<int> {
    let nl = run_end(s, b, CharClass::NotNewline);
    match last_in(b, nl, query_before_id(s)) {
        Some(j) => Some(j + 3),
        None => None,
    }
}

/// Where the id starts in a match that begins at `p`, if one does.
pub open spec fn video_id_at(s: Seq<char>, p: int) -> Option<int> {
    if lit_at(s, p, "youtube.com/"@) {
        let b = p + 12;
        match nested_path_id(s, b) {
            Some(i) => Some(i),
            None => match short_path_id(s, b) {
                Some(i) => Some(i),
                None => query_id(s, b),
            },
        }
    } else if lit_at(s, p, "youtu.be/"@) && id_at(s, p + 9) {
        Some(p + 9)
    } else {
        None
    }
}

pub open spec fn video_id_matcher(s: Seq<char>) -> spec_fn(int) -> Option<int> {
    |p: int| video_id_at(s, p)
}

/// Where the id of the leftmost match starts.
pub open spec fn video_id_start(s: Seq<char>) -> Option<int> {
    first_some(0, s.len() as int, video_id_matcher(s))
}

/// The video id that the pattern captures in `s`, if it matches.
pub open spec fn video_id_of(s: Seq<char>) -> Option<Seq<char>> {
    match video_id_start(s) {
        Some(i) => Some(s.subrange(i, i + 11)),
        None => None,
    }
}

pub proof fn lemma_video_id_at_valid(s: Seq<char>, p: int)
    ensures
        video_id_at(s, p) matches Some(i) ==> id_at(s, i),
{
    if lit_at(s, p, "youtube.com/"@) {
        let b = p + 12;
        let f = run_end(s, b, CharClass::NotSlash);
        if b < f < s.len() {
            let nl = run_end(s, f + 1, CharClass::NotNewline);
            lemma_last_in_found(f + 2, nl, slash_before_id(s));
        }
        let nl = run_end(s, b, CharClass::NotNewline);
        lemma_last_in_found(b, nl, query_before_id(s));
    }
}

pub proof fn lemma_video_id_start_valid(s: Seq<char>)
    ensures
        video_id_start(s) matches Some(i) ==> id_at(s, i),
{
    lemma_first_some_in(0, s.len() as int, video_id_matcher(s));
    if let Some(i) = video_id_start(s) {
        let p = choose|p: int| 0 <= p < s.len() && #[trigger] video_id_matcher(s)(p) == Some(i);
        lemma_video_id_at_valid(s, p);
    }
}

fn id_at_exec(s: &Vec<char>, i: usize) -> (r: bool)
    ensures
        r == id_at(s@, i as int),
{
    if i > s.len() || s.len() - i < 11 {
        return false;
    }
    let e = run_end_exec(s, i, CharClass::VideoIdChar);
    if e >= i + 11 {
        assert(all_in_class(s@, i as int, i + 11, CharClass::VideoIdChar));
        true
    } else {
        assert(!in_class(CharClass::VideoIdChar, s@[e as int]));
        false
    }
}

fn nested_path_id_exec(s: &Vec<char>, b: usize) -> (r: Option<usize>)
    requires
        b <= s@.len(),
    ensures
        as_int(r) == nested_path_id(s@, b as int),
{
    let f = run_end_exec(s, b, CharClass::NotSlash);
    if !(b < f && f < s.len()) {
        return None;
    }
    let nl = run_end_exec(s, f + 1, CharClass::NotNewline);
    if nl - f < 2 {
        return None;
    }
    let ghost pred = slash_before_id(s@);
    let mut best: Option<usize> = None;
    let mut q = f + 2;
    while q < nl
        invariant
            f + 2 <= q <= nl <= s@.len(),
            pred == slash_before_id(s@),
            as_int(best) == last_in(f + 2, q as int, pred),
            best matches Some(x) ==> x < q,
        decreases nl - q,
    {
        if s[q] == '/' && id_at_exec(s, q + 1) {
            best = Some(q);
        }
        q = q + 1;
    }
    match best {
        Some(x) => Some(x + 1),
        None => None,
    }
}

fn short_path_id_exec(s: &Vec<char>, b: usize) -> (r: Option<usize>)
    requires
        b <= s@.len(),
    ensures
        as_int(r) == short_path_id(s@, b as int),
{
    let v = chars_of("v/");
    let embed = chars_of("embed/");
    let e = chars_of("e/");
    proof {
        reveal_strlit("v/");
        reveal_strlit("embed/");
        reveal_strlit("e/");
    }
    assert(s@.len() == s.len());
    if has_lit_at(s, b, &v) && id_at_exec(s, b + 2) {
        Some(b + 2)
    } else if has_lit_at(s, b, &embed) && id_at_exec(s, b + 6) {
        Some(b + 6)
    } else if has_lit_at(s, b, &e) && id_at_exec(s, b + 2) {
        Some(b + 2)
    } else {
        None
    }
}

fn query_id_exec(s: &Vec<char>, b: usize) -> (r: Option<usize>)
    requires
        b <= s@.len(),
    ensures
        as_int(r) == query_id(s@, b as int),
{
    let nl = run_end_exec(s, b, CharClass::NotNewline);
    assert(s@.len() == s.len());
    let key = chars_of("v=");
    proof {
        reveal_strlit("v=");
    }
    let ghost pred = query_before_id(s@);
    let mut best: Option<usize> = None;
    let mut j = b;
    while j < nl
        invariant
            b <= j <= nl <= s@.len(),
            s@.len() == s.len(),
            key@ == "v="@,
            key@.len() == 2,
            pred == query_before_id(s@),
            as_int(best) == last_in(b as int, j as int, pred),
            best matches Some(x) ==> x < j && x + 3 <= s@.len(),
        decreases nl - j,
    {
        if (s[j] == '?' || s[j] == '&') && has_lit_at(s, j + 1, &key) && id_at_exec(s, j + 3) {
            best = Some(j);
        }
        j = j + 1;
    }
    match best {
        Some(x) => Some(x + 3),
        None => None,
    }
}

fn video_id_at_exec(s: &Vec<char>, p: usize) -> (r: Option<usize>)
    requires
        p <= s@.len(),
    ensures
        as_int(r) == video_id_at(s@, p as int),
{
    assert(s@.len() == s.len());
    let long = chars_of("youtube.com/");
    let short = chars_of("youtu.be/");
    proof {
        reveal_strlit("youtube.com/");
        reveal_strlit("youtu.be/");
    }
    if has_lit_at(s, p, &long) {
        let b = p + 12;
        match nested_path_id_exec(s, b) {
            Some(i) => Some(i),
            None => match short_path_id_exec(s, b) {
                Some(i) => Some(i),
                None => query_id_exec(s, b),
            },
        }
    } else if has_lit_at(s, p, &short) && id_at_exec(s, p + 9) {
        Some(p + 9)
    } else {
        None
    }
}

/// Where the captured video id starts in `s`.
pub fn video_id_start_exec(s: &Vec<char>) -> (r: Option<usize>)
    ensures
        as_int(r) == video_id_start(s@),
        r matches Some(i) ==> id_at(s@, i as int),
{
    let n = s.len();
    let ghost m = video_id_matcher(s@);
    let mut p: usize = 0;
    while p < n
        invariant
            n == s@.len(),
            p <= n,
            m == video_id_matcher(s@),
            first_some(0, n as int, m) == first_some(p as int, n as int, m),
        decreases n - p,
    {
        let found = video_id_at_exec(s, p);
        if found.is_some() {
            proof {
                lemma_video_id_start_valid(s@);
            }
            return found;
        }
        p = p + 1;
    }
    None
}

/// Extract a YouTube video ID from a URL.
///
/// Returns `None` if the URL does not contain a recognisable video ID.
pub fn extract_video_id(url: &str) -> (r: Option<String>)
    ensures
        match r {
            Some(id) => video_id_of(url@) == Some(id@) && id@.len() == 11,
            None => video_id_of(url@) is None,
        },
{
    let s = chars_of(url);
    match video_id_start_exec(&s) {
        Some(i) => Some(substring(url, i, i + 11)),
        None => None,
    }
}

// The key pattern of `regex` notation
//   "INNERTUBE_API_KEY"\s*:\s*"([A-Za-z0-9_-]+)"
// Each repetition is followed by a character outside its class, so only its
// longest run can let the rest match.

/// The key that a match beginning at `p` captures, as its start and end.
pub open spec fn key_at(s: Seq<char>, p: int) -> Option<(int, int)> {
    if lit_at(s, p, "\"INNERTUBE_API_KEY\""@) {
        let a = run_end(s, p + 19, CharClass::WhiteSpace);
        if a < s.len() && s[a] == ':' {
            let c = run_end(s, a + 1, CharClass::WhiteSpace);
            if c < s.len() && s[c] == '"' {
                let e = run_end(s, c + 1, CharClass::KeyChar);
                if c + 1 < e < s.len() && s[e] == '"' {
                    Some((c + 1, e))
                } else {
                    None
                }
            } else {
                None
            }
        } else {
            None
        }
    } else {
        None
    }
}

pub open spec fn key_matcher(s: Seq<char>) -> spec_fn(int) -> Option<(int, int)> {
    |p: int| key_at(s, p)
}

/// The `INNERTUBE_API_KEY` value that the leftmost match captures.
pub open spec fn innertube_key_of(s: Seq<char>) -> Option<Seq<char>> {
    match first_some(0, s.len() as int, key_matcher(s)) {
        Some((i, e)) => Some(s.subrange(i, e)),
        None => None,
    }
}

// The title pattern of `regex` notation: <title>([^<]*)</title>

/// The text that a match beginning at `p` captures, as its start and end.
pub open spec fn title_at(s: Seq<char>, p: int) -> Option<(int, int)> {
    if lit_at(s, p, "<title>"@) {
        let e = run_end(s, p + 7, CharClass::NotLessThan);
        if lit_at(s, e, "</title>"@) {
            Some((p + 7, e))
        } else {
            None
        }
    } else {
        None
    }
}

pub open spec fn title_matcher(s: Seq<char>) -> spec_fn(int) -> Option<(int, int)> {
    |p: int| title_at(s, p)
}

/// The page title: the leftmost match's text, trimmed.
pub open spec fn title_of(s: Seq<char>) -> Option<Seq<char>> {
    match first_some(0, s.len() as int, title_matcher(s)) {
        Some((i, e)) => Some(trim(s.subrange(i, e))),
        None => None,
    }
}

/// A span whose ends are in order and inside `s`.
pub open spec fn span_in(s: Seq<char>, r: Option<(int, int)>) -> bool {
    r matches Some((i, e)) ==> 0 <= i <= e <= s.len()
}

proof fn lemma_first_span_in(s: Seq<char>, m: spec_fn(int) -> Option<(int, int)>)
    requires
        forall|p: int| 0 <= p < s.len() ==> span_in(s, #[trigger] m(p)),
    ensures
        span_in(s, first_some(0, s.len() as int, m)),
{
    lemma_first_some_in(0, s.len() as int, m);
    if let Some(v) = first_some(0, s.len() as int, m) {
        let p = choose|p: int| 0 <= p < s.len() && #[trigger] m(p) == Some(v);
        assert(span_in(s, m(p)));
    }
}

fn key_at_exec(s: &Vec<char>, p: usize) -> (r: Option<(usize, usize)>)
    requires
        p <= s@.len(),
    ensures
        match r {
            Some((i, e)) => key_at(s@, p as int) == Some((i as int, e as int)),
            None => key_at(s@, p as int) is None,
        },
        span_in(s@, key_at(s@, p as int)),
{
    assert(s@.len() == s.len());
    let name = chars_of("\"INNERTUBE_API_KEY\"");
    proof {
        reveal_strlit("\"INNERTUBE_API_KEY\"");
    }
    if !has_lit_at(s, p, &name) {
        return None;
    }
    let a = run_end_exec(s, p + 19, CharClass::WhiteSpace);
    if !(a < s.len() && s[a] == ':') {
        return None;
    }
    let c = run_end_exec(s, a + 1, CharClass::WhiteSpace);
    if !(c < s.len() && s[c] == '"') {
        return None;
    }
    let e = run_end_exec(s, c + 1, CharClass::KeyChar);
    if c + 1 < e && e < s.len() && s[e] == '"' {
        Some((c + 1, e))
    } else {
        None
    }
}

/// Fetch the INNERTUBE_API_KEY embedded in the YouTube watch page HTML.
pub fn extract_innertube_key(html: &str) -> (r: Option<String>)
    ensures
        match r {
            Some(k) => innertube_key_of(html@) == Some(k@),
            None => innertube_key_of(html@) is None,
        },
{
    let s = chars_of(html);
    let n = s.len();
    let ghost m = key_matcher(s@);
    proof {
        assert forall|p: int| 0 <= p < s@.len() implies span_in(s@, #[trigger] m(p)) by {
            key_at_span(s@, p);
        }
        lemma_first_span_in(s@, m);
    }
    let mut p: usize = 0;
    while p < n
        invariant
            n == s@.len(),
            p <= n,
            m == key_matcher(s@),
            s@ == html@,
            first_some(0, n as int, m) == first_some(p as int, n as int, m),
            span_in(s@, first_some(0, n as int, m)),
        decreases n - p,
    {
        if let Some((i, e)) = key_at_exec(&s, p) {
            return Some(substring(html, i, e));
        }
        p = p + 1;
    }
    None
}

proof fn key_at_span(s: Seq<char>, p: int)
    ensures
        span_in(s, key_at(s, p)),
{
    if lit_at(s, p, "\"INNERTUBE_API_KEY\""@) {
        reveal_strlit("\"INNERTUBE_API_KEY\"");
        crate::charclass::lemma_run_end(s, p + 19, CharClass::WhiteSpace);
        let a = run_end(s, p + 19, CharClass::WhiteSpace);
        if a < s.len() {
            crate::charclass::lemma_run_end(s, a + 1, CharClass::WhiteSpace);
            let c = run_end(s, a + 1, CharClass::WhiteSpace);
            if c < s.len() {
                crate::charclass::lemma_run_end(s, c + 1, CharClass::KeyChar);
            }
        }
    }
}

proof fn title_at_span(s: Seq<char>, p: int)
    ensures
        span_in(s, title_at(s, p)),
{
    if lit_at(s, p, "<title>"@) {
        reveal_strlit("<title>");
        crate::charclass::lemma_run_end(s, p + 7, CharClass::NotLessThan);
    }
}

fn title_at_exec(s: &Vec<char>, p: usize) -> (r: Option<(usize, usize)>)
    requires
        p <= s@.len(),
    ensures
        match r {
            Some((i, e)) => title_at(s@, p as int) == Some((i as int, e as int)),
            None => title_at(s@, p as int) is None,
        },
{
    assert(s@.len() == s.len());
    let open = chars_of("<title>");
    let close = chars_of("</title>");
    proof {
        reveal_strlit("<title>");
    }
    if !has_lit_at(s, p, &open) {
        return None;
    }
    let e = run_end_exec(s, p + 7, CharClass::NotLessThan);
    if has_lit_at(s, e, &close) {
        Some((p + 7, e))
    } else {
        None
    }
}

/// Extract the page title from HTML.
pub fn extract_title(html: &str) -> (r: Option<String>)
    ensures
        match r {
            Some(t) => title_of(html@) == Some(t@),
            None => title_of(html@) is None,
        },
{
    let s = chars_of(html);
    let n = s.len();
    let ghost m = title_matcher(s@);
    proof {
        assert forall|p: int| 0 <= p < s@.len() implies span_in(s@, #[trigger] m(p)) by {
            title_at_span(s@, p);
        }
        lemma_first_span_in(s@, m);
    }
    let mut p: usize = 0;
    while p < n
        invariant
            n == s@.len(),
            p <= n,
            m == title_matcher(s@),
            s@ == html@,
            first_some(0, n as int, m) == first_some(p as int, n as int, m),
            span_in(s@, first_some(0, n as int, m)),
        decreases n - p,
    {
        if let Some((i, e)) = title_at_exec(&s, p) {
            let raw = substring(html, i, e);
            return Some(trim_str(raw.as_str()));
        }
        p = p + 1;
    }
    None
}

/// Why no caption URL could be chosen.
#[derive(Debug)]
pub enum CaptionError {
    /// The response lists no caption track.
    NoCaptionTracks,
    /// No track has the asked language; the languages that the tracks have.
    LanguageNotAvailable { lang: String, available: Vec<String> },
    /// The chosen track has no `baseUrl` text.
    MissingBaseUrl,
}

pub enum CaptionErrorView {
    NoCaptionTracks,
    LanguageNotAvailable(Seq<char>, Seq<Seq<char>>),
    MissingBaseUrl,
}

impl View for CaptionError {
    type V = CaptionErrorView;

    open spec fn view(&self) -> CaptionErrorView {
        match self {
            CaptionError::NoCaptionTracks => CaptionErrorView::NoCaptionTracks,
            CaptionError::LanguageNotAvailable { lang, available } => {
                CaptionErrorView::LanguageNotAvailable(lang@, texts(available@))
            },
            CaptionError::MissingBaseUrl => CaptionErrorView::MissingBaseUrl,
        }
    }
}

/// A caption error as text.
pub open spec fn caption_error_text(e: CaptionErrorView) -> Seq<char> {
    match e {
        CaptionErrorView::NoCaptionTracks => "No caption tracks available for this video"@,
        CaptionErrorView::LanguageNotAvailable(lang, available) => "Language '"@ + lang
            + "' not available. Available: "@ + join(available, ", "@),
        CaptionErrorView::MissingBaseUrl => "Missing baseUrl in caption track"@,
    }
}

impl CaptionError {
    /// The error as text.
    pub fn message(&self) -> (r: String)
        ensures
            r@ == caption_error_text(self@),
    {
        match self {
            CaptionError::NoCaptionTracks => String::from_str(
                "No caption tracks available for this video",
            ),
            CaptionError::LanguageNotAvailable { lang, available } => {
                let mut m = String::from_str("Language '");
                m.append(lang.as_str());
                m.append("' not available. Available: ");
                let list = join_strings(available, ", ");
                m.append(list.as_str());
                m
            },
            CaptionError::MissingBaseUrl => String::from_str("Missing baseUrl in caption track"),
        }
    }
}

/// An optional text as an optional character sequence.
pub open spec fn opt_view(o: Option<&str>) -> Option<Seq<char>> {
    match o {
        Some(s) => Some(s@),
        None => None,
    }
}

/// `captions.playerCaptionsTracklistRenderer.captionTracks`, if it is an array.
pub open spec fn caption_tracks(v: Json) -> Option<Seq<Json>> {
    as_array(
        index(index(index(v, "captions"@), "playerCaptionsTracklistRenderer"@), "captionTracks"@),
    )
}

/// A track's `languageCode` text.
pub open spec fn language_code(t: Json) -> Option<Seq<char>> {
    as_str(index(t, "languageCode"@))
}

/// A track's `baseUrl` text.
pub open spec fn base_url(t: Json) -> Option<Seq<char>> {
    as_str(index(t, "baseUrl"@))
}

pub open spec fn track_matcher(tracks: Seq<Json>, lang: Seq<char>) -> spec_fn(int) -> Option<Json> {
    |i: int|
        if language_code(tracks[i]) == Some(lang) {
            Some(tracks[i])
        } else {
            None
        }
}

/// The track to use: the first one in `lang` when a language is asked for,
/// else the first one.
pub open spec fn chosen_track(tracks: Seq<Json>, lang: Option<Seq<char>>) -> Option<Json> {
    match lang {
        Some(l) => first_some(0, tracks.len() as int, track_matcher(tracks, l)),
        None => if tracks.len() > 0 {
            Some(tracks[0])
        } else {
            None
        },
    }
}

/// The language codes of the tracks that have one, in order.
pub open spec fn available_languages(tracks: Seq<Json>) -> Seq<Seq<char>>
    decreases tracks.len(),
{
    if tracks.len() == 0 {
        Seq::empty()
    } else {
        let rest = available_languages(tracks.drop_last());
        match language_code(tracks.last()) {
            Some(code) => rest.push(code),
            None => rest,
        }
    }
}

/// The caption URL that YouTube serves as plain XML: `&fmt=srv3` removed.
pub open spec fn plain_caption_url(raw: Seq<char>) -> Seq<char> {
    replace_all(raw, "&fmt=srv3"@, ""@)
}

/// The title and caption URL that an Innertube player response yields.
pub open spec fn caption_info(v: Json, title: Seq<char>, lang: Option<Seq<char>>) -> Result<
    (Seq<char>, Seq<char>),
    CaptionErrorView,
> {
    match caption_tracks(v) {
        Some(tracks) => if tracks.len() == 0 {
            Err(CaptionErrorView::NoCaptionTracks)
        } else {
            match chosen_track(tracks, lang) {
                Some(track) => match base_url(track) {
                    Some(raw) => Ok((title, plain_caption_url(raw))),
                    None => Err(CaptionErrorView::MissingBaseUrl),
                },
                None => Err(
                    CaptionErrorView::LanguageNotAvailable(lang->0, available_languages(tracks)),
                ),
            }
        },
        None => Err(CaptionErrorView::NoCaptionTracks),
    }
}

fn language_code_exec(t: &Json) -> (r: Option<&String>)
    ensures
        match r {
            Some(c) => language_code(*t) == Some(c@),
            None => language_code(*t) is None,
        },
{
    match t.get("languageCode") {
        Some(v) => v.as_str(),
        None => None,
    }
}

fn available_languages_exec(tracks: &Vec<Json>) -> (r: Vec<String>)
    ensures
        texts(r@) == available_languages(tracks@),
{
    let mut out: Vec<String> = Vec::new();
    let n = tracks.len();
    let mut i: usize = 0;
    while i < n
        invariant
            n == tracks@.len(),
            i <= n,
            texts(out@) == available_languages(tracks@.take(i as int)),
        decreases n - i,
    {
        proof {
            assert(tracks@.take(i + 1).drop_last() =~= tracks@.take(i as int));
            assert(tracks@.take(i + 1).last() == tracks@[i as int]);
        }
        let ghost before = out@;
        if let Some(code) = language_code_exec(&tracks[i]) {
            out.push(code.clone());
            proof {
                assert(texts(out@) =~= texts(before).push(code@));
            }
        }
        i = i + 1;
    }
    assert(tracks@.take(n as int) =~= tracks@);
    out
}

/// The first track whose language is `lang`.
fn find_track<'a>(tracks: &'a Vec<Json>, lang: &str) -> (r: Option<&'a Json>)
    ensures
        match r {
            Some(t) => first_some(0, tracks@.len() as int, track_matcher(tracks@, lang@)) == Some(
                *t,
            ),
            None => first_some(0, tracks@.len() as int, track_matcher(tracks@, lang@)) is None,
        },
{
    let want = String::from_str(lang);
    let n = tracks.len();
    let ghost m = track_matcher(tracks@, lang@);
    let mut i: usize = 0;
    while i < n
        invariant
            n == tracks@.len(),
            i <= n,
            want@ == lang@,
            m == track_matcher(tracks@, lang@),
            first_some(0, n as int, m) == first_some(i as int, n as int, m),
        decreases n - i,
    {
        if let Some(code) = language_code_exec(&tracks[i]) {
            if *code == want {
                return Some(&tracks[i]);
            }
        }
        i = i + 1;
    }
    None
}

/// Parse the captions track list from an Innertube player API JSON response.
///
/// Returns `(title, caption_url)`. The `&fmt=srv3` suffix is stripped from the
/// caption URL so that YouTube serves plain XML instead of the srv3 format.
pub fn extract_caption_info_from_innertube(
    innertube_json: &Json,
    page_title: &str,
    lang: Option<&str>,
) -> (r: Result<(String, String), CaptionError>)
    ensures
        match r {
            Ok((title, url)) => caption_info(*innertube_json, page_title@, opt_view(lang))
                == Ok::<(Seq<char>, Seq<char>), CaptionErrorView>((title@, url@)),
            Err(e) => caption_info(*innertube_json, page_title@, opt_view(lang)) == Err::<
                (Seq<char>, Seq<char>),
                CaptionErrorView,
            >(e@),
        },
{
    let tracks = match innertube_json.get("captions") {
        Some(a) => match a.get("playerCaptionsTracklistRenderer") {
            Some(b) => match b.get("captionTracks") {
                Some(c) => c.as_array(),
                None => None,
            },
            None => None,
        },
        None => None,
    };
    let tracks = match tracks {
        Some(t) => t,
        None => return Err(CaptionError::NoCaptionTracks),
    };
    if tracks.len() == 0 {
        return Err(CaptionError::NoCaptionTracks);
    }
    let track = match lang {
        Some(code) => match find_track(tracks, code) {
            Some(t) => t,
            None => {
                return Err(
                    CaptionError::LanguageNotAvailable {
                        lang: String::from_str(code),
                        available: available_languages_exec(tracks),
                    },
                );
            },
        },
        None => &tracks[0],
    };
    let raw = match track.get("baseUrl") {
        Some(v) => match v.as_str() {
            Some(u) => u,
            None => return Err(CaptionError::MissingBaseUrl),
        },
        None => return Err(CaptionError::MissingBaseUrl),
    };
    proof {
        reveal_strlit("&fmt=srv3");
    }
    let url = replace_str(raw.as_str(), "&fmt=srv3", "");
    Ok((String::from_str(page_title), url))
}

/// A single caption line from a YouTube transcript.
///
/// The times are kept as the text of the caption's `start` and `dur`
/// attributes (empty when absent); they read as seconds.
#[derive(Debug, PartialEq)]
pub struct TranscriptLine {
    /// Decoded caption text.
    pub text: String,
    /// Start time in seconds, as written.
    pub offset: String,
    /// Duration in seconds, as written.
    pub duration: String,
}

/// A full transcript with title and lines.
#[derive(Debug)]
pub struct Transcript {
    pub title: String,
    pub lines: Vec<TranscriptLine>,
}

/// Why a transcript could not be read.
#[derive(Debug)]
pub enum TranscriptError {
    /// The XML reader failed.
    Xml(quick_xml::Error),
    /// An attribute of a caption is malformed.
    Attribute(quick_xml::events::attributes::AttrError),
    /// An attribute value of a caption is not UTF-8.
    Utf8(core::str::Utf8Error),
}

/// Every line's text is non-empty and has no white space at either end.
pub open spec fn lines_trimmed(lines: Seq<TranscriptLine>) -> bool {
    forall|i: int| 0 <= i < lines.len() ==> is_trimmed_nonempty(#[trigger] lines[i].text@)
}

/// Whether two byte strings are equal.
fn bytes_eq(a: &Vec<u8>, b: &Vec<u8>) -> (r: bool)
    ensures
        r == (a@ == b@),
{
    if a.len() != b.len() {
        return false;
    }
    let mut i: usize = 0;
    while i < a.len()
        invariant
            a@.len() == b@.len(),
            i <= a@.len(),
            forall|j: int| 0 <= j < i ==> a@[j] == b@[j],
        decreases a@.len() - i,
    {
        if a[i] != b[i] {
            return false;
        }
        i = i + 1;
    }
    assert(a@ =~= b@);
    true
}

/// `start` in ASCII.
pub open spec fn start_key() -> Seq<u8> {
    seq![115u8, 116, 97, 114, 116]
}

/// `dur` in ASCII.
pub open spec fn dur_key() -> Seq<u8> {
    seq![100u8, 117, 114]
}

/// A caption's `start` and `dur` texts after one more of its attributes:
/// a `start` or `dur` attribute sets that text, any other leaves both.
pub open spec fn times_after(
    times: (Seq<char>, Seq<char>),
    key: Seq<u8>,
    value: Seq<char>,
) -> (Seq<char>, Seq<char>) {
    if key == start_key() {
        (value, times.1)
    } else if key == dur_key() {
        (times.0, value)
    } else {
        times
    }
}

/// Take one attribute (its raw key and decoded value) into a caption's
/// `start` and `dur` texts.
fn record_time(start: String, dur: String, key: &Vec<u8>, value: String) -> (r: (String, String))
    ensures
        (r.0@, r.1@) == times_after((start@, dur@), key@, value@),
{
    let start_bytes: Vec<u8> = vec![115u8, 116, 97, 114, 116];
    let dur_bytes: Vec<u8> = vec![100u8, 117, 114];
    assert(start_bytes@ =~= start_key());
    assert(dur_bytes@ =~= dur_key());
    if bytes_eq(key, &start_bytes) {
        (value, dur)
    } else if bytes_eq(key, &dur_bytes) {
        (start, value)
    } else {
        (start, dur)
    }
}

/// Take one caption text (escapes already resolved) into the transcript:
/// trimmed, with its times, unless nothing is left after trimming.
fn add_caption(lines: &mut Vec<TranscriptLine>, raw: &str, start: String, dur: String)
    ensures
        trim(raw@).len() == 0 ==> final(lines)@ == old(lines)@,
        trim(raw@).len() > 0 ==> {
            &&& final(lines)@.len() == old(lines)@.len() + 1
            &&& final(lines)@.take(old(lines)@.len() as int) == old(lines)@
            &&& final(lines)@.last().text@ == trim(raw@)
            &&& final(lines)@.last().offset@ == start@
            &&& final(lines)@.last().duration@ == dur@
        },
{
    let text = trim_str(raw);
    if text.as_str().unicode_len() > 0 {
        lines.push(TranscriptLine { text, offset: start, duration: dur });
        assert(lines@.take(lines@.len() - 1) =~= old(lines)@);
    }
}

/// The kind of a [`TranscriptError`].
pub enum TranscriptErrorKind {
    Xml,
    Attribute,
    Utf8,
}

impl TranscriptError {
    pub open spec fn kind(&self) -> TranscriptErrorKind {
        match self {
            TranscriptError::Xml(_) => TranscriptErrorKind::Xml,
            TranscriptError::Attribute(_) => TranscriptErrorKind::Attribute,
            TranscriptError::Utf8(_) => TranscriptErrorKind::Utf8,
        }
    }
}

/// A line as its text, start and duration.
pub open spec fn line_view(l: TranscriptLine) -> (Seq<char>, Seq<char>, Seq<char>) {
    (l.text@, l.offset@, l.duration@)
}

pub open spec fn lines_view(lines: Seq<TranscriptLine>) -> Seq<(Seq<char>, Seq<char>, Seq<char>)> {
    lines.map_values(|l: TranscriptLine| line_view(l))
}

/// `text` in ASCII.
pub open spec fn text_tag() -> Seq<u8> {
    seq![116u8, 101, 120, 116]
}

/// A caption's `start` and `dur` texts, from `times` on, after its
/// attributes in order; the first failed attribute, or value that is not
/// UTF-8, is the error.
pub open spec fn times_of(
    attributes: Seq<Option<(Seq<u8>, Seq<u8>)>>,
    times: (Seq<char>, Seq<char>),
) -> Result<(Seq<char>, Seq<char>), TranscriptErrorKind>
    decreases attributes.len(),
{
    if attributes.len() == 0 {
        Ok(times)
    } else {
        match attributes[0] {
            None => Err(TranscriptErrorKind::Attribute),
            Some((key, value)) => if valid_utf8(value) {
                times_of(attributes.drop_first(), times_after(times, key, decode_utf8(value)))
            } else {
                Err(TranscriptErrorKind::Utf8)
            },
        }
    }
}

/// `done` followed by the lines of `rest`, or the error of `rest`.
pub open spec fn after_lines(
    done: Seq<(Seq<char>, Seq<char>, Seq<char>)>,
    rest: Result<Seq<(Seq<char>, Seq<char>, Seq<char>)>, TranscriptErrorKind>,
) -> Result<Seq<(Seq<char>, Seq<char>, Seq<char>)>, TranscriptErrorKind> {
    match rest {
        Ok(lines) => Ok(done + lines),
        Err(k) => Err(k),
    }
}

/// The line a caption text gives with its times: none when nothing is left
/// after trimming.
pub open spec fn caption_of(raw: Seq<char>, times: (Seq<char>, Seq<char>)) -> Seq<(Seq<char>, Seq<char>, Seq<char>)> {
    if trim(raw).len() > 0 {
        seq![(trim(raw), times.0, times.1)]
    } else {
        seq![]
    }
}

/// The transcript lines of a run of XML events, `pending` holding the times
/// of a `<text>` start tag just read. A `<text>` start tag whose next event
/// is a text gives that text, trimmed, with the tag's `start` and `dur`
/// texts (empty where absent), unless it is empty after trimming; the
/// event after such a tag is taken by it whatever it is. The end of the input
/// ends the transcript; an error of the reader, of a text's escapes or of
/// the tag's attributes fails it.
pub open spec fn lines_from(
    events: Seq<EventView>,
    pending: Option<(Seq<char>, Seq<char>)>,
) -> Result<Seq<(Seq<char>, Seq<char>, Seq<char>)>, TranscriptErrorKind>
    decreases events.len(),
{
    if events.len() == 0 {
        Ok(seq![])
    } else {
        let rest = events.drop_first();
        match events[0] {
            EventView::Error => Err(TranscriptErrorKind::Xml),
            EventView::Eof => Ok(seq![]),
            EventView::Text(text) => match pending {
                Some(times) => match text {
                    Some(raw) => after_lines(caption_of(raw, times), lines_from(rest, None)),
                    None => Err(TranscriptErrorKind::Xml),
                },
                None => lines_from(rest, None),
            },
            EventView::Start { name, attributes } => if pending is None && name == text_tag() {
                match times_of(attributes, (seq![], seq![])) {
                    Ok(times) => lines_from(rest, Some(times)),
                    Err(k) => Err(k),
                }
            } else {
                lines_from(rest, None)
            },
            EventView::Other => lines_from(rest, None),
        }
    }
}

/// The transcript lines of a document's XML events.
pub open spec fn transcript_of(events: Seq<EventView>) -> Result<Seq<(Seq<char>, Seq<char>, Seq<char>)>, TranscriptErrorKind> {
    lines_from(events, None)
}

proof fn lemma_after_lines_assoc(
    a: Seq<(Seq<char>, Seq<char>, Seq<char>)>,
    b: Seq<(Seq<char>, Seq<char>, Seq<char>)>,
    rest: Result<Seq<(Seq<char>, Seq<char>, Seq<char>)>, TranscriptErrorKind>,
)
    ensures
        after_lines(a, after_lines(b, rest)) == after_lines(a + b, rest),
{
    if let Ok(lines) = rest {
        assert(a + (b + lines) =~= (a + b) + lines);
    }
}

/// The `start` and `dur` texts of a caption's start tag, from its attributes.
pub fn caption_times(attributes: &Vec<Result<(Vec<u8>, Vec<u8>), AttrError>>) -> (r: Result<
    (String, String),
    TranscriptError,
>)
    ensures
        ({
            let all = attributes@.map_values(|a: Result<(Vec<u8>, Vec<u8>), AttrError>| attribute_view(a));
            match r {
                Ok(times) => times_of(all, (seq![], seq![])) == Ok::<_, TranscriptErrorKind>((times.0@, times.1@)),
                Err(e) => times_of(all, (seq![], seq![])) == Err::<(Seq<char>, Seq<char>), _>(e.kind()),
            }
        }),
{
    let ghost all = attributes@.map_values(|a: Result<(Vec<u8>, Vec<u8>), AttrError>| attribute_view(a));
    let mut start = String::new();
    let mut dur = String::new();
    proof {
        assert(start@ =~= seq![]);
        assert(dur@ =~= seq![]);
        assert(all.skip(0) =~= all);
    }
    let mut i: usize = 0;
    while i < attributes.len()
        invariant
            i <= attributes@.len(),
            all == attributes@.map_values(|a: Result<(Vec<u8>, Vec<u8>), AttrError>| attribute_view(a)),
            times_of(all, (seq![], seq![])) == times_of(all.skip(i as int), (start@, dur@)),
        decreases attributes@.len() - i,
    {
        assert(all.skip(i as int).drop_first() =~= all.skip(i + 1));
        assert(all.skip(i as int)[0] == attribute_view(attributes@[i as int]));
        match &attributes[i] {
            Err(err) => return Err(TranscriptError::Attribute(err.clone())),
            Ok((key, value)) => {
                let text = match utf8_text(value) {
                    Ok(v) => v,
                    Err(err) => return Err(TranscriptError::Utf8(err)),
                };
                let times = record_time(start, dur, key, text);
                start = times.0;
                dur = times.1;
            },
        }
        i = i + 1;
    }
    assert(all.skip(i as int) =~= seq![]);
    Ok((start, dur))
}

/// The transcript lines of a run of XML events (see [`lines_from`]).
pub fn lines_of_events(events: &Vec<XmlEvent>) -> (r: Result<Vec<TranscriptLine>, TranscriptError>)
    ensures
        match r {
            Ok(lines) => transcript_of(events_view(events@)) == Ok::<_, TranscriptErrorKind>(lines_view(lines@))
                && lines_trimmed(lines@),
            Err(e) => transcript_of(events_view(events@)) == Err::<Seq<(Seq<char>, Seq<char>, Seq<char>)>, _>(e.kind()),
        },
{
    let ghost all = events_view(events@);
    // `text` in ASCII
    let text_tag_bytes: Vec<u8> = vec![116u8, 101, 120, 116];
    assert(text_tag_bytes@ =~= text_tag());
    let mut lines: Vec<TranscriptLine> = Vec::new();
    // The times of a `<text>` start tag whose next event is still to come.
    let mut pending: Option<(String, String)> = None;
    proof {
        assert(all.skip(0) =~= all);
        assert(lines_view(lines@) + seq![] =~= seq![]);
        lemma_after_lines_assoc(seq![], seq![], lines_from(all, None));
        assert(after_lines(seq![], lines_from(all, None)) == lines_from(all, None)) by {
            if let Ok(ls) = lines_from(all, None) {
                assert(seq![] + ls =~= ls);
            }
        }
    }
    let mut i: usize = 0;
    while i < events.len()
        invariant
            i <= events@.len(),
            all == events_view(events@),
            text_tag_bytes@ == text_tag(),
            lines_trimmed(lines@),
            transcript_of(all) == after_lines(
                lines_view(lines@),
                lines_from(all.skip(i as int), match pending {
                    Some(t) => Some((t.0@, t.1@)),
                    None => None,
                }),
            ),
        decreases events@.len() - i,
    {
        let ghost rest = all.skip(i as int);
        let ghost done = lines_view(lines@);
        assert(rest.drop_first() =~= all.skip(i + 1));
        assert(rest[0] == events@[i as int]@);
        match &events[i] {
            XmlEvent::Error(err) => return Err(TranscriptError::Xml(err.clone())),
            XmlEvent::Eof => {
                assert(done + seq![] =~= done);
                return Ok(lines);
            },
            XmlEvent::Text(text) => {
                match pending {
                    Some((start, dur)) => {
                        let raw = match text {
                            Ok(s) => s,
                            Err(err) => return Err(TranscriptError::Xml(err.clone())),
                        };
                        let ghost before = lines@;
                        let ghost times = (start@, dur@);
                        add_caption(&mut lines, raw.as_str(), start, dur);
                        proof {
                            lemma_trim_ends(raw@);
                            assert forall|j: int| 0 <= j < lines@.len() implies is_trimmed_nonempty(
                                #[trigger] lines@[j].text@,
                            ) by {
                                if j < before.len() {
                                    assert(lines@[j] == lines@.take(before.len() as int)[j]);
                                }
                            }
                            assert(lines_view(lines@) =~= done + caption_of(raw@, times)) by {
                                if trim(raw@).len() > 0 {
                                    assert(lines@.take(before.len() as int) == before);
                                    assert forall|j: int| 0 <= j < before.len() implies lines@[j] == before[j] by {
                                        assert(lines@[j] == lines@.take(before.len() as int)[j]);
                                    }
                                }
                            }
                            lemma_after_lines_assoc(done, caption_of(raw@, times), lines_from(all.skip(i + 1), None));
                        }
                        pending = None;
                    },
                    None => {},
                }
            },
            XmlEvent::Start { name, attributes } => {
                if pending.is_none() && bytes_eq(name, &text_tag_bytes) {
                    match caption_times(attributes) {
                        Ok(times) => {
                            pending = Some(times);
                        },
                        Err(err) => return Err(err),
                    }
                } else {
                    pending = None;
                }
            },
            XmlEvent::Other => {
                pending = None;
            },
        }
        i = i + 1;
    }
    proof {
        assert(all.skip(i as int) =~= seq![]);
        assert(lines_view(lines@) + seq![] =~= lines_view(lines@));
    }
    Ok(lines)
}

/// Parse YouTube transcript XML into a list of [`TranscriptLine`]s.
///
/// YouTube wraps caption text in `<text start="…" dur="…">…</text>` elements.
/// The XML is read with `quick_xml`, which resolves the escapes of the text;
/// what the events of the document are is named by [`xml_events`], and the
/// lines they give are stated by [`transcript_of`].
pub fn parse_transcript_xml(xml: &str) -> (r: Result<Vec<TranscriptLine>, TranscriptError>)
    ensures
        match r {
            Ok(lines) => transcript_of(xml_events(xml@)) == Ok::<_, TranscriptErrorKind>(lines_view(lines@))
                && lines_trimmed(lines@),
            Err(e) => transcript_of(xml_events(xml@)) == Err::<Seq<(Seq<char>, Seq<char>, Seq<char>)>, _>(e.kind()),
        },
{
    let events = read_events(xml);
    lines_of_events(&events)
}

/// The watch page of a video.
pub fn watch_url(video_id: &str) -> (r: String)
    ensures
        r@ == "https://www.youtube.com/watch?v="@ + video_id@,
{
    let mut u = String::from_str("https://www.youtube.com/watch?v=");
    u.append(video_id);
    u
}

/// The Innertube player API endpoint for an API key.
pub fn innertube_url(api_key: &str) -> (r: String)
    ensures
        r@ == "https://www.youtube.com/youtubei/v1/player?key="@ + api_key@,
{
    let mut u = String::from_str("https://www.youtube.com/youtubei/v1/player?key=");
    u.append(api_key);
    u
}

/// The JSON body of an Innertube player request for a video, sent as the
/// Android client (which bot detection does not block).
pub fn innertube_body(video_id: &str) -> (r: String)
    ensures
        r@ == "{\"context\":{\"client\":{\"clientName\":\"ANDROID\",\"clientVersion\":\"20.10.38\"}},\"videoId\":\""@
            + video_id@ + "\"}"@,
{
    let mut b = String::from_str(
        "{\"context\":{\"client\":{\"clientName\":\"ANDROID\",\"clientVersion\":\"20.10.38\"}},\"videoId\":\"",
    );
    b.append(video_id);
    b.append("\"}");
    b
}

/// The headers of an Innertube player request: JSON content, and the
/// language asked for, if any.
pub fn innertube_headers(lang: Option<&str>) -> (r: Vec<(String, String)>)
    ensures
        r@.len() == if lang is Some { 2int } else { 1int },
        r@[0].0@ == "Content-Type"@,
        r@[0].1@ == "application/json"@,
        lang matches Some(l) ==> r@[1].0@ == "Accept-Language"@ && r@[1].1@ == l@,
{
    let mut headers: Vec<(String, String)> = Vec::new();
    headers.push((String::from_str("Content-Type"), String::from_str("application/json")));
    match lang {
        Some(l) => headers.push((String::from_str("Accept-Language"), String::from_str(l))),
        None => {},
    }
    headers
}

/// The title of a watch page, or the video id when the page has none.
pub fn page_title(html: &str, video_id: &str) -> (r: String)
    ensures
        r@ == match title_of(html@) {
            Some(t) => t,
            None => video_id@,
        },
{
    match extract_title(html) {
        Some(t) => t,
        None => String::from_str(video_id),
    }
}

/// Seconds below a minute, written with two digits.
pub open spec fn two_digits(n: nat) -> Seq<char> {
    if n < 10 {
        seq!['0'] + decimal(n)
    } else {
        decimal(n)
    }
}

/// A caption line as printed: `[M:SS] text`, from whole seconds.
pub fn caption_line(secs: u64, text: &str) -> (r: String)
    ensures
        r@ == seq!['['] + decimal((secs / 60) as nat) + seq![':'] + two_digits((secs % 60) as nat)
            + seq![']', ' '] + text@,
{
    let mut out = String::from_str("[");
    let minutes = decimal_string(secs / 60);
    out.append(minutes.as_str());
    out.append(":");
    if secs % 60 < 10 {
        out.append("0");
    }
    let seconds = decimal_string(secs % 60);
    out.append(seconds.as_str());
    out.append("] ");
    out.append(text);
    proof {
        reveal_strlit("[");
        reveal_strlit(":");
        reveal_strlit("0");
        reveal_strlit("] ");
    }
    out
}

} // verus!
