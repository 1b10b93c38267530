# tgrab

Fetches text from services that normally need a browser: YouTube transcripts,
Twitter / X posts (through fxtwitter) and Bluesky posts (through FxEmbed).

- `src/` is the library, verified with Verus: the URL router and the URL
  patterns it uses, the proxy URL rewrites, the reading of YouTube watch
  pages and Innertube responses, the transcript lines that the XML events
  read by `quick-xml` give (the events themselves are `quick-xml`'s, named
  and not restated), the steps of each fetch (what each response leads
  to, through `serde_json`'s parse where it is JSON, and the error texts), and the formatting of posts and caption
  lines. Each pattern is stated as a spec function with the
  leftmost-first semantics of `regex`; `src/laws.rs` proves properties that
  span several functions (for instance that a scheme or `www.` prefix never
  changes where a URL is routed).
- `tests/` runs the library, among others against the `regex` patterns on
  generated URLs.
- `app/` is the command line program: argument parsing, the HTTP requests
  and printing.
