use vstd::prelude::*;
use crate::text::is_white_space;

verus! {

/// Whether `regex` counts `c`, a character beyond ASCII, as a Unicode word
/// character (`\w`).
pub uninterp spec fn regex_word_char(c: char) -> bool;

/// Whether `regex` counts `c`, a character beyond ASCII, as a Unicode
/// decimal digit (`\d`).
pub uninterp spec fn regex_decimal_digit(c: char) -> bool;

/// `\w` of `regex`: on ASCII exactly `[0-9A-Za-z_]`, beyond it what the
/// Unicode tables hold.
pub open spec fn is_word_char(c: char) -> bool {
    if (c as int) < 128 {
        is_ascii_alnum(c) || c == '_'
    } else {
        regex_word_char(c)
    }
}

/// `\d` of `regex`: on ASCII exactly `[0-9]`, beyond it what the Unicode
/// tables hold.
pub open spec fn is_digit_char(c: char) -> bool {
    if (c as int) < 128 {
        '0' <= c <= '9'
    } else {
        regex_decimal_digit(c)
    }
}

/// Calls `regex_syntax::is_word_character`, the test that `regex` uses for
/// `\w`. Its source answers `true` for the ASCII word bytes `[0-9A-Za-z_]`
/// and otherwise looks `c` up in its word table, whose ASCII part holds
/// those same characters; beyond ASCII the table is only named.
#[verifier::external_body]
fn word_char(c: char) -> (r: bool)
    ensures
        (c as int) < 128 ==> r == (is_ascii_alnum(c) || c == '_'),
        (c as int) >= 128 ==> r == regex_word_char(c),
{
    regex_syntax::is_word_character(c)
}

/// Asks `regex` whether the one-character text `c` matches its class `\d`
/// (Unicode `Decimal_Number`, whose table holds `0`-`9` and nothing else
/// of ASCII); beyond ASCII the table is only named.
#[verifier::external_body]
fn decimal_digit(c: char) -> (r: bool)
    ensures
        (c as int) < 128 ==> r == ('0' <= c <= '9'),
        (c as int) >= 128 ==> r == regex_decimal_digit(c),
{
    regex::Regex::new(r"\d").unwrap().is_match(c.encode_utf8(&mut [0u8; 4]))
}

/// The character classes that the URL and page patterns use.
pub enum CharClass {
    /// `\s`
    WhiteSpace,
    /// `\w`
    Word,
    /// `\d`
    Digit,
    /// `[^/]`
    NotSlash,
    /// `[^<]`
    NotLessThan,
    /// `.`: anything but a line feed
    NotNewline,
    /// `[^"]`
    NotQuote,
    /// `[^)]`
    NotCloseParen,
    /// `[A-Za-z0-9_-]`
    KeyChar,
    /// `[^&?/\s]`
    VideoIdChar,
}

pub open spec fn is_ascii_alnum(c: char) -> bool {
    ||| 'A' <= c <= 'Z'
    ||| 'a' <= c <= 'z'
    ||| '0' <= c <= '9'
}

/// Membership of `c` in `class`.
pub open spec fn in_class(class: CharClass, c: char) -> bool {
    match class {
        CharClass::WhiteSpace => is_white_space(c),
        CharClass::Word => is_word_char(c),
        CharClass::Digit => is_digit_char(c),
        CharClass::NotSlash => c != '/',
        CharClass::NotLessThan => c != '<',
        CharClass::NotNewline => c != '\n',
        CharClass::NotQuote => c != '"',
        CharClass::NotCloseParen => c != ')',
        CharClass::KeyChar => is_ascii_alnum(c) || c == '_' || c == '-',
        CharClass::VideoIdChar => c != '&' && c != '?' && c != '/' && !is_white_space(c),
    }
}

/// Whether `c` belongs to `class`.
pub fn class_contains(class: &CharClass, c: char) -> (r: bool)
    ensures
        r == in_class(*class, c),
{
    match class {
        CharClass::WhiteSpace => crate::text::white_space(c),
        CharClass::Word => word_char(c),
        CharClass::Digit => decimal_digit(c),
        CharClass::NotSlash => c != '/',
        CharClass::NotLessThan => c != '<',
        CharClass::NotNewline => c != '\n',
        CharClass::NotQuote => c != '"',
        CharClass::NotCloseParen => c != ')',
        CharClass::KeyChar => ('A' <= c && c <= 'Z') || ('a' <= c && c <= 'z') || ('0' <= c
            && c <= '9') || c == '_' || c == '-',
        CharClass::VideoIdChar => c != '&' && c != '?' && c != '/' && !crate::text::white_space(c),
    }
}

/// The end of the longest run of `class` characters in `s` that starts at `i`.
pub open spec fn run_end(s: Seq<char>, i: int, class: CharClass) -> int
    decreases s.len() - i,
{
    if 0 <= i < s.len() && in_class(class, s[i]) {
        run_end(s, i + 1, class)
    } else {
        i
    }
}

/// Every character of `s` in `[i, j)` belongs to `class`.
pub open spec fn all_in_class(s: Seq<char>, i: int, j: int, class: CharClass) -> bool {
    forall|k: int| i <= k < j ==> #[trigger] in_class(class, s[k])
}

pub proof fn lemma_run_end(s: Seq<char>, i: int, class: CharClass)
    requires
        0 <= i <= s.len(),
    ensures
        i <= run_end(s, i, class) <= s.len(),
        all_in_class(s, i, run_end(s, i, class), class),
        run_end(s, i, class) < s.len() ==> !in_class(class, s[run_end(s, i, class)]),
    decreases s.len() - i,
{
    if i < s.len() && in_class(class, s[i]) {
        lemma_run_end(s, i + 1, class);
    }
}

/// The end of the longest run of `class` characters that starts at `i`.
pub fn run_end_exec(s: &Vec<char>, i: usize, class: CharClass) -> (e: usize)
    requires
        i <= s@.len(),
    ensures
        e == run_end(s@, i as int, class),
        i <= e <= s@.len(),
        all_in_class(s@, i as int, e as int, class),
        e < s@.len() ==> !in_class(class, s@[e as int]),
{
    let mut e = i;
    proof {
        lemma_run_end(s@, i as int, class);
    }
    while e < s.len() && class_contains(&class, s[e])
        invariant
            i <= e <= s@.len(),
            run_end(s@, i as int, class) == run_end(s@, e as int, class),
        decreases s@.len() - e,
    {
        e = e + 1;
    }
    e
}

} // verus!
