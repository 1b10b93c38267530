use vstd::prelude::*;

verus! {

/// `t` occurs in `s` starting at index `i`.
pub open spec fn lit_at(s: Seq<char>, i: int, t: Seq<char>) -> bool {
    &&& 0 <= i
    &&& i + t.len() <= s.len()
    &&& s.subrange(i, i + t.len()) == t
}

/// Unicode `White_Space`: the class of `\s` in `regex` and of `char::is_whitespace`.
pub open spec fn is_white_space(c: char) -> bool {
    ||| '\t' <= c <= '\r'
    ||| c == ' '
    ||| c == '\u{85}'
    ||| c == '\u{a0}'
    ||| c == '\u{1680}'
    ||| '\u{2000}' <= c <= '\u{200a}'
    ||| c == '\u{2028}'
    ||| c == '\u{2029}'
    ||| c == '\u{202f}'
    ||| c == '\u{205f}'
    ||| c == '\u{3000}'
}

/// `s` with every non-overlapping occurrence of `from`, taken left to right,
/// replaced by `to` (as `str::replace` does for a non-empty pattern).
pub open spec fn replace_all(s: Seq<char>, from: Seq<char>, to: Seq<char>) -> Seq<char>
    decreases s.len(),
{
    if from.len() == 0 || s.len() < from.len() {
        s
    } else if s.take(from.len() as int) == from {
        to + replace_all(s.skip(from.len() as int), from, to)
    } else {
        seq![s[0]] + replace_all(s.skip(1), from, to)
    }
}

/// `s` without its leading white space.
pub open spec fn trim_start(s: Seq<char>) -> Seq<char>
    decreases s.len(),
{
    if s.len() > 0 && is_white_space(s[0]) {
        trim_start(s.skip(1))
    } else {
        s
    }
}

/// `s` without its trailing white space.
pub open spec fn trim_end(s: Seq<char>) -> Seq<char>
    decreases s.len(),
{
    if s.len() > 0 && is_white_space(s.last()) {
        trim_end(s.drop_last())
    } else {
        s
    }
}

/// `s` without leading and trailing white space (as `str::trim`).
pub open spec fn trim(s: Seq<char>) -> Seq<char> {
    trim_end(trim_start(s))
}

/// Whether `c` is Unicode white space.
pub fn white_space(c: char) -> (r: bool)
    ensures
        r == is_white_space(c),
{
    ('\t' <= c && c <= '\r') || c == ' ' || c == '\u{85}' || c == '\u{a0}' || c == '\u{1680}'
        || ('\u{2000}' <= c && c <= '\u{200a}') || c == '\u{2028}' || c == '\u{2029}'
        || c == '\u{202f}' || c == '\u{205f}' || c == '\u{3000}'
}

/// The last `i` in `[lo, hi)` with `p(i)`: where a greedy repetition,
/// backing off from its longest extent, first lets the rest match.
pub open spec fn last_in(lo: int, hi: int, p: spec_fn(int) -> bool) -> Option<int>
    decreases hi - lo,
{
    if hi <= lo {
        None
    } else if p(hi - 1) {
        Some(hi - 1)
    } else {
        last_in(lo, hi - 1, p)
    }
}

/// The value of `m` at the first `i` in `[lo, hi)` where it has one: the
/// leftmost position at which a search succeeds.
pub open spec fn first_some<T>(lo: int, hi: int, m: spec_fn(int) -> Option<T>) -> Option<T>
    decreases hi - lo,
{
    if hi <= lo {
        None
    } else {
        match m(lo) {
            Some(v) => Some(v),
            None => first_some(lo + 1, hi, m),
        }
    }
}

/// An optional index, as a mathematical integer.
pub open spec fn as_int(o: Option<usize>) -> Option<int> {
    match o {
        Some(x) => Some(x as int),
        None => None,
    }
}

pub proof fn lemma_last_in_found(lo: int, hi: int, p: spec_fn(int) -> bool)
    ensures
        last_in(lo, hi, p) matches Some(i) ==> lo <= i < hi && p(i),
    decreases hi - lo,
{
    if hi > lo && !p(hi - 1) {
        lemma_last_in_found(lo, hi - 1, p);
    }
}

pub proof fn lemma_first_some_in<T>(lo: int, hi: int, m: spec_fn(int) -> Option<T>)
    ensures
        first_some(lo, hi, m) matches Some(v) ==> exists|i: int| lo <= i < hi && #[trigger] m(i) == Some(v),
        first_some(lo, hi, m) is None <==> forall|i: int| lo <= i < hi ==> #[trigger] m(i) is None,
    decreases hi - lo,
{
    if hi > lo {
        if m(lo) is None {
            lemma_first_some_in(lo + 1, hi, m);
            if first_some(lo, hi, m) is None {
                assert forall|i: int| lo <= i < hi implies #[trigger] m(i) is None by {
                    if i > lo {
                        assert(m(i) is None);
                    }
                }
            }
        }
    }
}

/// The items of `items` with `sep` between each two.
pub open spec fn join(items: Seq<Seq<char>>, sep: Seq<char>) -> Seq<char>
    decreases items.len(),
{
    if items.len() == 0 {
        Seq::empty()
    } else if items.len() == 1 {
        items[0]
    } else {
        join(items.drop_last(), sep) + sep + items.last()
    }
}

/// The texts of a list of strings.
pub open spec fn texts(items: Seq<String>) -> Seq<Seq<char>> {
    items.map_values(|s: String| s@)
}

/// `items.join(sep)`.
pub fn join_strings(items: &Vec<String>, sep: &str) -> (r: String)
    ensures
        r@ == join(texts(items@), sep@),
{
    let mut out = String::new();
    let n = items.len();
    let mut i: usize = 0;
    while i < n
        invariant
            n == items@.len(),
            i <= n,
            out@ == join(texts(items@).take(i as int), sep@),
        decreases n - i,
    {
        proof {
            assert(texts(items@).take(i + 1).drop_last() =~= texts(items@).take(i as int));
            assert(texts(items@).take(i + 1).last() == items@[i as int]@);
        }
        if i > 0 {
            out.append(sep);
        } else {
            assert(out@ =~= Seq::<char>::empty());
        }
        out.append(items[i].as_str());
        i = i + 1;
    }
    assert(texts(items@).take(n as int) =~= texts(items@));
    out
}

/// The decimal digit for `d < 10`.
pub open spec fn digit_char(d: nat) -> char {
    (('0' as u32) + d) as char
}

/// `n` written in decimal, without leading zeros (`0` for zero).
pub open spec fn decimal(n: nat) -> Seq<char>
    decreases n,
{
    if n < 10 {
        seq![digit_char(n)]
    } else {
        decimal(n / 10).push(digit_char(n % 10))
    }
}

/// The one-character text of the decimal digit `d`.
fn digit_str(d: u64) -> (r: &'static str)
    requires
        d < 10,
    ensures
        r@ == seq![digit_char(d as nat)],
{
    let digits: &'static str = "0123456789";
    proof {
        reveal_strlit("0123456789");
    }
    let r = digits.substring_char(d as usize, d as usize + 1);
    assert(r@ =~= seq![digit_char(d as nat)]) by {
        assert(r@.len() == 1);
        assert(r@[0] == digits@[d as int]);
        if d == 0 {} else if d == 1 {} else if d == 2 {} else if d == 3 {} else if d == 4 {}
        else if d == 5 {} else if d == 6 {} else if d == 7 {} else if d == 8 {} else {}
    }
    r
}

/// `n` written in decimal.
pub fn decimal_string(n: u64) -> (r: String)
    ensures
        r@ == decimal(n as nat),
    decreases n,
{
    if n < 10 {
        String::from_str(digit_str(n))
    } else {
        let mut s = decimal_string(n / 10);
        s.append(digit_str(n % 10));
        s
    }
}

/// The characters of `s`, in order, as a vector.
pub fn chars_of(s: &str) -> (v: Vec<char>)
    ensures
        v@ == s@,
{
    let mut v: Vec<char> = Vec::new();
    for c in it: s.chars()
        invariant
            v@ == it.seq().take(it.index() as int),
    {
        v.push(c);
    }
    v
}

/// Whether `t` occurs in `s` at index `i`.
pub fn has_lit_at(s: &Vec<char>, i: usize, t: &Vec<char>) -> (r: bool)
    ensures
        r == lit_at(s@, i as int, t@),
{
    if t.len() > s.len() || i > s.len() - t.len() {
        return false;
    }
    let mut k: usize = 0;
    while k < t.len()
        invariant
            i + t.len() <= s.len(),
            k <= t.len(),
            forall|j: int| 0 <= j < k ==> s@[i + j] == t@[j],
        decreases t.len() - k,
    {
        if s[i + k] != t[k] {
            assert(s@.subrange(i as int, i + t.len())[k as int] != t@[k as int]);
            return false;
        }
        k += 1;
    }
    assert(s@.subrange(i as int, i + t.len()) =~= t@);
    true
}

/// The characters of `s` from index `from` up to `to`, as a `String`.
pub fn substring(s: &str, from: usize, to: usize) -> (r: String)
    requires
        from <= to <= s@.len(),
    ensures
        r@ == s@.subrange(from as int, to as int),
{
    String::from_str(s.substring_char(from, to))
}

/// `str::trim`: `s` without leading and trailing white space.
pub fn trim_str(s: &str) -> (r: String)
    ensures
        r@ == trim(s@),
{
    let cs = chars_of(s);
    let n = cs.len();
    let mut a: usize = 0;
    proof {
        assert(s@.skip(0) =~= s@);
    }
    while a < n && white_space(cs[a])
        invariant
            cs@ == s@,
            n == s@.len(),
            a <= n,
            trim_start(s@) == trim_start(s@.skip(a as int)),
        decreases n - a,
    {
        proof {
            assert(s@.skip(a as int).skip(1) =~= s@.skip(a + 1));
        }
        a = a + 1;
    }
    let ghost t = s@.skip(a as int);
    assert(trim_start(s@) == t);
    let mut b: usize = n;
    proof {
        assert(t.take((n - a) as int) =~= t);
    }
    while b > a && white_space(cs[b - 1])
        invariant
            cs@ == s@,
            n == s@.len(),
            a <= b <= n,
            t == s@.skip(a as int),
            trim_end(t) == trim_end(t.take(b - a)),
        decreases b - a,
    {
        proof {
            assert(t.take(b - a).drop_last() =~= t.take(b - a - 1));
        }
        b = b - 1;
    }
    proof {
        assert(t.take(b - a) =~= s@.subrange(a as int, b as int));
    }
    substring(s, a, b)
}

/// A non-empty text without white space at either end.
pub open spec fn is_trimmed_nonempty(t: Seq<char>) -> bool {
    &&& t.len() > 0
    &&& !is_white_space(t[0])
    &&& !is_white_space(t.last())
}

pub proof fn lemma_trim_start(s: Seq<char>)
    ensures
        trim_start(s).len() > 0 ==> !is_white_space(trim_start(s)[0]),
    decreases s.len(),
{
    if s.len() > 0 && is_white_space(s[0]) {
        lemma_trim_start(s.skip(1));
    }
}

pub proof fn lemma_trim_end(s: Seq<char>)
    ensures
        trim_end(s).len() <= s.len(),
        trim_end(s) == s.take(trim_end(s).len() as int),
        trim_end(s).len() > 0 ==> !is_white_space(trim_end(s).last()),
    decreases s.len(),
{
    if s.len() > 0 && is_white_space(s.last()) {
        lemma_trim_end(s.drop_last());
        let t = trim_end(s.drop_last());
        assert(s.drop_last().take(t.len() as int) =~= s.take(t.len() as int));
    } else {
        assert(s.take(s.len() as int) =~= s);
    }
}

/// What `trim` leaves is empty or has no white space at either end.
pub proof fn lemma_trim_ends(s: Seq<char>)
    ensures
        trim(s).len() > 0 ==> is_trimmed_nonempty(trim(s)),
{
    lemma_trim_start(s);
    lemma_trim_end(trim_start(s));
    let t = trim(s);
    if t.len() > 0 {
        assert(t[0] == trim_start(s)[0]);
    }
}

/// The value found first comes from the first index where `m` has one.
pub proof fn lemma_first_some_first<T>(lo: int, hi: int, m: spec_fn(int) -> Option<T>)
    ensures
        first_some(lo, hi, m) matches Some(v) ==> exists|i: int|
            lo <= i < hi && #[trigger] m(i) == Some(v) && forall|j: int|
                lo <= j < i ==> (#[trigger] m(j)) is None,
    decreases hi - lo,
{
    if hi > lo {
        if m(lo) is None {
            lemma_first_some_first(lo + 1, hi, m);
            if let Some(v) = first_some(lo, hi, m) {
                let i = choose|i: int|
                    lo + 1 <= i < hi && #[trigger] m(i) == Some(v) && forall|j: int|
                        lo + 1 <= j < i ==> (#[trigger] m(j)) is None;
                assert(forall|j: int| lo <= j < i ==> (#[trigger] m(j)) is None);
            }
        } else {
            assert(forall|j: int| lo <= j < lo ==> (#[trigger] m(j)) is None);
        }
    }
}

/// `t` occurs somewhere in `s`.
pub open spec fn contains(s: Seq<char>, t: Seq<char>) -> bool {
    exists|i: int| #[trigger] lit_at(s, i, t)
}

/// Text without the pattern is left as it is.
pub proof fn lemma_replace_all_absent(s: Seq<char>, from: Seq<char>, to: Seq<char>)
    requires
        !contains(s, from),
    ensures
        replace_all(s, from, to) == s,
    decreases s.len(),
{
    if from.len() > 0 && s.len() >= from.len() {
        assert(!lit_at(s, 0, from));
        assert(s.subrange(0, from.len() as int) =~= s.take(from.len() as int));
        assert forall|i: int| !#[trigger] lit_at(s.skip(1), i, from) by {
            if lit_at(s.skip(1), i, from) {
                assert(s.skip(1).subrange(i, i + from.len()) =~= s.subrange(i + 1, i + 1 + from.len()));
                assert(lit_at(s, i + 1, from));
            }
        }
        lemma_replace_all_absent(s.skip(1), from, to);
        assert(s =~= seq![s[0]] + s.skip(1));
    }
}

/// Before the first occurrence, text is kept; the occurrence is replaced.
/// This needs the pattern's first character to occur nowhere else in it, so
/// that no occurrence can begin inside `u` and end inside the pattern.
pub proof fn lemma_replace_all_first(
    u: Seq<char>,
    v: Seq<char>,
    from: Seq<char>,
    to: Seq<char>,
)
    requires
        from.len() > 0,
        forall|j: int| 0 < j < from.len() ==> #[trigger] from[j] != from[0],
        !contains(u, from),
    ensures
        replace_all(u + from + v, from, to) == u + to + replace_all(v, from, to),
    decreases u.len(),
{
    let w = u + from + v;
    if u.len() == 0 {
        assert(w =~= from + v);
        assert(w.take(from.len() as int) =~= from);
        assert(w.skip(from.len() as int) =~= v);
        assert(u + to + replace_all(v, from, to) =~= to + replace_all(v, from, to));
    } else {
        assert(w.len() >= from.len());
        if w.take(from.len() as int) == from {
            if u.len() >= from.len() {
                assert(u.subrange(0, from.len() as int) =~= w.take(from.len() as int));
                assert(lit_at(u, 0, from));
            } else {
                let k = u.len() as int;
                assert(w.take(from.len() as int)[k] == from[0]);
                assert(from[k] == from[0]);
            }
        }
        assert forall|i: int| !#[trigger] lit_at(u.skip(1), i, from) by {
            if lit_at(u.skip(1), i, from) {
                assert(u.skip(1).subrange(i, i + from.len()) =~= u.subrange(i + 1, i + 1 + from.len()));
                assert(lit_at(u, i + 1, from));
            }
        }
        lemma_replace_all_first(u.skip(1), v, from, to);
        assert(w.skip(1) =~= u.skip(1) + from + v);
        assert(u =~= seq![u[0]] + u.skip(1));
        assert(u + to + replace_all(v, from, to) =~= seq![u[0]] + (u.skip(1) + to + replace_all(v, from, to)));
    }
}

/// Replacing at a position where `from` occurs.
pub proof fn lemma_replace_all_hit(s: Seq<char>, i: int, from: Seq<char>, to: Seq<char>)
    requires
        from.len() > 0,
        lit_at(s, i, from),
    ensures
        replace_all(s.skip(i), from, to) == to + replace_all(s.skip(i + from.len()), from, to),
{
    assert(s.skip(i).take(from.len() as int) =~= s.subrange(i, i + from.len()));
    assert(s.skip(i).skip(from.len() as int) =~= s.skip(i + from.len()));
}

/// Replacing at a position where `from` does not occur.
pub proof fn lemma_replace_all_miss(s: Seq<char>, i: int, from: Seq<char>, to: Seq<char>)
    requires
        from.len() > 0,
        0 <= i < s.len(),
        !lit_at(s, i, from),
    ensures
        replace_all(s.skip(i), from, to) == seq![s[i]] + replace_all(s.skip(i + 1), from, to),
{
    assert(s.skip(i).skip(1) =~= s.skip(i + 1));
    if s.len() - i >= from.len() {
        assert(s.skip(i).take(from.len() as int) =~= s.subrange(i, i + from.len()));
    } else {
        // Too short for a match: every remaining character is kept.
        lemma_replace_all_short(s.skip(i), from, to);
        lemma_replace_all_short(s.skip(i + 1), from, to);
        assert(s.skip(i) =~= seq![s[i]] + s.skip(i + 1));
    }
}

/// A sequence shorter than the pattern is left as it is.
pub proof fn lemma_replace_all_short(s: Seq<char>, from: Seq<char>, to: Seq<char>)
    requires
        s.len() < from.len(),
    ensures
        replace_all(s, from, to) == s,
{
}

/// What does not hold `t` has no `t` in any of its tails either.
pub proof fn lemma_not_contains_skip(s: Seq<char>, t: Seq<char>, k: int)
    requires
        0 <= k <= s.len(),
        !contains(s, t),
    ensures
        !contains(s.skip(k), t),
{
    assert forall|i: int| !#[trigger] lit_at(s.skip(k), i, t) by {
        if lit_at(s.skip(k), i, t) {
            assert(s.skip(k).subrange(i, i + t.len()) =~= s.subrange(i + k, i + k + t.len()));
            assert(lit_at(s, i + k, t));
        }
    }
}

/// A beginning of the replaced text in which the replacement's first
/// character does not occur was there, unchanged, before the replacement.
pub proof fn lemma_replace_prefix_kept(t: Seq<char>, from: Seq<char>, to: Seq<char>, g: Seq<char>)
    requires
        to.len() > 0,
        forall|j: int| 0 <= j < g.len() ==> #[trigger] g[j] != to[0],
        lit_at(replace_all(t, from, to), 0, g),
    ensures
        lit_at(t, 0, g),
    decreases t.len(),
{
    let r = replace_all(t, from, to);
    if g.len() == 0 {
        assert(t.subrange(0, 0) =~= g);
    } else if from.len() == 0 || t.len() < from.len() {
    } else if t.take(from.len() as int) == from {
        assert(r[0] == to[0]);
        assert(r.subrange(0, g.len() as int)[0] == g[0]);
    } else {
        let r1 = replace_all(t.skip(1), from, to);
        assert(r == seq![t[0]] + r1);
        assert(r.subrange(0, g.len() as int)[0] == g[0]);
        assert(r1.subrange(0, g.len() - 1) =~= r.subrange(1, g.len() as int));
        assert(g.skip(1) =~= g.subrange(1, g.len() as int));
        assert(r.subrange(1, g.len() as int) =~= g.subrange(1, g.len() as int));
        assert(lit_at(r1, 0, g.skip(1)));
        lemma_replace_prefix_kept(t.skip(1), from, to, g.skip(1));
        assert(t.subrange(0, g.len() as int) =~= seq![t[0]] + t.skip(1).subrange(0, g.len() - 1));
        assert(g =~= seq![g[0]] + g.skip(1));
    }
}

/// Replacing leaves no occurrence of the pattern behind, where the
/// replacement does not begin with the pattern, the pattern's first
/// character occurs in the replacement only at its start, and the
/// replacement's first character occurs in the pattern only at its start.
pub proof fn lemma_replace_all_removes(s: Seq<char>, from: Seq<char>, to: Seq<char>)
    requires
        from.len() > 0,
        to.len() >= from.len(),
        to.take(from.len() as int) != from,
        forall|j: int| 1 <= j < to.len() ==> #[trigger] to[j] != from[0],
        forall|j: int| 1 <= j < from.len() ==> #[trigger] from[j] != to[0],
    ensures
        !contains(replace_all(s, from, to), from),
    decreases s.len(),
{
    let r = replace_all(s, from, to);
    let n = from.len() as int;
    if s.len() < n {
        assert forall|i: int| !#[trigger] lit_at(r, i, from) by {}
    } else if s.take(n) == from {
        let r1 = replace_all(s.skip(n), from, to);
        lemma_replace_all_removes(s.skip(n), from, to);
        assert(r == to + r1);
        assert forall|i: int| !#[trigger] lit_at(r, i, from) by {
            if lit_at(r, i, from) {
                if i >= to.len() {
                    assert(r1.subrange(i - to.len(), i - to.len() + n) =~= r.subrange(i, i + n));
                    assert(lit_at(r1, i - to.len(), from));
                } else if i > 0 {
                    assert(r.subrange(i, i + n)[0] == r[i]);
                    assert(r[i] == to[i]);
                } else {
                    assert(r.subrange(0, n) =~= to.take(n));
                }
            }
        }
    } else {
        let r1 = replace_all(s.skip(1), from, to);
        lemma_replace_all_removes(s.skip(1), from, to);
        assert(r == seq![s[0]] + r1);
        assert forall|i: int| !#[trigger] lit_at(r, i, from) by {
            if lit_at(r, i, from) {
                if i >= 1 {
                    assert(r1.subrange(i - 1, i - 1 + n) =~= r.subrange(i, i + n));
                    assert(lit_at(r1, i - 1, from));
                } else {
                    let g = from.skip(1);
                    assert(r.subrange(0, n)[0] == from[0]);
                    assert(r1.subrange(0, n - 1) =~= g);
                    assert forall|j: int| 0 <= j < g.len() implies #[trigger] g[j] != to[0] by {
                        assert(g[j] == from[j + 1]);
                    }
                    lemma_replace_prefix_kept(s.skip(1), from, to, g);
                    assert(s.take(n) =~= seq![s[0]] + s.skip(1).subrange(0, n - 1));
                    assert(from =~= seq![from[0]] + g);
                }
            }
        }
    }
}

/// Replacing the replacement back gives the text again, where the text
/// does not hold the replacement, the replacement is no shorter than the
/// pattern, and its first character occurs in it only at its start.
pub proof fn lemma_replace_all_undone(s: Seq<char>, from: Seq<char>, to: Seq<char>)
    requires
        from.len() > 0,
        to.len() >= from.len(),
        forall|j: int| 1 <= j < to.len() ==> #[trigger] to[j] != to[0],
        !contains(s, to),
    ensures
        replace_all(replace_all(s, from, to), to, from) == s,
    decreases s.len(),
{
    let r = replace_all(s, from, to);
    let n = from.len() as int;
    let m = to.len() as int;
    if s.len() < n {
    } else if s.take(n) == from {
        let r1 = replace_all(s.skip(n), from, to);
        lemma_not_contains_skip(s, to, n);
        lemma_replace_all_undone(s.skip(n), from, to);
        assert(r == to + r1);
        assert(r.take(m) =~= to);
        assert(r.skip(m) =~= r1);
        assert(s =~= from + s.skip(n));
    } else {
        let r1 = replace_all(s.skip(1), from, to);
        lemma_not_contains_skip(s, to, 1);
        lemma_replace_all_undone(s.skip(1), from, to);
        assert(r == seq![s[0]] + r1);
        assert(s =~= seq![s[0]] + s.skip(1));
        if r.len() < m {
        } else if r.take(m) == to {
            let g = to.skip(1);
            assert(r[0] == to[0]);
            assert(r1.subrange(0, m - 1) =~= g);
            assert forall|j: int| 0 <= j < g.len() implies #[trigger] g[j] != to[0] by {
                assert(g[j] == to[j + 1]);
            }
            lemma_replace_prefix_kept(s.skip(1), from, to, g);
            assert(s.subrange(0, m) =~= seq![s[0]] + s.skip(1).subrange(0, m - 1));
            assert(to =~= seq![to[0]] + g);
            assert(lit_at(s, 0, to));
        } else {
            assert(r.skip(1) =~= r1);
        }
    }
}

/// `str::replace` for a non-empty pattern, on the characters of `s`.
pub fn replace_str(s: &str, from: &str, to: &str) -> (r: String)
    requires
        from@.len() > 0,
    ensures
        r@ == replace_all(s@, from@, to@),
{
    let cs = chars_of(s);
    let pat = chars_of(from);
    let n = cs.len();
    let m = pat.len();
    let mut out = String::new();
    let mut seg: usize = 0;
    let mut i: usize = 0;
    proof {
        assert(s@.skip(0) =~= s@);
    }
    while i < n
        invariant
            cs@ == s@,
            pat@ == from@,
            n == s@.len(),
            m == from@.len(),
            m > 0,
            seg <= i <= n,
            replace_all(s@, from@, to@) == out@ + s@.subrange(seg as int, i as int)
                + replace_all(s@.skip(i as int), from@, to@),
        decreases n - i,
    {
        if has_lit_at(&cs, i, &pat) {
            proof {
                lemma_replace_all_hit(s@, i as int, from@, to@);
            }
            let piece = s.substring_char(seg, i);
            out.append(piece);
            out.append(to);
            i = i + m;
            seg = i;
            proof {
                assert(s@.subrange(seg as int, i as int) =~= Seq::<char>::empty());
            }
        } else {
            proof {
                lemma_replace_all_miss(s@, i as int, from@, to@);
                assert(s@.subrange(seg as int, i + 1) =~= s@.subrange(seg as int, i as int)
                    + seq![s@[i as int]]);
            }
            i = i + 1;
        }
    }
    let rest = s.substring_char(seg, n);
    out.append(rest);
    proof {
        assert(s@.skip(n as int) =~= Seq::<char>::empty());
        assert(replace_all(s@.skip(n as int), from@, to@) == s@.skip(n as int));
    }
    out
}

} // verus!
