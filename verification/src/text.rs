//! Character-level text utilities shared by the passes and the emitters.
//!
//! Text is handled as a sequence of characters: every position and length
//! here counts characters, and every boundary the callers cut at is an
//! ASCII character, so a cut here is the same cut a byte offset would make.

use vstd::prelude::*;

verus! {

/// The texts held by a sequence of character vectors.
pub open spec fn views(v: Seq<Vec<char>>) -> Seq<Seq<char>> {
    v.map_values(|l: Vec<char>| l@)
}

/// Unicode `White_Space`: the characters `char::is_whitespace` accepts.
pub open spec fn spec_blank(c: char) -> bool {
    ||| ('\u{9}' <= c && c <= '\u{d}')
    ||| c == ' '
    ||| c == '\u{85}'
    ||| c == '\u{a0}'
    ||| c == '\u{1680}'
    ||| ('\u{2000}' <= c && c <= '\u{200a}')
    ||| c == '\u{2028}'
    ||| c == '\u{2029}'
    ||| c == '\u{202f}'
    ||| c == '\u{205f}'
    ||| c == '\u{3000}'
}

/// Whether the character is white space.
pub fn blank(c: char) -> (b: bool)
    ensures
        b == spec_blank(c),
{
    ('\u{9}' <= c && c <= '\u{d}') || c == ' ' || c == '\u{85}' || c == '\u{a0}'
        || c == '\u{1680}' || ('\u{2000}' <= c && c <= '\u{200a}') || c == '\u{2028}'
        || c == '\u{2029}' || c == '\u{202f}' || c == '\u{205f}' || c == '\u{3000}'
}

/// The text without its leading white space.
pub open spec fn spec_trim_start(s: Seq<char>) -> Seq<char>
    decreases s.len(),
{
    if s.len() > 0 && spec_blank(s[0]) {
        spec_trim_start(s.drop_first())
    } else {
        s
    }
}

/// The text without its trailing white space.
pub open spec fn spec_trim_end(s: Seq<char>) -> Seq<char>
    decreases s.len(),
{
    if s.len() > 0 && spec_blank(s.last()) {
        spec_trim_end(s.drop_last())
    } else {
        s
    }
}

/// The text without white space at either end, as `str::trim` gives it.
pub open spec fn spec_trim(s: Seq<char>) -> Seq<char> {
    spec_trim_end(spec_trim_start(s))
}

/// Index of the first character at or after `i` that is not white space.
pub open spec fn spec_skip_blank(s: Seq<char>, i: int) -> int
    decreases s.len() - i,
{
    if 0 <= i < s.len() && spec_blank(s[i]) {
        spec_skip_blank(s, i + 1)
    } else {
        i
    }
}

/// Index just past the last character before `j` that is not white space.
pub open spec fn spec_back_blank(s: Seq<char>, j: int) -> int
    decreases j,
{
    if 0 < j <= s.len() && spec_blank(s[j - 1]) {
        spec_back_blank(s, j - 1)
    } else {
        j
    }
}

proof fn lemma_trim_start(s: Seq<char>, i: int)
    requires
        0 <= i <= s.len(),
        forall|k: int| 0 <= k < i ==> spec_blank(#[trigger] s[k]),
    ensures
        i <= spec_skip_blank(s, i) <= s.len(),
        spec_trim_start(s) == s.subrange(spec_skip_blank(s, i), s.len() as int),
    decreases s.len() - i,
{
    if i < s.len() && spec_blank(s[i]) {
        lemma_trim_start(s, i + 1);
    } else {
        lemma_trim_start_prefix(s, i);
    }
}

proof fn lemma_trim_start_prefix(s: Seq<char>, i: int)
    requires
        0 <= i <= s.len(),
        forall|k: int| 0 <= k < i ==> spec_blank(#[trigger] s[k]),
        i == s.len() || !spec_blank(s[i]),
    ensures
        spec_trim_start(s) == s.subrange(i, s.len() as int),
    decreases i,
{
    if i == 0 {
        assert(s.subrange(0, s.len() as int) =~= s);
    } else {
        let t = s.drop_first();
        assert forall|k: int| 0 <= k < i - 1 implies spec_blank(#[trigger] t[k]) by {
            assert(t[k] == s[k + 1]);
        }
        lemma_trim_start_prefix(t, i - 1);
        assert(t.subrange(i - 1, t.len() as int) =~= s.subrange(i, s.len() as int));
    }
}

proof fn lemma_trim_end(s: Seq<char>, j: int)
    requires
        0 <= j <= s.len(),
        forall|k: int| j <= k < s.len() ==> spec_blank(#[trigger] s[k]),
    ensures
        0 <= spec_back_blank(s, j) <= j,
        spec_trim_end(s) == s.subrange(0, spec_back_blank(s, j)),
    decreases j,
{
    if j > 0 && spec_blank(s[j - 1]) {
        lemma_trim_end(s, j - 1);
    } else {
        lemma_trim_end_suffix(s, j);
    }
}

proof fn lemma_trim_end_suffix(s: Seq<char>, j: int)
    requires
        0 <= j <= s.len(),
        forall|k: int| j <= k < s.len() ==> spec_blank(#[trigger] s[k]),
        j == 0 || !spec_blank(s[j - 1]),
    ensures
        spec_trim_end(s) == s.subrange(0, j),
    decreases s.len() - j,
{
    if j == s.len() {
        assert(s.subrange(0, s.len() as int) =~= s);
    } else {
        let t = s.drop_last();
        assert forall|k: int| j <= k < t.len() implies spec_blank(#[trigger] t[k]) by {
            assert(t[k] == s[k]);
        }
        lemma_trim_end_suffix(t, j);
        assert(t.subrange(0, j) =~= s.subrange(0, j));
    }
}

/// Copy of the characters in `[from, to)`.
pub fn slice_of(s: &[char], from: usize, to: usize) -> (out: Vec<char>)
    requires
        from <= to <= s@.len(),
    ensures
        out@ == s@.subrange(from as int, to as int),
{
    let mut out: Vec<char> = Vec::new();
    let mut i = from;
    while i < to
        invariant
            from <= i <= to <= s@.len(),
            out@ == s@.subrange(from as int, i as int),
        decreases to - i,
    {
        out.push(s[i]);
        i += 1;
        assert(out@ =~= s@.subrange(from as int, i as int));
    }
    out
}

/// Bounds of the text without white space at either end.
pub fn trim_bounds(s: &[char]) -> (bounds: (usize, usize))
    ensures
        bounds.0 <= bounds.1 <= s@.len(),
        s@.subrange(bounds.0 as int, bounds.1 as int) == spec_trim(s@),
{
    let mut a: usize = 0;
    while a < s.len() && blank(s[a])
        invariant
            a <= s@.len(),
            forall|k: int| 0 <= k < a ==> spec_blank(#[trigger] s@[k]),
        decreases s@.len() - a,
    {
        a += 1;
    }
    proof {
        lemma_trim_start(s@, a as int);
        assert(spec_skip_blank(s@, a as int) == a);
    }
    let ghost t = s@.subrange(a as int, s@.len() as int);
    let mut b: usize = s.len();
    while b > a && blank(s[b - 1])
        invariant
            a <= b <= s@.len(),
            t == s@.subrange(a as int, s@.len() as int),
            forall|k: int| b <= k < s@.len() ==> spec_blank(#[trigger] s@[k]),
        decreases b,
    {
        b -= 1;
    }
    proof {
        let j = b - a;
        assert forall|k: int| j <= k < t.len() implies spec_blank(#[trigger] t[k]) by {
            assert(t[k] == s@[k + a]);
        }
        lemma_trim_end(t, j as int);
        assert(spec_back_blank(t, j as int) == j);
        assert(t.subrange(0, j as int) =~= s@.subrange(a as int, b as int));
    }
    (a, b)
}

/// The text without white space at either end.
pub fn trim(s: &[char]) -> (out: Vec<char>)
    ensures
        out@ == spec_trim(s@),
{
    let (a, b) = trim_bounds(s);
    slice_of(s, a, b)
}

/// Whether `s` begins with `p`.
pub open spec fn spec_starts_with(s: Seq<char>, p: Seq<char>) -> bool {
    p.len() <= s.len() && s.subrange(0, p.len() as int) == p
}

/// Whether `p` occurs in `s` at position `i`.
pub open spec fn spec_matches_at(s: Seq<char>, p: Seq<char>, i: int) -> bool {
    0 <= i && i + p.len() <= s.len() && s.subrange(i, i + p.len()) == p
}

/// The first position at or after `i` where `p` occurs in `s`.
pub open spec fn spec_find_from(s: Seq<char>, p: Seq<char>, i: int) -> Option<int>
    decreases s.len() + 1 - i,
{
    if i < 0 || i + p.len() > s.len() {
        None
    } else if spec_matches_at(s, p, i) {
        Some(i)
    } else {
        spec_find_from(s, p, i + 1)
    }
}

/// The first position where `p` occurs in `s`, as `str::find` gives it.
pub open spec fn spec_find(s: Seq<char>, p: Seq<char>) -> Option<int> {
    spec_find_from(s, p, 0)
}

/// Whether `p` occurs in `s` at position `i`.
pub fn matches_at(s: &[char], p: &[char], i: usize) -> (b: bool)
    ensures
        b == spec_matches_at(s@, p@, i as int),
{
    if p.len() > s.len() || i > s.len() - p.len() {
        return false;
    }
    let end = i + p.len();
    let mut k: usize = 0;
    while k < p.len()
        invariant
            end == i + p@.len(),
            i + p@.len() <= s@.len(),
            k <= p@.len(),
            forall|m: int| 0 <= m < k ==> s@[i + m] == p@[m],
        decreases p@.len() - k,
    {
        if s[i + k] != p[k] {
            proof {
                assert(s@.subrange(i as int, i + p@.len())[k as int] != p@[k as int]);
            }
            return false;
        }
        k += 1;
    }
    assert(s@.subrange(i as int, i + p@.len()) =~= p@);
    true
}

/// Whether `s` begins with `p`.
pub fn starts_with(s: &[char], p: &[char]) -> (b: bool)
    ensures
        b == spec_starts_with(s@, p@),
{
    matches_at(s, p, 0)
}

/// The first position at or after `from` where `p` occurs in `s`.
pub fn find_from(s: &[char], p: &[char], from: usize) -> (at: Option<usize>)
    ensures
        at matches Some(k) ==> spec_find_from(s@, p@, from as int) == Some(k as int),
        at is None ==> spec_find_from(s@, p@, from as int) is None,
{
    if p.len() > s.len() {
        return None;
    }
    let last = s.len() - p.len();
    let mut i = from;
    while i <= last
        invariant
            from <= i,
            last == s@.len() - p@.len(),
            spec_find_from(s@, p@, from as int) == spec_find_from(s@, p@, i as int),
        decreases last + 1 - i,
    {
        if matches_at(s, p, i) {
            return Some(i);
        }
        if i == last {
            assert(spec_find_from(s@, p@, i as int + 1) is None);
            return None;
        }
        i += 1;
    }
    None
}

/// The first position where `p` occurs in `s`.
pub fn find(s: &[char], p: &[char]) -> (at: Option<usize>)
    ensures
        at matches Some(k) ==> spec_find(s@, p@) == Some(k as int),
        at is None ==> spec_find(s@, p@) is None,
{
    find_from(s, p, 0)
}

/// Decimal digit of a number below ten.
pub open spec fn spec_digit(n: nat) -> char {
    if n == 0 {
        '0'
    } else if n == 1 {
        '1'
    } else if n == 2 {
        '2'
    } else if n == 3 {
        '3'
    } else if n == 4 {
        '4'
    } else if n == 5 {
        '5'
    } else if n == 6 {
        '6'
    } else if n == 7 {
        '7'
    } else if n == 8 {
        '8'
    } else {
        '9'
    }
}

/// Decimal notation of a number, without sign or leading zeros.
pub open spec fn spec_decimal(n: nat) -> Seq<char>
    decreases n,
{
    if n < 10 {
        seq![spec_digit(n)]
    } else {
        spec_decimal(n / 10).push(spec_digit(n % 10))
    }
}

proof fn lemma_decimal_nonempty(n: nat)
    ensures
        spec_decimal(n).len() >= 1,
    decreases n,
{
    if n >= 10 {
        lemma_decimal_nonempty(n / 10);
    }
}

proof fn lemma_digit_injective(x: nat, y: nat)
    requires
        x < 10,
        y < 10,
        spec_digit(x) == spec_digit(y),
    ensures
        x == y,
{
}

/// Different numbers are written differently.
pub proof fn lemma_decimal_injective(a: nat, b: nat)
    requires
        spec_decimal(a) == spec_decimal(b),
    ensures
        a == b,
    decreases a,
{
    if a < 10 && b >= 10 {
        lemma_decimal_nonempty(b / 10);
        assert(spec_decimal(b).len() >= 2);
    } else if a >= 10 && b < 10 {
        lemma_decimal_nonempty(a / 10);
        assert(spec_decimal(a).len() >= 2);
    } else if a < 10 && b < 10 {
        assert(spec_decimal(a)[0] == spec_digit(a));
        assert(spec_decimal(b)[0] == spec_digit(b));
        lemma_digit_injective(a, b);
    } else {
        assert(spec_decimal(a).drop_last() == spec_decimal(a / 10));
        assert(spec_decimal(b).drop_last() == spec_decimal(b / 10));
        assert(spec_decimal(a).last() == spec_digit(a % 10));
        assert(spec_decimal(b).last() == spec_digit(b % 10));
        lemma_digit_injective(a % 10, b % 10);
        lemma_decimal_injective(a / 10, b / 10);
    }
}

fn digit(n: u64) -> (c: char)
    requires
        n < 10,
    ensures
        c == spec_digit(n as nat),
{
    if n == 0 {
        '0'
    } else if n == 1 {
        '1'
    } else if n == 2 {
        '2'
    } else if n == 3 {
        '3'
    } else if n == 4 {
        '4'
    } else if n == 5 {
        '5'
    } else if n == 6 {
        '6'
    } else if n == 7 {
        '7'
    } else if n == 8 {
        '8'
    } else {
        '9'
    }
}

/// Decimal notation of a number, as `{}` formats it.
pub fn decimal(n: u64) -> (out: Vec<char>)
    ensures
        out@ == spec_decimal(n as nat),
    decreases n,
{
    if n < 10 {
        let mut out = Vec::new();
        out.push(digit(n));
        assert(out@ =~= seq![spec_digit(n as nat)]);
        out
    } else {
        let mut out = decimal(n / 10);
        out.push(digit(n % 10));
        out
    }
}

/// Appends the characters of `tail` to `out`.
pub fn extend(out: &mut Vec<char>, tail: &[char])
    ensures
        final(out)@ == old(out)@ + tail@,
{
    let mut i: usize = 0;
    while i < tail.len()
        invariant
            i <= tail@.len(),
            out@ == old(out)@ + tail@.subrange(0, i as int),
        decreases tail@.len() - i,
    {
        out.push(tail[i]);
        i += 1;
        assert(out@ =~= old(out)@ + tail@.subrange(0, i as int));
    }
    assert(tail@.subrange(0, tail@.len() as int) =~= tail@);
}

/// The characters of a string slice, in order.
pub fn chars_of(s: &str) -> (out: Vec<char>)
    ensures
        out@ == s@,
{
    broadcast use vstd::string::group_string_axioms;

    let mut out: Vec<char> = Vec::new();
    for c in it: s.chars()
        invariant
            out@ == it.seq().take(it.index() as int),
    {
        out.push(c);
    }
    out
}

/// Appends the characters of a string slice to `out`.
pub fn push_str(out: &mut Vec<char>, s: &str)
    ensures
        final(out)@ == old(out)@ + s@,
{
    let c = chars_of(s);
    extend(out, &c);
}

/// Whether two texts hold the same characters.
pub fn same_chars(a: &[char], b: &[char]) -> (same: bool)
    ensures
        same == (a@ == b@),
{
    if a.len() != b.len() {
        return false;
    }
    let mut i: usize = 0;
    while i < a.len()
        invariant
            i <= a@.len(),
            a@.len() == b@.len(),
            forall|k: int| 0 <= k < i ==> a@[k] == b@[k],
        decreases a@.len() - i,
    {
        if a[i] != b[i] {
            return false;
        }
        i += 1;
    }
    assert(a@ =~= b@);
    true
}

/// Whether a text holds exactly the characters of a string slice.
pub fn same_text_chars(w: &[char], s: &str) -> (same: bool)
    ensures
        same == (w@ == s@),
{
    same_chars(w, &chars_of(s))
}

/// Whether two string slices hold the same characters.
pub fn same_text(a: &str, b: &str) -> (same: bool)
    ensures
        same == (a@ == b@),
{
    same_chars(&chars_of(a), &chars_of(b))
}

/// A `String` holding exactly the given characters.
///
/// Trusted: the body is `FromIterator<char>` for `String`, which std
/// documents as pushing each character in turn.
#[verifier::external_body]
pub(crate) fn text_of(chars: &[char]) -> (s: String)
    ensures
        s@ == chars@,
{
    chars.iter().collect()
}

/// Texts joined by a separator, from item `k` on.
pub open spec fn spec_joined_from(items: Seq<Seq<char>>, sep: Seq<char>, k: int, acc: Seq<char>) -> Seq<
    char,
>
    decreases items.len() - k,
{
    if k < 0 || k >= items.len() {
        acc
    } else {
        spec_joined_from(items, sep, k + 1, acc + sep + items[k])
    }
}

/// Texts joined by a separator, as `join` gives them.
pub open spec fn spec_joined(items: Seq<Seq<char>>, sep: Seq<char>) -> Seq<char> {
    if items.len() == 0 {
        seq![]
    } else {
        spec_joined_from(items, sep, 1, items[0])
    }
}

/// Texts joined by a separator, as `join` gives them.
pub fn joined(items: &[String], sep: &str) -> (out: Vec<char>)
    ensures
        out@ == spec_joined(items@.map_values(|s: String| s@), sep@),
{
    let ghost texts = items@.map_values(|s: String| s@);
    let mut out: Vec<char> = Vec::new();
    if items.len() == 0 {
        assert(out@ =~= seq![]);
        return out;
    }
    push_str(&mut out, items[0].as_str());
    assert(out@ =~= texts[0]);
    let mut k: usize = 1;
    while k < items.len()
        invariant
            1 <= k <= items@.len(),
            texts == items@.map_values(|s: String| s@),
            spec_joined(texts, sep@) == spec_joined_from(texts, sep@, k as int, out@),
        decreases items@.len() - k,
    {
        let ghost before = out@;
        push_str(&mut out, sep);
        push_str(&mut out, items[k].as_str());
        assert(out@ =~= before + sep@ + texts[k as int]);
        k += 1;
    }
    out
}

/// What `find_from` reports is a match at or after the start.
pub proof fn lemma_find_from_matches(s: Seq<char>, p: Seq<char>, i: int)
    ensures
        spec_find_from(s, p, i) matches Some(k) ==> i <= k && spec_matches_at(s, p, k),
    decreases s.len() + 1 - i,
{
    if !(i < 0 || i + p.len() > s.len()) && !spec_matches_at(s, p, i) {
        lemma_find_from_matches(s, p, i + 1);
    }
}

/// The texts one after another.
pub open spec fn spec_concat(parts: Seq<Seq<char>>) -> Seq<char>
    decreases parts.len(),
{
    if parts.len() == 0 {
        seq![]
    } else {
        spec_concat(parts.drop_last()) + parts.last()
    }
}

/// One more part at the end of a concatenation.
pub proof fn lemma_concat_next(parts: Seq<Seq<char>>, k: int)
    requires
        0 <= k < parts.len(),
    ensures
        spec_concat(parts.subrange(0, k + 1)) == spec_concat(parts.subrange(0, k)) + parts[k],
{
    assert(parts.subrange(0, k + 1).drop_last() =~= parts.subrange(0, k));
}

} // verus!
