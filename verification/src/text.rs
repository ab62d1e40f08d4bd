//! Character-level text operations used throughout the importer.
//!
//! Text is handled as sequences of `char`; every operation here is stated
//! over the view of a `String` / `&str`, which is a `Seq<char>`.

use vstd::prelude::*;

verus! {

broadcast use vstd::string::axiom_spec_iter;

/// The characters of `s`, in order.
pub(crate) fn chars_of(s: &str) -> (res: Vec<char>)
    ensures
        res@ == s@,
{
    let mut res: Vec<char> = Vec::new();
    for c in it: s.chars()
        invariant
            it.seq() == s@,
            res@ == it.seq().take(it.index() as int),
    {
        res.push(c);
    }
    res
}

/// Collects the characters of `v` into a `String` (`FromIterator<&char>`).
/// Claims that the string holds exactly those characters, in order.
#[verifier::external_body]
pub(crate) fn string_of(v: &[char]) -> (res: String)
    ensures
        res@ == v@,
{
    v.iter().collect()
}

/// The characters of an optional string.
pub open spec fn text_of(o: Option<String>) -> Option<Seq<char>> {
    match o {
        Some(s) => Some(s@),
        None => None,
    }
}

/// `str::trim`: white space removed from both ends.
pub open spec fn trimmed(s: Seq<char>) -> Seq<char> {
    strip_both(s, Strip::Space)
}

/// ASCII lower-casing of one character: `'A'..='Z'` become `'a'..='z'`,
/// everything else is unchanged.
pub open spec fn lower_char(c: char) -> char {
    if 'A' <= c && c <= 'Z' {
        ((c as int) + 32) as char
    } else {
        c
    }
}

pub fn to_lower_char(c: char) -> (res: char)
    ensures
        res == lower_char(c),
{
    if 'A' <= c && c <= 'Z' {
        let b: u8 = (c as u8) + 32;
        b as char
    } else {
        c
    }
}


/// Copies `v[lo..hi]` into a fresh vector.
pub fn copy_range(v: &Vec<char>, lo: usize, hi: usize) -> (res: Vec<char>)
    requires
        lo <= hi <= v.len(),
    ensures
        res@ == v@.subrange(lo as int, hi as int),
{
    let mut res: Vec<char> = Vec::new();
    let mut i = lo;
    while i < hi
        invariant
            lo <= i <= hi <= v.len(),
            res@ == v@.subrange(lo as int, i as int),
        decreases hi - i,
    {
        res.push(v[i]);
        i += 1;
    }
    res
}

/// Appends all of `src` to the end of `dst`.
pub fn push_all(dst: &mut Vec<char>, src: &Vec<char>)
    ensures
        final(dst)@ == old(dst)@ + src@,
{
    let mut i: usize = 0;
    let ghost start = dst@;
    while i < src.len()
        invariant
            i <= src.len(),
            dst@ == start + src@.subrange(0, i as int),
        decreases src.len() - i,
    {
        dst.push(src[i]);
        i += 1;
    }
    assert(src@.subrange(0, src.len() as int) =~= src@);
}

/// Character classes that the importer strips from the ends of text.
#[derive(Clone, Copy, PartialEq, Eq, Structural)]
pub enum Strip {
    /// Unicode white space, as `char::is_whitespace` defines it.
    Space,
    /// The full stop `.`.
    Dot,
    /// The underscore `_`.
    Underscore,
    /// The path separator `/`.
    Slash,
}

/// Unicode `White_Space`: the characters that `char::is_whitespace` accepts.
pub open spec fn is_white_space(c: char) -> bool {
    ||| ('\u{9}' <= c && c <= '\u{d}')
    ||| c == ' '
    ||| c == '\u{85}'
    ||| c == '\u{a0}'
    ||| c == '\u{1680}'
    ||| ('\u{2000}' <= c && c <= '\u{200a}')
    ||| c == '\u{2028}'
    ||| c == '\u{2029}'
    ||| c == '\u{202f}'
    ||| c == '\u{205f}'
    ||| c == '\u{3000}'
}

pub open spec fn strips(k: Strip, c: char) -> bool {
    match k {
        Strip::Space => is_white_space(c),
        Strip::Dot => c == '.',
        Strip::Underscore => c == '_',
        Strip::Slash => c == '/',
    }
}

pub fn is_stripped(k: Strip, c: char) -> (res: bool)
    ensures
        res == strips(k, c),
{
    match k {
        Strip::Space => {
            ('\u{9}' <= c && c <= '\u{d}') || c == ' ' || c == '\u{85}' || c == '\u{a0}'
                || c == '\u{1680}' || ('\u{2000}' <= c && c <= '\u{200a}') || c == '\u{2028}'
                || c == '\u{2029}' || c == '\u{202f}' || c == '\u{205f}' || c == '\u{3000}'
        },
        Strip::Dot => c == '.',
        Strip::Underscore => c == '_',
        Strip::Slash => c == '/',
    }
}

/// `s` without the leading characters of class `k`.
pub open spec fn strip_front(s: Seq<char>, k: Strip) -> Seq<char>
    decreases s.len(),
{
    if s.len() > 0 && strips(k, s[0]) {
        strip_front(s.drop_first(), k)
    } else {
        s
    }
}

/// `s` without the trailing characters of class `k`.
pub open spec fn strip_back(s: Seq<char>, k: Strip) -> Seq<char>
    decreases s.len(),
{
    if s.len() > 0 && strips(k, s.last()) {
        strip_back(s.drop_last(), k)
    } else {
        s
    }
}

/// `s` without the characters of class `k` at either end.
pub open spec fn strip_both(s: Seq<char>, k: Strip) -> Seq<char> {
    strip_back(strip_front(s, k), k)
}

proof fn lemma_strip_front_step(s: Seq<char>, k: Strip, i: int)
    requires
        0 <= i < s.len(),
        strips(k, s[i]),
    ensures
        strip_front(s.subrange(i, s.len() as int), k) == strip_front(
            s.subrange(i + 1, s.len() as int),
            k,
        ),
{
    assert(s.subrange(i, s.len() as int).drop_first() =~= s.subrange(i + 1, s.len() as int));
}

proof fn lemma_strip_back_step(s: Seq<char>, k: Strip, j: int)
    requires
        0 < j <= s.len(),
        strips(k, s[j - 1]),
    ensures
        strip_back(s.subrange(0, j), k) == strip_back(s.subrange(0, j - 1), k),
{
    assert(s.subrange(0, j).drop_last() =~= s.subrange(0, j - 1));
}

/// Index of the first character of `v` that is not of class `k`
/// (or `v.len()`): `v[start..]` is what `strip_front` leaves.
pub fn front_index(v: &Vec<char>, k: Strip) -> (start: usize)
    ensures
        start <= v.len(),
        strip_front(v@, k) == v@.subrange(start as int, v.len() as int),
{
    let mut i: usize = 0;
    assert(v@.subrange(0, v.len() as int) =~= v@);
    while i < v.len() && is_stripped(k, v[i])
        invariant
            i <= v.len(),
            strip_front(v@, k) == strip_front(v@.subrange(i as int, v.len() as int), k),
        decreases v.len() - i,
    {
        proof {
            lemma_strip_front_step(v@, k, i as int);
        }
        i += 1;
    }
    i
}

/// Index just past the last character of `v[..hi]` that is not of class `k`:
/// `v[..end]` is what `strip_back` leaves of `v[..hi]`.
pub fn back_index(v: &Vec<char>, hi: usize, k: Strip) -> (end: usize)
    requires
        hi <= v.len(),
    ensures
        end <= hi,
        strip_back(v@.subrange(0, hi as int), k) == v@.subrange(0, end as int),
{
    let mut j: usize = hi;
    while j > 0 && is_stripped(k, v[j - 1])
        invariant
            j <= hi <= v.len(),
            strip_back(v@.subrange(0, hi as int), k) == strip_back(v@.subrange(0, j as int), k),
        decreases j,
    {
        proof {
            lemma_strip_back_step(v@, k, j as int);
        }
        j -= 1;
    }
    let ghost t = v@.subrange(0, j as int);
    assert(!(t.len() > 0 && strips(k, t.last())));
    j
}

/// The characters of `v` with those of class `k` removed from both ends.
pub fn trim_chars(v: &Vec<char>, k: Strip) -> (res: Vec<char>)
    ensures
        res@ == strip_both(v@, k),
{
    let start = front_index(v, k);
    let front = copy_range(v, start, v.len());
    let end = back_index(&front, front.len(), k);
    assert(front@.subrange(0, front.len() as int) =~= front@);
    copy_range(&front, 0, end)
}

/// The characters of `v` with the leading ones of class `k` removed.
pub fn trim_front_chars(v: &Vec<char>, k: Strip) -> (res: Vec<char>)
    ensures
        res@ == strip_front(v@, k),
{
    let start = front_index(v, k);
    copy_range(v, start, v.len())
}

/// ASCII lower-casing of a whole sequence.
pub open spec fn lower(s: Seq<char>) -> Seq<char> {
    s.map_values(|c: char| lower_char(c))
}

pub fn to_lower(v: &Vec<char>) -> (res: Vec<char>)
    ensures
        res@ == lower(v@),
{
    let mut res: Vec<char> = Vec::new();
    let mut i: usize = 0;
    while i < v.len()
        invariant
            i <= v.len(),
            res@ =~= lower(v@.subrange(0, i as int)),
        decreases v.len() - i,
    {
        let c = to_lower_char(v[i]);
        res.push(c);
        i += 1;
    }
    assert(v@.subrange(0, v.len() as int) =~= v@);
    res
}


/// Whether two character vectors hold the same characters.
pub fn same_chars(a: &Vec<char>, b: &Vec<char>) -> (res: bool)
    ensures
        res == (a@ == b@),
{
    if a.len() != b.len() {
        return false;
    }
    let mut i: usize = 0;
    while i < a.len()
        invariant
            i <= a.len() == b.len(),
            forall|j: int| 0 <= j < i ==> a@[j] == b@[j],
        decreases a.len() - i,
    {
        if a[i] != b[i] {
            return false;
        }
        i += 1;
    }
    assert(a@ =~= b@);
    true
}

/// `pat` stands in `text` starting at index `i`.
pub open spec fn occurs_at(text: Seq<char>, pat: Seq<char>, i: int) -> bool {
    0 <= i && i + pat.len() <= text.len() && text.subrange(i, i + pat.len()) == pat
}

/// The first index at or after `i` where `pat` stands in `text`.
pub open spec fn first_match_from(text: Seq<char>, pat: Seq<char>, i: int) -> Option<int>
    decreases text.len() + 1 - i,
{
    if i + pat.len() > text.len() {
        None
    } else if occurs_at(text, pat, i) {
        Some(i)
    } else {
        first_match_from(text, pat, i + 1)
    }
}

/// The first index where `pat` stands in `text`, as `str::find` reports it
/// (counted in characters).
pub open spec fn first_match(text: Seq<char>, pat: Seq<char>) -> Option<int> {
    first_match_from(text, pat, 0)
}

fn matches_at(text: &Vec<char>, pat: &Vec<char>, i: usize) -> (res: bool)
    requires
        i + pat.len() <= text.len(),
    ensures
        res == occurs_at(text@, pat@, i as int),
{
    let mut j: usize = 0;
    while j < pat.len()
        invariant
            i + pat.len() <= text.len(),
            j <= pat.len(),
            forall|k: int| 0 <= k < j ==> text@[i + k] == pat@[k],
        decreases pat.len() - j,
    {
        if text[i + j] != pat[j] {
            assert(text@.subrange(i as int, i + pat.len())[j as int] != pat@[j as int]);
            return false;
        }
        j += 1;
    }
    assert(text@.subrange(i as int, i + pat.len()) =~= pat@);
    true
}

/// The first index at or after `from` where `pat` stands in `text`.
pub fn find_from(text: &Vec<char>, pat: &Vec<char>, from: usize) -> (res: Option<usize>)
    ensures
        match res {
            Some(i) => first_match_from(text@, pat@, from as int) == Some(i as int),
            None => first_match_from(text@, pat@, from as int) is None,
        },
{
    if pat.len() > text.len() || from > text.len() - pat.len() {
        return None;
    }
    let last = text.len() - pat.len();
    let mut i = from;
    loop
        invariant
            from <= i <= last,
            last + pat.len() == text.len(),
            first_match_from(text@, pat@, from as int) == first_match_from(text@, pat@, i as int),
        decreases last - i,
    {
        if matches_at(text, pat, i) {
            return Some(i);
        }
        if i == last {
            assert(first_match_from(text@, pat@, i + 1) is None);
            return None;
        }
        i += 1;
    }
}

/// The first index where `pat` stands in `text`.
pub fn find(text: &Vec<char>, pat: &Vec<char>) -> (res: Option<usize>)
    ensures
        match res {
            Some(i) => first_match(text@, pat@) == Some(i as int),
            None => first_match(text@, pat@) is None,
        },
{
    find_from(text, pat, 0)
}


/// `strip_front` leaves a suffix of `s` that does not start with a character of class `k`.
pub proof fn lemma_strip_front(s: Seq<char>, k: Strip) -> (a: int)
    ensures
        0 <= a <= s.len(),
        strip_front(s, k) == s.subrange(a, s.len() as int),
        a < s.len() ==> !strips(k, s[a]),
    decreases s.len(),
{
    if s.len() > 0 && strips(k, s[0]) {
        let b = lemma_strip_front(s.drop_first(), k);
        assert(s.drop_first().subrange(b, s.drop_first().len() as int) =~= s.subrange(
            b + 1,
            s.len() as int,
        ));
        b + 1
    } else {
        assert(s.subrange(0, s.len() as int) =~= s);
        0
    }
}

/// `strip_back` leaves a prefix of `s` that does not end with a character of class `k`.
pub proof fn lemma_strip_back(s: Seq<char>, k: Strip) -> (b: int)
    ensures
        0 <= b <= s.len(),
        strip_back(s, k) == s.subrange(0, b),
        b > 0 ==> !strips(k, s[b - 1]),
    decreases s.len(),
{
    if s.len() > 0 && strips(k, s.last()) {
        let b = lemma_strip_back(s.drop_last(), k);
        assert(s.drop_last().subrange(0, b) =~= s.subrange(0, b));
        b
    } else {
        assert(s.subrange(0, s.len() as int) =~= s);
        s.len() as int
    }
}


/// A match found at or after `i` lies at or after `i` and fits in `text`.
pub proof fn lemma_first_match_from_bounds(text: Seq<char>, pat: Seq<char>, i: int)
    ensures
        first_match_from(text, pat, i) matches Some(k) ==> i <= k && k + pat.len() <= text.len()
            && occurs_at(text, pat, k),
    decreases text.len() + 1 - i,
{
    if i + pat.len() <= text.len() && !occurs_at(text, pat, i) {
        lemma_first_match_from_bounds(text, pat, i + 1);
    }
}


/// A copy of a list of strings, element by element.
pub fn copy_strings(v: &Vec<String>) -> (res: Vec<String>)
    ensures
        res@ == v@,
{
    let mut res: Vec<String> = Vec::new();
    let mut i: usize = 0;
    while i < v.len()
        invariant
            i <= v.len(),
            res@ == v@.subrange(0, i as int),
        decreases v.len() - i,
    {
        res.push(v[i].clone());
        i += 1;
        assert(res@ =~= v@.subrange(0, i as int));
    }
    assert(v@.subrange(0, v.len() as int) =~= v@);
    res
}


/// Before the match found at or after `i`, `pat` stands nowhere from `i` on.
pub proof fn lemma_first_match_from_is_first(text: Seq<char>, pat: Seq<char>, i: int, j: int)
    requires
        i <= j,
        first_match_from(text, pat, i) matches Some(k) ==> j < k,
    ensures
        !occurs_at(text, pat, j),
    decreases text.len() + 1 - i,
{
    if i + pat.len() > text.len() {
    } else if occurs_at(text, pat, i) {
    } else if i < j {
        lemma_first_match_from_is_first(text, pat, i + 1, j);
    }
}

} // verus!
