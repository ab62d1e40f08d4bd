//! Turning camera names into directory names.

use vstd::prelude::*;

use crate::text::{
    chars_of, lemma_strip_back, lemma_strip_front, string_of, strip_back, strip_both, strip_front,
    strips, trim_chars, Strip,
};

verus! {

/// ASCII letters and digits: the characters a directory name keeps.
pub open spec fn is_alnum(c: char) -> bool {
    ||| ('a' <= c && c <= 'z')
    ||| ('A' <= c && c <= 'Z')
    ||| ('0' <= c && c <= '9')
}

pub fn is_alnum_char(c: char) -> (res: bool)
    ensures
        res == is_alnum(c),
{
    ('a' <= c && c <= 'z') || ('A' <= c && c <= 'Z') || ('0' <= c && c <= '9')
}

/// Every character that is not an ASCII letter or digit becomes `_`, and a
/// run of such characters gives a single `_`. `after_sep` says whether the
/// output so far ends in such a `_`.
pub open spec fn squeeze(s: Seq<char>, after_sep: bool) -> Seq<char>
    decreases s.len(),
{
    if s.len() == 0 {
        Seq::empty()
    } else if is_alnum(s[0]) {
        seq![s[0]] + squeeze(s.drop_first(), false)
    } else if after_sep {
        squeeze(s.drop_first(), true)
    } else {
        seq!['_'] + squeeze(s.drop_first(), true)
    }
}

/// The name used when nothing better is known about a camera.
pub open spec fn unknown_camera() -> Seq<char> {
    "UnknownCamera"@
}

/// The directory name for a camera name: separators squeezed, `_` trimmed from
/// both ends, and `UnknownCamera` if nothing is left.
pub open spec fn sanitized(s: Seq<char>) -> Seq<char> {
    let t = strip_both(squeeze(s, false), Strip::Underscore);
    if t.len() == 0 {
        unknown_camera()
    } else {
        t
    }
}

/// A directory name as `sanitize_component` makes it: not empty, only ASCII
/// letters, digits and `_`, no `_` at either end and never two `_` in a row.
pub open spec fn is_clean_component(t: Seq<char>) -> bool {
    &&& t.len() > 0
    &&& forall|i: int| 0 <= i < t.len() ==> is_alnum(#[trigger] t[i]) || t[i] == '_'
    &&& t[0] != '_'
    &&& t.last() != '_'
    &&& forall|i: int| 0 <= i < t.len() - 1 ==> !(#[trigger] t[i] == '_' && t[i + 1] == '_')
}

/// Maps a camera name to a directory name made of ASCII letters, digits and
/// single underscores.
pub fn sanitize_component(value: &str) -> (res: String)
    ensures
        res@ == sanitized(value@),
{
    let v = chars_of(value);
    let mut out: Vec<char> = Vec::new();
    let mut last_was_sep = false;
    let mut i: usize = 0;
    assert(v@.skip(0) =~= v@);
    while i < v.len()
        invariant
            i <= v.len(),
            out@ + squeeze(v@.skip(i as int), last_was_sep) == squeeze(v@, false),
        decreases v.len() - i,
    {
        let ch = v[i];
        assert(v@.skip(i as int).drop_first() =~= v@.skip(i + 1));
        let ghost before = out@;
        if is_alnum_char(ch) {
            last_was_sep = false;
            out.push(ch);
            assert(before + (seq![ch] + squeeze(v@.skip(i + 1), false)) =~= out@ + squeeze(
                v@.skip(i + 1),
                false,
            ));
        } else if !last_was_sep {
            last_was_sep = true;
            out.push('_');
            assert(before + (seq!['_'] + squeeze(v@.skip(i + 1), true)) =~= out@ + squeeze(
                v@.skip(i + 1),
                true,
            ));
        }
        i += 1;
    }
    assert(out@ + Seq::<char>::empty() =~= out@);
    let trimmed = trim_chars(&out, Strip::Underscore);
    if trimmed.len() == 0 {
        String::from_str("UnknownCamera")
    } else {
        string_of(trimmed.as_slice())
    }
}


/// What `squeeze` gives holds only letters, digits and `_`, never two `_` in
/// a row, and, when it continues a separator, does not start with `_`.
proof fn lemma_squeeze_shape(s: Seq<char>, after_sep: bool)
    ensures
        forall|i: int|
            0 <= i < squeeze(s, after_sep).len() ==> is_alnum(#[trigger] squeeze(s, after_sep)[i])
                || squeeze(s, after_sep)[i] == '_',
        forall|i: int|
            0 <= i < squeeze(s, after_sep).len() - 1 ==> !(#[trigger] squeeze(s, after_sep)[i]
                == '_' && squeeze(s, after_sep)[i + 1] == '_'),
        after_sep && squeeze(s, after_sep).len() > 0 ==> squeeze(s, after_sep)[0] != '_',
    decreases s.len(),
{
    if s.len() > 0 {
        let r = squeeze(s.drop_first(), !is_alnum(s[0]));
        lemma_squeeze_shape(s.drop_first(), !is_alnum(s[0]));
        let out = squeeze(s, after_sep);
        if is_alnum(s[0]) {
            assert(out =~= seq![s[0]] + r);
            assert forall|i: int| 0 <= i < out.len() - 1 implies !(#[trigger] out[i] == '_'
                && out[i + 1] == '_') by {
                if i > 0 {
                    assert(out[i] == r[i - 1] && out[i + 1] == r[i]);
                }
            }
        } else if !after_sep {
            assert(out =~= seq!['_'] + r);
            assert forall|i: int| 0 <= i < out.len() - 1 implies !(#[trigger] out[i] == '_'
                && out[i + 1] == '_') by {
                if i > 0 {
                    assert(out[i] == r[i - 1] && out[i + 1] == r[i]);
                }
            }
            assert forall|i: int| 0 <= i < out.len() implies is_alnum(#[trigger] out[i]) || out[i]
                == '_' by {
                if i > 0 {
                    assert(out[i] == r[i - 1]);
                }
            }
        }
    }
}

/// A clean name goes through `squeeze` unchanged.
proof fn lemma_squeeze_keeps(t: Seq<char>, after_sep: bool)
    requires
        forall|i: int| 0 <= i < t.len() ==> is_alnum(#[trigger] t[i]) || t[i] == '_',
        forall|i: int| 0 <= i < t.len() - 1 ==> !(#[trigger] t[i] == '_' && t[i + 1] == '_'),
        after_sep && t.len() > 0 ==> t[0] != '_',
    ensures
        squeeze(t, after_sep) == t,
    decreases t.len(),
{
    if t.len() > 0 {
        let rest = t.drop_first();
        assert forall|i: int| 0 <= i < rest.len() implies is_alnum(#[trigger] rest[i]) || rest[i]
            == '_' by {
            assert(rest[i] == t[i + 1]);
        }
        assert forall|i: int| 0 <= i < rest.len() - 1 implies !(#[trigger] rest[i] == '_' && rest[i
            + 1] == '_') by {
            assert(rest[i] == t[i + 1] && rest[i + 1] == t[i + 2]);
        }
        if rest.len() > 0 {
            assert(rest[0] == t[1]);
        }
        lemma_squeeze_keeps(rest, !is_alnum(t[0]));
        assert(t =~= seq![t[0]] + rest);
    }
}

/// The fallback name is itself a clean directory name.
proof fn lemma_unknown_camera_clean()
    ensures
        is_clean_component(unknown_camera()),
{
    reveal_strlit("UnknownCamera");
    let t = unknown_camera();
    assert(t =~= seq!['U', 'n', 'k', 'n', 'o', 'w', 'n', 'C', 'a', 'm', 'e', 'r', 'a']);
}

/// Whatever the camera name, the directory name is clean: not empty, only
/// ASCII letters, digits and `_`, no `_` at either end, never two `_` in a row.
pub proof fn lemma_sanitized_is_clean(s: Seq<char>)
    ensures
        is_clean_component(sanitized(s)),
{
    let q = squeeze(s, false);
    lemma_squeeze_shape(s, false);
    let a = lemma_strip_front(q, Strip::Underscore);
    let f = strip_front(q, Strip::Underscore);
    let b = lemma_strip_back(f, Strip::Underscore);
    let t = strip_both(q, Strip::Underscore);
    if t.len() == 0 {
        lemma_unknown_camera_clean();
    } else {
        assert(t =~= q.subrange(a, a + b));
        assert forall|i: int| 0 <= i < t.len() implies is_alnum(#[trigger] t[i]) || t[i] == '_' by {
            assert(t[i] == q[a + i]);
        }
        assert forall|i: int| 0 <= i < t.len() - 1 implies !(#[trigger] t[i] == '_' && t[i + 1]
            == '_') by {
            assert(t[i] == q[a + i] && t[i + 1] == q[a + i + 1]);
        }
        assert(t[0] == f[0]);
        assert(!strips(Strip::Underscore, f[0]));
    }
}

/// A name that is already a clean directory name is kept as it is.
pub proof fn lemma_sanitized_keeps_clean(t: Seq<char>)
    requires
        is_clean_component(t),
    ensures
        sanitized(t) == t,
{
    lemma_squeeze_keeps(t, false);
    assert(strip_front(t, Strip::Underscore) == t);
    assert(strip_back(t, Strip::Underscore) == t);
}

/// Sanitizing twice gives what sanitizing once gives.
pub proof fn lemma_sanitized_idempotent(s: Seq<char>)
    ensures
        sanitized(sanitized(s)) == sanitized(s),
{
    lemma_sanitized_is_clean(s);
    lemma_sanitized_keeps_clean(sanitized(s));
}


/// Whether the output of `squeeze` ends in a separator after reading `x`.
spec fn sep_after(x: Seq<char>, after_sep: bool) -> bool {
    if x.len() == 0 {
        after_sep
    } else {
        !is_alnum(x.last())
    }
}

proof fn lemma_squeeze_concat(x: Seq<char>, y: Seq<char>, after_sep: bool)
    ensures
        squeeze(x + y, after_sep) == squeeze(x, after_sep) + squeeze(y, sep_after(x, after_sep)),
    decreases x.len(),
{
    if x.len() == 0 {
        assert(x + y =~= y);
        assert(squeeze(x, after_sep) + squeeze(y, after_sep) =~= squeeze(y, after_sep));
    } else {
        let rest = x.drop_first();
        assert((x + y)[0] == x[0]);
        assert((x + y).drop_first() =~= rest + y);
        lemma_squeeze_concat(rest, y, !is_alnum(x[0]));
        if rest.len() > 0 {
            assert(rest.last() == x.last());
        }
        let head = squeeze(x, after_sep);
        if is_alnum(x[0]) {
            assert(seq![x[0]] + (squeeze(rest, false) + squeeze(y, sep_after(x, after_sep)))
                =~= seq![x[0]] + squeeze(rest, false) + squeeze(y, sep_after(x, after_sep)));
        } else if !after_sep {
            assert(seq!['_'] + (squeeze(rest, true) + squeeze(y, sep_after(x, after_sep)))
                =~= seq!['_'] + squeeze(rest, true) + squeeze(y, sep_after(x, after_sep)));
        }
    }
}

proof fn lemma_squeeze_separators(sep: Seq<char>)
    requires
        forall|i: int| 0 <= i < sep.len() ==> !is_alnum(#[trigger] sep[i]),
    ensures
        squeeze(sep, true) == Seq::<char>::empty(),
        sep.len() > 0 ==> squeeze(sep, false) == seq!['_'],
    decreases sep.len(),
{
    if sep.len() > 0 {
        let rest = sep.drop_first();
        assert forall|i: int| 0 <= i < rest.len() implies !is_alnum(#[trigger] rest[i]) by {
            assert(rest[i] == sep[i + 1]);
        }
        lemma_squeeze_separators(rest);
        assert(!is_alnum(sep[0]));
        assert(seq!['_'] + Seq::<char>::empty() =~= seq!['_']);
    }
}

/// Two words of ASCII letters and digits with a run of other characters
/// between them become the two words joined by one `_`: every character of
/// the words is kept, in order, and the whole run, whatever it holds,
/// becomes a single separator.
pub proof fn lemma_words_joined(a: Seq<char>, sep: Seq<char>, b: Seq<char>)
    requires
        a.len() > 0,
        b.len() > 0,
        sep.len() > 0,
        forall|i: int| 0 <= i < a.len() ==> is_alnum(#[trigger] a[i]),
        forall|i: int| 0 <= i < b.len() ==> is_alnum(#[trigger] b[i]),
        forall|i: int| 0 <= i < sep.len() ==> !is_alnum(#[trigger] sep[i]),
    ensures
        sanitized(a + sep + b) == a + seq!['_'] + b,
{
    lemma_squeeze_concat(a + sep, b, false);
    lemma_squeeze_concat(a, sep, false);
    lemma_squeeze_keeps(a, false);
    lemma_squeeze_separators(sep);
    assert(sep_after(a + sep, false) == true) by {
        assert((a + sep).last() == sep.last());
    }
    assert(sep_after(a, false) == false);
    assert(b.len() > 0 ==> b[0] != '_');
    lemma_squeeze_keeps(b, true);
    let t = a + seq!['_'] + b;
    assert(squeeze(a + sep + b, false) =~= t);
    assert(t[0] == a[0]);
    assert(t.last() == b.last());
    assert(strip_front(t, Strip::Underscore) == t);
    assert(strip_back(t, Strip::Underscore) == t);
}

} // verus!
