//! Unix path text: joining, and the file name, stem, extension and parent
//! of a path, as `std::path` computes them for `/`-separated paths.
//!
//! A path is its text. Trailing separators and trailing `.` components do not
//! count; the last remaining component is the file name unless it is empty,
//! `.` or `..`.

use vstd::prelude::*;

use crate::text::{chars_of, copy_range, push_all, string_of, text_of};

verus! {

/// The length of `p` once trailing `/` and trailing `.` components are
/// dropped; a lone leading `/` (the root) is kept.
pub open spec fn body_len(p: Seq<char>) -> int
    decreases p.len(),
{
    if p.len() > 1 && p.last() == '/' {
        body_len(p.drop_last())
    } else if p.len() > 1 && p.last() == '.' && p[p.len() - 2] == '/' {
        body_len(p.drop_last())
    } else {
        p.len() as int
    }
}

/// The last index in `lo..hi` where `p` holds `c`.
pub open spec fn last_at(p: Seq<char>, c: char, lo: int, hi: int) -> Option<int>
    decreases hi - lo,
{
    if hi <= lo {
        None
    } else if p[hi - 1] == c {
        Some(hi - 1)
    } else {
        last_at(p, c, lo, hi - 1)
    }
}

/// Where the last component of `p` ends.
pub open spec fn name_end(p: Seq<char>) -> int {
    body_len(p)
}

/// Where the last component of `p` starts.
pub open spec fn name_start(p: Seq<char>) -> int {
    match last_at(p, '/', 0, name_end(p)) {
        Some(i) => i + 1,
        None => 0,
    }
}

/// The last component of `p` (empty for `""` and for the root).
pub open spec fn last_component(p: Seq<char>) -> Seq<char> {
    p.subrange(name_start(p), name_end(p))
}

/// `Path::file_name`: the last component unless it is empty, `.` or `..`.
pub open spec fn file_name(p: Seq<char>) -> Option<Seq<char>> {
    let c = last_component(p);
    if c.len() == 0 || c == seq!['.'] || c == seq!['.', '.'] {
        None
    } else {
        Some(c)
    }
}

/// The position of the dot that starts the extension: the last `.` of the
/// file name, unless the name has none or starts with it.
pub open spec fn ext_dot(p: Seq<char>) -> Option<int> {
    if file_name(p) is Some {
        match last_at(p, '.', name_start(p), name_end(p)) {
            Some(d) => if d > name_start(p) {
                Some(d)
            } else {
                None
            },
            None => None,
        }
    } else {
        None
    }
}

/// `Path::extension`: what follows the extension dot.
pub open spec fn extension(p: Seq<char>) -> Option<Seq<char>> {
    match ext_dot(p) {
        Some(d) => Some(p.subrange(d + 1, name_end(p))),
        None => None,
    }
}

/// Where the file stem ends: at the extension dot, or at the end of the name.
pub open spec fn stem_end(p: Seq<char>) -> int {
    match ext_dot(p) {
        Some(d) => d,
        None => name_end(p),
    }
}

/// `Path::file_stem`: the file name without its extension.
pub open spec fn file_stem(p: Seq<char>) -> Option<Seq<char>> {
    if file_name(p) is Some {
        Some(p.subrange(name_start(p), stem_end(p)))
    } else {
        None
    }
}

/// `Path::parent`: everything before the last component, without trailing
/// separators; none for `""` and for the root.
pub open spec fn parent(p: Seq<char>) -> Option<Seq<char>> {
    if last_component(p).len() == 0 {
        None
    } else {
        let q = p.subrange(0, name_start(p));
        Some(q.subrange(0, body_len(q)))
    }
}

/// `Path::join`: an absolute `rel` replaces `base`; otherwise `rel` is added
/// after a `/` unless `base` is empty or already ends with one.
pub open spec fn joined(base: Seq<char>, rel: Seq<char>) -> Seq<char> {
    if rel.len() > 0 && rel[0] == '/' {
        rel
    } else if base.len() == 0 || base.last() == '/' {
        base + rel
    } else {
        base + seq!['/'] + rel
    }
}

pub proof fn lemma_body_len_bounds(p: Seq<char>)
    ensures
        0 <= body_len(p) <= p.len(),
        p.len() > 0 ==> body_len(p) > 0,
    decreases p.len(),
{
    if p.len() > 1 && (p.last() == '/' || (p.last() == '.' && p[p.len() - 2] == '/')) {
        lemma_body_len_bounds(p.drop_last());
    }
}

pub proof fn lemma_last_at_bounds(p: Seq<char>, c: char, lo: int, hi: int)
    ensures
        last_at(p, c, lo, hi) matches Some(i) ==> lo <= i < hi && p[i] == c,
    decreases hi - lo,
{
    if hi > lo && p[hi - 1] != c {
        lemma_last_at_bounds(p, c, lo, hi - 1);
    }
}

fn body_end(p: &Vec<char>, hi: usize) -> (e: usize)
    requires
        hi <= p.len(),
    ensures
        e <= hi,
        e == body_len(p@.subrange(0, hi as int)),
{
    let mut j = hi;
    while j > 1 && (p[j - 1] == '/' || (p[j - 1] == '.' && p[j - 2] == '/'))
        invariant
            j <= hi <= p.len(),
            body_len(p@.subrange(0, hi as int)) == body_len(p@.subrange(0, j as int)),
        decreases j,
    {
        assert(p@.subrange(0, j as int).drop_last() =~= p@.subrange(0, j - 1));
        j -= 1;
    }
    j
}

fn find_last(p: &Vec<char>, c: char, lo: usize, hi: usize) -> (res: Option<usize>)
    requires
        lo <= hi <= p.len(),
    ensures
        match res {
            Some(i) => last_at(p@, c, lo as int, hi as int) == Some(i as int),
            None => last_at(p@, c, lo as int, hi as int) is None,
        },
{
    let mut j = hi;
    while j > lo
        invariant
            lo <= j <= hi <= p.len(),
            last_at(p@, c, lo as int, hi as int) == last_at(p@, c, lo as int, j as int),
        decreases j,
    {
        if p[j - 1] == c {
            return Some(j - 1);
        }
        j -= 1;
    }
    None
}

/// Positions that locate the parts of a path's text.
struct Parts {
    start: usize,
    end: usize,
    has_name: bool,
    dot: Option<usize>,
}

fn parts_of(p: &Vec<char>) -> (r: Parts)
    ensures
        r.start == name_start(p@),
        r.end == name_end(p@),
        r.start <= r.end <= p.len(),
        r.has_name == (file_name(p@) is Some),
        match r.dot {
            Some(d) => ext_dot(p@) == Some(d as int) && r.start < d < r.end,
            None => ext_dot(p@) is None,
        },
{
    assert(p@.subrange(0, p.len() as int) =~= p@);
    let end = body_end(p, p.len());
    proof {
        lemma_last_at_bounds(p@, '/', 0, end as int);
    }
    let start = match find_last(p, '/', 0, end) {
        Some(i) => i + 1,
        None => 0,
    };
    let n = end - start;
    let has_name = !(n == 0 || (n == 1 && p[start] == '.') || (n == 2 && p[start] == '.' && p[start
        + 1] == '.'));
    proof {
        let c = last_component(p@);
        assert(c.len() == n);
        if n >= 1 {
            assert(c[0] == p@[start as int]);
        }
        if n >= 2 {
            assert(c[1] == p@[start + 1]);
        }
        if c == seq!['.'] {
            assert(c[0] == '.');
        }
        if c == seq!['.', '.'] {
            assert(c[0] == '.' && c[1] == '.');
        }
        if n == 1 {
            assert(c[0] == p@[start as int]);
            if p@[start as int] == '.' {
                assert(c =~= seq!['.']);
            }
        }
        if n == 2 {
            assert(c[0] == p@[start as int] && c[1] == p@[start + 1]);
            if p@[start as int] == '.' && p@[start + 1] == '.' {
                assert(c =~= seq!['.', '.']);
            }
        }
    }
    let dot = if has_name {
        match find_last(p, '.', start, end) {
            Some(d) => if d > start {
                Some(d)
            } else {
                None
            },
            None => None,
        }
    } else {
        None
    };
    proof {
        lemma_last_at_bounds(p@, '.', start as int, end as int);
    }
    Parts { start, end, has_name, dot }
}

/// Joins `rel` onto `base` as `Path::join` does.
pub fn path_join(base: &str, rel: &str) -> (res: String)
    ensures
        res@ == joined(base@, rel@),
{
    let b = chars_of(base);
    let r = chars_of(rel);
    if r.len() > 0 && r[0] == '/' {
        return string_of(r.as_slice());
    }
    let mut out = b;
    if out.len() > 0 && out[out.len() - 1] != '/' {
        out.push('/');
    }
    push_all(&mut out, &r);
    string_of(out.as_slice())
}

/// The extension of the file a path names, as `Path::extension` gives it.
pub fn path_extension(path: &str) -> (res: Option<String>)
    ensures
        text_of(res) == extension(path@),
{
    let p = chars_of(path);
    let parts = parts_of(&p);
    match parts.dot {
        Some(d) => Some(string_of(copy_range(&p, d + 1, parts.end).as_slice())),
        None => None,
    }
}

/// The file name without its extension, as `Path::file_stem` gives it.
pub fn path_file_stem(path: &str) -> (res: Option<String>)
    ensures
        text_of(res) == file_stem(path@),
{
    let p = chars_of(path);
    let parts = parts_of(&p);
    if !parts.has_name {
        return None;
    }
    let stop = match parts.dot {
        Some(d) => d,
        None => parts.end,
    };
    Some(string_of(copy_range(&p, parts.start, stop).as_slice()))
}

/// The parent of a path, as `Path::parent` gives it.
pub fn path_parent(path: &str) -> (res: Option<String>)
    ensures
        text_of(res) == parent(path@),
{
    let p = chars_of(path);
    let parts = parts_of(&p);
    if parts.end == parts.start {
        return None;
    }
    let q = copy_range(&p, 0, parts.start);
    assert(q@.subrange(0, q.len() as int) =~= q@);
    let e = body_end(&q, q.len());
    Some(string_of(copy_range(&q, 0, e).as_slice()))
}


/// `Path::with_extension("xmp")`: the path of the XMP sidecar of a file.
pub open spec fn xmp_sidecar(p: Seq<char>) -> Seq<char> {
    if file_name(p) is Some {
        p.subrange(0, stem_end(p)) + ".xmp"@
    } else {
        p
    }
}

/// The path of the XMP sidecar that belongs to a media file.
pub fn xmp_sidecar_path(path: &str) -> (res: String)
    ensures
        res@ == xmp_sidecar(path@),
{
    let p = chars_of(path);
    let parts = parts_of(&p);
    if !parts.has_name {
        return string_of(p.as_slice());
    }
    let stop = match parts.dot {
        Some(d) => d,
        None => parts.end,
    };
    let mut out = copy_range(&p, 0, stop);
    let suffix = chars_of(".xmp");
    push_all(&mut out, &suffix);
    string_of(out.as_slice())
}

/// The decimal digit character for `d < 10`.
pub open spec fn digit_char(d: nat) -> char {
    (d + 48) as char
}

/// The decimal numeral of `n`, without leading zeros.
pub open spec fn decimal(n: nat) -> Seq<char>
    decreases n,
{
    if n < 10 {
        seq![digit_char(n)]
    } else {
        decimal(n / 10) + seq![digit_char(n % 10)]
    }
}

/// Appends the decimal numeral of `n`.
pub fn push_decimal(out: &mut Vec<char>, n: u32)
    ensures
        final(out)@ == old(out)@ + decimal(n as nat),
    decreases n,
{
    if n >= 10 {
        push_decimal(out, n / 10);
    }
    let d: u8 = (n % 10) as u8;
    let c: char = (48u8 + d) as char;
    assert(c == digit_char((n % 10) as nat));
    out.push(c);
    assert(decimal(n as nat) == if n < 10 {
        seq![digit_char(n as nat)]
    } else {
        decimal((n / 10) as nat) + seq![digit_char((n % 10) as nat)]
    });
}


/// The components of a path, as `Path::components` lists them: `/` for the
/// root, then the non-empty parts between separators, with `.` parts dropped
/// except one that leads a relative path.
pub open spec fn components(p: Seq<char>) -> Seq<Seq<char>>
    decreases p.len(),
{
    let e = name_end(p);
    let s = name_start(p);
    if s >= e {
        if p.len() > 0 && p[0] == '/' {
            seq![seq!['/']]
        } else {
            Seq::empty()
        }
    } else {
        proof {
            lemma_body_len_bounds(p);
            lemma_last_at_bounds(p, '/', 0, e);
        }
        components(p.subrange(0, s)) + seq![p.subrange(s, e)]
    }
}

/// `Path` equality: two paths are equal when their components are.
pub open spec fn same_path(a: Seq<char>, b: Seq<char>) -> bool {
    components(a) == components(b)
}

fn components_of(p: &Vec<char>) -> (res: Vec<Vec<char>>)
    ensures
        res@.len() == components(p@).len(),
        forall|i: int| 0 <= i < res@.len() ==> (#[trigger] res@[i])@ == components(p@)[i],
    decreases p.len(),
{
    let parts = parts_of(p);
    if parts.start >= parts.end {
        let mut res: Vec<Vec<char>> = Vec::new();
        if p.len() > 0 && p[0] == '/' {
            let mut root: Vec<char> = Vec::new();
            root.push('/');
            res.push(root);
            assert(res@[0]@ =~= seq!['/']);
        }
        return res;
    }
    let head = copy_range(p, 0, parts.start);
    let mut res = components_of(&head);
    let last = copy_range(p, parts.start, parts.end);
    let ghost before = res@;
    res.push(last);
    proof {
        let c = components(p@);
        assert(c == components(p@.subrange(0, name_start(p@))) + seq![
            p@.subrange(name_start(p@), name_end(p@)),
        ]);
        assert forall|i: int| 0 <= i < res@.len() implies (#[trigger] res@[i])@ == c[i] by {
            if i < before.len() {
                assert(res@[i] == before[i]);
            }
        }
    }
    res
}

/// Whether two paths are equal as `Path` values.
pub fn path_eq(a: &str, b: &str) -> (res: bool)
    ensures
        res == same_path(a@, b@),
{
    let ca = components_of(&chars_of(a));
    let cb = components_of(&chars_of(b));
    let ghost sa = components(a@);
    let ghost sb = components(b@);
    if ca.len() != cb.len() {
        assert(sa.len() != sb.len());
        return false;
    }
    let mut i: usize = 0;
    while i < ca.len()
        invariant
            i <= ca.len() == cb.len(),
            sa == components(a@),
            sb == components(b@),
            ca@.len() == sa.len(),
            cb@.len() == sb.len(),
            forall|k: int| 0 <= k < ca@.len() ==> (#[trigger] ca@[k])@ == sa[k],
            forall|k: int| 0 <= k < cb@.len() ==> (#[trigger] cb@[k])@ == sb[k],
            forall|k: int| 0 <= k < i ==> sa[k] == sb[k],
        decreases ca.len() - i,
    {
        if !crate::text::same_chars(&ca[i], &cb[i]) {
            assert(ca@[i as int]@ == sa[i as int]);
            assert(cb@[i as int]@ == sb[i as int]);
            assert(sa[i as int] != sb[i as int]);
            return false;
        }
        assert(ca@[i as int]@ == sa[i as int]);
        assert(cb@[i as int]@ == sb[i as int]);
        i += 1;
    }
    assert(sa =~= sb);
    true
}


/// Leading separators and leading `.` components removed.
pub open spec fn trim_lead(s: Seq<char>) -> Seq<char>
    decreases s.len(),
{
    if s.len() > 0 && s[0] == '/' {
        trim_lead(s.drop_first())
    } else if s.len() == 1 && s[0] == '.' {
        Seq::empty()
    } else if s.len() >= 2 && s[0] == '.' && s[1] == '/' {
        trim_lead(s.subrange(2, s.len() as int))
    } else {
        s
    }
}

/// `c` ends a component of `file`, and the text of `file` before `c` is the
/// same path as `root`.
pub open spec fn is_cut(file: Seq<char>, root: Seq<char>, c: int) -> bool {
    &&& 0 <= c <= file.len()
    &&& (c == file.len() || file[c] == '/')
    &&& components(file.subrange(0, c)) == components(root)
}

/// The first cut at or after `c`.
pub open spec fn first_cut_from(file: Seq<char>, root: Seq<char>, c: int) -> Option<int>
    decreases file.len() + 1 - c,
{
    if c < 0 || c > file.len() {
        None
    } else if is_cut(file, root, c) {
        Some(c)
    } else {
        first_cut_from(file, root, c + 1)
    }
}

/// `file` lies under `root`: `root` has components and they begin `file`.
pub open spec fn lies_under(file: Seq<char>, root: Seq<char>) -> bool {
    components(root).len() > 0 && first_cut_from(file, root, 0) is Some
}

/// `file.strip_prefix(root).unwrap_or(file)`: when `file` lies under `root`,
/// the rest of `file` after the first cut, without leading and trailing
/// separators and `.` components; otherwise `file` itself.
pub open spec fn relative_to(file: Seq<char>, root: Seq<char>) -> Seq<char> {
    if lies_under(file, root) {
        let t = trim_lead(file.subrange(first_cut_from(file, root, 0)->0, file.len() as int));
        t.subrange(0, body_len(t))
    } else {
        file
    }
}

/// Past the last `c` found in `lo..hi` there is no `c` before `hi`; with
/// none found there is none in `lo..hi`.
pub proof fn lemma_last_at_is_last(p: Seq<char>, c: char, lo: int, hi: int)
    ensures
        match last_at(p, c, lo, hi) {
            Some(i) => forall|j: int| i < j < hi ==> p[j] != c,
            None => forall|j: int| lo <= j < hi ==> p[j] != c,
        },
    decreases hi - lo,
{
    if hi > lo && p[hi - 1] != c {
        lemma_last_at_is_last(p, c, lo, hi - 1);
    }
}

/// Searching for `c` below `hi` finds what searching below `k` finds when
/// `p[k..hi]` holds no `c`.
pub proof fn lemma_last_at_skip(p: Seq<char>, c: char, lo: int, k: int, hi: int)
    requires
        lo <= k <= hi,
        forall|j: int| k <= j < hi ==> p[j] != c,
    ensures
        last_at(p, c, lo, hi) == last_at(p, c, lo, k),
    decreases hi - k,
{
    if hi > k {
        lemma_last_at_skip(p, c, lo, k, hi - 1);
    }
}

/// A path cut down to its body has nothing more to trim.
pub proof fn lemma_body_len_trimmed(q: Seq<char>)
    ensures
        body_len(q.subrange(0, body_len(q))) == body_len(q),
    decreases q.len(),
{
    lemma_body_len_bounds(q);
    if q.len() > 1 && (q.last() == '/' || (q.last() == '.' && q[q.len() - 2] == '/')) {
        lemma_body_len_trimmed(q.drop_last());
        lemma_body_len_bounds(q.drop_last());
        assert(q.drop_last().subrange(0, body_len(q.drop_last())) =~= q.subrange(0, body_len(q)));
    } else {
        assert(q.subrange(0, body_len(q)) =~= q);
    }
}

/// What `trim_lead` leaves does not start with a separator.
pub proof fn lemma_trim_lead_no_separator(s: Seq<char>)
    ensures
        trim_lead(s).len() > 0 ==> trim_lead(s)[0] != '/',
    decreases s.len(),
{
    if s.len() > 0 && s[0] == '/' {
        lemma_trim_lead_no_separator(s.drop_first());
    } else if s.len() >= 2 && s[0] == '.' && s[1] == '/' {
        lemma_trim_lead_no_separator(s.subrange(2, s.len() as int));
    }
}

/// A path relative to a root it lies under does not start with a separator.
pub proof fn lemma_relative_is_relative(file: Seq<char>, root: Seq<char>)
    requires
        lies_under(file, root),
    ensures
        relative_to(file, root).len() > 0 ==> relative_to(file, root)[0] != '/',
{
    let t = trim_lead(file.subrange(first_cut_from(file, root, 0)->0, file.len() as int));
    lemma_trim_lead_no_separator(
        file.subrange(first_cut_from(file, root, 0)->0, file.len() as int),
    );
    lemma_body_len_bounds(t);
}

proof fn lemma_trim_lead_step(s: Seq<char>, i: int)
    requires
        0 <= i <= s.len(),
    ensures
        i < s.len() && s[i] == '/' ==> trim_lead(s.subrange(i, s.len() as int)) == trim_lead(
            s.subrange(i + 1, s.len() as int),
        ),
        i + 2 <= s.len() && s[i] == '.' && s[i + 1] == '/' ==> trim_lead(
            s.subrange(i, s.len() as int),
        ) == trim_lead(s.subrange(i + 2, s.len() as int)),
{
    let t = s.subrange(i, s.len() as int);
    if i < s.len() && s[i] == '/' {
        assert(t.drop_first() =~= s.subrange(i + 1, s.len() as int));
    }
    if i + 2 <= s.len() && s[i] == '.' && s[i + 1] == '/' {
        assert(t.subrange(2, t.len() as int) =~= s.subrange(i + 2, s.len() as int));
    }
}

fn trim_lead_exec(s: &Vec<char>) -> (res: Vec<char>)
    ensures
        res@ == trim_lead(s@),
{
    let mut i: usize = 0;
    assert(s@.subrange(0, s.len() as int) =~= s@);
    loop
        invariant
            i <= s.len(),
            trim_lead(s@) == trim_lead(s@.subrange(i as int, s.len() as int)),
        decreases s.len() - i,
    {
        proof {
            lemma_trim_lead_step(s@, i as int);
        }
        if i < s.len() && s[i] == '/' {
            i += 1;
        } else if s.len() - i == 1 && s[i] == '.' {
            return Vec::new();
        } else if s.len() - i >= 2 && s[i] == '.' && s[i + 1] == '/' {
            i += 2;
        } else {
            return copy_range(s, i, s.len());
        }
    }
}

/// The path of a file relative to the root it was found under, as
/// `file.strip_prefix(root).unwrap_or(file)` gives it.
pub fn path_relative_to(file: &str, root: &str) -> (res: String)
    ensures
        res@ == relative_to(file@, root@),
{
    let f = chars_of(file);
    let root_parts = components_of(&chars_of(root));
    if root_parts.len() == 0 {
        return string_of(f.as_slice());
    }
    let mut c: usize = 0;
    loop
        invariant
            c <= f.len(),
            f@ == file@,
            components(root@).len() > 0,
            first_cut_from(file@, root@, 0) == first_cut_from(file@, root@, c as int),
        decreases f.len() + 1 - c,
    {
        if c == f.len() || f[c] == '/' {
            let head = string_of(copy_range(&f, 0, c).as_slice());
            if path_eq(head.as_str(), root) {
                assert(is_cut(file@, root@, c as int));
                let rest = copy_range(&f, c, f.len());
                let t = trim_lead_exec(&rest);
                assert(t@.subrange(0, t.len() as int) =~= t@);
                let e = body_end(&t, t.len());
                return string_of(copy_range(&t, 0, e).as_slice());
            }
        }
        if c == f.len() {
            assert(first_cut_from(file@, root@, c + 1) is None);
            return string_of(f.as_slice());
        }
        c += 1;
    }
}

} // verus!
