//! Copying next to a taken destination: whether to copy at all, and the
//! numbered alternative paths `STEM_N.EXT` tried when the destination holds
//! a different file.

use vstd::prelude::*;

use crate::paths::{
    body_len, decimal, digit_char, ext_dot, extension, file_stem, joined,
    lemma_body_len_bounds, lemma_body_len_trimmed, lemma_last_at_bounds, lemma_last_at_is_last,
    lemma_last_at_skip, last_at, name_end, name_start, parent, path_extension, path_file_stem,
    path_join, path_parent, push_decimal,
};
use crate::hash::{check_file, sha256_digest, HashError};
use crate::importer::CopyOutcome;
use crate::text::{chars_of, push_all, string_of, text_of};

verus! {

/// What to do with a file whose destination may already be taken.
#[derive(Debug, PartialEq, Eq, Structural)]
pub enum DedupAction {
    /// An identical file is already there: nothing is copied.
    KeepExisting,
    /// The destination is free: copy there.
    CopyToDestination,
    /// A different file is there: copy to a free numbered path beside it.
    CopyToUniquePath,
}

/// Decides how a file is copied, from whether its destination exists and,
/// if it does, whether it has the same content.
pub fn dedup_action(dest_exists: bool, same_content: bool) -> (res: DedupAction)
    ensures
        res == if !dest_exists {
            DedupAction::CopyToDestination
        } else if same_content {
            DedupAction::KeepExisting
        } else {
            DedupAction::CopyToUniquePath
        },
{
    if !dest_exists {
        DedupAction::CopyToDestination
    } else if same_content {
        DedupAction::KeepExisting
    } else {
        DedupAction::CopyToUniquePath
    }
}

/// The check made once a file has been copied: the copy counts as made when
/// it has the source's SHA-256 digest, and fails with `Mismatch hash code`
/// otherwise.
pub fn verify_copy(src_contents: &[u8], copied_contents: &[u8]) -> (res: Result<
    CopyOutcome,
    HashError,
>)
    ensures
        res is Ok <==> sha256_digest(src_contents@) == sha256_digest(copied_contents@),
        res matches Ok(o) ==> o == CopyOutcome::Copied,
        res matches Err(e) ==> e.reason@ == "Mismatch hash code"@,
{
    match check_file(src_contents, copied_contents) {
        Ok(()) => Ok(CopyOutcome::Copied),
        Err(e) => Err(e),
    }
}

/// The text of an optional path part, empty when absent.
pub open spec fn or_empty(o: Option<Seq<char>>) -> Seq<char> {
    match o {
        Some(t) => t,
        None => Seq::empty(),
    }
}

/// `STEM_N.EXT`, or `STEM_N` when the extension is empty.
pub open spec fn numbered_name(stem: Seq<char>, n: nat, ext: Seq<char>) -> Seq<char> {
    if ext.len() == 0 {
        stem + seq!['_'] + decimal(n)
    } else {
        stem + seq!['_'] + decimal(n) + seq!['.'] + ext
    }
}

/// The `n`-th alternative to a taken path: the same directory, the file stem
/// (`file` if there is none) with `_n` appended, and the same extension.
pub open spec fn numbered_path(p: Seq<char>, n: nat) -> Seq<char> {
    let stem = match file_stem(p) {
        Some(s) => s,
        None => "file"@,
    };
    joined(or_empty(parent(p)), numbered_name(stem, n, or_empty(extension(p))))
}

/// The highest number tried for an alternative path.
pub const UNIQUE_PATH_LIMIT: u32 = 9999;

fn text_or_empty(o: Option<String>) -> (res: Vec<char>)
    ensures
        res@ == or_empty(text_of(o)),
{
    match o {
        Some(t) => chars_of(t.as_str()),
        None => Vec::new(),
    }
}

/// The `n`-th alternative path for a file whose destination is taken.
pub fn unique_path_candidate(taken: &str, n: u32) -> (res: String)
    ensures
        res@ == numbered_path(taken@, n as nat),
{
    let parent_text = text_or_empty(path_parent(taken));
    let mut name = match path_file_stem(taken) {
        Some(stem) => chars_of(stem.as_str()),
        None => chars_of("file"),
    };
    let ext = text_or_empty(path_extension(taken));
    name.push('_');
    push_decimal(&mut name, n);
    if ext.len() > 0 {
        name.push('.');
        push_all(&mut name, &ext);
    }
    path_join(string_of(parent_text.as_slice()).as_str(), string_of(name.as_slice()).as_str())
}

/// The next step in looking for a free alternative path.
pub enum UniquePathStep {
    /// Use this path.
    Use(String),
    /// Check whether the alternative with this number is taken.
    Probe(u32),
}

/// Given that the alternative numbered `attempt` is taken or not, decides
/// the next step: use it if it is free, else try the next number, and after
/// the last number give up and use the taken path itself.
pub fn unique_path_step(taken: &str, attempt: u32, candidate_taken: bool) -> (res:
    UniquePathStep)
    requires
        1 <= attempt <= UNIQUE_PATH_LIMIT,
    ensures
        !candidate_taken ==> (res matches UniquePathStep::Use(p) && p@ == numbered_path(
            taken@,
            attempt as nat,
        )),
        candidate_taken && attempt < UNIQUE_PATH_LIMIT ==> res == UniquePathStep::Probe(
            (attempt + 1) as u32,
        ),
        candidate_taken && attempt == UNIQUE_PATH_LIMIT ==> (res matches UniquePathStep::Use(p)
            && p@ == taken@),
{
    if !candidate_taken {
        UniquePathStep::Use(unique_path_candidate(taken, attempt))
    } else if attempt < UNIQUE_PATH_LIMIT {
        UniquePathStep::Probe(attempt + 1)
    } else {
        UniquePathStep::Use(String::from_str(taken))
    }
}

proof fn lemma_digit_injective(a: nat, b: nat)
    requires
        a < 10,
        b < 10,
        digit_char(a) == digit_char(b),
    ensures
        a == b,
{
    assert((a + 48) as char as int == a + 48);
    assert((b + 48) as char as int == b + 48);
}

proof fn lemma_decimal_len(n: nat)
    ensures
        decimal(n).len() >= 1,
        decimal(n).len() == 1 <==> n < 10,
    decreases n,
{
    if n >= 10 {
        lemma_decimal_len(n / 10);
    }
}

/// Different numbers have different decimal numerals.
pub proof fn lemma_decimal_injective(i: nat, j: nat)
    ensures
        decimal(i) == decimal(j) ==> i == j,
    decreases i,
{
    lemma_decimal_len(i);
    lemma_decimal_len(j);
    if decimal(i) == decimal(j) {
        if i < 10 {
            assert(decimal(i)[0] == digit_char(i));
            assert(decimal(j)[0] == digit_char(j));
            lemma_digit_injective(i, j);
        } else {
            let d = decimal(i);
            assert(d.last() == digit_char(i % 10) && d.last() == digit_char(j % 10));
            lemma_digit_injective(i % 10, j % 10);
            assert(decimal(i / 10) =~= d.drop_last());
            assert(decimal(j / 10) =~= d.drop_last());
            lemma_decimal_injective(i / 10, j / 10);
        }
    }
}

proof fn lemma_numbered_name_injective(stem: Seq<char>, i: nat, j: nat, ext: Seq<char>)
    ensures
        numbered_name(stem, i, ext) == numbered_name(stem, j, ext) ==> i == j,
{
    let a = numbered_name(stem, i, ext);
    let b = numbered_name(stem, j, ext);
    if a == b {
        let k: int = stem.len() as int + 1;
        let di = decimal(i);
        let dj = decimal(j);
        if ext.len() == 0 {
            assert(a.len() == k + di.len());
            assert(b.len() == k + dj.len());
        } else {
            assert(a.len() == k + di.len() + 1 + ext.len());
            assert(b.len() == k + dj.len() + 1 + ext.len());
        }
        assert(di =~= a.subrange(k, k + di.len()));
        assert(dj =~= b.subrange(k, k + dj.len()));
        lemma_decimal_injective(i, j);
    }
}

proof fn lemma_joined_cancel(base: Seq<char>, a: Seq<char>, b: Seq<char>)
    requires
        a.len() > 0,
        b.len() > 0,
        a[0] == b[0],
        joined(base, a) == joined(base, b),
    ensures
        a == b,
{
    let prefix = if a[0] == '/' {
        Seq::<char>::empty()
    } else if base.len() == 0 || base.last() == '/' {
        base
    } else {
        base + seq!['/']
    };
    assert(joined(base, a) =~= prefix + a);
    assert(joined(base, b) =~= prefix + b);
    assert(a =~= (prefix + a).subrange(prefix.len() as int, (prefix + a).len() as int));
    assert(b =~= (prefix + b).subrange(prefix.len() as int, (prefix + b).len() as int));
}

/// The alternatives tried for one taken path are all different paths.
pub proof fn lemma_numbered_paths_distinct(p: Seq<char>, i: nat, j: nat)
    requires
        i != j,
    ensures
        numbered_path(p, i) != numbered_path(p, j),
{
    let stem = match file_stem(p) {
        Some(s) => s,
        None => "file"@,
    };
    let ext = or_empty(extension(p));
    let a = numbered_name(stem, i, ext);
    let b = numbered_name(stem, j, ext);
    lemma_numbered_name_injective(stem, i, j, ext);
    assert(a.len() > 0 && b.len() > 0 && a[0] == b[0]) by {
        lemma_decimal_len(i);
        lemma_decimal_len(j);
        if stem.len() > 0 {
            assert(a[0] == stem[0] && b[0] == stem[0]);
        } else {
            assert(a[0] == '_' && b[0] == '_');
        }
    }
    if numbered_path(p, i) == numbered_path(p, j) {
        lemma_joined_cancel(or_empty(parent(p)), a, b);
    }
}


proof fn lemma_decimal_digits(n: nat)
    ensures
        forall|i: int|
            0 <= i < decimal(n).len() ==> '0' <= #[trigger] decimal(n)[i] && decimal(n)[i] <= '9',
    decreases n,
{
    assert((n % 10 + 48) as char as int == n % 10 + 48);
    if n >= 10 {
        lemma_decimal_digits(n / 10);
        let d = decimal(n);
        assert forall|i: int| 0 <= i < d.len() implies '0' <= #[trigger] d[i] && d[i] <= '9' by {
            if i < d.len() - 1 {
                assert(d[i] == decimal(n / 10)[i]);
            }
        }
    } else {
        assert((n + 48) as char as int == n + 48);
    }
}

/// The file stem and the extension of a path hold no separator.
proof fn lemma_parts_have_no_separator(p: Seq<char>)
    ensures
        file_stem(p) matches Some(t) ==> forall|i: int| 0 <= i < t.len() ==> t[i] != '/',
        extension(p) matches Some(e) ==> forall|i: int| 0 <= i < e.len() ==> e[i] != '/',
        file_stem(p) matches Some(t) ==> t.len() > 0,
{
    lemma_body_len_bounds(p);
    lemma_last_at_bounds(p, '/', 0, name_end(p));
    lemma_last_at_is_last(p, '/', 0, name_end(p));
    lemma_last_at_bounds(p, '.', name_start(p), name_end(p));
    if let Some(t) = file_stem(p) {
        assert forall|i: int| 0 <= i < t.len() implies t[i] != '/' by {
            assert(t[i] == p[name_start(p) + i]);
        }
    }
    if let Some(e) = extension(p) {
        let d = ext_dot(p)->0;
        assert forall|i: int| 0 <= i < e.len() implies e[i] != '/' by {
            assert(e[i] == p[d + 1 + i]);
        }
    }
}

/// A numbered alternative lies in the same directory as the taken path.
pub proof fn lemma_numbered_path_beside(p: Seq<char>, n: nat)
    ensures
        or_empty(parent(numbered_path(p, n))) == or_empty(parent(p)),
{
    reveal_strlit("file");
    let stem = match file_stem(p) {
        Some(s) => s,
        None => "file"@,
    };
    let ext = or_empty(extension(p));
    let name = numbered_name(stem, n, ext);
    let base = or_empty(parent(p));
    lemma_parts_have_no_separator(p);
    lemma_decimal_digits(n);
    lemma_decimal_len(n);
    assert(stem.len() > 0);
    assert forall|i: int| 0 <= i < name.len() implies name[i] != '/' by {
        let dn = decimal(n);
        if i < stem.len() {
            assert(name[i] == stem[i]);
        } else if i == stem.len() {
            assert(name[i] == '_');
        } else if i < stem.len() + 1 + dn.len() {
            assert(name[i] == dn[i - stem.len() - 1]);
        } else if i == stem.len() + 1 + dn.len() {
            assert(name[i] == '.');
        } else {
            assert(name[i] == ext[i - stem.len() - 2 - dn.len()]);
        }
    }
    assert(name.len() >= 3);
    // The directory part is already in trimmed form.
    if parent(p) is Some {
        let q = p.subrange(0, name_start(p));
        lemma_body_len_trimmed(q);
        lemma_body_len_bounds(q);
    }
    assert(body_len(base) == base.len());
    let prefix = if base.len() == 0 || base.last() == '/' {
        base
    } else {
        base + seq!['/']
    };
    let r = numbered_path(p, n);
    assert(r =~= prefix + name);
    assert(body_len(r) == r.len()) by {
        assert(r.last() == name.last());
        assert(r[r.len() - 2] == name[name.len() - 2]);
    }
    assert forall|j: int| prefix.len() <= j < r.len() implies r[j] != '/' by {
        assert(r[j] == name[j - prefix.len()]);
    }
    lemma_last_at_skip(r, '/', 0, prefix.len() as int, r.len() as int);
    if base.len() == 0 {
        assert(last_at(r, '/', 0, 0) is None);
        assert(r.subrange(0, 0) =~= base);
    } else if base.last() == '/' {
        lemma_body_len_bounds(base.drop_last());
        if base.len() > 1 {
            assert(body_len(base) == body_len(base.drop_last()));
        }
        assert(base.len() == 1);
        assert(last_at(r, '/', 0, 1) == Some(0int));
        assert(r.subrange(0, 1) =~= base);
    } else {
        assert(r[base.len() as int] == '/');
        assert(last_at(r, '/', 0, prefix.len() as int) == Some(base.len() as int));
        let q = r.subrange(0, base.len() as int + 1);
        assert(q =~= base + seq!['/']);
        assert(q.drop_last() =~= base);
        assert(body_len(q) == body_len(base));
        assert(q.subrange(0, body_len(q)) =~= base);
    }
}

} // verus!
