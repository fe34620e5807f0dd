//! The path validator: a candidate path must carry the required extension
//! — the characters after the last `.`, compared case-sensitively — and
//! must have resolved to an existing file. Resolving against the filesystem
//! is the caller's task; the verdict over the resolution's outcome is drawn
//! here.

use vstd::prelude::*;
use crate::errors::CatalogError;
use crate::text::str_eq;

verus! {

/// The characters after the last `.` of `p`, or `None` when `p` has no `.`.
pub open spec fn extension_of(p: Seq<char>) -> Option<Seq<char>>
    decreases p.len(),
{
    if p.len() == 0 {
        None
    } else if p.last() == '.' {
        Some(Seq::<char>::empty())
    } else {
        match extension_of(p.drop_last()) {
            None => None,
            Some(e) => Some(e.push(p.last())),
        }
    }
}

/// A path without a dot has no extension.
proof fn lemma_no_dot_no_extension(p: Seq<char>)
    requires
        forall|j: int| 0 <= j < p.len() ==> p[j] != '.',
    ensures
        extension_of(p) is None,
    decreases p.len(),
{
    if p.len() > 0 {
        lemma_no_dot_no_extension(p.drop_last());
    }
}

/// With the last dot of `p` at position `d`, the extension is exactly the
/// characters after `d`.
proof fn lemma_extension_after_last_dot(p: Seq<char>, d: int)
    requires
        0 <= d < p.len(),
        p[d] == '.',
        forall|j: int| d < j < p.len() ==> p[j] != '.',
    ensures
        extension_of(p) == Some(p.subrange(d + 1, p.len() as int)),
    decreases p.len(),
{
    if d == p.len() - 1 {
        assert(p.last() == '.');
        assert(p.subrange(d + 1, p.len() as int) =~= Seq::<char>::empty());
    } else {
        assert(p.last() != '.');
        lemma_extension_after_last_dot(p.drop_last(), d);
        let e = p.drop_last().subrange(d + 1, p.len() - 1);
        assert(e.push(p.last()) =~= p.subrange(d + 1, p.len() as int));
    }
}

/// Whether `path` carries `ext` as its extension: the characters after the
/// last `.` of `path` are exactly `ext`.
pub fn has_extension(path: &str, ext: &str) -> (r: bool)
    ensures
        r == (extension_of(path@) == Some(ext@)),
{
    let n = path.unicode_len();
    let mut i = n;
    while i > 0
        invariant
            0 <= i <= n,
            n == path@.len(),
            forall|j: int| i <= j < n ==> path@[j] != '.',
        decreases i,
    {
        if path.get_char(i - 1) == '.' {
            proof {
                lemma_extension_after_last_dot(path@, i - 1);
            }
            let suffix = path.substring_char(i, n);
            return str_eq(suffix, ext);
        }
        i -= 1;
    }
    proof {
        lemma_no_dot_no_extension(path@);
    }
    false
}

/// The path validator's verdict. `resolved` is the outcome of resolving
/// `candidate` against the filesystem: the canonical path of the existing
/// file it names, or `None` when no such file exists. The verdict is
/// `PathNotFound` when resolution failed, `WrongExtension` when the file
/// exists but `candidate` does not carry `ext`, and otherwise the canonical
/// path.
pub fn validate_path(candidate: &str, ext: &str, resolved: Option<String>) -> (r: Result<
    String,
    CatalogError,
>)
    ensures
        resolved is None ==> r == Err::<String, CatalogError>(CatalogError::PathNotFound),
        resolved matches Some(c) ==> {
            if extension_of(candidate@) == Some(ext@) {
                r == Ok::<String, CatalogError>(c)
            } else {
                r == Err::<String, CatalogError>(CatalogError::WrongExtension)
            }
        },
{
    match resolved {
        None => Err(CatalogError::PathNotFound),
        Some(c) => {
            if has_extension(candidate, ext) {
                Ok(c)
            } else {
                Err(CatalogError::WrongExtension)
            }
        },
    }
}

} // verus!
