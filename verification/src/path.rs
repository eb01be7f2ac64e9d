//! File paths, held as text.

use vstd::prelude::*;

use crate::text::{chars_of, text_of};

verus! {

/// `Path::join` on Unix: an absolute `name` replaces `directory`; otherwise
/// a separator goes between them unless `directory` is empty or already ends
/// with one.
pub open spec fn spec_join(directory: Seq<char>, name: Seq<char>) -> Seq<char> {
    if name.len() > 0 && name[0] == '/' {
        name
    } else if directory.len() == 0 || directory.last() == '/' {
        directory + name
    } else {
        directory + seq!['/'] + name
    }
}

/// `directory` joined with `name`.
pub fn join(directory: &str, name: &str) -> (path: String)
    ensures
        path@ == spec_join(directory@, name@),
{
    let d = chars_of(directory);
    let n = chars_of(name);
    let mut out: Vec<char> = Vec::new();
    if n.len() > 0 && n[0] == '/' {
        crate::text::extend(&mut out, &n);
        assert(out@ =~= n@);
    } else {
        crate::text::extend(&mut out, &d);
        if d.len() > 0 && d[d.len() - 1] != '/' {
            out.push('/');
        }
        crate::text::extend(&mut out, &n);
        if d.len() > 0 && d[d.len() - 1] != '/' {
            assert(out@ =~= d@ + seq!['/'] + n@);
        } else {
            assert(out@ =~= d@ + n@);
        }
    }
    text_of(&out)
}

/// What `Path::parent` answers for a path: the path without its last
/// component, or nothing for a root or an empty path.
pub uninterp spec fn spec_parent(path: Seq<char>) -> Option<Seq<char>>;

/// The parent of a path.
///
/// Trusted: calls `std::path::Path::parent`; the contract only names its
/// answer, which depends on the path alone.
#[verifier::external_body]
pub(crate) fn parent(path: &str) -> (up: Option<String>)
    ensures
        up is Some <==> spec_parent(path@) is Some,
        up matches Some(p) ==> spec_parent(path@) == Some(p@),
{
    match std::path::Path::new(path).parent() {
        Some(p) => Some(p.to_string_lossy().into_owned()),
        None => None,
    }
}

} // verus!
