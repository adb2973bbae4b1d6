//! Paths as texts, with `/` between components.

use crate::text;
use crate::text::{chars_of, concat2, concat3};
use vstd::prelude::*;

verus! {

/// Whether a path stands on its own.
pub open spec fn is_absolute(path: Seq<char>) -> bool {
    path.len() > 0 && path[0] == '/'
}

/// `path` below `base`, with one separator between them.
pub open spec fn path_join(base: Seq<char>, path: Seq<char>) -> Seq<char> {
    if base.len() > 0 && base.last() != '/' {
        base + "/"@ + path
    } else {
        base + path
    }
}

/// Where `raw` leads from the working directory.
pub open spec fn resolved(cwd: Option<Seq<char>>, raw: Seq<char>) -> Seq<char> {
    match cwd {
        Some(dir) => if is_absolute(raw) {
            raw
        } else {
            path_join(dir, raw)
        },
        None => raw,
    }
}

/// `path` below `base`, with one separator between them.
pub fn join_path(base: &str, path: &str) -> (r: String)
    ensures
        r@ == path_join(base@, path@),
{
    let b = chars_of(base);
    if b.len() > 0 && b[b.len() - 1] != '/' {
        concat3(base, "/", path)
    } else {
        concat2(base, path)
    }
}

/// Where `raw` leads from the working directory.
pub fn resolve_path(cwd: &Option<String>, raw: &str) -> (r: String)
    ensures
        r@ == resolved(text::opt_view(*cwd), raw@),
{
    let v = chars_of(raw);
    let absolute = v.len() > 0 && v[0] == '/';
    if absolute {
        return raw.to_owned();
    }
    match cwd {
        Some(dir) => join_path(dir.as_str(), raw),
        None => raw.to_owned(),
    }
}

/// A path that stands on its own leads where it says; any other leads on from
/// the working directory, with one separator between them.
pub proof fn law_paths_lead_on_from_the_directory(dir: Seq<char>, path: Seq<char>)
    ensures
        dir.len() > 0 && dir.last() != '/' ==> path_join(dir, path) == dir + seq!['/'] + path,
        dir.len() == 0 || dir.last() == '/' ==> path_join(dir, path) == dir + path,
        path.len() > 0 && path[0] == '/' ==> resolved(Some(dir), path) == path,
        path.len() == 0 || path[0] != '/' ==> resolved(Some(dir), path) == path_join(dir, path),
        resolved(None, path) == path,
{
    reveal_strlit("/");
    assert("/"@ =~= seq!['/']);
}

} // verus!
