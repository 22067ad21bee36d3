//! Paths, as text.

use vstd::prelude::*;

use crate::outside::{parent_of, parent_path, plainly_in};
use crate::text::{chars_of, starts, starts_with};

verus! {

/// `name` below `base`. An absolute name stands for itself.
pub open spec fn joined(base: Seq<char>, name: Seq<char>) -> Seq<char> {
    if starts(name, "/"@) {
        name
    } else if base.len() == 0 || base.last() == '/' {
        base + name
    } else {
        base + "/"@ + name
    }
}

/// `name` in the directory that holds `path`.
pub open spec fn beside(path: Seq<char>, name: Seq<char>) -> Option<Seq<char>> {
    match parent_of(path) {
        Some(parent) => Some(joined(parent, name)),
        None => None,
    }
}

/// `name` below `base`. An absolute name stands for itself.
pub fn join_path(base: &str, name: &str) -> (out: String)
    ensures
        out@ == joined(base@, name@),
{
    if starts_with(&chars_of(name), &chars_of("/")) {
        return name.to_string();
    }
    let b = chars_of(base);
    if b.len() == 0 || b[b.len() - 1] == '/' {
        base.to_string().concat(name)
    } else {
        base.to_string().concat("/").concat(name)
    }
}

/// `name` in the given directory, where there is one.
pub fn below(parent: Option<String>, name: &str) -> (r: Option<String>)
    ensures
        match (parent, r) {
            (Some(p), Some(out)) => out@ == joined(p@, name@),
            (None, None) => true,
            _ => false,
        },
{
    match parent {
        Some(p) => Some(join_path(p.as_str(), name)),
        None => None,
    }
}

/// `name` in the directory that holds `path`.
pub fn sibling(path: &str, name: &str) -> (r: Option<String>)
    ensures
        match r {
            Some(out) => beside(path@, name@) == Some(out@),
            None => beside(path@, name@) is None,
        },
        forall|directory: Seq<char>| #[trigger]
            plainly_in(path@, directory) ==> (r matches Some(out) && out@ == joined(
                directory,
                name@,
            )),
{
    below(parent_path(path), name)
}

/// Law: a relative name is joined to a directory by one slash, to nothing by
/// none, and an absolute name stands for itself.
pub proof fn names_are_joined_by_one_slash(base: Seq<char>, name: Seq<char>)
    ensures
        name.len() > 0 && name[0] == '/' ==> joined(base, name) == name,
        name.len() == 0 || name[0] != '/' ==> {
            &&& base.len() == 0 ==> joined(base, name) == name
            &&& base.len() > 0 && base.last() == '/' ==> joined(base, name) == base + name
            &&& base.len() > 0 && base.last() != '/' ==> joined(base, name) == base + seq!['/']
                + name
        },
{
    reveal_strlit("/");
    assert("/"@ =~= seq!['/']);
    if name.len() > 0 {
        assert(name.take(1)[0] == name[0]);
        if name[0] == '/' {
            assert(name.take(1) =~= "/"@);
        }
    }
    if base.len() == 0 {
        assert(base + name =~= name);
    }
}

/// Law: what stands beside a path stands in the directory of the path.
pub proof fn what_is_beside_is_in_the_directory(path: Seq<char>, name: Seq<char>)
    ensures
        parent_of(path) is None <==> beside(path, name) is None,
        parent_of(path) matches Some(directory) ==> beside(path, name) == Some(
            joined(directory, name),
        ),
{
}

} // verus!
