//! Paths as text: components separated by `/`.
//!
//! The library names every file by a path relative to one of the site's
//! directories. Joining and splitting follow the rules of Unix paths.

use crate::text::{substring, to_chars};
use vstd::prelude::*;
use vstd::string::StringExecFns;

verus! {

/// The separator, as text.
pub open spec fn separator() -> Seq<char> {
    seq!['/']
}

/// `rel` adjoined to `base`: an absolute `rel` replaces `base`; otherwise a
/// separator is put between them unless `base` is empty or ends with one.
pub open spec fn joined(base: Seq<char>, rel: Seq<char>) -> Seq<char> {
    if rel.len() > 0 && rel[0] == '/' {
        rel
    } else if base.len() == 0 || base.last() == '/' {
        base + rel
    } else {
        base + separator() + rel
    }
}

/// The index of the last separator in `path`.
pub open spec fn last_separator(path: Seq<char>) -> Option<int>
    decreases path.len(),
{
    if path.len() == 0 {
        None
    } else if path.last() == '/' {
        Some(path.len() - 1)
    } else {
        last_separator(path.drop_last())
    }
}

/// `path` without its last component. A path of one component has the empty
/// parent; a component directly under the root has the root. Meant for paths
/// without empty components.
pub open spec fn parent(path: Seq<char>) -> Seq<char> {
    match last_separator(path) {
        None => Seq::empty(),
        Some(k) => if k == 0 {
            path.subrange(0, 1)
        } else {
            path.subrange(0, k)
        },
    }
}

/// Text without a separator, put behind a path, does not move the path's
/// last separator.
pub proof fn lemma_last_separator_append(base: Seq<char>, name: Seq<char>)
    requires
        forall|k: int| 0 <= k < name.len() ==> name[k] != '/',
    ensures
        last_separator(base + name) == last_separator(base),
    decreases name.len(),
{
    if name.len() > 0 {
        assert((base + name).drop_last() =~= base + name.drop_last());
        lemma_last_separator_append(base, name.drop_last());
    } else {
        assert(base + name =~= base);
    }
}

/// A name adjoined to a directory has that directory as its parent: what
/// the walk over a tree names `joined(dir, name)` lies in `dir`.
pub proof fn lemma_parent_of_joined(dir: Seq<char>, name: Seq<char>)
    requires
        forall|k: int| 0 <= k < name.len() ==> name[k] != '/',
        dir.len() == 0 || dir.last() != '/',
    ensures
        parent(joined(dir, name)) == dir,
{
    if dir.len() == 0 {
        lemma_last_separator_append(dir, name);
        assert(dir =~= Seq::<char>::empty());
    } else {
        let with_separator = dir + separator();
        lemma_last_separator_append(with_separator, name);
        assert(with_separator.last() == '/');
        assert((with_separator + name).subrange(0, dir.len() as int) =~= dir);
    }
}

/// Adjoins `rel` to `base`.
pub fn join_path(base: &str, rel: &str) -> (path: String)
    ensures
        path@ == joined(base@, rel@),
{
    let rel_len = rel.unicode_len();
    if rel_len > 0 && rel.get_char(0) == '/' {
        return rel.to_owned();
    }
    let base_len = base.unicode_len();
    let mut path = base.to_owned();
    if base_len > 0 && base.get_char(base_len - 1) != '/' {
        proof {
            reveal_strlit("/");
            assert("/"@ =~= separator());
        }
        path.append("/");
    }
    path.append(rel);
    path
}

/// The parent of `path`.
pub fn parent_dir(path: &str) -> (dir: String)
    ensures
        dir@ == parent(path@),
{
    let v = to_chars(path);
    let mut k: usize = v.len();
    assert(v@.take(k as int) =~= v@);
    while k > 0 && v[k - 1] != '/'
        invariant
            k <= v.len(),
            last_separator(v@) == last_separator(v@.take(k as int)),
        decreases k,
    {
        assert(v@.take(k as int).drop_last() =~= v@.take(k - 1));
        k -= 1;
    }
    if k == 0 {
        assert(v@.take(0) =~= Seq::<char>::empty());
        String::new()
    } else if k == 1 {
        substring(path, 0, 1)
    } else {
        substring(path, 0, k - 1)
    }
}

/// What a directory entry is, symbolic links followed.
#[derive(Clone, Copy, Debug, PartialEq, Eq, Structural)]
pub enum EntryKind {
    Directory,
    File,
    /// Neither of the two, or not to be found out.
    Other,
}

/// An entry of a directory: its name there and what it is.
#[derive(Debug)]
pub struct Entry {
    pub name: String,
    pub kind: EntryKind,
}

/// The name of the file that makes a directory an index.
pub open spec fn index_file_name() -> Seq<char> {
    "_index.md"@
}

/// Whether a file of this name has the extension `md`: the name ends in `.md`
/// and that is not the whole name.
pub open spec fn has_markdown_extension(name: Seq<char>) -> bool {
    &&& name.len() >= 4
    &&& name[name.len() - 3] == '.'
    &&& name[name.len() - 2] == 'm'
    &&& name[name.len() - 1] == 'd'
}

/// Whether a file of this name has the extension `md`.
pub fn is_markdown_name(name: &str) -> (b: bool)
    ensures
        b == has_markdown_extension(name@),
{
    let v = to_chars(name);
    let n = v.len();
    n >= 4 && v[n - 3] == '.' && v[n - 2] == 'm' && v[n - 1] == 'd'
}

/// Whether this is the name of an index file.
pub fn is_index_name(name: &str) -> (b: bool)
    ensures
        b == (name@ == index_file_name()),
{
    let other = "_index.md".to_owned();
    name.to_owned() == other
}

} // verus!
