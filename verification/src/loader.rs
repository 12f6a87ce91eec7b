//! The walk over the content directory, as a machine that is driven from
//! outside: the caller lists directories and reads files, the machine says
//! which directory comes next, which files are to be parsed, and keeps the
//! indices.

use crate::content::{sort_pages, sorted_pages, Index, Page};
use crate::error::Error;
use crate::paths::{
    has_markdown_extension, index_file_name, is_index_name, is_markdown_name, join_path, joined,
    lemma_parent_of_joined, parent, Entry, EntryKind,
};
use crate::text::texts;
use vstd::prelude::*;

verus! {

/// The subdirectories among the first `n` of `entries`, as paths below `dir`.
pub open spec fn subdirectories(dir: Seq<char>, entries: Seq<Entry>, n: int) -> Seq<Seq<char>>
    decreases n,
{
    if n <= 0 {
        Seq::empty()
    } else if entries[n - 1].kind == EntryKind::Directory {
        subdirectories(dir, entries, n - 1).push(joined(dir, entries[n - 1].name@))
    } else {
        subdirectories(dir, entries, n - 1)
    }
}

/// Whether the entry is the index file of its directory.
pub open spec fn is_index_file(entry: Entry) -> bool {
    entry.kind == EntryKind::File && entry.name@ == index_file_name()
}

/// Whether the entry is a page: a Markdown file that is not the index file.
pub open spec fn is_page_file(entry: Entry) -> bool {
    entry.kind == EntryKind::File && entry.name@ != index_file_name() && has_markdown_extension(
        entry.name@,
    )
}

/// The page files among the first `n` of `entries`, as paths below `dir`.
pub open spec fn page_files(dir: Seq<char>, entries: Seq<Entry>, n: int) -> Seq<Seq<char>>
    decreases n,
{
    if n <= 0 {
        Seq::empty()
    } else if is_page_file(entries[n - 1]) {
        page_files(dir, entries, n - 1).push(joined(dir, entries[n - 1].name@))
    } else {
        page_files(dir, entries, n - 1)
    }
}

/// The index file among the first `n` of `entries`, as a path below `dir`.
pub open spec fn index_file(dir: Seq<char>, entries: Seq<Entry>, n: int) -> Option<Seq<char>>
    decreases n,
{
    if n <= 0 {
        None
    } else if is_index_file(entries[n - 1]) {
        Some(joined(dir, index_file_name()))
    } else {
        index_file(dir, entries, n - 1)
    }
}

/// The content files of one directory, as paths relative to the content
/// directory.
#[derive(Debug)]
pub struct DirectoryPlan {
    /// The index file, if the directory has one.
    pub index: Option<String>,
    /// The page files, in the order of the listing.
    pub pages: Vec<String>,
}

/// The state of a walk over the content directory.
#[derive(Debug)]
pub struct Loader {
    /// The directories that are still to be listed; the last one comes next.
    pub stack: Vec<String>,
    /// The indices found so far.
    pub indices: Vec<Index>,
}

impl Loader {
    /// A walk that has the content directory itself before it.
    pub fn new() -> (loader: Loader)
        ensures
            texts(loader.stack@) == seq![Seq::<char>::empty()],
            loader.indices@ == Seq::<Index>::empty(),
    {
        let mut stack: Vec<String> = Vec::new();
        stack.push(String::new());
        assert(texts(stack@) =~= seq![Seq::<char>::empty()]);
        Loader { stack, indices: Vec::new() }
    }

    /// The directory to list next, relative to the content directory; `None`
    /// when the walk is over.
    pub fn next_directory(&mut self) -> (dir: Option<String>)
        ensures
            final(self).indices == old(self).indices,
            match dir {
                Some(d) => old(self).stack@.len() > 0 && d == old(self).stack@.last()
                    && final(self).stack@ == old(self).stack@.drop_last(),
                None => old(self).stack@.len() == 0 && final(self).stack@ == old(self).stack@,
            },
    {
        self.stack.pop()
    }

    /// Takes the listing of `dir`: its subdirectories are put on the stack,
    /// and its content files are named. A listing that failed ends the walk
    /// with `Error::ReadDirectory`.
    pub fn scan(&mut self, dir: &str, listing: Result<Vec<Entry>, String>) -> (r: Result<
        DirectoryPlan,
        Error,
    >)
        ensures
            final(self).indices == old(self).indices,
            match listing {
                Ok(entries) => {
                    &&& r matches Ok(plan)
                    &&& texts(final(self).stack@) == texts(old(self).stack@) + subdirectories(
                        dir@,
                        entries@,
                        entries@.len() as int,
                    )
                    &&& texts(plan.pages@) == page_files(dir@, entries@, entries@.len() as int)
                    &&& match index_file(dir@, entries@, entries@.len() as int) {
                        Some(path) => plan.index matches Some(p) && p@ == path,
                        None => plan.index is None,
                    }
                },
                Err(reason) => {
                    &&& r matches Err(Error::ReadDirectory(d, why))
                    &&& d@ == dir@
                    &&& why@ == reason@
                    &&& final(self).stack == old(self).stack
                },
            },
    {
        let entries = match listing {
            Ok(entries) => entries,
            Err(reason) => {
                return Err(Error::ReadDirectory(dir.to_owned(), reason));
            },
        };
        let mut index: Option<String> = None;
        let mut pages: Vec<String> = Vec::new();
        let mut i: usize = 0;
        assert(texts(pages@) =~= Seq::<Seq<char>>::empty());
        assert(texts(self.stack@) =~= texts(old(self).stack@) + Seq::<Seq<char>>::empty());
        while i < entries.len()
            invariant
                i <= entries.len(),
                self.indices == old(self).indices,
                texts(self.stack@) == texts(old(self).stack@) + subdirectories(
                    dir@,
                    entries@,
                    i as int,
                ),
                texts(pages@) == page_files(dir@, entries@, i as int),
                match index_file(dir@, entries@, i as int) {
                    Some(path) => index matches Some(p) && p@ == path,
                    None => index is None,
                },
            decreases entries.len() - i,
        {
            let entry = &entries[i];
            match entry.kind {
                EntryKind::Directory => {
                    let ghost before = texts(self.stack@);
                    let path = join_path(dir, entry.name.as_str());
                    self.stack.push(path);
                    assert(texts(self.stack@) =~= before.push(joined(dir@, entry.name@)));
                },
                EntryKind::File => {
                    if is_index_name(entry.name.as_str()) {
                        index = Some(join_path(dir, "_index.md"));
                    } else if is_markdown_name(entry.name.as_str()) {
                        let ghost before = texts(pages@);
                        let path = join_path(dir, entry.name.as_str());
                        pages.push(path);
                        assert(texts(pages@) =~= before.push(joined(dir@, entry.name@)));
                    }
                },
                EntryKind::Other => {},
            }
            i += 1;
        }
        Ok(DirectoryPlan { index, pages })
    }

    /// Closes a directory whose files have been parsed. With an index, the
    /// pages are sorted as the index asks and become its pages, and the index
    /// joins those found; without one, the pages are dropped.
    pub fn finish_directory(&mut self, index: Option<Index>, pages: Vec<Page>)
        ensures
            final(self).stack == old(self).stack,
            match index {
                Some(found) => {
                    &&& final(self).indices@.len() == old(self).indices@.len() + 1
                    &&& final(self).indices@.drop_last() == old(self).indices@
                    &&& final(self).indices@.last().metadata == found.metadata
                    &&& final(self).indices@.last().html == found.html
                    &&& final(self).indices@.last().pages@ == sorted_pages(
                        pages@,
                        found.metadata.sort_by,
                    )
                },
                None => final(self).indices@ == old(self).indices@,
            },
    {
        if let Some(found) = index {
            let Index { metadata, html, pages: _ } = found;
            let sorted = sort_pages(pages, metadata.sort_by);
            self.indices.push(Index { metadata, html, pages: sorted });
            assert(self.indices@.drop_last() =~= old(self).indices@);
        }
    }

    /// The indices that the walk found.
    pub fn into_indices(self) -> (indices: Vec<Index>)
        ensures
            indices == self.indices,
    {
        self.indices
    }
}

/// The index file that `scan` names in a directory has that directory as its
/// parent, so the index made of it is stamped with the directory.
pub proof fn lemma_index_file_directory(dir: Seq<char>)
    requires
        dir.len() == 0 || dir.last() != '/',
    ensures
        parent(joined(dir, index_file_name())) == dir,
{
    reveal_strlit("_index.md");
    lemma_parent_of_joined(dir, index_file_name());
}

} // verus!
