//! The mirroring of the assets directory into the output directory, as a
//! machine that is driven from outside: the caller lists directories and
//! carries out what the machine asks for.

use crate::error::Error;
use crate::paths::{join_path, joined, Entry, EntryKind};
use crate::text::texts;
use vstd::prelude::*;

verus! {

/// What the caller has to do. Paths are relative to the assets directory on
/// the one side and to the output directory on the other.
#[derive(Debug, PartialEq, Eq)]
pub enum MirrorAction {
    /// Create this directory below the output directory, with its parents;
    /// that it exists already is no failure.
    CreateDirectory(String),
    /// Copy this file from the assets directory to the output directory.
    CopyFile(String),
}

/// A `MirrorAction` as plain values.
pub enum MirrorActionView {
    CreateDirectory(Seq<char>),
    CopyFile(Seq<char>),
}

impl View for MirrorAction {
    type V = MirrorActionView;

    open spec fn view(&self) -> MirrorActionView {
        match self {
            MirrorAction::CreateDirectory(path) => MirrorActionView::CreateDirectory(path@),
            MirrorAction::CopyFile(path) => MirrorActionView::CopyFile(path@),
        }
    }
}

/// What the first `n` of `entries` of the directory `dir` ask for, in their
/// order: a directory is created, a file is copied, anything else is passed
/// over.
pub open spec fn entry_actions(dir: Seq<char>, entries: Seq<Entry>, n: int) -> Seq<
    MirrorActionView,
>
    decreases n,
{
    if n <= 0 {
        Seq::empty()
    } else {
        let path = joined(dir, entries[n - 1].name@);
        match entries[n - 1].kind {
            EntryKind::Directory => entry_actions(dir, entries, n - 1).push(
                MirrorActionView::CreateDirectory(path),
            ),
            EntryKind::File => entry_actions(dir, entries, n - 1).push(
                MirrorActionView::CopyFile(path),
            ),
            EntryKind::Other => entry_actions(dir, entries, n - 1),
        }
    }
}

/// The directories among the first `n` of `entries`, as paths below `dir`.
pub open spec fn entry_directories(dir: Seq<char>, entries: Seq<Entry>, n: int) -> Seq<Seq<char>>
    decreases n,
{
    if n <= 0 {
        Seq::empty()
    } else if entries[n - 1].kind == EntryKind::Directory {
        entry_directories(dir, entries, n - 1).push(joined(dir, entries[n - 1].name@))
    } else {
        entry_directories(dir, entries, n - 1)
    }
}

/// The views of the actions.
pub open spec fn action_views(actions: Seq<MirrorAction>) -> Seq<MirrorActionView> {
    Seq::new(actions.len(), |i: int| actions[i]@)
}

/// The state of a mirroring.
#[derive(Debug)]
pub struct Mirror {
    /// The directories that are still to be listed; the last one comes next.
    pub stack: Vec<String>,
}

impl Mirror {
    /// A mirroring that has the assets directory itself before it, and what
    /// is to be done first: the output directory is created.
    pub fn start() -> (r: (Mirror, MirrorAction))
        ensures
            texts(r.0.stack@) == seq![Seq::<char>::empty()],
            r.1@ == MirrorActionView::CreateDirectory(Seq::empty()),
    {
        let mut stack: Vec<String> = Vec::new();
        stack.push(String::new());
        assert(texts(stack@) =~= seq![Seq::<char>::empty()]);
        (Mirror { stack }, MirrorAction::CreateDirectory(String::new()))
    }

    /// The directory to list next, relative to the assets directory; `None`
    /// when all is mirrored.
    pub fn next_directory(&mut self) -> (dir: Option<String>)
        ensures
            match dir {
                Some(d) => old(self).stack@.len() > 0 && d == old(self).stack@.last()
                    && final(self).stack@ == old(self).stack@.drop_last(),
                None => old(self).stack@.len() == 0 && final(self).stack@ == old(self).stack@,
            },
    {
        self.stack.pop()
    }

    /// Takes the listing of `dir`: says what to do for its entries, in their
    /// order, and puts its subdirectories on the stack. A listing that failed
    /// ends the mirroring with `Error::ReadDirectory`.
    pub fn scan(&mut self, dir: &str, listing: Result<Vec<Entry>, String>) -> (r: Result<
        Vec<MirrorAction>,
        Error,
    >)
        ensures
            match listing {
                Ok(entries) => {
                    &&& r matches Ok(actions)
                    &&& action_views(actions@) == entry_actions(
                        dir@,
                        entries@,
                        entries@.len() as int,
                    )
                    &&& texts(final(self).stack@) == texts(old(self).stack@) + entry_directories(
                        dir@,
                        entries@,
                        entries@.len() as int,
                    )
                },
                Err(reason) => {
                    &&& r matches Err(Error::ReadDirectory(d, why))
                    &&& d@ == dir@
                    &&& why@ == reason@
                    &&& final(self).stack == old(self).stack
                },
            },
    {
        let entries = match listing {
            Ok(entries) => entries,
            Err(reason) => {
                return Err(Error::ReadDirectory(dir.to_owned(), reason));
            },
        };
        let mut actions: Vec<MirrorAction> = Vec::new();
        let mut i: usize = 0;
        assert(action_views(actions@) =~= Seq::<MirrorActionView>::empty());
        assert(texts(self.stack@) =~= texts(old(self).stack@) + Seq::<Seq<char>>::empty());
        while i < entries.len()
            invariant
                i <= entries.len(),
                action_views(actions@) == entry_actions(dir@, entries@, i as int),
                texts(self.stack@) == texts(old(self).stack@) + entry_directories(
                    dir@,
                    entries@,
                    i as int,
                ),
            decreases entries.len() - i,
        {
            let entry = &entries[i];
            let ghost done = action_views(actions@);
            match entry.kind {
                EntryKind::Directory => {
                    let ghost before = texts(self.stack@);
                    let path = join_path(dir, entry.name.as_str());
                    actions.push(MirrorAction::CreateDirectory(path.clone()));
                    self.stack.push(path);
                    assert(texts(self.stack@) =~= before.push(joined(dir@, entry.name@)));
                    assert(action_views(actions@) =~= done.push(
                        MirrorActionView::CreateDirectory(joined(dir@, entry.name@)),
                    ));
                },
                EntryKind::File => {
                    let path = join_path(dir, entry.name.as_str());
                    actions.push(MirrorAction::CopyFile(path));
                    assert(action_views(actions@) =~= done.push(
                        MirrorActionView::CopyFile(joined(dir@, entry.name@)),
                    ));
                },
                EntryKind::Other => {},
            }
            i += 1;
        }
        Ok(actions)
    }
}

} // verus!
