//! Depth-first traversal of a path, as a state machine: the caller lists the
//! directory that `next_dir` hands out and feeds the listing back to `visit`.
use vstd::prelude::*;
use crate::EngineError;
use crate::text::strings_view;

verus! {

/// What a path is on disk, with symbolic links followed.
#[derive(Debug, Clone, Copy, PartialEq, Eq, Structural)]
pub enum PathKind {
    File,
    Directory,
    Missing,
}

/// One entry of a directory listing.
pub struct DirEntry {
    pub path: String,
    pub is_dir: bool,
}

pub type DirEntryView = (Seq<char>, bool);

pub open spec fn entries_view(es: Seq<DirEntry>) -> Seq<DirEntryView> {
    Seq::new(es.len(), |i: int| (es[i].path@, es[i].is_dir))
}

/// The paths of the non-directory entries, in listing order.
pub open spec fn file_paths(es: Seq<DirEntryView>) -> Seq<Seq<char>>
    decreases es.len(),
{
    if es.len() == 0 {
        Seq::empty()
    } else if es.last().1 {
        file_paths(es.drop_last())
    } else {
        file_paths(es.drop_last()).push(es.last().0)
    }
}

/// The paths of the directory entries, last listed first (so that a stack
/// visits them in listing order).
pub open spec fn dir_paths_reversed(es: Seq<DirEntryView>) -> Seq<Seq<char>>
    decreases es.len(),
{
    if es.len() == 0 {
        Seq::empty()
    } else if es[0].1 {
        dir_paths_reversed(es.drop_first()).push(es[0].0)
    } else {
        dir_paths_reversed(es.drop_first())
    }
}

/// A traversal in progress: directories still to list (a stack) and the
/// files found so far.
pub struct Walk {
    pending: Vec<String>,
    files: Vec<String>,
}

impl Walk {
    pub closed spec fn pending_view(&self) -> Seq<Seq<char>> {
        strings_view(self.pending@)
    }

    pub closed spec fn files_view(&self) -> Seq<Seq<char>> {
        strings_view(self.files@)
    }

    /// Starts at `root`: a file is the one file found; a directory is the one
    /// directory to list; a missing root fails.
    pub fn start(root: String, kind: PathKind) -> (r: Result<Walk, EngineError>)
        ensures
            kind == PathKind::Missing <==> r == Err::<Walk, EngineError>(EngineError::PathNotFound),
            kind == PathKind::File ==> (r matches Ok(w) && w.pending_view() == Seq::<Seq<char>>::empty()
                && w.files_view() == seq![root@]),
            kind == PathKind::Directory ==> (r matches Ok(w) && w.pending_view() == seq![root@]
                && w.files_view() == Seq::<Seq<char>>::empty()),
    {
        match kind {
            PathKind::Missing => Err(EngineError::PathNotFound),
            PathKind::File => {
                let w = Walk { pending: Vec::new(), files: vec![root] };
                assert(w.pending_view() =~= Seq::<Seq<char>>::empty());
                assert(w.files_view() =~= seq![root@]);
                Ok(w)
            },
            PathKind::Directory => {
                let w = Walk { pending: vec![root], files: Vec::new() };
                assert(w.pending_view() =~= seq![root@]);
                assert(w.files_view() =~= Seq::<Seq<char>>::empty());
                Ok(w)
            },
        }
    }

    /// Whether every directory has been listed.
    pub fn is_done(&self) -> (r: bool)
        ensures
            r == (self.pending_view().len() == 0),
    {
        self.pending.len() == 0
    }

    /// Takes the next directory to list, most recently found first.
    pub fn next_dir(&mut self) -> (r: Option<String>)
        ensures
            old(self).pending_view().len() == 0 ==> r is None && *final(self) == *old(self),
            old(self).pending_view().len() > 0 ==> (r matches Some(d) && d@ == old(self).pending_view().last()
                && final(self).pending_view() == old(self).pending_view().drop_last()
                && final(self).files_view() == old(self).files_view()),
    {
        if self.pending.len() == 0 {
            return None;
        }
        let ghost before = self.pending_view();
        let r = self.pending.pop();
        assert(self.pending_view() =~= before.drop_last());
        r
    }

    /// Takes in the listing of a directory: its non-directories are found
    /// files, its directories are still to list.
    pub fn visit(&mut self, entries: &Vec<DirEntry>)
        ensures
            final(self).files_view() == old(self).files_view() + file_paths(entries_view(entries@)),
            final(self).pending_view() == old(self).pending_view() + dir_paths_reversed(entries_view(entries@)),
    {
        let ghost ev = entries_view(entries@);
        let ghost files0 = self.files_view();
        let ghost pending0 = self.pending_view();
        let mut i: usize = 0;
        while i < entries.len()
            invariant
                i <= entries@.len(),
                ev == entries_view(entries@),
                pending0 == self.pending_view(),
                self.files_view() == files0 + file_paths(ev.take(i as int)),
            decreases entries.len() - i,
        {
            assert(ev.take(i + 1).drop_last() =~= ev.take(i as int));
            if !entries[i].is_dir {
                let ghost before = self.files_view();
                self.files.push(entries[i].path.clone());
                assert(self.files_view() =~= before.push(entries@[i as int].path@));
                assert(files0 + file_paths(ev.take(i + 1)) =~= files0 + file_paths(ev.take(i as int)).push(ev[i as int].0));
            }
            i = i + 1;
        }
        assert(ev.take(entries@.len() as int) =~= ev);
        let mut j: usize = entries.len();
        assert(ev.subrange(j as int, ev.len() as int) =~= Seq::<DirEntryView>::empty());
        assert(pending0 + Seq::<Seq<char>>::empty() =~= pending0);
        while j > 0
            invariant
                j <= entries@.len(),
                ev == entries_view(entries@),
                self.files_view() == files0 + file_paths(ev),
                self.pending_view() == pending0 + dir_paths_reversed(ev.subrange(j as int, ev.len() as int)),
            decreases j,
        {
            j = j - 1;
            let ghost sub = ev.subrange(j as int, ev.len() as int);
            assert(sub.drop_first() =~= ev.subrange(j + 1, ev.len() as int));
            assert(sub[0] == ev[j as int]);
            if entries[j].is_dir {
                let ghost before = self.pending_view();
                self.pending.push(entries[j].path.clone());
                assert(self.pending_view() =~= before.push(entries@[j as int].path@));
                assert(pending0 + dir_paths_reversed(sub) =~= (pending0 + dir_paths_reversed(sub.drop_first())).push(ev[j as int].0));
            }
        }
        assert(ev.subrange(0, ev.len() as int) =~= ev);
    }

    /// The files found so far, in the order found.
    pub fn files(&self) -> (r: &Vec<String>)
        ensures
            strings_view(r@) == self.files_view(),
    {
        &self.files
    }
}

} // verus!
