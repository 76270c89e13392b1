//! The listing of one directory: its entries in order, a cursor, and
//! whether it can still be trusted.

use vstd::prelude::*;
use crate::fs::entry::{views_of, EntryView, JoshutoDirEntry};
use crate::fs::metadata::{FsError, JoshutoMetadata};
use crate::history::{get_index_of_value, holds_path, index_of_path, index_view};
use crate::sort::{
    distinct_paths, is_ordering_of, lemma_first_index_exists, lemma_ordered_is_ordering, ordered,
    sort_entries, SortOption,
};

verus! {

/// What one read of a directory found: its own metadata and its children,
/// in the order in which the file system gave them.
pub struct DirSnapshot {
    pub metadata: JoshutoMetadata,
    pub entries: Vec<JoshutoDirEntry>,
}

/// A [`DirSnapshot`] as mathematical values.
pub struct SnapshotView {
    pub metadata: JoshutoMetadata,
    pub entries: Seq<EntryView>,
}

impl View for DirSnapshot {
    type V = SnapshotView;

    open spec fn view(&self) -> SnapshotView {
        SnapshotView { metadata: self.metadata, entries: views_of(self.entries@) }
    }
}

/// What an attempt to read a directory gave, as mathematical values.
pub open spec fn read_view(read: Result<DirSnapshot, FsError>) -> Result<SnapshotView, FsError> {
    match read {
        Ok(snapshot) => Ok(snapshot@),
        Err(e) => Err(e),
    }
}

/// The entries of one directory in the order of a sort policy, with a
/// cursor. The cursor is absent only while the listing is empty, and no
/// two entries have the same path.
pub struct JoshutoDirList {
    index: Option<usize>,
    path: String,
    content_outdated: bool,
    metadata: JoshutoMetadata,
    contents: Vec<JoshutoDirEntry>,
}

/// A listing as mathematical values.
pub struct DirListView {
    /// The directory that is listed.
    pub path: Seq<char>,
    pub contents: Seq<EntryView>,
    /// The cursor.
    pub index: Option<int>,
    /// Whether the listing is marked stale.
    pub outdated: bool,
    /// The directory's own metadata as of the last read.
    pub metadata: JoshutoMetadata,
}

/// Where the cursor stands in new contents: on the entry whose path it was
/// on before, if that is still there; else on the first entry; nowhere
/// where there is no entry.
pub open spec fn cursor_after(prev: Option<Seq<char>>, contents: Seq<EntryView>) -> Option<int> {
    if contents.len() == 0 {
        None
    } else {
        match prev {
            Some(path) => match index_of_path(contents, path) {
                Some(i) => Some(i),
                None => Some(0),
            },
            None => Some(0),
        }
    }
}

impl DirListView {
    /// The invariant of a listing.
    pub open spec fn wf(self) -> bool {
        &&& distinct_paths(self.contents)
        &&& match self.index {
            Some(i) => 0 <= i < self.contents.len(),
            None => self.contents.len() == 0,
        }
    }

    /// The path under the cursor.
    pub open spec fn cursor_path(self) -> Option<Seq<char>> {
        match self.index {
            Some(i) => Some(self.contents[i].path),
            None => None,
        }
    }

    /// The fresh listing of `path` made from one read.
    pub open spec fn listed(path: Seq<char>, snapshot: SnapshotView, opt: SortOption) -> DirListView {
        let contents = ordered(snapshot.entries, opt);
        DirListView {
            path,
            contents,
            index: cursor_after(None, contents),
            outdated: false,
            metadata: snapshot.metadata,
        }
    }

    /// This listing after a reload from one read: every entry replaced, the
    /// cursor following the path it was on, and fresh.
    pub open spec fn reloaded(self, snapshot: SnapshotView, opt: SortOption) -> DirListView {
        let contents = ordered(snapshot.entries, opt);
        DirListView {
            path: self.path,
            contents,
            index: cursor_after(self.cursor_path(), contents),
            outdated: false,
            metadata: snapshot.metadata,
        }
    }

    /// This listing marked stale.
    pub open spec fn depreciated(self) -> DirListView {
        DirListView { outdated: true, ..self }
    }

    /// Whether the listing wants a reload: it is marked stale, or the
    /// directory's modification time, where one is known, is no longer the
    /// one of the last read.
    pub open spec fn need_update(self, current_modified: Option<u64>) -> bool {
        self.outdated || match current_modified {
            Some(t) => t != self.metadata.modified,
            None => false,
        }
    }

    /// This listing with the cursor on the entry of `path`, where it has
    /// one; unchanged where it has none.
    pub open spec fn pointed_at(self, path: Seq<char>) -> DirListView {
        match index_of_path(self.contents, path) {
            Some(i) => DirListView { index: Some(i), ..self },
            None => self,
        }
    }

    /// This listing with the selection flag of the entry at `i` set.
    pub open spec fn selected_at(self, i: int, selected: bool) -> DirListView {
        if 0 <= i < self.contents.len() {
            DirListView {
                contents: self.contents.update(i, EntryView { selected, ..self.contents[i] }),
                ..self
            }
        } else {
            self
        }
    }
}

/// The cursor that [`cursor_after`] gives is absent only for empty
/// contents, and else a valid index; where the contents hold the path it
/// was on, it is on that path.
pub proof fn lemma_cursor_after(prev: Option<Seq<char>>, contents: Seq<EntryView>)
    ensures
        match cursor_after(prev, contents) {
            Some(i) => 0 <= i < contents.len(),
            None => contents.len() == 0,
        },
        prev matches Some(path) ==> (holds_path(contents, path) ==> (cursor_after(
            prev,
            contents,
        ) matches Some(i) && contents[i].path == path)),
{
    if let Some(path) = prev {
        if holds_path(contents, path) {
            let j = choose|j: int| 0 <= j < contents.len() && (#[trigger] contents[j]).path == path;
            lemma_first_index_exists(contents, path, j);
        }
    }
}

/// Every change that a listing goes through keeps its invariant: a new
/// listing and a reloaded one have it, and marking stale, moving the
/// cursor and selecting keep it.
pub proof fn lemma_listing_stays_wf(
    list: DirListView,
    path: Seq<char>,
    snapshot: SnapshotView,
    opt: SortOption,
    i: int,
    selected: bool,
)
    ensures
        DirListView::listed(path, snapshot, opt).wf(),
        list.reloaded(snapshot, opt).wf(),
        list.wf() ==> list.depreciated().wf(),
        list.wf() ==> list.pointed_at(path).wf(),
        list.wf() ==> list.selected_at(i, selected).wf(),
{
    lemma_ordered_is_ordering(snapshot.entries, opt);
    lemma_cursor_after(list.cursor_path(), ordered(snapshot.entries, opt));
    if holds_path(list.contents, path) {
        let j = choose|j: int| 0 <= j < list.contents.len() && (#[trigger] list.contents[j]).path == path;
        lemma_first_index_exists(list.contents, path, j);
    }
    if list.wf() && 0 <= i < list.contents.len() {
        let after = list.selected_at(i, selected).contents;
        assert(forall|x: int, y: int| 0 <= x < y < after.len() ==> (#[trigger] after[x]).path != (#[trigger] after[y]).path);
    }
}

/// The modification time that a read reports, if it succeeded.
pub open spec fn modified_in(read: Result<SnapshotView, FsError>) -> Option<u64> {
    match read {
        Ok(snapshot) => Some(snapshot.metadata.modified),
        Err(_) => None,
    }
}

/// The modification time that a read reports, if it succeeded.
pub fn modified_of(read: &Result<DirSnapshot, FsError>) -> (r: Option<u64>)
    ensures
        r == modified_in(read_view(*read)),
{
    match read {
        Ok(snapshot) => Some(snapshot.metadata.modified),
        Err(_) => None,
    }
}

/// What [`cursor_after`] says, computed.
fn place_cursor(prev: Option<&str>, contents: &Vec<JoshutoDirEntry>) -> (r: Option<usize>)
    ensures
        index_view(r) == cursor_after(
            match prev {
                Some(p) => Some(p@),
                None => None,
            },
            views_of(contents@),
        ),
        match r {
            Some(i) => i < contents@.len(),
            None => contents@.len() == 0,
        },
{
    if contents.len() == 0 {
        return None;
    }
    match prev {
        Some(path) => match get_index_of_value(contents, path) {
            Some(i) => Some(i),
            None => Some(0),
        },
        None => Some(0),
    }
}

impl View for JoshutoDirList {
    type V = DirListView;

    closed spec fn view(&self) -> DirListView {
        DirListView {
            path: self.path@,
            contents: views_of(self.contents@),
            index: index_view(self.index),
            outdated: self.content_outdated,
            metadata: self.metadata,
        }
    }
}

impl JoshutoDirList {
    #[verifier::type_invariant]
    spec fn inv(&self) -> bool {
        self@.wf()
    }

    /// Lists `path` from one read of it. A failed read is handed back.
    pub fn new(path: String, read: &Result<DirSnapshot, FsError>, sort_option: &SortOption) -> (r:
        Result<Self, FsError>)
        ensures
            match *read {
                Ok(snapshot) => r matches Ok(list) && list@ == DirListView::listed(
                    path@,
                    snapshot@,
                    *sort_option,
                ) && list@.wf() && is_ordering_of(list@.contents, snapshot@.entries, *sort_option),
                Err(e) => r == Err::<Self, FsError>(e),
            },
    {
        match read {
            Ok(snapshot) => {
                let contents = sort_entries(&snapshot.entries, sort_option);
                let index = place_cursor(None, &contents);
                Ok(
                    Self {
                        index,
                        path,
                        content_outdated: false,
                        metadata: snapshot.metadata,
                        contents,
                    },
                )
            },
            Err(e) => Err(*e),
        }
    }

    /// Replaces the contents by those of a new read, moves the cursor to
    /// the entry whose path it was on, and marks the listing fresh. After a
    /// failed read the listing is as it was, and the failure is handed back.
    pub fn reload_contents(&mut self, read: &Result<DirSnapshot, FsError>, sort_option: &SortOption) -> (r:
        Result<(), FsError>)
        ensures
            match *read {
                Ok(snapshot) => r is Ok && final(self)@ == old(self)@.reloaded(
                    snapshot@,
                    *sort_option,
                ) && is_ordering_of(final(self)@.contents, snapshot@.entries, *sort_option),
                Err(e) => r == Err::<(), FsError>(e) && final(self)@ == old(self)@,
            },
            final(self)@.wf(),
    {
        proof {
            use_type_invariant(&*self);
        }
        match read {
            Ok(snapshot) => {
                let contents = sort_entries(&snapshot.entries, sort_option);
                let index = match self.index {
                    Some(i) => {
                        place_cursor(Some(self.contents[i].file_path()), &contents)
                    },
                    None => place_cursor(None, &contents),
                };
                *self = Self {
                    index,
                    path: self.path.clone(),
                    content_outdated: false,
                    metadata: snapshot.metadata,
                    contents,
                };
                Ok(())
            },
            Err(e) => Err(*e),
        }
    }

    /// Whether the listing wants a reload, given the directory's current
    /// modification time where the caller could learn it.
    pub fn need_update(&self, current_modified: Option<u64>) -> (r: bool)
        ensures
            r == self@.need_update(current_modified),
    {
        self.content_outdated || match current_modified {
            Some(t) => t != self.metadata.modified,
            None => false,
        }
    }

    /// Marks the listing stale. Its contents stay.
    pub fn depreciate(&mut self)
        ensures
            final(self)@ == old(self)@.depreciated(),
            final(self)@.wf(),
    {
        proof {
            use_type_invariant(&*self);
        }
        self.content_outdated = true;
    }

    /// Moves the cursor to the entry of `path`, if the listing has one, and
    /// says whether it has.
    pub fn point_at(&mut self, path: &str) -> (found: bool)
        ensures
            final(self)@ == old(self)@.pointed_at(path@),
            found == (index_of_path(old(self)@.contents, path@) is Some),
            final(self)@.wf(),
    {
        proof {
            use_type_invariant(&*self);
        }
        match get_index_of_value(&self.contents, path) {
            Some(i) => {
                self.index = Some(i);
                true
            },
            None => false,
        }
    }

    /// Moves the cursor to `index`, if the listing has such an entry, and
    /// says whether it has.
    pub fn set_index(&mut self, index: usize) -> (moved: bool)
        ensures
            final(self)@ == if index < old(self)@.contents.len() {
                DirListView { index: Some(index as int), ..old(self)@ }
            } else {
                old(self)@
            },
            moved == (index < old(self)@.contents.len()),
            final(self)@.wf(),
    {
        proof {
            use_type_invariant(&*self);
        }
        if index < self.contents.len() {
            self.index = Some(index);
            true
        } else {
            false
        }
    }

    /// Sets the selection flag of the entry at `index`, and says whether
    /// there is such an entry.
    pub fn select(&mut self, index: usize, selected: bool) -> (found: bool)
        ensures
            final(self)@ == old(self)@.selected_at(index as int, selected),
            found == (index < old(self)@.contents.len()),
            final(self)@.wf(),
    {
        proof {
            use_type_invariant(&*self);
        }
        if index < self.contents.len() {
            let mut entry = self.contents[index].duplicate();
            entry.set_selected(selected);
            let mut this = Self {
                index: None,
                path: String::new(),
                content_outdated: false,
                metadata: self.metadata,
                contents: Vec::new(),
            };
            core::mem::swap(self, &mut this);
            let Self { index: cursor, path, content_outdated, metadata, mut contents } = this;
            proof {
                let before = views_of(contents@);
                let after = views_of(contents@.update(index as int, entry));
                assert(after =~= before.update(
                    index as int,
                    EntryView { selected, ..before[index as int] },
                ));
                assert(forall|i: int, j: int| 0 <= i < j < after.len() ==> (#[trigger] after[i]).path != (#[trigger] after[j]).path);
            }
            contents.set(index, entry);
            *self = Self { index: cursor, path, content_outdated, metadata, contents };
            true
        } else {
            false
        }
    }

    /// The directory that is listed.
    pub fn file_path(&self) -> (r: &str)
        ensures
            r@ == self@.path,
            self@.wf(),
    {
        proof {
            use_type_invariant(self);
        }
        self.path.as_str()
    }

    /// The cursor.
    pub fn index(&self) -> (r: Option<usize>)
        ensures
            index_view(r) == self@.index,
            r matches Some(i) ==> i < self@.contents.len(),
            r is None ==> self@.contents.len() == 0,
    {
        proof {
            use_type_invariant(self);
        }
        self.index
    }

    /// The entries, in order.
    pub fn contents(&self) -> (r: &Vec<JoshutoDirEntry>)
        ensures
            views_of(r@) == self@.contents,
            distinct_paths(views_of(r@)),
    {
        proof {
            use_type_invariant(self);
        }
        &self.contents
    }

    /// The directory's own metadata as of the last read.
    pub fn metadata(&self) -> (r: JoshutoMetadata)
        ensures
            r == self@.metadata,
    {
        self.metadata
    }

    /// Whether the listing is marked stale.
    pub fn is_outdated(&self) -> (r: bool)
        ensures
            r == self@.outdated,
    {
        self.content_outdated
    }
}

} // verus!
