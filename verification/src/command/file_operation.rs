//! Cut, copy, paste and delete: the clipboard, what a command selects, and
//! what each command starts.

use vstd::prelude::*;
use vstd::string::*;
use crate::command::batch::{Batch, BatchView};
use crate::command::transfer::{PasteOptions, TransferJob, TransferView};
use crate::fs::dirlist::{DirListView, JoshutoDirList};
use crate::fs::entry::{views_of, EntryView};
use crate::path::texts_of;

verus! {

/// What a paste does with the files of the clipboard.
#[derive(Clone, Copy, Debug, PartialEq, Eq, Structural)]
pub enum FileOp {
    Cut,
    Copy,
}

/// The one pending operation: the paths that a cut or a copy took, and
/// which of the two it was. A new cut or copy replaces both; a paste takes
/// the paths and leaves none.
pub struct FileClipboard {
    files: Vec<String>,
    fileop: FileOp,
}

/// A clipboard as mathematical values.
pub struct ClipboardView {
    pub files: Seq<Seq<char>>,
    pub fileop: FileOp,
}

impl View for FileClipboard {
    type V = ClipboardView;

    closed spec fn view(&self) -> ClipboardView {
        ClipboardView { files: texts_of(self.files@), fileop: self.fileop }
    }
}

impl FileClipboard {
    /// A clipboard that holds no path. Its mode is `Copy`.
    pub fn new() -> (r: Self)
        ensures
            r@ == (ClipboardView { files: Seq::empty(), fileop: FileOp::Copy }),
    {
        let r = FileClipboard { files: Vec::new(), fileop: FileOp::Copy };
        proof {
            assert(texts_of(r.files@) =~= Seq::<Seq<char>>::empty());
        }
        r
    }

    /// The paths that wait for a paste, in the order in which they were
    /// collected.
    pub fn files(&self) -> (r: &Vec<String>)
        ensures
            texts_of(r@) == self@.files,
    {
        &self.files
    }

    /// Whether the pending paths were cut or copied.
    pub fn file_op(&self) -> (r: FileOp)
        ensures
            r == self@.fileop,
    {
        self.fileop
    }

    /// Replaces the pending paths. The mode stays.
    pub fn set_files(&mut self, files: Vec<String>)
        ensures
            final(self)@ == (ClipboardView { files: texts_of(files@), ..old(self)@ }),
    {
        self.files = files;
    }

    /// Hands out the pending paths and leaves none. The mode stays.
    pub fn take_files(&mut self) -> (r: Vec<String>)
        ensures
            texts_of(r@) == old(self)@.files,
            final(self)@ == (ClipboardView { files: Seq::empty(), ..old(self)@ }),
    {
        let mut files: Vec<String> = Vec::new();
        proof {
            assert(texts_of(files@) =~= Seq::<Seq<char>>::empty());
        }
        core::mem::swap(&mut self.files, &mut files);
        files
    }
}

/// Sets the mode of the clipboard. The pending paths stay.
pub fn set_file_op(clipboard: &mut FileClipboard, operation: FileOp)
    ensures
        final(clipboard)@ == (ClipboardView { fileop: operation, ..old(clipboard)@ }),
{
    clipboard.fileop = operation;
}

/// Whether an entry is selected.
pub open spec fn is_selected() -> spec_fn(EntryView) -> bool {
    |e: EntryView| e.selected
}

/// The path of an entry.
pub open spec fn path_of() -> spec_fn(EntryView) -> Seq<char> {
    |e: EntryView| e.path
}

/// The paths of the selected entries, in the order of the listing.
pub open spec fn selected_paths(contents: Seq<EntryView>) -> Seq<Seq<char>> {
    contents.filter(is_selected()).map_values(path_of())
}

/// What a command acts on: the selected entries; where none is selected,
/// the entry under the cursor; nothing where the listing has no cursor.
pub open spec fn resolved_paths(list: DirListView) -> Option<Seq<Seq<char>>> {
    if selected_paths(list.contents).len() > 0 {
        Some(selected_paths(list.contents))
    } else {
        match list.cursor_path() {
            Some(path) => Some(seq![path]),
            None => None,
        }
    }
}

/// What a command acts on where there may be no listing at all.
pub open spec fn resolved_in(list: Option<JoshutoDirList>) -> Option<Seq<Seq<char>>> {
    match list {
        Some(list) => resolved_paths(list@),
        None => None,
    }
}

/// The texts of an optional list of strings.
pub open spec fn paths_view(paths: Option<Vec<String>>) -> Option<Seq<Seq<char>>> {
    match paths {
        Some(paths) => Some(texts_of(paths@)),
        None => None,
    }
}

proof fn lemma_selected_step(contents: Seq<EntryView>, i: int)
    requires
        0 <= i < contents.len(),
    ensures
        selected_paths(contents.take(i + 1)) == if contents[i].selected {
            selected_paths(contents.take(i)).push(contents[i].path)
        } else {
            selected_paths(contents.take(i))
        },
{
    reveal(Seq::filter);
    let a = contents.take(i + 1);
    assert(a.drop_last() =~= contents.take(i));
    let kept = contents.take(i).filter(is_selected());
    if contents[i].selected {
        assert(kept.push(contents[i]).map_values(path_of()) =~= kept.map_values(path_of()).push(
            contents[i].path,
        ));
    }
}

/// The paths that a command acts on in `dirlist`.
pub fn collect_selected_paths(dirlist: &JoshutoDirList) -> (r: Option<Vec<String>>)
    ensures
        paths_view(r) == resolved_paths(dirlist@),
{
    let contents = dirlist.contents();
    let ghost entries = dirlist@.contents;
    let mut selected: Vec<String> = Vec::new();
    let mut i: usize = 0;
    while i < contents.len()
        invariant
            i <= contents@.len(),
            views_of(contents@) == entries,
            texts_of(selected@) == selected_paths(entries.take(i as int)),
        decreases contents@.len() - i,
    {
        proof {
            lemma_selected_step(entries, i as int);
        }
        if contents[i].is_selected() {
            let path = contents[i].file_path().to_owned();
            selected.push(path);
        }
        i = i + 1;
    }
    proof {
        assert(entries.take(i as int) =~= entries);
    }
    if selected.len() > 0 {
        Some(selected)
    } else {
        match dirlist.index() {
            Some(index) => {
                let path = contents[index].file_path().to_owned();
                let mut single: Vec<String> = Vec::new();
                single.push(path);
                Some(single)
            },
            None => None,
        }
    }
}

/// Puts what a command acts on into the clipboard, and says whether there
/// was anything. Where there was nothing the clipboard is as it was.
pub fn repopulated_selected_files(clipboard: &mut FileClipboard, dirlist: &Option<JoshutoDirList>) -> (r:
    bool)
    ensures
        match resolved_in(*dirlist) {
            Some(paths) => r && final(clipboard)@ == (ClipboardView { files: paths, ..old(clipboard)@ }),
            None => !r && final(clipboard)@ == old(clipboard)@,
        },
{
    match dirlist {
        Some(list) => match collect_selected_paths(list) {
            Some(contents) => {
                clipboard.set_files(contents);
                true
            },
            None => false,
        },
        None => false,
    }
}

/// What a cut or a copy leaves in the clipboard: the resolved paths under
/// the new mode, or, where nothing resolves, what was there.
pub open spec fn clipboard_after(
    before: ClipboardView,
    list: Option<JoshutoDirList>,
    operation: FileOp,
) -> ClipboardView {
    match resolved_in(list) {
        Some(paths) => ClipboardView { files: paths, fileop: operation },
        None => before,
    }
}

/// The command that marks files to be moved by the next paste.
#[derive(Debug)]
pub struct CutFiles;

impl CutFiles {
    pub fn new() -> Self {
        CutFiles
    }

    pub fn command() -> (r: &'static str)
        ensures
            r@ == "CutFiles"@,
    {
        "CutFiles"
    }

    /// The command as text: its name.
    pub fn to_string(&self) -> (r: String)
        ensures
            r@ == "CutFiles"@,
    {
        String::from_str(Self::command())
    }

    /// Cuts what is selected in the current listing.
    pub fn execute(&self, clipboard: &mut FileClipboard, curr_list: &Option<JoshutoDirList>)
        ensures
            final(clipboard)@ == clipboard_after(old(clipboard)@, *curr_list, FileOp::Cut),
    {
        if repopulated_selected_files(clipboard, curr_list) {
            set_file_op(clipboard, FileOp::Cut);
        }
    }
}

/// The command that marks files to be duplicated by the next paste.
#[derive(Debug)]
pub struct CopyFiles;

impl CopyFiles {
    pub fn new() -> Self {
        CopyFiles
    }

    pub fn command() -> (r: &'static str)
        ensures
            r@ == "CopyFiles"@,
    {
        "CopyFiles"
    }

    /// The command as text: its name.
    pub fn to_string(&self) -> (r: String)
        ensures
            r@ == "CopyFiles"@,
    {
        String::from_str(Self::command())
    }

    /// Copies what is selected in the current listing.
    pub fn execute(&self, clipboard: &mut FileClipboard, curr_list: &Option<JoshutoDirList>)
        ensures
            final(clipboard)@ == clipboard_after(old(clipboard)@, *curr_list, FileOp::Copy),
    {
        if repopulated_selected_files(clipboard, curr_list) {
            set_file_op(clipboard, FileOp::Copy);
        }
    }
}

/// The label of the paste command under given options.
pub open spec fn paste_label(options: PasteOptions) -> Seq<char> {
    "PasteFiles overwrite="@ + if options.overwrite {
        "true"@
    } else {
        "false"@
    }
}

/// The command that transfers the files of the clipboard into a
/// directory.
pub struct PasteFiles {
    options: PasteOptions,
}

impl View for PasteFiles {
    type V = PasteOptions;

    closed spec fn view(&self) -> PasteOptions {
        self.options
    }
}

impl PasteFiles {
    pub fn new(options: PasteOptions) -> (r: Self)
        ensures
            r@ == options,
    {
        PasteFiles { options }
    }

    pub fn command() -> (r: &'static str)
        ensures
            r@ == "PasteFiles"@,
    {
        "PasteFiles"
    }

    /// The command as text: its name and whether it overwrites.
    pub fn to_string(&self) -> (r: String)
        ensures
            r@ == paste_label(self@),
    {
        let mut text = String::from_str("PasteFiles overwrite=");
        if self.options.overwrite {
            text.append("true");
        } else {
            text.append("false");
        }
        text
    }

    /// Starts the move of the files of the clipboard into `destination`,
    /// and empties the clipboard.
    pub fn cut(&self, clipboard: &mut FileClipboard, destination: &str) -> (job: TransferJob)
        ensures
            job@ == TransferView::started(FileOp::Cut, old(clipboard)@.files, destination@, self@),
            final(clipboard)@ == (ClipboardView { files: Seq::empty(), ..old(clipboard)@ }),
    {
        let files = clipboard.take_files();
        TransferJob::new(FileOp::Cut, files, destination, self.options)
    }

    /// Starts the copy of the files of the clipboard into `destination`,
    /// and empties the clipboard.
    pub fn copy(&self, clipboard: &mut FileClipboard, destination: &str) -> (job: TransferJob)
        ensures
            job@ == TransferView::started(FileOp::Copy, old(clipboard)@.files, destination@, self@),
            final(clipboard)@ == (ClipboardView { files: Seq::empty(), ..old(clipboard)@ }),
    {
        let files = clipboard.take_files();
        TransferJob::new(FileOp::Copy, files, destination, self.options)
    }

    /// Starts the paste that the clipboard asks for, a move after a cut
    /// and a copy after a copy, and empties the clipboard. However the
    /// transfer ends, a second paste finds nothing to transfer.
    pub fn execute(&self, clipboard: &mut FileClipboard, destination: &str) -> (job: TransferJob)
        ensures
            job@ == TransferView::started(
                old(clipboard)@.fileop,
                old(clipboard)@.files,
                destination@,
                self@,
            ),
            final(clipboard)@ == (ClipboardView { files: Seq::empty(), ..old(clipboard)@ }),
    {
        match clipboard.file_op() {
            FileOp::Copy => self.copy(clipboard, destination),
            FileOp::Cut => self.cut(clipboard, destination),
        }
    }
}

/// The key that stands for the letter y.
pub const LOWER_Y: i32 = 121;

/// The key that stands for Enter.
pub const ENTER: i32 = 10;

/// Whether a key says yes: the letter y or Enter. Every other key says no.
pub open spec fn is_affirmative(ch: i32) -> bool {
    ch == LOWER_Y || ch == ENTER
}

/// How one item is removed.
#[derive(Clone, Copy, Debug, PartialEq, Eq, Structural)]
pub enum Removal {
    /// A directory goes with all that it holds.
    Tree,
    /// Anything else goes alone.
    File,
}

/// The batch that a confirmed removal works through: what the listing
/// resolves to, nothing attempted yet; no batch without confirmation.
pub open spec fn removal_batch(ch: i32, list: Option<JoshutoDirList>) -> Option<BatchView> {
    if is_affirmative(ch) {
        Some(
            BatchView {
                items: match resolved_in(list) {
                    Some(paths) => paths,
                    None => Seq::empty(),
                },
                outcomes: Seq::empty(),
                aborted: false,
            },
        )
    } else {
        None
    }
}

/// The batch views of an optional batch.
pub open spec fn batch_view(batch: Option<Batch>) -> Option<BatchView> {
    match batch {
        Some(batch) => Some(batch@),
        None => None,
    }
}

/// Whether a key confirms.
pub fn confirmed(ch: i32) -> (r: bool)
    ensures
        r == is_affirmative(ch),
{
    ch == LOWER_Y || ch == ENTER
}

/// How to remove an item, given whether it is a directory.
pub fn removal_for(is_dir: bool) -> (r: Removal)
    ensures
        r == if is_dir {
            Removal::Tree
        } else {
            Removal::File
        },
{
    if is_dir {
        Removal::Tree
    } else {
        Removal::File
    }
}

/// The command that removes files, once the user has said yes.
#[derive(Debug)]
pub struct DeleteFiles;

impl DeleteFiles {
    pub fn new() -> Self {
        DeleteFiles
    }

    pub fn command() -> (r: &'static str)
        ensures
            r@ == "DeleteFiles"@,
    {
        "DeleteFiles"
    }

    /// The command as text: its name.
    pub fn to_string(&self) -> (r: String)
        ensures
            r@ == "DeleteFiles"@,
    {
        String::from_str(Self::command())
    }

    /// Given the key that answered the question, starts the removal of
    /// what is selected in the current listing. Any key but a yes cancels:
    /// there is no batch, and nothing is to be removed.
    pub fn execute(&self, ch: i32, curr_list: &Option<JoshutoDirList>) -> (r: Option<Batch>)
        ensures
            batch_view(r) == removal_batch(ch, *curr_list),
    {
        if !confirmed(ch) {
            return None;
        }
        let paths = match curr_list {
            Some(list) => match collect_selected_paths(list) {
                Some(paths) => paths,
                None => Vec::new(),
            },
            None => Vec::new(),
        };
        proof {
            if resolved_in(*curr_list) is None {
                assert(texts_of(paths@) =~= Seq::<Seq<char>>::empty());
            }
        }
        Some(Batch::new(paths))
    }
}

/// The command bound to renaming. The library gives it its name; asking
/// for the new name and moving the file are the front end's.
#[derive(Debug)]
pub struct RenameFile;

impl RenameFile {
    pub fn new() -> Self {
        RenameFile
    }

    pub fn command() -> (r: &'static str)
        ensures
            r@ == "RenameFile"@,
    {
        "RenameFile"
    }

    /// The command as text: its name.
    pub fn to_string(&self) -> (r: String)
        ensures
            r@ == "RenameFile"@,
    {
        String::from_str(Self::command())
    }
}

} // verus!
