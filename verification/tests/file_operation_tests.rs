use joshuto::command::batch::{Batch, ItemOutcome};
use joshuto::command::file_operation::{
    collect_selected_paths, confirmed, removal_for, repopulated_selected_files, set_file_op,
    CopyFiles, CutFiles, DeleteFiles, FileClipboard, FileOp, PasteFiles, Removal, RenameFile, ENTER,
    LOWER_Y,
};
use joshuto::command::transfer::{
    abort_key, PasteOptions, TransferJob, TransitDecision, TransitState, ESCAPE,
};
use joshuto::devicons::DevIcons;
use joshuto::fs::dirlist::{DirSnapshot, JoshutoDirList};
use joshuto::fs::entry::JoshutoDirEntry;
use joshuto::fs::metadata::{FileType, FsError, JoshutoMetadata};
use joshuto::history::{DirectoryHistory, JoshutoHistory};
use joshuto::sort::{SortOption, SortType};

fn none() -> DevIcons {
    DevIcons {
        dir_exact: Vec::new(),
        file_exact: Vec::new(),
        file_ext: Vec::new(),
        default_dir: String::new(),
        default_file: String::new(),
    }
}

fn leaf(path: &str) -> JoshutoDirEntry {
    let name = path.rsplit('/').next().unwrap().to_string();
    JoshutoDirEntry::from(
        path.to_string(),
        name,
        JoshutoMetadata { len: 1, modified: 1, mode: 0o644, file_type: FileType::Regular },
        false,
        &none(),
    )
}

fn reading(children: &[&str]) -> Result<DirSnapshot, FsError> {
    Ok(DirSnapshot {
        metadata: JoshutoMetadata { len: 0, modified: 1, mode: 0o755, file_type: FileType::Directory },
        entries: children.iter().map(|p| leaf(p)).collect(),
    })
}

fn order() -> SortOption {
    SortOption { directories_first: false, reverse: false, sort_method: SortType::Name }
}

fn listing(dir: &str, children: &[&str]) -> JoshutoDirList {
    JoshutoDirList::new(dir.to_string(), &reading(children), &order()).unwrap()
}

fn options(overwrite: bool, skip_exist: bool) -> PasteOptions {
    PasteOptions {
        overwrite,
        skip_exist,
        buffer_size: 64000,
        copy_inside: false,
        content_only: false,
        depth: 0,
    }
}

fn texts(paths: &[&str]) -> Vec<String> {
    paths.iter().map(|p| p.to_string()).collect()
}

#[test]
fn selection_is_the_selected_entries_in_listing_order() {
    let mut list = listing("/d", &["/d/c", "/d/a", "/d/b", "/d/d"]);
    list.select(3, true);
    list.select(0, true);
    list.point_at("/d/b");
    assert_eq!(collect_selected_paths(&list), Some(texts(&["/d/a", "/d/d"])));
}

#[test]
fn selection_falls_back_to_the_cursor() {
    let mut list = listing("/d", &["/d/a", "/d/b", "/d/c"]);
    assert_eq!(collect_selected_paths(&list), Some(texts(&["/d/a"])));
    list.point_at("/d/c");
    assert_eq!(collect_selected_paths(&list), Some(texts(&["/d/c"])));
    list.select(1, true);
    list.select(1, false);
    assert_eq!(collect_selected_paths(&list), Some(texts(&["/d/c"])));
}

#[test]
fn an_empty_listing_selects_nothing() {
    let list = listing("/d", &[]);
    assert_eq!(collect_selected_paths(&list), None);
}

#[test]
fn a_new_clipboard_is_empty_and_copies() {
    let clipboard = FileClipboard::new();
    assert!(clipboard.files().is_empty());
    assert_eq!(clipboard.file_op(), FileOp::Copy);
}

#[test]
fn set_file_op_changes_the_mode_only() {
    let mut clipboard = FileClipboard::new();
    clipboard.set_files(texts(&["/d/a"]));
    set_file_op(&mut clipboard, FileOp::Cut);
    assert_eq!(clipboard.file_op(), FileOp::Cut);
    assert_eq!(clipboard.files(), &texts(&["/d/a"]));
    set_file_op(&mut clipboard, FileOp::Copy);
    assert_eq!(clipboard.file_op(), FileOp::Copy);
}

#[test]
fn take_files_empties_the_clipboard() {
    let mut clipboard = FileClipboard::new();
    clipboard.set_files(texts(&["/d/a", "/d/b"]));
    set_file_op(&mut clipboard, FileOp::Cut);
    assert_eq!(clipboard.take_files(), texts(&["/d/a", "/d/b"]));
    assert!(clipboard.files().is_empty());
    assert_eq!(clipboard.file_op(), FileOp::Cut);
    assert!(clipboard.take_files().is_empty());
}

#[test]
fn repopulating_replaces_the_paths_and_keeps_the_mode() {
    let mut clipboard = FileClipboard::new();
    clipboard.set_files(texts(&["/old/x", "/old/y"]));
    set_file_op(&mut clipboard, FileOp::Cut);
    let list = Some(listing("/d", &["/d/a", "/d/b"]));
    assert!(repopulated_selected_files(&mut clipboard, &list));
    assert_eq!(clipboard.files(), &texts(&["/d/a"]));
    assert_eq!(clipboard.file_op(), FileOp::Cut);
}

#[test]
fn repopulating_from_nothing_leaves_the_clipboard() {
    let mut clipboard = FileClipboard::new();
    clipboard.set_files(texts(&["/old/x"]));
    assert!(!repopulated_selected_files(&mut clipboard, &None));
    assert!(!repopulated_selected_files(&mut clipboard, &Some(listing("/d", &[]))));
    assert_eq!(clipboard.files(), &texts(&["/old/x"]));
    assert_eq!(clipboard.file_op(), FileOp::Copy);
}

#[test]
fn a_cut_or_copy_of_nothing_is_a_no_op() {
    let mut clipboard = FileClipboard::new();
    clipboard.set_files(texts(&["/old/x"]));
    CutFiles::new().execute(&mut clipboard, &Some(listing("/d", &[])));
    assert_eq!(clipboard.file_op(), FileOp::Copy);
    assert_eq!(clipboard.files(), &texts(&["/old/x"]));
    set_file_op(&mut clipboard, FileOp::Cut);
    CopyFiles::new().execute(&mut clipboard, &None);
    assert_eq!(clipboard.file_op(), FileOp::Cut);
    assert_eq!(clipboard.files(), &texts(&["/old/x"]));
}

#[test]
fn cut_two_files_then_paste_moves_both_and_invalidates_both_directories() {
    let mut history = JoshutoHistory::new();
    history.create_or_reload("/d", &order(), &reading(&["/d/a", "/d/b", "/d/c"])).unwrap();
    history.create_or_reload("/e", &order(), &reading(&[])).unwrap();
    history.create_or_reload("/f", &order(), &reading(&[])).unwrap();
    let mut curr = listing("/d", &["/d/a", "/d/b", "/d/c"]);
    curr.select(0, true);
    curr.select(2, true);
    let mut clipboard = FileClipboard::new();

    CutFiles::new().execute(&mut clipboard, &Some(curr));
    assert_eq!(clipboard.file_op(), FileOp::Cut);
    assert_eq!(clipboard.files(), &texts(&["/d/a", "/d/c"]));

    let mut job = PasteFiles::new(options(false, false)).execute(&mut clipboard, "/e");
    assert!(clipboard.files().is_empty());
    assert_eq!(job.op(), FileOp::Cut);
    assert_eq!(job.destination(), "/e");
    assert_eq!(job.batch().total(), 2);

    assert_eq!(job.next(), Some("/d/a"));
    assert_eq!(job.progress(10, TransitState::Normal, false), TransitDecision::Continue);
    job.item_done(Ok(10));
    assert_eq!(job.next(), Some("/d/c"));
    job.item_done(Ok(5));
    assert_eq!(job.next(), None);
    assert_eq!(job.batch().succeeded(), 2);
    assert!(job.batch().failures().is_empty());
    assert!(!job.batch().is_aborted());
    assert_eq!(job.copied_bytes(), 15);

    assert_eq!(job.invalidated(), texts(&["/d", "/d", "/e"]));
    history.depreciate_entries(&job.invalidated());
    assert!(history.get("/d").unwrap().is_outdated());
    assert!(history.get("/e").unwrap().is_outdated());
    assert!(!history.get("/f").unwrap().is_outdated());

    let again = PasteFiles::new(options(false, false)).execute(&mut clipboard, "/e");
    assert_eq!(again.next(), None);
    assert_eq!(again.batch().total(), 0);
}

#[test]
fn copy_without_selection_then_paste_duplicates_the_file_under_the_cursor() {
    let mut curr = listing("/d", &["/d/f", "/d/g", "/d/h"]);
    curr.point_at("/d/g");
    let mut clipboard = FileClipboard::new();
    set_file_op(&mut clipboard, FileOp::Cut);

    CopyFiles::new().execute(&mut clipboard, &Some(curr));
    assert_eq!(clipboard.file_op(), FileOp::Copy);
    assert_eq!(clipboard.files(), &texts(&["/d/g"]));

    let mut job = PasteFiles::new(options(true, false)).execute(&mut clipboard, "/e");
    assert_eq!(job.op(), FileOp::Copy);
    assert_eq!(job.options(), options(true, false));
    assert_eq!(job.next(), Some("/d/g"));
    job.item_done(Ok(1));
    assert_eq!(job.next(), None);
    assert_eq!(job.batch().total(), 1);
    assert_eq!(job.batch().succeeded(), 1);
    assert!(clipboard.files().is_empty());
    assert_eq!(clipboard.file_op(), FileOp::Copy);
}

#[test]
fn paste_cut_and_copy_take_the_mode_they_are_named_for() {
    let mut clipboard = FileClipboard::new();
    clipboard.set_files(texts(&["/d/a"]));
    let paste = PasteFiles::new(options(false, true));
    let job = paste.cut(&mut clipboard, "/e");
    assert_eq!(job.op(), FileOp::Cut);
    assert_eq!(job.next(), Some("/d/a"));
    assert!(clipboard.files().is_empty());
    clipboard.set_files(texts(&["/d/b"]));
    set_file_op(&mut clipboard, FileOp::Cut);
    let job = paste.copy(&mut clipboard, "/f");
    assert_eq!(job.op(), FileOp::Copy);
    assert_eq!(job.destination(), "/f");
    assert_eq!(job.options(), options(false, true));
    assert!(clipboard.files().is_empty());
    assert_eq!(clipboard.file_op(), FileOp::Cut);
}

#[test]
fn delete_three_with_one_failure_reports_exactly_that_one() {
    let mut curr = listing("/d", &["/d/a", "/d/b", "/d/c", "/d/keep"]);
    curr.select(0, true);
    curr.select(1, true);
    curr.select(2, true);
    let mut batch = DeleteFiles::new().execute(LOWER_Y, &Some(curr)).unwrap();
    assert_eq!(batch.total(), 3);
    assert_eq!(batch.next(), Some("/d/a"));
    assert!(batch.record(ItemOutcome::Done));
    assert_eq!(batch.next(), Some("/d/b"));
    assert!(batch.record(ItemOutcome::Failed(FsError::PermissionDenied)));
    assert_eq!(batch.next(), Some("/d/c"));
    assert!(batch.record(ItemOutcome::Done));
    assert_eq!(batch.next(), None);
    assert!(batch.is_finished());
    assert!(!batch.record(ItemOutcome::Done));

    let failures = batch.failures();
    assert_eq!(failures.len(), 1);
    assert_eq!(failures[0].path, "/d/b");
    assert_eq!(failures[0].error, FsError::PermissionDenied);
    assert_eq!(batch.succeeded(), 2);
    assert_eq!(batch.attempted(), 3);
    assert_eq!(batch.affected_directories(), texts(&["/d", "/d", "/d"]));
}

#[test]
fn delete_needs_a_yes() {
    let curr = Some(listing("/d", &["/d/a"]));
    assert!(DeleteFiles::new().execute('n' as i32, &curr).is_none());
    assert!(DeleteFiles::new().execute(0, &curr).is_none());
    assert!(DeleteFiles::new().execute(-1, &curr).is_none());
    assert!(DeleteFiles::new().execute('Y' as i32, &curr).is_none());
    let batch = DeleteFiles::new().execute(ENTER, &curr).unwrap();
    assert_eq!(batch.next(), Some("/d/a"));
    let batch = DeleteFiles::new().execute('y' as i32, &curr).unwrap();
    assert_eq!(batch.total(), 1);
}

#[test]
fn a_confirmed_delete_of_nothing_is_an_empty_batch() {
    let batch = DeleteFiles::new().execute(LOWER_Y, &None).unwrap();
    assert_eq!(batch.total(), 0);
    assert!(batch.is_finished());
    let batch = DeleteFiles::new().execute(LOWER_Y, &Some(listing("/d", &[]))).unwrap();
    assert_eq!(batch.next(), None);
}

#[test]
fn only_y_and_enter_confirm() {
    assert_eq!(LOWER_Y, 121);
    assert_eq!(ENTER, 10);
    assert!(confirmed(121));
    assert!(confirmed(10));
    assert!(!confirmed(110));
    assert!(!confirmed(89));
    assert!(!confirmed(13));
    assert!(!confirmed(i32::MIN));
}

#[test]
fn directories_go_with_their_contents() {
    assert_eq!(removal_for(true), Removal::Tree);
    assert_eq!(removal_for(false), Removal::File);
}

#[test]
fn an_abort_stops_the_transfer_and_reports_no_success() {
    let mut clipboard = FileClipboard::new();
    clipboard.set_files(texts(&["/d/large", "/d/next"]));
    let mut job = PasteFiles::new(options(false, false)).execute(&mut clipboard, "/e");
    assert!(clipboard.files().is_empty());
    assert_eq!(job.next(), Some("/d/large"));
    assert_eq!(job.progress(1000, TransitState::Normal, false), TransitDecision::Continue);
    assert_eq!(job.copied_bytes(), 1000);
    assert_eq!(job.progress(2000, TransitState::Normal, true), TransitDecision::Abort);
    assert!(job.batch().is_aborted());
    job.item_done(Err(FsError::Other));
    assert_eq!(job.next(), None);
    assert_eq!(job.batch().succeeded(), 0);
    assert_eq!(job.batch().attempted(), 0);
    assert!(job.batch().failures().is_empty());
    assert_eq!(job.batch().total(), 2);
    assert_eq!(job.copied_bytes(), 2000);
    assert!(clipboard.files().is_empty());
}

#[test]
fn an_abort_wins_over_what_stands_at_the_destination() {
    let mut job = TransferJob::new(FileOp::Copy, texts(&["/d/a"]), "/e", options(true, false));
    assert_eq!(job.progress(0, TransitState::Exists, true), TransitDecision::Abort);
    let mut job = TransferJob::new(FileOp::Copy, texts(&["/d/a"]), "/e", options(false, false));
    assert_eq!(job.progress(0, TransitState::NoAccess, true), TransitDecision::Abort);
}

#[test]
fn what_exists_is_replaced_only_where_the_options_say_so() {
    let mut job = TransferJob::new(FileOp::Copy, texts(&["/d/a", "/d/b"]), "/e", options(true, false));
    assert_eq!(job.progress(0, TransitState::Exists, false), TransitDecision::Overwrite);
    job.item_done(Ok(3));
    assert_eq!(job.batch().succeeded(), 1);

    let mut job = TransferJob::new(FileOp::Copy, texts(&["/d/a", "/d/b"]), "/e", options(false, true));
    assert_eq!(job.progress(0, TransitState::Exists, false), TransitDecision::Skip);
    job.item_done(Ok(0));
    assert_eq!(job.batch().succeeded(), 1);
    assert!(job.batch().failures().is_empty());

    let mut job = TransferJob::new(FileOp::Cut, texts(&["/d/a", "/d/b"]), "/e", options(false, false));
    assert_eq!(job.progress(0, TransitState::Exists, false), TransitDecision::Skip);
    assert_eq!(job.progress(0, TransitState::Normal, false), TransitDecision::Continue);
    job.item_done(Ok(0));
    assert_eq!(job.batch().succeeded(), 0);
    let failures = job.batch().failures();
    assert_eq!(failures.len(), 1);
    assert_eq!(failures[0].path, "/d/a");
    assert_eq!(failures[0].error, FsError::AlreadyExists);
    job.item_done(Ok(4));
    assert_eq!(job.batch().succeeded(), 1);
    assert_eq!(job.batch().failures().len(), 1);
}

#[test]
fn what_cannot_be_written_is_passed_over_and_reported() {
    let mut job = TransferJob::new(FileOp::Copy, texts(&["/d/a"]), "/e", options(true, true));
    assert_eq!(job.progress(7, TransitState::NoAccess, false), TransitDecision::Skip);
    job.item_done(Ok(7));
    let failures = job.batch().failures();
    assert_eq!(failures.len(), 1);
    assert_eq!(failures[0].error, FsError::PermissionDenied);
    assert_eq!(job.copied_bytes(), 7);
}

#[test]
fn a_failed_item_does_not_end_the_transfer() {
    let mut job =
        TransferJob::new(FileOp::Cut, texts(&["/d/a", "/d/b", "/d/c"]), "/e", options(false, false));
    job.item_done(Err(FsError::NotFound));
    assert_eq!(job.next(), Some("/d/b"));
    job.progress(9, TransitState::Normal, false);
    job.item_done(Err(FsError::Other));
    assert_eq!(job.next(), Some("/d/c"));
    job.item_done(Ok(1));
    assert_eq!(job.next(), None);
    job.item_done(Ok(100));
    let failures = job.batch().failures();
    assert_eq!(failures.len(), 2);
    assert_eq!((failures[0].path.as_str(), failures[0].error), ("/d/a", FsError::NotFound));
    assert_eq!((failures[1].path.as_str(), failures[1].error), ("/d/b", FsError::Other));
    assert_eq!(job.batch().succeeded(), 1);
    assert_eq!(job.copied_bytes(), 10);
}

#[test]
fn byte_counts_are_held_at_the_largest_count() {
    let mut job = TransferJob::new(FileOp::Copy, texts(&["/d/a", "/d/b"]), "/e", options(false, false));
    job.item_done(Ok(u64::MAX - 1));
    assert_eq!(job.copied_bytes(), u64::MAX - 1);
    job.progress(5, TransitState::Normal, false);
    assert_eq!(job.copied_bytes(), u64::MAX);
    job.item_done(Ok(5));
    assert_eq!(job.copied_bytes(), u64::MAX);
}

#[test]
fn invalidated_names_the_parents_of_the_sources_then_the_destination() {
    let job = TransferJob::new(FileOp::Cut, texts(&["/d/a", "/x/y/z", "/"]), "/e", options(false, false));
    assert_eq!(job.invalidated(), texts(&["/d", "/x/y", "/e"]));
    let job = TransferJob::new(FileOp::Cut, Vec::new(), "/e", options(false, false));
    assert_eq!(job.invalidated(), texts(&["/e"]));
}

#[test]
fn an_aborted_batch_hands_out_nothing() {
    let mut batch = Batch::new(texts(&["/d/a", "/d/b"]));
    assert!(batch.record(ItemOutcome::Done));
    batch.abort();
    assert!(batch.is_aborted());
    assert!(batch.is_finished());
    assert_eq!(batch.next(), None);
    assert!(!batch.record(ItemOutcome::Done));
    assert_eq!(batch.attempted(), 1);
    assert_eq!(batch.succeeded(), 1);
}

#[test]
fn commands_have_their_names() {
    assert_eq!(CutFiles::command(), "CutFiles");
    assert_eq!(CopyFiles::command(), "CopyFiles");
    assert_eq!(PasteFiles::command(), "PasteFiles");
    assert_eq!(DeleteFiles::command(), "DeleteFiles");
    assert_eq!(RenameFile::command(), "RenameFile");
    assert_eq!(CutFiles::new().to_string(), "CutFiles");
    assert_eq!(CopyFiles::new().to_string(), "CopyFiles");
    assert_eq!(DeleteFiles::new().to_string(), "DeleteFiles");
    assert_eq!(RenameFile::new().to_string(), "RenameFile");
}

#[test]
fn paste_says_whether_it_overwrites() {
    assert_eq!(PasteFiles::new(options(true, false)).to_string(), "PasteFiles overwrite=true");
    assert_eq!(PasteFiles::new(options(false, true)).to_string(), "PasteFiles overwrite=false");
}

#[test]
fn only_escape_aborts() {
    assert_eq!(ESCAPE, 27);
    assert!(abort_key(27));
    assert!(!abort_key(-1));
    assert!(!abort_key(121));
    assert!(!abort_key(10));
    assert!(!abort_key(0));
}
