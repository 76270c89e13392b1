use joshuto::devicons::DevIcons;
use joshuto::fs::dirlist::{modified_of, DirSnapshot, JoshutoDirList};
use joshuto::fs::entry::JoshutoDirEntry;
use joshuto::fs::metadata::{FileType, FsError, JoshutoMetadata};
use joshuto::sort::{SortOption, SortType};

fn plain() -> DevIcons {
    DevIcons {
        dir_exact: Vec::new(),
        file_exact: Vec::new(),
        file_ext: Vec::new(),
        default_dir: String::new(),
        default_file: String::new(),
    }
}

fn file(path: &str) -> JoshutoDirEntry {
    let name = path.rsplit('/').next().unwrap().to_string();
    JoshutoDirEntry::from(
        path.to_string(),
        name,
        JoshutoMetadata { len: 1, modified: 1, mode: 0o644, file_type: FileType::Regular },
        false,
        &plain(),
    )
}

fn dir_meta(modified: u64) -> JoshutoMetadata {
    JoshutoMetadata { len: 4096, modified, mode: 0o755, file_type: FileType::Directory }
}

fn read_of(modified: u64, children: &[&str]) -> Result<DirSnapshot, FsError> {
    Ok(DirSnapshot { metadata: dir_meta(modified), entries: children.iter().map(|p| file(p)).collect() })
}

fn by_name() -> SortOption {
    SortOption { directories_first: false, reverse: false, sort_method: SortType::Name }
}

fn listed(list: &JoshutoDirList) -> Vec<String> {
    list.contents().iter().map(|e| e.file_path().to_string()).collect()
}

#[test]
fn a_new_listing_is_sorted_fresh_and_on_its_first_entry() {
    let list =
        JoshutoDirList::new("/d".to_string(), &read_of(7, &["/d/c", "/d/a", "/d/b"]), &by_name()).unwrap();
    assert_eq!(list.file_path(), "/d");
    assert_eq!(listed(&list), vec!["/d/a", "/d/b", "/d/c"]);
    assert_eq!(list.index(), Some(0));
    assert!(!list.is_outdated());
    assert_eq!(list.metadata(), dir_meta(7));
}

#[test]
fn an_empty_listing_has_no_cursor() {
    let list = JoshutoDirList::new("/d".to_string(), &read_of(7, &[]), &by_name()).unwrap();
    assert!(list.contents().is_empty());
    assert_eq!(list.index(), None);
}

#[test]
fn a_failed_read_makes_no_listing() {
    let denied = JoshutoDirList::new("/d".to_string(), &Err(FsError::PermissionDenied), &by_name());
    assert_eq!(denied.err(), Some(FsError::PermissionDenied));
    let gone = JoshutoDirList::new("/d".to_string(), &Err(FsError::NotFound), &by_name());
    assert_eq!(gone.err(), Some(FsError::NotFound));
    let other = JoshutoDirList::new("/d".to_string(), &Err(FsError::Other), &by_name());
    assert_eq!(other.err(), Some(FsError::Other));
}

#[test]
fn the_cursor_follows_its_path_through_a_reload() {
    let mut list =
        JoshutoDirList::new("/d".to_string(), &read_of(1, &["/d/a", "/d/b", "/d/c"]), &by_name()).unwrap();
    assert!(list.point_at("/d/c"));
    assert_eq!(list.index(), Some(2));
    let r = list.reload_contents(&read_of(2, &["/d/c", "/d/x", "/d/0", "/d/b"]), &by_name());
    assert_eq!(r, Ok(()));
    assert_eq!(listed(&list), vec!["/d/0", "/d/b", "/d/c", "/d/x"]);
    assert_eq!(list.index(), Some(2));
    assert!(list.point_at("/d/x"));
    let r = list.reload_contents(&read_of(3, &["/d/x", "/d/y"]), &by_name());
    assert_eq!(r, Ok(()));
    assert_eq!(list.index(), Some(0));
    assert_eq!(list.metadata(), dir_meta(3));
}

#[test]
fn the_cursor_falls_back_to_the_first_entry() {
    let mut list =
        JoshutoDirList::new("/d".to_string(), &read_of(1, &["/d/a", "/d/b", "/d/c"]), &by_name()).unwrap();
    list.point_at("/d/b");
    assert_eq!(list.reload_contents(&read_of(2, &["/d/a", "/d/c", "/d/d"]), &by_name()), Ok(()));
    assert_eq!(list.index(), Some(0));
}

#[test]
fn the_cursor_goes_when_the_listing_empties_and_comes_back() {
    let mut list = JoshutoDirList::new("/d".to_string(), &read_of(1, &["/d/a"]), &by_name()).unwrap();
    assert_eq!(list.reload_contents(&read_of(2, &[]), &by_name()), Ok(()));
    assert_eq!(list.index(), None);
    assert!(list.contents().is_empty());
    assert_eq!(list.reload_contents(&read_of(3, &["/d/q", "/d/p"]), &by_name()), Ok(()));
    assert_eq!(list.index(), Some(0));
    assert_eq!(listed(&list), vec!["/d/p", "/d/q"]);
}

#[test]
fn a_reload_marks_the_listing_fresh() {
    let mut list = JoshutoDirList::new("/d".to_string(), &read_of(1, &["/d/a"]), &by_name()).unwrap();
    list.depreciate();
    assert!(list.is_outdated());
    assert_eq!(listed(&list), vec!["/d/a"]);
    assert_eq!(list.index(), Some(0));
    assert_eq!(list.reload_contents(&read_of(1, &["/d/a"]), &by_name()), Ok(()));
    assert!(!list.is_outdated());
}

#[test]
fn a_failed_reload_leaves_the_listing_as_it_was() {
    let mut list =
        JoshutoDirList::new("/d".to_string(), &read_of(1, &["/d/a", "/d/b"]), &by_name()).unwrap();
    list.point_at("/d/b");
    list.depreciate();
    let r = list.reload_contents(&Err(FsError::NotFound), &by_name());
    assert_eq!(r, Err(FsError::NotFound));
    assert_eq!(listed(&list), vec!["/d/a", "/d/b"]);
    assert_eq!(list.index(), Some(1));
    assert!(list.is_outdated());
    assert_eq!(list.metadata(), dir_meta(1));
}

#[test]
fn a_listing_wants_an_update_when_stale_or_modified() {
    let mut list = JoshutoDirList::new("/d".to_string(), &read_of(10, &["/d/a"]), &by_name()).unwrap();
    assert!(!list.need_update(Some(10)));
    assert!(!list.need_update(None));
    assert!(list.need_update(Some(11)));
    assert!(list.need_update(Some(9)));
    list.depreciate();
    assert!(list.need_update(Some(10)));
    assert!(list.need_update(None));
}

#[test]
fn point_at_moves_the_cursor_only_to_what_is_there() {
    let mut list =
        JoshutoDirList::new("/d".to_string(), &read_of(1, &["/d/a", "/d/b", "/d/c"]), &by_name()).unwrap();
    assert!(list.point_at("/d/b"));
    assert_eq!(list.index(), Some(1));
    assert!(!list.point_at("/d/nope"));
    assert_eq!(list.index(), Some(1));
    assert!(!list.point_at("/d"));
    assert_eq!(list.index(), Some(1));
}

#[test]
fn select_sets_one_flag() {
    let mut list =
        JoshutoDirList::new("/d".to_string(), &read_of(1, &["/d/a", "/d/b", "/d/c"]), &by_name()).unwrap();
    assert!(list.select(1, true));
    assert!(!list.contents()[0].is_selected());
    assert!(list.contents()[1].is_selected());
    assert!(!list.contents()[2].is_selected());
    assert_eq!(listed(&list), vec!["/d/a", "/d/b", "/d/c"]);
    assert_eq!(list.index(), Some(0));
    assert!(list.select(1, false));
    assert!(!list.contents()[1].is_selected());
    assert!(!list.select(3, true));
    assert_eq!(list.contents().len(), 3);
}

#[test]
fn a_listing_never_shows_a_path_twice() {
    let list = JoshutoDirList::new(
        "/d".to_string(),
        &read_of(1, &["/d/a", "/d/b", "/d/a", "/d/b", "/d/a"]),
        &by_name(),
    )
    .unwrap();
    assert_eq!(listed(&list), vec!["/d/a", "/d/b"]);
}

#[test]
fn modified_of_reads_the_time_of_a_read_that_succeeded() {
    assert_eq!(modified_of(&read_of(42, &[])), Some(42));
    assert_eq!(modified_of(&Err(FsError::Other)), None);
}
