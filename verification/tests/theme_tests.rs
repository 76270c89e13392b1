use joshuto::devicons::DevIcons;
use joshuto::fs::entry::JoshutoDirEntry;
use joshuto::fs::metadata::{FileType, JoshutoMetadata};
use joshuto::theme::{find_ext, AppStyle, AppTheme, ExtStyle};
use tui::style::{Color, Modifier, Style};

fn blank() -> DevIcons {
    DevIcons {
        dir_exact: Vec::new(),
        file_exact: Vec::new(),
        file_ext: Vec::new(),
        default_dir: String::new(),
        default_file: String::new(),
    }
}

fn look(fg: Color, bg: Color, modifier: Modifier) -> AppStyle {
    AppStyle { fg, bg, modifier }
}

fn theme() -> AppTheme {
    AppTheme {
        selection: look(Color::Yellow, Color::Black, Modifier::BOLD),
        directory: look(Color::Blue, Color::Reset, Modifier::BOLD | Modifier::ITALIC),
        link: look(Color::Cyan, Color::Rgb(1, 2, 3), Modifier::UNDERLINED),
        executable: look(Color::Green, Color::Indexed(7), Modifier::DIM),
        ext: vec![
            ExtStyle { ext: "rs".to_string(), style: look(Color::Red, Color::White, Modifier::REVERSED) },
            ExtStyle { ext: "md".to_string(), style: look(Color::Gray, Color::Black, Modifier::empty()) },
            ExtStyle { ext: "rs".to_string(), style: look(Color::Magenta, Color::Black, Modifier::HIDDEN) },
        ],
    }
}

fn thing(path: &str, file_type: FileType, mode: u32) -> JoshutoDirEntry {
    let name = path.rsplit('/').next().unwrap().to_string();
    JoshutoDirEntry::from(
        path.to_string(),
        name,
        JoshutoMetadata { len: 1, modified: 1, mode, file_type },
        false,
        &blank(),
    )
}

fn over_default(style: AppStyle) -> Style {
    Style::default().fg(style.fg).bg(style.bg).add_modifier(style.modifier)
}

#[test]
fn a_selected_entry_has_the_selection_style() {
    let mut e = thing("/d/sub", FileType::Directory, 0o755);
    e.set_selected(true);
    let style = e.get_style(&theme(), Style::default());
    assert_eq!(style, over_default(theme().selection));
    assert_eq!(style.fg, Some(Color::Yellow));
    assert_eq!(style.bg, Some(Color::Black));
    assert_eq!(style.add_modifier, Modifier::BOLD);
}

#[test]
fn a_directory_has_the_directory_style() {
    let e = thing("/d/sub.rs", FileType::Directory, 0o755);
    let style = e.get_style(&theme(), Style::default());
    assert_eq!(style, over_default(theme().directory));
    assert_eq!(style.fg, Some(Color::Blue));
    assert_eq!(style.add_modifier, Modifier::BOLD | Modifier::ITALIC);
}

#[test]
fn a_link_has_the_link_style() {
    let e = thing("/d/l.rs", FileType::Symlink, 0o777);
    let style = e.get_style(&theme(), Style::default());
    assert_eq!(style, over_default(theme().link));
    assert_eq!(style.bg, Some(Color::Rgb(1, 2, 3)));
}

#[test]
fn an_executable_file_has_the_executable_style() {
    let e = thing("/d/run.rs", FileType::Regular, 0o744);
    assert_eq!(e.get_style(&theme(), Style::default()), over_default(theme().executable));
}

#[test]
fn another_file_goes_by_its_extension() {
    let e = thing("/d/main.rs", FileType::Regular, 0o644);
    let style = e.get_style(&theme(), Style::default());
    assert_eq!(style, over_default(theme().ext[0].style));
    assert_eq!(style.fg, Some(Color::Red));
    let e = thing("/d/readme.md", FileType::Other, 0o600);
    assert_eq!(e.get_style(&theme(), Style::default()), over_default(theme().ext[1].style));
}

#[test]
fn a_file_the_theme_has_nothing_for_keeps_the_base_style() {
    let base = Style::default().fg(Color::LightBlue);
    let e = thing("/d/archive.zip", FileType::Regular, 0o644);
    assert_eq!(e.get_style(&theme(), base), base);
    let e = thing("/d/plain", FileType::Regular, 0o644);
    assert_eq!(e.get_style(&theme(), Style::default()), Style::default());
    let e = thing("/d/.rs", FileType::Regular, 0o644);
    assert_eq!(e.get_style(&theme(), Style::default()), Style::default());
}

#[test]
fn a_style_is_laid_over_the_base() {
    let base = Style::default().add_modifier(Modifier::CROSSED_OUT).bg(Color::LightRed);
    let e = thing("/d/sub", FileType::Directory, 0o755);
    let style = e.get_style(&theme(), base);
    assert_eq!(style.fg, Some(Color::Blue));
    assert_eq!(style.bg, Some(Color::Reset));
    assert_eq!(style.add_modifier, Modifier::CROSSED_OUT | Modifier::BOLD | Modifier::ITALIC);
}

#[test]
fn emphasis_goes_by_kind_then_extension() {
    let none = Modifier::empty();
    assert_eq!(
        thing("/d/sub", FileType::Directory, 0o755).get_modifier(&theme(), none),
        Modifier::BOLD | Modifier::ITALIC
    );
    assert_eq!(thing("/d/l", FileType::Symlink, 0o777).get_modifier(&theme(), none), Modifier::UNDERLINED);
    assert_eq!(thing("/d/a.rs", FileType::Regular, 0o755).get_modifier(&theme(), none), Modifier::REVERSED);
    assert_eq!(thing("/d/a.md", FileType::Regular, 0o644).get_modifier(&theme(), none), Modifier::empty());
    assert_eq!(thing("/d/a.zip", FileType::Regular, 0o644).get_modifier(&theme(), none), Modifier::empty());
    assert_eq!(
        thing("/d/a.zip", FileType::Regular, 0o644).get_modifier(&theme(), Modifier::DIM),
        Modifier::DIM
    );
}

#[test]
fn emphasis_ignores_selection_and_execute_bits() {
    let mut e = thing("/d/run", FileType::Regular, 0o755);
    e.set_selected(true);
    assert_eq!(e.get_modifier(&theme(), Modifier::empty()), Modifier::empty());
}

#[test]
fn find_ext_takes_the_first_rule() {
    let t = theme();
    assert_eq!(find_ext(&t.ext, "rs").map(|s| s.fg), Some(Color::Red));
    assert_eq!(find_ext(&t.ext, "md").map(|s| s.fg), Some(Color::Gray));
    assert!(find_ext(&t.ext, "zip").is_none());
    assert_eq!(t.for_extension("/d/x.md").map(|s| s.bg), Some(Color::Black));
    assert!(t.for_extension("/d/x").is_none());
}

#[test]
fn style_of_falls_back_to_the_style_of_the_extension() {
    let t = theme();
    let by_extension = Some(look(Color::White, Color::Black, Modifier::DIM));
    let plain = thing("/d/a", FileType::Regular, 0o644);
    assert_eq!(t.style_of(&plain, by_extension).map(|s| s.fg), Some(Color::White));
    assert!(t.style_of(&plain, None).is_none());
    let dir = thing("/d/sub", FileType::Directory, 0o755);
    assert_eq!(t.style_of(&dir, by_extension).map(|s| s.fg), Some(Color::Blue));
    let link = thing("/d/l", FileType::Symlink, 0o644);
    assert_eq!(t.style_of(&link, None).map(|s| s.fg), Some(Color::Cyan));
    let runnable = thing("/d/run", FileType::Regular, 0o700);
    assert_eq!(t.style_of(&runnable, by_extension).map(|s| s.fg), Some(Color::Green));
    let mut chosen = thing("/d/sub", FileType::Directory, 0o755);
    chosen.set_selected(true);
    assert_eq!(t.style_of(&chosen, by_extension).map(|s| s.fg), Some(Color::Yellow));
}

#[test]
fn emphasis_of_falls_back_to_the_style_of_the_extension() {
    let t = theme();
    let by_extension = Some(look(Color::White, Color::Black, Modifier::DIM));
    let mut runnable = thing("/d/run", FileType::Regular, 0o700);
    runnable.set_selected(true);
    assert_eq!(t.emphasis_of(&runnable, by_extension).map(|s| s.modifier), Some(Modifier::DIM));
    assert!(t.emphasis_of(&runnable, None).is_none());
    let dir = thing("/d/sub", FileType::Directory, 0o755);
    assert_eq!(
        t.emphasis_of(&dir, by_extension).map(|s| s.modifier),
        Some(Modifier::BOLD | Modifier::ITALIC)
    );
    let link = thing("/d/l", FileType::Symlink, 0o644);
    assert_eq!(t.emphasis_of(&link, None).map(|s| s.modifier), Some(Modifier::UNDERLINED));
}
