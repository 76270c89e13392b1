//! How an entry is drawn: the colours and the emphasis that a theme gives
//! to its kind.

use tui::style::{Color, Modifier, Style};
use vstd::prelude::*;
use crate::fs::entry::{EntryView, JoshutoDirEntry};
use crate::fs::metadata::{executable_mode, is_executable, FileType};
use crate::path::{extension, path_extension, same_text};

verus! {

/// `tui::style::Style`, a value that this library hands on and never
/// looks into.
#[verifier::external_type_specification]
#[verifier::external_body]
pub struct ExStyle(tui::style::Style);

/// `tui::style::Color`, a value that this library hands on and never
/// looks into.
#[verifier::external_type_specification]
#[verifier::external_body]
pub struct ExColor(tui::style::Color);

/// `tui::style::Modifier`, a value that this library hands on and never
/// looks into.
#[verifier::external_type_specification]
#[verifier::external_body]
pub struct ExModifier(tui::style::Modifier);

/// What `tui::style::Style::fg` returns.
pub uninterp spec fn style_fg(style: Style, color: Color) -> Style;

/// What `tui::style::Style::bg` returns.
pub uninterp spec fn style_bg(style: Style, color: Color) -> Style;

/// What `tui::style::Style::add_modifier` returns.
pub uninterp spec fn style_add_modifier(style: Style, modifier: Modifier) -> Style;

/// `Style::fg` sets the foreground colour of a style. Trusted: the result
/// depends on the style and the colour alone; [`style_fg`] names it.
pub assume_specification[ tui::style::Style::fg ](style: Style, color: Color) -> (r: Style)
    ensures
        r == style_fg(style, color),
;

/// `Style::bg` sets the background colour of a style. Trusted: the result
/// depends on the style and the colour alone; [`style_bg`] names it.
pub assume_specification[ tui::style::Style::bg ](style: Style, color: Color) -> (r: Style)
    ensures
        r == style_bg(style, color),
;

/// `Style::add_modifier` adds emphasis to a style. Trusted: the result
/// depends on the style and the modifier alone; [`style_add_modifier`]
/// names it.
pub assume_specification[ tui::style::Style::add_modifier ](style: Style, modifier: Modifier) -> (r:
    Style)
    ensures
        r == style_add_modifier(style, modifier),
;

/// The colours and the emphasis of one kind of entry.
#[derive(Clone, Copy)]
pub struct AppStyle {
    pub fg: Color,
    pub bg: Color,
    pub modifier: Modifier,
}

/// The style of the files of one extension.
pub struct ExtStyle {
    pub ext: String,
    pub style: AppStyle,
}

/// A theme: a style for each kind of entry, and for the files of some
/// extensions.
pub struct AppTheme {
    pub selection: AppStyle,
    pub directory: AppStyle,
    pub link: AppStyle,
    pub executable: AppStyle,
    pub ext: Vec<ExtStyle>,
}

/// The style of the first rule for the extension `ext`.
pub open spec fn ext_rule(rules: Seq<ExtStyle>, ext: Seq<char>) -> Option<AppStyle>
    decreases rules.len(),
{
    if rules.len() == 0 {
        None
    } else if rules[0].ext@ == ext {
        Some(rules[0].style)
    } else {
        ext_rule(rules.drop_first(), ext)
    }
}

/// The style that a theme has for the extension of a path.
pub open spec fn ext_style(theme: AppTheme, path: Seq<char>) -> Option<AppStyle> {
    match path_extension(path) {
        Some(ext) => ext_rule(theme.ext@, ext),
        None => None,
    }
}

/// The style that a theme gives an entry whose extension has the style
/// `by_extension`: that of a selected entry, else of a directory, a link,
/// an executable file, else that of its extension.
pub open spec fn themed_by(theme: AppTheme, entry: EntryView, by_extension: Option<AppStyle>) -> Option<
    AppStyle,
> {
    if entry.selected {
        Some(theme.selection)
    } else if entry.metadata.file_type == FileType::Directory {
        Some(theme.directory)
    } else if entry.metadata.file_type == FileType::Symlink {
        Some(theme.link)
    } else if executable_mode(entry.metadata.mode) {
        Some(theme.executable)
    } else {
        by_extension
    }
}

/// The style that a theme gives an entry; none where the theme has
/// nothing for it.
pub open spec fn themed(theme: AppTheme, entry: EntryView) -> Option<AppStyle> {
    themed_by(theme, entry, ext_style(theme, entry.path))
}

/// The style that the emphasis of an entry goes by, where its extension
/// has the style `by_extension`: that of a directory, a link, or else of
/// its extension.
pub open spec fn emphasized_by(theme: AppTheme, entry: EntryView, by_extension: Option<AppStyle>) -> Option<
    AppStyle,
> {
    if entry.metadata.file_type == FileType::Directory {
        Some(theme.directory)
    } else if entry.metadata.file_type == FileType::Symlink {
        Some(theme.link)
    } else {
        by_extension
    }
}

/// The style that the emphasis of an entry goes by.
pub open spec fn emphasized(theme: AppTheme, entry: EntryView) -> Option<AppStyle> {
    emphasized_by(theme, entry, ext_style(theme, entry.path))
}

/// A style of the theme laid over `base`.
pub open spec fn styled(base: Style, style: AppStyle) -> Style {
    style_add_modifier(style_bg(style_fg(base, style.fg), style.bg), style.modifier)
}

/// The style of the first rule for the extension `ext`.
pub fn find_ext(rules: &Vec<ExtStyle>, ext: &str) -> (r: Option<AppStyle>)
    ensures
        r == ext_rule(rules@, ext@),
{
    let mut i: usize = 0;
    proof {
        assert(rules@.skip(0) =~= rules@);
    }
    while i < rules.len()
        invariant
            i <= rules@.len(),
            ext_rule(rules@, ext@) == ext_rule(rules@.skip(i as int), ext@),
        decreases rules@.len() - i,
    {
        proof {
            assert(rules@.skip(i as int).drop_first() =~= rules@.skip(i + 1));
        }
        if same_text(rules[i].ext.as_str(), ext) {
            return Some(rules[i].style);
        }
        i = i + 1;
    }
    None
}

impl AppTheme {
    /// The style that the theme has for the extension of `path`.
    pub fn for_extension(&self, path: &str) -> (r: Option<AppStyle>)
        ensures
            r == ext_style(*self, path@),
    {
        match extension(path) {
            Some(ext) => find_ext(&self.ext, ext.as_str()),
            None => None,
        }
    }

    /// The style of an entry whose extension has the style
    /// `by_extension`.
    pub fn style_of(&self, entry: &JoshutoDirEntry, by_extension: Option<AppStyle>) -> (r: Option<
        AppStyle,
    >)
        ensures
            r == themed_by(*self, entry@, by_extension),
    {
        let metadata = entry.metadata();
        if entry.is_selected() {
            Some(self.selection)
        } else if metadata.file_type.is_dir() {
            Some(self.directory)
        } else if metadata.file_type.is_symlink() {
            Some(self.link)
        } else if is_executable(metadata.mode) {
            Some(self.executable)
        } else {
            by_extension
        }
    }

    /// The style that the emphasis of an entry goes by, where its
    /// extension has the style `by_extension`.
    pub fn emphasis_of(&self, entry: &JoshutoDirEntry, by_extension: Option<AppStyle>) -> (r: Option<
        AppStyle,
    >)
        ensures
            r == emphasized_by(*self, entry@, by_extension),
    {
        let filetype = entry.metadata().file_type;
        if filetype.is_dir() {
            Some(self.directory)
        } else if filetype.is_symlink() {
            Some(self.link)
        } else {
            by_extension
        }
    }
}

impl JoshutoDirEntry {
    /// The emphasis of the entry under a theme; `base` where the theme
    /// has none for it.
    pub fn get_modifier(&self, theme: &AppTheme, base: Modifier) -> (r: Modifier)
        ensures
            r == match emphasized(*theme, self@) {
                Some(style) => style.modifier,
                None => base,
            },
    {
        match theme.emphasis_of(self, theme.for_extension(self.file_path())) {
            Some(style) => style.modifier,
            None => base,
        }
    }

    /// The style of the entry under a theme, laid over `base`; `base`
    /// itself where the theme has nothing for the entry.
    pub fn get_style(&self, theme: &AppTheme, base: Style) -> (r: Style)
        ensures
            r == match themed(*theme, self@) {
                Some(style) => styled(base, style),
                None => base,
            },
    {
        match theme.style_of(self, theme.for_extension(self.file_path())) {
            Some(style) => base.fg(style.fg).bg(style.bg).add_modifier(style.modifier),
            None => base,
        }
    }
}

} // verus!
