//! One file system object as a listing shows it.

use vstd::prelude::*;
use vstd::string::*;
use crate::devicons::{icon_of, DevIcons};
use crate::fs::metadata::JoshutoMetadata;

verus! {

/// One file, directory or link of a listing. Its identity is its path:
/// two entries of one path are the same entry, whatever else they hold.
///
/// The path is compared as text. It is to be given in the one form that
/// [`crate::path`] describes: another spelling of the same file is
/// another entry.
#[derive(Clone, Debug)]
pub struct JoshutoDirEntry {
    name: String,
    label: String,
    path: String,
    pub metadata: JoshutoMetadata,
    selected: bool,
    marked: bool,
}

/// What an entry holds, as mathematical values.
pub struct EntryView {
    /// The base name, as the file system has it.
    pub name: Seq<char>,
    /// The name as displayed, with an icon where icons are shown.
    pub label: Seq<char>,
    /// The absolute path.
    pub path: Seq<char>,
    pub metadata: JoshutoMetadata,
    pub selected: bool,
    pub marked: bool,
}

impl View for JoshutoDirEntry {
    type V = EntryView;

    closed spec fn view(&self) -> EntryView {
        EntryView {
            name: self.name@,
            label: self.label@,
            path: self.path@,
            metadata: self.metadata,
            selected: self.selected,
            marked: self.marked,
        }
    }
}

/// A name behind an icon: a blank, the icon, a blank, the name.
pub open spec fn decorated(icon: Seq<char>, name: Seq<char>) -> Seq<char> {
    seq![' '] + icon + seq![' '] + name
}

/// The label of an entry: its name, behind its icon where icons are shown.
pub open spec fn label_of(
    name: Seq<char>,
    path: Seq<char>,
    metadata: JoshutoMetadata,
    show_icons: bool,
    icons: DevIcons,
) -> Seq<char> {
    if show_icons {
        decorated(icon_of(icons, metadata.file_type, name, path), name)
    } else {
        name
    }
}

/// Puts a name behind an icon.
pub fn decorate(icon: &str, name: &str) -> (r: String)
    ensures
        r@ == decorated(icon@, name@),
{
    proof {
        reveal_strlit(" ");
        assert(" "@ =~= seq![' ']);
    }
    let mut text = String::from_str(" ");
    text.append(icon);
    text.append(" ");
    text.append(name);
    text
}

/// The views of a sequence of entries.
pub open spec fn views_of(entries: Seq<JoshutoDirEntry>) -> Seq<EntryView> {
    entries.map_values(|e: JoshutoDirEntry| e@)
}

impl JoshutoDirEntry {
    /// The entry for the object at `path` with base name `name`, as one
    /// `stat` found it. It is neither selected nor marked.
    pub fn from(
        path: String,
        name: String,
        metadata: JoshutoMetadata,
        show_icons: bool,
        icons: &DevIcons,
    ) -> (entry: Self)
        ensures
            entry@ == (EntryView {
                name: name@,
                label: label_of(name@, path@, metadata, show_icons, *icons),
                path: path@,
                metadata,
                selected: false,
                marked: false,
            }),
    {
        let label = if show_icons {
            let icon = icons.icon_for(metadata.file_type, name.as_str(), path.as_str());
            decorate(icon.as_str(), name.as_str())
        } else {
            name.clone()
        };
        Self { name, label, path, metadata, selected: false, marked: false }
    }

    pub fn file_name(&self) -> (r: &str)
        ensures
            r@ == self@.name,
    {
        self.name.as_str()
    }

    pub fn label(&self) -> (r: &str)
        ensures
            r@ == self@.label,
    {
        self.label.as_str()
    }

    pub fn file_path(&self) -> (r: &str)
        ensures
            r@ == self@.path,
    {
        self.path.as_str()
    }

    pub fn metadata(&self) -> (r: JoshutoMetadata)
        ensures
            r == self@.metadata,
    {
        self.metadata
    }

    pub fn is_selected(&self) -> (r: bool)
        ensures
            r == self@.selected,
    {
        self.selected
    }

    pub fn set_selected(&mut self, selected: bool)
        ensures
            final(self)@ == (EntryView { selected, ..old(self)@ }),
    {
        self.selected = selected;
    }

    /// The text that stands for the entry: its name.
    pub fn to_string(&self) -> (r: String)
        ensures
            r@ == self@.name,
    {
        self.name.clone()
    }

    /// The entry as text: its name.
    pub fn as_ref(&self) -> (r: &str)
        ensures
            r@ == self@.name,
    {
        self.file_name()
    }

    /// A copy that holds the same values.
    pub fn duplicate(&self) -> (r: Self)
        ensures
            r@ == self@,
    {
        Self {
            name: self.name.clone(),
            label: self.label.clone(),
            path: self.path.clone(),
            metadata: self.metadata,
            selected: self.selected,
            marked: self.marked,
        }
    }
}

} // verus!
