//! Icons that decorate the label of an entry.

use vstd::prelude::*;
use crate::fs::metadata::FileType;
use crate::path::{extension, path_extension, same_text};

verus! {

/// One line of an icon table: the name or extension it applies to, and the
/// icon.
pub struct IconRule {
    pub key: String,
    pub icon: String,
}

/// The icon tables. Directories are looked up by name; files by name, then
/// by extension.
pub struct DevIcons {
    pub dir_exact: Vec<IconRule>,
    pub file_exact: Vec<IconRule>,
    pub file_ext: Vec<IconRule>,
    pub default_dir: String,
    pub default_file: String,
}

/// The icon of the first rule for `key`.
pub open spec fn rule_for(rules: Seq<IconRule>, key: Seq<char>) -> Option<Seq<char>>
    decreases rules.len(),
{
    if rules.len() == 0 {
        None
    } else if rules[0].key@ == key {
        Some(rules[0].icon@)
    } else {
        rule_for(rules.drop_first(), key)
    }
}

/// The icon of a file with the extension `ext`: by its name, else by its
/// extension, else the default.
pub open spec fn file_icon(icons: DevIcons, name: Seq<char>, ext: Option<Seq<char>>) -> Seq<char> {
    match rule_for(icons.file_exact@, name) {
        Some(icon) => icon,
        None => match ext {
            Some(ext) => match rule_for(icons.file_ext@, ext) {
                Some(icon) => icon,
                None => icons.default_file@,
            },
            None => icons.default_file@,
        },
    }
}

/// The icon of an entry of the given kind, name and extension. A
/// directory goes by its name alone.
pub open spec fn icon_by(icons: DevIcons, file_type: FileType, name: Seq<char>, ext: Option<Seq<char>>) -> Seq<
    char,
> {
    if file_type == FileType::Directory {
        match rule_for(icons.dir_exact@, name) {
            Some(icon) => icon,
            None => icons.default_dir@,
        }
    } else {
        file_icon(icons, name, ext)
    }
}

/// The icon of an entry of the given kind, name and path.
pub open spec fn icon_of(icons: DevIcons, file_type: FileType, name: Seq<char>, path: Seq<char>) -> Seq<
    char,
> {
    icon_by(icons, file_type, name, path_extension(path))
}

/// The text of an optional string slice.
pub open spec fn slice_text(s: Option<&str>) -> Option<Seq<char>> {
    match s {
        Some(t) => Some(t@),
        None => None,
    }
}

/// The icon of the first rule for `key`, if there is one.
pub fn find_rule<'a>(rules: &'a Vec<IconRule>, key: &str) -> (r: Option<&'a String>)
    ensures
        match r {
            Some(icon) => rule_for(rules@, key@) == Some(icon@),
            None => rule_for(rules@, key@) is None,
        },
{
    let mut i: usize = 0;
    proof {
        assert(rules@.skip(0) =~= rules@);
    }
    while i < rules.len()
        invariant
            i <= rules@.len(),
            rule_for(rules@, key@) == rule_for(rules@.skip(i as int), key@),
        decreases rules@.len() - i,
    {
        proof {
            assert(rules@.skip(i as int).drop_first() =~= rules@.skip(i + 1));
        }
        if same_text(rules[i].key.as_str(), key) {
            return Some(&rules[i].icon);
        }
        i = i + 1;
    }
    None
}

impl DevIcons {
    /// The icon for an entry of the given kind, name and extension.
    pub fn icon_given<'a>(&'a self, file_type: FileType, name: &str, ext: Option<&str>) -> (r: &'a String)
        ensures
            r@ == icon_by(*self, file_type, name@, slice_text(ext)),
    {
        if file_type.is_dir() {
            match find_rule(&self.dir_exact, name) {
                Some(icon) => icon,
                None => &self.default_dir,
            }
        } else {
            match find_rule(&self.file_exact, name) {
                Some(icon) => icon,
                None => match ext {
                    Some(ext) => match find_rule(&self.file_ext, ext) {
                        Some(icon) => icon,
                        None => &self.default_file,
                    },
                    None => &self.default_file,
                },
            }
        }
    }

    /// The icon for an entry of the given kind, name and path.
    pub fn icon_for<'a>(&'a self, file_type: FileType, name: &str, path: &str) -> (r: &'a String)
        ensures
            r@ == icon_of(*self, file_type, name@, path@),
    {
        match extension(path) {
            Some(ext) => self.icon_given(file_type, name, Some(ext.as_str())),
            None => self.icon_given(file_type, name, None),
        }
    }
}

} // verus!
