//! Equality and order of entries. Both go by the path alone.

use core::cmp::Ordering;
use vstd::prelude::*;
use vstd::std_specs::cmp::{PartialEqSpec, PartialEqSpecImpl, PartialOrdSpec, PartialOrdSpecImpl};
use vstd::utf8::encode_utf8;
use crate::fs::entry::JoshutoDirEntry;
use crate::path::{
    lemma_bytes_before_total, lemma_bytes_before_transitive, lemma_utf8_injective, path_before,
    path_precedes, same_text,
};

verus! {

/// How path `a` stands to path `b`.
pub open spec fn path_order(a: Seq<char>, b: Seq<char>) -> Ordering {
    if a == b {
        Ordering::Equal
    } else if path_before(a, b) {
        Ordering::Less
    } else {
        Ordering::Greater
    }
}

/// How path `a` stands to path `b`.
pub fn compare_paths(a: &str, b: &str) -> (r: Ordering)
    ensures
        r == path_order(a@, b@),
{
    if same_text(a, b) {
        Ordering::Equal
    } else if path_precedes(a, b) {
        Ordering::Less
    } else {
        Ordering::Greater
    }
}

impl PartialEq for JoshutoDirEntry {
    fn eq(&self, other: &Self) -> (r: bool) {
        same_text(self.file_path(), other.file_path())
    }
}

impl PartialEqSpecImpl for JoshutoDirEntry {
    open spec fn obeys_eq_spec() -> bool {
        true
    }

    open spec fn eq_spec(&self, other: &Self) -> bool {
        self@.path == other@.path
    }
}

impl Eq for JoshutoDirEntry {

}

impl PartialOrd for JoshutoDirEntry {
    fn partial_cmp(&self, other: &Self) -> (r: Option<Ordering>) {
        Some(self.cmp(other))
    }
}

impl PartialOrdSpecImpl for JoshutoDirEntry {
    open spec fn obeys_partial_cmp_spec() -> bool {
        true
    }

    open spec fn partial_cmp_spec(&self, other: &Self) -> Option<Ordering> {
        Some(path_order(self@.path, other@.path))
    }
}

impl JoshutoDirEntry {
    /// How this entry stands to another: as their paths do.
    pub fn cmp(&self, other: &Self) -> (r: Ordering)
        ensures
            r == path_order(self@.path, other@.path),
    {
        compare_paths(self.file_path(), other.file_path())
    }
}

/// Whether `a` equals `b` as entries do.
pub open spec fn entry_equal(a: JoshutoDirEntry, b: JoshutoDirEntry) -> bool {
    PartialEqSpec::eq_spec(&a, &b)
}

/// Whether `a` is less than `b` in the order of entries.
pub open spec fn entry_less(a: JoshutoDirEntry, b: JoshutoDirEntry) -> bool {
    PartialOrdSpec::partial_cmp_spec(&a, &b) == Some(Ordering::Less)
}

/// Of two different paths exactly one comes before the other, and no path
/// comes before itself.
pub proof fn lemma_path_before_total(a: Seq<char>, b: Seq<char>)
    ensures
        a == b ==> !path_before(a, b) && !path_before(b, a),
        a != b ==> (path_before(a, b) <==> !path_before(b, a)),
{
    lemma_bytes_before_total(encode_utf8(a), encode_utf8(b));
    if encode_utf8(a) == encode_utf8(b) {
        lemma_utf8_injective(a, b);
    }
}

/// The order of paths is transitive.
pub proof fn lemma_path_before_transitive(a: Seq<char>, b: Seq<char>, c: Seq<char>)
    requires
        path_before(a, b),
        path_before(b, c),
    ensures
        path_before(a, c),
{
    lemma_bytes_before_transitive(encode_utf8(a), encode_utf8(b), encode_utf8(c));
}

/// The order of entries is a strict total order. Of `a < b`, `a == b` and
/// `b < a` exactly one holds, and `a < b` with `b < c` gives `a < c`.
pub proof fn lemma_entry_order_strict_total(a: JoshutoDirEntry, b: JoshutoDirEntry, c: JoshutoDirEntry)
    ensures
        entry_less(a, b) || entry_equal(a, b) || entry_less(b, a),
        !(entry_less(a, b) && entry_equal(a, b)),
        !(entry_less(a, b) && entry_less(b, a)),
        !(entry_equal(a, b) && entry_less(b, a)),
        entry_less(a, b) && entry_less(b, c) ==> entry_less(a, c),
{
    lemma_path_before_total(a@.path, b@.path);
    if entry_less(a, b) && entry_less(b, c) {
        lemma_path_before_transitive(a@.path, b@.path, c@.path);
    }
}

} // verus!
