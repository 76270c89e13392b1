//! The order in which a listing shows its entries.

use vstd::prelude::*;
use crate::fs::entry::{views_of, EntryView, JoshutoDirEntry};
use crate::fs::metadata::FileType;
use crate::fs::order::{lemma_path_before_total, lemma_path_before_transitive};
use crate::history::{get_index_of_value, holds_path, is_first_index};
use crate::path::{path_before, path_precedes};

verus! {

/// What entries are ordered by. Entries that agree in it go by their paths.
#[derive(Clone, Copy, Debug, PartialEq, Eq, Structural)]
pub enum SortType {
    /// By name. The entries of one directory share their parent, so this is
    /// the order of their paths.
    Name,
    /// By size, smallest first.
    Size,
    /// By time of modification, oldest first.
    Mtime,
}

/// A sort policy: a key, a direction, and whether directories lead.
#[derive(Clone, Copy, Debug, PartialEq, Eq, Structural)]
pub struct SortOption {
    pub directories_first: bool,
    pub reverse: bool,
    pub sort_method: SortType,
}

/// Whether `a` comes before `b` by the key `method`, ties broken by path.
pub open spec fn key_before(method: SortType, a: EntryView, b: EntryView) -> bool {
    match method {
        SortType::Name => path_before(a.path, b.path),
        SortType::Size => a.metadata.len < b.metadata.len || (a.metadata.len == b.metadata.len
            && path_before(a.path, b.path)),
        SortType::Mtime => a.metadata.modified < b.metadata.modified || (a.metadata.modified
            == b.metadata.modified && path_before(a.path, b.path)),
    }
}

/// Whether two entries agree in what a policy looks at besides the path:
/// in its key and, where directories lead, in being a directory.
pub open spec fn agree(opt: SortOption, a: EntryView, b: EntryView) -> bool {
    &&& match opt.sort_method {
        SortType::Name => true,
        SortType::Size => a.metadata.len == b.metadata.len,
        SortType::Mtime => a.metadata.modified == b.metadata.modified,
    }
    &&& opt.directories_first ==> (a.metadata.file_type == FileType::Directory) == (
    b.metadata.file_type == FileType::Directory)
}

impl SortOption {
    /// Whether the policy puts `a` before `b`. Where directories lead, a
    /// directory comes before anything else, whatever the direction; among
    /// directories, and among the rest, the key decides, reversed where the
    /// policy says so.
    pub open spec fn before(self, a: EntryView, b: EntryView) -> bool {
        let a_dir = a.metadata.file_type == FileType::Directory;
        let b_dir = b.metadata.file_type == FileType::Directory;
        if self.directories_first && a_dir != b_dir {
            a_dir
        } else if self.reverse {
            key_before(self.sort_method, b, a)
        } else {
            key_before(self.sort_method, a, b)
        }
    }

    /// Whether the policy puts `a` before `b`.
    pub fn precedes(&self, a: &JoshutoDirEntry, b: &JoshutoDirEntry) -> (r: bool)
        ensures
            r == self.before(a@, b@),
    {
        let a_dir = a.metadata().file_type.is_dir();
        let b_dir = b.metadata().file_type.is_dir();
        if self.directories_first && a_dir != b_dir {
            return a_dir;
        }
        let (x, y) = if self.reverse {
            (b, a)
        } else {
            (a, b)
        };
        match self.sort_method {
            SortType::Name => path_precedes(x.file_path(), y.file_path()),
            SortType::Size => {
                let p = x.metadata().len;
                let q = y.metadata().len;
                p < q || (p == q && path_precedes(x.file_path(), y.file_path()))
            },
            SortType::Mtime => {
                let p = x.metadata().modified;
                let q = y.metadata().modified;
                p < q || (p == q && path_precedes(x.file_path(), y.file_path()))
            },
        }
    }
}

/// No policy puts an entry before itself, nor two entries before each other.
pub proof fn lemma_before_asymmetric(opt: SortOption, a: EntryView, b: EntryView)
    ensures
        !(opt.before(a, b) && opt.before(b, a)),
        !opt.before(a, a),
{
    lemma_path_before_total(a.path, b.path);
    lemma_path_before_total(a.path, a.path);
}

/// Every policy is transitive.
pub proof fn lemma_before_transitive(opt: SortOption, a: EntryView, b: EntryView, c: EntryView)
    requires
        opt.before(a, b),
        opt.before(b, c),
    ensures
        opt.before(a, c),
{
    if path_before(a.path, b.path) && path_before(b.path, c.path) {
        lemma_path_before_transitive(a.path, b.path, c.path);
    }
    if path_before(c.path, b.path) && path_before(b.path, a.path) {
        lemma_path_before_transitive(c.path, b.path, a.path);
    }
}

/// Every policy decides between two entries of different paths.
pub proof fn lemma_before_decides(opt: SortOption, a: EntryView, b: EntryView)
    requires
        a.path != b.path,
    ensures
        opt.before(a, b) || opt.before(b, a),
{
    lemma_path_before_total(a.path, b.path);
}

/// Under every sort policy the order of entries is a strict total order,
/// among entries that agree in what the policy looks at where they agree
/// in their path: of `a < b`, `a == b` and `b < a` exactly one holds, and
/// `a < b` with `b < c` gives `a < c`. Equality is that of entries, by
/// path. Two entries of one path that differ in what the policy looks at
/// are equal and still ordered: [`lemma_policy_orders_stale`].
pub proof fn lemma_policy_strict_total(opt: SortOption, a: EntryView, b: EntryView, c: EntryView)
    requires
        a.path == b.path ==> agree(opt, a, b),
    ensures
        opt.before(a, b) || a.path == b.path || opt.before(b, a),
        !(opt.before(a, b) && a.path == b.path),
        !(opt.before(a, b) && opt.before(b, a)),
        !(a.path == b.path && opt.before(b, a)),
        opt.before(a, b) && opt.before(b, c) ==> opt.before(a, c),
{
    lemma_path_before_total(a.path, b.path);
    if opt.before(a, b) && opt.before(b, c) {
        lemma_before_transitive(opt, a, b, c);
    }
}

/// Of two entries of one path that differ in what a policy looks at, the
/// policy puts one before the other.
pub proof fn lemma_policy_orders_stale(opt: SortOption, a: EntryView, b: EntryView)
    requires
        a.path == b.path,
        !agree(opt, a, b),
    ensures
        opt.before(a, b) || opt.before(b, a),
{
}

/// Whether each entry of `s` comes before all that follow it.
pub open spec fn strictly_sorted(s: Seq<EntryView>, opt: SortOption) -> bool {
    forall|i: int, j: int| 0 <= i < j < s.len() ==> opt.before(#[trigger] s[i], #[trigger] s[j])
}

/// Whether no two entries of `s` have the same path.
pub open spec fn distinct_paths(s: Seq<EntryView>) -> bool {
    forall|i: int, j: int|
        0 <= i < j < s.len() ==> (#[trigger] s[i]).path != (#[trigger] s[j]).path
}

/// Whether `e` is the first entry of `inp` with its path. Of several
/// entries with one path a listing keeps the first.
pub open spec fn kept(inp: Seq<EntryView>, e: EntryView) -> bool {
    exists|k: int| #[trigger] is_first_index(inp, e.path, k) && inp[k] == e
}

/// Whether `out` is `inp` put in order: sorted by the policy, one entry
/// for each path of `inp`, the first that `inp` has of it.
pub open spec fn is_ordering_of(out: Seq<EntryView>, inp: Seq<EntryView>, opt: SortOption) -> bool {
    &&& strictly_sorted(out, opt)
    &&& distinct_paths(out)
    &&& forall|e: EntryView|
        #![trigger out.contains(e)]
        #![trigger kept(inp, e)]
        out.contains(e) <==> kept(inp, e)
}

/// The entries `inp` put in order. One sequence is, by
/// [`lemma_ordered_is_ordering`], and only one, by
/// [`lemma_ordering_unique`].
pub open spec fn ordered(inp: Seq<EntryView>, opt: SortOption) -> Seq<EntryView> {
    choose|out: Seq<EntryView>| is_ordering_of(out, inp, opt)
}

/// Two sorted sequences that hold the same entries are the same sequence.
pub proof fn lemma_sorted_unique(x: Seq<EntryView>, y: Seq<EntryView>, opt: SortOption)
    requires
        strictly_sorted(x, opt),
        strictly_sorted(y, opt),
        forall|e: EntryView| #![trigger x.contains(e)] #![trigger y.contains(e)] x.contains(e) <==> y.contains(e),
    ensures
        x == y,
    decreases x.len(),
{
    if x.len() == 0 {
        if y.len() > 0 {
            assert(y.contains(y[0]));
        }
    } else {
        assert(x.contains(x[0]));
        let k = choose|k: int| 0 <= k < y.len() && y[k] == x[0];
        assert(y.contains(y[0]));
        if k > 0 {
            // y[0] comes before y[k] = x[0], and x[0] is y[0] or before it
            lemma_before_asymmetric(opt, x[0], y[0]);
        }
        let xt = x.drop_first();
        let yt = y.drop_first();
        assert forall|e: EntryView| #![trigger xt.contains(e)] #![trigger yt.contains(e)] xt.contains(e) <==> yt.contains(e) by {
            if xt.contains(e) {
                assert(x.contains(e));
                let n = choose|n: int| 0 <= n < y.len() && y[n] == e;
                if n == 0 {
                    lemma_before_asymmetric(opt, e, e);
                }
                assert(yt[n - 1] == e);
            }
            if yt.contains(e) {
                assert(y.contains(e));
                let n = choose|n: int| 0 <= n < x.len() && x[n] == e;
                if n == 0 {
                    lemma_before_asymmetric(opt, e, e);
                }
                assert(xt[n - 1] == e);
            }
        }
        assert(forall|i: int, j: int| 0 <= i < j < xt.len() ==> opt.before(#[trigger] xt[i], #[trigger] xt[j]));
        assert(forall|i: int, j: int| 0 <= i < j < yt.len() ==> opt.before(#[trigger] yt[i], #[trigger] yt[j]));
        lemma_sorted_unique(xt, yt, opt);
        assert(x =~= seq![x[0]] + xt);
    }
}

/// Only one sequence is `inp` put in order.
pub proof fn lemma_ordering_unique(x: Seq<EntryView>, y: Seq<EntryView>, inp: Seq<EntryView>, opt: SortOption)
    requires
        is_ordering_of(x, inp, opt),
        is_ordering_of(y, inp, opt),
    ensures
        x == y,
{
    assert(forall|e: EntryView| #![trigger x.contains(e)] #![trigger y.contains(e)] x.contains(e) <==> y.contains(e));
    lemma_sorted_unique(x, y, opt);
}

/// A path that occurs in `s` has a first index there.
pub proof fn lemma_first_index_exists(s: Seq<EntryView>, path: Seq<char>, j: int) -> (k: int)
    requires
        0 <= j < s.len(),
        s[j].path == path,
    ensures
        is_first_index(s, path, k),
        k <= j,
    decreases j,
{
    if exists|i: int| 0 <= i < j && (#[trigger] s[i]).path == path {
        let i = choose|i: int| 0 <= i < j && (#[trigger] s[i]).path == path;
        lemma_first_index_exists(s, path, i)
    } else {
        j
    }
}

/// An entry whose path the listing already holds changes nothing.
proof fn lemma_skip(inp: Seq<EntryView>, i: int, out: Seq<EntryView>, opt: SortOption)
    requires
        0 <= i < inp.len(),
        is_ordering_of(out, inp.take(i), opt),
        holds_path(out, inp[i].path),
    ensures
        is_ordering_of(out, inp.take(i + 1), opt),
{
    let a = inp.take(i);
    let b = inp.take(i + 1);
    assert forall|e: EntryView| #![trigger out.contains(e)] #![trigger kept(b, e)] out.contains(e) <==> kept(b, e) by {
        if kept(a, e) {
            let k = choose|k: int| #[trigger] is_first_index(a, e.path, k) && a[k] == e;
            assert(forall|j: int| 0 <= j < k ==> (#[trigger] b[j]).path != e.path);
            assert(is_first_index(b, e.path, k) && b[k] == e);
        }
        if kept(b, e) {
            let k = choose|k: int| #[trigger] is_first_index(b, e.path, k) && b[k] == e;
            if k == i {
                let m = choose|m: int| 0 <= m < out.len() && (#[trigger] out[m]).path == inp[i].path;
                assert(out.contains(out[m]));
            }
            assert(forall|j: int| 0 <= j < k ==> (#[trigger] a[j]).path != e.path);
            assert(is_first_index(a, e.path, k) && a[k] == e);
        }
    }
}

/// An entry of a new path, put where the order wants it, extends the
/// listing by itself.
proof fn lemma_place(
    inp: Seq<EntryView>,
    i: int,
    out: Seq<EntryView>,
    pos: int,
    grown: Seq<EntryView>,
    opt: SortOption,
)
    requires
        0 <= i < inp.len(),
        is_ordering_of(out, inp.take(i), opt),
        !holds_path(out, inp[i].path),
        0 <= pos <= out.len(),
        forall|j: int| 0 <= j < pos ==> !opt.before(inp[i], #[trigger] out[j]),
        pos < out.len() ==> opt.before(inp[i], out[pos]),
        grown == out.insert(pos, inp[i]),
    ensures
        is_ordering_of(grown, inp.take(i + 1), opt),
{
    let a = inp.take(i);
    let b = inp.take(i + 1);
    let e = inp[i];
    assert(grown[pos] == e);
    assert forall|x: int, y: int| 0 <= x < y < grown.len() implies opt.before(#[trigger] grown[x], #[trigger] grown[y]) by {
        if y == pos {
            lemma_before_decides(opt, out[x], e);
        } else if x == pos {
            if y - 1 > pos {
                lemma_before_transitive(opt, e, out[pos], out[y - 1]);
            }
        }
    }
    assert(forall|x: int, y: int| 0 <= x < y < grown.len() ==> (#[trigger] grown[x]).path != (#[trigger] grown[y]).path);
    assert forall|j: int| 0 <= j < i implies (#[trigger] b[j]).path != e.path by {
        if b[j].path == e.path {
            let k = lemma_first_index_exists(a, e.path, j);
            assert(kept(a, a[k]));
        }
    }
    assert(is_first_index(b, e.path, i) && b[i] == e);
    assert forall|v: EntryView| #![trigger grown.contains(v)] #![trigger kept(b, v)] grown.contains(v) <==> kept(b, v) by {
        assert(out.contains(v) <==> kept(a, v));
        if grown.contains(v) {
            let j = choose|j: int| 0 <= j < grown.len() && grown[j] == v;
            if j != pos {
                let k = choose|k: int| #[trigger] is_first_index(a, v.path, k) && a[k] == v;
                assert(forall|q: int| 0 <= q < k ==> (#[trigger] b[q]).path != v.path);
                assert(is_first_index(b, v.path, k) && b[k] == v);
            }
        }
        if kept(b, v) {
            let k = choose|k: int| #[trigger] is_first_index(b, v.path, k) && b[k] == v;
            if k != i {
                assert(forall|q: int| 0 <= q < k ==> (#[trigger] a[q]).path != v.path);
                assert(is_first_index(a, v.path, k) && a[k] == v);
                let m = choose|m: int| 0 <= m < out.len() && out[m] == v;
                let m1 = if m < pos { m } else { m + 1 };
                assert(grown[m1] == v);
            }
        }
    }
}

/// The place for `e` in `out`: the first index from `n` on whose entry the
/// policy puts after `e`, or the length of `out`.
proof fn lemma_insertion_point(out: Seq<EntryView>, e: EntryView, opt: SortOption, n: int) -> (pos:
    int)
    requires
        0 <= n <= out.len(),
        forall|j: int| 0 <= j < n ==> !opt.before(e, #[trigger] out[j]),
    ensures
        n <= pos <= out.len(),
        forall|j: int| 0 <= j < pos ==> !opt.before(e, #[trigger] out[j]),
        pos < out.len() ==> opt.before(e, out[pos]),
    decreases out.len() - n,
{
    if n == out.len() || opt.before(e, out[n]) {
        n
    } else {
        lemma_insertion_point(out, e, opt, n + 1)
    }
}

/// Every sequence of entries can be put in order, and [`ordered`] is that
/// order.
pub proof fn lemma_ordered_is_ordering(inp: Seq<EntryView>, opt: SortOption)
    ensures
        is_ordering_of(ordered(inp, opt), inp, opt),
    decreases inp.len(),
{
    if inp.len() == 0 {
        let out = Seq::<EntryView>::empty();
        assert(forall|e: EntryView| !kept(inp, e));
        assert(is_ordering_of(out, inp, opt));
    } else {
        let i = inp.len() - 1;
        let prev = ordered(inp.take(i), opt);
        lemma_ordered_is_ordering(inp.take(i), opt);
        assert(inp.take(i + 1) =~= inp);
        if holds_path(prev, inp[i].path) {
            lemma_skip(inp, i, prev, opt);
        } else {
            let pos = lemma_insertion_point(prev, inp[i], opt, 0);
            let grown = prev.insert(pos, inp[i]);
            lemma_place(inp, i, prev, pos, grown, opt);
        }
    }
}

/// The first index of `acc` whose entry the policy puts after `entry`, or
/// the length of `acc` where it puts none after.
fn insertion_point(acc: &Vec<JoshutoDirEntry>, entry: &JoshutoDirEntry, opt: &SortOption) -> (pos:
    usize)
    ensures
        pos <= acc@.len(),
        forall|j: int| 0 <= j < pos ==> !opt.before(entry@, #[trigger] views_of(acc@)[j]),
        pos < acc@.len() ==> opt.before(entry@, views_of(acc@)[pos as int]),
{
    let mut pos: usize = 0;
    while pos < acc.len()
        invariant
            pos <= acc@.len(),
            forall|j: int| 0 <= j < pos ==> !opt.before(entry@, #[trigger] views_of(acc@)[j]),
        decreases acc@.len() - pos,
    {
        if opt.precedes(entry, &acc[pos]) {
            return pos;
        }
        pos = pos + 1;
    }
    pos
}

/// Puts the children of a directory in the order of a policy. Of several
/// children with one path the first stays.
pub fn sort_entries(children: &Vec<JoshutoDirEntry>, opt: &SortOption) -> (r: Vec<JoshutoDirEntry>)
    ensures
        is_ordering_of(views_of(r@), views_of(children@), *opt),
        views_of(r@) == ordered(views_of(children@), *opt),
{
    let mut acc: Vec<JoshutoDirEntry> = Vec::new();
    let mut i: usize = 0;
    let ghost inp = views_of(children@);
    proof {
        assert(forall|e: EntryView| !kept(inp.take(0), e));
    }
    while i < children.len()
        invariant
            i <= children@.len(),
            inp == views_of(children@),
            is_ordering_of(views_of(acc@), inp.take(i as int), *opt),
        decreases children@.len() - i,
    {
        let child = &children[i];
        match get_index_of_value(&acc, child.file_path()) {
            Some(_) => {
                proof {
                    lemma_skip(inp, i as int, views_of(acc@), *opt);
                }
            },
            None => {
                let pos = insertion_point(&acc, child, opt);
                let entry = child.duplicate();
                proof {
                    let out = views_of(acc@);
                    let grown = views_of(acc@.insert(pos as int, entry));
                    assert(grown =~= out.insert(pos as int, inp[i as int]));
                    lemma_place(inp, i as int, out, pos as int, grown, *opt);
                }
                acc.insert(pos, entry);
            },
        }
        i = i + 1;
    }
    proof {
        assert(inp.take(i as int) =~= inp);
        lemma_ordering_unique(views_of(acc@), ordered(inp, *opt), inp, *opt);
    }
    acc
}

} // verus!
