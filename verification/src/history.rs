//! The cache of directory listings, keyed by path.

use vstd::prelude::*;
use crate::fs::dirlist::{modified_in, modified_of, read_view, DirListView, DirSnapshot, JoshutoDirList, SnapshotView};
use crate::fs::entry::{views_of, EntryView, JoshutoDirEntry};
use crate::fs::metadata::FsError;
use crate::path::{
    ancestors, ancestors_of, lemma_ancestors_shrink, lemma_ancestors_step, parent_path, same_text,
    texts_of,
};
use crate::sort::{is_ordering_of, lemma_first_index_exists, lemma_ordered_is_ordering, SortOption};

verus! {

/// Whether some entry of `s` has the path `path`.
pub open spec fn holds_path(s: Seq<EntryView>, path: Seq<char>) -> bool {
    exists|i: int| 0 <= i < s.len() && (#[trigger] s[i]).path == path
}

/// Whether `i` is the first index of `s` whose entry has the path `path`.
pub open spec fn is_first_index(s: Seq<EntryView>, path: Seq<char>, i: int) -> bool {
    &&& 0 <= i < s.len()
    &&& s[i].path == path
    &&& forall|j: int| 0 <= j < i ==> (#[trigger] s[j]).path != path
}

/// The first index of `s` whose entry has the path `path`, if there is one.
pub open spec fn index_of_path(s: Seq<EntryView>, path: Seq<char>) -> Option<int> {
    if holds_path(s, path) {
        Some(choose|i: int| is_first_index(s, path, i))
    } else {
        None
    }
}

/// The index of an `Option<usize>` as a mathematical integer.
pub open spec fn index_view(i: Option<usize>) -> Option<int> {
    match i {
        Some(i) => Some(i as int),
        None => None,
    }
}

/// The first index of `arr` whose entry has the path `val`.
pub fn get_index_of_value(arr: &Vec<JoshutoDirEntry>, val: &str) -> (r: Option<usize>)
    ensures
        index_view(r) == index_of_path(views_of(arr@), val@),
        r matches Some(i) ==> is_first_index(views_of(arr@), val@, i as int),
        r is None ==> !holds_path(views_of(arr@), val@),
{
    let mut i: usize = 0;
    while i < arr.len()
        invariant
            i <= arr@.len(),
            forall|j: int| 0 <= j < i ==> (#[trigger] views_of(arr@)[j]).path != val@,
        decreases arr@.len() - i,
    {
        if same_text(arr[i].file_path(), val) {
            proof {
                let s = views_of(arr@);
                assert(is_first_index(s, val@, i as int));
            }
            return Some(i);
        }
        i = i + 1;
    }
    None
}

/// The cache as a mathematical map, from the path of a directory to its
/// listing.
pub type Cache = Map<Seq<char>, DirListView>;

/// The invariant of a cache: each listing is kept under its own path and
/// is well formed.
pub open spec fn cache_wf(m: Cache) -> bool {
    forall|p: Seq<char>| m.contains_key(p) ==> (#[trigger] m[p]).path == p && m[p].wf()
}

/// The cache with the listing of `path` marked stale, if it has one.
pub open spec fn depreciated_at(m: Cache, path: Seq<char>) -> Cache {
    if m.contains_key(path) {
        m.insert(path, m[path].depreciated())
    } else {
        m
    }
}

/// The cache with every listing marked stale.
pub open spec fn all_depreciated(m: Cache) -> Cache {
    Map::new(|p: Seq<char>| m.contains_key(p), |p: Seq<char>| m[p].depreciated())
}

/// The cache with the listing of each of `paths` marked stale.
pub open spec fn invalidated(m: Cache, paths: Seq<Seq<char>>) -> Cache {
    Map::new(
        |p: Seq<char>| m.contains_key(p),
        |p: Seq<char>|
            if paths.contains(p) {
                m[p].depreciated()
            } else {
                m[p]
            },
    )
}

/// The cache with the cursor of the listing of `dir` on the entry of
/// `child`, where there are such a listing and such an entry.
pub open spec fn pointed(m: Cache, dir: Seq<char>, child: Seq<char>) -> Cache {
    if m.contains_key(dir) {
        m.insert(dir, m[dir].pointed_at(child))
    } else {
        m
    }
}

/// Whether a soft update of `path` reads the directory: it does where the
/// path is not cached, and where its listing wants an update.
pub open spec fn wants_read(m: Cache, path: Seq<char>, current_modified: Option<u64>) -> bool {
    !m.contains_key(path) || m[path].need_update(current_modified)
}

/// The cache after a soft update of `path` from one read. A new path is
/// listed; a cached one is reloaded where its listing wants an update, and
/// left alone where it does not. A failed read changes nothing: a listing
/// that is stale and cannot be read stays, stale as it is.
pub open spec fn soft_updated(
    m: Cache,
    path: Seq<char>,
    read: Result<SnapshotView, FsError>,
    opt: SortOption,
) -> Cache {
    match read {
        Ok(snapshot) => if !m.contains_key(path) {
            m.insert(path, DirListView::listed(path, snapshot, opt))
        } else if m[path].need_update(modified_in(read)) {
            m.insert(path, m[path].reloaded(snapshot, opt))
        } else {
            m
        },
        Err(_) => m,
    }
}

/// What a soft update returns: the failure of the read where the path
/// was new and so could not be listed, success otherwise.
pub open spec fn soft_update_result(m: Cache, path: Seq<char>, read: Result<SnapshotView, FsError>) -> Result<
    (),
    FsError,
> {
    match read {
        Err(e) if !m.contains_key(path) => Err(e),
        _ => Ok(()),
    }
}

/// The cache after a forced reload of `path` from one read. A cached path
/// is reloaded, or dropped where the read failed; a new path is left out.
pub open spec fn reloaded(
    m: Cache,
    path: Seq<char>,
    read: Result<SnapshotView, FsError>,
    opt: SortOption,
) -> Cache {
    if m.contains_key(path) {
        match read {
            Ok(snapshot) => m.insert(path, m[path].reloaded(snapshot, opt)),
            Err(_) => m.remove(path),
        }
    } else {
        m
    }
}

/// The cache after `path` was listed or, where it was cached, reloaded by
/// force. A failed read drops a cached path and leaves a new one out.
pub open spec fn created_or_reloaded(
    m: Cache,
    path: Seq<char>,
    read: Result<SnapshotView, FsError>,
    opt: SortOption,
) -> Cache {
    if m.contains_key(path) {
        reloaded(m, path, read, opt)
    } else {
        match read {
            Ok(snapshot) => m.insert(path, DirListView::listed(path, snapshot, opt)),
            Err(_) => m,
        }
    }
}

/// What listing or reloading `path` returns: the failure of the read
/// where the path was new, success otherwise.
pub open spec fn create_or_reload_result(m: Cache, path: Seq<char>, read: Result<SnapshotView, FsError>) -> Result<
    (),
    FsError,
> {
    match read {
        Err(e) if !m.contains_key(path) => Err(e),
        _ => Ok(()),
    }
}

/// The views of a list of listings.
spec fn lists_view(s: Seq<JoshutoDirList>) -> Seq<DirListView> {
    s.map_values(|l: JoshutoDirList| l@)
}

/// Whether no two listings of `s` are of the same path.
spec fn keyed_once(s: Seq<DirListView>) -> bool {
    forall|i: int, j: int| 0 <= i < j < s.len() ==> (#[trigger] s[i]).path != (#[trigger] s[j]).path
}

/// Whether `s` has a listing of `path`.
spec fn has_key(s: Seq<DirListView>, path: Seq<char>) -> bool {
    exists|i: int| 0 <= i < s.len() && (#[trigger] s[i]).path == path
}

/// Whether every listing of `s` is well formed.
spec fn all_wf(s: Seq<DirListView>) -> bool {
    forall|i: int| 0 <= i < s.len() ==> (#[trigger] s[i]).wf()
}

/// The map that a list of listings stands for.
spec fn map_of(s: Seq<DirListView>) -> Cache {
    Map::new(
        |p: Seq<char>| has_key(s, p),
        |p: Seq<char>| s[choose|i: int| 0 <= i < s.len() && (#[trigger] s[i]).path == p],
    )
}

proof fn lemma_push(s: Seq<DirListView>, l: DirListView)
    requires
        keyed_once(s),
        !has_key(s, l.path),
    ensures
        keyed_once(s.push(l)),
        map_of(s.push(l)) == map_of(s).insert(l.path, l),
{
    let t = s.push(l);
    assert(forall|i: int, j: int| 0 <= i < j < t.len() ==> (#[trigger] t[i]).path != (#[trigger] t[j]).path);
    assert forall|p: Seq<char>| has_key(t, p) <==> (p == l.path || has_key(s, p)) by {
        if has_key(s, p) {
            let c = choose|c: int| 0 <= c < s.len() && (#[trigger] s[c]).path == p;
            assert(t[c].path == p);
        }
        if p == l.path {
            assert(t[s.len() as int].path == p);
        }
    }
    assert forall|p: Seq<char>| has_key(t, p) implies map_of(t)[p] == map_of(s).insert(l.path, l)[p] by {
        let c = choose|c: int| 0 <= c < t.len() && (#[trigger] t[c]).path == p;
        assert(map_of(t)[p] == t[c]);
    }
}

proof fn lemma_update(s: Seq<DirListView>, i: int, l: DirListView)
    requires
        keyed_once(s),
        0 <= i < s.len(),
        l.path == s[i].path,
    ensures
        keyed_once(s.update(i, l)),
        map_of(s.update(i, l)) == map_of(s).insert(l.path, l),
{
    let t = s.update(i, l);
    assert(forall|x: int, y: int| 0 <= x < y < t.len() ==> (#[trigger] t[x]).path != (#[trigger] t[y]).path);
    assert forall|p: Seq<char>| has_key(t, p) <==> has_key(s, p) by {
        if has_key(s, p) {
            let c = choose|c: int| 0 <= c < s.len() && (#[trigger] s[c]).path == p;
            assert(t[c].path == p);
        }
    }
    assert(forall|p: Seq<char>| has_key(t, p) ==> map_of(t)[p] == map_of(s).insert(l.path, l)[p]);
}

proof fn lemma_remove(s: Seq<DirListView>, i: int)
    requires
        keyed_once(s),
        0 <= i < s.len(),
    ensures
        keyed_once(s.remove(i)),
        map_of(s.remove(i)) == map_of(s).remove(s[i].path),
{
    let t = s.remove(i);
    assert(forall|x: int, y: int| 0 <= x < y < t.len() ==> (#[trigger] t[x]).path != (#[trigger] t[y]).path);
    assert forall|p: Seq<char>| has_key(t, p) <==> (has_key(s, p) && p != s[i].path) by {
        if has_key(s, p) && p != s[i].path {
            let c = choose|c: int| 0 <= c < s.len() && (#[trigger] s[c]).path == p;
            let c1 = if c < i { c } else { c - 1 };
            assert(t[c1].path == p);
        }
    }
    assert(forall|p: Seq<char>| has_key(t, p) ==> map_of(t)[p] == map_of(s).remove(s[i].path)[p]);
}

proof fn lemma_all_depreciated(s: Seq<DirListView>, t: Seq<DirListView>)
    requires
        keyed_once(s),
        t.len() == s.len(),
        forall|i: int| 0 <= i < s.len() ==> #[trigger] t[i] == s[i].depreciated(),
    ensures
        keyed_once(t),
        map_of(t) == all_depreciated(map_of(s)),
{
    assert(forall|x: int, y: int| 0 <= x < y < t.len() ==> (#[trigger] t[x]).path != (#[trigger] t[y]).path);
    assert forall|p: Seq<char>| has_key(t, p) <==> has_key(s, p) by {
        if has_key(s, p) {
            let c = choose|c: int| 0 <= c < s.len() && (#[trigger] s[c]).path == p;
            assert(t[c].path == p);
        }
    }
    assert(forall|p: Seq<char>| has_key(t, p) ==> map_of(t)[p] == all_depreciated(map_of(s))[p]);
}

/// The index of the listing of `path`.
fn position(listings: &Vec<JoshutoDirList>, path: &str) -> (r: Option<usize>)
    ensures
        r matches Some(i) ==> i < listings@.len() && lists_view(listings@)[i as int].path == path@,
        r is None ==> !has_key(lists_view(listings@), path@),
{
    let mut i: usize = 0;
    while i < listings.len()
        invariant
            i <= listings@.len(),
            forall|j: int| 0 <= j < i ==> (#[trigger] lists_view(listings@)[j]).path != path@,
        decreases listings@.len() - i,
    {
        if same_text(listings[i].file_path(), path) {
            return Some(i);
        }
        i = i + 1;
    }
    None
}

/// Reloads the listing at `i` by force from one read, and drops it where
/// the read failed.
fn reload_or_drop(
    listings: &mut Vec<JoshutoDirList>,
    i: usize,
    read: &Result<DirSnapshot, FsError>,
    sort_option: &SortOption,
)
    requires
        i < old(listings)@.len(),
        keyed_once(lists_view(old(listings)@)),
        all_wf(lists_view(old(listings)@)),
    ensures
        keyed_once(lists_view(final(listings)@)),
        all_wf(lists_view(final(listings)@)),
        map_of(lists_view(final(listings)@)) == reloaded(
            map_of(lists_view(old(listings)@)),
            lists_view(old(listings)@)[i as int].path,
            read_view(*read),
            *sort_option,
        ),
        read_view(*read) matches Ok(snapshot) ==> is_ordering_of(
            map_of(lists_view(final(listings)@))[lists_view(old(listings)@)[i as int].path].contents,
            snapshot.entries,
            *sort_option,
        ),
{
    let ghost before = lists_view(listings@);
    let r = listings[i].reload_contents(read, sort_option);
    proof {
        let after = lists_view(listings@);
        assert(after =~= before.update(i as int, listings@[i as int]@));
        lemma_update(before, i as int, listings@[i as int]@);
    }
    if r.is_err() {
        proof {
            lemma_remove(before, i as int);
            assert(lists_view(listings@.remove(i as int)) =~= before.remove(i as int));
        }
        listings.remove(i);
    }
}

/// The cache of directory listings. It has no bound; a listing leaves it
/// only when a forced reload of it fails.
///
/// The key of a listing is the path of its directory, compared as text.
/// Every path is to be given in the one form that [`crate::path`]
/// describes: another spelling of the same directory is another key. The
/// listings are kept in a list and found by a search through it.
pub struct JoshutoHistory {
    listings: Vec<JoshutoDirList>,
}

impl View for JoshutoHistory {
    type V = Cache;

    closed spec fn view(&self) -> Cache {
        map_of(lists_view(self.listings@))
    }
}

impl JoshutoHistory {
    #[verifier::type_invariant]
    spec fn inv(&self) -> bool {
        keyed_once(lists_view(self.listings@)) && all_wf(lists_view(self.listings@))
    }

    /// An empty cache.
    pub fn new() -> (r: Self)
        ensures
            r@ == Map::<Seq<char>, DirListView>::empty(),
    {
        JoshutoHistory { listings: Vec::new() }
    }

    /// The number of listings.
    pub fn len(&self) -> (r: usize)
        ensures
            self@.dom().finite(),
            r == self@.dom().len(),
    {
        proof {
            use_type_invariant(self);
            lemma_len(lists_view(self.listings@));
        }
        self.listings.len()
    }

    /// The listing of `path`, if it is cached.
    pub fn get(&self, path: &str) -> (r: Option<&JoshutoDirList>)
        ensures
            cache_wf(self@),
            match r {
                Some(list) => self@.contains_key(path@) && self@[path@] == list@,
                None => !self@.contains_key(path@),
            },
    {
        proof {
            use_type_invariant(self);
        }
        match position(&self.listings, path) {
            Some(i) => {
                Some(&self.listings[i])
            },
            None => None,
        }
    }

    /// Whether `path` is cached.
    pub fn contains(&self, path: &str) -> (r: bool)
        ensures
            r == self@.contains_key(path@),
    {
        self.get(path).is_some()
    }

    /// Whether a soft update of `path` needs the directory read, given its
    /// current modification time where the caller could learn it.
    pub fn needs_read(&self, path: &str, current_modified: Option<u64>) -> (r: bool)
        ensures
            r == wants_read(self@, path@, current_modified),
    {
        match self.get(path) {
            Some(list) => list.need_update(current_modified),
            None => true,
        }
    }
}

/// What the reads of a walk gave, as mathematical values.
pub open spec fn reads_view(reads: Seq<Result<DirSnapshot, FsError>>) -> Seq<Result<SnapshotView, FsError>> {
    reads.map_values(|r: Result<DirSnapshot, FsError>| read_view(r))
}

/// The read of the `i`-th directory of a walk. A directory of which no
/// read is supplied counts as not found.
pub open spec fn read_at(reads: Seq<Result<SnapshotView, FsError>>, i: int) -> Result<SnapshotView, FsError> {
    if 0 <= i < reads.len() {
        reads[i]
    } else {
        Err(FsError::NotFound)
    }
}

/// How a walk ended: the cache it left, and what it returns.
pub struct Walk {
    pub cache: Cache,
    pub result: Result<(), FsError>,
}

/// The first of two results that is a failure; success where neither is.
pub open spec fn first_failure(a: Result<(), FsError>, b: Result<(), FsError>) -> Result<(), FsError> {
    match a {
        Err(e) => Err(e),
        Ok(_) => b,
    }
}

/// The walk over `chain` from its `i`-th path on. Each path is soft
/// updated from its read; then the cursor of its listing, where it has
/// one, is put on the path before it in the chain, the child through
/// which the walk came. A path that cannot be listed does not end the
/// walk: the paths after it are walked all the same, and the walk returns
/// the first failure that it met.
pub open spec fn populated(
    m: Cache,
    chain: Seq<Seq<char>>,
    reads: Seq<Result<SnapshotView, FsError>>,
    opt: SortOption,
    i: int,
) -> Walk
    decreases chain.len() - i,
{
    if i < 0 || i >= chain.len() {
        Walk { cache: m, result: Ok(()) }
    } else {
        let read = read_at(reads, i);
        let updated = soft_updated(m, chain[i], read, opt);
        let rest = populated(
            if i > 0 {
                pointed(updated, chain[i], chain[i - 1])
            } else {
                updated
            },
            chain,
            reads,
            opt,
            i + 1,
        );
        Walk {
            cache: rest.cache,
            result: first_failure(soft_update_result(m, chain[i], read), rest.result),
        }
    }
}

/// Whether a walk leaves the listing of `path` unread: the read failed,
/// and the path is not cached or its listing is stale.
pub open spec fn left_unread(m: Cache, path: Seq<char>, read: Result<SnapshotView, FsError>) -> bool {
    read is Err && (!m.contains_key(path) || m[path].outdated)
}

/// The operations of a cache of directory listings. Each takes what a
/// read of the directory gave; none reads by itself.
pub trait DirectoryHistory {
    /// The cache as a mathematical map.
    spec fn cache(&self) -> Cache;

    /// Walks from `path` to the root. `reads` holds one read for each
    /// ancestor, that of `path` itself first. A failure at one ancestor
    /// does not keep the walk from those beyond it; the first failure met
    /// is returned. Each ancestor that was read, or was cached and fresh,
    /// has a fresh listing afterwards, with the cursor on the child through
    /// which the walk came wherever the listing holds that child.
    fn populate_to_root(
        &mut self,
        path: &str,
        sort_option: &SortOption,
        reads: &Vec<Result<DirSnapshot, FsError>>,
    ) -> (r: Result<(), FsError>)
        ensures
            final(self).cache() == populated(
                old(self).cache(),
                ancestors_of(path@),
                reads_view(reads@),
                *sort_option,
                0,
            ).cache,
            r == populated(
                old(self).cache(),
                ancestors_of(path@),
                reads_view(reads@),
                *sort_option,
                0,
            ).result,
            cache_wf(final(self).cache()),
            forall|k: int|
                0 <= k < ancestors_of(path@).len() && !left_unread(
                    old(self).cache(),
                    ancestors_of(path@)[k],
                    read_at(reads_view(reads@), k),
                ) ==> #[trigger] settled(final(self).cache(), ancestors_of(path@), k),
    ;

    /// Lists `path` if it is new; reloads it if its listing wants an
    /// update; else leaves it alone. Only a new path that cannot be read
    /// is a failure: a listing that wants an update and cannot be read is
    /// left as it is.
    fn create_or_soft_update(
        &mut self,
        path: &str,
        sort_option: &SortOption,
        read: &Result<DirSnapshot, FsError>,
    ) -> (r: Result<(), FsError>)
        ensures
            final(self).cache() == soft_updated(
                old(self).cache(),
                path@,
                read_view(*read),
                *sort_option,
            ),
            r == soft_update_result(old(self).cache(), path@, read_view(*read)),
            cache_wf(final(self).cache()),
    ;

    /// Lists `path` if it is new; else reloads it by force, and drops it
    /// where the read failed. After a read that succeeded the cache holds a
    /// fresh listing of `path` with exactly the children that were read.
    fn create_or_reload(
        &mut self,
        path: &str,
        sort_option: &SortOption,
        read: &Result<DirSnapshot, FsError>,
    ) -> (r: Result<(), FsError>)
        ensures
            final(self).cache() == created_or_reloaded(
                old(self).cache(),
                path@,
                read_view(*read),
                *sort_option,
            ),
            r == create_or_reload_result(old(self).cache(), path@, read_view(*read)),
            cache_wf(final(self).cache()),
            read_view(*read) matches Ok(snapshot) ==> {
                &&& r is Ok
                &&& final(self).cache().contains_key(path@)
                &&& !final(self).cache()[path@].outdated
                &&& is_ordering_of(
                    final(self).cache()[path@].contents,
                    snapshot.entries,
                    *sort_option,
                )
            },
    ;

    /// Reloads `path` by force if it is cached, and drops it where the
    /// read failed. Does nothing to a path that is not cached. After a
    /// read that succeeded a cached path has a fresh listing with exactly
    /// the children that were read.
    fn reload(&mut self, path: &str, sort_option: &SortOption, read: &Result<DirSnapshot, FsError>) -> (r:
        Result<(), FsError>)
        ensures
            final(self).cache() == reloaded(
                old(self).cache(),
                path@,
                read_view(*read),
                *sort_option,
            ),
            r is Ok,
            cache_wf(final(self).cache()),
            old(self).cache().contains_key(path@) ==> (read_view(*read) matches Ok(snapshot) ==> {
                &&& final(self).cache().contains_key(path@)
                &&& !final(self).cache()[path@].outdated
                &&& is_ordering_of(
                    final(self).cache()[path@].contents,
                    snapshot.entries,
                    *sort_option,
                )
            }),
    ;

    /// Marks every listing stale.
    fn depreciate_all_entries(&mut self)
        ensures
            final(self).cache() == all_depreciated(old(self).cache()),
            cache_wf(final(self).cache()),
    ;

    /// Marks the listing of `path` stale, if there is one.
    fn depreciate_entry(&mut self, path: &str)
        ensures
            final(self).cache() == depreciated_at(old(self).cache(), path@),
            cache_wf(final(self).cache()),
    ;
}

impl JoshutoHistory {
    /// Hands out the listings and leaves the cache empty.
    fn take(&mut self) -> (listings: Vec<JoshutoDirList>)
        ensures
            map_of(lists_view(listings@)) == old(self)@,
            keyed_once(lists_view(listings@)),
            all_wf(lists_view(listings@)),
    {
        proof {
            use_type_invariant(&*self);
        }
        let mut this = JoshutoHistory { listings: Vec::new() };
        core::mem::swap(self, &mut this);
        let JoshutoHistory { listings } = this;
        listings
    }

    /// Takes the listings back.
    fn put(&mut self, listings: Vec<JoshutoDirList>)
        requires
            keyed_once(lists_view(listings@)),
            all_wf(lists_view(listings@)),
        ensures
            final(self)@ == map_of(lists_view(listings@)),
            cache_wf(final(self)@),
    {
        *self = JoshutoHistory { listings };
    }

    /// Takes the listing of `path` out of the cache, if it is there.
    pub fn remove(&mut self, path: &str) -> (r: Option<JoshutoDirList>)
        ensures
            final(self)@ == old(self)@.remove(path@),
            cache_wf(final(self)@),
            match r {
                Some(list) => old(self)@.contains_key(path@) && old(self)@[path@] == list@,
                None => !old(self)@.contains_key(path@),
            },
    {
        let mut listings = self.take();
        let ghost before = lists_view(listings@);
        let found = match position(&listings, path) {
            Some(i) => {
                proof {
                    lemma_remove(before, i as int);
                    assert(lists_view(listings@.remove(i as int)) =~= before.remove(i as int));
                }
                Some(listings.remove(i))
            },
            None => None,
        };
        self.put(listings);
        found
    }

    /// Puts a listing into the cache under its own path, and hands back
    /// the listing that was there.
    pub fn insert(&mut self, list: JoshutoDirList) -> (r: Option<JoshutoDirList>)
        ensures
            final(self)@ == old(self)@.insert(list@.path, list@),
            cache_wf(final(self)@),
            match r {
                Some(prev) => old(self)@.contains_key(list@.path) && old(self)@[list@.path] == prev@,
                None => !old(self)@.contains_key(list@.path),
            },
    {
        let previous = self.remove(list.file_path());
        let mut listings = self.take();
        proof {
            let before = lists_view(listings@);
            assert(map_of(before).contains_key(list@.path) == has_key(before, list@.path));
            lemma_push(before, list@);
            assert(lists_view(listings@.push(list)) =~= before.push(list@));
            assert(old(self)@.remove(list@.path).insert(list@.path, list@) =~= old(self)@.insert(
                list@.path,
                list@,
            ));
        }
        listings.push(list);
        self.put(listings);
        previous
    }

    /// Marks the listing of each of `paths` stale, as far as it is
    /// cached: what a paste or a delete may have changed is read anew when
    /// it is next shown.
    pub fn depreciate_entries(&mut self, paths: &Vec<String>)
        ensures
            final(self)@ == invalidated(old(self)@, texts_of(paths@)),
            cache_wf(final(self)@),
    {
        let ghost start = self@;
        let ghost all = texts_of(paths@);
        let mut i: usize = 0;
        proof {
            use_type_invariant(&*self);
        }
        while i < paths.len()
            invariant
                i <= paths@.len(),
                all == texts_of(paths@),
                cache_wf(self@),
                self@ == invalidated(start, all.take(i as int)),
            decreases paths@.len() - i,
        {
            self.depreciate_entry(paths[i].as_str());
            proof {
                let a = all.take(i as int);
                let b = all.take(i + 1);
                assert forall|p: Seq<char>| b.contains(p) <==> (a.contains(p) || p == all[i as int]) by {
                    if p == all[i as int] {
                        assert(b[i as int] == p);
                    }
                }
            }
            i = i + 1;
        }
        proof {
            assert(all.take(i as int) =~= all);
        }
    }

    /// Walks over `chain`, a path and its ancestors with the path itself
    /// first, as [`populated`] says. `reads` holds one read for each path
    /// of the chain, in its order.
    pub fn populate_chain(
        &mut self,
        chain: &Vec<String>,
        sort_option: &SortOption,
        reads: &Vec<Result<DirSnapshot, FsError>>,
    ) -> (r: Result<(), FsError>)
        ensures
            final(self)@ == populated(
                old(self)@,
                texts_of(chain@),
                reads_view(reads@),
                *sort_option,
                0,
            ).cache,
            r == populated(old(self)@, texts_of(chain@), reads_view(reads@), *sort_option, 0).result,
            cache_wf(final(self)@),
    {
        let missing: Result<DirSnapshot, FsError> = Err(FsError::NotFound);
        let ghost start = self@;
        let ghost paths = texts_of(chain@);
        let ghost given = reads_view(reads@);
        let mut failed: Result<(), FsError> = Ok(());
        let mut i: usize = 0;
        proof {
            use_type_invariant(&*self);
        }
        while i < chain.len()
            invariant
                i <= chain@.len(),
                texts_of(chain@) == paths,
                start == old(self)@,
                given == reads_view(reads@),
                missing == Err::<DirSnapshot, FsError>(FsError::NotFound),
                cache_wf(self@),
                populated(start, paths, given, *sort_option, 0).cache == populated(
                    self@,
                    paths,
                    given,
                    *sort_option,
                    i as int,
                ).cache,
                populated(start, paths, given, *sort_option, 0).result == first_failure(
                    failed,
                    populated(self@, paths, given, *sort_option, i as int).result,
                ),
            decreases chain@.len() - i,
        {
            let read = if i < reads.len() {
                &reads[i]
            } else {
                &missing
            };
            let ghost prev = self@;
            let outcome = self.create_or_soft_update(chain[i].as_str(), sort_option, read);
            if failed.is_ok() {
                failed = outcome;
            }
            if i > 0 {
                self.point_cursor(chain[i].as_str(), chain[i - 1].as_str());
            }
            proof {
                let before = populated(prev, paths, given, *sort_option, i as int);
                let after = populated(self@, paths, given, *sort_option, i + 1);
                assert(before.cache == after.cache);
                assert(before.result == first_failure(outcome, after.result));
            }
            i = i + 1;
        }
        match failed {
            Ok(_) => Ok(()),
            Err(e) => Err(e),
        }
    }

    /// Puts the cursor of the listing of `dir` on the entry of `child`,
    /// where there are such a listing and such an entry.
    pub fn point_cursor(&mut self, dir: &str, child: &str)
        ensures
            final(self)@ == pointed(old(self)@, dir@, child@),
            cache_wf(final(self)@),
    {
        let mut listings = self.take();
        match position(&listings, dir) {
            Some(i) => {
                let ghost before = lists_view(listings@);
                listings[i].point_at(child);
                proof {
                    let after = lists_view(listings@);
                    assert(after =~= before.update(i as int, listings@[i as int]@));
                    lemma_update(before, i as int, listings@[i as int]@);
                }
            },
            None => {},
        }
        self.put(listings);
    }
}

impl DirectoryHistory for JoshutoHistory {
    open spec fn cache(&self) -> Cache {
        self@
    }

    fn populate_to_root(
        &mut self,
        path: &str,
        sort_option: &SortOption,
        reads: &Vec<Result<DirSnapshot, FsError>>,
    ) -> (r: Result<(), FsError>) {
        let chain = ancestors(path);
        let r = self.populate_chain(&chain, sort_option, reads);
        proof {
            lemma_populate_to_root_breadcrumb(old(self)@, path@, reads_view(reads@), *sort_option);
        }
        r
    }

    fn create_or_soft_update(
        &mut self,
        path: &str,
        sort_option: &SortOption,
        read: &Result<DirSnapshot, FsError>,
    ) -> (r: Result<(), FsError>) {
        let mut listings = self.take();
        let ghost before = lists_view(listings@);
        let result = match position(&listings, path) {
            Some(i) => {
                if listings[i].need_update(modified_of(read)) {
                    let _ = listings[i].reload_contents(read, sort_option);
                    proof {
                        let after = lists_view(listings@);
                        assert(after =~= before.update(i as int, listings@[i as int]@));
                        lemma_update(before, i as int, listings@[i as int]@);
                    }
                }
                Ok(())
            },
            None => match JoshutoDirList::new(path.to_owned(), read, sort_option) {
                Ok(list) => {
                    proof {
                        lemma_push(before, list@);
                        assert(lists_view(listings@.push(list)) =~= before.push(list@));
                    }
                    listings.push(list);
                    Ok(())
                },
                Err(e) => Err(e),
            },
        };
        self.put(listings);
        result
    }

    fn create_or_reload(
        &mut self,
        path: &str,
        sort_option: &SortOption,
        read: &Result<DirSnapshot, FsError>,
    ) -> (r: Result<(), FsError>) {
        let mut listings = self.take();
        let ghost before = lists_view(listings@);
        let result = match position(&listings, path) {
            Some(i) => {
                reload_or_drop(&mut listings, i, read, sort_option);
                Ok(())
            },
            None => match JoshutoDirList::new(path.to_owned(), read, sort_option) {
                Ok(list) => {
                    proof {
                        lemma_push(before, list@);
                        assert(lists_view(listings@.push(list)) =~= before.push(list@));
                    }
                    listings.push(list);
                    Ok(())
                },
                Err(e) => Err(e),
            },
        };
        self.put(listings);
        result
    }

    fn reload(&mut self, path: &str, sort_option: &SortOption, read: &Result<DirSnapshot, FsError>) -> (r:
        Result<(), FsError>) {
        let mut listings = self.take();
        match position(&listings, path) {
            Some(i) => reload_or_drop(&mut listings, i, read, sort_option),
            None => {},
        }
        self.put(listings);
        Ok(())
    }

    fn depreciate_all_entries(&mut self) {
        let mut listings = self.take();
        let ghost before = lists_view(listings@);
        let mut i: usize = 0;
        while i < listings.len()
            invariant
                i <= listings@.len(),
                listings@.len() == before.len(),
                forall|j: int| 0 <= j < i ==> #[trigger] lists_view(listings@)[j] == before[j].depreciated(),
                forall|j: int| i <= j < before.len() ==> #[trigger] lists_view(listings@)[j] == before[j],
                all_wf(lists_view(listings@)),
            decreases listings@.len() - i,
        {
            let ghost prev = lists_view(listings@);
            proof {
                assert(prev[i as int] == listings@[i as int]@);
            }
            listings[i].depreciate();
            proof {
                assert(lists_view(listings@) =~= prev.update(i as int, listings@[i as int]@));
            }
            i = i + 1;
        }
        proof {
            lemma_all_depreciated(before, lists_view(listings@));
        }
        self.put(listings);
    }

    fn depreciate_entry(&mut self, path: &str) {
        let mut listings = self.take();
        let ghost before = lists_view(listings@);
        match position(&listings, path) {
            Some(i) => {
                listings[i].depreciate();
                proof {
                    assert(lists_view(listings@) =~= before.update(i as int, listings@[i as int]@));
                    lemma_update(before, i as int, listings@[i as int]@);
                }
            },
            None => {},
        }
        self.put(listings);
    }
}

/// Whether `p` is none of the paths of `chain` from the `i`-th on.
pub open spec fn off_chain(chain: Seq<Seq<char>>, i: int, p: Seq<char>) -> bool {
    forall|k: int| i <= k < chain.len() ==> #[trigger] chain[k] != p
}

/// Whether two caches agree on `p`.
pub open spec fn same_at(a: Cache, b: Cache, p: Seq<char>) -> bool {
    &&& a.contains_key(p) <==> b.contains_key(p)
    &&& a.contains_key(p) ==> a[p] == b[p]
}

/// Whether the `k`-th path of `chain` has a fresh listing in `m`, with the
/// cursor on the path before it in the chain wherever the listing holds
/// that path.
pub open spec fn settled(m: Cache, chain: Seq<Seq<char>>, k: int) -> bool {
    &&& m.contains_key(chain[k])
    &&& !m[chain[k]].outdated
    &&& k > 0 && holds_path(m[chain[k]].contents, chain[k - 1]) ==> m[chain[k]].cursor_path() == Some(
        chain[k - 1],
    )
}

/// What the soft update of the `k`-th path of a walk returns, given the
/// cache that the walk started from.
pub open spec fn step_result(
    m: Cache,
    chain: Seq<Seq<char>>,
    reads: Seq<Result<SnapshotView, FsError>>,
    k: int,
) -> Result<(), FsError> {
    soft_update_result(m, chain[k], read_at(reads, k))
}

/// Whether the listing that a walk leaves of its `k`-th path holds what
/// the walk read of it. Where the path was new, or its listing wanted an
/// update, the listing has exactly the children that were read; where the
/// listing wanted none, or the read failed, it has the entries and the
/// freshness it had, and a path that was not cached is still not.
pub open spec fn holds_read(
    before: Cache,
    after: Cache,
    chain: Seq<Seq<char>>,
    reads: Seq<Result<SnapshotView, FsError>>,
    opt: SortOption,
    k: int,
) -> bool {
    let path = chain[k];
    match read_at(reads, k) {
        Ok(snapshot) => after.contains_key(path) && if !before.contains_key(path)
            || before[path].need_update(Some(snapshot.metadata.modified)) {
            &&& is_ordering_of(after[path].contents, snapshot.entries, opt)
            &&& after[path].metadata == snapshot.metadata
        } else {
            after[path].contents == before[path].contents
        },
        Err(_) => {
            &&& after.contains_key(path) <==> before.contains_key(path)
            &&& before.contains_key(path) ==> after[path].contents == before[path].contents
                && after[path].outdated == before[path].outdated
        },
    }
}

/// What a walk over a chain of different paths leaves, from its `i`-th
/// path on. Each path that is not left unread is settled; each listing
/// holds what was read of it; every path off the chain is as it was; and
/// the walk succeeds exactly where each of its soft updates does.
pub proof fn lemma_walk(
    m: Cache,
    chain: Seq<Seq<char>>,
    reads: Seq<Result<SnapshotView, FsError>>,
    opt: SortOption,
    i: int,
)
    requires
        0 <= i <= chain.len(),
        forall|a: int, b: int| 0 <= a < b < chain.len() ==> #[trigger] chain[a] != #[trigger] chain[b],
    ensures
        forall|k: int|
            i <= k < chain.len() && !left_unread(m, chain[k], read_at(reads, k)) ==> #[trigger] settled(
                populated(m, chain, reads, opt, i).cache,
                chain,
                k,
            ),
        forall|k: int|
            i <= k < chain.len() ==> #[trigger] holds_read(
                m,
                populated(m, chain, reads, opt, i).cache,
                chain,
                reads,
                opt,
                k,
            ),
        forall|p: Seq<char>| #[trigger]
            off_chain(chain, i, p) ==> same_at(m, populated(m, chain, reads, opt, i).cache, p),
        populated(m, chain, reads, opt, i).result is Ok <==> forall|k: int|
            i <= k < chain.len() ==> #[trigger] step_result(m, chain, reads, k) is Ok,
    decreases chain.len() - i,
{
    if i < chain.len() {
        let dir = chain[i];
        let read = read_at(reads, i);
        let updated = soft_updated(m, dir, read, opt);
        let next = if i > 0 {
            pointed(updated, dir, chain[i - 1])
        } else {
            updated
        };
        let end = populated(m, chain, reads, opt, i).cache;
        lemma_walk(next, chain, reads, opt, i + 1);
        assert(off_chain(chain, i + 1, dir));
        assert(same_at(next, end, dir));
        if let Ok(snapshot) = read {
            lemma_ordered_is_ordering(snapshot.entries, opt);
        }
        if i > 0 && next.contains_key(dir) && holds_path(next[dir].contents, chain[i - 1]) {
            let child = chain[i - 1];
            let list = updated[dir];
            let j = choose|j: int| 0 <= j < list.contents.len() && (#[trigger] list.contents[j]).path == child;
            lemma_first_index_exists(list.contents, child, j);
        }
        assert forall|k: int| i < k < chain.len() implies same_at(m, next, #[trigger] chain[k]) by {
            assert(chain[i] != chain[k]);
        }
        assert forall|k: int|
            i <= k < chain.len() && !left_unread(m, chain[k], read_at(reads, k)) implies #[trigger] settled(
            end,
            chain,
            k,
        ) by {
            if k > i {
                assert(same_at(m, next, chain[k]));
                assert(settled(populated(next, chain, reads, opt, i + 1).cache, chain, k));
            }
        }
        assert forall|k: int| i <= k < chain.len() implies #[trigger] holds_read(
            m,
            end,
            chain,
            reads,
            opt,
            k,
        ) by {
            if k > i {
                assert(same_at(m, next, chain[k]));
                assert(holds_read(
                    next,
                    populated(next, chain, reads, opt, i + 1).cache,
                    chain,
                    reads,
                    opt,
                    k,
                ));
            }
        }
        assert forall|p: Seq<char>| #[trigger] off_chain(chain, i, p) implies same_at(m, end, p) by {
            assert(chain[i] != p);
            assert(off_chain(chain, i + 1, p));
        }
        assert forall|k: int| i < k < chain.len() implies #[trigger] step_result(m, chain, reads, k)
            == step_result(next, chain, reads, k) by {
            assert(same_at(m, next, chain[k]));
        }
        if populated(m, chain, reads, opt, i).result is Ok {
            assert forall|k: int| i <= k < chain.len() implies #[trigger] step_result(
                m,
                chain,
                reads,
                k,
            ) is Ok by {
                if k > i {
                    assert(step_result(next, chain, reads, k) is Ok);
                }
            }
        }
        if forall|k: int| i <= k < chain.len() ==> #[trigger] step_result(m, chain, reads, k) is Ok {
            assert(step_result(m, chain, reads, i) is Ok);
            assert forall|k: int| i + 1 <= k < chain.len() implies #[trigger] step_result(
                next,
                chain,
                reads,
                k,
            ) is Ok by {
                assert(step_result(m, chain, reads, k) is Ok);
            }
        }
    }
}

/// A walk over a chain of different paths whose reads all succeed
/// succeeds: it leaves a fresh listing of each path, with the cursor on
/// the path before it in the chain wherever the listing holds that path,
/// and each listing holds what was read of it.
pub proof fn lemma_walk_of_good_reads(
    m: Cache,
    chain: Seq<Seq<char>>,
    reads: Seq<Result<SnapshotView, FsError>>,
    opt: SortOption,
)
    requires
        forall|a: int, b: int| 0 <= a < b < chain.len() ==> #[trigger] chain[a] != #[trigger] chain[b],
        forall|k: int| 0 <= k < chain.len() ==> (#[trigger] read_at(reads, k)) is Ok,
    ensures
        populated(m, chain, reads, opt, 0).result is Ok,
        forall|k: int|
            0 <= k < chain.len() ==> #[trigger] settled(
                populated(m, chain, reads, opt, 0).cache,
                chain,
                k,
            ),
        forall|k: int|
            0 <= k < chain.len() ==> #[trigger] holds_read(
                m,
                populated(m, chain, reads, opt, 0).cache,
                chain,
                reads,
                opt,
                k,
            ),
{
    lemma_walk(m, chain, reads, opt, 0);
    assert forall|k: int| 0 <= k < chain.len() implies #[trigger] step_result(m, chain, reads, k) is Ok by {
        assert(read_at(reads, k) is Ok);
    }
    assert forall|k: int| 0 <= k < chain.len() implies #[trigger] settled(
        populated(m, chain, reads, opt, 0).cache,
        chain,
        k,
    ) by {
        assert(read_at(reads, k) is Ok);
    }
}

/// What `populate_to_root` leaves. The chain starts at the path, and each
/// further path of it is the parent of the one before. Each path of the
/// chain that was read, or was cached and fresh, has a fresh listing, and
/// the cursor of each ancestor is on the child through which the walk
/// came, wherever the ancestor's listing holds that child. Each listing
/// holds what was read of it. The walk succeeds exactly where each soft
/// update does: always, where every read succeeded.
pub proof fn lemma_populate_to_root_breadcrumb(
    m: Cache,
    path: Seq<char>,
    reads: Seq<Result<SnapshotView, FsError>>,
    opt: SortOption,
)
    ensures
        ancestors_of(path)[0] == path,
        forall|k: int|
            0 < k < ancestors_of(path).len() ==> parent_path(ancestors_of(path)[k - 1]) == Some(
                #[trigger] ancestors_of(path)[k],
            ),
        forall|k: int|
            0 <= k < ancestors_of(path).len() && !left_unread(
                m,
                ancestors_of(path)[k],
                read_at(reads, k),
            ) ==> #[trigger] settled(
                populated(m, ancestors_of(path), reads, opt, 0).cache,
                ancestors_of(path),
                k,
            ),
        forall|k: int|
            0 <= k < ancestors_of(path).len() ==> #[trigger] holds_read(
                m,
                populated(m, ancestors_of(path), reads, opt, 0).cache,
                ancestors_of(path),
                reads,
                opt,
                k,
            ),
        populated(m, ancestors_of(path), reads, opt, 0).result is Ok <==> forall|k: int|
            0 <= k < ancestors_of(path).len() ==> #[trigger] step_result(
                m,
                ancestors_of(path),
                reads,
                k,
            ) is Ok,
        (forall|k: int| 0 <= k < ancestors_of(path).len() ==> (#[trigger] read_at(reads, k)) is Ok)
            ==> populated(m, ancestors_of(path), reads, opt, 0).result is Ok,
{
    let chain = ancestors_of(path);
    assert forall|a: int, b: int| 0 <= a < b < chain.len() implies #[trigger] chain[a] != #[trigger] chain[b] by {
        lemma_ancestors_shrink(path, a, b);
    }
    lemma_walk(m, chain, reads, opt, 0);
    assert forall|k: int| 0 < k < chain.len() implies parent_path(chain[k - 1]) == Some(
        #[trigger] chain[k],
    ) by {
        lemma_ancestors_step(path, k - 1);
    }
    if forall|k: int| 0 <= k < chain.len() ==> (#[trigger] read_at(reads, k)) is Ok {
        lemma_walk_of_good_reads(m, chain, reads, opt);
    }
}

/// After `create_or_reload` with a read that succeeded, the cache holds a
/// fresh listing of the path, and its entries are exactly the children
/// that were read, in the order of the policy.
pub proof fn lemma_create_or_reload_lists_children(
    m: Cache,
    path: Seq<char>,
    snapshot: SnapshotView,
    opt: SortOption,
)
    ensures
        create_or_reload_result(m, path, Ok(snapshot)) is Ok,
        created_or_reloaded(m, path, Ok(snapshot), opt).contains_key(path),
        !created_or_reloaded(m, path, Ok(snapshot), opt)[path].outdated,
        is_ordering_of(
            created_or_reloaded(m, path, Ok(snapshot), opt)[path].contents,
            snapshot.entries,
            opt,
        ),
{
    lemma_ordered_is_ordering(snapshot.entries, opt);
}

/// A soft update that follows `depreciate_entry` always reloads: whatever
/// the modification times say, it wants the read, replaces the listing by
/// what was read and leaves it fresh. Where the read failed the listing
/// stays, stale as it is, and no failure is returned.
pub proof fn lemma_depreciated_is_reloaded(
    m: Cache,
    path: Seq<char>,
    read: Result<SnapshotView, FsError>,
    opt: SortOption,
)
    requires
        m.contains_key(path),
    ensures
        forall|t: Option<u64>| #[trigger] wants_read(depreciated_at(m, path), path, t),
        read matches Ok(snapshot) ==> {
            &&& soft_updated(depreciated_at(m, path), path, read, opt) == m.insert(
                path,
                m[path].reloaded(snapshot, opt),
            )
            &&& !soft_updated(depreciated_at(m, path), path, read, opt)[path].outdated
            &&& soft_update_result(depreciated_at(m, path), path, read) is Ok
        },
        read is Err ==> {
            &&& soft_updated(depreciated_at(m, path), path, read, opt) == depreciated_at(m, path)
            &&& soft_update_result(depreciated_at(m, path), path, read) is Ok
        },
{
    let stale = depreciated_at(m, path);
    match read {
        Ok(snapshot) => {
            assert(soft_updated(stale, path, read, opt) =~= m.insert(
                path,
                m[path].reloaded(snapshot, opt),
            ));
        },
        Err(_) => {},
    }
}

/// A forced reload whose read failed drops the path, and the soft update
/// that follows lists it anew: the listing is the one a first listing
/// makes, with nothing of the old one in it.
pub proof fn lemma_failed_reload_evicts(
    m: Cache,
    path: Seq<char>,
    e: FsError,
    snapshot: SnapshotView,
    opt: SortOption,
)
    requires
        m.contains_key(path),
    ensures
        reloaded(m, path, Err(e), opt) == m.remove(path),
        created_or_reloaded(m, path, Err(e), opt) == m.remove(path),
        create_or_reload_result(m, path, Err(e)) is Ok,
        !m.remove(path).contains_key(path),
        soft_updated(m.remove(path), path, Ok(snapshot), opt) == m.remove(path).insert(
            path,
            DirListView::listed(path, snapshot, opt),
        ),
        soft_update_result(m.remove(path), path, Ok(snapshot)) is Ok,
{
}

proof fn lemma_len(s: Seq<DirListView>)
    requires
        keyed_once(s),
    ensures
        map_of(s).dom().finite(),
        map_of(s).dom().len() == s.len(),
    decreases s.len(),
{
    if s.len() == 0 {
        assert(map_of(s).dom() =~= Set::<Seq<char>>::empty());
    } else {
        let t = s.drop_last();
        assert(forall|i: int, j: int| 0 <= i < j < t.len() ==> (#[trigger] t[i]).path != (#[trigger] t[j]).path);
        assert(!has_key(t, s.last().path));
        lemma_len(t);
        lemma_push(t, s.last());
        assert(t.push(s.last()) =~= s);
    }
}

} // verus!
