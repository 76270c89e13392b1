//! Paths as text: their order, their parent and their extension.
//!
//! A path is compared as the text that it is. Two spellings of one
//! directory, such as `/a/b` and `/a/b/` or `/a//b`, are two paths here,
//! where `std::path::Path` takes them for one. So whoever hands paths to
//! this library hands them in one form, the one that [`is_normal`]
//! tests: absolute, without a separator at the end or two in a row, and
//! without a component `.` or `..`. The order of paths is made for that
//! form: component by component, as `std::path::Path` orders them.

use vstd::prelude::*;
use vstd::string::*;
use vstd::utf8::*;

verus! {

/// The byte that separates the components of a path.
pub const SEPARATOR: u8 = 0x2f;

/// Rank of a byte within a path. The separator ranks below every other
/// byte, so that a directory is followed directly by what lies under it:
/// `/a/b` comes before `/a-b`.
pub open spec fn byte_rank(b: u8) -> int {
    if b == SEPARATOR {
        0
    } else {
        b + 1
    }
}

/// Lexicographic order of two byte strings by [`byte_rank`]; a proper
/// prefix comes first.
pub open spec fn bytes_before(a: Seq<u8>, b: Seq<u8>) -> bool
    decreases a.len(),
{
    if b.len() == 0 {
        false
    } else if a.len() == 0 {
        true
    } else if a[0] == b[0] {
        bytes_before(a.drop_first(), b.drop_first())
    } else {
        byte_rank(a[0]) < byte_rank(b[0])
    }
}

/// The order of paths: that of their UTF-8 bytes under [`bytes_before`].
pub open spec fn path_before(a: Seq<char>, b: Seq<char>) -> bool {
    bytes_before(encode_utf8(a), encode_utf8(b))
}

/// No byte string comes before itself.
pub proof fn lemma_bytes_before_irreflexive(a: Seq<u8>)
    ensures
        !bytes_before(a, a),
    decreases a.len(),
{
    if a.len() > 0 {
        lemma_bytes_before_irreflexive(a.drop_first());
    }
}

/// Of two different byte strings exactly one comes before the other.
pub proof fn lemma_bytes_before_total(a: Seq<u8>, b: Seq<u8>)
    ensures
        a != b ==> (bytes_before(a, b) <==> !bytes_before(b, a)),
        a == b ==> !bytes_before(a, b) && !bytes_before(b, a),
    decreases a.len(),
{
    if a == b {
        lemma_bytes_before_irreflexive(a);
    } else if a.len() > 0 && b.len() > 0 && a[0] == b[0] {
        lemma_bytes_before_total(a.drop_first(), b.drop_first());
        if a.drop_first() == b.drop_first() {
            assert(a =~= seq![a[0]] + a.drop_first());
            assert(b =~= seq![b[0]] + b.drop_first());
        }
    } else if a.len() == 0 {
        assert(b.len() > 0) by {
            if b.len() == 0 {
                assert(a =~= b);
            }
        }
    }
}

/// The order of byte strings is transitive.
pub proof fn lemma_bytes_before_transitive(a: Seq<u8>, b: Seq<u8>, c: Seq<u8>)
    requires
        bytes_before(a, b),
        bytes_before(b, c),
    ensures
        bytes_before(a, c),
    decreases a.len(),
{
    if a.len() > 0 && a[0] == b[0] && b[0] == c[0] {
        lemma_bytes_before_transitive(a.drop_first(), b.drop_first(), c.drop_first());
    }
}

/// Two texts with the same UTF-8 bytes are the same text.
pub proof fn lemma_utf8_injective(a: Seq<char>, b: Seq<char>)
    requires
        encode_utf8(a) == encode_utf8(b),
    ensures
        a == b,
{
    encode_utf8_decode_utf8(a);
    encode_utf8_decode_utf8(b);
}

/// Whether `a` comes before `b` in the order of paths.
pub fn path_precedes(a: &str, b: &str) -> (r: bool)
    ensures
        r == path_before(a@, b@),
{
    let x = a.as_bytes();
    let y = b.as_bytes();
    let mut i: usize = 0;
    proof {
        assert(x@.skip(0) =~= x@);
        assert(y@.skip(0) =~= y@);
    }
    while i < x.len() && i < y.len()
        invariant
            x@ == encode_utf8(a@),
            y@ == encode_utf8(b@),
            i <= x@.len(),
            i <= y@.len(),
            bytes_before(x@, y@) == bytes_before(x@.skip(i as int), y@.skip(i as int)),
        decreases x@.len() - i,
    {
        let p = x[i];
        let q = y[i];
        proof {
            assert(x@.skip(i as int).drop_first() =~= x@.skip(i + 1));
            assert(y@.skip(i as int).drop_first() =~= y@.skip(i + 1));
        }
        if p != q {
            if p == SEPARATOR {
                return true;
            }
            if q == SEPARATOR {
                return false;
            }
            return p < q;
        }
        i = i + 1;
    }
    i < y.len()
}

/// Whether two texts are the same.
pub fn same_text(a: &str, b: &str) -> (r: bool)
    ensures
        r == (a@ == b@),
{
    let x = a.as_bytes();
    let y = b.as_bytes();
    if x.len() != y.len() {
        return false;
    }
    let mut i: usize = 0;
    while i < x.len()
        invariant
            x@ == encode_utf8(a@),
            y@ == encode_utf8(b@),
            x@.len() == y@.len(),
            i <= x@.len(),
            forall|j: int| 0 <= j < i ==> x@[j] == y@[j],
        decreases x@.len() - i,
    {
        if x[i] != y[i] {
            return false;
        }
        i = i + 1;
    }
    proof {
        assert(x@ =~= y@);
        lemma_utf8_injective(a@, b@);
    }
    true
}

/// The byte of a dot.
pub const DOT: u8 = 0x2e;

/// Whether the byte at `i`, where it is a separator, is followed by a
/// component that is neither empty nor `.` nor `..`, or by nothing.
pub open spec fn plain_at(b: Seq<u8>, i: int) -> bool {
    b[i] == SEPARATOR && i + 1 < b.len() ==> {
        &&& b[i + 1] != SEPARATOR
        &&& b[i + 1] == DOT ==> {
            &&& i + 2 < b.len()
            &&& b[i + 2] != SEPARATOR
            &&& b[i + 2] == DOT ==> i + 3 < b.len() && b[i + 3] != SEPARATOR
        }
    }
}

/// Whether bytes are a path in normal form: absolute, without a separator
/// at the end unless it is the root, without two separators in a row, and
/// without a component `.` or `..`.
pub open spec fn normal_bytes(b: Seq<u8>) -> bool {
    &&& b.len() > 0
    &&& b[0] == SEPARATOR
    &&& b.len() > 1 ==> b[b.len() - 1] != SEPARATOR
    &&& forall|i: int| 0 <= i < b.len() ==> #[trigger] plain_at(b, i)
}

/// Whether a path is in normal form.
pub open spec fn normal_form(path: Seq<char>) -> bool {
    normal_bytes(encode_utf8(path))
}

/// Whether a path is in normal form: the form in which this library
/// wants its paths.
pub fn is_normal(path: &str) -> (r: bool)
    ensures
        r == normal_form(path@),
{
    let b = path.as_bytes();
    let n = b.len();
    if n == 0 || b[0] != SEPARATOR || (n > 1 && b[n - 1] == SEPARATOR) {
        return false;
    }
    let mut i: usize = 0;
    while i < n
        invariant
            n == b@.len(),
            i <= n,
            b@ == encode_utf8(path@),
            forall|j: int| 0 <= j < i ==> #[trigger] plain_at(b@, j),
        decreases n - i,
    {
        if b[i] == SEPARATOR && i + 1 < n {
            let plain = b[i + 1] != SEPARATOR && (b[i + 1] != DOT || (i + 2 < n && b[i + 2]
                != SEPARATOR && (b[i + 2] != DOT || (i + 3 < n && b[i + 3] != SEPARATOR))));
            if !plain {
                assert(!plain_at(b@, i as int));
                return false;
            }
        }
        i = i + 1;
    }
    true
}

/// What `std::path::Path::parent` returns for a path, as text.
pub uninterp spec fn parent_path(path: Seq<char>) -> Option<Seq<char>>;

/// What `std::path::Path::extension` returns for a path, as text.
pub uninterp spec fn path_extension(path: Seq<char>) -> Option<Seq<char>>;

/// The text of an optional string.
pub open spec fn text_of(s: Option<String>) -> Option<Seq<char>> {
    match s {
        Some(t) => Some(t@),
        None => None,
    }
}

/// Calls `std::path::Path::parent`, which returns the path without its
/// final component, or nothing where the path ends in a root or is empty.
/// Trusted: the result is the one named by [`parent_path`], and a parent,
/// being the path cut short, has fewer characters than the path.
#[verifier::external_body]
fn parent_of(path: &str) -> (r: Option<String>)
    ensures
        text_of(r) == parent_path(path@),
        r matches Some(p) ==> p@.len() < path@.len(),
{
    match std::path::Path::new(path).parent() {
        Some(p) => Some(p.to_string_lossy().into_owned()),
        None => None,
    }
}

/// Calls `std::path::Path::extension`, which gives the part of the file
/// name after its last dot, and nothing where the path has no file name or
/// the name has no dot besides a leading one.
/// Trusted: the result is the one named by [`path_extension`].
#[verifier::external_body]
fn extension_of(path: &str) -> (r: Option<String>)
    ensures
        text_of(r) == path_extension(path@),
{
    match std::path::Path::new(path).extension() {
        Some(e) => Some(e.to_string_lossy().into_owned()),
        None => None,
    }
}

/// The directory that holds `path`, if it has one.
pub fn parent(path: &str) -> (r: Option<String>)
    ensures
        text_of(r) == parent_path(path@),
{
    parent_of(path)
}

/// The extension of the file name of `path`, if it has one.
pub fn extension(path: &str) -> (r: Option<String>)
    ensures
        text_of(r) == path_extension(path@),
{
    extension_of(path)
}

/// Whether `path` has a parent that is shorter than itself. Every parent
/// that [`parent`] hands out is.
pub open spec fn has_parent(path: Seq<char>) -> bool {
    parent_path(path) matches Some(p) && p.len() < path.len()
}

/// A path followed by its parent, its parent's parent and so on, as far as
/// there is one.
pub open spec fn ancestors_of(path: Seq<char>) -> Seq<Seq<char>>
    decreases path.len(),
{
    if has_parent(path) {
        seq![path] + ancestors_of(parent_path(path).unwrap())
    } else {
        seq![path]
    }
}

/// The texts of a list of strings.
pub open spec fn texts_of(v: Seq<String>) -> Seq<Seq<char>> {
    v.map_values(|s: String| s@)
}

/// The ancestors of a path are pairwise different, each being shorter than
/// the one before.
pub proof fn lemma_ancestors_shrink(path: Seq<char>, i: int, j: int)
    requires
        0 <= i < j < ancestors_of(path).len(),
    ensures
        ancestors_of(path)[j].len() < ancestors_of(path)[i].len(),
        ancestors_of(path)[i].len() <= path.len(),
    decreases path.len(),
{
    if has_parent(path) {
        let p = parent_path(path).unwrap();
        let rest = ancestors_of(p);
        if i == 0 {
            if j - 1 > 0 {
                lemma_ancestors_shrink(p, 0, j - 1);
            }
            assert(rest[0] == p);
        } else {
            lemma_ancestors_shrink(p, i - 1, j - 1);
        }
    }
}

/// Each ancestor but the first is the parent of the one before it.
pub proof fn lemma_ancestors_step(path: Seq<char>, i: int)
    requires
        0 <= i < ancestors_of(path).len(),
    ensures
        ancestors_of(path)[0] == path,
        i + 1 < ancestors_of(path).len() ==> has_parent(ancestors_of(path)[i]) && parent_path(
            ancestors_of(path)[i],
        ) == Some(ancestors_of(path)[i + 1]),
        i + 1 == ancestors_of(path).len() ==> !has_parent(ancestors_of(path)[i]),
    decreases path.len(),
{
    if has_parent(path) {
        let p = parent_path(path).unwrap();
        if i > 0 {
            lemma_ancestors_step(p, i - 1);
        }
    }
}

/// The ancestors of `path`, itself first and the outermost last.
pub fn ancestors(path: &str) -> (r: Vec<String>)
    ensures
        texts_of(r@) == ancestors_of(path@),
{
    let mut chain: Vec<String> = Vec::new();
    let mut curr: String = path.to_owned();
    chain.push(curr.clone());
    loop
        invariant
            chain@.len() > 0,
            chain@.last()@ == curr@,
            ancestors_of(path@) == texts_of(chain@).drop_last() + ancestors_of(curr@),
        ensures
            texts_of(chain@) == ancestors_of(path@),
        decreases curr@.len(),
    {
        let next = parent_of(curr.as_str());
        match next {
            Some(p) => {
                curr = p.clone();
                chain.push(p);
            },
            None => {
                break;
            },
        }
    }
    chain
}

} // verus!
