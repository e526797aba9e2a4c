//! Taking paths apart.
//!
//! The functions here call `camino`, whose paths behave like those of the standard library on a
//! platform where `/` is the only separator. What they return for any path is given a name. Beside
//! the names stand the facts for plain paths: names without separators, joined by single slashes.

use camino::Utf8Path;
use vstd::prelude::*;

verus! {

/// Can this be the name of a file or a folder in a plain path?
pub open spec fn is_plain_name(name: Seq<char>) -> bool {
    name.len() > 0 && !name.contains('/') && name != seq!['.'] && name != seq!['.', '.']
}

/// Names that make up a plain path.
pub open spec fn is_plain(names: Seq<Seq<char>>) -> bool {
    forall|i: int| 0 <= i < names.len() ==> is_plain_name(#[trigger] names[i])
}

/// Names joined by slashes.
pub open spec fn joined(names: Seq<Seq<char>>) -> Seq<char>
    decreases names.len(),
{
    if names.len() == 0 {
        Seq::empty()
    } else if names.len() == 1 {
        names[0]
    } else {
        joined(names.drop_last()) + seq!['/'] + names.last()
    }
}

/// A plain path does not end with a slash.
pub proof fn lemma_joined_last(names: Seq<Seq<char>>)
    requires
        is_plain(names),
        names.len() > 0,
    ensures
        joined(names).len() > 0,
        joined(names).last() == names.last().last(),
        joined(names).last() != '/',
{
    assert(is_plain_name(names[names.len() - 1]));
    assert(names.last().contains(names.last().last()));
}

/// The names of a plain path.
pub open spec fn plain_names(path: Seq<char>) -> Seq<Seq<char>> {
    choose|names: Seq<Seq<char>>| is_plain(names) && joined(names) == path
}

/// Two plain paths are the same only if their names are.
pub proof fn law_joined_injective(a: Seq<Seq<char>>, b: Seq<Seq<char>>)
    requires
        is_plain(a),
        is_plain(b),
        joined(a) == joined(b),
    ensures
        a == b,
    decreases a.len(),
{
    let s = joined(a);
    if a.len() > 0 {
        lemma_joined_last(a);
    }
    if b.len() > 0 {
        lemma_joined_last(b);
    }
    if a.len() > 0 && b.len() > 0 {
        let (x, y) = (a.last(), b.last());
        assert(is_plain_name(a[a.len() - 1]) && is_plain_name(b[b.len() - 1]));
        let (m, n) = (s.len() - x.len(), s.len() - y.len());
        assert forall|j: int| m <= j < s.len() implies s[j] != '/' by {
            assert(s[j] == x[j - m]);
            assert(x.contains(x[j - m]));
        }
        assert forall|j: int| n <= j < s.len() implies s[j] != '/' by {
            assert(s[j] == y[j - n]);
            assert(y.contains(y[j - n]));
        }
        if a.len() > 1 {
            assert(s[m - 1] == '/');
        }
        if b.len() > 1 {
            assert(s[n - 1] == '/');
        }
        assert(m == n);
        assert(x =~= s.skip(m));
        assert(y =~= s.skip(n));
        let (c, d) = (a.drop_last(), b.drop_last());
        assert(is_plain(c)) by {
            assert forall|i: int| 0 <= i < c.len() implies is_plain_name(#[trigger] c[i]) by {
                assert(is_plain_name(a[i]));
            }
        }
        assert(is_plain(d)) by {
            assert forall|i: int| 0 <= i < d.len() implies is_plain_name(#[trigger] d[i]) by {
                assert(is_plain_name(b[i]));
            }
        }
        if a.len() > 1 && b.len() > 1 {
            assert(joined(c) =~= s.take(m - 1));
            assert(joined(d) =~= s.take(n - 1));
        } else if a.len() == 1 && b.len() == 1 {
            assert(c =~= d);
        }
        law_joined_injective(c, d);
        assert(a =~= c.push(x));
        assert(b =~= d.push(y));
    } else {
        assert(a =~= b);
    }
}

/// What `Utf8Path::parent` returns.
pub uninterp spec fn path_parent(path: Seq<char>) -> Option<Seq<char>>;

/// What `Utf8Path::file_name` returns.
pub uninterp spec fn path_file_name(path: Seq<char>) -> Option<Seq<char>>;

/// What `Utf8Path::strip_prefix` returns.
pub uninterp spec fn path_strip_prefix(path: Seq<char>, base: Seq<char>) -> Option<Seq<char>>;

/// What `Utf8Path::components` walks over.
pub uninterp spec fn path_components(path: Seq<char>) -> Seq<Seq<char>>;

/// Position of the last dot, or the length if there is none.
pub open spec fn last_dot(name: Seq<char>) -> int
    decreases name.len(),
{
    if name.len() == 0 {
        0
    } else if name.last() == '.' {
        name.len() - 1
    } else if last_dot(name.drop_last()) == name.len() - 1 {
        name.len() as int
    } else {
        last_dot(name.drop_last())
    }
}

/// What is behind the last dot of a file name. A dot at the front of the name does not count.
pub open spec fn extension_in(name: Option<Seq<char>>) -> Option<Seq<char>> {
    match name {
        Some(n) => if 0 < last_dot(n) < n.len() {
            Some(n.skip(last_dot(n) + 1))
        } else {
            None
        },
        None => None,
    }
}

/// What is in front of the last dot of a file name, or all of it if no dot counts.
pub open spec fn stem_in(name: Option<Seq<char>>) -> Option<Seq<char>> {
    match name {
        Some(n) => if 0 < last_dot(n) < n.len() {
            Some(n.take(last_dot(n)))
        } else {
            Some(n)
        },
        None => None,
    }
}

/// The views of owned strings.
pub open spec fn views(s: Seq<String>) -> Seq<Seq<char>> {
    s.map_values(|x: String| x@)
}

/// The view of an owned string that may be missing.
pub open spec fn opt_view(s: Option<String>) -> Option<Seq<char>> {
    match s {
        Some(x) => Some(x@),
        None => None,
    }
}

/// Of a plain path below a base of its first names, `rest` is what the other names make up.
pub open spec fn strips_names(path: Seq<char>, base: Seq<char>, rest: Option<Seq<char>>) -> bool {
    forall|names: Seq<Seq<char>>, n: int|
        is_plain(names) && 0 <= n <= names.len() && joined(names) == path && #[trigger] joined(
            names.take(n),
        ) == base ==> rest == Some(joined(names.skip(n)))
}

/// The path without its last component.
///
/// Calls `Utf8Path::parent`. The parent is a shorter piece from the front of the path. That of a
/// plain path has the same names but for the last one, and the empty path has none.
#[verifier::external_body]
pub(crate) fn parent(path: &str) -> (r: Option<String>)
    ensures
        opt_view(r) == path_parent(path@),
        r matches Some(p) ==> p@.is_prefix_of(path@) && p@.len() < path@.len(),
        forall|names: Seq<Seq<char>>|
            is_plain(names) && #[trigger] joined(names) == path@ ==> match r {
                Some(p) => names.len() > 0 && p@ == joined(names.drop_last()),
                None => names.len() == 0,
            },
{
    Utf8Path::new(path).parent().map(|p| p.as_str().to_owned())
}

/// The last component of the path, if it is a name.
///
/// Calls `Utf8Path::file_name`. That of a plain path is its last name.
#[verifier::external_body]
pub(crate) fn file_name(path: &str) -> (r: Option<String>)
    ensures
        opt_view(r) == path_file_name(path@),
        forall|names: Seq<Seq<char>>|
            is_plain(names) && #[trigger] joined(names) == path@ ==> match r {
                Some(p) => names.len() > 0 && p@ == names.last(),
                None => names.len() == 0,
            },
{
    Utf8Path::new(path).file_name().map(|p| p.to_owned())
}

/// What is behind the last dot of the file name.
///
/// Calls `Utf8Path::extension`, which takes the part of the file name behind its last dot, unless
/// there is no other dot than one at the front.
#[verifier::external_body]
pub(crate) fn extension(path: &str) -> (r: Option<String>)
    ensures
        opt_view(r) == extension_in(path_file_name(path@)),
{
    Utf8Path::new(path).extension().map(|p| p.to_owned())
}

/// What is in front of the last dot of the file name.
///
/// Calls `Utf8Path::file_stem`, which takes the part of the file name in front of its last dot, or all
/// of it if there is no other dot than one at the front.
#[verifier::external_body]
pub(crate) fn file_stem(path: &str) -> (r: Option<String>)
    ensures
        opt_view(r) == stem_in(path_file_name(path@)),
{
    Utf8Path::new(path).file_stem().map(|p| p.to_owned())
}

/// What is left of the path below `base`, if it is below it.
///
/// Calls `Utf8Path::strip_prefix`. Of a plain path the names behind those of the base are left.
#[verifier::external_body]
pub(crate) fn strip_prefix(path: &str, base: &str) -> (r: Option<String>)
    ensures
        opt_view(r) == path_strip_prefix(path@, base@),
        strips_names(path@, base@, opt_view(r)),
{
    Utf8Path::new(path).strip_prefix(base).ok().map(|p| p.as_str().to_owned())
}

/// The components of the path.
///
/// Calls `Utf8Path::components`. Those of a plain path are its names.
#[verifier::external_body]
pub(crate) fn components(path: &str) -> (r: Vec<String>)
    ensures
        views(r@) == path_components(path@),
        forall|names: Seq<Seq<char>>|
            is_plain(names) && #[trigger] joined(names) == path@ ==> views(r@) == names,
{
    Utf8Path::new(path).components().map(|c| c.as_str().to_owned()).collect()
}

/// The extension of a file name is what is behind its last dot, and the stem what is in front of it. A name
/// without a dot, or with one only at its front, is all stem.
pub proof fn law_name_parts(stem: Seq<char>, extension: Seq<char>)
    requires
        stem.len() > 0,
        !extension.contains('.'),
    ensures
        extension_in(Some(stem + seq!['.'] + extension)) == Some(extension),
        stem_in(Some(stem + seq!['.'] + extension)) == Some(stem),
        extension_in(Some(extension)) is None,
        stem_in(Some(extension)) == Some(extension),
        extension_in(Some(seq!['.'] + extension)) is None,
        stem_in(Some(seq!['.'] + extension)) == Some(seq!['.'] + extension),
        extension_in(None) is None,
        stem_in(None) is None,
{
    let name = stem + seq!['.'] + extension;
    let hidden = seq!['.'] + extension;
    lemma_last_dot_at(stem, extension);
    lemma_last_dot_at(Seq::empty(), extension);
    assert(Seq::<char>::empty() + seq!['.'] + extension =~= hidden);
    lemma_no_last_dot(extension);
    assert(name.skip((stem.len() + 1) as int) =~= extension);
    assert(name.take(stem.len() as int) =~= stem);
}

proof fn lemma_no_last_dot(s: Seq<char>)
    requires
        !s.contains('.'),
    ensures
        last_dot(s) == s.len(),
    decreases s.len(),
{
    if s.len() > 0 {
        assert(s.contains(s.last()));
        let front = s.drop_last();
        if front.contains('.') {
            let i = front.index_of('.');
            assert(s[i] == '.');
        }
        lemma_no_last_dot(front);
    }
}

proof fn lemma_last_dot_at(stem: Seq<char>, extension: Seq<char>)
    requires
        !extension.contains('.'),
    ensures
        last_dot(stem + seq!['.'] + extension) == stem.len(),
    decreases extension.len(),
{
    let name = stem + seq!['.'] + extension;
    if extension.len() > 0 {
        assert(extension.contains(extension.last()));
        let front = extension.drop_last();
        assert(name.drop_last() =~= stem + seq!['.'] + front);
        if front.contains('.') {
            let i = front.index_of('.');
            assert(extension[i] == '.');
        }
        lemma_last_dot_at(stem, front);
    }
}

} // verus!
