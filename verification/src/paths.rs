//! Paths as the editor handles them: UTF-8 strings with `/` separators.
//!
//! Joining is written here against its documented behaviour; decomposing a
//! path into its parts goes through `std::path::Path`.

use vstd::prelude::*;
use crate::text::{concat2, concat3, ends_with, seq_ends_with, seq_starts_with, starts_with};

verus! {

/// What `PathBuf::push` makes of `base` and a further path `name` on Unix: an
/// absolute `name` replaces `base`; otherwise a `/` is put between the two
/// unless `base` is empty or already ends with one.
pub open spec fn join_spec(base: Seq<char>, name: Seq<char>) -> Seq<char> {
    if seq_starts_with(name, seq!['/']) {
        name
    } else if base.len() == 0 || seq_ends_with(base, seq!['/']) {
        base + name
    } else {
        base + seq!['/'] + name
    }
}

/// `base.join(name)`.
pub fn join_path(base: &str, name: &str) -> (r: String)
    ensures
        r@ == join_spec(base@, name@),
{
    let slash = "/";
    proof {
        reveal_strlit("/");
    }
    assert(slash@ =~= seq!['/']);
    if starts_with(name, slash) {
        String::from_str(name)
    } else if base.unicode_len() == 0 || ends_with(base, slash) {
        concat2(base, name)
    } else {
        concat3(base, slash, name)
    }
}

/// The last component of a path, as `Path::file_name` gives it.
pub uninterp spec fn spec_file_name(path: Seq<char>) -> Option<Seq<char>>;

/// The path without its last component, as `Path::parent` gives it.
pub uninterp spec fn spec_parent(path: Seq<char>) -> Option<Seq<char>>;

/// The rest of `path` after `base`, compared by components, as `Path::strip_prefix` gives it.
pub uninterp spec fn spec_strip_prefix(path: Seq<char>, base: Seq<char>) -> Option<Seq<char>>;

/// What follows the last `/` of `path` (all of it when it holds none).
#[verifier::opaque]
pub open spec fn last_component(path: Seq<char>) -> Seq<char>
    decreases path.len(),
{
    if path.len() == 0 {
        path
    } else if path.last() == '/' {
        Seq::empty()
    } else {
        last_component(path.drop_last()).push(path.last())
    }
}

/// A name that is a path's final component as it stands: not empty, and
/// neither `.` nor `..`.
pub open spec fn plain_name(name: Seq<char>) -> bool {
    name.len() > 0 && name != seq!['.'] && name != seq!['.', '.']
}

/// Calls `Path::file_name`. Its result is named, not stated: it depends on
/// how `std` splits a path into components. What the documentation says of
/// an ordinary path is stated: when the text after the last `/` is a plain
/// name, that is the final component, and the file name.
#[verifier::external_body]
pub(crate) fn path_file_name(path: &str) -> (r: Option<String>)
    ensures
        match r {
            Some(n) => spec_file_name(path@) == Some(n@),
            None => spec_file_name(path@) is None,
        },
        plain_name(last_component(path@)) ==> (r is Some && r->0@ == last_component(path@)),
{
    std::path::Path::new(path).file_name().and_then(|n| n.to_str()).map(|n| n.to_string())
}

/// Calls `Path::parent`. Its result is named, not stated.
#[verifier::external_body]
pub(crate) fn path_parent(path: &str) -> (r: Option<String>)
    ensures
        match r {
            Some(p) => spec_parent(path@) == Some(p@),
            None => spec_parent(path@) is None,
        },
{
    std::path::Path::new(path).parent().and_then(|p| p.to_str()).map(|p| p.to_string())
}

/// Calls `Path::strip_prefix`. Its result is named, not stated.
#[verifier::external_body]
pub(crate) fn path_strip_prefix(path: &str, base: &str) -> (r: Option<String>)
    ensures
        match r {
            Some(p) => spec_strip_prefix(path@, base@) == Some(p@),
            None => spec_strip_prefix(path@, base@) is None,
        },
{
    std::path::Path::new(path).strip_prefix(base).ok().and_then(|p| p.to_str()).map(|p| p.to_string())
}

/// Whether two paths are equal as `Path` compares them: component by component.
pub uninterp spec fn spec_path_eq(a: Seq<char>, b: Seq<char>) -> bool;

/// Whether `base` is a prefix of `path` in whole components, as `Path::starts_with` says.
pub uninterp spec fn spec_path_starts_with(path: Seq<char>, base: Seq<char>) -> bool;

/// Compares two paths with `Path`'s `==`. Its result is named, not stated:
/// it depends on how `std` splits paths into components. Equal texts give
/// equal components, so equal paths compare equal.
#[verifier::external_body]
pub(crate) fn path_eq(a: &str, b: &str) -> (r: bool)
    ensures
        r == spec_path_eq(a@, b@),
        a@ == b@ ==> r,
{
    std::path::Path::new(a) == std::path::Path::new(b)
}

/// Calls `Path::starts_with`. Its result is named, not stated.
#[verifier::external_body]
pub(crate) fn path_starts_with(path: &str, base: &str) -> (r: bool)
    ensures
        r == spec_path_starts_with(path@, base@),
{
    std::path::Path::new(path).starts_with(base)
}

/// The last component of a path joined onto `base` is the name joined, when
/// that name holds no `/`.
pub proof fn lemma_last_component_of_join(base: Seq<char>, name: Seq<char>)
    requires
        forall|i: int| 0 <= i < name.len() ==> name[i] != '/',
    ensures
        last_component(join_spec(base, name)) == name,
{
    if name.len() > 0 {
        assert(!seq_starts_with(name, seq!['/'])) by {
            assert(name.take(1)[0] == name[0]);
        }
    } else {
        assert(!seq_starts_with(name, seq!['/']));
    }
    let prefix = if base.len() == 0 || seq_ends_with(base, seq!['/']) { base } else { base + seq!['/'] };
    assert(prefix.len() == 0 || prefix.last() == '/') by {
        if base.len() != 0 && seq_ends_with(base, seq!['/']) {
            assert(base.skip(base.len() - 1)[0] == base.last());
        }
    }
    assert(join_spec(base, name) =~= prefix + name);
    lemma_last_component_after_slash(prefix, name);
}

proof fn lemma_last_component_after_slash(prefix: Seq<char>, name: Seq<char>)
    requires
        prefix.len() == 0 || prefix.last() == '/',
        forall|i: int| 0 <= i < name.len() ==> name[i] != '/',
    ensures
        last_component(prefix + name) == name,
    decreases name.len(),
{
    reveal(last_component);
    if name.len() == 0 {
        assert(prefix + name =~= prefix);
    } else {
        let init = name.drop_last();
        lemma_last_component_after_slash(prefix, init);
        assert((prefix + name).drop_last() =~= prefix + init);
        assert((prefix + name).last() == name.last());
        assert(init.push(name.last()) =~= name);
    }
}

/// The stem of a file name, as `Path::file_stem` documents it: the whole name
/// when it holds no `.` after its first character, else the part before the last `.`.
pub open spec fn file_stem_spec(name: Seq<char>) -> Seq<char> {
    if exists|i: int| 0 < i < name.len() && name[i] == '.' {
        let i = choose|i: int| 0 < i < name.len() && name[i] == '.' && forall|j: int| i < j < name.len() ==> name[j] != '.';
        name.take(i)
    } else {
        name
    }
}

/// `Path::file_stem` applied to a file name.
pub fn file_stem(name: &str) -> (r: String)
    ensures
        r@ == file_stem_spec(name@),
{
    let n = name.unicode_len();
    let mut i: usize = n;
    while i > 1
        invariant
            n == name@.len(),
            i <= n,
            forall|j: int| i <= j < n ==> j > 0 ==> name@[j] != '.',
        decreases i,
    {
        if name.get_char(i - 1) == '.' {
            let k = i - 1;
            proof {
                let s = name@;
                assert(0 < k < s.len() && s[k as int] == '.');
                let c = choose|c: int| 0 < c < s.len() && s[c] == '.' && forall|j: int| c < j < s.len() ==> s[j] != '.';
                assert(0 < k < s.len() && s[k as int] == '.' && forall|j: int| k < j < s.len() ==> s[j] != '.');
                if c < k {
                    assert(s[k as int] != '.');
                } else if c > k {
                    assert(s[c] != '.');
                }
            }
            return String::from_str(name.substring_char(0, k));
        }
        i = i - 1;
    }
    assert(!exists|j: int| 0 < j < name@.len() && name@[j] == '.');
    String::from_str(name)
}

/// The extension of a file name, as `Path::extension` documents it: the part
/// after the last `.`, when that `.` is not the name's first character.
pub open spec fn file_extension_spec(name: Seq<char>) -> Option<Seq<char>> {
    if exists|i: int| 0 < i < name.len() && name[i] == '.' {
        let i = choose|i: int| 0 < i < name.len() && name[i] == '.' && forall|j: int| i < j < name.len() ==> name[j] != '.';
        Some(name.skip(i + 1))
    } else {
        None
    }
}

/// `Path::extension` applied to a file name.
pub fn file_extension(name: &str) -> (r: Option<String>)
    ensures
        match r {
            Some(e) => file_extension_spec(name@) == Some(e@),
            None => file_extension_spec(name@) is None,
        },
{
    let n = name.unicode_len();
    let mut i: usize = n;
    while i > 1
        invariant
            n == name@.len(),
            i <= n,
            forall|j: int| i <= j < n ==> j > 0 ==> name@[j] != '.',
        decreases i,
    {
        if name.get_char(i - 1) == '.' {
            let k = i - 1;
            proof {
                let s = name@;
                assert(0 < k < s.len() && s[k as int] == '.');
                let c = choose|c: int| 0 < c < s.len() && s[c] == '.' && forall|j: int| c < j < s.len() ==> s[j] != '.';
                assert(0 < k < s.len() && s[k as int] == '.' && forall|j: int| k < j < s.len() ==> s[j] != '.');
                if c < k {
                    assert(s[k as int] != '.');
                } else if c > k {
                    assert(s[c] != '.');
                }
                assert(s.subrange(i as int, n as int) =~= s.skip(k + 1));
            }
            return Some(String::from_str(name.substring_char(i, n)));
        }
        i = i - 1;
    }
    assert(!exists|j: int| 0 < j < name@.len() && name@[j] == '.');
    None
}

} // verus!
