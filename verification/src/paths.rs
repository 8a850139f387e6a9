//! The parts of a path. The final component, the parent and the joining of
//! paths are those of `std::path::Path` on the platform the library is
//! built for; the extension and the stem are cut from the final component
//! here, as `Path` documents them.

use vstd::prelude::*;
use crate::text::{chars_of, slice_of, string_of};

verus! {

/// The final component of a path, if it has one.
pub uninterp spec fn path_file_name(path: Seq<char>) -> Option<Seq<char>>;

/// The path without its final component, if it has one.
pub uninterp spec fn path_parent(path: Seq<char>) -> Option<Seq<char>>;

/// Where the last dot of a name stands, if the name has one.
pub open spec fn last_dot(name: Seq<char>) -> Option<int>
    decreases name.len(),
{
    if name.len() == 0 {
        None
    } else if name.last() == '.' {
        Some(name.len() - 1)
    } else {
        last_dot(name.drop_last())
    }
}

/// The extension of a file name: what follows its last dot. A name
/// without a dot has none, nor has one whose only dot begins it.
pub open spec fn name_extension(name: Seq<char>) -> Option<Seq<char>> {
    match last_dot(name) {
        Some(at) => if at == 0 {
            None
        } else {
            Some(name.skip(at + 1))
        },
        None => None,
    }
}

/// The stem of a file name: what precedes its last dot, or the whole name
/// where it has no dot or its only dot begins it.
pub open spec fn name_stem(name: Seq<char>) -> Seq<char> {
    match last_dot(name) {
        Some(at) => if at == 0 {
            name
        } else {
            name.take(at)
        },
        None => name,
    }
}

/// The final component of a path without its extension.
pub open spec fn path_file_stem(path: Seq<char>) -> Option<Seq<char>> {
    match path_file_name(path) {
        Some(name) => Some(name_stem(name)),
        None => None,
    }
}

/// The extension of the final component of a path, without the dot.
pub open spec fn path_extension(path: Seq<char>) -> Option<Seq<char>> {
    match path_file_name(path) {
        Some(name) => name_extension(name),
        None => None,
    }
}

/// The path that names `name` inside `dir`.
pub uninterp spec fn path_joined(dir: Seq<char>, name: Seq<char>) -> Seq<char>;

/// Whether an optional text is the given optional sequence of characters.
pub open spec fn same_text(r: Option<String>, of: Option<Seq<char>>) -> bool {
    match r {
        Some(t) => of == Some(t@),
        None => of is None,
    }
}

/// `Path::file_name`, on a path that is a string. The result depends on
/// the path alone; it is named, not stated.
#[verifier::external_body]
pub(crate) fn file_name(path: &str) -> (r: Option<String>)
    ensures
        same_text(r, path_file_name(path@)),
{
    std::path::Path::new(path).file_name().map(|n| n.to_string_lossy().into_owned())
}

/// `Path::parent`, on a path that is a string. The result depends on the
/// path alone; it is named, not stated.
#[verifier::external_body]
pub(crate) fn parent(path: &str) -> (r: Option<String>)
    ensures
        same_text(r, path_parent(path@)),
{
    std::path::Path::new(path).parent().map(|p| p.to_string_lossy().into_owned())
}

fn find_last_dot(name: &Vec<char>) -> (r: Option<usize>)
    ensures
        match r {
            Some(at) => last_dot(name@) == Some(at as int) && at < name@.len(),
            None => last_dot(name@) is None,
        },
{
    let mut i: usize = name.len();
    assert(name@.take(i as int) == name@);
    while i > 0
        invariant
            i <= name@.len(),
            last_dot(name@) == last_dot(name@.take(i as int)),
        decreases i,
    {
        assert(name@.take(i as int).last() == name@[i - 1]);
        assert(name@.take(i as int).drop_last() == name@.take(i - 1));
        if name[i - 1] == '.' {
            return Some(i - 1);
        }
        i = i - 1;
    }
    None
}

/// Gives the final component of a path without its extension, as
/// `Path::file_stem` does.
pub fn file_stem(path: &str) -> (r: Option<String>)
    ensures
        same_text(r, path_file_stem(path@)),
{
    match file_name(path) {
        Some(name) => {
            let chars = chars_of(name.as_str());
            match find_last_dot(&chars) {
                Some(at) => {
                    if at == 0 {
                        Some(name)
                    } else {
                        let stem = slice_of(&chars, 0, at);
                        assert(stem@ == chars@.take(at as int));
                        Some(string_of(&stem))
                    }
                },
                None => Some(name),
            }
        },
        None => None,
    }
}

/// Gives the extension of the final component of a path, without the dot,
/// as `Path::extension` does.
pub fn extension(path: &str) -> (r: Option<String>)
    ensures
        same_text(r, path_extension(path@)),
{
    match file_name(path) {
        Some(name) => {
            let chars = chars_of(name.as_str());
            match find_last_dot(&chars) {
                Some(at) => {
                    if at == 0 {
                        None
                    } else {
                        let ext = slice_of(&chars, at + 1, chars.len());
                        assert(ext@ == chars@.skip(at + 1));
                        Some(string_of(&ext))
                    }
                },
                None => None,
            }
        },
        None => None,
    }
}

/// `Path::join`, on paths that are strings. The result depends on the two
/// paths alone; it is named, not stated.
#[verifier::external_body]
pub(crate) fn join(dir: &str, name: &str) -> (r: String)
    ensures
        r@ == path_joined(dir@, name@),
{
    std::path::Path::new(dir).join(name).to_string_lossy().into_owned()
}

} // verus!
