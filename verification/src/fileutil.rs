//! Platform independent filename-handling functions.
//!
//! The search directory is a setting of the caller: `set_search_directory` gives the new
//! setting and `resolve_filename` takes the current one.
use vstd::prelude::*;
use std::path::Path;

use crate::text::ascii_lower;

verus! {

/// Whether a file name of these characters is absolute: on the Unix targets this library
/// is built for, whether it starts with `/`.
pub open spec fn absolute(p: Seq<char>) -> bool {
    p.len() > 0 && p[0] == '/'
}

/// What `Path::join` gives on Unix for a relative `file` joined to `dir`: `dir`, then a `/`
/// unless `dir` is empty or already ends in one, then `file`.
pub open spec fn joined_path(dir: Seq<char>, file: Seq<char>) -> Seq<char> {
    if dir.len() == 0 || dir.last() == '/' {
        dir + file
    } else {
        dir + seq!['/'] + file
    }
}

/// What `Path::parent` gives for `p`: the path without its final component, if any.
pub uninterp spec fn parent_path(p: Seq<char>) -> Option<Seq<char>>;

/// What `Path::extension` gives for `p`: the part of the final component after its last
/// dot, if any.
pub uninterp spec fn extension_of(p: Seq<char>) -> Option<Seq<char>>;

/// `Path::is_absolute`.  Its documentation: on Unix a path is absolute if it starts with the
/// root, which is what this states; on other platforms this does not hold.
#[verifier::external_body]
fn path_is_absolute(p: &str) -> (r: bool)
    ensures
        r == absolute(p@),
{
    Path::new(p).is_absolute()
}

/// `Path::join` on Unix: an absolute `file` replaces `dir`; a relative one is appended to
/// `dir` after a separator where one is needed (`joined_path`).  The result is valid UTF-8
/// since both arguments are, so converting it back to a string loses nothing.
#[verifier::external_body]
fn path_join(dir: &str, file: &str) -> (r: String)
    ensures
        absolute(file@) ==> r@ == file@,
        !absolute(file@) ==> r@ == joined_path(dir@, file@),
{
    Path::new(dir).join(file).to_string_lossy().into_owned()
}

/// `Path::parent`, named `parent_path`; its documentation says that the empty path has no
/// parent.
#[verifier::external_body]
fn path_parent(p: &str) -> (r: Option<String>)
    ensures
        match r {
            Some(q) => parent_path(p@) == Some(q@),
            None => parent_path(p@) is None,
        },
        p@.len() == 0 ==> r is None,
{
    match Path::new(p).parent() {
        Some(q) => Some(q.to_string_lossy().into_owned()),
        None => None,
    }
}

/// `Path::extension`, named `extension_of`.
#[verifier::external_body]
pub(crate) fn file_extension(p: &str) -> (r: Option<String>)
    ensures
        match r {
            Some(e) => extension_of(p@) == Some(e@),
            None => extension_of(p@) is None,
        },
{
    match Path::new(p).extension() {
        Some(e) => Some(e.to_string_lossy().into_owned()),
        None => None,
    }
}

/// Returns true if `filename` is absolute path.
pub fn is_absolute_path(filename: &str) -> (r: bool)
    ensures
        r == absolute(filename@),
{
    path_is_absolute(filename)
}

/// Resolve `filename` by prepending the search directory `search_directory`, if one is set
/// and the name is relative.
pub fn resolve_filename(search_directory: &Option<String>, filename: &str) -> (r: String)
    ensures
        match search_directory {
            Some(dir) => if absolute(filename@) {
                r@ == filename@
            } else {
                r@ == joined_path(dir@, filename@)
            },
            None => r@ == filename@,
        },
{
    match search_directory {
        Some(dir) => {
            if is_absolute_path(filename) {
                return filename.to_owned();
            }
            path_join(dir.as_str(), filename)
        },
        None => filename.to_owned(),
    }
}

/// Return the parent directory of `filename`, which must have one.
pub fn directory_containing(filename: &str) -> (r: String)
    requires
        parent_path(filename@) is Some,
    ensures
        parent_path(filename@) == Some(r@),
{
    match path_parent(filename) {
        Some(dir) => dir,
        None => {
            proof {
                assert(false);
            }
            String::new()
        },
    }
}

/// The parent directory of `filename`, or `None` when it has none.
pub fn parent_directory(filename: &str) -> (r: Option<String>)
    ensures
        match r {
            Some(d) => parent_path(filename@) == Some(d@),
            None => parent_path(filename@) is None,
        },
        filename@.len() == 0 ==> r is None,
{
    match path_parent(filename) {
        Some(_) => Some(directory_containing(filename)),
        None => None,
    }
}

/// The search directory setting after setting it to `dirname`.
pub fn set_search_directory(dirname: Option<&str>) -> (r: Option<String>)
    ensures
        match dirname {
            Some(d) => r matches Some(s) && s@ == d@,
            None => r is None,
        },
{
    match dirname {
        Some(d) => Some(d.to_owned()),
        None => None,
    }
}

/// Whether `a` and `b` are equal when ASCII letters are compared without case.
pub open spec fn equal_ignoring_ascii_case(a: Seq<char>, b: Seq<char>) -> bool {
    a.len() == b.len() && forall|i: int| 0 <= i < a.len() ==> ascii_lower(#[trigger] a[i])
        == ascii_lower(b[i])
}

/// The code of the ASCII lower-case form of `c`.
fn lower_code(c: char) -> (r: u32)
    ensures
        r == ascii_lower(c) as u32,
{
    let u = c as u32;
    if 0x41 <= u && u <= 0x5a {
        u + 32
    } else {
        u
    }
}

/// Compares `a` and `b` with ASCII letters compared without case.
pub(crate) fn eq_ignore_ascii_case(a: &str, b: &str) -> (r: bool)
    ensures
        r == equal_ignoring_ascii_case(a@, b@),
{
    let n = a.unicode_len();
    if n != b.unicode_len() {
        return false;
    }
    let mut i: usize = 0;
    while i < n
        invariant
            n == a@.len(),
            n == b@.len(),
            i <= n,
            forall|j: int| 0 <= j < i ==> ascii_lower(#[trigger] a@[j]) == ascii_lower(b@[j]),
        decreases n - i,
    {
        if lower_code(a.get_char(i)) != lower_code(b.get_char(i)) {
            return false;
        }
        i = i + 1;
    }
    true
}

/// Performs case insensitive comparison of `ext` to the extension of `path`.
pub fn has_extension(path: &str, ext: &str) -> (r: bool)
    ensures
        r == (extension_of(path@) matches Some(e) && equal_ignoring_ascii_case(e, ext@)),
{
    match file_extension(path) {
        Some(e) => eq_ignore_ascii_case(e.as_str(), ext),
        None => false,
    }
}

} // verus!
