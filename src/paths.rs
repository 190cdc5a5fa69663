//! Paths used by the test suite: the name of a test module, the fixtures
//! directory, and where the built binary sits.
use vstd::prelude::*;

use crate::expand::push_char;

verus! {

/// The parent of a path, as camino computes it.
pub uninterp spec fn parent_of(path: Seq<char>) -> Option<Seq<char>>;

/// A path with another adjoined, as camino computes it.
pub uninterp spec fn joined(base: Seq<char>, rest: Seq<char>) -> Seq<char>;

/// Relies on `camino::Utf8Path::parent`: the path without its final
/// component, or `None` when it ends in a root or is empty.
#[verifier::external_body]
fn path_parent(path: &str) -> (r: Option<String>)
    ensures
        match r {
            Some(p) => parent_of(path@) == Some(p@),
            None => parent_of(path@) is None,
        },
{
    camino::Utf8Path::new(path).parent().map(|p| p.as_str().to_owned())
}

/// Relies on `camino::Utf8Path::join`: `rest` adjoined to `base`.
#[verifier::external_body]
pub(crate) fn path_join(base: &str, rest: &str) -> (r: String)
    ensures
        r@ == joined(base@, rest@),
{
    camino::Utf8Path::new(base).join(rest).into_string()
}

/// The characters of `s` before its first `.`.
pub open spec fn before_dot(s: Seq<char>) -> Seq<char>
    decreases s.len(),
{
    if s.len() == 0 || s[0] == '.' {
        Seq::empty()
    } else {
        seq![s[0]] + before_dot(s.drop_first())
    }
}

/// The test module name of a test source path such as `tests/link.rs`:
/// the characters after the first six, up to the first `.`.
pub open spec fn test_path_spec(file: Seq<char>) -> Seq<char> {
    if file.len() <= 6 {
        Seq::empty()
    } else {
        before_dot(file.subrange(6, file.len() as int))
    }
}

/// Returns the test module name (usually the test file name) of a test
/// source path.
pub fn test_path(file: &str) -> (r: String)
    ensures
        r@ == test_path_spec(file@),
{
    let len = file.unicode_len();
    let mut r = String::new();
    if len <= 6 {
        return r;
    }
    let ghost tail = file@.subrange(6, file@.len() as int);
    let mut i: usize = 6;
    while i < len && file.get_char(i) != '.'
        invariant
            6 <= i <= len,
            len == file@.len(),
            tail == file@.subrange(6, file@.len() as int),
            r@ + before_dot(file@.subrange(i as int, len as int)) == before_dot(tail),
        decreases len - i,
    {
        let c = file.get_char(i);
        let ghost rest = file@.subrange(i as int, len as int);
        assert(rest.drop_first() =~= file@.subrange(i + 1, len as int));
        assert(before_dot(rest) == seq![c] + before_dot(rest.drop_first()));
        let ghost before = r@;
        push_char(&mut r, c);
        assert(r@ + before_dot(rest.drop_first()) =~= before + (seq![c] + before_dot(rest.drop_first())));
        i += 1;
    }
    proof {
        let rest = file@.subrange(i as int, len as int);
        assert(before_dot(rest) == Seq::<char>::empty());
        assert(r@ + Seq::<char>::empty() =~= r@);
    }
    r
}

/// The fixtures directory of a project whose test crate sits in
/// `manifest_dir`: `tests/fixtures` under the parent of that directory.
pub fn fixtures_dir(manifest_dir: &str) -> (r: Option<String>)
    ensures
        match parent_of(manifest_dir@) {
            Some(p) => r matches Some(d) && d@ == joined(p, "tests/fixtures"@),
            None => r is None,
        },
{
    match path_parent(manifest_dir) {
        Some(p) => Some(path_join(p.as_str(), "tests/fixtures")),
        None => None,
    }
}

/// Where the `up` binary of a build sits, given the path of the running
/// test executable: beside it when `up_beside_exe` holds, else one
/// directory higher (test executables may sit in a `deps` subdirectory).
pub fn up_binary_path(exe_path: &str, up_beside_exe: bool) -> (r: Option<String>)
    ensures
        match parent_of(exe_path@) {
            Some(dir) => if up_beside_exe {
                r matches Some(b) && b@ == joined(dir, "up"@)
            } else {
                match parent_of(dir) {
                    Some(up_dir) => r matches Some(b) && b@ == joined(up_dir, "up"@),
                    None => r is None,
                }
            },
            None => r is None,
        },
{
    let dir = match path_parent(exe_path) {
        Some(d) => d,
        None => {
            return None;
        },
    };
    let dir = if up_beside_exe {
        dir
    } else {
        match path_parent(dir.as_str()) {
            Some(d) => d,
            None => {
                return None;
            },
        }
    };
    Some(path_join(dir.as_str(), "up"))
}

} // verus!
