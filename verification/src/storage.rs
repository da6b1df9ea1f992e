//! Object storage keys: which keys may address an object under a storage
//! root, and where they lead.

use vstd::prelude::*;
use crate::text::{push_text, to_chars};

verus! {

/// A path separator of a storage key.
pub open spec fn is_sep(c: char) -> bool {
    c == '/' || c == '\\'
}

/// A ".." component of `s` starts at `i`.
pub open spec fn dotdot_at(s: Seq<char>, i: int) -> bool {
    &&& 0 <= i && i + 2 <= s.len()
    &&& s[i] == '.' && s[i + 1] == '.'
    &&& (i == 0 || is_sep(s[i - 1]))
    &&& (i + 2 == s.len() || is_sep(s[i + 2]))
}

/// What makes a relative path unsafe.
#[derive(Debug, Clone, Copy, PartialEq, Eq, Structural)]
pub enum PathProblem {
    Empty,
    Absolute,
    NulByte,
    Traversal,
}

/// Why a path is unsafe, if it is: empty, absolute, holding a NUL
/// character, or with a ".." component.
pub open spec fn path_problem_of(s: Seq<char>) -> Option<PathProblem> {
    if s.len() == 0 {
        Some(PathProblem::Empty)
    } else if is_sep(s[0]) {
        Some(PathProblem::Absolute)
    } else if s.contains('\0') {
        Some(PathProblem::NulByte)
    } else if exists|i: int| #[trigger] dotdot_at(s, i) {
        Some(PathProblem::Traversal)
    } else {
        None
    }
}

/// Finds what makes a path unsafe, checking in order for an empty path, an
/// absolute one, a NUL character and a ".." component.
pub fn path_problem(path: &str) -> (r: Option<PathProblem>)
    ensures
        r == path_problem_of(path@),
{
    let chars = to_chars(path);
    let n = chars.len();
    if n == 0 {
        return Some(PathProblem::Empty);
    }
    if chars[0] == '/' || chars[0] == '\\' {
        return Some(PathProblem::Absolute);
    }
    let mut i: usize = 0;
    while i < n
        invariant
            n == chars@.len(),
            chars@ == path@,
            i <= n,
            n > 0,
            !is_sep(path@[0]),
            forall|j: int| 0 <= j < i ==> chars@[j] != '\0',
        decreases n - i,
    {
        if chars[i] == '\0' {
            assert(path@[i as int] == '\0');
            assert(path@.contains('\0'));
            return Some(PathProblem::NulByte);
        }
        i = i + 1;
    }
    assert(!path@.contains('\0'));
    let mut k: usize = 0;
    while n >= 2 && k <= n - 2
        invariant
            n == chars@.len(),
            chars@ == path@,
            n > 0,
            !is_sep(path@[0]),
            !path@.contains('\0'),
            forall|j: int| 0 <= j < k ==> !dotdot_at(path@, j),
        decreases n - k,
    {
        let before_ok = k == 0 || chars[k - 1] == '/' || chars[k - 1] == '\\';
        let after_ok = k + 2 == n || chars[k + 2] == '/' || chars[k + 2] == '\\';
        if chars[k] == '.' && chars[k + 1] == '.' && before_ok && after_ok {
            assert(dotdot_at(path@, k as int));
            return Some(PathProblem::Traversal);
        }
        k = k + 1;
    }
    assert(!exists|j: int| #[trigger] dotdot_at(path@, j)) by {
        assert forall|j: int| !#[trigger] dotdot_at(path@, j) by {
            if j >= k {
                assert(!(j + 2 <= path@.len()));
            }
        }
    }
    None
}

/// The message refusing a storage key for a problem.
pub open spec fn key_message(p: PathProblem) -> Seq<char> {
    match p {
        PathProblem::Empty => "storage key cannot be empty"@,
        PathProblem::Absolute => "storage key must be relative"@,
        PathProblem::NulByte => "storage key contains null byte"@,
        PathProblem::Traversal => "storage key contains '..' traversal"@,
    }
}

/// Why a key is refused, if it is.
pub open spec fn key_problem(s: Seq<char>) -> Option<Seq<char>> {
    match path_problem_of(s) {
        Some(p) => Some(key_message(p)),
        None => None,
    }
}

/// Checks that a storage key cannot escape the storage root: it must be
/// non-empty and relative, without NUL bytes or ".." components.
pub fn validate_key(key: &str) -> (r: Result<(), String>)
    ensures
        match key_problem(key@) {
            Some(m) => r matches Err(e) && e@ == m,
            None => r is Ok,
        },
{
    match path_problem(key) {
        Some(PathProblem::Empty) => Err(String::from_str("storage key cannot be empty")),
        Some(PathProblem::Absolute) => Err(String::from_str("storage key must be relative")),
        Some(PathProblem::NulByte) => Err(String::from_str("storage key contains null byte")),
        Some(PathProblem::Traversal) => Err(String::from_str("storage key contains '..' traversal")),
        None => Ok(()),
    }
}

/// Local filesystem object store, rooted at a directory.
pub struct LocalStore {
    root: String,
}

/// Where key `key` leads under root `root`: the root, a separator unless it
/// already ends with one, then the key.
pub open spec fn joined(root: Seq<char>, key: Seq<char>) -> Seq<char> {
    if root.len() == 0 || root.last() == '/' { root + key } else { root + seq!['/'] + key }
}

/// The name under which a directory entry is listed for `prefix`.
pub open spec fn listed_key(prefix: Seq<char>, name: Seq<char>) -> Seq<char> {
    if prefix.len() == 0 { name } else { prefix + seq!['/'] + name }
}

impl LocalStore {
    /// The storage root.
    pub closed spec fn root_dir(&self) -> Seq<char> {
        self.root@
    }

    /// A store rooted at `root`.
    pub fn new(root: String) -> (s: Self)
        ensures
            s.root_dir() == root@,
    {
        LocalStore { root }
    }

    /// The storage root.
    pub fn root(&self) -> (r: &str)
        ensures
            r@ == self.root_dir(),
    {
        self.root.as_str()
    }

    /// The file a valid key addresses under the root; the key's problem
    /// otherwise.
    pub fn path_of(&self, key: &str) -> (r: Result<String, String>)
        ensures
            match key_problem(key@) {
                Some(m) => r matches Err(e) && e@ == m,
                None => r matches Ok(p) && p@ == joined(self.root_dir(), key@),
            },
    {
        match validate_key(key) {
            Err(e) => Err(e),
            Ok(()) => {
                let mut p = self.root.clone();
                let n = p.unicode_len();
                if n > 0 && p.get_char(n - 1) != '/' {
                    crate::text::push_char(&mut p, '/');
                }
                push_text(&mut p, key);
                Ok(p)
            },
        }
    }

    /// The key under which the directory entry `name` of `prefix` is
    /// listed.
    pub fn list_key(prefix: &str, name: &str) -> (r: String)
        ensures
            r@ == listed_key(prefix@, name@),
    {
        let mut k = String::from_str(prefix);
        if prefix.unicode_len() > 0 {
            crate::text::push_char(&mut k, '/');
        }
        push_text(&mut k, name);
        k
    }
}

} // verus!
