//! Where a file loader reading from the file system looks for files.
use vstd::prelude::*;

use crate::utils::{str_chars, string_from_chars};

verus! {

/// The path `path` resolved against `root`: an absolute path as it is,
/// a relative one appended to `root` (with a `/` between them unless
/// `root` ends with one or is empty).
pub open spec fn resolved_path(root: Seq<char>, path: Seq<char>) -> Seq<char> {
    if path.len() > 0 && path[0] == '/' {
        path
    } else if root.len() == 0 || root.last() == '/' {
        root + path
    } else {
        root + seq!['/'] + path
    }
}

/// A file loader reading files from the file system, relative to a root
/// directory. (The reading itself is I/O and lives outside this library.)
#[derive(Debug, Clone, PartialEq, Default)]
pub struct FSFileLoader {
    root: String,
}

impl FSFileLoader {
    pub closed spec fn spec_root(&self) -> Seq<char> {
        self.root@
    }

    /// A file loader reading files relative to `root`.
    pub fn new(root: String) -> (r: Self)
        ensures
            r.spec_root() == root@,
    {
        FSFileLoader { root }
    }

    /// The root directory.
    pub fn root(&self) -> (r: &str)
        ensures
            r@ == self.spec_root(),
    {
        self.root.as_str()
    }

    /// The path to read for `path`: `path` itself if it is absolute, else
    /// `path` relative to the root.
    pub fn resolve(&self, path: &str) -> (r: String)
        ensures
            r@ == resolved_path(self.spec_root(), path@),
    {
        let p = str_chars(path);
        if p.len() > 0 && p[0] == '/' {
            return string_from_chars(p.as_slice());
        }
        let mut out = str_chars(self.root.as_str());
        let ghost root = out@;
        if out.len() > 0 && out[out.len() - 1] != '/' {
            out.push('/');
        }
        let ghost base = out@;
        let mut i: usize = 0;
        while i < p.len()
            invariant
                i <= p.len(),
                out@ == base + p@.take(i as int),
            decreases p.len() - i,
        {
            out.push(p[i]);
            proof {
                assert(base + p@.take(i + 1) =~= (base + p@.take(i as int)).push(p@[i as int]));
            }
            i = i + 1;
        }
        proof {
            assert(p@.take(i as int) =~= p@);
            if root.len() == 0 || root.last() == '/' {
                assert(base == root);
            } else {
                assert(base =~= root + seq!['/']);
            }
        }
        string_from_chars(out.as_slice())
    }
}

} // verus!
