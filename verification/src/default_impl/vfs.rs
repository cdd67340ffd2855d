//! A file loader serving files registered in memory.
use vstd::prelude::*;

use crate::error::{EncodingError, FileLoadError};
use crate::utils::{str_chars, string_from_chars};

verus! {

/// A path component which is kept: not empty and not `.`.
pub open spec fn kept_component(c: Seq<char>) -> bool {
    c.len() > 0 && c != seq!['.']
}

/// `acc` followed by `/` and the component `c` if it is kept.
pub open spec fn add_component(acc: Seq<char>, c: Seq<char>) -> Seq<char> {
    if kept_component(c) {
        acc + seq!['/'] + c
    } else {
        acc
    }
}

/// The absolute form of `s` from index `i` on, `cur` being the component
/// being read and `acc` the kept components before it.
pub open spec fn normalize_from(s: Seq<char>, i: int, cur: Seq<char>, acc: Seq<char>) -> Seq<char>
    decreases s.len() - i,
{
    if i >= s.len() {
        let a = add_component(acc, cur);
        if a.len() == 0 {
            seq!['/']
        } else {
            a
        }
    } else if s[i] == '/' {
        normalize_from(s, i + 1, Seq::empty(), add_component(acc, cur))
    } else {
        normalize_from(s, i + 1, cur.push(s[i]), acc)
    }
}

/// The key of a path: the path made absolute (a relative path is taken
/// relative to `/`), with its components joined by single `/` and empty
/// and `.` components dropped, so that paths which are equal as paths
/// have the same key.
pub open spec fn path_key(s: Seq<char>) -> Seq<char> {
    normalize_from(s, 0, Seq::empty(), Seq::empty())
}

/// The key of `path` (see `path_key`).
pub fn normalize_path(path: &str) -> (r: String)
    ensures
        r@ == path_key(path@),
{
    let s = str_chars(path);
    let mut acc: Vec<char> = Vec::new();
    let mut cur: Vec<char> = Vec::new();
    let mut i: usize = 0;
    while i < s.len()
        invariant
            s@ == path@,
            i <= s.len(),
            path_key(path@) == normalize_from(s@, i as int, cur@, acc@),
        decreases s.len() - i,
    {
        if s[i] == '/' {
            push_component(&mut acc, &cur);
            cur = Vec::new();
        } else {
            cur.push(s[i]);
        }
        i = i + 1;
    }
    push_component(&mut acc, &cur);
    if acc.len() == 0 {
        acc.push('/');
        proof {
            assert(acc@ =~= seq!['/']);
        }
    }
    string_from_chars(acc.as_slice())
}

/// Appends `/` and `cur` to `acc` if `cur` is a kept component.
fn push_component(acc: &mut Vec<char>, cur: &Vec<char>)
    ensures
        final(acc)@ == add_component(old(acc)@, cur@),
{
    let keep = cur.len() > 0 && !(cur.len() == 1 && cur[0] == '.');
    proof {
        if cur@ == seq!['.'] {
            assert(cur@.len() == 1 && cur@[0] == '.');
        }
        if cur@.len() == 1 && cur@[0] == '.' {
            assert(cur@ =~= seq!['.']);
        }
    }
    if keep {
        let ghost before = acc@;
        acc.push('/');
        let mut j: usize = 0;
        while j < cur.len()
            invariant
                j <= cur.len(),
                acc@ == before + seq!['/'] + cur@.take(j as int),
            decreases cur.len() - j,
        {
            acc.push(cur[j]);
            proof {
                assert(before + seq!['/'] + cur@.take(j + 1) =~= (before + seq!['/'] + cur@.take(
                    j as int,
                )).push(cur@[j as int]));
            }
            j = j + 1;
        }
        proof {
            assert(cur@.take(j as int) =~= cur@);
        }
    }
}

/// The files as a map from keys to contents; later entries win.
pub open spec fn files_map(v: Seq<(String, Vec<u8>)>) -> Map<Seq<char>, Seq<u8>>
    decreases v.len(),
{
    if v.len() == 0 {
        Map::empty()
    } else {
        files_map(v.drop_last()).insert(v.last().0@, v.last().1@)
    }
}

/// No key occurs twice.
pub open spec fn keys_unique(v: Seq<(String, Vec<u8>)>) -> bool {
    forall|i: int, j: int| 0 <= i < v.len() && 0 <= j < v.len() && i != j ==> (#[trigger] v[i]).0@
        != (#[trigger] v[j]).0@
}

proof fn lemma_files_map_lookup(v: Seq<(String, Vec<u8>)>, k: Seq<char>)
    requires
        keys_unique(v),
    ensures
        files_map(v).contains_key(k) <==> exists|i: int| 0 <= i < v.len() && (#[trigger] v[i]).0@ == k,
        forall|i: int| 0 <= i < v.len() && (#[trigger] v[i]).0@ == k ==> files_map(v)[k] == v[i].1@,
    decreases v.len(),
{
    if v.len() > 0 {
        let w = v.drop_last();
        assert(keys_unique(w)) by {
            assert forall|i: int, j: int| 0 <= i < w.len() && 0 <= j < w.len() && i != j implies (
            #[trigger] w[i]).0@ != (#[trigger] w[j]).0@ by {
                assert(w[i] == v[i] && w[j] == v[j]);
            }
        }
        lemma_files_map_lookup(w, k);
        if files_map(v).contains_key(k) {
            if v.last().0@ != k {
                let i = choose|i: int| 0 <= i < w.len() && (#[trigger] w[i]).0@ == k;
                assert(v[i] == w[i]);
            } else {
                assert(v[v.len() - 1].0@ == k);
            }
        }
        assert forall|i: int| 0 <= i < v.len() && (#[trigger] v[i]).0@ == k implies files_map(v)[k]
            == v[i].1@ by {
            if i < v.len() - 1 {
                assert(w[i] == v[i]);
                assert(v[v.len() - 1].0@ != k);
            }
        }
        if exists|i: int| 0 <= i < v.len() && (#[trigger] v[i]).0@ == k {
            let i = choose|i: int| 0 <= i < v.len() && (#[trigger] v[i]).0@ == k;
            if i < v.len() - 1 {
                assert(w[i] == v[i]);
            }
        }
    }
}

proof fn lemma_files_map_update(v: Seq<(String, Vec<u8>)>, i: int, e: (String, Vec<u8>))
    requires
        keys_unique(v),
        0 <= i < v.len(),
        v[i].0@ == e.0@,
    ensures
        files_map(v.update(i, e)) == files_map(v).insert(e.0@, e.1@),
        keys_unique(v.update(i, e)),
    decreases v.len(),
{
    let u = v.update(i, e);
    assert(keys_unique(u)) by {
        assert forall|a: int, b: int| 0 <= a < u.len() && 0 <= b < u.len() && a != b implies (
        #[trigger] u[a]).0@ != (#[trigger] u[b]).0@ by {
            assert(u[a].0@ == v[a].0@ && u[b].0@ == v[b].0@);
        }
    }
    let w = v.drop_last();
    if i == v.len() - 1 {
        assert(u.drop_last() =~= w);
        assert(files_map(u) =~= files_map(v).insert(e.0@, e.1@));
    } else {
        assert(u.drop_last() =~= w.update(i, e));
        assert(keys_unique(w)) by {
            assert forall|a: int, b: int| 0 <= a < w.len() && 0 <= b < w.len() && a != b implies (
            #[trigger] w[a]).0@ != (#[trigger] w[b]).0@ by {
                assert(w[a] == v[a] && w[b] == v[b]);
            }
        }
        assert(w[i] == v[i]);
        lemma_files_map_update(w, i, e);
        assert(v[v.len() - 1].0@ != v[i].0@);
        assert(u.last() == v.last());
        assert(files_map(u) =~= files_map(v).insert(e.0@, e.1@));
    }
}

proof fn lemma_files_map_push(v: Seq<(String, Vec<u8>)>, e: (String, Vec<u8>))
    requires
        keys_unique(v),
        forall|i: int| 0 <= i < v.len() ==> (#[trigger] v[i]).0@ != e.0@,
    ensures
        files_map(v.push(e)) == files_map(v).insert(e.0@, e.1@),
        keys_unique(v.push(e)),
{
    let u = v.push(e);
    assert(u.drop_last() =~= v);
    assert forall|a: int, b: int| 0 <= a < u.len() && 0 <= b < u.len() && a != b implies (
    #[trigger] u[a]).0@ != (#[trigger] u[b]).0@ by {
        if a < v.len() {
            assert(u[a] == v[a]);
        }
        if b < v.len() {
            assert(u[b] == v[b]);
        }
    }
}

/// A file loader whose files are registered in memory, under their keys
/// (see `path_key`).
pub struct VFSFileLoader {
    files: Vec<(String, Vec<u8>)>,
}

impl VFSFileLoader {
    /// The registered files, by key.
    pub closed spec fn files(&self) -> Map<Seq<char>, Seq<u8>> {
        files_map(self.files@)
    }

    /// No key is registered twice.
    pub closed spec fn wf(&self) -> bool {
        keys_unique(self.files@)
    }

    /// A loader without files.
    pub fn new() -> (r: Self)
        ensures
            r.wf(),
            r.files() == Map::<Seq<char>, Seq<u8>>::empty(),
    {
        VFSFileLoader { files: Vec::new() }
    }

    fn find(&self, key: &str) -> (r: Option<usize>)
        ensures
            r matches Some(i) ==> i < self.files@.len() && self.files@[i as int].0@ == key@,
            r is None ==> forall|i: int|
                0 <= i < self.files@.len() ==> (#[trigger] self.files@[i]).0@ != key@,
    {
        let mut i: usize = 0;
        while i < self.files.len()
            invariant
                i <= self.files@.len(),
                forall|j: int| 0 <= j < i ==> (#[trigger] self.files@[j]).0@ != key@,
            decreases self.files.len() - i,
        {
            if str_eq(self.files[i].0.as_str(), key) {
                return Some(i);
            }
            i = i + 1;
        }
        None
    }

    /// Registers `content` under `path` (a relative path is taken relative
    /// to `/`). If a file was registered under that path before, its
    /// content is replaced and the old content is returned.
    pub fn register_file(&mut self, path: &str, content: Vec<u8>) -> (r: Result<
        Option<Vec<u8>>,
        EncodingError,
    >)
        requires
            old(self).wf(),
        ensures
            final(self).wf(),
            final(self).files() == old(self).files().insert(path_key(path@), content@),
            r matches Ok(prev) && (match prev {
                Some(p) => old(self).files().contains_key(path_key(path@)) && p@ == old(
                    self,
                ).files()[path_key(path@)],
                None => !old(self).files().contains_key(path_key(path@)),
            }),
    {
        let key = normalize_path(path);
        let ghost k = key@;
        proof {
            lemma_files_map_lookup(self.files@, k);
        }
        match self.find(key.as_str()) {
            Some(i) => {
                let ghost before = self.files@;
                let old_content = self.files[i].1.clone();
                proof {
                    assert(old_content@ =~= before[i as int].1@);
                }
                let entry = (key, content);
                let ghost e = entry;
                self.files.set(i, entry);
                proof {
                    assert(self.files@ == before.update(i as int, e));
                    lemma_files_map_update(before, i as int, e);
                }
                Ok(Some(old_content))
            },
            None => {
                let ghost before = self.files@;
                let entry = (key, content);
                proof {
                    lemma_files_map_push(before, entry);
                }
                self.files.push(entry);
                Ok(None)
            },
        }
    }

    /// The content of the file registered under `path` (a relative path is
    /// taken relative to `/`); fails with `NotFound` and the file's key if
    /// there is none.
    pub fn load_file(&self, path: &str) -> (r: Result<Vec<u8>, FileLoadError>)
        requires
            self.wf(),
        ensures
            self.files().contains_key(path_key(path@)) ==> (r matches Ok(c) && c@ == self.files()[path_key(
                path@,
            )]),
            !self.files().contains_key(path_key(path@)) ==> (r matches Err(FileLoadError::NotFound(p))
                && p@ == path_key(path@)),
    {
        let key = normalize_path(path);
        proof {
            lemma_files_map_lookup(self.files@, key@);
        }
        match self.find(key.as_str()) {
            Some(i) => {
                let content = self.files[i].1.clone();
                proof {
                    assert(content@ =~= self.files@[i as int].1@);
                }
                Ok(content)
            },
            None => Err(FileLoadError::NotFound(key)),
        }
    }
}

impl Default for VFSFileLoader {
    /// A loader without files, as `new` gives.
    fn default() -> (r: Self)
        ensures
            r.wf(),
            r.files() == Map::<Seq<char>, Seq<u8>>::empty(),
    {
        VFSFileLoader::new()
    }
}

/// Whether two strings hold the same chars.
fn str_eq(a: &str, b: &str) -> (r: bool)
    ensures
        r == (a@ == b@),
{
    let x = str_chars(a);
    let y = str_chars(b);
    if x.len() != y.len() {
        return false;
    }
    let mut i: usize = 0;
    while i < x.len()
        invariant
            x@ == a@,
            y@ == b@,
            x.len() == y.len(),
            i <= x.len(),
            forall|j: int| 0 <= j < i ==> x@[j] == y@[j],
        decreases x.len() - i,
    {
        if x[i] != y[i] {
            return false;
        }
        i = i + 1;
    }
    proof {
        assert(x@ =~= y@);
    }
    true
}

/// A file registered under a path is what loading that path (or any path
/// with the same key) gives, until another file is registered under it.
pub proof fn lemma_load_after_register(
    files: Map<Seq<char>, Seq<u8>>,
    path: Seq<char>,
    content: Seq<u8>,
    other: Seq<char>,
)
    ensures
        files.insert(path_key(path), content).contains_key(path_key(path)),
        files.insert(path_key(path), content)[path_key(path)] == content,
        path_key(other) != path_key(path) ==> (files.insert(path_key(path), content).contains_key(
            path_key(other),
        ) == files.contains_key(path_key(other))),
        path_key(other) != path_key(path) && files.contains_key(path_key(other)) ==> files.insert(
            path_key(path),
            content,
        )[path_key(other)] == files[path_key(other)],
{
}

} // verus!
