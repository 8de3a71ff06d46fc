//! A model of the storage root: the files that the workflow has written,
//! viewed as a map from storage-relative path to content.

use vstd::prelude::*;
use vstd::string::*;

verus! {

/// One stored file: its storage-relative path and its bytes.
pub struct StoredFile {
    pub path: String,
    pub bytes: Vec<u8>,
}

/// The stored files, at most one per path.
pub struct Disk {
    pub files: Vec<StoredFile>,
}

/// The map that a list of stored files denotes; a later entry for the
/// same path shadows an earlier one.
pub open spec fn spec_files_map(s: Seq<StoredFile>) -> Map<Seq<char>, Seq<u8>>
    decreases s.len(),
{
    if s.len() == 0 {
        Map::empty()
    } else {
        spec_files_map(s.drop_last()).insert(s.last().path@, s.last().bytes@)
    }
}

/// A path is in the map exactly when some entry holds it.
proof fn lemma_files_map_domain(s: Seq<StoredFile>, p: Seq<char>)
    ensures
        spec_files_map(s).contains_key(p) <==> exists|i: int|
            0 <= i < s.len() && (#[trigger] s[i]).path@ == p,
    decreases s.len(),
{
    if s.len() > 0 {
        lemma_files_map_domain(s.drop_last(), p);
        if spec_files_map(s).contains_key(p) {
            if s.last().path@ == p {
                assert(s[s.len() - 1].path@ == p);
            } else {
                let i = choose|i: int|
                    0 <= i < s.drop_last().len() && (#[trigger] s.drop_last()[i]).path@ == p;
                assert(s[i].path@ == p);
            }
        }
        if exists|i: int| 0 <= i < s.len() && (#[trigger] s[i]).path@ == p {
            let i = choose|i: int| 0 <= i < s.len() && (#[trigger] s[i]).path@ == p;
            if i < s.len() - 1 {
                assert(s.drop_last()[i].path@ == p);
            }
        }
    }
}

/// With unique paths, the map sends each entry's path to its bytes.
proof fn lemma_files_map_at(s: Seq<StoredFile>, i: int)
    requires
        forall|a: int, b: int| 0 <= a < b < s.len() ==> s[a].path@ != s[b].path@,
        0 <= i < s.len(),
    ensures
        spec_files_map(s).contains_key(s[i].path@),
        spec_files_map(s)[s[i].path@] == s[i].bytes@,
    decreases s.len(),
{
    if i == s.len() - 1 {
    } else {
        assert(forall|a: int, b: int|
            0 <= a < b < s.drop_last().len() ==> s.drop_last()[a].path@ != s.drop_last()[b].path@);
        lemma_files_map_at(s.drop_last(), i);
        assert(s[i].path@ != s[s.len() - 1].path@);
    }
}

impl Disk {
    /// The files as a map from path to content.
    pub open spec fn contents(self) -> Map<Seq<char>, Seq<u8>> {
        spec_files_map(self.files@)
    }

    /// The disk's invariant: at most one file per path.
    pub open spec fn inv(self) -> bool {
        forall|a: int, b: int|
            0 <= a < b < self.files@.len() ==> self.files@[a].path@ != self.files@[b].path@
    }

    /// An empty storage root.
    pub fn new() -> (d: Disk)
        ensures
            d.inv(),
            d.contents() == Map::<Seq<char>, Seq<u8>>::empty(),
    {
        Disk { files: Vec::new() }
    }

    /// Writes `bytes` under `path`, replacing what was stored there.
    pub fn put(&mut self, path: String, bytes: Vec<u8>)
        requires
            old(self).inv(),
        ensures
            final(self).inv(),
            final(self).contents() == old(self).contents().insert(path@, bytes@),
    {
        let n = self.files.len();
        let mut i: usize = 0;
        while i < n
            invariant
                old(self).inv(),
                *self == *old(self),
                n == self.files@.len(),
                0 <= i <= n,
                forall|j: int| 0 <= j < i ==> (#[trigger] self.files@[j]).path@ != path@,
            decreases n - i,
        {
            if self.files[i].path == path {
                let entry = StoredFile { path, bytes };
                let ghost orig = self.files@;
                self.files[i] = entry;
                proof {
                    lemma_files_map_update(orig, i as int, self.files@[i as int]);
                    assert(final(self).contents() =~= old(self).contents().insert(
                        self.files@[i as int].path@,
                        self.files@[i as int].bytes@,
                    ));
                }
                return ;
            }
            i += 1;
        }
        let ghost orig = self.files@;
        let entry = StoredFile { path, bytes };
        self.files.push(entry);
        proof {
            assert(self.files@.drop_last() =~= orig);
            assert forall|a: int, b: int| 0 <= a < b < self.files@.len() implies self.files@[a].path@
                != self.files@[b].path@ by {
                if b == self.files@.len() - 1 {
                    assert(orig[a].path@ != path@);
                }
            }
        }
    }

    /// Removes the file stored under `path`, telling whether one was
    /// there; when none was, nothing changes.
    pub fn remove(&mut self, path: &str) -> (removed: bool)
        requires
            old(self).inv(),
        ensures
            final(self).inv(),
            removed == old(self).contents().contains_key(path@),
            final(self).contents() == old(self).contents().remove(path@),
    {
        let n = self.files.len();
        let mut i: usize = 0;
        while i < n
            invariant
                old(self).inv(),
                *self == *old(self),
                n == self.files@.len(),
                0 <= i <= n,
                forall|j: int| 0 <= j < i ==> (#[trigger] self.files@[j]).path@ != path@,
            decreases n - i,
        {
            if crate::text::str_eq(self.files[i].path.as_str(), path) {
                let ghost orig = self.files@;
                let _ = self.files.remove(i);
                proof {
                    lemma_files_map_domain(orig, path@);
                    lemma_files_map_remove(orig, i as int);
                    assert(final(self).contents() =~= old(self).contents().remove(path@));
                }
                return true;
            }
            i += 1;
        }
        proof {
            lemma_files_map_domain(self.files@, path@);
            assert(self.contents() =~= self.contents().remove(path@));
        }
        false
    }

    /// Reads the bytes stored under `path`.
    pub fn read(&self, path: &str) -> (r: Option<Vec<u8>>)
        requires
            self.inv(),
        ensures
            match r {
                Some(b) => self.contents().contains_key(path@) && b@ == self.contents()[path@],
                None => !self.contents().contains_key(path@),
            },
    {
        let n = self.files.len();
        let mut i: usize = 0;
        while i < n
            invariant
                self.inv(),
                n == self.files@.len(),
                0 <= i <= n,
                forall|j: int| 0 <= j < i ==> (#[trigger] self.files@[j]).path@ != path@,
            decreases n - i,
        {
            if crate::text::str_eq(self.files[i].path.as_str(), path) {
                let b = clone_bytes(&self.files[i].bytes);
                proof {
                    lemma_files_map_at(self.files@, i as int);
                }
                return Some(b);
            }
            i += 1;
        }
        proof {
            lemma_files_map_domain(self.files@, path@);
        }
        None
    }

    /// Whether a file is stored under `path`.
    pub fn has(&self, path: &str) -> (r: bool)
        requires
            self.inv(),
        ensures
            r == self.contents().contains_key(path@),
    {
        let n = self.files.len();
        let mut i: usize = 0;
        while i < n
            invariant
                self.inv(),
                n == self.files@.len(),
                0 <= i <= n,
                forall|j: int| 0 <= j < i ==> (#[trigger] self.files@[j]).path@ != path@,
            decreases n - i,
        {
            if crate::text::str_eq(self.files[i].path.as_str(), path) {
                proof {
                    lemma_files_map_at(self.files@, i as int);
                }
                return true;
            }
            i += 1;
        }
        proof {
            lemma_files_map_domain(self.files@, path@);
        }
        false
    }
}

/// Copies a byte vector.
fn clone_bytes(v: &Vec<u8>) -> (r: Vec<u8>)
    ensures
        r@ == v@,
{
    let mut out: Vec<u8> = Vec::new();
    let n = v.len();
    let mut i: usize = 0;
    while i < n
        invariant
            n == v@.len(),
            0 <= i <= n,
            out@ == v@.take(i as int),
        decreases n - i,
    {
        out.push(v[i]);
        proof {
            assert(out@ =~= v@.take(i + 1));
        }
        i += 1;
    }
    proof {
        assert(v@.take(n as int) =~= v@);
    }
    out
}

/// Replacing the entry at `i` with one of the same path updates the map
/// at that path.
proof fn lemma_files_map_update(s: Seq<StoredFile>, i: int, f: StoredFile)
    requires
        forall|a: int, b: int| 0 <= a < b < s.len() ==> s[a].path@ != s[b].path@,
        0 <= i < s.len(),
        f.path@ == s[i].path@,
    ensures
        spec_files_map(s.update(i, f)) == spec_files_map(s).insert(f.path@, f.bytes@),
    decreases s.len(),
{
    let t = s.update(i, f);
    if i == s.len() - 1 {
        assert(t.drop_last() =~= s.drop_last());
        assert(t.last() == f);
        assert(spec_files_map(t) =~= spec_files_map(s).insert(f.path@, f.bytes@));
    } else {
        assert(t.drop_last() =~= s.drop_last().update(i, f));
        assert(t.last() == s.last());
        assert(forall|a: int, b: int|
            0 <= a < b < s.drop_last().len() ==> s.drop_last()[a].path@ != s.drop_last()[b].path@);
        lemma_files_map_update(s.drop_last(), i, f);
        assert(s[i].path@ != s[s.len() - 1].path@);
        assert(spec_files_map(t) =~= spec_files_map(s).insert(f.path@, f.bytes@));
    }
}

/// Removing the entry at `i` removes its path from the map.
proof fn lemma_files_map_remove(s: Seq<StoredFile>, i: int)
    requires
        forall|a: int, b: int| 0 <= a < b < s.len() ==> s[a].path@ != s[b].path@,
        0 <= i < s.len(),
    ensures
        spec_files_map(s.remove(i)) == spec_files_map(s).remove(s[i].path@),
    decreases s.len(),
{
    let t = s.remove(i);
    if i == s.len() - 1 {
        assert(t =~= s.drop_last());
        lemma_files_map_domain(s.drop_last(), s[i].path@);
        assert(!spec_files_map(s.drop_last()).contains_key(s[i].path@));
        assert(spec_files_map(t) =~= spec_files_map(s).remove(s[i].path@));
    } else {
        assert(t.drop_last() =~= s.drop_last().remove(i));
        assert(t.last() == s.last());
        assert(forall|a: int, b: int|
            0 <= a < b < s.drop_last().len() ==> s.drop_last()[a].path@ != s.drop_last()[b].path@);
        lemma_files_map_remove(s.drop_last(), i);
        assert(s[i].path@ != s[s.len() - 1].path@);
        assert(spec_files_map(t) =~= spec_files_map(s).remove(s[i].path@));
    }
}

} // verus!
