//! Append-only interning of file URIs and JAR paths to small integer
//! identifiers.

use vstd::prelude::*;

use dashmap::DashMap;

use crate::types::{Location, Range};

verus! {

#[verifier::external_type_specification]
#[verifier::external_body]
#[verifier::reject_recursive_types(K)]
#[verifier::reject_recursive_types(V)]
#[verifier::reject_recursive_types(S)]
pub struct ExDashMap<K, V, S>(DashMap<K, V, S>);

/// Interned identifier for a JAR path, into a [`JarTable`].
#[derive(Clone, Copy, PartialEq, Eq, Structural, Hash, Debug)]
pub struct JarId(pub u32);

/// The entries of a key → id map: each key (by its characters) to its id.
pub uninterp spec fn id_entries(m: DashMap<String, u32>) -> Map<Seq<char>, u32>;

/// Calls `DashMap::new`: the new map has no entries.
#[verifier::external_body]
fn new_id_index() -> (index: DashMap<String, u32>)
    ensures
        id_entries(index).dom().is_empty(),
{
    DashMap::new()
}

/// Calls `DashMap::get` and copies the id out of the returned guard: the id
/// stored under `key`, or `None` when `key` has no entry.
#[verifier::external_body]
fn id_index_get(m: &DashMap<String, u32>, key: &str) -> (r: Option<u32>)
    ensures
        match r {
            Some(id) => id_entries(*m).contains_key(key@) && id_entries(*m)[key@] == id,
            None => !id_entries(*m).contains_key(key@),
        },
{
    match m.get(key) {
        Some(entry) => Some(*entry),
        None => None,
    }
}

/// Calls `DashMap::insert`: afterwards `key` maps to `id` and every other
/// entry is unchanged.
#[verifier::external_body]
fn id_index_insert(m: &mut DashMap<String, u32>, key: String, id: u32)
    ensures
        id_entries(*final(m)) == id_entries(*old(m)).insert(key@, id),
{
    m.insert(key, id);
}

/// The table after interning `p` into a table holding `paths` (by id), and
/// the id `p` gets: its existing id, or the next one.
pub open spec fn interned(paths: Seq<Seq<char>>, p: Seq<char>) -> (Seq<Seq<char>>, int) {
    if paths.contains(p) {
        (paths, paths.index_of(p))
    } else {
        (paths.push(p), paths.len() as int)
    }
}

/// Append-only interning table mapping keys to ids and back: re-interning a
/// key returns its existing id; ids are handed out in order from 0.
pub struct InternTable {
    by_id: Vec<String>,
    by_key: DashMap<String, u32>,
}

impl InternTable {
    /// The interned keys, indexed by id.
    pub closed spec fn view(&self) -> Seq<Seq<char>> {
        self.by_id@.map_values(|s: String| s@)
    }

    /// No key is interned twice, the key index answers each interned key
    /// with its position, and every id fits a `u32`.
    pub closed spec fn wf(&self) -> bool {
        &&& self.view().no_duplicates()
        &&& self.view().len() <= u32::MAX + 1
        &&& id_entries(self.by_key).dom() == self.view().to_set()
        &&& forall|i: int|
            0 <= i < self.view().len() ==> id_entries(self.by_key)[#[trigger] self.view()[i]] == i
    }

    /// An empty table.
    pub fn new() -> (t: InternTable)
        ensures
            t.wf(),
            t.view() == Seq::<Seq<char>>::empty(),
    {
        let t = InternTable { by_id: Vec::new(), by_key: new_id_index() };
        assert(t.view() =~= Seq::<Seq<char>>::empty());
        assert(t.view().to_set() =~= Set::<Seq<char>>::empty());
        t
    }

    /// Intern `key`, returning its stable id: the id it already has, or the
    /// next free one (see [`interned`]).
    pub fn intern(&mut self, key: &str) -> (id: u32)
        requires
            old(self).wf(),
            old(self).view().contains(key@) || old(self).view().len() <= u32::MAX,
        ensures
            final(self).wf(),
            (final(self).view(), id as int) == interned(old(self).view(), key@),
    {
        let ghost v = self.view();
        match id_index_get(&self.by_key, key) {
            Some(existing) => {
                proof {
                    assert(v.to_set().contains(key@));
                    let k = choose|k: int| 0 <= k < v.len() && v[k] == key@;
                    assert(v.contains(key@));
                    assert(v[v.index_of(key@)] == key@);
                    assert(v.index_of(key@) == k);
                }
                return existing;
            },
            None => {},
        }
        proof {
            if v.contains(key@) {
                let k = choose|k: int| 0 <= k < v.len() && v[k] == key@;
                assert(v.to_set().contains(key@));
            }
        }
        let id = self.by_id.len() as u32;
        self.by_id.push(key.to_owned());
        id_index_insert(&mut self.by_key, key.to_owned(), id);
        proof {
            let w = self.view();
            assert(w =~= v.push(key@));
            assert forall|a: Seq<char>| #[trigger] w.to_set().contains(a) == v.to_set().insert(
                key@,
            ).contains(a) by {
                if v.contains(a) {
                    let k = choose|k: int| 0 <= k < v.len() && v[k] == a;
                    assert(w[k] == a);
                }
                if a == key@ {
                    assert(w[v.len() as int] == a);
                }
                if w.contains(a) {
                    let k = choose|k: int| 0 <= k < w.len() && w[k] == a;
                    if k < v.len() {
                        assert(v[k] == a);
                    }
                }
            }
            assert(w.to_set() =~= v.to_set().insert(key@));
            assert forall|i: int, j: int| 0 <= i < w.len() && 0 <= j < w.len() && i != j implies w[i]
                != w[j] by {
                if j == v.len() {
                    assert(w[i] == v[i]);
                    assert(v.contains(v[i]));
                } else if i == v.len() {
                    assert(v.contains(v[j]));
                }
            }
        }
        id
    }

    /// The key interned under `id`, or `None` if `id` is not from this table.
    pub fn key(&self, id: u32) -> (r: Option<String>)
        ensures
            match r {
                Some(p) => (id as int) < self.view().len() && p@ == self.view()[id as int],
                None => id as int >= self.view().len(),
            },
    {
        let i = id as usize;
        if i < self.by_id.len() {
            Some(self.by_id[i].clone())
        } else {
            None
        }
    }
}

/// Append-only interning table mapping JAR paths to [`JarId`]s and back:
/// re-interning a path returns its existing id.
pub struct JarTable {
    table: InternTable,
}

impl JarTable {
    /// The interned paths, indexed by id.
    pub closed spec fn view(&self) -> Seq<Seq<char>> {
        self.table.view()
    }

    /// The table is well formed (see [`InternTable::wf`]).
    pub closed spec fn wf(&self) -> bool {
        self.table.wf()
    }

    /// An empty table.
    pub fn new() -> (t: JarTable)
        ensures
            t.wf(),
            t.view() == Seq::<Seq<char>>::empty(),
    {
        JarTable { table: InternTable::new() }
    }

    /// Intern `path`, returning its stable [`JarId`]: the id it already has,
    /// or the next free one (see [`interned`]).
    pub fn intern(&mut self, path: &str) -> (id: JarId)
        requires
            old(self).wf(),
            old(self).view().contains(path@) || old(self).view().len() <= u32::MAX,
        ensures
            final(self).wf(),
            (final(self).view(), id.0 as int) == interned(old(self).view(), path@),
    {
        JarId(self.table.intern(path))
    }

    /// The interned path for `id`, or `None` if `id` is not from this table.
    pub fn path(&self, id: JarId) -> (r: Option<String>)
        ensures
            match r {
                Some(p) => (id.0 as int) < self.view().len() && p@ == self.view()[id.0 as int],
                None => id.0 as int >= self.view().len(),
            },
    {
        self.table.key(id.0)
    }
}

/// Index of a file's URI inside a [`FileTable`].
#[derive(Clone, Copy, PartialEq, Eq, Structural, Hash, Debug)]
pub struct FileId(pub u32);

/// A symbol's location as an interned [`FileId`] plus its range; turned
/// into a [`Location`] only where a location is answered.
#[derive(Clone, Copy, PartialEq, Eq, Structural, Debug)]
pub struct SymbolLoc {
    pub file: FileId,
    pub range: Range,
}

impl SymbolLoc {
    /// The location of `range` in the file `file`.
    pub fn new(file: FileId, range: Range) -> (r: SymbolLoc)
        ensures
            r == (SymbolLoc { file, range }),
    {
        SymbolLoc { file, range }
    }
}

/// Append-only interning table mapping file URIs to [`FileId`]s and back:
/// re-interning a URI returns its existing id, so interned locations stay
/// valid for the table's lifetime.
pub struct FileTable {
    table: InternTable,
}

impl FileTable {
    /// The interned URIs, indexed by id.
    pub closed spec fn view(&self) -> Seq<Seq<char>> {
        self.table.view()
    }

    /// The table is well formed (see [`InternTable::wf`]).
    pub closed spec fn wf(&self) -> bool {
        self.table.wf()
    }

    /// An empty table.
    pub fn new() -> (t: FileTable)
        ensures
            t.wf(),
            t.view() == Seq::<Seq<char>>::empty(),
    {
        FileTable { table: InternTable::new() }
    }

    /// Intern `uri`, returning its stable [`FileId`] (see [`interned`]).
    pub fn intern(&mut self, uri: &str) -> (id: FileId)
        requires
            old(self).wf(),
            old(self).view().contains(uri@) || old(self).view().len() <= u32::MAX,
        ensures
            final(self).wf(),
            (final(self).view(), id.0 as int) == interned(old(self).view(), uri@),
    {
        FileId(self.table.intern(uri))
    }

    /// The interned URI for `id`, or `None` if `id` is not from this table.
    pub fn url(&self, id: FileId) -> (r: Option<String>)
        ensures
            match r {
                Some(u) => (id.0 as int) < self.view().len() && u@ == self.view()[id.0 as int],
                None => id.0 as int >= self.view().len(),
            },
    {
        self.table.key(id.0)
    }

    /// The location an interned symbol location stands for, or `None` if its
    /// file is not from this table.
    pub fn location(&self, loc: SymbolLoc) -> (r: Option<Location>)
        ensures
            match r {
                Some(l) => (loc.file.0 as int) < self.view().len() && l.uri@ == self.view()[loc.file.0 as int]
                    && l.range == loc.range,
                None => loc.file.0 as int >= self.view().len(),
            },
    {
        match self.url(loc.file) {
            Some(uri) => Some(Location { uri, range: loc.range }),
            None => None,
        }
    }
}

/// Interning is idempotent: interning a path a second time changes nothing
/// and returns the id it got the first time.
pub proof fn law_intern_idempotent(paths: Seq<Seq<char>>, p: Seq<char>)
    requires
        paths.no_duplicates(),
    ensures
        interned(interned(paths, p).0, p) == interned(paths, p),
{
    let (t, id) = interned(paths, p);
    if !paths.contains(p) {
        assert(t[paths.len() as int] == p);
        assert(t.contains(p));
        assert(t.index_of(p) == paths.len()) by {
            let k = t.index_of(p);
            assert(t.contains(t[paths.len() as int]));
            if k != paths.len() {
                assert(t[k] == p);
                assert(paths[k] == p);
                assert(paths.contains(p));
            }
        }
    }
}

/// An interned path is found again under its id, and the table only grows:
/// every earlier id keeps its path.
pub proof fn law_intern_round_trip(paths: Seq<Seq<char>>, p: Seq<char>)
    ensures
        0 <= interned(paths, p).1 < interned(paths, p).0.len(),
        interned(paths, p).0[interned(paths, p).1] == p,
        paths.is_prefix_of(interned(paths, p).0),
{
    if paths.contains(p) {
        let k = choose|k: int| 0 <= k < paths.len() && paths[k] == p;
        assert(paths[k] == p);
    }
    assert(paths.is_prefix_of(interned(paths, p).0)) by {
        if !paths.contains(p) {
            assert(paths.push(p).subrange(0, paths.len() as int) =~= paths);
        }
    }
}

/// Distinct paths interned into one table get distinct ids.
pub proof fn law_intern_distinct_ids(paths: Seq<Seq<char>>, p: Seq<char>, q: Seq<char>)
    requires
        paths.no_duplicates(),
        p != q,
    ensures
        interned(interned(paths, p).0, q).1 != interned(paths, p).1,
{
    law_intern_round_trip(paths, p);
    law_intern_round_trip(interned(paths, p).0, q);
    let t = interned(paths, p).0;
    let (u, j) = interned(t, q);
    assert(u[interned(paths, p).1] == t[interned(paths, p).1]) by {
        assert(t.is_prefix_of(u));
    }
}

} // verus!
