//! The registry of named PHP installs (`rux php add <name> <path>`) and
//! where the config file and `.pack` files live.
//!
//! Reading and writing `config.json` (serde) is the caller's side.
use vstd::prelude::*;
use crate::paths::{joined_path, parent_path, path_join, path_parent};
use crate::text::{chars_of, lemma_lex_irreflexive, lemma_lex_total, lemma_lex_transitive, lex_less, lex_lt};

verus! {

/// The texts of registry entries.
pub open spec fn pair_views(e: Seq<(String, String)>) -> Seq<(Seq<char>, Seq<char>)> {
    e.map_values(|p: (String, String)| (p.0@, p.1@))
}

/// The entries' names are in strictly increasing order.
pub open spec fn keys_sorted(e: Seq<(Seq<char>, Seq<char>)>) -> bool {
    forall|i: int, j: int| 0 <= i < j < e.len() ==> lex_lt(#[trigger] e[i].0, #[trigger] e[j].0)
}

/// Some entry is named `k`.
pub open spec fn has_key(e: Seq<(Seq<char>, Seq<char>)>, k: Seq<char>) -> bool {
    exists|i: int| 0 <= i < e.len() && #[trigger] e[i].0 == k
}

/// The path registered under `k`, if any.
pub open spec fn lookup(e: Seq<(Seq<char>, Seq<char>)>, k: Seq<char>) -> Option<Seq<char>> {
    if has_key(e, k) {
        Some(e[choose|i: int| 0 <= i < e.len() && #[trigger] e[i].0 == k].1)
    } else {
        None
    }
}

/// The entries as a map from name to path.
pub open spec fn entry_map(e: Seq<(Seq<char>, Seq<char>)>) -> Map<Seq<char>, Seq<char>> {
    Map::new(|k: Seq<char>| has_key(e, k), |k: Seq<char>| lookup(e, k).unwrap())
}

/// In sorted entries, the entry at `i` is the one `lookup` finds.
proof fn lemma_lookup_at(e: Seq<(Seq<char>, Seq<char>)>, n: int)
    requires
        keys_sorted(e),
        0 <= n < e.len(),
    ensures
        lookup(e, e[n].0) == Some(e[n].1),
{
    let k = e[n].0;
    assert(has_key(e, k));
    let i = choose|i: int| 0 <= i < e.len() && #[trigger] e[i].0 == k;
    lemma_lex_irreflexive(k);
    if i < n {
        assert(lex_lt(e[i].0, e[n].0));
    } else if i > n {
        assert(lex_lt(e[n].0, e[i].0));
    }
}

/// Every entry is in the map, under its name, with its path.
proof fn lemma_entry_map_at(e: Seq<(Seq<char>, Seq<char>)>, n: int)
    requires
        keys_sorted(e),
        0 <= n < e.len(),
    ensures
        entry_map(e).contains_key(e[n].0),
        entry_map(e)[e[n].0] == e[n].1,
{
    lemma_lookup_at(e, n);
    assert(has_key(e, e[n].0));
}

/// Named PHP installs, kept in name order as a `BTreeMap` keeps them.
pub struct PhpRegistry {
    entries: Vec<(String, String)>,
}

impl PhpRegistry {
    #[verifier::type_invariant]
    spec fn inv(self) -> bool {
        keys_sorted(pair_views(self.entries@))
    }

    /// The entries, in name order.
    pub closed spec fn entry_seq(&self) -> Seq<(Seq<char>, Seq<char>)> {
        pair_views(self.entries@)
    }

    /// An empty registry.
    pub fn new() -> (r: Self)
        ensures
            r.entry_seq() == Seq::<(Seq<char>, Seq<char>)>::empty(),
    {
        let r = PhpRegistry { entries: Vec::new() };
        assert(pair_views(r.entries@) =~= Seq::<(Seq<char>, Seq<char>)>::empty());
        r
    }

    /// The entries, in name order.
    pub fn entries(&self) -> (r: &Vec<(String, String)>)
        ensures
            pair_views(r@) == self.entry_seq(),
            keys_sorted(self.entry_seq()),
    {
        proof {
            use_type_invariant(self);
        }
        &self.entries
    }

    /// How many installs are registered.
    pub fn len(&self) -> (n: usize)
        ensures
            n == self.entry_seq().len(),
    {
        self.entries.len()
    }

    /// Whether no install is registered.
    pub fn is_empty(&self) -> (b: bool)
        ensures
            b == (self.entry_seq().len() == 0),
    {
        self.entries.len() == 0
    }

    /// Where `name` would stand: the first entry not before it, and whether
    /// that entry is `name` itself.
    fn position(&self, name: &str) -> (r: (usize, bool))
        ensures
            r.0 <= self.entry_seq().len(),
            forall|k: int| 0 <= k < r.0 ==> lex_lt(#[trigger] self.entry_seq()[k].0, name@),
            r.1 == (r.0 < self.entry_seq().len() && self.entry_seq()[r.0 as int].0 == name@),
            !r.1 ==> forall|k: int|
                r.0 <= k < self.entry_seq().len() ==> lex_lt(name@, #[trigger] self.entry_seq()[k].0),
    {
        proof {
            use_type_invariant(self);
        }
        let ghost e = self.entry_seq();
        let target = chars_of(name);
        let mut p: usize = 0;
        while p < self.entries.len() && lex_less(
            chars_of(self.entries[p].0.as_str()).as_slice(),
            target.as_slice(),
        )
            invariant
                e == self.entry_seq(),
                keys_sorted(e),
                target@ == name@,
                p <= e.len(),
                e.len() == self.entries@.len(),
                forall|k: int| 0 <= k < p ==> lex_lt(#[trigger] e[k].0, name@),
            decreases self.entries.len() - p,
        {
            assert(e[p as int].0 == self.entries@[p as int].0@);
            p = p + 1;
        }
        if p < self.entries.len() {
            assert(e[p as int].0 == self.entries@[p as int].0@);
            let same = crate::text::chars_eq(
                chars_of(self.entries[p].0.as_str()).as_slice(),
                target.as_slice(),
            );
            proof {
                lemma_lex_total(e[p as int].0, name@);
                assert forall|k: int| p <= k < e.len() && !same implies lex_lt(name@, #[trigger] e[k].0) by {
                    if k > p {
                        lemma_lex_transitive(name@, e[p as int].0, e[k].0);
                    }
                }
            }
            (p, same)
        } else {
            (p, false)
        }
    }
}

impl View for PhpRegistry {
    type V = Map<Seq<char>, Seq<char>>;

    open spec fn view(&self) -> Map<Seq<char>, Seq<char>> {
        entry_map(self.entry_seq())
    }
}

impl PhpRegistry {
    /// The path registered under `name`.
    pub fn get(&self, name: &str) -> (r: Option<String>)
        ensures
            match r {
                Some(p) => self@.contains_key(name@) && p@ == self@[name@],
                None => !self@.contains_key(name@),
            },
    {
        proof {
            use_type_invariant(self);
        }
        let (p, same) = self.position(name);
        if same {
            proof {
                lemma_entry_map_at(self.entry_seq(), p as int);
            }
            Some(self.entries[p].1.clone())
        } else {
            proof {
                lemma_lex_irreflexive(name@);
                assert(!has_key(self.entry_seq(), name@));
            }
            None
        }
    }

    /// Whether an install is registered under `name`.
    pub fn contains_key(&self, name: &str) -> (b: bool)
        ensures
            b == self@.contains_key(name@),
    {
        self.get(name).is_some()
    }

    /// Registers `path` under `name`, replacing and returning what was
    /// registered there before.
    pub fn insert(&mut self, name: String, path: String) -> (r: Option<String>)
        ensures
            final(self)@ == old(self)@.insert(name@, path@),
            match r {
                Some(p) => old(self)@.contains_key(name@) && p@ == old(self)@[name@],
                None => !old(self)@.contains_key(name@),
            },
    {
        proof {
            use_type_invariant(&*self);
        }
        let ghost e = self.entry_seq();
        let (p, same) = self.position(name.as_str());
        let ghost nv = name@;
        let ghost pv = path@;
        if same {
            let previous = self.entries[p].1.clone();
            proof {
                lemma_entry_map_at(e, p as int);
            }
            let mut entries: Vec<(String, String)> = Vec::new();
            std::mem::swap(&mut entries, &mut self.entries);
            entries.set(p, (name, path));
            assert(pair_views(entries@) =~= e.update(p as int, (nv, pv)));
            self.entries = entries;
            let ghost f = self.entry_seq();
            assert(f =~= e.update(p as int, (nv, pv)));
            assert(keys_sorted(f));
            proof {
                assert forall|x: Seq<char>| has_key(f, x) == has_key(e, x) by {
                    if has_key(e, x) {
                        let q = choose|q: int| 0 <= q < e.len() && #[trigger] e[q].0 == x;
                        assert(f[q].0 == x);
                    }
                    if has_key(f, x) {
                        let q = choose|q: int| 0 <= q < f.len() && #[trigger] f[q].0 == x;
                        assert(e[q].0 == x);
                    }
                }
                assert forall|x: Seq<char>| #[trigger] entry_map(f).contains_key(x) implies entry_map(f)[x] == entry_map(e).insert(nv, pv)[x] by {
                    let q = choose|q: int| 0 <= q < f.len() && #[trigger] f[q].0 == x;
                    lemma_entry_map_at(f, q);
                    lemma_entry_map_at(e, q);
                    lemma_lex_irreflexive(x);
                    if q < p {
                        assert(lex_lt(f[q].0, f[p as int].0));
                    } else if q > p {
                        assert(lex_lt(f[p as int].0, f[q].0));
                    }
                }
                assert(entry_map(f) =~= entry_map(e).insert(nv, pv));
            }
            Some(previous)
        } else {
            proof {
                lemma_lex_irreflexive(nv);
                assert(!has_key(e, nv));
            }
            let mut entries: Vec<(String, String)> = Vec::new();
            std::mem::swap(&mut entries, &mut self.entries);
            entries.insert(p, (name, path));
            proof {
                let f = pair_views(entries@);
                assert(f =~= e.insert(p as int, (nv, pv)));
                assert forall|i: int, j: int| 0 <= i < j < f.len() implies lex_lt(#[trigger] f[i].0, #[trigger] f[j].0) by {
                    if j < p {
                    } else if j == p {
                    } else if i < p {
                        lemma_lex_transitive(f[i].0, nv, f[j].0);
                    } else if i == p {
                    } else {
                    }
                }
            }
            self.entries = entries;
            let ghost f = self.entry_seq();
            assert(f =~= e.insert(p as int, (nv, pv)));
            assert forall|i: int, j: int| 0 <= i < j < f.len() implies lex_lt(#[trigger] f[i].0, #[trigger] f[j].0) by {
                if j < p {
                } else if j == p {
                } else if i < p {
                    lemma_lex_transitive(f[i].0, nv, f[j].0);
                } else if i == p {
                } else {
                }
            }
            proof {
                assert forall|x: Seq<char>| has_key(f, x) == (has_key(e, x) || x == nv) by {
                    if has_key(e, x) {
                        let q = choose|q: int| 0 <= q < e.len() && #[trigger] e[q].0 == x;
                        if q < p {
                            assert(f[q].0 == x);
                        } else {
                            assert(f[q + 1].0 == x);
                        }
                    }
                    if x == nv {
                        assert(f[p as int].0 == x);
                    }
                    if has_key(f, x) {
                        let q = choose|q: int| 0 <= q < f.len() && #[trigger] f[q].0 == x;
                        if q < p {
                            assert(e[q].0 == x);
                        } else if q > p {
                            assert(e[q - 1].0 == x);
                        }
                    }
                }
                assert forall|x: Seq<char>| #[trigger] entry_map(f).contains_key(x) implies entry_map(f)[x] == entry_map(e).insert(nv, pv)[x] by {
                    let q = choose|q: int| 0 <= q < f.len() && #[trigger] f[q].0 == x;
                    lemma_entry_map_at(f, q);
                    if q < p {
                        lemma_entry_map_at(e, q);
                    } else if q > p {
                        lemma_entry_map_at(e, q - 1);
                    }
                }
                assert(entry_map(f) =~= entry_map(e).insert(nv, pv));
            }
            None
        }
    }

    /// Unregisters `name`, returning the path that was registered there.
    pub fn remove(&mut self, name: &str) -> (r: Option<String>)
        ensures
            final(self)@ == old(self)@.remove(name@),
            match r {
                Some(p) => old(self)@.contains_key(name@) && p@ == old(self)@[name@],
                None => !old(self)@.contains_key(name@),
            },
    {
        proof {
            use_type_invariant(&*self);
        }
        let ghost e = self.entry_seq();
        let (p, same) = self.position(name);
        if same {
            proof {
                lemma_entry_map_at(e, p as int);
            }
            let mut entries: Vec<(String, String)> = Vec::new();
            std::mem::swap(&mut entries, &mut self.entries);
            let (_, previous) = entries.remove(p);
            assert(pair_views(entries@) =~= e.remove(p as int));
            self.entries = entries;
            let ghost f = self.entry_seq();
            assert(f =~= e.remove(p as int));
            proof {
                assert forall|x: Seq<char>| has_key(f, x) == (has_key(e, x) && x != name@) by {
                    if has_key(e, x) && x != name@ {
                        let q = choose|q: int| 0 <= q < e.len() && #[trigger] e[q].0 == x;
                        if q < p {
                            assert(f[q].0 == x);
                        } else {
                            assert(q != p);
                            assert(f[q - 1].0 == x);
                        }
                    }
                    if has_key(f, x) {
                        let q = choose|q: int| 0 <= q < f.len() && #[trigger] f[q].0 == x;
                        if q < p {
                            assert(e[q].0 == x);
                            assert(lex_lt(e[q].0, e[p as int].0));
                            lemma_lex_irreflexive(x);
                        } else {
                            assert(e[q + 1].0 == x);
                            assert(lex_lt(e[p as int].0, e[q + 1].0));
                            lemma_lex_irreflexive(x);
                        }
                    }
                }
                assert forall|x: Seq<char>| #[trigger] entry_map(f).contains_key(x) implies entry_map(f)[x] == entry_map(e).remove(name@)[x] by {
                    let q = choose|q: int| 0 <= q < f.len() && #[trigger] f[q].0 == x;
                    lemma_entry_map_at(f, q);
                    if q < p {
                        lemma_entry_map_at(e, q);
                    } else {
                        lemma_entry_map_at(e, q + 1);
                    }
                }
                assert(entry_map(f) =~= entry_map(e).remove(name@));
            }
            Some(previous)
        } else {
            proof {
                lemma_lex_irreflexive(name@);
                assert(!has_key(e, name@));
                assert(entry_map(e) =~= entry_map(e).remove(name@));
            }
            None
        }
    }
}

/// How many of the entries `e` are named in `m`.
pub open spec fn count_present(e: Seq<(Seq<char>, Seq<char>)>, m: Map<Seq<char>, Seq<char>>) -> nat
    decreases e.len(),
{
    if e.len() == 0 {
        0
    } else {
        count_present(e.drop_last(), m) + if m.contains_key(e.last().0) {
            1nat
        } else {
            0nat
        }
    }
}

/// The map of one more sorted entry adds that entry.
proof fn lemma_entry_map_push(e: Seq<(Seq<char>, Seq<char>)>, n: int)
    requires
        keys_sorted(e),
        0 <= n < e.len(),
    ensures
        entry_map(e.take(n + 1)) == entry_map(e.take(n)).insert(e[n].0, e[n].1),
        !entry_map(e.take(n)).contains_key(e[n].0),
{
    let a = e.take(n);
    let b = e.take(n + 1);
    assert(keys_sorted(a));
    assert(keys_sorted(b));
    lemma_lex_irreflexive(e[n].0);
    assert forall|x: Seq<char>| has_key(b, x) == (has_key(a, x) || x == e[n].0) by {
        if has_key(a, x) {
            let q = choose|q: int| 0 <= q < a.len() && #[trigger] a[q].0 == x;
            assert(b[q].0 == x);
        }
        if x == e[n].0 {
            assert(b[n].0 == x);
        }
        if has_key(b, x) {
            let q = choose|q: int| 0 <= q < b.len() && #[trigger] b[q].0 == x;
            if q < n {
                assert(a[q].0 == x);
            }
        }
    }
    assert(!has_key(a, e[n].0)) by {
        if has_key(a, e[n].0) {
            let q = choose|q: int| 0 <= q < a.len() && #[trigger] a[q].0 == e[n].0;
            assert(lex_lt(e[q].0, e[n].0));
        }
    }
    assert forall|x: Seq<char>| #[trigger] entry_map(b).contains_key(x) implies entry_map(b)[x]
        == entry_map(a).insert(e[n].0, e[n].1)[x] by {
        let q = choose|q: int| 0 <= q < b.len() && #[trigger] b[q].0 == x;
        lemma_entry_map_at(b, q);
        if q < n {
            lemma_entry_map_at(a, q);
            assert(lex_lt(e[q].0, e[n].0));
        }
    }
    assert(entry_map(b) =~= entry_map(a).insert(e[n].0, e[n].1));
}

/// The persisted configuration: the PHP registry.
pub struct AppConfig {
    pub php_versions: PhpRegistry,
}

impl Default for AppConfig {
    fn default() -> (r: Self)
        ensures
            r.php_versions@ == Map::<Seq<char>, Seq<char>>::empty(),
    {
        let php_versions = PhpRegistry::new();
        assert(php_versions@ =~= Map::<Seq<char>, Seq<char>>::empty());
        AppConfig { php_versions }
    }
}

/// The text of an optional string.
pub open spec fn opt_view(o: Option<String>) -> Option<Seq<char>> {
    match o {
        Some(s) => Some(s@),
        None => None,
    }
}

/// The config file in use: the portable one (`portable`, next to the
/// executable) when it exists as a file, else `config.json` under
/// `data_dir`.
pub open spec fn config_location(data_dir: Seq<char>, portable: Option<Seq<char>>, portable_is_file: bool) -> Seq<char> {
    match portable {
        Some(p) => if portable_is_file {
            p
        } else {
            joined_path(data_dir, "config.json"@)
        },
        None => joined_path(data_dir, "config.json"@),
    }
}

/// The directory `.pack` files live in: `packs` beside a portable config
/// in use, else `packs` under `data_dir`.
pub open spec fn packs_location(data_dir: Seq<char>, portable: Option<Seq<char>>, portable_is_file: bool) -> Seq<char> {
    match portable {
        Some(p) => if portable_is_file && parent_path(p) is Some {
            joined_path(parent_path(p).unwrap(), "packs"@)
        } else {
            joined_path(data_dir, "packs"@)
        },
        None => joined_path(data_dir, "packs"@),
    }
}

/// With a portable config in use (one whose path has a parent), `.pack`
/// files live in `packs` beside that config file. Without one, both live
/// under `data_dir` (`config.json` and `packs` there).
pub proof fn law_packs_beside_portable_config(
    data_dir: Seq<char>,
    portable: Option<Seq<char>>,
    portable_is_file: bool,
)
    ensures
        (portable matches Some(p) && portable_is_file && parent_path(p) is Some) ==> packs_location(
            data_dir,
            portable,
            portable_is_file,
        ) == joined_path(
            parent_path(config_location(data_dir, portable, portable_is_file)).unwrap(),
            "packs"@,
        ),
        !(portable matches Some(p) && portable_is_file) ==> config_location(
            data_dir,
            portable,
            portable_is_file,
        ) == joined_path(data_dir, "config.json"@) && packs_location(
            data_dir,
            portable,
            portable_is_file,
        ) == joined_path(data_dir, "packs"@),
{
}

impl AppConfig {
    /// The default (non-portable) config location, under the app data dir.
    pub fn config_path(data_dir: &str) -> (r: String)
        ensures
            r@ == joined_path(data_dir@, "config.json"@),
    {
        path_join(data_dir, "config.json")
    }

    /// The config file to use: the portable one next to the executable
    /// (`portable`, when the executable's directory is known) if it exists
    /// as a file (`portable_is_file`), otherwise the default location.
    pub fn resolve_path(data_dir: &str, portable: &Option<String>, portable_is_file: bool) -> (r: String)
        ensures
            r@ == config_location(data_dir@, opt_view(*portable), portable_is_file),
    {
        match portable {
            Some(p) => if portable_is_file {
                p.clone()
            } else {
                Self::config_path(data_dir)
            },
            None => Self::config_path(data_dir),
        }
    }

    /// Where `.pack` files live: next to a portable config in use, otherwise
    /// under the app data dir.
    pub fn packs_dir(data_dir: &str, portable: &Option<String>, portable_is_file: bool) -> (r: String)
        ensures
            r@ == packs_location(data_dir@, opt_view(*portable), portable_is_file),
    {
        if let Some(p) = portable {
            if portable_is_file {
                if let Some(dir) = path_parent(p.as_str()) {
                    return path_join(dir.as_str(), "packs");
                }
            }
        }
        path_join(data_dir, "packs")
    }

    /// Resolves a `php` argument that is either a name registered with
    /// `rux php add` or a literal path.
    pub fn resolve_php_reference(&self, reference: &str) -> (r: String)
        ensures
            r@ == if self.php_versions@.contains_key(reference@) {
                self.php_versions@[reference@]
            } else {
                reference@
            },
    {
        match self.php_versions.get(reference) {
            Some(path) => path,
            None => reference.to_owned(),
        }
    }

    /// Merges an imported registry into this one: entries with the same
    /// name are updated, everything else registered here is left alone.
    /// Returns how many entries were added and how many updated.
    pub fn import(&mut self, imported: &PhpRegistry) -> (r: (usize, usize))
        ensures
            final(self).php_versions@ == old(self).php_versions@.union_prefer_right(imported@),
            r.1 == count_present(imported.entry_seq(), old(self).php_versions@),
            r.0 + r.1 == imported.entry_seq().len(),
    {
        let entries = imported.entries();
        let ghost e = imported.entry_seq();
        let ghost start = self.php_versions@;
        let mut added: usize = 0;
        let mut updated: usize = 0;
        assert(entry_map(e.take(0)) =~= Map::<Seq<char>, Seq<char>>::empty());
        assert(start.union_prefer_right(Map::<Seq<char>, Seq<char>>::empty()) =~= start);
        for i in 0..entries.len()
            invariant
                pair_views(entries@) == e,
                keys_sorted(e),
                self.php_versions@ == start.union_prefer_right(entry_map(e.take(i as int))),
                updated == count_present(e.take(i as int), start),
                added + updated == i,
        {
            proof {
                lemma_entry_map_push(e, i as int);
                assert(e.take(i + 1).drop_last() =~= e.take(i as int));
            }
            let (name, path) = &entries[i];
            assert(name@ == e[i as int].0 && path@ == e[i as int].1);
            let ghost before = self.php_versions@;
            if self.php_versions.insert(name.clone(), path.clone()).is_some() {
                updated = updated + 1;
            } else {
                added = added + 1;
            }
            assert(self.php_versions@ =~= start.union_prefer_right(entry_map(e.take(i + 1))));
        }
        assert(e.take(entries.len() as int) =~= e);
        (added, updated)
    }
}


/// Reading the registry back after a write (over the map that `get`,
/// `insert` and `remove` speak of): after registering `path` under `name`,
/// `name` gives `path`; after removing `name`, it gives nothing; either way
/// every other name keeps what it had.
pub proof fn law_registry_read_after_write(
    m: Map<Seq<char>, Seq<char>>,
    name: Seq<char>,
    path: Seq<char>,
    other: Seq<char>,
)
    requires
        other != name,
    ensures
        m.insert(name, path).contains_key(name),
        m.insert(name, path)[name] == path,
        !m.remove(name).contains_key(name),
        m.insert(name, path).contains_key(other) == m.contains_key(other),
        m.remove(name).contains_key(other) == m.contains_key(other),
        m.contains_key(other) ==> m.insert(name, path)[other] == m[other] && m.remove(name)[other]
            == m[other],
{
}

} // verus!
