//! The durable key/value store: a map from location key to namespace,
//! serialized as one JSON document and written by atomic replacement.
//!
//! The `Store` trait is the interface the record managers work against.
//! `JsonFileStore` is the production implementation: it keeps the map in
//! memory, parses it from the file's contents at construction, and
//! renders the encoded document that the caller writes to a fresh
//! temporary file and renames over the target. `MemStore` keeps the map
//! in memory only.

use vstd::prelude::*;
use crate::assoc::{akeys_unique, amap, lemma_amap_at, lemma_amap_dom, lemma_amap_push,
    lemma_amap_remove, lemma_amap_update};
use crate::codec::{enc_store, parse_store, push_store, sp_store, store_view};
use crate::namespace::Namespace;
use crate::record::RecordV;
use crate::text::{chars_to_string, str_to_chars};
use vstd::string::StringExecFns;

verus! {

/// What the contents of a store file denote: the parsed store, provided
/// the whole file parses and both key levels are free of duplicates.
pub open spec fn store_of_text(t: Seq<char>) -> Option<
    Seq<(Seq<char>, Seq<(Seq<char>, RecordV)>)>,
> {
    match sp_store(t) {
        Some((st, rest)) => {
            if rest.len() == 0 && store_rep_wf(st) {
                Some(st)
            } else {
                None
            }
        },
        None => None,
    }
}

/// Both key levels are duplicate-free.
pub open spec fn store_rep_wf(st: Seq<(Seq<char>, Seq<(Seq<char>, RecordV)>)>) -> bool {
    akeys_unique(st) && forall|i: int| 0 <= i < st.len() ==> akeys_unique((#[trigger] st[i]).1)
}

/// Every namespace held by the map is duplicate-free.
pub open spec fn contents_wf(m: Map<Seq<char>, Seq<(Seq<char>, RecordV)>>) -> bool {
    forall|k: Seq<char>| #[trigger] m.contains_key(k) ==> akeys_unique(m[k])
}

proof fn lemma_rep_wf_contents(st: Seq<(Seq<char>, Seq<(Seq<char>, RecordV)>)>)
    requires
        store_rep_wf(st),
    ensures
        contents_wf(amap(st)),
{
    lemma_amap_dom(st);
    assert forall|k: Seq<char>| #[trigger] amap(st).contains_key(k) implies akeys_unique(
        amap(st)[k],
    ) by {
        let w = choose|w: int| 0 <= w < st.len() && (#[trigger] st[w]).0 == k;
        lemma_amap_at(st, w);
    }
}

/// The interface both store implementations satisfy: a mutable map from
/// location key to namespace. Every namespace handed out or taken in
/// satisfies the name-uniqueness invariant.
pub trait Store: Sized {
    spec fn contents(&self) -> Map<Seq<char>, Seq<(Seq<char>, RecordV)>>;

    spec fn wf(&self) -> bool;

    /// A read of the in-memory map; no file is touched.
    fn get<'a>(&'a self, key: &String) -> (r: Option<&'a Namespace>)
        requires
            self.wf(),
        ensures
            match r {
                Some(ns) => self.contents().contains_key(key@) && ns@ == self.contents()[key@]
                    && ns.wf(),
                None => !self.contents().contains_key(key@),
            },
    ;

    /// Replaces the namespace stored under `key`.
    fn insert(&mut self, key: String, value: Namespace)
        requires
            old(self).wf(),
            value.wf(),
        ensures
            final(self).wf(),
            final(self).contents() == old(self).contents().insert(key@, value@),
    ;

    /// Removes and returns the namespace stored under `key`, if any.
    fn remove(&mut self, key: &String) -> (r: Option<Namespace>)
        requires
            old(self).wf(),
        ensures
            final(self).wf(),
            final(self).contents() == old(self).contents().remove(key@),
            match r {
                Some(ns) => old(self).contents().contains_key(key@) && ns@ == old(
                    self,
                ).contents()[key@] && ns.wf(),
                None => !old(self).contents().contains_key(key@),
            },
    ;

    /// The underlying entries, for whole-store scans.
    fn entries<'a>(&'a self) -> (r: &'a Vec<(String, Namespace)>)
        requires
            self.wf(),
        ensures
            amap(store_view(r@)) == self.contents(),
            akeys_unique(store_view(r@)),
            forall|i: int|
                0 <= i < r@.len() ==> akeys_unique((#[trigger] store_view(r@)[i]).1),
    ;
}

fn sfind(entries: &Vec<(String, Namespace)>, key: &String) -> (r: Option<usize>)
    ensures
        match r {
            Some(i) => i < entries.len() && store_view(entries@)[i as int].0 == key@,
            None => forall|j: int|
                0 <= j < entries@.len() ==> (#[trigger] store_view(entries@)[j]).0 != key@,
        },
{
    let mut i: usize = 0;
    while i < entries.len()
        invariant
            i <= entries.len(),
            forall|j: int| 0 <= j < i ==> (#[trigger] store_view(entries@)[j]).0 != key@,
        decreases entries.len() - i,
    {
        if entries[i].0 == *key {
            assert(store_view(entries@)[i as int].0 == key@);
            return Some(i);
        }
        assert(store_view(entries@)[i as int].0 != key@);
        i = i + 1;
    }
    None
}

fn sget<'a>(entries: &'a Vec<(String, Namespace)>, key: &String) -> (r: Option<&'a Namespace>)
    requires
        akeys_unique(store_view(entries@)),
    ensures
        match r {
            Some(ns) => amap(store_view(entries@)).contains_key(key@) && ns@ == amap(
                store_view(entries@),
            )[key@],
            None => !amap(store_view(entries@)).contains_key(key@),
        },
{
    let ghost sv = store_view(entries@);
    proof {
        lemma_amap_dom(sv);
    }
    match sfind(entries, key) {
        Some(i) => {
            proof {
                lemma_amap_at(sv, i as int);
            }
            Some(&entries[i].1)
        },
        None => {
            proof {
                if amap(sv).contains_key(key@) {
                    let w = choose|w: int| 0 <= w < sv.len() && (#[trigger] sv[w]).0 == key@;
                }
            }
            None
        },
    }
}

fn sinsert(entries: &mut Vec<(String, Namespace)>, key: String, value: Namespace)
    requires
        akeys_unique(store_view(old(entries)@)),
    ensures
        akeys_unique(store_view(final(entries)@)),
        amap(store_view(final(entries)@)) == amap(store_view(old(entries)@)).insert(key@, value@),
{
    let ghost oldv = store_view(entries@);
    let ghost valv = value@;
    match sfind(entries, &key) {
        Some(i) => {
            proof {
                lemma_amap_update(oldv, i as int, valv);
            }
            entries.set(i, (key, value));
            proof {
                assert(store_view(entries@) =~= oldv.update(i as int, (oldv[i as int].0, valv)));
            }
        },
        None => {
            proof {
                lemma_amap_push(oldv, key@, valv);
            }
            entries.push((key, value));
            proof {
                assert(store_view(entries@) =~= oldv.push((key@, valv)));
            }
        },
    }
}

fn sremove(entries: &mut Vec<(String, Namespace)>, key: &String) -> (r: Option<Namespace>)
    requires
        akeys_unique(store_view(old(entries)@)),
    ensures
        akeys_unique(store_view(final(entries)@)),
        amap(store_view(final(entries)@)) == amap(store_view(old(entries)@)).remove(key@),
        match r {
            Some(ns) => amap(store_view(old(entries)@)).contains_key(key@) && ns@ == amap(
                store_view(old(entries)@),
            )[key@],
            None => !amap(store_view(old(entries)@)).contains_key(key@),
        },
{
    let ghost oldv = store_view(entries@);
    proof {
        lemma_amap_dom(oldv);
    }
    match sfind(entries, key) {
        Some(i) => {
            proof {
                lemma_amap_at(oldv, i as int);
                lemma_amap_remove(oldv, i as int);
            }
            let e = entries.remove(i);
            proof {
                assert(store_view(entries@) =~= oldv.remove(i as int));
            }
            Some(e.1)
        },
        None => {
            proof {
                if amap(oldv).contains_key(key@) {
                    let w = choose|w: int| 0 <= w < oldv.len() && (#[trigger] oldv[w]).0 == key@;
                }
                assert(amap(oldv).remove(key@) =~= amap(oldv));
            }
            None
        },
    }
}

/// Checks that location keys are unique and every namespace satisfies
/// its own invariant.
fn scheck_wf(entries: &Vec<(String, Namespace)>) -> (r: bool)
    ensures
        r == store_rep_wf(store_view(entries@)),
{
    let n = entries.len();
    let mut i: usize = 0;
    while i < n
        invariant
            i <= n,
            n == entries.len(),
            forall|a: int, b: int|
                0 <= a < b < entries@.len() && a < i ==> (#[trigger] store_view(entries@)[a]).0
                    != (#[trigger] store_view(entries@)[b]).0,
            forall|a: int| 0 <= a < i ==> akeys_unique((#[trigger] store_view(entries@)[a]).1),
        decreases n - i,
    {
        if !entries[i].1.check_wf() {
            assert(!akeys_unique(store_view(entries@)[i as int].1));
            return false;
        }
        assert(akeys_unique(store_view(entries@)[i as int].1));
        let mut j: usize = i + 1;
        while j < n
            invariant
                i < j <= n,
                n == entries.len(),
                forall|b: int|
                    i < b < j ==> store_view(entries@)[i as int].0 != (#[trigger] store_view(
                        entries@,
                    )[b]).0,
            decreases n - j,
        {
            if entries[i].0 == entries[j].0 {
                assert(store_view(entries@)[i as int].0 == store_view(entries@)[j as int].0);
                return false;
            }
            assert(store_view(entries@)[i as int].0 != store_view(entries@)[j as int].0);
            j = j + 1;
        }
        i = i + 1;
    }
    true
}

/// A store file that exists cannot be used: it does not parse as a
/// store document, or it holds duplicate keys.
#[derive(Debug, PartialEq, Eq)]
pub enum StoreInitError {
    Corrupt,
}

impl StoreInitError {
    /// The message shown when initialization fails.
    pub fn message(&self) -> (r: String)
        ensures
            r@ == "Failed to deserialize store"@,
    {
        String::from_str("Failed to deserialize store")
    }
}

/// The file-backed store. Mutations update the in-memory map; the
/// caller persists `encoded()` by writing it to `temp_name()` and
/// renaming that file over `file_name`.
pub struct JsonFileStore {
    pub file_name: String,
    pub store_entries: Vec<(String, Namespace)>,
}

impl JsonFileStore {
    pub open spec fn rep(&self) -> Seq<(Seq<char>, Seq<(Seq<char>, RecordV)>)> {
        store_view(self.store_entries@)
    }

    /// Builds the store from the backing file's contents: `None` when
    /// the file does not exist (an empty store), `Some` text otherwise.
    /// Text that does not denote a store is a fatal initialization
    /// error.
    pub fn new(name: String, contents: Option<&str>) -> (r: Result<JsonFileStore, StoreInitError>)
        ensures
            match r {
                Ok(s) => {
                    &&& s.wf()
                    &&& s.file_name@ == name@
                    &&& match contents {
                        None => s.rep().len() == 0 && s.contents() == Map::<
                            Seq<char>,
                            Seq<(Seq<char>, RecordV)>,
                        >::empty(),
                        Some(t) => store_of_text(t@) == Some(s.rep()),
                    }
                },
                Err(_) => contents is Some && store_of_text(contents.unwrap()@) is None,
            },
    {
        match contents {
            None => {
                let s = JsonFileStore { file_name: name, store_entries: Vec::new() };
                proof {
                    assert(s.rep() =~= Seq::<(Seq<char>, Seq<(Seq<char>, RecordV)>)>::empty());
                }
                Ok(s)
            },
            Some(text) => {
                let chars = str_to_chars(text);
                match parse_store(&chars, 0) {
                    None => {
                        proof {
                            assert(chars@.skip(0) =~= text@);
                        }
                        Err(StoreInitError::Corrupt)
                    },
                    Some((entries, p)) => {
                        proof {
                            assert(chars@.skip(0) =~= text@);
                        }
                        if p != chars.len() {
                            proof {
                                assert(chars@.skip(p as int).len() > 0);
                            }
                            return Err(StoreInitError::Corrupt);
                        }
                        proof {
                            assert(chars@.skip(p as int).len() == 0);
                            assert(chars@.skip(p as int) =~= Seq::<char>::empty());
                        }
                        if !scheck_wf(&entries) {
                            return Err(StoreInitError::Corrupt);
                        }
                        proof {
                            lemma_rep_wf_contents(store_view(entries@));
                        }
                        Ok(JsonFileStore { file_name: name, store_entries: entries })
                    },
                }
            },
        }
    }

    /// The encoded document that a save writes: the whole map,
    /// serialized. Parsing it yields the map back (see
    /// `lemma_store_reload`).
    pub fn encoded(&self) -> (r: String)
        requires
            self.wf(),
        ensures
            r@ == enc_store(self.rep()),
    {
        let mut buf: Vec<char> = Vec::new();
        push_store(&mut buf, &self.store_entries);
        proof {
            assert(buf@ =~= enc_store(self.rep()));
        }
        chars_to_string(&buf)
    }

    /// Relies on uuid's `Uuid::new_v4` and its display form for a
    /// random token; nothing is assumed of the token's value.
    #[verifier::external_body]
    fn fresh_token() -> String {
        uuid::Uuid::new_v4().to_string()
    }

    /// A temporary file name for one save attempt: a random token, the
    /// target name, and a `.tmp` suffix, so that concurrent saves never
    /// collide on the temporary file.
    pub fn temp_name(&self) -> (r: String)
        ensures
            exists|t: Seq<char>| r@ == t + "-"@ + self.file_name@ + ".tmp"@,
    {
        let mut s = Self::fresh_token();
        let ghost tok = s@;
        s.append("-");
        s.append(self.file_name.as_str());
        s.append(".tmp");
        proof {
            assert(s@ == tok + "-"@ + self.file_name@ + ".tmp"@);
        }
        s
    }
}

impl Store for JsonFileStore {
    open spec fn contents(&self) -> Map<Seq<char>, Seq<(Seq<char>, RecordV)>> {
        amap(self.rep())
    }

    open spec fn wf(&self) -> bool {
        akeys_unique(self.rep()) && contents_wf(amap(self.rep()))
    }

    fn get<'a>(&'a self, key: &String) -> (r: Option<&'a Namespace>) {
        let r = sget(&self.store_entries, key);
        proof {
            if r is Some {
                let ns = r.unwrap();
                lemma_amap_dom(self.rep());
                let w = choose|w: int| 0 <= w < self.rep().len() && (#[trigger] self.rep()[w]).0
                    == key@;
                lemma_amap_at(self.rep(), w);
            }
        }
        r
    }

    fn insert(&mut self, key: String, value: Namespace) {
        let ghost valv = value@;
        let ghost k = key@;
        sinsert(&mut self.store_entries, key, value);
        proof {
            let m = amap(old(self).rep());
            assert forall|q: Seq<char>| #[trigger] m.insert(k, valv).contains_key(q) implies
                akeys_unique(m.insert(k, valv)[q]) by {
                if q != k {
                    assert(m.contains_key(q));
                }
            }
        }
    }

    fn remove(&mut self, key: &String) -> (r: Option<Namespace>) {
        let ghost oldrep = self.rep();
        let r = sremove(&mut self.store_entries, key);
        proof {
            let m = amap(oldrep);
            assert forall|q: Seq<char>| #[trigger] m.remove(key@).contains_key(q) implies
                akeys_unique(m.remove(key@)[q]) by {
                assert(m.contains_key(q));
            }
            if r is Some {
                let ns = r.unwrap();
                lemma_amap_dom(oldrep);
                let w = choose|w: int| 0 <= w < oldrep.len() && (#[trigger] oldrep[w]).0 == key@;
                lemma_amap_at(oldrep, w);
            }
        }
        r
    }

    fn entries<'a>(&'a self) -> (r: &'a Vec<(String, Namespace)>) {
        proof {
            let sv = self.rep();
            assert forall|i: int| 0 <= i < sv.len() implies akeys_unique(
                (#[trigger] sv[i]).1,
            ) by {
                lemma_amap_at(sv, i);
            }
        }
        &self.store_entries
    }
}

/// The in-memory store, for callers that want no persistence.
pub struct MemStore {
    pub store_entries: Vec<(String, Namespace)>,
}

impl MemStore {
    pub open spec fn rep(&self) -> Seq<(Seq<char>, Seq<(Seq<char>, RecordV)>)> {
        store_view(self.store_entries@)
    }

    /// An empty in-memory store.
    pub fn new() -> (r: MemStore)
        ensures
            r.wf(),
            r.contents() == Map::<Seq<char>, Seq<(Seq<char>, RecordV)>>::empty(),
    {
        let r = MemStore { store_entries: Vec::new() };
        proof {
            assert(r.rep() =~= Seq::<(Seq<char>, Seq<(Seq<char>, RecordV)>)>::empty());
        }
        r
    }
}

impl Store for MemStore {
    open spec fn contents(&self) -> Map<Seq<char>, Seq<(Seq<char>, RecordV)>> {
        amap(self.rep())
    }

    open spec fn wf(&self) -> bool {
        akeys_unique(self.rep()) && contents_wf(amap(self.rep()))
    }

    fn get<'a>(&'a self, key: &String) -> (r: Option<&'a Namespace>) {
        let r = sget(&self.store_entries, key);
        proof {
            if r is Some {
                lemma_amap_dom(self.rep());
                let w = choose|w: int| 0 <= w < self.rep().len() && (#[trigger] self.rep()[w]).0
                    == key@;
                lemma_amap_at(self.rep(), w);
            }
        }
        r
    }

    fn insert(&mut self, key: String, value: Namespace) {
        let ghost valv = value@;
        let ghost k = key@;
        sinsert(&mut self.store_entries, key, value);
        proof {
            let m = amap(old(self).rep());
            assert forall|q: Seq<char>| #[trigger] m.insert(k, valv).contains_key(q) implies
                akeys_unique(m.insert(k, valv)[q]) by {
                if q != k {
                    assert(m.contains_key(q));
                }
            }
        }
    }

    fn remove(&mut self, key: &String) -> (r: Option<Namespace>) {
        let ghost oldrep = self.rep();
        let r = sremove(&mut self.store_entries, key);
        proof {
            let m = amap(oldrep);
            assert forall|q: Seq<char>| #[trigger] m.remove(key@).contains_key(q) implies
                akeys_unique(m.remove(key@)[q]) by {
                assert(m.contains_key(q));
            }
            if r is Some {
                lemma_amap_dom(oldrep);
                let w = choose|w: int| 0 <= w < oldrep.len() && (#[trigger] oldrep[w]).0 == key@;
                lemma_amap_at(oldrep, w);
            }
        }
        r
    }

    fn entries<'a>(&'a self) -> (r: &'a Vec<(String, Namespace)>) {
        proof {
            let sv = self.rep();
            assert forall|i: int| 0 <= i < sv.len() implies akeys_unique(
                (#[trigger] sv[i]).1,
            ) by {
                lemma_amap_at(sv, i);
            }
        }
        &self.store_entries
    }
}

/// The persistence law: a store whose encoded document is written out
/// and read back yields the same store.
pub proof fn lemma_store_reload(st: Seq<(Seq<char>, Seq<(Seq<char>, RecordV)>)>)
    requires
        store_rep_wf(st),
    ensures
        store_of_text(enc_store(st)) == Some(st),
{
    crate::codec::lemma_store_round_trip(st);
}

/// The location key a lookup context resolves to: the decimal form of
/// the community identifier, or the generic marker.
pub open spec fn spec_location_key(guild: Option<u64>) -> Seq<char> {
    match guild {
        None => "generic"@,
        Some(g) => crate::numfmt::dec_nat(g as nat),
    }
}

/// Renders the storage key for a lookup context.
pub fn get_database_location(guild: Option<u64>) -> (r: String)
    ensures
        r@ == spec_location_key(guild),
{
    match guild {
        None => String::from_str("generic"),
        Some(g) => {
            let digits = crate::numfmt::u64_to_digits(g);
            chars_to_string(&digits)
        },
    }
}

/// The namespace a store holds at `k`, or the empty one.
pub open spec fn ns_at(
    m: Map<Seq<char>, Seq<(Seq<char>, RecordV)>>,
    k: Seq<char>,
) -> Seq<(Seq<char>, RecordV)> {
    if m.contains_key(k) {
        m[k]
    } else {
        Seq::empty()
    }
}

/// The store's contents as a map of maps: location key to the mapping
/// from record name to record.
pub open spec fn ns_maps(m: Map<Seq<char>, Seq<(Seq<char>, RecordV)>>) -> Map<
    Seq<char>,
    Map<Seq<char>, RecordV>,
> {
    Map::new(|k: Seq<char>| m.contains_key(k), |k: Seq<char>| amap(m[k]))
}

/// The records visible from a lookup context: the generic namespace,
/// overlaid (when a location is given) by that location's namespace,
/// whose records win on a shared name.
pub open spec fn spec_possible(
    m: Map<Seq<char>, Seq<(Seq<char>, RecordV)>>,
    guild: Option<u64>,
) -> Map<Seq<char>, RecordV> {
    match guild {
        None => amap(ns_at(m, "generic"@)),
        Some(g) => amap(ns_at(m, "generic"@)).union_prefer_right(
            amap(ns_at(m, spec_location_key(guild))),
        ),
    }
}

/// Merge precedence: where a location-specific record shares its name
/// with a generic one, the lookup view holds the location's record.
pub proof fn lemma_merge_precedence(
    m: Map<Seq<char>, Seq<(Seq<char>, RecordV)>>,
    g: u64,
    name: Seq<char>,
)
    requires
        amap(ns_at(m, spec_location_key(Some(g)))).contains_key(name),
    ensures
        spec_possible(m, Some(g)).contains_key(name),
        spec_possible(m, Some(g))[name] == amap(ns_at(m, spec_location_key(Some(g))))[name],
{
}

/// After a record is written under a name and key, the lookup view for
/// that key's context holds exactly that record at that name.
pub proof fn lemma_lookup_after_put(
    m0: Map<Seq<char>, Seq<(Seq<char>, RecordV)>>,
    m1: Map<Seq<char>, Seq<(Seq<char>, RecordV)>>,
    guild: Option<u64>,
    nm: Seq<char>,
    rec: RecordV,
)
    requires
        ns_maps(m1) == ns_maps(m0).insert(
            spec_location_key(guild),
            amap(ns_at(m0, spec_location_key(guild))).insert(nm, rec),
        ),
    ensures
        spec_possible(m1, guild).contains_key(nm),
        spec_possible(m1, guild)[nm] == rec,
{
    let key = spec_location_key(guild);
    assert(ns_maps(m1).contains_key(key));
    assert(m1.contains_key(key));
    assert(amap(ns_at(m1, key)) == amap(ns_at(m0, key)).insert(nm, rec)) by {
        assert(ns_maps(m1)[key] == amap(m1[key]));
    }
    match guild {
        None => {
            assert(key == "generic"@);
        },
        Some(_) => {},
    }
}

/// Create uniqueness: once a create has stored a record under a name,
/// that name is taken in the same context's namespace, a second
/// create is refused, and the stored record is the first one.
pub proof fn lemma_create_uniqueness(
    m0: Map<Seq<char>, Seq<(Seq<char>, RecordV)>>,
    m1: Map<Seq<char>, Seq<(Seq<char>, RecordV)>>,
    key: Seq<char>,
    name: Seq<char>,
    r1: RecordV,
)
    requires
        !amap(ns_at(m0, key)).contains_key(name),
        ns_maps(m1) == ns_maps(m0).insert(key, amap(ns_at(m0, key)).insert(name, r1)),
    ensures
        amap(ns_at(m1, key)).contains_key(name),
        amap(ns_at(m1, key))[name] == r1,
{
    assert(ns_maps(m1).contains_key(key));
    assert(m1.contains_key(key));
    assert(ns_maps(m1)[key] == amap(m1[key]));
}

/// Case-insensitive lookup: records are stored and looked up under
/// normalized names, so a record created under one raw name is found
/// under any raw name that normalizes the same way.
pub proof fn lemma_case_insensitive(
    m0: Map<Seq<char>, Seq<(Seq<char>, RecordV)>>,
    m1: Map<Seq<char>, Seq<(Seq<char>, RecordV)>>,
    guild: Option<u64>,
    a: Seq<char>,
    b: Seq<char>,
    rec: RecordV,
)
    requires
        crate::text::norm_of(a) == crate::text::norm_of(b),
        ns_maps(m1) == ns_maps(m0).insert(
            spec_location_key(guild),
            amap(ns_at(m0, spec_location_key(guild))).insert(crate::text::norm_of(a), rec),
        ),
    ensures
        spec_possible(m1, guild).contains_key(crate::text::norm_of(b)),
        spec_possible(m1, guild)[crate::text::norm_of(b)] == rec,
{
    lemma_lookup_after_put(m0, m1, guild, crate::text::norm_of(a), rec);
}

} // verus!
