//! The counter collection: record-level CRUD over a store, the
//! generic/location merge policy, and the command operations built on
//! them.

use vstd::prelude::*;
use crate::assoc::{amap, lemma_amap_at, lemma_amap_dom};
use crate::namespace::Namespace;
use crate::policy::{edit_check, owner_check, spec_edit_check};
use crate::record::{Counter, CounterV, Record, RecordV, count_dec, count_inc, usage_bump};
use crate::store::{Store, get_database_location, lemma_lookup_after_put, ns_at, ns_maps,
    spec_location_key, spec_possible};
use crate::text::{norm_of, normalize_name};
use crate::util::merge;
use vstd::string::StringExecFns;

verus! {

/// Every record in the mapping is a counter.
pub open spec fn map_all_counters(q: Map<Seq<char>, RecordV>) -> bool {
    forall|k: Seq<char>| #[trigger] q.contains_key(k) ==> q[k] is Counter
}

/// Every namespace of the store holds only counters.
pub open spec fn contents_all_counters(m: Map<Seq<char>, Seq<(Seq<char>, RecordV)>>) -> bool {
    forall|k: Seq<char>| #[trigger] m.contains_key(k) ==> map_all_counters(amap(m[k]))
}

proof fn lemma_amap_counters(ns: Seq<(Seq<char>, RecordV)>)
    requires
        forall|i: int| 0 <= i < ns.len() ==> (#[trigger] ns[i]).1 is Counter,
    ensures
        map_all_counters(amap(ns)),
    decreases ns.len(),
{
    if ns.len() > 0 {
        assert(forall|i: int|
            0 <= i < ns.drop_last().len() ==> (#[trigger] ns.drop_last()[i]).1 is Counter);
        lemma_amap_counters(ns.drop_last());
    }
}

proof fn lemma_possible_all_counters(m: Map<Seq<char>, Seq<(Seq<char>, RecordV)>>, guild: Option<u64>)
    requires
        contents_all_counters(m),
    ensures
        map_all_counters(spec_possible(m, guild)),
{
    assert(map_all_counters(amap(ns_at(m, "generic"@)))) by {
        if m.contains_key("generic"@) {
        } else {
            assert(amap(ns_at(m, "generic"@)) == Map::<Seq<char>, RecordV>::empty());
        }
    }
    match guild {
        None => {},
        Some(_) => {
            let key = spec_location_key(guild);
            assert(map_all_counters(amap(ns_at(m, key)))) by {
                if m.contains_key(key) {
                } else {
                    assert(amap(ns_at(m, key)) == Map::<Seq<char>, RecordV>::empty());
                }
            }
        },
    }
}

/// Why a counter operation was refused, and exactly when each answer
/// comes back.
#[derive(Debug, PartialEq, Eq)]
pub enum CounterError {
    /// The name holds a broadcast-mention token.
    BlockedWords,
    /// The name is longer than the hundred-character limit.
    NameTooLong,
    /// A create found the name already taken in its namespace.
    AlreadyExists,
    /// No record of this name is visible from the lookup context.
    NotFound,
    /// The edit or owner check refused the acting identity.
    PermissionDenied,
    /// The operation was given arguments it does not take.
    ExtraArguments,
}

impl CounterError {
    /// The user-facing message for this error.
    pub fn message(&self) -> (r: String)
        ensures
            match self {
                CounterError::BlockedWords => r@ == "Counter contains blocked words"@,
                CounterError::NameTooLong => r@ == "Counter name limit is 100 characters"@,
                CounterError::AlreadyExists => r@ == "Counter already exists."@,
                CounterError::NotFound => r@ == "Counter not found"@,
                CounterError::PermissionDenied => r@ == "You do not have permission to do that."@,
                CounterError::ExtraArguments => r@ == "Unnecessary extra arguments provided"@,
            },
    {
        match self {
            CounterError::BlockedWords => String::from_str("Counter contains blocked words"),
            CounterError::NameTooLong => String::from_str("Counter name limit is 100 characters"),
            CounterError::AlreadyExists => String::from_str("Counter already exists."),
            CounterError::NotFound => String::from_str("Counter not found"),
            CounterError::PermissionDenied => String::from_str(
                "You do not have permission to do that.",
            ),
            CounterError::ExtraArguments => String::from_str("Unnecessary extra arguments provided"),
        }
    }
}

/// A counter name is acceptable when it carries no broadcast-mention
/// token and is at most a hundred characters long.
pub open spec fn valid_name(s: Seq<char>) -> bool {
    !crate::text::contains_pat(s, "@everyone"@) && !crate::text::contains_pat(s, "@here"@)
        && s.len() <= 100
}

/// Refuses names that hold a broadcast-mention token, then names longer
/// than a hundred characters.
pub fn verify_counter_name(name: &str) -> (r: Result<(), CounterError>)
    ensures
        match r {
            Ok(_) => valid_name(name@),
            Err(e) => match e {
                CounterError::BlockedWords => crate::text::contains_pat(name@, "@everyone"@)
                    || crate::text::contains_pat(name@, "@here"@),
                CounterError::NameTooLong => !crate::text::contains_pat(name@, "@everyone"@)
                    && !crate::text::contains_pat(name@, "@here"@) && name@.len() > 100,
                _ => false,
            },
        },
{
    let chars = crate::text::str_to_chars(name);
    if crate::text::contains_chars(&chars, "@everyone") || crate::text::contains_chars(
        &chars,
        "@here",
    ) {
        return Err(CounterError::BlockedWords);
    }
    if chars.len() > 100 {
        return Err(CounterError::NameTooLong);
    }
    Ok(())
}

/// The counter collection over a store.
pub struct Counters<S: Store> {
    pub store: S,
}

impl<S: Store> Counters<S> {
    /// The store is well formed and holds only counter records.
    pub open spec fn wf(&self) -> bool {
        self.store.wf() && contents_all_counters(self.store.contents())
    }

    pub open spec fn contents(&self) -> Map<Seq<char>, Seq<(Seq<char>, RecordV)>> {
        self.store.contents()
    }

    /// Wraps a store as a counter collection, refusing a store that
    /// holds any record of another kind.
    pub fn new(store: S) -> (r: Result<Counters<S>, crate::store::StoreInitError>)
        requires
            store.wf(),
        ensures
            match r {
                Ok(c) => c.wf() && c.contents() == store.contents()
                    && contents_all_counters(store.contents()),
                Err(_) => !contents_all_counters(store.contents()),
            },
    {
        let ok = all_counters_check(&store);
        if ok {
            Ok(Counters { store })
        } else {
            Err(crate::store::StoreInitError::Corrupt)
        }
    }

    /// The records visible from a lookup context: the generic namespace
    /// overlaid by the location's own, which wins on a shared name.
    pub fn get_possible_counters(&self, guild: Option<u64>) -> (r: Namespace)
        requires
            self.wf(),
        ensures
            r.wf(),
            r.as_map() == spec_possible(self.contents(), guild),
            map_all_counters(r.as_map()),
    {
        proof {
            lemma_possible_all_counters(self.store.contents(), guild);
        }
        let gkey = String::from_str("generic");
        let generic = match self.store.get(&gkey) {
            Some(ns) => ns.duplicate(),
            None => Namespace::new(),
        };
        proof {
            assert(generic.as_map() == amap(ns_at(self.store.contents(), "generic"@)));
        }
        match guild {
            None => generic,
            Some(_) => {
                let skey = get_database_location(guild);
                let specific = match self.store.get(&skey) {
                    Some(ns) => ns.duplicate(),
                    None => Namespace::new(),
                };
                proof {
                    assert(specific.as_map() == amap(
                        ns_at(self.store.contents(), spec_location_key(guild)),
                    ));
                }
                merge(generic, specific)
            },
        }
    }

    /// Adds a new counter under `name` in the context's own namespace;
    /// a name already present there is refused and nothing changes.
    pub fn create_counter(&mut self, guild: Option<u64>, name: String, counter: Counter) -> (r:
        Result<(), CounterError>)
        requires
            old(self).wf(),
        ensures
            final(self).wf(),
            ({
                let m = old(self).contents();
                let key = spec_location_key(guild);
                let ns = amap(ns_at(m, key));
                match r {
                    Ok(_) => {
                        &&& !ns.contains_key(name@)
                        &&& ns_maps(final(self).contents()) == ns_maps(m).insert(
                            key,
                            ns.insert(name@, RecordV::Counter(counter@)),
                        )
                    },
                    Err(e) => {
                        &&& e is AlreadyExists
                        &&& ns.contains_key(name@)
                        &&& final(self).contents() == m
                    },
                }
            }),
    {
        let ghost m = self.contents();
        let location = get_database_location(guild);
        let ghost key = location@;
        let mut database = match self.store.get(&location) {
            Some(ns) => ns.duplicate(),
            None => Namespace::new(),
        };
        proof {
            assert(database.as_map() == amap(ns_at(m, key)));
        }
        if database.contains_rec(&name) {
            return Err(CounterError::AlreadyExists);
        }
        database.insert_rec(name, Record::Counter(counter));
        let ghost dbm = database.as_map();
        self.store.insert(location, database);
        proof {
            assert(ns_maps(self.contents()) =~= ns_maps(m).insert(key, dbm));
            lemma_all_counters_after_insert(m, self.contents(), key, dbm);
        }
        Ok(())
    }

    /// Looks `name` up in the merged view for the context.
    pub fn get_counter(&self, guild: Option<u64>, name: String) -> (r: Result<
        Counter,
        CounterError,
    >)
        requires
            self.wf(),
        ensures
            ({
                let pm = spec_possible(self.contents(), guild);
                match r {
                    Ok(c) => pm.contains_key(name@) && pm[name@] == RecordV::Counter(c@),
                    Err(e) => e is NotFound && !pm.contains_key(name@),
                }
            }),
    {
        let possible = self.get_possible_counters(guild);
        match possible.get_rec(&name) {
            Some(rec) => match rec {
                Record::Counter(c) => Ok(c.duplicate()),
                Record::Tag(_) => {
                    proof {
                        assert(false);
                    }
                    Err(CounterError::NotFound)
                },
            },
            None => Err(CounterError::NotFound),
        }
    }

    /// Stores `counter` under `name` in the context's own namespace,
    /// overwriting any counter of that name there.
    pub fn put_counter(&mut self, guild: Option<u64>, name: String, counter: Counter)
        requires
            old(self).wf(),
        ensures
            final(self).wf(),
            ({
                let m = old(self).contents();
                let key = spec_location_key(guild);
                ns_maps(final(self).contents()) == ns_maps(m).insert(
                    key,
                    amap(ns_at(m, key)).insert(name@, RecordV::Counter(counter@)),
                )
            }),
    {
        let ghost m = self.contents();
        let location = get_database_location(guild);
        let ghost key = location@;
        let mut database = match self.store.remove(&location) {
            Some(ns) => ns,
            None => Namespace::new(),
        };
        proof {
            assert(database.as_map() == amap(ns_at(m, key))) by {
                if !m.contains_key(key) {
                }
            }
            assert(self.store.contents() == m.remove(key));
        }
        database.insert_rec(name, Record::Counter(counter));
        let ghost dbm = database.as_map();
        self.store.insert(location, database);
        proof {
            assert(ns_maps(self.contents()) =~= ns_maps(m).insert(key, dbm));
            lemma_all_counters_after_insert(m, self.contents(), key, dbm);
        }
    }

    /// Removes `name` from the context's own namespace. The namespace
    /// is written back even when the name was absent.
    pub fn delete_counter(&mut self, guild: Option<u64>, name: String)
        requires
            old(self).wf(),
        ensures
            final(self).wf(),
            ({
                let m = old(self).contents();
                let key = spec_location_key(guild);
                ns_maps(final(self).contents()) == ns_maps(m).insert(
                    key,
                    amap(ns_at(m, key)).remove(name@),
                )
            }),
    {
        let ghost m = self.contents();
        let location = get_database_location(guild);
        let ghost key = location@;
        let mut database = match self.store.remove(&location) {
            Some(ns) => ns,
            None => Namespace::new(),
        };
        proof {
            assert(database.as_map() == amap(ns_at(m, key))) by {
                if !m.contains_key(key) {
                }
            }
        }
        database.remove_rec(&name);
        let ghost dbm = database.as_map();
        self.store.insert(location, database);
        proof {
            assert(ns_maps(self.contents()) =~= ns_maps(m).insert(key, dbm));
            lemma_all_counters_after_insert(m, self.contents(), key, dbm);
        }
    }
}

fn all_counters_check<S: Store>(store: &S) -> (r: bool)
    requires
        store.wf(),
    ensures
        r == contents_all_counters(store.contents()),
{
    let entries = store.entries();
    let ghost sv = crate::codec::store_view(entries@);
    proof {
        lemma_amap_dom(sv);
    }
    let n = entries.len();
    let mut i: usize = 0;
    while i < n
        invariant
            i <= n,
            n == entries.len(),
            amap(sv) == store.contents(),
            sv == crate::codec::store_view(entries@),
            crate::assoc::akeys_unique(sv),
            forall|a: int| 0 <= a < sv.len() ==> crate::assoc::akeys_unique((#[trigger] sv[a]).1),
            forall|a: int, q: int|
                0 <= a < i && 0 <= q < (#[trigger] sv[a]).1.len() ==> (#[trigger] sv[a].1[q]).1
                    is Counter,
        decreases n - i,
    {
        let ns = &entries[i].1;
        let mut j: usize = 0;
        while j < ns.entries.len()
            invariant
                j <= ns.entries.len(),
                i < n,
                n == entries.len(),
                amap(sv) == store.contents(),
                sv == crate::codec::store_view(entries@),
                crate::assoc::akeys_unique(sv),
                crate::assoc::akeys_unique(sv[i as int].1),
                ns == &entries@[i as int].1,
                ns@ == sv[i as int].1,
                forall|q: int| 0 <= q < j ==> (#[trigger] sv[i as int].1[q]).1 is Counter,
            decreases ns.entries.len() - j,
        {
            match &ns.entries[j].1 {
                Record::Counter(_) => {},
                Record::Tag(_) => {
                    proof {
                        let nsv = sv[i as int].1;
                        assert(nsv[j as int].1 is Tag);
                        lemma_amap_at(sv, i as int);
                        assert(store.contents().contains_key(sv[i as int].0));
                        assert(store.contents()[sv[i as int].0] == nsv);
                        lemma_amap_at(nsv, j as int);
                        assert(amap(nsv).contains_key(nsv[j as int].0));
                        assert(amap(nsv)[nsv[j as int].0] is Tag);
                        assert(!map_all_counters(amap(nsv)));
                    }
                    return false;
                },
            }
            j = j + 1;
        }
        i = i + 1;
    }
    proof {
        assert forall|k: Seq<char>| #[trigger] store.contents().contains_key(k) implies
            map_all_counters(amap(store.contents()[k])) by {
            let w = choose|w: int| 0 <= w < sv.len() && (#[trigger] sv[w]).0 == k;
            lemma_amap_at(sv, w);
            lemma_amap_counters(sv[w].1);
        }
    }
    true
}

proof fn lemma_all_counters_after_insert(
    m: Map<Seq<char>, Seq<(Seq<char>, RecordV)>>,
    mp: Map<Seq<char>, Seq<(Seq<char>, RecordV)>>,
    key: Seq<char>,
    dbm: Map<Seq<char>, RecordV>,
)
    requires
        contents_all_counters(m),
        map_all_counters(dbm),
        ns_maps(mp) == ns_maps(m).insert(key, dbm),
    ensures
        contents_all_counters(mp),
{
    assert forall|k: Seq<char>| #[trigger] mp.contains_key(k) implies map_all_counters(
        amap(mp[k]),
    ) by {
        assert(ns_maps(mp).contains_key(k));
        if k == key {
            assert(ns_maps(mp)[k] == dbm);
        } else {
            assert(ns_maps(mp)[k] == ns_maps(m)[k]);
            assert(m.contains_key(k));
        }
    }
}

/// The counter a record holds.
pub open spec fn counter_val(r: RecordV) -> CounterV
    recommends
        r is Counter,
{
    r->Counter_0
}

impl<S: Store> Counters<S> {
    /// The `create` operation: normalizes the raw name, validates it,
    /// and adds a fresh counter owned by `actor` to the context's own
    /// namespace. Returns the normalized name.
    pub fn create(&mut self, actor: u64, guild: Option<u64>, raw_name: &str) -> (r: Result<
        String,
        CounterError,
    >)
        requires
            old(self).wf(),
        ensures
            final(self).wf(),
            ({
                let nm = norm_of(raw_name@);
                let m = old(self).contents();
                let key = spec_location_key(guild);
                let ns = amap(ns_at(m, key));
                match r {
                    Ok(name) => {
                        &&& name@ == nm
                        &&& valid_name(nm)
                        &&& !ns.contains_key(nm)
                        &&& exists|ca: i64|
                            ns_maps(final(self).contents()) == ns_maps(m).insert(
                                key,
                                ns.insert(
                                    nm,
                                    RecordV::Counter(
                                        CounterV {
                                            name: nm,
                                            count: 0,
                                            owner_id: actor,
                                            public_edit: true,
                                            queries: 0,
                                            location: Some(key),
                                            created_at: ca,
                                            blacklisted_users: Seq::empty(),
                                            whitelisted_users: Seq::empty(),
                                        },
                                    ),
                                ),
                            )
                    },
                    Err(e) => {
                        &&& final(self).contents() == m
                        &&& match e {
                            CounterError::BlockedWords => crate::text::contains_pat(
                                nm,
                                "@everyone"@,
                            ) || crate::text::contains_pat(nm, "@here"@),
                            CounterError::NameTooLong => !crate::text::contains_pat(
                                nm,
                                "@everyone"@,
                            ) && !crate::text::contains_pat(nm, "@here"@) && nm.len() > 100,
                            CounterError::AlreadyExists => valid_name(nm) && ns.contains_key(nm),
                            _ => false,
                        }
                    },
                }
            }),
    {
        let name = normalize_name(raw_name);
        match verify_counter_name(name.as_str()) {
            Ok(_) => {},
            Err(e) => {
                return Err(e);
            },
        }
        let location = get_database_location(guild);
        let mut counter = Counter::new(name.clone(), actor);
        counter.location = Some(location);
        match self.create_counter(guild, name.clone(), counter) {
            Ok(_) => Ok(name),
            Err(e) => Err(e),
        }
    }

    /// The `info` operation: the record visible under the normalized
    /// name, for rendering.
    pub fn info(&self, guild: Option<u64>, raw_name: &str) -> (r: Result<Counter, CounterError>)
        requires
            self.wf(),
        ensures
            ({
                let nm = norm_of(raw_name@);
                let pm = spec_possible(self.contents(), guild);
                match r {
                    Ok(c) => pm.contains_key(nm) && pm[nm] == RecordV::Counter(c@),
                    Err(e) => e is NotFound && !pm.contains_key(nm),
                }
            }),
    {
        let name = normalize_name(raw_name);
        self.get_counter(guild, name)
    }

    /// The bare-name operation: looks the counter up, bumps its lookup
    /// counter, writes the bumped record back under the lookup
    /// context's own key, and returns the count for display.
    pub fn lookup(&mut self, guild: Option<u64>, raw_name: &str) -> (r: Result<i64, CounterError>)
        requires
            old(self).wf(),
        ensures
            final(self).wf(),
            ({
                let nm = norm_of(raw_name@);
                let m = old(self).contents();
                let pm = spec_possible(m, guild);
                let key = spec_location_key(guild);
                match r {
                    Ok(v) => {
                        &&& pm.contains_key(nm)
                        &&& pm[nm] is Counter
                        &&& v == counter_val(pm[nm]).count
                        &&& ns_maps(final(self).contents()) == ns_maps(m).insert(
                            key,
                            amap(ns_at(m, key)).insert(
                                nm,
                                RecordV::Counter(
                                    CounterV {
                                        queries: usage_bump(counter_val(pm[nm]).queries),
                                        ..counter_val(pm[nm])
                                    },
                                ),
                            ),
                        )
                    },
                    Err(e) => e is NotFound && !pm.contains_key(nm) && final(self).contents() == m,
                }
            }),
    {
        let name = normalize_name(raw_name);
        let mut counter = match self.get_counter(guild, name.clone()) {
            Ok(c) => c,
            Err(e) => {
                return Err(e);
            },
        };
        let value = counter.count;
        counter.bump_queries();
        self.put_counter(guild, name, counter);
        Ok(value)
    }

    /// The `increment` operation: permission-checked, refuses stray
    /// arguments, then adds one to the visible counter and writes it
    /// back under the lookup context's own key.
    pub fn increment(&mut self, actor: u64, guild: Option<u64>, raw_name: &str, has_extra_args:
        bool) -> (r: Result<String, CounterError>)
        requires
            old(self).wf(),
        ensures
            final(self).wf(),
            ({
                let nm = norm_of(raw_name@);
                let m = old(self).contents();
                let pm = spec_possible(m, guild);
                let key = spec_location_key(guild);
                match r {
                    Ok(name) => {
                        &&& name@ == nm
                        &&& pm.contains_key(nm)
                        &&& pm[nm] is Counter
                        &&& spec_edit_check(actor, counter_val(pm[nm]))
                        &&& !has_extra_args
                        &&& ns_maps(final(self).contents()) == ns_maps(m).insert(
                            key,
                            amap(ns_at(m, key)).insert(
                                nm,
                                RecordV::Counter(
                                    CounterV {
                                        count: count_inc(counter_val(pm[nm]).count),
                                        ..counter_val(pm[nm])
                                    },
                                ),
                            ),
                        )
                    },
                    Err(e) => {
                        &&& final(self).contents() == m
                        &&& match e {
                            CounterError::NotFound => !pm.contains_key(nm),
                            CounterError::PermissionDenied => pm.contains_key(nm)
                                && !spec_edit_check(actor, counter_val(pm[nm])),
                            CounterError::ExtraArguments => pm.contains_key(nm) && spec_edit_check(
                                actor,
                                counter_val(pm[nm]),
                            ) && has_extra_args,
                            _ => false,
                        }
                    },
                }
            }),
    {
        let name = normalize_name(raw_name);
        let mut counter = match self.get_counter(guild, name.clone()) {
            Ok(c) => c,
            Err(e) => {
                return Err(e);
            },
        };
        if !edit_check(actor, &counter) {
            return Err(CounterError::PermissionDenied);
        }
        if has_extra_args {
            return Err(CounterError::ExtraArguments);
        }
        counter.increment();
        self.put_counter(guild, name.clone(), counter);
        Ok(name)
    }

    /// The `decrement` operation: as `increment`, but takes one off.
    pub fn decrement(&mut self, actor: u64, guild: Option<u64>, raw_name: &str, has_extra_args:
        bool) -> (r: Result<String, CounterError>)
        requires
            old(self).wf(),
        ensures
            final(self).wf(),
            ({
                let nm = norm_of(raw_name@);
                let m = old(self).contents();
                let pm = spec_possible(m, guild);
                let key = spec_location_key(guild);
                match r {
                    Ok(name) => {
                        &&& name@ == nm
                        &&& pm.contains_key(nm)
                        &&& pm[nm] is Counter
                        &&& spec_edit_check(actor, counter_val(pm[nm]))
                        &&& !has_extra_args
                        &&& ns_maps(final(self).contents()) == ns_maps(m).insert(
                            key,
                            amap(ns_at(m, key)).insert(
                                nm,
                                RecordV::Counter(
                                    CounterV {
                                        count: count_dec(counter_val(pm[nm]).count),
                                        ..counter_val(pm[nm])
                                    },
                                ),
                            ),
                        )
                    },
                    Err(e) => {
                        &&& final(self).contents() == m
                        &&& match e {
                            CounterError::NotFound => !pm.contains_key(nm),
                            CounterError::PermissionDenied => pm.contains_key(nm)
                                && !spec_edit_check(actor, counter_val(pm[nm])),
                            CounterError::ExtraArguments => pm.contains_key(nm) && spec_edit_check(
                                actor,
                                counter_val(pm[nm]),
                            ) && has_extra_args,
                            _ => false,
                        }
                    },
                }
            }),
    {
        let name = normalize_name(raw_name);
        let mut counter = match self.get_counter(guild, name.clone()) {
            Ok(c) => c,
            Err(e) => {
                return Err(e);
            },
        };
        if !edit_check(actor, &counter) {
            return Err(CounterError::PermissionDenied);
        }
        if has_extra_args {
            return Err(CounterError::ExtraArguments);
        }
        counter.decrement();
        self.put_counter(guild, name.clone(), counter);
        Ok(name)
    }

    /// The `delete` operation: only the owner may remove a counter;
    /// the removal happens in the lookup context's own namespace.
    pub fn delete(&mut self, actor: u64, guild: Option<u64>, raw_name: &str) -> (r: Result<
        String,
        CounterError,
    >)
        requires
            old(self).wf(),
        ensures
            final(self).wf(),
            ({
                let nm = norm_of(raw_name@);
                let m = old(self).contents();
                let pm = spec_possible(m, guild);
                let key = spec_location_key(guild);
                match r {
                    Ok(name) => {
                        &&& name@ == nm
                        &&& pm.contains_key(nm)
                        &&& pm[nm] is Counter
                        &&& actor == counter_val(pm[nm]).owner_id
                        &&& ns_maps(final(self).contents()) == ns_maps(m).insert(
                            key,
                            amap(ns_at(m, key)).remove(nm),
                        )
                    },
                    Err(e) => {
                        &&& final(self).contents() == m
                        &&& match e {
                            CounterError::NotFound => !pm.contains_key(nm),
                            CounterError::PermissionDenied => pm.contains_key(nm) && actor
                                != counter_val(pm[nm]).owner_id,
                            _ => false,
                        }
                    },
                }
            }),
    {
        let name = normalize_name(raw_name);
        let counter = match self.get_counter(guild, name.clone()) {
            Ok(c) => c,
            Err(e) => {
                return Err(e);
            },
        };
        if !owner_check(actor, &Record::Counter(counter)) {
            return Err(CounterError::PermissionDenied);
        }
        self.delete_counter(guild, name.clone());
        Ok(name)
    }

    /// The `list` operation: the names visible from the context, in
    /// dictionary order.
    pub fn list(&self, guild: Option<u64>) -> (r: Vec<String>)
        requires
            self.wf(),
        ensures
            ({
                let pm = spec_possible(self.contents(), guild);
                &&& forall|n: Seq<char>| #[trigger] pm.contains_key(n) <==> crate::text::name_in(
                    r@,
                    n,
                )
                &&& forall|i: int, j: int|
                    0 <= i < j < r@.len() ==> crate::text::lex_le(
                        (#[trigger] r@[i])@,
                        (#[trigger] r@[j])@,
                    )
            }),
    {
        let possible = self.get_possible_counters(guild);
        let names = possible.names();
        proof {
            lemma_amap_dom(possible@);
        }
        let sorted = crate::text::sort_names(names);
        proof {
            let pm = spec_possible(self.contents(), guild);
            assert forall|n: Seq<char>| #[trigger] pm.contains_key(n) implies crate::text::name_in(
                sorted@,
                n,
            ) by {
                let w = choose|w: int|
                    0 <= w < possible@.len() && (#[trigger] possible@[w]).0 == n;
                assert(names@[w]@ == n);
                assert(crate::text::name_in(names@, n));
            }
            assert forall|n: Seq<char>| #[trigger] crate::text::name_in(sorted@, n) implies
                pm.contains_key(n) by {
                assert(crate::text::name_in(names@, n));
                let w = choose|w: int| 0 <= w < names@.len() && (#[trigger] names@[w])@ == n;
                assert(possible@[w].0 == n);
            }
        }
        sorted
    }
}

/// Increment then decrement restores the record exactly: the count
/// returns to its prior value and no other field moves.
pub proof fn lemma_increment_then_decrement(
    m0: Map<Seq<char>, Seq<(Seq<char>, RecordV)>>,
    m1: Map<Seq<char>, Seq<(Seq<char>, RecordV)>>,
    m2: Map<Seq<char>, Seq<(Seq<char>, RecordV)>>,
    guild: Option<u64>,
    nm: Seq<char>,
    c: CounterV,
    c1: CounterV,
)
    requires
        spec_possible(m0, guild).contains_key(nm),
        spec_possible(m0, guild)[nm] == RecordV::Counter(c),
        ns_maps(m1) == ns_maps(m0).insert(
            spec_location_key(guild),
            amap(ns_at(m0, spec_location_key(guild))).insert(
                nm,
                RecordV::Counter(CounterV { count: count_inc(c.count), ..c }),
            ),
        ),
        spec_possible(m1, guild).contains_key(nm),
        spec_possible(m1, guild)[nm] == RecordV::Counter(c1),
        ns_maps(m2) == ns_maps(m1).insert(
            spec_location_key(guild),
            amap(ns_at(m1, spec_location_key(guild))).insert(
                nm,
                RecordV::Counter(CounterV { count: count_dec(c1.count), ..c1 }),
            ),
        ),
    ensures
        spec_possible(m2, guild).contains_key(nm),
        spec_possible(m2, guild)[nm] == RecordV::Counter(c),
{
    lemma_lookup_after_put(
        m0,
        m1,
        guild,
        nm,
        RecordV::Counter(CounterV { count: count_inc(c.count), ..c }),
    );
    assert(c1 == CounterV { count: count_inc(c.count), ..c });
    assert(count_dec(count_inc(c.count)) == c.count);
    assert(CounterV { count: count_dec(c1.count), ..c1 } == c);
    lemma_lookup_after_put(m1, m2, guild, nm, RecordV::Counter(c));
}

/// One increment applied `n` times in a row, as the store's lock
/// serializes concurrent calls.
pub open spec fn iter_inc(c: i64, n: nat) -> i64
    decreases n,
{
    if n == 0 {
        c
    } else {
        count_inc(iter_inc(c, (n - 1) as nat))
    }
}

/// Serialized increments lose nothing: `n` increments, applied one
/// after another, raise the count by exactly `n`.
pub proof fn lemma_serialized_increments(c: i64, n: nat)
    requires
        c + n <= i64::MAX,
    ensures
        iter_inc(c, n) == c + n,
    decreases n,
{
    if n > 0 {
        lemma_serialized_increments(c, (n - 1) as nat);
    }
}

/// The edit policy table: a private counter admits only its owner; a
/// public one refuses actors left off a non-empty whitelist, and
/// refuses blacklisted actors even with an empty whitelist.
pub proof fn lemma_edit_check_policy(actor: u64, c: CounterV)
    ensures
        !c.public_edit ==> (spec_edit_check(actor, c) <==> actor == c.owner_id),
        (c.public_edit && c.whitelisted_users.len() > 0 && !c.whitelisted_users.contains(actor))
            ==> !spec_edit_check(actor, c),
        (c.public_edit && c.blacklisted_users.contains(actor)) ==> !spec_edit_check(actor, c),
{
}

} // verus!
