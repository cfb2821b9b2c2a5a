//! The tag collection: named pieces of text with the same storage
//! layout, merge policy and ownership rules as the counters.

use vstd::prelude::*;
use crate::assoc::{amap, lemma_amap_at, lemma_amap_dom};
use crate::namespace::Namespace;
use crate::record::{Record, RecordV, Tag, TagV, usage_bump};
use crate::store::{Store, get_database_location, ns_at, ns_maps, spec_location_key, spec_possible};
use crate::text::{norm_of, normalize_name};
use crate::util::merge;
use vstd::string::StringExecFns;

verus! {

/// Every record in the mapping is a tag.
pub open spec fn map_all_tags(q: Map<Seq<char>, RecordV>) -> bool {
    forall|k: Seq<char>| #[trigger] q.contains_key(k) ==> q[k] is Tag
}

/// Every namespace of the store holds only tags.
pub open spec fn contents_all_tags(m: Map<Seq<char>, Seq<(Seq<char>, RecordV)>>) -> bool {
    forall|k: Seq<char>| #[trigger] m.contains_key(k) ==> map_all_tags(amap(m[k]))
}

proof fn lemma_amap_tags(ns: Seq<(Seq<char>, RecordV)>)
    requires
        forall|i: int| 0 <= i < ns.len() ==> (#[trigger] ns[i]).1 is Tag,
    ensures
        map_all_tags(amap(ns)),
    decreases ns.len(),
{
    if ns.len() > 0 {
        assert(forall|i: int|
            0 <= i < ns.drop_last().len() ==> (#[trigger] ns.drop_last()[i]).1 is Tag);
        lemma_amap_tags(ns.drop_last());
    }
}

proof fn lemma_possible_all_tags(m: Map<Seq<char>, Seq<(Seq<char>, RecordV)>>, guild: Option<u64>)
    requires
        contents_all_tags(m),
    ensures
        map_all_tags(spec_possible(m, guild)),
{
    assert(map_all_tags(amap(ns_at(m, "generic"@)))) by {
        if m.contains_key("generic"@) {
        } else {
            assert(amap(ns_at(m, "generic"@)) == Map::<Seq<char>, RecordV>::empty());
        }
    }
    match guild {
        None => {},
        Some(_) => {
            let key = spec_location_key(guild);
            assert(map_all_tags(amap(ns_at(m, key)))) by {
                if m.contains_key(key) {
                } else {
                    assert(amap(ns_at(m, key)) == Map::<Seq<char>, RecordV>::empty());
                }
            }
        },
    }
}

/// Why a tag operation was refused, and exactly when each answer comes
/// back.
#[derive(Debug, PartialEq, Eq)]
pub enum TagError {
    /// The name holds a broadcast-mention token.
    BlockedWords,
    /// The name is longer than the hundred-character limit.
    NameTooLong,
    /// A create found the name already taken in its namespace.
    AlreadyExists,
    /// No record of this name is visible from the lookup context.
    NotFound,
    /// The owner check refused the acting identity.
    PermissionDenied,
    /// A create or edit came without any content.
    MissingContent,
}

impl TagError {
    /// The user-facing message for this error.
    pub fn message(&self) -> (r: String)
        ensures
            match self {
                TagError::BlockedWords => r@ == "Tag contains blocked words"@,
                TagError::NameTooLong => r@ == "Tag name limit is 100 characters"@,
                TagError::AlreadyExists => r@ == "Tag already exists."@,
                TagError::NotFound => r@ == "Tag not found"@,
                TagError::PermissionDenied => r@ == "You do not have permission to do that."@,
                TagError::MissingContent => r@ == "Please specify some content for the tag."@,
            },
    {
        match self {
            TagError::BlockedWords => String::from_str("Tag contains blocked words"),
            TagError::NameTooLong => String::from_str("Tag name limit is 100 characters"),
            TagError::AlreadyExists => String::from_str("Tag already exists."),
            TagError::NotFound => String::from_str("Tag not found"),
            TagError::PermissionDenied => String::from_str(
                "You do not have permission to do that.",
            ),
            TagError::MissingContent => String::from_str("Please specify some content for the tag."),
        }
    }
}

/// Refuses names that hold a broadcast-mention token, then names longer
/// than a hundred characters. The rule is the one counters use.
pub fn verify_tag_name(name: &str) -> (r: Result<(), TagError>)
    ensures
        match r {
            Ok(_) => crate::counter::valid_name(name@),
            Err(e) => match e {
                TagError::BlockedWords => crate::text::contains_pat(name@, "@everyone"@)
                    || crate::text::contains_pat(name@, "@here"@),
                TagError::NameTooLong => !crate::text::contains_pat(name@, "@everyone"@)
                    && !crate::text::contains_pat(name@, "@here"@) && name@.len() > 100,
                _ => false,
            },
        },
{
    let chars = crate::text::str_to_chars(name);
    if crate::text::contains_chars(&chars, "@everyone") || crate::text::contains_chars(
        &chars,
        "@here",
    ) {
        return Err(TagError::BlockedWords);
    }
    if chars.len() > 100 {
        return Err(TagError::NameTooLong);
    }
    Ok(())
}

/// The tag a record holds.
pub open spec fn tag_val(r: RecordV) -> TagV
    recommends
        r is Tag,
{
    r->Tag_0
}

/// The tag collection over a store.
pub struct Tags<S: Store> {
    pub store: S,
}

impl<S: Store> Tags<S> {
    /// The store is well formed and holds only tag records.
    pub open spec fn wf(&self) -> bool {
        self.store.wf() && contents_all_tags(self.store.contents())
    }

    pub open spec fn contents(&self) -> Map<Seq<char>, Seq<(Seq<char>, RecordV)>> {
        self.store.contents()
    }

    /// Wraps a store as a tag collection, refusing a store that holds
    /// any record of another kind.
    pub fn new(store: S) -> (r: Result<Tags<S>, crate::store::StoreInitError>)
        requires
            store.wf(),
        ensures
            match r {
                Ok(c) => c.wf() && c.contents() == store.contents() && contents_all_tags(
                    store.contents(),
                ),
                Err(_) => !contents_all_tags(store.contents()),
            },
    {
        let ok = all_tags_check(&store);
        if ok {
            Ok(Tags { store })
        } else {
            Err(crate::store::StoreInitError::Corrupt)
        }
    }

    /// The records visible from a lookup context: the generic namespace
    /// overlaid by the location's own, which wins on a shared name.
    pub fn get_possible_tags(&self, guild: Option<u64>) -> (r: Namespace)
        requires
            self.wf(),
        ensures
            r.wf(),
            r.as_map() == spec_possible(self.contents(), guild),
            map_all_tags(r.as_map()),
    {
        proof {
            lemma_possible_all_tags(self.store.contents(), guild);
        }
        let gkey = String::from_str("generic");
        let generic = match self.store.get(&gkey) {
            Some(ns) => ns.duplicate(),
            None => Namespace::new(),
        };
        proof {
            assert(generic.as_map() == amap(ns_at(self.store.contents(), "generic"@)));
        }
        match guild {
            None => generic,
            Some(_) => {
                let skey = get_database_location(guild);
                let specific = match self.store.get(&skey) {
                    Some(ns) => ns.duplicate(),
                    None => Namespace::new(),
                };
                proof {
                    assert(specific.as_map() == amap(
                        ns_at(self.store.contents(), spec_location_key(guild)),
                    ));
                }
                merge(generic, specific)
            },
        }
    }

    /// Adds a new tag under `name` in the context's own namespace; a
    /// name already present there is refused and nothing changes.
    pub fn create_tag(&mut self, guild: Option<u64>, name: String, tag: Tag) -> (r: Result<
        (),
        TagError,
    >)
        requires
            old(self).wf(),
        ensures
            final(self).wf(),
            ({
                let m = old(self).contents();
                let key = spec_location_key(guild);
                let ns = amap(ns_at(m, key));
                match r {
                    Ok(_) => {
                        &&& !ns.contains_key(name@)
                        &&& ns_maps(final(self).contents()) == ns_maps(m).insert(
                            key,
                            ns.insert(name@, RecordV::Tag(tag@)),
                        )
                    },
                    Err(e) => {
                        &&& e is AlreadyExists
                        &&& ns.contains_key(name@)
                        &&& final(self).contents() == m
                    },
                }
            }),
    {
        let ghost m = self.contents();
        let location = get_database_location(guild);
        let ghost key = location@;
        let mut database = match self.store.get(&location) {
            Some(ns) => ns.duplicate(),
            None => Namespace::new(),
        };
        proof {
            assert(database.as_map() == amap(ns_at(m, key)));
        }
        if database.contains_rec(&name) {
            return Err(TagError::AlreadyExists);
        }
        database.insert_rec(name, Record::Tag(tag));
        let ghost dbm = database.as_map();
        self.store.insert(location, database);
        proof {
            assert(ns_maps(self.contents()) =~= ns_maps(m).insert(key, dbm));
            lemma_all_tags_after_insert(m, self.contents(), key, dbm);
        }
        Ok(())
    }

    /// Looks `name` up in the merged view for the context.
    pub fn get_tag(&self, guild: Option<u64>, name: &str) -> (r: Result<Tag, TagError>)
        requires
            self.wf(),
        ensures
            ({
                let pm = spec_possible(self.contents(), guild);
                match r {
                    Ok(t) => pm.contains_key(name@) && pm[name@] == RecordV::Tag(t@),
                    Err(e) => e is NotFound && !pm.contains_key(name@),
                }
            }),
    {
        let possible = self.get_possible_tags(guild);
        let key = String::from_str(name);
        match possible.get_rec(&key) {
            Some(rec) => match rec {
                Record::Tag(t) => Ok(t.duplicate()),
                Record::Counter(_) => {
                    proof {
                        assert(false);
                    }
                    Err(TagError::NotFound)
                },
            },
            None => Err(TagError::NotFound),
        }
    }

    /// Stores `tag` under `name` in the context's own namespace,
    /// overwriting any tag of that name there.
    pub fn put_tag(&mut self, guild: Option<u64>, name: String, tag: Tag)
        requires
            old(self).wf(),
        ensures
            final(self).wf(),
            ({
                let m = old(self).contents();
                let key = spec_location_key(guild);
                ns_maps(final(self).contents()) == ns_maps(m).insert(
                    key,
                    amap(ns_at(m, key)).insert(name@, RecordV::Tag(tag@)),
                )
            }),
    {
        let ghost m = self.contents();
        let location = get_database_location(guild);
        let ghost key = location@;
        let mut database = match self.store.remove(&location) {
            Some(ns) => ns,
            None => Namespace::new(),
        };
        proof {
            assert(database.as_map() == amap(ns_at(m, key))) by {
                if !m.contains_key(key) {
                }
            }
        }
        database.insert_rec(name, Record::Tag(tag));
        let ghost dbm = database.as_map();
        self.store.insert(location, database);
        proof {
            assert(ns_maps(self.contents()) =~= ns_maps(m).insert(key, dbm));
            lemma_all_tags_after_insert(m, self.contents(), key, dbm);
        }
    }

    /// Removes `name` from the context's own namespace. The namespace
    /// is written back even when the name was absent.
    pub fn delete_tag(&mut self, guild: Option<u64>, name: &str)
        requires
            old(self).wf(),
        ensures
            final(self).wf(),
            ({
                let m = old(self).contents();
                let key = spec_location_key(guild);
                ns_maps(final(self).contents()) == ns_maps(m).insert(
                    key,
                    amap(ns_at(m, key)).remove(name@),
                )
            }),
    {
        let ghost m = self.contents();
        let location = get_database_location(guild);
        let ghost key = location@;
        let mut database = match self.store.remove(&location) {
            Some(ns) => ns,
            None => Namespace::new(),
        };
        proof {
            assert(database.as_map() == amap(ns_at(m, key))) by {
                if !m.contains_key(key) {
                }
            }
        }
        let nkey = String::from_str(name);
        database.remove_rec(&nkey);
        let ghost dbm = database.as_map();
        self.store.insert(location, database);
        proof {
            assert(ns_maps(self.contents()) =~= ns_maps(m).insert(key, dbm));
            lemma_all_tags_after_insert(m, self.contents(), key, dbm);
        }
    }

    /// The `create` operation: requires content, normalizes and
    /// validates the raw name, and adds a fresh tag owned by `actor` to
    /// the context's own namespace. Returns the normalized name.
    pub fn create(&mut self, actor: u64, guild: Option<u64>, raw_name: &str, content: Option<
        String,
    >) -> (r: Result<String, TagError>)
        requires
            old(self).wf(),
        ensures
            final(self).wf(),
            ({
                let nm = norm_of(raw_name@);
                let m = old(self).contents();
                let key = spec_location_key(guild);
                let ns = amap(ns_at(m, key));
                match r {
                    Ok(name) => {
                        &&& name@ == nm
                        &&& content is Some
                        &&& crate::counter::valid_name(nm)
                        &&& !ns.contains_key(nm)
                        &&& exists|ca: i64|
                            ns_maps(final(self).contents()) == ns_maps(m).insert(
                                key,
                                ns.insert(
                                    nm,
                                    RecordV::Tag(
                                        TagV {
                                            name: nm,
                                            content: content.unwrap()@,
                                            owner_id: actor,
                                            uses: 0,
                                            location: Some(key),
                                            created_at: ca,
                                        },
                                    ),
                                ),
                            )
                    },
                    Err(e) => {
                        &&& final(self).contents() == m
                        &&& match e {
                            TagError::MissingContent => content is None,
                            TagError::BlockedWords => content is Some && (
                            crate::text::contains_pat(nm, "@everyone"@)
                                || crate::text::contains_pat(nm, "@here"@)),
                            TagError::NameTooLong => content is Some && !crate::text::contains_pat(
                                nm,
                                "@everyone"@,
                            ) && !crate::text::contains_pat(nm, "@here"@) && nm.len() > 100,
                            TagError::AlreadyExists => content is Some && crate::counter::valid_name(
                                nm,
                            ) && ns.contains_key(nm),
                            _ => false,
                        }
                    },
                }
            }),
    {
        let body = match content {
            Some(b) => b,
            None => {
                return Err(TagError::MissingContent);
            },
        };
        let name = normalize_name(raw_name);
        match verify_tag_name(name.as_str()) {
            Ok(_) => {},
            Err(e) => {
                return Err(e);
            },
        }
        let location = get_database_location(guild);
        let mut tag = Tag::new(name.clone(), body, actor);
        tag.location = Some(location);
        match self.create_tag(guild, name.clone(), tag) {
            Ok(_) => Ok(name),
            Err(e) => Err(e),
        }
    }

    /// The `info` operation: the record visible under the normalized
    /// name, for rendering.
    pub fn info(&self, guild: Option<u64>, raw_name: &str) -> (r: Result<Tag, TagError>)
        requires
            self.wf(),
        ensures
            ({
                let nm = norm_of(raw_name@);
                let pm = spec_possible(self.contents(), guild);
                match r {
                    Ok(t) => pm.contains_key(nm) && pm[nm] == RecordV::Tag(t@),
                    Err(e) => e is NotFound && !pm.contains_key(nm),
                }
            }),
    {
        let name = normalize_name(raw_name);
        self.get_tag(guild, name.as_str())
    }

    /// The bare-name operation: looks the tag up, bumps its usage
    /// counter, writes the bumped record back under the lookup
    /// context's own key, and returns the content for display.
    pub fn lookup(&mut self, guild: Option<u64>, raw_name: &str) -> (r: Result<String, TagError>)
        requires
            old(self).wf(),
        ensures
            final(self).wf(),
            ({
                let nm = norm_of(raw_name@);
                let m = old(self).contents();
                let pm = spec_possible(m, guild);
                let key = spec_location_key(guild);
                match r {
                    Ok(body) => {
                        &&& pm.contains_key(nm)
                        &&& pm[nm] is Tag
                        &&& body@ == tag_val(pm[nm]).content
                        &&& ns_maps(final(self).contents()) == ns_maps(m).insert(
                            key,
                            amap(ns_at(m, key)).insert(
                                nm,
                                RecordV::Tag(
                                    TagV {
                                        uses: usage_bump(tag_val(pm[nm]).uses),
                                        ..tag_val(pm[nm])
                                    },
                                ),
                            ),
                        )
                    },
                    Err(e) => e is NotFound && !pm.contains_key(nm) && final(self).contents() == m,
                }
            }),
    {
        let name = normalize_name(raw_name);
        let mut tag = match self.get_tag(guild, name.as_str()) {
            Ok(t) => t,
            Err(e) => {
                return Err(e);
            },
        };
        let body = tag.content.clone();
        tag.bump_uses();
        self.put_tag(guild, name, tag);
        Ok(body)
    }

    /// The `edit` operation: only the owner may replace a tag's
    /// content; the edited record is written back under the lookup
    /// context's own key.
    pub fn edit(&mut self, actor: u64, guild: Option<u64>, raw_name: &str, content: Option<
        String,
    >) -> (r: Result<String, TagError>)
        requires
            old(self).wf(),
        ensures
            final(self).wf(),
            ({
                let nm = norm_of(raw_name@);
                let m = old(self).contents();
                let pm = spec_possible(m, guild);
                let key = spec_location_key(guild);
                match r {
                    Ok(name) => {
                        &&& name@ == nm
                        &&& pm.contains_key(nm)
                        &&& pm[nm] is Tag
                        &&& actor == tag_val(pm[nm]).owner_id
                        &&& content is Some
                        &&& ns_maps(final(self).contents()) == ns_maps(m).insert(
                            key,
                            amap(ns_at(m, key)).insert(
                                nm,
                                RecordV::Tag(
                                    TagV { content: content.unwrap()@, ..tag_val(pm[nm]) },
                                ),
                            ),
                        )
                    },
                    Err(e) => {
                        &&& final(self).contents() == m
                        &&& match e {
                            TagError::NotFound => !pm.contains_key(nm),
                            TagError::PermissionDenied => pm.contains_key(nm) && actor != tag_val(
                                pm[nm],
                            ).owner_id,
                            TagError::MissingContent => pm.contains_key(nm) && actor == tag_val(
                                pm[nm],
                            ).owner_id && content is None,
                            _ => false,
                        }
                    },
                }
            }),
    {
        let name = normalize_name(raw_name);
        let mut tag = match self.get_tag(guild, name.as_str()) {
            Ok(t) => t,
            Err(e) => {
                return Err(e);
            },
        };
        if actor != tag.owner_id {
            return Err(TagError::PermissionDenied);
        }
        let body = match content {
            Some(b) => b,
            None => {
                return Err(TagError::MissingContent);
            },
        };
        tag.content = body;
        self.put_tag(guild, name.clone(), tag);
        Ok(name)
    }

    /// The `delete` operation: only the owner may remove a tag; the
    /// removal happens in the lookup context's own namespace.
    pub fn delete(&mut self, actor: u64, guild: Option<u64>, raw_name: &str) -> (r: Result<
        String,
        TagError,
    >)
        requires
            old(self).wf(),
        ensures
            final(self).wf(),
            ({
                let nm = norm_of(raw_name@);
                let m = old(self).contents();
                let pm = spec_possible(m, guild);
                let key = spec_location_key(guild);
                match r {
                    Ok(name) => {
                        &&& name@ == nm
                        &&& pm.contains_key(nm)
                        &&& pm[nm] is Tag
                        &&& actor == tag_val(pm[nm]).owner_id
                        &&& ns_maps(final(self).contents()) == ns_maps(m).insert(
                            key,
                            amap(ns_at(m, key)).remove(nm),
                        )
                    },
                    Err(e) => {
                        &&& final(self).contents() == m
                        &&& match e {
                            TagError::NotFound => !pm.contains_key(nm),
                            TagError::PermissionDenied => pm.contains_key(nm) && actor != tag_val(
                                pm[nm],
                            ).owner_id,
                            _ => false,
                        }
                    },
                }
            }),
    {
        let name = normalize_name(raw_name);
        let tag = match self.get_tag(guild, name.as_str()) {
            Ok(t) => t,
            Err(e) => {
                return Err(e);
            },
        };
        if !crate::policy::owner_check(actor, &Record::Tag(tag)) {
            return Err(TagError::PermissionDenied);
        }
        self.delete_tag(guild, name.as_str());
        Ok(name)
    }

    /// The `list` operation: the names visible from the context, in
    /// dictionary order.
    pub fn list(&self, guild: Option<u64>) -> (r: Vec<String>)
        requires
            self.wf(),
        ensures
            ({
                let pm = spec_possible(self.contents(), guild);
                &&& forall|n: Seq<char>| #[trigger] pm.contains_key(n) <==> crate::text::name_in(
                    r@,
                    n,
                )
                &&& forall|i: int, j: int|
                    0 <= i < j < r@.len() ==> crate::text::lex_le(
                        (#[trigger] r@[i])@,
                        (#[trigger] r@[j])@,
                    )
            }),
    {
        let possible = self.get_possible_tags(guild);
        let names = possible.names();
        proof {
            lemma_amap_dom(possible@);
        }
        let sorted = crate::text::sort_names(names);
        proof {
            let pm = spec_possible(self.contents(), guild);
            assert forall|n: Seq<char>| #[trigger] pm.contains_key(n) implies crate::text::name_in(
                sorted@,
                n,
            ) by {
                let w = choose|w: int|
                    0 <= w < possible@.len() && (#[trigger] possible@[w]).0 == n;
                assert(names@[w]@ == n);
                assert(crate::text::name_in(names@, n));
            }
            assert forall|n: Seq<char>| #[trigger] crate::text::name_in(sorted@, n) implies
                pm.contains_key(n) by {
                assert(crate::text::name_in(names@, n));
                let w = choose|w: int| 0 <= w < names@.len() && (#[trigger] names@[w])@ == n;
                assert(possible@[w].0 == n);
            }
        }
        sorted
    }
}

fn all_tags_check<S: Store>(store: &S) -> (r: bool)
    requires
        store.wf(),
    ensures
        r == contents_all_tags(store.contents()),
{
    let entries = store.entries();
    let ghost sv = crate::codec::store_view(entries@);
    proof {
        lemma_amap_dom(sv);
    }
    let n = entries.len();
    let mut i: usize = 0;
    while i < n
        invariant
            i <= n,
            n == entries.len(),
            amap(sv) == store.contents(),
            sv == crate::codec::store_view(entries@),
            crate::assoc::akeys_unique(sv),
            forall|a: int| 0 <= a < sv.len() ==> crate::assoc::akeys_unique((#[trigger] sv[a]).1),
            forall|a: int, q: int|
                0 <= a < i && 0 <= q < (#[trigger] sv[a]).1.len() ==> (#[trigger] sv[a].1[q]).1
                    is Tag,
        decreases n - i,
    {
        let ns = &entries[i].1;
        let mut j: usize = 0;
        while j < ns.entries.len()
            invariant
                j <= ns.entries.len(),
                i < n,
                n == entries.len(),
                amap(sv) == store.contents(),
                sv == crate::codec::store_view(entries@),
                crate::assoc::akeys_unique(sv),
                crate::assoc::akeys_unique(sv[i as int].1),
                ns == &entries@[i as int].1,
                ns@ == sv[i as int].1,
                forall|q: int| 0 <= q < j ==> (#[trigger] sv[i as int].1[q]).1 is Tag,
            decreases ns.entries.len() - j,
        {
            match &ns.entries[j].1 {
                Record::Tag(_) => {},
                Record::Counter(_) => {
                    proof {
                        let nsv = sv[i as int].1;
                        assert(nsv[j as int].1 is Counter);
                        lemma_amap_at(sv, i as int);
                        assert(store.contents().contains_key(sv[i as int].0));
                        assert(store.contents()[sv[i as int].0] == nsv);
                        lemma_amap_at(nsv, j as int);
                        assert(amap(nsv).contains_key(nsv[j as int].0));
                        assert(amap(nsv)[nsv[j as int].0] is Counter);
                        assert(!map_all_tags(amap(nsv)));
                    }
                    return false;
                },
            }
            j = j + 1;
        }
        i = i + 1;
    }
    proof {
        assert forall|k: Seq<char>| #[trigger] store.contents().contains_key(k) implies
            map_all_tags(amap(store.contents()[k])) by {
            let w = choose|w: int| 0 <= w < sv.len() && (#[trigger] sv[w]).0 == k;
            lemma_amap_at(sv, w);
            lemma_amap_tags(sv[w].1);
        }
    }
    true
}

proof fn lemma_all_tags_after_insert(
    m: Map<Seq<char>, Seq<(Seq<char>, RecordV)>>,
    mp: Map<Seq<char>, Seq<(Seq<char>, RecordV)>>,
    key: Seq<char>,
    dbm: Map<Seq<char>, RecordV>,
)
    requires
        contents_all_tags(m),
        map_all_tags(dbm),
        ns_maps(mp) == ns_maps(m).insert(key, dbm),
    ensures
        contents_all_tags(mp),
{
    assert forall|k: Seq<char>| #[trigger] mp.contains_key(k) implies map_all_tags(
        amap(mp[k]),
    ) by {
        assert(ns_maps(mp).contains_key(k));
        if k == key {
            assert(ns_maps(mp)[k] == dbm);
        } else {
            assert(ns_maps(mp)[k] == ns_maps(m)[k]);
            assert(m.contains_key(k));
        }
    }
}

} // verus!
