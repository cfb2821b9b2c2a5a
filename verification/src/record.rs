//! The two record kinds that the store holds: counters and tags.
//!
//! Timestamps are kept as seconds since the Unix epoch, locations as the
//! already-rendered location key (a decimal community identifier or the
//! generic marker), and the access-control lists as plain vectors of
//! actor identifiers.

use vstd::prelude::*;

verus! {

/// Mathematical view of a counter record.
pub ghost struct CounterV {
    pub name: Seq<char>,
    pub count: i64,
    pub owner_id: u64,
    pub public_edit: bool,
    pub queries: u32,
    pub location: Option<Seq<char>>,
    pub created_at: i64,
    pub blacklisted_users: Seq<u64>,
    pub whitelisted_users: Seq<u64>,
}

/// A named counter owned by the actor who created it.
pub struct Counter {
    pub name: String,
    pub count: i64,
    pub owner_id: u64,
    /// Whether the counter may be edited by actors other than the owner.
    pub public_edit: bool,
    pub queries: u32,
    pub location: Option<String>,
    pub created_at: i64,
    pub blacklisted_users: Vec<u64>,
    pub whitelisted_users: Vec<u64>,
}

impl View for Counter {
    type V = CounterV;

    open spec fn view(&self) -> CounterV {
        CounterV {
            name: self.name@,
            count: self.count,
            owner_id: self.owner_id,
            public_edit: self.public_edit,
            queries: self.queries,
            location: match self.location {
                Some(l) => Some(l@),
                None => None,
            },
            created_at: self.created_at,
            blacklisted_users: self.blacklisted_users@,
            whitelisted_users: self.whitelisted_users@,
        }
    }
}

/// Mathematical view of a tag record.
pub ghost struct TagV {
    pub name: Seq<char>,
    pub content: Seq<char>,
    pub owner_id: u64,
    pub uses: u32,
    pub location: Option<Seq<char>>,
    pub created_at: i64,
}

/// A named piece of text owned by the actor who created it.
pub struct Tag {
    pub name: String,
    pub content: String,
    pub owner_id: u64,
    pub uses: u32,
    pub location: Option<String>,
    pub created_at: i64,
}

impl View for Tag {
    type V = TagV;

    open spec fn view(&self) -> TagV {
        TagV {
            name: self.name@,
            content: self.content@,
            owner_id: self.owner_id,
            uses: self.uses,
            location: match self.location {
                Some(l) => Some(l@),
                None => None,
            },
            created_at: self.created_at,
        }
    }
}

/// Either kind of record, as a namespace stores them.
pub enum Record {
    Counter(Counter),
    Tag(Tag),
}

pub ghost enum RecordV {
    Counter(CounterV),
    Tag(TagV),
}

impl View for Record {
    type V = RecordV;

    open spec fn view(&self) -> RecordV {
        match self {
            Record::Counter(c) => RecordV::Counter(c@),
            Record::Tag(t) => RecordV::Tag(t@),
        }
    }
}

/// Relies on chrono's `Utc::now` and `DateTime::timestamp` for the
/// current time in seconds since the Unix epoch. Nothing is assumed of
/// the value; callers state what holds whatever the clock reads.
/// (`Utc::now` aborts if the system clock is set before the epoch.)
#[verifier::external_body]
fn now_timestamp() -> i64 {
    chrono::Utc::now().timestamp()
}

/// The successor of a count, wrapping at the numeric limit.
pub open spec fn count_inc(c: i64) -> i64 {
    if c == i64::MAX {
        i64::MIN
    } else {
        (c + 1) as i64
    }
}

/// The predecessor of a count, wrapping at the numeric limit.
pub open spec fn count_dec(c: i64) -> i64 {
    if c == i64::MIN {
        i64::MAX
    } else {
        (c - 1) as i64
    }
}

/// A usage counter bumped by one, saturating at the numeric limit so
/// that it never decreases.
pub open spec fn usage_bump(q: u32) -> u32 {
    if q == u32::MAX {
        q
    } else {
        (q + 1) as u32
    }
}

impl Counter {
    /// A fresh counter: count starts at zero, editing is public, no
    /// access lists, no location, created now.
    pub fn new(name: String, owner_id: u64) -> (r: Counter)
        ensures
            r@.name == name@,
            r@.count == 0,
            r@.owner_id == owner_id,
            r@.public_edit == true,
            r@.queries == 0,
            r@.location is None,
            r@.blacklisted_users == Seq::<u64>::empty(),
            r@.whitelisted_users == Seq::<u64>::empty(),
    {
        Counter {
            name,
            count: 0,
            owner_id,
            public_edit: true,
            queries: 0,
            location: None,
            created_at: now_timestamp(),
            blacklisted_users: Vec::new(),
            whitelisted_users: Vec::new(),
        }
    }

    /// Whether the counter belongs to the cross-location namespace.
    pub fn is_generic(&self) -> (r: bool)
        ensures
            r == (self@.location is None),
    {
        self.location.is_none()
    }

    /// Adds one to the count, wrapping at the numeric limit.
    pub fn increment(&mut self)
        ensures
            final(self)@ == (CounterV { count: count_inc(old(self)@.count), ..old(self)@ }),
    {
        if self.count == i64::MAX {
            self.count = i64::MIN;
        } else {
            self.count = self.count + 1;
        }
    }

    /// Takes one off the count, wrapping at the numeric limit.
    pub fn decrement(&mut self)
        ensures
            final(self)@ == (CounterV { count: count_dec(old(self)@.count), ..old(self)@ }),
    {
        if self.count == i64::MIN {
            self.count = i64::MAX;
        } else {
            self.count = self.count - 1;
        }
    }

    /// Bumps the lookup counter, saturating at the numeric limit.
    pub fn bump_queries(&mut self)
        ensures
            final(self)@ == (CounterV { queries: usage_bump(old(self)@.queries), ..old(self)@ }),
    {
        if self.queries < u32::MAX {
            self.queries = self.queries + 1;
        }
    }
}

impl Tag {
    /// A fresh tag: no uses yet, no location, created now.
    pub fn new(name: String, content: String, owner_id: u64) -> (r: Tag)
        ensures
            r@.name == name@,
            r@.content == content@,
            r@.owner_id == owner_id,
            r@.uses == 0,
            r@.location is None,
    {
        Tag { name, content, owner_id, uses: 0, location: None, created_at: now_timestamp() }
    }

    /// Whether the tag belongs to the cross-location namespace.
    pub fn is_generic(&self) -> (r: bool)
        ensures
            r == (self@.location is None),
    {
        self.location.is_none()
    }

    /// Bumps the usage counter, saturating at the numeric limit.
    pub fn bump_uses(&mut self)
        ensures
            final(self)@ == (TagV { uses: usage_bump(old(self)@.uses), ..old(self)@ }),
    {
        if self.uses < u32::MAX {
            self.uses = self.uses + 1;
        }
    }
}

impl Record {
    /// The identity that created the record.
    pub fn owner_id(&self) -> (r: u64)
        ensures
            r == spec_owner_id(self@),
    {
        match self {
            Record::Counter(c) => c.owner_id,
            Record::Tag(t) => t.owner_id,
        }
    }
}

pub open spec fn spec_owner_id(r: RecordV) -> u64 {
    match r {
        RecordV::Counter(c) => c.owner_id,
        RecordV::Tag(t) => t.owner_id,
    }
}

fn copy_u64_vec(v: &Vec<u64>) -> (r: Vec<u64>)
    ensures
        r@ == v@,
{
    let mut r: Vec<u64> = Vec::new();
    let mut i: usize = 0;
    while i < v.len()
        invariant
            i <= v.len(),
            r@ == v@.take(i as int),
        decreases v.len() - i,
    {
        r.push(v[i]);
        i = i + 1;
        assert(r@ =~= v@.take(i as int));
    }
    assert(r@ =~= v@);
    r
}

fn copy_opt_string(o: &Option<String>) -> (r: Option<String>)
    ensures
        r.deep_view() == o.deep_view(),
{
    match o {
        Some(s) => Some(s.clone()),
        None => None,
    }
}

impl Counter {
    /// A copy with the same view.
    pub fn duplicate(&self) -> (r: Counter)
        ensures
            r@ == self@,
    {
        Counter {
            name: self.name.clone(),
            count: self.count,
            owner_id: self.owner_id,
            public_edit: self.public_edit,
            queries: self.queries,
            location: copy_opt_string(&self.location),
            created_at: self.created_at,
            blacklisted_users: copy_u64_vec(&self.blacklisted_users),
            whitelisted_users: copy_u64_vec(&self.whitelisted_users),
        }
    }
}

impl Tag {
    /// A copy with the same view.
    pub fn duplicate(&self) -> (r: Tag)
        ensures
            r@ == self@,
    {
        Tag {
            name: self.name.clone(),
            content: self.content.clone(),
            owner_id: self.owner_id,
            uses: self.uses,
            location: copy_opt_string(&self.location),
            created_at: self.created_at,
        }
    }
}

impl Record {
    /// A copy with the same view.
    pub fn duplicate(&self) -> (r: Record)
        ensures
            r@ == self@,
    {
        match self {
            Record::Counter(c) => Record::Counter(c.duplicate()),
            Record::Tag(t) => Record::Tag(t.duplicate()),
        }
    }
}

} // verus!
