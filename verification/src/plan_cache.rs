//! The plan cache: compiled plans kept under names for later execution.
//!
//! The cache holds a bounded number of plans. When it is full, registering a
//! plan first drops the plan that has gone longest without being registered or
//! looked up; nothing else ever leaves the cache but by `evict`. Names come
//! from an [`IdSource`], so a name is never given out twice, not even after the
//! plan it stood for has left the cache.
//!
//! The encoded form of a plan is kept with it as the caller gave it. The
//! cache makes none of its own: a plan registered without one has an empty
//! encoded form, and is not portable between processes.
//!
//! The cache is plain data. Callers that share it between tasks put it behind a
//! lock of their own and hold the lock for single operations only.

use vstd::prelude::*;
use vstd::string::StringExecFns;
use crate::ident::{stamped, lemma_stamp_unique, IdSource};
use crate::plan::{LogicalPlan, PlanView};

verus! {

/// A plan registered under a name.
#[derive(Debug, PartialEq, Eq)]
pub struct PreparedPlan {
    pub name: String,
    pub plan: LogicalPlan,
    /// The encoded form of the plan. Empty where the plan is not portable.
    pub encoding: Vec<u8>,
    /// The serial number of the registration: plans registered later have
    /// larger ones.
    pub sequence: u64,
}

/// What a `PreparedPlan` stands for.
pub struct PreparedView {
    pub name: Seq<char>,
    pub plan: PlanView,
    pub encoding: Seq<u8>,
    pub sequence: u64,
}

impl View for PreparedPlan {
    type V = PreparedView;

    open spec fn view(&self) -> PreparedView {
        PreparedView {
            name: self.name@,
            plan: self.plan@,
            encoding: self.encoding@,
            sequence: self.sequence,
        }
    }
}

impl Clone for PreparedPlan {
    fn clone(&self) -> (copy: PreparedPlan)
        ensures
            copy@ == self@,
    {
        PreparedPlan {
            name: self.name.clone(),
            plan: self.plan.clone(),
            encoding: self.encoding.clone(),
            sequence: self.sequence,
        }
    }
}

/// No plan is registered under the name.
#[derive(Clone, Copy, Debug, PartialEq, Eq, Structural)]
pub struct PlanNotFound;

/// Whether one of the entries has the name.
pub open spec fn holds(entries: Seq<PreparedView>, name: Seq<char>) -> bool {
    exists|i: int| 0 <= i < entries.len() && (#[trigger] entries[i]).name == name
}

/// The place of the entry with the name, among entries that hold it.
pub open spec fn slot_of(entries: Seq<PreparedView>, name: Seq<char>) -> int {
    choose|i: int| 0 <= i < entries.len() && (#[trigger] entries[i]).name == name
}

/// No two entries have the same name.
pub open spec fn names_distinct(entries: Seq<PreparedView>) -> bool {
    forall|i: int, j: int|
        0 <= i < j < entries.len() ==> (#[trigger] entries[i]).name != (#[trigger] entries[j]).name
}

/// The entries after the one at `i` was used: it has moved to the end, where
/// the most recently used entry stands.
pub open spec fn touched(entries: Seq<PreparedView>, i: int) -> Seq<PreparedView> {
    entries.remove(i).push(entries[i])
}

/// The entries that are left room for one more: all of them, or all but the
/// first where they fill the cache.
pub open spec fn room_made(entries: Seq<PreparedView>, capacity: nat) -> Seq<PreparedView> {
    if entries.len() >= capacity {
        entries.drop_first()
    } else {
        entries
    }
}

/// The plan cache.
pub struct PlanCache {
    entries: Vec<PreparedPlan>,
    capacity: usize,
    names: IdSource,
    issued: Ghost<Map<Seq<char>, PlanView>>,
}

impl View for PlanCache {
    type V = Seq<PreparedView>;

    /// The entries, the one that has gone longest without use first.
    closed spec fn view(&self) -> Seq<PreparedView> {
        self.entries@.map_values(|e: PreparedPlan| e@)
    }
}

impl PlanCache {
    /// The most entries the cache holds.
    pub closed spec fn capacity(&self) -> nat {
        self.capacity as nat
    }

    /// How many names the cache has given out.
    pub closed spec fn issued_count(&self) -> u64 {
        self.names.issued()
    }

    /// Every name the cache has ever given out, with the plan it was given
    /// out for.
    pub closed spec fn ever_issued(&self) -> Map<Seq<char>, PlanView> {
        self.issued@
    }

    /// What holds of every cache: it holds at least one plan and no more
    /// than its capacity, no two under one name, each under a name that it
    /// gave out for that plan; and every name it gave out carries a serial
    /// number below the next.
    pub closed spec fn well_formed(&self) -> bool {
        &&& 1 <= self.capacity
        &&& self.entries.len() <= self.capacity
        &&& names_distinct(self@)
        &&& forall|i: int|
            0 <= i < self@.len() ==> self.issued@.contains_key((#[trigger] self@[i]).name)
                && self.issued@[self@[i].name] == self@[i].plan
        &&& forall|n: Seq<char>| #[trigger]
            self.issued@.contains_key(n) ==> exists|t: u64|
                t < self.names.issued() && #[trigger] stamped(n, t)
    }

    /// An empty cache for at most `capacity` plans. A cache holds at least
    /// one plan: a capacity of zero is taken as one.
    pub fn new(capacity: usize) -> (cache: PlanCache)
        ensures
            cache.well_formed(),
            cache@ == Seq::<PreparedView>::empty(),
            cache.capacity() == if capacity == 0 {
                1
            } else {
                capacity as nat
            },
            cache.issued_count() == 0,
            cache.ever_issued() == Map::<Seq<char>, PlanView>::empty(),
    {
        let cache = PlanCache {
            entries: Vec::new(),
            capacity: if capacity == 0 {
                1
            } else {
                capacity
            },
            names: IdSource::new(),
            issued: Ghost(Map::empty()),
        };
        assert(cache@ =~= Seq::<PreparedView>::empty());
        cache
    }

    /// An empty cache for at most `capacity` plans that takes its names
    /// from `names`.
    pub fn with_names(capacity: usize, names: IdSource) -> (cache: PlanCache)
        ensures
            cache.well_formed(),
            cache@ == Seq::<PreparedView>::empty(),
            cache.capacity() == if capacity == 0 {
                1
            } else {
                capacity as nat
            },
            cache.issued_count() == names.issued(),
            cache.ever_issued() == Map::<Seq<char>, PlanView>::empty(),
    {
        let cache = PlanCache {
            entries: Vec::new(),
            capacity: if capacity == 0 {
                1
            } else {
                capacity
            },
            names,
            issued: Ghost(Map::empty()),
        };
        assert(cache@ =~= Seq::<PreparedView>::empty());
        cache
    }

    pub fn len(&self) -> (n: usize)
        ensures
            n == self@.len(),
    {
        self.entries.len()
    }

    fn find(&self, name: &String) -> (found: Option<usize>)
        ensures
            match found {
                Some(i) => i < self@.len() && self@[i as int].name == name@,
                None => !holds(self@, name@),
            },
    {
        let mut i: usize = 0;
        while i < self.entries.len()
            invariant
                i <= self.entries.len(),
                forall|j: int| 0 <= j < i ==> (#[trigger] self@[j]).name != name@,
            decreases self.entries.len() - i,
        {
            if self.entries[i].name == *name {
                return Some(i);
            }
            i = i + 1;
        }
        None
    }

    /// Whether a plan is registered under the name.
    pub fn contains(&self, name: &str) -> (b: bool)
        ensures
            b == holds(self@, name@),
    {
        let wanted = String::from_str(name);
        self.find(&wanted).is_some()
    }

    /// Registers a plan under a fresh name and returns the name. Where the
    /// cache is full the entry that has gone longest without use leaves first,
    /// so the new entry is never the one to leave. `None`, with the cache as it
    /// was, once the cache has no serial number left for another name.
    pub fn register(&mut self, plan: LogicalPlan) -> (name: Option<String>)
        requires
            old(self).well_formed(),
        ensures
            final(self).well_formed(),
            final(self).capacity() == old(self).capacity(),
            old(self).issued_count() == u64::MAX ==> name is None && unchanged(
                *old(self),
                *final(self),
            ),
            old(self).issued_count() != u64::MAX ==> name is Some && registered(
                *old(self),
                *final(self),
                name->0@,
                plan@,
            ) && final(self)@.last().encoding.len() == 0,
    {
        self.register_encoded(plan, Vec::new())
    }

    /// Registers a plan as `register` does, and keeps its encoded form with
    /// it.
    pub fn register_encoded(&mut self, plan: LogicalPlan, encoding: Vec<u8>) -> (name: Option<
        String,
    >)
        requires
            old(self).well_formed(),
        ensures
            final(self).well_formed(),
            final(self).capacity() == old(self).capacity(),
            old(self).issued_count() == u64::MAX ==> name is None && unchanged(
                *old(self),
                *final(self),
            ),
            old(self).issued_count() != u64::MAX ==> name is Some && registered(
                *old(self),
                *final(self),
                name->0@,
                plan@,
            ) && final(self)@.last().encoding == encoding@,
    {
        if self.names.is_exhausted() {
            return None;
        }
        let ghost before = self@;
        let ghost pv = plan@;
        let s = self.names.count();
        let name = match self.names.next() {
            Some(name) => name,
            None => {
                return None;
            },
        };
        proof {
            if self.issued@.contains_key(name@) {
                let t = choose|t: u64| t < s && #[trigger] stamped(name@, t);
                lemma_stamp_unique(name@, s, t);
            }
        }
        if self.entries.len() >= self.capacity {
            let _ = self.entries.remove(0);
        }
        assert(self@ =~= room_made(before, self.capacity as nat));
        let ghost kept = self@;
        let entry = PreparedPlan { name: name.clone(), plan, encoding, sequence: s };
        let ghost added = entry@;
        self.entries.push(entry);
        self.issued = Ghost(self.issued@.insert(name@, pv));
        proof {
            assert(self@ =~= kept.push(added));
            assert forall|i: int| 0 <= i < kept.len() implies before.contains(#[trigger] kept[i]) by {
                if before.len() >= self.capacity {
                    assert(kept[i] == before[i + 1]);
                } else {
                    assert(kept[i] == before[i]);
                }
            }
            assert forall|i: int| 0 <= i < self@.len() implies self.issued@.contains_key(
                (#[trigger] self@[i]).name,
            ) && self.issued@[self@[i].name] == self@[i].plan by {
                if i < kept.len() {
                    let k = choose|k: int| 0 <= k < before.len() && before[k] == kept[i];
                    assert(old(self).issued@.contains_key(before[k].name));
                }
            }
            assert forall|i: int, j: int| 0 <= i < j < self@.len() implies (#[trigger] self@[i]).name
                != (#[trigger] self@[j]).name by {
                let ki = choose|k: int| 0 <= k < before.len() && before[k] == kept[i];
                assert(old(self).issued@.contains_key(before[ki].name));
                if j < kept.len() {
                    if before.len() >= self.capacity {
                        assert(kept[i] == before[i + 1] && kept[j] == before[j + 1]);
                    } else {
                        assert(kept[i] == before[i] && kept[j] == before[j]);
                    }
                }
            }
            assert forall|n: Seq<char>| #[trigger] self.issued@.contains_key(n) implies exists|
                t: u64,
            |
                t < self.names.issued() && #[trigger] stamped(n, t) by {
                if n == name@ {
                    assert(stamped(n, s));
                } else {
                    assert(old(self).issued@.contains_key(n));
                    let t = choose|t: u64| t < s && #[trigger] stamped(n, t);
                    assert(stamped(n, t));
                }
            }
        }
        Some(name)
    }

    /// Looks a plan up by its name and marks it as just used.
    pub fn lookup(&mut self, name: &str) -> (found: Result<PreparedPlan, PlanNotFound>)
        requires
            old(self).well_formed(),
        ensures
            final(self).well_formed(),
            final(self).capacity() == old(self).capacity(),
            final(self).ever_issued() == old(self).ever_issued(),
            final(self).issued_count() == old(self).issued_count(),
            match found {
                Ok(entry) => {
                    &&& holds(old(self)@, name@)
                    &&& entry@ == old(self)@[slot_of(old(self)@, name@)]
                    &&& entry@.name == name@
                    &&& final(self)@ == touched(old(self)@, slot_of(old(self)@, name@))
                    &&& old(self).ever_issued().contains_key(name@)
                    &&& old(self).ever_issued()[name@] == entry@.plan
                },
                Err(_) => !holds(old(self)@, name@) && final(self)@ == old(self)@,
            },
    {
        let wanted = String::from_str(name);
        match self.find(&wanted) {
            None => Err(PlanNotFound),
            Some(i) => {
                let ghost before = self@;
                proof {
                    lemma_slot_unique(before, name@, i as int);
                }
                let entry = self.entries.remove(i);
                let copy = entry.clone();
                self.entries.push(entry);
                proof {
                    assert(self@ =~= touched(before, i as int));
                    lemma_touched_keeps(before, i as int);
                    assert forall|k: int| 0 <= k < self@.len() implies self.issued@.contains_key(
                        (#[trigger] self@[k]).name,
                    ) && self.issued@[self@[k].name] == self@[k].plan by {
                        let j = choose|j: int| 0 <= j < before.len() && before[j] == self@[k];
                        assert(self.issued@.contains_key(before[j].name));
                    }
                }
                Ok(copy)
            },
        }
    }

    /// Takes the plan with the name out of the cache. Says whether there was
    /// one.
    pub fn evict(&mut self, name: &str) -> (removed: bool)
        requires
            old(self).well_formed(),
        ensures
            final(self).well_formed(),
            final(self).capacity() == old(self).capacity(),
            final(self).ever_issued() == old(self).ever_issued(),
            final(self).issued_count() == old(self).issued_count(),
            removed == holds(old(self)@, name@),
            !holds(final(self)@, name@),
            final(self)@ == if removed {
                old(self)@.remove(slot_of(old(self)@, name@))
            } else {
                old(self)@
            },
    {
        let wanted = String::from_str(name);
        match self.find(&wanted) {
            None => false,
            Some(i) => {
                let ghost before = self@;
                proof {
                    lemma_slot_unique(before, name@, i as int);
                }
                let _ = self.entries.remove(i);
                proof {
                    assert(self@ =~= before.remove(i as int));
                    assert forall|k: int| 0 <= k < self@.len() implies (#[trigger] self@[k])
                        == before[if k < i { k } else { k + 1 }] by {}
                    assert forall|k: int| 0 <= k < self@.len() implies self.issued@.contains_key(
                        (#[trigger] self@[k]).name,
                    ) && self.issued@[self@[k].name] == self@[k].plan by {
                        let j = if k < i { k } else { k + 1 };
                        assert(self@[k] == before[j]);
                        assert(self.issued@.contains_key(before[j].name));
                    }
                    assert forall|a: int, b: int| 0 <= a < b < self@.len() implies (
                    #[trigger] self@[a]).name != (#[trigger] self@[b]).name by {
                        let ja = if a < i { a } else { a + 1 };
                        let jb = if b < i { b } else { b + 1 };
                        assert(self@[a] == before[ja] && self@[b] == before[jb]);
                    }
                    if holds(self@, name@) {
                        let k = slot_of(self@, name@);
                        let j = if k < i { k } else { k + 1 };
                        assert(self@[k] == before[j]);
                        if j < i {
                            assert(before[j].name != before[i as int].name);
                        } else {
                            assert(before[i as int].name != before[j].name);
                        }
                    }
                }
                true
            },
        }
    }
}

/// A cache that holds and has given out what it did before.
pub open spec fn unchanged(pre: PlanCache, post: PlanCache) -> bool {
    &&& post@ == pre@
    &&& post.capacity() == pre.capacity()
    &&& post.ever_issued() == pre.ever_issued()
    &&& post.issued_count() == pre.issued_count()
}

/// What registering a plan does to a cache that still has a serial number
/// to give: the name is new among all names the cache ever gave out, it
/// carries the next serial number, and the plan stands under it as the most
/// recently used entry, behind the entries that were left room for it. The
/// encoded form kept with the plan is whatever the new entry holds.
pub open spec fn registered(pre: PlanCache, post: PlanCache, name: Seq<char>, plan: PlanView) -> bool {
    &&& !pre.ever_issued().contains_key(name)
    &&& stamped(name, pre.issued_count())
    &&& name.len() == 53
    &&& post.issued_count() == pre.issued_count() + 1
    &&& post.ever_issued() == pre.ever_issued().insert(name, plan)
    &&& post@.len() >= 1
    &&& post@ == room_made(pre@, pre.capacity()).push(
        PreparedView {
            name,
            plan,
            encoding: post@.last().encoding,
            sequence: pre.issued_count(),
        },
    )
}

/// Among entries with distinct names, the entry with a name stands where any
/// entry with that name stands.
pub proof fn lemma_slot_unique(entries: Seq<PreparedView>, name: Seq<char>, i: int)
    requires
        names_distinct(entries),
        0 <= i < entries.len(),
        entries[i].name == name,
    ensures
        holds(entries, name),
        slot_of(entries, name) == i,
{
    let j = slot_of(entries, name);
    if j < i {
        assert(entries[j].name != entries[i].name);
    } else if i < j {
        assert(entries[i].name != entries[j].name);
    }
}

/// Using an entry moves it and loses none: the entries are the same, and
/// their names stay distinct.
pub proof fn lemma_touched_keeps(entries: Seq<PreparedView>, i: int)
    requires
        names_distinct(entries),
        0 <= i < entries.len(),
    ensures
        names_distinct(touched(entries, i)),
        touched(entries, i).len() == entries.len(),
        forall|k: int|
            0 <= k < entries.len() ==> entries.contains(#[trigger] touched(entries, i)[k]),
        forall|n: Seq<char>| holds(touched(entries, i), n) == holds(entries, n),
{
    let after = touched(entries, i);
    let back = |k: int| if k < i { k } else if k < entries.len() - 1 { k + 1 } else { i };
    assert forall|k: int| 0 <= k < after.len() implies #[trigger] after[k] == entries[back(k)] by {}
    assert forall|k: int| 0 <= k < entries.len() implies entries.contains(#[trigger] after[k]) by {
        assert(after[k] == entries[back(k)]);
    }
    assert forall|a: int, b: int| 0 <= a < b < after.len() implies (#[trigger] after[a]).name != (
    #[trigger] after[b]).name by {
        assert(after[a] == entries[back(a)] && after[b] == entries[back(b)]);
        if back(a) < back(b) {
            assert(entries[back(a)].name != entries[back(b)].name);
        } else {
            assert(entries[back(b)].name != entries[back(a)].name);
        }
    }
    assert forall|n: Seq<char>| holds(after, n) == holds(entries, n) by {
        if holds(after, n) {
            let k = slot_of(after, n);
            assert(after[k] == entries[back(k)]);
            assert(entries[back(k)].name == n);
        }
        if holds(entries, n) {
            let j = slot_of(entries, n);
            let k = if j < i { j } else if j == i { entries.len() - 1 } else { j - 1 };
            assert(after[k] == entries[j]);
            assert(after[k].name == n);
        }
    }
}

/// Whatever the cache gave out before, it has still given out after.
pub open spec fn grown(pre: PlanCache, post: PlanCache) -> bool {
    pre.ever_issued().submap_of(post.ever_issued())
}

/// Registering gives out one more name and takes none back.
pub proof fn lemma_registered_grows(pre: PlanCache, post: PlanCache, name: Seq<char>, plan: PlanView)
    requires
        registered(pre, post, name, plan),
    ensures
        grown(pre, post),
        post.ever_issued().contains_key(name),
        post.ever_issued()[name] == plan,
{
}

/// A plan that was just registered is in the cache, whatever had to leave
/// to make room for it.
pub proof fn lemma_registered_is_held(pre: PlanCache, post: PlanCache, name: Seq<char>, plan: PlanView)
    requires
        registered(pre, post, name, plan),
    ensures
        holds(post@, name),
        post@.last().name == name,
        post@.last().plan == plan,
{
    assert(post@[post@.len() - 1].name == name);
}

/// Two registrations never yield the same name, whatever was done to the
/// cache between them, and in whatever order two callers got their turn.
pub proof fn lemma_names_never_repeat(
    before_first: PlanCache,
    after_first: PlanCache,
    before_second: PlanCache,
    after_second: PlanCache,
    first: Seq<char>,
    first_plan: PlanView,
    second: Seq<char>,
    second_plan: PlanView,
)
    requires
        registered(before_first, after_first, first, first_plan),
        grown(after_first, before_second),
        registered(before_second, after_second, second, second_plan),
    ensures
        first != second,
{
    assert(after_first.ever_issued().contains_key(first));
    assert(after_first.ever_issued().dom().contains(first));
}

/// A name stands for the plan it was given out for and for no other: if a
/// cache holds an entry under a name that an earlier state of it gave out,
/// the entry holds the plan of that registration.
pub proof fn lemma_entry_is_what_was_registered(
    pre: PlanCache,
    post: PlanCache,
    later: PlanCache,
    name: Seq<char>,
    plan: PlanView,
)
    requires
        registered(pre, post, name, plan),
        grown(post, later),
        later.well_formed(),
        holds(later@, name),
    ensures
        later@[slot_of(later@, name)].plan == plan,
{
    let i = slot_of(later@, name);
    assert(later@[i].name == name);
    assert(post.ever_issued().dom().contains(name));
}

/// A name that the cache never gave out is not in it.
pub proof fn lemma_unissued_name_is_absent(cache: PlanCache, name: Seq<char>)
    requires
        cache.well_formed(),
        !cache.ever_issued().contains_key(name),
    ensures
        !holds(cache@, name),
{
    if holds(cache@, name) {
        let i = slot_of(cache@, name);
        assert(cache@[i].name == name);
    }
}

/// A cache holds no more entries than its capacity.
pub proof fn lemma_cache_within_capacity(cache: PlanCache)
    requires
        cache.well_formed(),
    ensures
        cache@.len() <= cache.capacity(),
        cache.capacity() >= 1,
        names_distinct(cache@),
{
}

} // verus!
