//! The request registry: the requests in flight, each with its place in the
//! life of a request and with the mark that asks it to stop.
//!
//! A request is in the registry from `begin` until it reaches a final phase
//! or is ended. Cancelling a request only sets its mark; the execution sees
//! the mark when it next looks, and ends the request itself. A cancel that
//! comes after the request has gone finds nothing and does nothing.

use vstd::prelude::*;
use vstd::string::StringExecFns;

verus! {

/// Where a request stands in its life.
#[derive(Clone, Copy, Debug, PartialEq, Eq, Structural)]
pub enum Phase {
    Received,
    Compiling,
    Executing,
    Streaming,
    Completed,
    Failed,
    Cancelled,
}

impl Phase {
    /// The phases in which a request has come to its end.
    pub open spec fn is_final(self) -> bool {
        self is Completed || self is Failed || self is Cancelled
    }

    /// Whether a request in phase `self` may go on to phase `next`. A request
    /// with a plan at hand skips compiling; only a request that executes or
    /// streams can be cancelled; no phase follows a final one.
    pub open spec fn leads_to(self, next: Phase) -> bool {
        match self {
            Phase::Received => next is Compiling || next is Executing,
            Phase::Compiling => next is Executing || next is Failed,
            Phase::Executing => next is Streaming || next is Failed || next is Cancelled,
            Phase::Streaming => next is Completed || next is Failed || next is Cancelled,
            _ => false,
        }
    }

    pub fn ends_request(self) -> (b: bool)
        ensures
            b == self.is_final(),
    {
        match self {
            Phase::Completed | Phase::Failed | Phase::Cancelled => true,
            _ => false,
        }
    }

    pub fn may_become(self, next: Phase) -> (b: bool)
        ensures
            b == self.leads_to(next),
    {
        match self {
            Phase::Received => match next {
                Phase::Compiling | Phase::Executing => true,
                _ => false,
            },
            Phase::Compiling => match next {
                Phase::Executing | Phase::Failed => true,
                _ => false,
            },
            Phase::Executing => match next {
                Phase::Streaming | Phase::Failed | Phase::Cancelled => true,
                _ => false,
            },
            Phase::Streaming => match next {
                Phase::Completed | Phase::Failed | Phase::Cancelled => true,
                _ => false,
            },
            _ => false,
        }
    }
}

/// One request in flight.
#[derive(Debug, PartialEq, Eq)]
pub struct RequestEntry {
    pub id: String,
    pub phase: Phase,
    pub cancel_requested: bool,
}

/// What a `RequestEntry` stands for.
pub struct RequestView {
    pub id: Seq<char>,
    pub phase: Phase,
    pub cancel_requested: bool,
}

impl View for RequestEntry {
    type V = RequestView;

    open spec fn view(&self) -> RequestView {
        RequestView { id: self.id@, phase: self.phase, cancel_requested: self.cancel_requested }
    }
}

/// What `begin` hands to the execution it registered: the identifier under
/// which the execution asks the registry whether it is to stop.
#[derive(Debug, PartialEq, Eq)]
pub struct RequestHandle {
    pub request_id: String,
}

/// Whether a request with the identifier is in flight.
pub open spec fn in_flight(entries: Seq<RequestView>, id: Seq<char>) -> bool {
    exists|i: int| 0 <= i < entries.len() && (#[trigger] entries[i]).id == id
}

/// The place of the request with the identifier, among requests that hold it.
pub open spec fn place_of_request(entries: Seq<RequestView>, id: Seq<char>) -> int {
    choose|i: int| 0 <= i < entries.len() && (#[trigger] entries[i]).id == id
}

/// No two requests have the same identifier.
pub open spec fn ids_distinct(entries: Seq<RequestView>) -> bool {
    forall|i: int, j: int|
        0 <= i < j < entries.len() ==> (#[trigger] entries[i]).id != (#[trigger] entries[j]).id
}

/// Every request in flight is in a phase that is not final.
pub open spec fn all_running(entries: Seq<RequestView>) -> bool {
    forall|i: int| 0 <= i < entries.len() ==> !(#[trigger] entries[i]).phase.is_final()
}

/// The requests after the one with the identifier was asked to stop.
pub open spec fn marked(entries: Seq<RequestView>, id: Seq<char>) -> Seq<RequestView> {
    if in_flight(entries, id) {
        let i = place_of_request(entries, id);
        entries.update(i, RequestView { id, phase: entries[i].phase, cancel_requested: true })
    } else {
        entries
    }
}

/// Whether the request with the identifier may go on to the phase.
pub open spec fn may_advance(entries: Seq<RequestView>, id: Seq<char>, next: Phase) -> bool {
    in_flight(entries, id) && entries[place_of_request(entries, id)].phase.leads_to(next)
}

/// The requests after the one with the identifier went on to the phase,
/// where it may: in a final phase it has left.
pub open spec fn advanced(entries: Seq<RequestView>, id: Seq<char>, next: Phase) -> Seq<
    RequestView,
> {
    if !may_advance(entries, id, next) {
        entries
    } else if next.is_final() {
        entries.remove(place_of_request(entries, id))
    } else {
        let i = place_of_request(entries, id);
        entries.update(
            i,
            RequestView { id, phase: next, cancel_requested: entries[i].cancel_requested },
        )
    }
}

/// The requests without the one with the identifier.
pub open spec fn ended(entries: Seq<RequestView>, id: Seq<char>) -> Seq<RequestView> {
    if in_flight(entries, id) {
        entries.remove(place_of_request(entries, id))
    } else {
        entries
    }
}

/// Whether the request with the identifier is in flight and asked to stop.
pub open spec fn stop_requested(entries: Seq<RequestView>, id: Seq<char>) -> bool {
    in_flight(entries, id) && entries[place_of_request(entries, id)].cancel_requested
}

/// The request registry.
pub struct RequestRegistry {
    entries: Vec<RequestEntry>,
}

impl View for RequestRegistry {
    type V = Seq<RequestView>;

    /// The requests in flight, in the order in which they began.
    closed spec fn view(&self) -> Seq<RequestView> {
        self.entries@.map_values(|e: RequestEntry| e@)
    }
}

/// Among requests with distinct identifiers, the request with an identifier
/// stands where any request with that identifier stands.
pub proof fn lemma_place_unique(entries: Seq<RequestView>, id: Seq<char>, i: int)
    requires
        ids_distinct(entries),
        0 <= i < entries.len(),
        entries[i].id == id,
    ensures
        in_flight(entries, id),
        place_of_request(entries, id) == i,
{
    let j = place_of_request(entries, id);
    if j < i {
        assert(entries[j].id != entries[i].id);
    } else if i < j {
        assert(entries[i].id != entries[j].id);
    }
}

/// Taking one request out leaves the others as they were, and the one taken
/// out is no longer in flight.
pub proof fn lemma_removed_is_gone(entries: Seq<RequestView>, i: int)
    requires
        ids_distinct(entries),
        all_running(entries),
        0 <= i < entries.len(),
    ensures
        ids_distinct(entries.remove(i)),
        all_running(entries.remove(i)),
        !in_flight(entries.remove(i), entries[i].id),
        forall|id: Seq<char>|
            id != entries[i].id ==> in_flight(entries.remove(i), id) == in_flight(entries, id),
{
    let after = entries.remove(i);
    let back = |k: int| if k < i { k } else { k + 1 };
    assert forall|k: int| 0 <= k < after.len() implies #[trigger] after[k] == entries[back(k)] by {}
    assert forall|a: int, b: int| 0 <= a < b < after.len() implies (#[trigger] after[a]).id != (
    #[trigger] after[b]).id by {
        assert(after[a] == entries[back(a)] && after[b] == entries[back(b)]);
    }
    assert forall|k: int| 0 <= k < after.len() implies !(#[trigger] after[k]).phase.is_final() by {
        assert(after[k] == entries[back(k)]);
    }
    if in_flight(after, entries[i].id) {
        let k = place_of_request(after, entries[i].id);
        assert(after[k] == entries[back(k)]);
        if back(k) < i {
            assert(entries[back(k)].id != entries[i].id);
        } else {
            assert(entries[i].id != entries[back(k)].id);
        }
    }
    assert forall|id: Seq<char>| id != entries[i].id implies in_flight(after, id) == in_flight(
        entries,
        id,
    ) by {
        if in_flight(after, id) {
            let k = place_of_request(after, id);
            assert(after[k] == entries[back(k)]);
            assert(entries[back(k)].id == id);
        }
        if in_flight(entries, id) {
            let j = place_of_request(entries, id);
            let k = if j < i { j } else { j - 1 };
            assert(after[k] == entries[j]);
            assert(after[k].id == id);
        }
    }
}

impl RequestRegistry {
    /// What holds of every registry: the requests in flight have distinct
    /// identifiers, and none is in a final phase.
    pub closed spec fn well_formed(&self) -> bool {
        ids_distinct(self@) && all_running(self@)
    }

    /// The requests in flight have distinct identifiers, and none is in a
    /// final phase.
    pub proof fn lemma_well_formed(&self)
        requires
            self.well_formed(),
        ensures
            ids_distinct(self@),
            all_running(self@),
    {
    }

    /// A registry without a request.
    pub fn new() -> (registry: RequestRegistry)
        ensures
            registry.well_formed(),
            registry@ == Seq::<RequestView>::empty(),
    {
        let registry = RequestRegistry { entries: Vec::new() };
        assert(registry@ =~= Seq::<RequestView>::empty());
        registry
    }

    pub fn len(&self) -> (n: usize)
        ensures
            n == self@.len(),
    {
        self.entries.len()
    }

    fn find(&self, id: &String) -> (found: Option<usize>)
        ensures
            match found {
                Some(i) => i < self@.len() && self@[i as int].id == id@,
                None => !in_flight(self@, id@),
            },
    {
        let mut i: usize = 0;
        while i < self.entries.len()
            invariant
                i <= self.entries.len(),
                forall|j: int| 0 <= j < i ==> (#[trigger] self@[j]).id != id@,
            decreases self.entries.len() - i,
        {
            if self.entries[i].id == *id {
                return Some(i);
            }
            i = i + 1;
        }
        None
    }

    /// Whether a request with the identifier is in flight.
    pub fn contains(&self, request_id: &str) -> (b: bool)
        ensures
            b == in_flight(self@, request_id@),
    {
        let wanted = String::from_str(request_id);
        self.find(&wanted).is_some()
    }

    /// Registers a request under its identifier, as received and not asked to
    /// stop. `None`, and nothing changes, where a request with the identifier
    /// is in flight already.
    pub fn begin(&mut self, request_id: &str) -> (handle: Option<RequestHandle>)
        requires
            old(self).well_formed(),
        ensures
            final(self).well_formed(),
            match handle {
                Some(h) => {
                    &&& !in_flight(old(self)@, request_id@)
                    &&& h.request_id@ == request_id@
                    &&& final(self)@ == old(self)@.push(
                        RequestView {
                            id: request_id@,
                            phase: Phase::Received,
                            cancel_requested: false,
                        },
                    )
                    &&& in_flight(final(self)@, request_id@)
                },
                None => in_flight(old(self)@, request_id@) && final(self)@ == old(self)@,
            },
            forall|x: Seq<char>|
                in_flight(final(self)@, x) ==> x == request_id@ || in_flight(old(self)@, x),
    {
        let id = String::from_str(request_id);
        if self.find(&id).is_some() {
            return None;
        }
        let ghost before = self@;
        let entry = RequestEntry { id: id.clone(), phase: Phase::Received, cancel_requested: false };
        let ghost added = entry@;
        self.entries.push(entry);
        proof {
            assert(self@ =~= before.push(added));
            assert forall|i: int, j: int| 0 <= i < j < self@.len() implies (#[trigger] self@[i]).id
                != (#[trigger] self@[j]).id by {
                assert(self@[i] == before[i]);
                if j < before.len() {
                    assert(self@[j] == before[j]);
                }
            }
            assert forall|i: int| 0 <= i < self@.len() implies !(#[trigger] self@[i]).phase.is_final() by {
                if i < before.len() {
                    assert(self@[i] == before[i]);
                }
            }
            assert(self@[before.len() as int].id == request_id@);
            assert forall|x: Seq<char>| in_flight(self@, x) implies x == request_id@ || in_flight(
                before,
                x,
            ) by {
                let k = place_of_request(self@, x);
                if k < before.len() {
                    assert(before[k].id == x);
                }
            }
        }
        Some(RequestHandle { request_id: id })
    }

    /// Asks the request to stop. True where the request was in flight: its
    /// mark is then set, however often this is called. False, and nothing
    /// changes, where no such request is in flight, be it that it has ended.
    pub fn cancel(&mut self, request_id: &str) -> (signalled: bool)
        requires
            old(self).well_formed(),
        ensures
            final(self).well_formed(),
            signalled == in_flight(old(self)@, request_id@),
            final(self)@ == marked(old(self)@, request_id@),
            signalled ==> stop_requested(final(self)@, request_id@),
            forall|x: Seq<char>| in_flight(final(self)@, x) ==> in_flight(old(self)@, x),
    {
        let wanted = String::from_str(request_id);
        match self.find(&wanted) {
            None => false,
            Some(i) => {
                let ghost before = self@;
                proof {
                    lemma_place_unique(before, request_id@, i as int);
                }
                let entry = self.entries.remove(i);
                let marked = RequestEntry { id: entry.id, phase: entry.phase, cancel_requested: true };
                let ghost mv = marked@;
                self.entries.insert(i, marked);
                proof {
                    assert(self@ =~= before.update(i as int, mv));
                    assert forall|a: int, b: int| 0 <= a < b < self@.len() implies (
                    #[trigger] self@[a]).id != (#[trigger] self@[b]).id by {
                        assert(self@[a].id == before[a].id && self@[b].id == before[b].id);
                    }
                    assert forall|k: int| 0 <= k < self@.len() implies !(
                    #[trigger] self@[k]).phase.is_final() by {
                        assert(self@[k].phase == before[k].phase);
                    }
                    lemma_place_unique(self@, request_id@, i as int);
                    assert forall|x: Seq<char>| in_flight(self@, x) implies in_flight(before, x) by {
                        let k = place_of_request(self@, x);
                        assert(before[k].id == x);
                    }
                }
                true
            },
        }
    }

    /// Whether the request is in flight and has been asked to stop.
    pub fn is_cancelled(&self, request_id: &str) -> (b: bool)
        requires
            self.well_formed(),
        ensures
            b == stop_requested(self@, request_id@),
    {
        let wanted = String::from_str(request_id);
        match self.find(&wanted) {
            None => false,
            Some(i) => {
                proof {
                    lemma_place_unique(self@, request_id@, i as int);
                }
                self.entries[i].cancel_requested
            },
        }
    }

    /// The phase of the request, where it is in flight.
    pub fn phase_of(&self, request_id: &str) -> (phase: Option<Phase>)
        requires
            self.well_formed(),
        ensures
            phase == if in_flight(self@, request_id@) {
                Some(self@[place_of_request(self@, request_id@)].phase)
            } else {
                None
            },
    {
        let wanted = String::from_str(request_id);
        match self.find(&wanted) {
            None => None,
            Some(i) => {
                proof {
                    lemma_place_unique(self@, request_id@, i as int);
                }
                Some(self.entries[i].phase)
            },
        }
    }

    /// Moves the request on to the phase `next`. True where the request is in
    /// flight and its phase leads to `next`: the request then has that phase,
    /// or has left the registry where the phase is final. False, and nothing
    /// changes, otherwise.
    pub fn advance(&mut self, request_id: &str, next: Phase) -> (moved: bool)
        requires
            old(self).well_formed(),
        ensures
            final(self).well_formed(),
            moved == may_advance(old(self)@, request_id@, next),
            final(self)@ == advanced(old(self)@, request_id@, next),
            forall|x: Seq<char>| in_flight(final(self)@, x) ==> in_flight(old(self)@, x),
            moved && next.is_final() ==> !in_flight(final(self)@, request_id@),
    {
        let wanted = String::from_str(request_id);
        match self.find(&wanted) {
            None => false,
            Some(i) => {
                let ghost before = self@;
                proof {
                    lemma_place_unique(before, request_id@, i as int);
                }
                if !self.entries[i].phase.may_become(next) {
                    return false;
                }
                let entry = self.entries.remove(i);
                proof {
                    assert(self@ =~= before.remove(i as int));
                    lemma_removed_is_gone(before, i as int);
                }
                if !next.ends_request() {
                    let ghost gone = self@;
                    let moved = RequestEntry {
                        id: entry.id,
                        phase: next,
                        cancel_requested: entry.cancel_requested,
                    };
                    let ghost mv = moved@;
                    self.entries.insert(i, moved);
                    proof {
                        assert(self@ =~= before.update(i as int, mv));
                        assert forall|a: int, b: int| 0 <= a < b < self@.len() implies (
                        #[trigger] self@[a]).id != (#[trigger] self@[b]).id by {
                            assert(self@[a].id == before[a].id && self@[b].id == before[b].id);
                        }
                        assert forall|k: int| 0 <= k < self@.len() implies !(
                        #[trigger] self@[k]).phase.is_final() by {
                            if k != i {
                                assert(self@[k].phase == before[k].phase);
                            }
                        }
                        assert forall|x: Seq<char>| in_flight(self@, x) implies in_flight(
                            before,
                            x,
                        ) by {
                            let k = place_of_request(self@, x);
                            assert(before[k].id == x);
                        }
                    }
                }
                true
            },
        }
    }

    /// Takes the request out of the registry. Says whether it was in flight;
    /// ending a request that has gone changes nothing.
    pub fn end(&mut self, request_id: &str) -> (ended: bool)
        requires
            old(self).well_formed(),
        ensures
            final(self).well_formed(),
            ended == in_flight(old(self)@, request_id@),
            !in_flight(final(self)@, request_id@),
            final(self)@ == self::ended(old(self)@, request_id@),
            forall|id: Seq<char>|
                id != request_id@ ==> in_flight(final(self)@, id) == in_flight(old(self)@, id),
    {
        let wanted = String::from_str(request_id);
        match self.find(&wanted) {
            None => false,
            Some(i) => {
                let ghost before = self@;
                proof {
                    lemma_place_unique(before, request_id@, i as int);
                    lemma_removed_is_gone(before, i as int);
                }
                let _ = self.entries.remove(i);
                assert(self@ =~= before.remove(i as int));
                true
            },
        }
    }
}

} // verus!
