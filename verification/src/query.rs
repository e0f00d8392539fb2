//! The query service: statements in, plans prepared and executions begun.
//!
//! The service owns the plan cache and the request registry, and gives each
//! execution an identifier of its own. It opens no stream and waits for
//! nothing: it hands out executions, and whoever serves the caller drives them
//! step by step through `step`, which looks for a request to stop before each
//! step and keeps the registry in line with the execution after it.

use vstd::prelude::*;
use vstd::string::StrSliceExecFns;
use vstd::string::StringExecFns;
use vstd::utf8::{decode_utf8, encode_utf8};
use crate::coordinator::{
    execution_well_formed, frames_alike, lemma_alike_runs, lemma_same_plan_starts_alike,
    run_frames, script_view, started_spec, step_spec, Action, Event, Execution, ReplyView,
    SourceReply,
};
use crate::frame::{
    complete_stream, frames_view, rows_of, values_view, ErrorKind, ResultFrame, Value, ValueView,
};
use crate::ident::{lemma_stamp_unique, stamped, IdSource};
use crate::lexer::{CompileCause, CompileError};
use crate::plan::{
    compile, compile_spec, parse, parse_spec, plan_text, fault, LogicalPlan,
};
use crate::plan_cache::{
    grown, holds, lemma_entry_is_what_was_registered, registered, slot_of, touched, unchanged,
    PlanCache,
};
use crate::registry::{
    advanced, ended, in_flight, marked, stop_requested, Phase, RequestRegistry, RequestView,
};
use crate::stream::{ResultStream, StreamView};

verus! {

/// How many frames a result stream holds unless told otherwise.
pub const DEFAULT_STREAM_CAPACITY: usize = 128;

/// How many plans a service keeps unless told otherwise.
pub const DEFAULT_PLAN_CAPACITY: usize = 256;

/// Why a call failed before any frame was sent.
#[derive(Clone, Copy, Debug, PartialEq, Eq, Structural)]
pub enum QueryError {
    /// The statement does not compile.
    Compile(CompileError),
    /// No plan is registered under the name.
    PlanNotFound,
    /// The service has no identifier left to give.
    Internal,
}

impl QueryError {
    pub open spec fn spec_kind(self) -> ErrorKind {
        match self {
            QueryError::Compile(_) => ErrorKind::Compile,
            QueryError::PlanNotFound => ErrorKind::PlanNotFound,
            QueryError::Internal => ErrorKind::Internal,
        }
    }

    pub open spec fn text(self) -> Seq<char> {
        match self {
            QueryError::Compile(e) => e.text(),
            QueryError::PlanNotFound => "no plan is registered under this name"@,
            QueryError::Internal => "no identifier is left"@,
        }
    }

    pub fn kind(&self) -> (kind: ErrorKind)
        ensures
            kind == self.spec_kind(),
    {
        match self {
            QueryError::Compile(_) => ErrorKind::Compile,
            QueryError::PlanNotFound => ErrorKind::PlanNotFound,
            QueryError::Internal => ErrorKind::Internal,
        }
    }

    pub fn message(&self) -> (message: String)
        ensures
            message@ == self.text(),
    {
        match self {
            QueryError::Compile(e) => e.message(),
            QueryError::PlanNotFound => String::from_str("no plan is registered under this name"),
            QueryError::Internal => String::from_str("no identifier is left"),
        }
    }
}

/// What `prepare` answers.
#[derive(Debug, PartialEq, Eq)]
pub struct PrepareResponse {
    pub prepared_name: String,
    /// The statement in UTF-8 where the service makes its plans portable:
    /// whoever holds it can compile the plan again. Empty where it does not.
    pub encoded_plan: Vec<u8>,
    pub plan_text: Option<String>,
}

/// What `explain` answers: the plan and its description, or no plan and the
/// reason why the statement has none.
#[derive(Debug, PartialEq, Eq)]
pub struct ExplainResponse {
    pub plan: Option<LogicalPlan>,
    pub plan_text: String,
}

/// Whether an identifier carries a serial number below `count`.
pub open spec fn issued_by(id: Seq<char>, count: u64) -> bool {
    exists|t: u64| t < count && #[trigger] stamped(id, t)
}

/// The query service.
pub struct QueryServiceImpl {
    cache: PlanCache,
    registry: RequestRegistry,
    ids: IdSource,
    stream_capacity: usize,
    portable: bool,
}

/// The encoded form of the plan of a statement: the statement in UTF-8
/// where plans are portable, nothing where they are not.
pub open spec fn encoding_of(statement: Seq<char>, portable: bool) -> Seq<u8> {
    if portable {
        encode_utf8(statement)
    } else {
        Seq::empty()
    }
}

/// The registry after a step that took the request from one phase to
/// another: the request has gone on where the phase changed, and has left
/// where the execution has finished.
pub open spec fn followed(
    entries: Seq<RequestView>,
    id: Seq<char>,
    before: Phase,
    after: Phase,
    finished: bool,
) -> Seq<RequestView> {
    let moved = if after != before {
        advanced(entries, id, after)
    } else {
        entries
    };
    if finished {
        ended(moved, id)
    } else {
        moved
    }
}

impl QueryServiceImpl {
    /// The plans kept.
    pub closed spec fn plans(&self) -> PlanCache {
        self.cache
    }

    /// The requests in flight.
    pub closed spec fn requests(&self) -> Seq<RequestView> {
        self.registry@
    }

    /// How many request identifiers were given out.
    pub closed spec fn issued_ids(&self) -> u64 {
        self.ids.issued()
    }

    /// The room the service gives each of its result streams.
    pub closed spec fn stream_capacity(&self) -> nat {
        self.stream_capacity as nat
    }

    /// Whether the service makes its plans portable: whether `prepare`
    /// hands out an encoded form from which the plan can be made again
    /// elsewhere.
    pub closed spec fn portable(&self) -> bool {
        self.portable
    }

    /// What holds of every service: its cache and its registry are as they
    /// should be, and every request in flight has an identifier that the
    /// service gave out.
    pub closed spec fn well_formed(&self) -> bool {
        &&& self.cache.well_formed()
        &&& self.registry.well_formed()
        &&& forall|x: Seq<char>| #[trigger]
            in_flight(self.registry@, x) ==> issued_by(x, self.ids.issued())
    }

    /// Whether the service gave out what it did before and holds what it did
    /// before.
    pub open spec fn same_as(&self, other: &QueryServiceImpl) -> bool {
        &&& unchanged(other.plans(), self.plans())
        &&& self.requests() == other.requests()
        &&& self.issued_ids() == other.issued_ids()
        &&& self.stream_capacity() == other.stream_capacity()
        &&& self.portable() == other.portable()
    }

    /// A service that keeps at most `plan_capacity` plans and gives its
    /// result streams room for `stream_capacity` frames.
    pub fn new(plan_capacity: usize, stream_capacity: usize) -> (service: QueryServiceImpl)
        ensures
            service.well_formed(),
            service.plans()@.len() == 0,
            service.requests().len() == 0,
            service.issued_ids() == 0,
            service.stream_capacity() == stream_capacity,
            !service.portable(),
            service.plans().capacity() == if plan_capacity == 0 {
                1
            } else {
                plan_capacity as nat
            },
    {
        let service = QueryServiceImpl {
            cache: PlanCache::new(plan_capacity),
            registry: RequestRegistry::new(),
            ids: IdSource::new(),
            stream_capacity,
            portable: false,
        };
        assert forall|x: Seq<char>| #[trigger] in_flight(service.registry@, x) implies issued_by(
            x,
            service.ids.issued(),
        ) by {
            let i = crate::registry::place_of_request(service.registry@, x);
            assert(service.registry@[i].id == x);
        }
        service
    }

    /// A service that keeps its plans in `cache` and takes the identifiers
    /// of its requests from `ids`.
    pub fn with_parts(cache: PlanCache, ids: IdSource, stream_capacity: usize) -> (service:
        QueryServiceImpl)
        requires
            cache.well_formed(),
        ensures
            service.well_formed(),
            service.plans() == cache,
            service.requests().len() == 0,
            service.issued_ids() == ids.issued(),
            service.stream_capacity() == stream_capacity,
            !service.portable(),
    {
        let service = QueryServiceImpl {
            cache,
            registry: RequestRegistry::new(),
            ids,
            stream_capacity,
            portable: false,
        };
        assert forall|x: Seq<char>| #[trigger] in_flight(service.registry@, x) implies issued_by(
            x,
            service.ids.issued(),
        ) by {
            let i = crate::registry::place_of_request(service.registry@, x);
            assert(service.registry@[i].id == x);
        }
        service
    }

    /// Makes the plans that the service prepares from now on portable, or
    /// not. Nothing else changes.
    pub fn set_portable(&mut self, portable: bool)
        requires
            old(self).well_formed(),
        ensures
            final(self).well_formed(),
            final(self).portable() == portable,
            final(self).plans() == old(self).plans(),
            final(self).requests() == old(self).requests(),
            final(self).issued_ids() == old(self).issued_ids(),
            final(self).stream_capacity() == old(self).stream_capacity(),
    {
        self.portable = portable;
    }

    /// An empty result stream with the room this service gives its streams.
    pub fn open_stream(&self) -> (stream: ResultStream)
        ensures
            stream.well_formed(),
            stream@ == (StreamView {
                queued: Seq::empty(),
                pushed: Seq::empty(),
                pulled: Seq::empty(),
                capacity: if self.stream_capacity() == 0 {
                    1
                } else {
                    self.stream_capacity()
                },
                producer_closed: false,
                consumer_closed: false,
            }),
    {
        ResultStream::new(self.stream_capacity)
    }

    /// Compiles a statement and registers its plan under a fresh name.
    pub fn prepare(&mut self, statement: &str, params: &Vec<Value>) -> (result: Result<
        PrepareResponse,
        QueryError,
    >)
        requires
            old(self).well_formed(),
        ensures
            final(self).well_formed(),
            final(self).requests() == old(self).requests(),
            final(self).issued_ids() == old(self).issued_ids(),
            final(self).stream_capacity() == old(self).stream_capacity(),
            final(self).portable() == old(self).portable(),
            match compile_spec(statement@, params@.len()) {
                Err(e) => result == Err::<PrepareResponse, QueryError>(QueryError::Compile(e))
                    && final(self).same_as(old(self)),
                Ok(plan) => if old(self).plans().issued_count() == u64::MAX {
                    result == Err::<PrepareResponse, QueryError>(QueryError::Internal) && final(self).same_as(old(self))
                } else {
                    &&& result matches Ok(response)
                    &&& registered(
                        old(self).plans(),
                        final(self).plans(),
                        response.prepared_name@,
                        plan,
                    )
                    &&& response.encoded_plan@ == encoding_of(statement@, old(self).portable())
                    &&& final(self).plans()@.last().encoding == response.encoded_plan@
                    &&& response.plan_text is None
                },
            },
    {
        match compile(statement, params) {
            Err(e) => Err(QueryError::Compile(e)),
            Ok(plan) => {
                let encoding = if self.portable {
                    statement.as_bytes_vec()
                } else {
                    Vec::new()
                };
                let copy = encoding.clone();
                assert(copy@ =~= encoding@);
                match self.cache.register_encoded(plan, encoding) {
                    None => Err(QueryError::Internal),
                    Some(name) => Ok(
                        PrepareResponse {
                            prepared_name: name,
                            encoded_plan: copy,
                            plan_text: None,
                        },
                    ),
                }
            },
        }
    }

    /// Says what plan a statement has, without running anything.
    pub fn explain(&self, statement: &str) -> (response: ExplainResponse)
        ensures
            match parse_spec(statement@) {
                Ok(plan) => response.plan matches Some(found) && found@ == plan
                    && response.plan_text@ == plan_text(plan),
                Err(e) => response.plan is None && response.plan_text@ == e.text(),
            },
    {
        match parse(statement) {
            Ok(plan) => {
                let text = plan.describe();
                ExplainResponse { plan: Some(plan), plan_text: text }
            },
            Err(e) => ExplainResponse { plan: None, plan_text: e.message() },
        }
    }

    fn admit_request(&mut self) -> (id: Option<String>)
        requires
            old(self).well_formed(),
        ensures
            final(self).well_formed(),
            final(self).plans() == old(self).plans(),
            final(self).stream_capacity() == old(self).stream_capacity(),
            final(self).portable() == old(self).portable(),
            match id {
                None => old(self).issued_ids() == u64::MAX && final(self).same_as(old(self)),
                Some(id) => {
                    &&& old(self).issued_ids() != u64::MAX
                    &&& final(self).issued_ids() == old(self).issued_ids() + 1
                    &&& stamped(id@, old(self).issued_ids())
                    &&& id@.len() == 53
                    &&& !in_flight(old(self).requests(), id@)
                    &&& final(self).requests() == old(self).requests().push(
                        RequestView { id: id@, phase: Phase::Received, cancel_requested: false },
                    )
                },
            },
    {
        let ghost s = self.ids.issued();
        let id = match self.ids.next() {
            None => {
                return None;
            },
            Some(id) => id,
        };
        proof {
            if in_flight(self.registry@, id@) {
                let t = choose|t: u64| t < s && #[trigger] stamped(id@, t);
                lemma_stamp_unique(id@, s, t);
            }
        }
        let ghost before = self.registry@;
        let handle = self.registry.begin(id.as_str());
        assert(handle is Some);
        proof {
            assert forall|x: Seq<char>| #[trigger] in_flight(self.registry@, x) implies issued_by(
                x,
                self.ids.issued(),
            ) by {
                if x == id@ {
                    assert(stamped(x, s));
                } else {
                    assert(in_flight(before, x));
                    let t = choose|t: u64| t < s && #[trigger] stamped(x, t);
                    assert(stamped(x, t));
                }
            }
        }
        Some(id)
    }

    fn move_request(&mut self, id: &String, next: Phase)
        requires
            old(self).well_formed(),
        ensures
            final(self).well_formed(),
            final(self).plans() == old(self).plans(),
            final(self).issued_ids() == old(self).issued_ids(),
            final(self).stream_capacity() == old(self).stream_capacity(),
            final(self).portable() == old(self).portable(),
            final(self).requests() == advanced(old(self).requests(), id@, next),
    {
        let _ = self.registry.advance(id.as_str(), next);
    }

    fn end_request(&mut self, id: &String)
        requires
            old(self).well_formed(),
        ensures
            final(self).well_formed(),
            final(self).plans() == old(self).plans(),
            final(self).issued_ids() == old(self).issued_ids(),
            final(self).stream_capacity() == old(self).stream_capacity(),
            final(self).portable() == old(self).portable(),
            final(self).requests() == ended(old(self).requests(), id@),
            !in_flight(final(self).requests(), id@),
    {
        let _ = self.registry.end(id.as_str());
    }

    /// Begins the execution of a statement. The request is registered under
    /// a fresh identifier; it leaves the registry again where the statement
    /// does not compile.
    pub fn execute(
        &mut self,
        statement: &str,
        params: Vec<Value>,
        client_context_id: String,
        now: u64,
    ) -> (result: Result<Execution, QueryError>)
        requires
            old(self).well_formed(),
        ensures
            final(self).well_formed(),
            final(self).plans() == old(self).plans(),
            final(self).stream_capacity() == old(self).stream_capacity(),
            final(self).portable() == old(self).portable(),
            if old(self).issued_ids() == u64::MAX {
                result matches Err(QueryError::Internal) && final(self).same_as(old(self))
            } else {
                &&& final(self).issued_ids() == old(self).issued_ids() + 1
                &&& match compile_spec(statement@, params@.len()) {
                    Err(e) => result matches Err(QueryError::Compile(found)) && found == e && final(self).requests() == old(self).requests(),
                    Ok(plan) => {
                        &&& result matches Ok(execution)
                        &&& execution_well_formed(execution@)
                        &&& execution@ == started_spec(
                            execution@.request_id,
                            client_context_id@,
                            plan,
                            values_view(params@),
                            now,
                            now,
                        )
                        &&& stamped(execution@.request_id, old(self).issued_ids())
                        &&& !in_flight(old(self).requests(), execution@.request_id)
                        &&& final(self).requests() == old(self).requests().push(
                            RequestView {
                                id: execution@.request_id,
                                phase: Phase::Executing,
                                cancel_requested: false,
                            },
                        )
                    },
                }
            },
    {
        let ghost before = self.registry@;
        let id = match self.admit_request() {
            None => {
                return Err(QueryError::Internal);
            },
            Some(id) => id,
        };
        proof {
            self.registry.lemma_well_formed();
            crate::registry::lemma_place_unique(self.registry@, id@, before.len() as int);
        }
        self.move_request(&id, Phase::Compiling);
        proof {
            self.registry.lemma_well_formed();
            crate::registry::lemma_place_unique(self.registry@, id@, before.len() as int);
        }
        match compile(statement, &params) {
            Err(e) => {
                self.move_request(&id, Phase::Failed);
                assert(self.registry@ =~= before);
                Err(QueryError::Compile(e))
            },
            Ok(plan) => {
                self.move_request(&id, Phase::Executing);
                assert(self.registry@ =~= before.push(
                    RequestView { id: id@, phase: Phase::Executing, cancel_requested: false },
                ));
                Ok(Execution::start(id, client_context_id, plan, params, now, now))
            },
        }
    }

    /// Begins the execution of a plan that was prepared. The plan counts as
    /// just used. Nothing is registered where no plan stands under the name,
    /// or where the parameters are not as many as the plan uses.
    pub fn execute_prepared(&mut self, prepared_name: &str, params: Vec<Value>, now: u64) -> (result:
        Result<Execution, QueryError>)
        requires
            old(self).well_formed(),
        ensures
            final(self).well_formed(),
            final(self).stream_capacity() == old(self).stream_capacity(),
            final(self).portable() == old(self).portable(),
            final(self).plans().ever_issued() == old(self).plans().ever_issued(),
            final(self).plans().issued_count() == old(self).plans().issued_count(),
            final(self).plans().capacity() == old(self).plans().capacity(),
            if !holds(old(self).plans()@, prepared_name@) {
                result matches Err(QueryError::PlanNotFound) && final(self).same_as(old(self))
            } else {
                let slot = slot_of(old(self).plans()@, prepared_name@);
                let plan = old(self).plans()@[slot].plan;
                &&& final(self).plans()@ == touched(old(self).plans()@, slot)
                &&& if plan.param_count != params@.len() {
                    &&& result matches Err(QueryError::Compile(e))
                    &&& e == fault(CompileCause::ParameterCount, 0)
                    &&& final(self).requests() == old(self).requests()
                    &&& final(self).issued_ids() == old(self).issued_ids()
                } else if old(self).issued_ids() == u64::MAX {
                    &&& result matches Err(QueryError::Internal)
                    &&& final(self).requests() == old(self).requests()
                    &&& final(self).issued_ids() == old(self).issued_ids()
                } else {
                    &&& result matches Ok(execution)
                    &&& execution_well_formed(execution@)
                    &&& execution@ == started_spec(
                        execution@.request_id,
                        Seq::empty(),
                        plan,
                        values_view(params@),
                        now,
                        now,
                    )
                    &&& stamped(execution@.request_id, old(self).issued_ids())
                    &&& !in_flight(old(self).requests(), execution@.request_id)
                    &&& final(self).issued_ids() == old(self).issued_ids() + 1
                    &&& final(self).requests() == old(self).requests().push(
                        RequestView {
                            id: execution@.request_id,
                            phase: Phase::Executing,
                            cancel_requested: false,
                        },
                    )
                }
            },
    {
        let entry = match self.cache.lookup(prepared_name) {
            Err(_) => {
                return Err(QueryError::PlanNotFound);
            },
            Ok(entry) => entry,
        };
        if entry.plan.param_count() != params.len() {
            return Err(
                QueryError::Compile(
                    CompileError { cause: CompileCause::ParameterCount, position: 0 },
                ),
            );
        }
        let ghost before = self.registry@;
        let id = match self.admit_request() {
            None => {
                return Err(QueryError::Internal);
            },
            Some(id) => id,
        };
        proof {
            self.registry.lemma_well_formed();
            crate::registry::lemma_place_unique(self.registry@, id@, before.len() as int);
        }
        self.move_request(&id, Phase::Executing);
        assert(self.registry@ =~= before.push(
            RequestView { id: id@, phase: Phase::Executing, cancel_requested: false },
        ));
        Ok(Execution::start(id, String::new(), entry.plan, params, now, now))
    }

    /// Asks a request to stop. Says whether the request was in flight; one
    /// that has ended is not, and nothing happens.
    pub fn cancel(&mut self, request_id: &str) -> (signalled: bool)
        requires
            old(self).well_formed(),
        ensures
            final(self).well_formed(),
            final(self).plans() == old(self).plans(),
            final(self).issued_ids() == old(self).issued_ids(),
            final(self).stream_capacity() == old(self).stream_capacity(),
            final(self).portable() == old(self).portable(),
            signalled == in_flight(old(self).requests(), request_id@),
            final(self).requests() == marked(old(self).requests(), request_id@),
            signalled ==> stop_requested(final(self).requests(), request_id@),
    {
        self.registry.cancel(request_id)
    }

    /// Takes a prepared plan out of the cache. Says whether there was one.
    pub fn evict(&mut self, prepared_name: &str) -> (removed: bool)
        requires
            old(self).well_formed(),
        ensures
            final(self).well_formed(),
            final(self).requests() == old(self).requests(),
            final(self).issued_ids() == old(self).issued_ids(),
            final(self).stream_capacity() == old(self).stream_capacity(),
            final(self).portable() == old(self).portable(),
            final(self).plans().ever_issued() == old(self).plans().ever_issued(),
            removed == holds(old(self).plans()@, prepared_name@),
            !holds(final(self).plans()@, prepared_name@),
            final(self).plans()@ == if removed {
                old(self).plans()@.remove(slot_of(old(self).plans()@, prepared_name@))
            } else {
                old(self).plans()@
            },
    {
        self.cache.evict(prepared_name)
    }

    /// Whether the request is in flight.
    pub fn is_in_flight(&self, request_id: &str) -> (b: bool)
        ensures
            b == in_flight(self.requests(), request_id@),
    {
        self.registry.contains(request_id)
    }

    /// One step of an execution that this service began. The step sees a
    /// request to stop that came before it. After the step the registry shows
    /// the phase the execution is in, and no longer holds the request once
    /// the execution has finished.
    pub fn step(&mut self, execution: &mut Execution, event: Event, now: u64) -> (action: Action)
        requires
            old(self).well_formed(),
            execution_well_formed(old(execution)@),
        ensures
            final(self).well_formed(),
            execution_well_formed(final(execution)@),
            final(self).plans() == old(self).plans(),
            final(self).issued_ids() == old(self).issued_ids(),
            final(self).stream_capacity() == old(self).stream_capacity(),
            final(self).portable() == old(self).portable(),
            (final(execution)@, action@) == step_spec(
                old(execution)@,
                event@,
                stop_requested(old(self).requests(), old(execution)@.request_id),
                now,
            ),
            final(self).requests() == followed(
                old(self).requests(),
                old(execution)@.request_id,
                old(execution)@.phase,
                final(execution)@.phase,
                final(execution)@.stage is Done,
            ),
            final(execution)@.stage is Done ==> !in_flight(
                final(self).requests(),
                old(execution)@.request_id,
            ),
    {
        let id = execution.request_id().clone();
        let cancelled = self.registry.is_cancelled(id.as_str());
        let before = execution.phase();
        let action = execution.step(event, cancelled, now);
        let after = execution.phase();
        if after != before {
            self.move_request(&id, after);
        }
        if execution.is_finished() {
            self.end_request(&id);
        }
        action
    }

    /// Runs a fresh execution to its end against a source whose answers are
    /// known beforehand and a consumer that takes every frame at once, and
    /// ends the request. Returns the frames in the order in which they were
    /// emitted: a complete stream.
    pub fn run(&mut self, execution: &mut Execution, script: &Vec<SourceReply>, now: u64) -> (frames:
        Vec<ResultFrame>)
        requires
            old(self).well_formed(),
            execution_well_formed(old(execution)@),
            old(execution)@.stage is Idle,
        ensures
            final(self).well_formed(),
            execution_well_formed(final(execution)@),
            final(self).plans() == old(self).plans(),
            final(self).issued_ids() == old(self).issued_ids(),
            final(self).stream_capacity() == old(self).stream_capacity(),
            final(self).portable() == old(self).portable(),
            final(execution)@.stage is Done,
            !final(execution)@.cut_short,
            frames_view(frames@) == final(execution)@.emitted,
            frames_view(frames@) == run_frames(
                old(execution)@,
                script_view(script@),
                stop_requested(old(self).requests(), old(execution)@.request_id),
                now,
            ),
            complete_stream(frames_view(frames@)),
            final(self).requests() == ended(old(self).requests(), old(execution)@.request_id),
            !in_flight(final(self).requests(), old(execution)@.request_id),
    {
        let id = execution.request_id().clone();
        let cancelled = self.registry.is_cancelled(id.as_str());
        let frames = execution.run(script, cancelled, now);
        self.end_request(&id);
        frames
    }
}

impl Default for QueryServiceImpl {
    fn default() -> (service: QueryServiceImpl)
        ensures
            service.well_formed(),
            service.plans()@.len() == 0,
            service.requests().len() == 0,
            service.issued_ids() == 0,
            service.stream_capacity() == DEFAULT_STREAM_CAPACITY,
            service.plans().capacity() == DEFAULT_PLAN_CAPACITY,
            !service.portable(),
    {
        QueryServiceImpl::new(DEFAULT_PLAN_CAPACITY, DEFAULT_STREAM_CAPACITY)
    }
}

/// Preparing a statement and then executing the plan under its name yields
/// what executing the statement yields: whatever was done to the cache
/// between the two, the plan found under the name is the plan of the
/// statement, and the two runs hold the same rows and the same metrics and
/// end alike, for the same parameters, the same answers of the source and the
/// same times.
pub proof fn lemma_prepared_execution_matches_direct(
    statement: Seq<char>,
    params: Seq<ValueView>,
    before: PlanCache,
    after: PlanCache,
    later: PlanCache,
    name: Seq<char>,
    direct_id: Seq<char>,
    direct_context: Seq<char>,
    prepared_id: Seq<char>,
    received_at: u64,
    started_at: u64,
    script: Seq<ReplyView>,
    cancelled: bool,
    now: u64,
)
    requires
        compile_spec(statement, params.len()) is Ok,
        registered(before, after, name, compile_spec(statement, params.len())->Ok_0),
        grown(after, later),
        later.well_formed(),
        holds(later@, name),
    ensures
        ({
            let plan = compile_spec(statement, params.len())->Ok_0;
            let found = later@[slot_of(later@, name)].plan;
            let direct = started_spec(
                direct_id,
                direct_context,
                plan,
                params,
                received_at,
                started_at,
            );
            let prepared = started_spec(
                prepared_id,
                Seq::empty(),
                found,
                params,
                received_at,
                started_at,
            );
            &&& found == plan
            &&& frames_alike(
                run_frames(direct, script, cancelled, now),
                run_frames(prepared, script, cancelled, now),
            )
            &&& rows_of(run_frames(direct, script, cancelled, now)) == rows_of(
                run_frames(prepared, script, cancelled, now),
            )
        }),
{
    let plan = compile_spec(statement, params.len())->Ok_0;
    lemma_entry_is_what_was_registered(before, after, later, name, plan);
    lemma_same_plan_starts_alike(
        direct_id,
        direct_context,
        prepared_id,
        Seq::empty(),
        plan,
        params,
        received_at,
        started_at,
    );
    lemma_alike_runs(
        started_spec(direct_id, direct_context, plan, params, received_at, started_at),
        started_spec(prepared_id, Seq::empty(), plan, params, received_at, started_at),
        script,
        cancelled,
        now,
    );
}

/// The encoded form of a portable plan is enough to make the plan again:
/// it decodes to the statement, which compiles to the plan as it did.
pub proof fn lemma_portable_encoding_reconstructs(statement: Seq<char>, bound: nat)
    ensures
        decode_utf8(encoding_of(statement, true)) == statement,
        compile_spec(decode_utf8(encoding_of(statement, true)), bound) == compile_spec(
            statement,
            bound,
        ),
{
    vstd::utf8::encode_utf8_decode_utf8(statement);
}

} // verus!
