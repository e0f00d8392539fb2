//! The execution coordinator: one execution of a plan, as a machine that is
//! driven step by step.
//!
//! The coordinator neither waits nor calls anything. Each step takes what
//! came of the step before and answers with what is to be done next: fetch
//! rows from the plan's source, emit a frame into the result stream, or
//! finish. Whoever drives it does these things, which may take their time,
//! and comes back with the event. With each step the driver says whether
//! the request has been asked to stop, and what time it is.
//!
//! An execution emits the rows of its plan, then its metrics, then a status:
//! `success`, `errors` where a source reported an error that did not end
//! the execution, or `cancelled`. Where a source fails for good or answers
//! with a row that does not fit the plan, an error frame takes the place of
//! metrics and status. Where the consumer has gone, or the driver comes with
//! an event that does not answer the last step, the execution finishes
//! without another frame.

use std::collections::VecDeque;
use vstd::prelude::*;
use vstd::string::StringExecFns;
use crate::frame::{
    lemma_rows_alone, lemma_rows_of_row_frames, frames_view, is_terminal, rows_of, rows_size, row_frames, lemma_rows_of_push,
    lemma_rows_size_push, all_rows, complete_stream, measure_row, row_size, rows_view, saturate, saturating_sum,
    summarised_stream, values_view, copy_values, ErrorKind, FrameView, Outcome, QueryMetrics,
    QueryStatus, ResultFrame, StatusView, Value, ValueView,
};
use crate::plan::{
    field_names, lemma_constant_plan_has_no_fields, plan_well_formed, project_spec, LogicalPlan,
    PlanView,
};
use crate::registry::Phase;

verus! {

/// What a source answered to a fetch.
#[derive(Debug, PartialEq, Eq)]
pub enum SourceReply {
    /// The next rows, each holding the values of the fields asked for, in
    /// their order. `done` where no row follows them.
    Rows { rows: Vec<Vec<Value>>, done: bool },
    /// The source failed. `fatal` where the execution cannot go on without
    /// it.
    Failed { fatal: bool, message: String },
}

/// What a `SourceReply` stands for.
pub enum ReplyView {
    Rows { rows: Seq<Seq<ValueView>>, done: bool },
    Failed { fatal: bool, message: Seq<char> },
}

impl View for SourceReply {
    type V = ReplyView;

    open spec fn view(&self) -> ReplyView {
        match self {
            SourceReply::Rows { rows, done } => ReplyView::Rows {
                rows: rows_view(rows@),
                done: *done,
            },
            SourceReply::Failed { fatal, message } => ReplyView::Failed {
                fatal: *fatal,
                message: message@,
            },
        }
    }
}

/// What came of the last step.
#[derive(Debug, PartialEq, Eq)]
pub enum Event {
    /// Nothing yet: this is the first step.
    Begin,
    /// The frame entered the result stream.
    Delivered,
    /// The frame did not enter the result stream: its consumer has gone.
    ConsumerGone,
    /// The source answered.
    Source(SourceReply),
}

/// What an `Event` stands for.
pub enum EventView {
    Begin,
    Delivered,
    ConsumerGone,
    Source(ReplyView),
}

impl View for Event {
    type V = EventView;

    open spec fn view(&self) -> EventView {
        match self {
            Event::Begin => EventView::Begin,
            Event::Delivered => EventView::Delivered,
            Event::ConsumerGone => EventView::ConsumerGone,
            Event::Source(reply) => EventView::Source(reply@),
        }
    }
}

/// What to ask of a source.
#[derive(Debug, PartialEq, Eq)]
pub struct FetchRequest {
    pub target: String,
    /// The fields whose values each row is to hold.
    pub fields: Vec<String>,
    /// How many rows the source has given already.
    pub offset: u64,
    /// How many rows the execution can still deliver, where it has a limit.
    pub max_rows: Option<u64>,
}

/// What a `FetchRequest` stands for.
pub struct FetchView {
    pub target: Seq<char>,
    pub fields: Seq<Seq<char>>,
    pub offset: u64,
    pub max_rows: Option<u64>,
}

impl View for FetchRequest {
    type V = FetchView;

    open spec fn view(&self) -> FetchView {
        FetchView {
            target: self.target@,
            fields: self.fields@.map_values(|n: String| n@),
            offset: self.offset,
            max_rows: self.max_rows,
        }
    }
}

/// What is to be done next.
#[derive(Debug, PartialEq, Eq)]
pub enum Action {
    /// Ask the source, and come back with its answer.
    Fetch(FetchRequest),
    /// Put the frame into the result stream, and come back when it has
    /// entered, or when the consumer was found gone.
    Emit(ResultFrame),
    /// Nothing more: close the stream and end the request in this phase.
    Finish(Phase),
}

/// What an `Action` stands for.
pub enum ActionView {
    Fetch(FetchView),
    Emit(FrameView),
    Finish(Phase),
}

impl View for Action {
    type V = ActionView;

    open spec fn view(&self) -> ActionView {
        match self {
            Action::Fetch(request) => ActionView::Fetch(request@),
            Action::Emit(frame) => ActionView::Emit(frame@),
            Action::Finish(phase) => ActionView::Finish(*phase),
        }
    }
}

/// What an execution waits for.
#[derive(Clone, Copy, Debug, PartialEq, Eq, Structural)]
pub enum Stage {
    /// Its first step.
    Idle,
    /// The answer of the source.
    Fetching,
    /// A row to enter the stream.
    SendingRow,
    /// The metrics to enter the stream.
    SendingMetrics,
    /// The status or the error to enter the stream.
    SendingLast,
    /// Nothing: it has finished.
    Done,
}

/// What an `Execution` stands for: all that its next step depends on, and
/// the frames it has emitted.
pub struct ExecutionView {
    pub request_id: Seq<char>,
    pub client_context_id: Seq<char>,
    pub plan: PlanView,
    pub params: Seq<ValueView>,
    pub stage: Stage,
    pub phase: Phase,
    /// Rows that the source has given and that are yet to be emitted.
    pub pending: Seq<Seq<ValueView>>,
    /// Whether the source has no more rows to give.
    pub source_done: bool,
    /// How many rows the source has given.
    pub fetched: u64,
    /// How many rows were emitted, and their size.
    pub count: u64,
    pub size: u64,
    /// How many errors sources reported that did not end the execution.
    pub errors: u64,
    /// How the execution comes out, once its metrics are emitted.
    pub outcome: Outcome,
    /// Whether the execution gave up and emitted an error.
    pub failed: bool,
    /// Whether the execution finished without completing its stream.
    pub cut_short: bool,
    pub received_at: u64,
    pub started_at: u64,
    /// Every frame emitted so far, in order.
    pub emitted: Seq<FrameView>,
}

/// The message of the error frame for a row that does not fit the plan.
pub open spec fn misfit_message() -> Seq<char> {
    "source returned a row that does not fit the plan"@
}

/// The event that answers the last step of an execution in the stage.
pub open spec fn answers(stage: Stage, event: EventView) -> bool {
    match stage {
        Stage::Idle => event is Begin,
        Stage::Fetching => event is Source,
        Stage::Done => true,
        _ => event is Delivered || event is ConsumerGone,
    }
}

/// The metrics of an execution that wraps up at the time `now`.
pub open spec fn metrics_at(v: ExecutionView, now: u64) -> QueryMetrics {
    QueryMetrics {
        elapsed_time_ms: saturate(now - v.received_at),
        execution_time_ms: saturate(now - v.started_at),
        result_count: v.count,
        result_size_bytes: v.size,
        mutation_count: 0,
        sort_count: 0,
        error_count: v.errors,
        warning_count: 0,
    }
}

/// The status that closes the stream of an execution.
pub open spec fn status_of(v: ExecutionView) -> StatusView {
    StatusView {
        outcome: v.outcome,
        request_id: v.request_id,
        client_context_id: v.client_context_id,
    }
}

/// The outcome of an execution that ran to its end.
pub open spec fn natural_outcome(v: ExecutionView) -> Outcome {
    if v.errors > 0 {
        Outcome::Errors
    } else {
        Outcome::Success
    }
}

/// The phase in which an execution ends whose last frame has entered the
/// stream.
pub open spec fn closing_phase(v: ExecutionView) -> Phase {
    if v.failed {
        Phase::Failed
    } else if v.outcome is Cancelled {
        Phase::Cancelled
    } else {
        Phase::Completed
    }
}

/// Whether the execution has emitted as many rows as its plan allows.
pub open spec fn limit_reached(v: ExecutionView) -> bool {
    v.plan.limit matches Some(l) && v.count >= l
}

/// What the execution asks of its source.
pub open spec fn fetch_of(v: ExecutionView) -> FetchView {
    FetchView {
        target: match v.plan.target {
            Some(name) => name,
            None => Seq::empty(),
        },
        fields: field_names(v.plan.columns),
        offset: v.fetched,
        max_rows: match v.plan.limit {
            Some(l) => Some(saturate(l - v.count)),
            None => None,
        },
    }
}

/// The rows that the plan makes of the rows of a source; none where one of
/// them does not hold one value for each field of the plan.
pub open spec fn project_all_spec(
    columns: Seq<crate::plan::ExprView>,
    params: Seq<ValueView>,
    rows: Seq<Seq<ValueView>>,
) -> Option<Seq<Seq<ValueView>>> {
    if forall|i: int| 0 <= i < rows.len() ==> project_spec(columns, params, #[trigger] rows[i]) is Some {
        Some(Seq::new(rows.len(), |i: int| project_spec(columns, params, rows[i])->0))
    } else {
        None
    }
}

/// The execution emits a frame.
pub open spec fn emit_spec(v: ExecutionView, frame: FrameView) -> (ExecutionView, ActionView) {
    (
        ExecutionView { emitted: v.emitted.push(frame), phase: Phase::Streaming, ..v },
        ActionView::Emit(frame),
    )
}

/// The execution stops producing rows and emits its metrics.
pub open spec fn wrap_up_spec(v: ExecutionView, outcome: Outcome, now: u64) -> (
    ExecutionView,
    ActionView,
) {
    emit_spec(
        ExecutionView { stage: Stage::SendingMetrics, outcome, pending: Seq::empty(), ..v },
        FrameView::Metrics(metrics_at(v, now)),
    )
}

/// The execution gives up and emits an error.
pub open spec fn fail_spec(v: ExecutionView, kind: ErrorKind, message: Seq<char>) -> (
    ExecutionView,
    ActionView,
) {
    emit_spec(
        ExecutionView { stage: Stage::SendingLast, failed: true, pending: Seq::empty(), ..v },
        FrameView::Error { kind, message },
    )
}

/// The execution finishes without another frame.
pub open spec fn abandon_spec(v: ExecutionView, phase: Phase) -> (ExecutionView, ActionView) {
    (ExecutionView { stage: Stage::Done, phase, cut_short: true, ..v }, ActionView::Finish(phase))
}

/// The execution goes on: with the metrics where it has delivered as many
/// rows as it may, else with the next row at hand, else with the metrics
/// where the source is done, else with a fetch.
pub open spec fn proceed_spec(v: ExecutionView, now: u64) -> (ExecutionView, ActionView) {
    if limit_reached(v) {
        wrap_up_spec(v, natural_outcome(v), now)
    } else if v.pending.len() > 0 {
        let row = v.pending[0];
        emit_spec(
            ExecutionView {
                stage: Stage::SendingRow,
                pending: v.pending.drop_first(),
                count: saturate(v.count + 1),
                size: saturate(v.size + saturate(row_size(row) as int)),
                ..v
            },
            FrameView::Row(row),
        )
    } else if v.source_done {
        wrap_up_spec(v, natural_outcome(v), now)
    } else {
        (ExecutionView { stage: Stage::Fetching, ..v }, ActionView::Fetch(fetch_of(v)))
    }
}

/// The execution at its first step: a plan without a source has its one row
/// at hand.
pub open spec fn begun_spec(v: ExecutionView) -> ExecutionView {
    if v.plan.target is None {
        match project_spec(v.plan.columns, v.params, Seq::empty()) {
            Some(row) => ExecutionView { pending: seq![row], source_done: true, ..v },
            None => ExecutionView { source_done: true, ..v },
        }
    } else {
        v
    }
}

/// The execution takes the answer of its source.
pub open spec fn received_spec(v: ExecutionView, reply: ReplyView, now: u64) -> (
    ExecutionView,
    ActionView,
) {
    match reply {
        ReplyView::Failed { fatal, message } => if fatal {
            fail_spec(v, ErrorKind::Execution, message)
        } else {
            proceed_spec(
                ExecutionView { errors: saturate(v.errors + 1), source_done: true, ..v },
                now,
            )
        },
        ReplyView::Rows { rows, done } => match project_all_spec(v.plan.columns, v.params, rows) {
            None => fail_spec(v, ErrorKind::Execution, misfit_message()),
            Some(batch) => proceed_spec(
                ExecutionView {
                    pending: batch,
                    source_done: done,
                    fetched: saturate(v.fetched + rows.len()),
                    ..v
                },
                now,
            ),
        },
    }
}

/// One step of an execution: the execution after the step, and what is to
/// be done next.
pub open spec fn step_spec(v: ExecutionView, event: EventView, cancelled: bool, now: u64) -> (
    ExecutionView,
    ActionView,
) {
    if v.stage is Done {
        (v, ActionView::Finish(v.phase))
    } else if !answers(v.stage, event) {
        abandon_spec(v, Phase::Failed)
    } else if event is ConsumerGone {
        abandon_spec(v, Phase::Cancelled)
    } else {
        match v.stage {
            Stage::SendingLast => (
                ExecutionView { stage: Stage::Done, phase: closing_phase(v), ..v },
                ActionView::Finish(closing_phase(v)),
            ),
            Stage::SendingMetrics => emit_spec(
                ExecutionView { stage: Stage::SendingLast, ..v },
                FrameView::Status(status_of(v)),
            ),
            _ => if cancelled {
                wrap_up_spec(v, Outcome::Cancelled, now)
            } else {
                match v.stage {
                    Stage::Idle => proceed_spec(begun_spec(v), now),
                    Stage::Fetching => received_spec(v, event->Source_0, now),
                    _ => proceed_spec(v, now),
                }
            },
        }
    }
}

/// What holds of every execution: the frames it has emitted are as far in
/// the order of a result as its stage says, and its phase goes with them.
pub open spec fn execution_well_formed(v: ExecutionView) -> bool {
    &&& v.count == saturate(rows_of(v.emitted).len() as int)
    &&& v.size == saturate(rows_size(rows_of(v.emitted)) as int)
    &&& match v.stage {
        Stage::Idle => v.emitted.len() == 0 && v.pending.len() == 0 && !v.cut_short
            && v.errors == 0 && v.fetched == 0 && !v.source_done,
        Stage::Fetching => all_rows(v.emitted) && v.pending.len() == 0 && !v.cut_short,
        Stage::SendingRow => all_rows(v.emitted) && v.emitted.len() > 0 && !v.cut_short,
        Stage::SendingMetrics => summarised_stream(v.emitted) && !v.cut_short,
        Stage::SendingLast => complete_stream(v.emitted) && !v.cut_short,
        Stage::Done => v.cut_short || complete_stream(v.emitted),
    }
    &&& v.failed == (v.emitted.len() > 0 && v.emitted.last() is Error)
    &&& if v.stage is Done {
        v.phase.is_final()
    } else if v.emitted.len() == 0 {
        v.phase is Executing
    } else {
        v.phase is Streaming
    }
}

/// The execution of a plan before its first step.
pub open spec fn started_spec(
    request_id: Seq<char>,
    client_context_id: Seq<char>,
    plan: PlanView,
    params: Seq<ValueView>,
    received_at: u64,
    now: u64,
) -> ExecutionView {
    ExecutionView {
        request_id,
        client_context_id,
        plan,
        params,
        stage: Stage::Idle,
        phase: Phase::Executing,
        pending: Seq::empty(),
        source_done: false,
        fetched: 0,
        count: 0,
        size: 0,
        errors: 0,
        outcome: Outcome::Success,
        failed: false,
        cut_short: false,
        received_at,
        started_at: now,
        emitted: Seq::empty(),
    }
}

/// A step leaves an execution as every execution is.
pub proof fn lemma_step_keeps_well_formed(v: ExecutionView, event: EventView, cancelled: bool, now: u64)
    requires
        execution_well_formed(v),
    ensures
        execution_well_formed(step_spec(v, event, cancelled, now).0),
{
    let next = step_spec(v, event, cancelled, now).0;
    if next.emitted != v.emitted {
        let f = next.emitted.last();
        assert(next.emitted.len() == v.emitted.len() + 1);
        assert(next.emitted == v.emitted.push(f));
        crate::frame::lemma_stream_goes_on(v.emitted, f);
        lemma_rows_of_push(v.emitted, f);
        if f is Row {
            lemma_rows_size_push(rows_of(v.emitted), f->Row_0);
        }
    }
}

/// Rows made of an answer of the source, each by its view.
pub open spec fn batch_view(batch: Option<VecDeque<Vec<Value>>>) -> Option<Seq<Seq<ValueView>>> {
    match batch {
        Some(rows) => Some(rows_view(rows@)),
        None => None,
    }
}

fn project_all(plan: &LogicalPlan, params: &Vec<Value>, rows: &Vec<Vec<Value>>) -> (batch: Option<
    VecDeque<Vec<Value>>,
>)
    ensures
        batch_view(batch) == project_all_spec(
            plan@.columns,
            values_view(params@),
            rows_view(rows@),
        ),
{
    let ghost columns = plan@.columns;
    let ghost ps = values_view(params@);
    let ghost source = rows_view(rows@);
    let mut batch: VecDeque<Vec<Value>> = VecDeque::new();
    let mut i: usize = 0;
    while i < rows.len()
        invariant
            columns == plan@.columns,
            ps == values_view(params@),
            source == rows_view(rows@),
            i <= rows.len(),
            batch@.len() == i,
            forall|j: int|
                0 <= j < i ==> project_spec(columns, ps, #[trigger] source[j]) == Some(
                    values_view(batch@[j]@),
                ),
        decreases rows.len() - i,
    {
        assert(source[i as int] == values_view(rows@[i as int]@));
        match plan.project(params, &rows[i]) {
            None => {
                assert(project_spec(columns, ps, source[i as int]) is None);
                return None;
            },
            Some(row) => {
                batch.push_back(row);
            },
        }
        i = i + 1;
    }
    assert(rows_view(batch@) =~= Seq::new(
        source.len(),
        |i: int| project_spec(columns, ps, source[i])->0,
    ));
    Some(batch)
}

/// One execution of a plan.
pub struct Execution {
    request_id: String,
    client_context_id: String,
    plan: LogicalPlan,
    params: Vec<Value>,
    stage: Stage,
    phase: Phase,
    pending: VecDeque<Vec<Value>>,
    source_done: bool,
    fetched: u64,
    count: u64,
    size: u64,
    errors: u64,
    outcome: Outcome,
    failed: bool,
    cut_short: bool,
    received_at: u64,
    started_at: u64,
    emitted: Ghost<Seq<FrameView>>,
}

impl View for Execution {
    type V = ExecutionView;

    closed spec fn view(&self) -> ExecutionView {
        ExecutionView {
            request_id: self.request_id@,
            client_context_id: self.client_context_id@,
            plan: self.plan@,
            params: values_view(self.params@),
            stage: self.stage,
            phase: self.phase,
            pending: rows_view(self.pending@),
            source_done: self.source_done,
            fetched: self.fetched,
            count: self.count,
            size: self.size,
            errors: self.errors,
            outcome: self.outcome,
            failed: self.failed,
            cut_short: self.cut_short,
            received_at: self.received_at,
            started_at: self.started_at,
            emitted: self.emitted@,
        }
    }
}

fn time_between(from: u64, to: u64) -> (span: u64)
    ensures
        span == saturate(to - from),
{
    if to >= from {
        to - from
    } else {
        0
    }
}

impl Execution {
    /// An execution of `plan` with the parameters `params`, for the request
    /// that was received at `received_at`, begun at `now`.
    pub fn start(
        request_id: String,
        client_context_id: String,
        plan: LogicalPlan,
        params: Vec<Value>,
        received_at: u64,
        now: u64,
    ) -> (execution: Execution)
        ensures
            execution@ == started_spec(
                request_id@,
                client_context_id@,
                plan@,
                values_view(params@),
                received_at,
                now,
            ),
            execution_well_formed(execution@),
    {
        let execution = Execution {
            request_id,
            client_context_id,
            plan,
            params,
            stage: Stage::Idle,
            phase: Phase::Executing,
            pending: VecDeque::new(),
            source_done: false,
            fetched: 0,
            count: 0,
            size: 0,
            errors: 0,
            outcome: Outcome::Success,
            failed: false,
            cut_short: false,
            received_at,
            started_at: now,
            emitted: Ghost(Seq::empty()),
        };
        assert(execution@.pending =~= Seq::<Seq<ValueView>>::empty());
        execution
    }

    pub fn request_id(&self) -> (id: &String)
        ensures
            id@ == self@.request_id,
    {
        &self.request_id
    }

    pub fn phase(&self) -> (phase: Phase)
        ensures
            phase == self@.phase,
    {
        self.phase
    }

    pub fn stage(&self) -> (stage: Stage)
        ensures
            stage == self@.stage,
    {
        self.stage
    }

    /// Whether the execution has finished.
    pub fn is_finished(&self) -> (b: bool)
        ensures
            b == (self@.stage is Done),
    {
        match self.stage {
            Stage::Done => true,
            _ => false,
        }
    }

    fn emit(&mut self, frame: ResultFrame) -> (action: Action)
        ensures
            (final(self)@, action@) == emit_spec(old(self)@, frame@),
    {
        self.phase = Phase::Streaming;
        self.emitted = Ghost(self.emitted@.push(frame@));
        Action::Emit(frame)
    }

    fn wrap_up(&mut self, outcome: Outcome, now: u64) -> (action: Action)
        ensures
            (final(self)@, action@) == wrap_up_spec(old(self)@, outcome, now),
    {
        let metrics = QueryMetrics {
            elapsed_time_ms: time_between(self.received_at, now),
            execution_time_ms: time_between(self.started_at, now),
            result_count: self.count,
            result_size_bytes: self.size,
            mutation_count: 0,
            sort_count: 0,
            error_count: self.errors,
            warning_count: 0,
        };
        self.stage = Stage::SendingMetrics;
        self.outcome = outcome;
        self.pending.clear();
        assert(rows_view(self.pending@) =~= Seq::<Seq<ValueView>>::empty());
        self.emit(ResultFrame::Metrics(metrics))
    }

    fn fail(&mut self, kind: ErrorKind, message: String) -> (action: Action)
        ensures
            (final(self)@, action@) == fail_spec(old(self)@, kind, message@),
    {
        self.stage = Stage::SendingLast;
        self.failed = true;
        self.pending.clear();
        assert(rows_view(self.pending@) =~= Seq::<Seq<ValueView>>::empty());
        self.emit(ResultFrame::Error { kind, message })
    }

    fn abandon(&mut self, phase: Phase) -> (action: Action)
        ensures
            (final(self)@, action@) == abandon_spec(old(self)@, phase),
    {
        self.stage = Stage::Done;
        self.phase = phase;
        self.cut_short = true;
        Action::Finish(phase)
    }

    fn proceed(&mut self, now: u64) -> (action: Action)
        ensures
            (final(self)@, action@) == proceed_spec(old(self)@, now),
    {
        let limit = self.plan.limit();
        let reached = match limit {
            Some(l) => self.count >= l,
            None => false,
        };
        let natural = if self.errors > 0 {
            Outcome::Errors
        } else {
            Outcome::Success
        };
        if reached {
            return self.wrap_up(natural, now);
        }
        let ghost before = self@;
        match self.pending.pop_front() {
            Some(row) => {
                let bytes = measure_row(&row);
                self.stage = Stage::SendingRow;
                self.count = saturating_sum(self.count, 1);
                self.size = saturating_sum(self.size, bytes);
                proof {
                    assert(rows_view(self.pending@) =~= before.pending.drop_first());
                    assert(values_view(row@) == before.pending[0]);
                }
                self.emit(ResultFrame::Row(row))
            },
            None => {
                assert(rows_view(self.pending@) =~= before.pending);
                if self.source_done {
                    self.wrap_up(natural, now)
                } else {
                    self.stage = Stage::Fetching;
                    let request = FetchRequest {
                        target: match self.plan.target() {
                            Some(name) => name.clone(),
                            None => String::new(),
                        },
                        fields: self.plan.fields(),
                        offset: self.fetched,
                        max_rows: match limit {
                            Some(l) => Some(l - self.count),
                            None => None,
                        },
                    };
                    Action::Fetch(request)
                }
            },
        }
    }

    fn received(&mut self, reply: SourceReply, now: u64) -> (action: Action)
        ensures
            (final(self)@, action@) == received_spec(old(self)@, reply@, now),
    {
        match reply {
            SourceReply::Failed { fatal, message } => {
                if fatal {
                    self.fail(ErrorKind::Execution, message)
                } else {
                    self.errors = saturating_sum(self.errors, 1);
                    self.source_done = true;
                    self.proceed(now)
                }
            },
            SourceReply::Rows { rows, done } => {
                match project_all(&self.plan, &self.params, &rows) {
                    None => self.fail(
                        ErrorKind::Execution,
                        String::from_str("source returned a row that does not fit the plan"),
                    ),
                    Some(batch) => {
                        self.pending = batch;
                        self.source_done = done;
                        self.fetched = saturating_sum(self.fetched, rows.len() as u64);
                        self.proceed(now)
                    },
                }
            },
        }
    }

    fn begin(&mut self)
        ensures
            final(self)@ == begun_spec(old(self)@),
    {
        if self.plan.target().is_none() {
            let none: Vec<Value> = Vec::new();
            assert(values_view(none@) =~= Seq::<ValueView>::empty());
            match self.plan.project(&self.params, &none) {
                Some(row) => {
                    let ghost rv = values_view(row@);
                    self.pending.clear();
                    self.pending.push_back(row);
                    assert(rows_view(self.pending@) =~= seq![rv]);
                },
                None => {},
            }
            self.source_done = true;
        }
    }

    /// One step of the execution. `event` says what came of the step before,
    /// `cancelled` whether the request has been asked to stop, `now` what
    /// time it is.
    pub fn step(&mut self, event: Event, cancelled: bool, now: u64) -> (action: Action)
        requires
            execution_well_formed(old(self)@),
        ensures
            execution_well_formed(final(self)@),
            (final(self)@, action@) == step_spec(old(self)@, event@, cancelled, now),
    {
        proof {
            lemma_step_keeps_well_formed(self@, event@, cancelled, now);
        }
        let fits = match self.stage {
            Stage::Done => {
                return Action::Finish(self.phase);
            },
            Stage::Idle => match &event {
                Event::Begin => true,
                _ => false,
            },
            Stage::Fetching => match &event {
                Event::Source(_) => true,
                _ => false,
            },
            _ => match &event {
                Event::Delivered => true,
                Event::ConsumerGone => true,
                _ => false,
            },
        };
        if !fits {
            return self.abandon(Phase::Failed);
        }
        match event {
            Event::ConsumerGone => self.abandon(Phase::Cancelled),
            Event::Source(reply) => {
                if cancelled {
                    self.wrap_up(Outcome::Cancelled, now)
                } else {
                    self.received(reply, now)
                }
            },
            Event::Begin => {
                if cancelled {
                    self.wrap_up(Outcome::Cancelled, now)
                } else {
                    self.begin();
                    self.proceed(now)
                }
            },
            Event::Delivered => match self.stage {
                Stage::SendingLast => {
                    let phase = if self.failed {
                        Phase::Failed
                    } else {
                        match self.outcome {
                            Outcome::Cancelled => Phase::Cancelled,
                            _ => Phase::Completed,
                        }
                    };
                    self.stage = Stage::Done;
                    self.phase = phase;
                    Action::Finish(phase)
                },
                Stage::SendingMetrics => {
                    self.stage = Stage::SendingLast;
                    let status = QueryStatus {
                        outcome: self.outcome,
                        request_id: self.request_id.clone(),
                        client_context_id: self.client_context_id.clone(),
                    };
                    self.emit(ResultFrame::Status(status))
                },
                _ => {
                    if cancelled {
                        self.wrap_up(Outcome::Cancelled, now)
                    } else {
                        self.proceed(now)
                    }
                },
            },
        }
    }
}

impl Clone for SourceReply {
    fn clone(&self) -> (copy: SourceReply)
        ensures
            copy@ == self@,
    {
        match self {
            SourceReply::Failed { fatal, message } => SourceReply::Failed {
                fatal: *fatal,
                message: message.clone(),
            },
            SourceReply::Rows { rows, done } => {
                let mut copy: Vec<Vec<Value>> = Vec::new();
                let mut i: usize = 0;
                while i < rows.len()
                    invariant
                        i <= rows.len(),
                        copy.len() == i,
                        forall|j: int|
                            0 <= j < i ==> values_view(copy[j]@) == values_view(rows[j]@),
                    decreases rows.len() - i,
                {
                    copy.push(copy_values(&rows[i]));
                    i = i + 1;
                }
                assert(rows_view(copy@) =~= rows_view(rows@));
                SourceReply::Rows { rows: copy, done: *done }
            },
        }
    }
}

/// How far a stage is from the end of an execution.
pub open spec fn stage_rank(stage: Stage) -> nat {
    match stage {
        Stage::Idle => 5,
        Stage::SendingRow => 4,
        Stage::Fetching => 3,
        Stage::SendingMetrics => 2,
        Stage::SendingLast => 1,
        Stage::Done => 0,
    }
}

/// An execution that has finished and was not cut short has emitted a
/// complete stream: its last frame is a status or an error, and no other
/// frame of it is.
pub proof fn lemma_finished_stream_is_complete(v: ExecutionView)
    requires
        execution_well_formed(v),
        v.stage is Done,
        !v.cut_short,
    ensures
        complete_stream(v.emitted),
        is_terminal(v.emitted.last()),
        forall|i: int| 0 <= i < v.emitted.len() - 1 ==> !is_terminal(#[trigger] v.emitted[i]),
{
    crate::frame::lemma_complete_stream_one_terminal(v.emitted);
}

/// No frame follows a status or an error: an execution whose stream is
/// complete emits nothing more, whatever it is handed.
pub proof fn lemma_no_frame_after_the_last(
    v: ExecutionView,
    event: EventView,
    cancelled: bool,
    now: u64,
)
    requires
        execution_well_formed(v),
        complete_stream(v.emitted),
    ensures
        step_spec(v, event, cancelled, now).0.emitted == v.emitted,
        step_spec(v, event, cancelled, now).1 is Finish,
{
    if all_rows(v.emitted) {
        assert(v.emitted[v.emitted.len() - 1] is Row);
    }
}

/// An execution is cut short only by a consumer that has gone or by an event
/// that does not answer its last step.
pub proof fn lemma_cut_short_only_from_outside(
    v: ExecutionView,
    event: EventView,
    cancelled: bool,
    now: u64,
)
    requires
        !v.cut_short,
        step_spec(v, event, cancelled, now).0.cut_short,
    ensures
        event is ConsumerGone || !answers(v.stage, event),
{
}

/// A step of an execution that is told to stop emits no row and asks
/// nothing of the source. It leaves the execution wrapping up or finished,
/// and nearer to its end where it was wrapping up already. Where the
/// execution had not begun to wrap up, its consumer stays and the event
/// answers its last step, the step emits the metrics, to be followed by the
/// status `cancelled`.
pub proof fn lemma_cancelled_step(v: ExecutionView, event: EventView, now: u64)
    requires
        execution_well_formed(v),
    ensures
        ({
            let a = step_spec(v, event, true, now);
            &&& execution_well_formed(a.0)
            &&& stage_rank(a.0.stage) <= 2
            &&& stage_rank(v.stage) <= 2 ==> stage_rank(a.0.stage) < stage_rank(v.stage)
                || a.0.stage is Done
            &&& a.0.stage is Done ==> a.1 is Finish
            &&& !(a.1 matches ActionView::Emit(FrameView::Row(_)))
            &&& !(a.1 is Fetch)
            &&& rows_of(a.0.emitted) == rows_of(v.emitted)
            &&& a.0.request_id == v.request_id && a.0.client_context_id == v.client_context_id
            &&& (stage_rank(v.stage) >= 3 && answers(v.stage, event) && !(event is ConsumerGone))
                ==> a == wrap_up_spec(v, Outcome::Cancelled, now)
            &&& (v.stage is SendingMetrics && event is Delivered) ==> a.0.stage is SendingLast
                && a.0.outcome == v.outcome && a.0.failed == v.failed && !a.0.cut_short
                && a.0.emitted == v.emitted.push(FrameView::Status(status_of(v)))
            &&& (v.stage is SendingLast && event is Delivered) ==> a.0.emitted == v.emitted
                && a.0.phase == closing_phase(v) && !a.0.cut_short
        }),
{
    let a = step_spec(v, event, true, now);
    lemma_step_keeps_well_formed(v, event, true, now);
    if a.0.emitted != v.emitted {
        let f = a.0.emitted.last();
        assert(a.0.emitted == v.emitted.push(f));
        lemma_rows_of_push(v.emitted, f);
    }
}

/// Once an execution is told to stop, it finishes within three steps,
/// whatever happens meanwhile, and emits no row on the way. Where it had not
/// begun to wrap up, its consumer stays and the events answer its steps, it
/// emits its metrics and the status `cancelled`, and ends in the phase
/// `Cancelled`.
pub proof fn lemma_cancel_finishes_within_three_steps(
    v: ExecutionView,
    first: EventView,
    second: EventView,
    third: EventView,
    t1: u64,
    t2: u64,
    t3: u64,
)
    requires
        execution_well_formed(v),
    ensures
        ({
            let a = step_spec(v, first, true, t1);
            let b = step_spec(a.0, second, true, t2);
            let c = step_spec(b.0, third, true, t3);
            &&& c.0.stage is Done
            &&& c.1 is Finish
            &&& !(a.1 matches ActionView::Emit(FrameView::Row(_)))
            &&& !(b.1 matches ActionView::Emit(FrameView::Row(_)))
            &&& !(a.1 is Fetch) && !(b.1 is Fetch)
            &&& rows_of(c.0.emitted) == rows_of(v.emitted)
            &&& (stage_rank(v.stage) >= 3 && answers(v.stage, first) && second is Delivered
                && third is Delivered && !(first is ConsumerGone)) ==> {
                &&& c.0.phase is Cancelled
                &&& !c.0.cut_short
                &&& c.0.emitted == v.emitted.push(FrameView::Metrics(metrics_at(v, t1))).push(
                    FrameView::Status(
                        StatusView {
                            outcome: Outcome::Cancelled,
                            request_id: v.request_id,
                            client_context_id: v.client_context_id,
                        },
                    ),
                )
            }
        }),
{
    let a = step_spec(v, first, true, t1);
    let b = step_spec(a.0, second, true, t2);
    lemma_cancelled_step(v, first, t1);
    lemma_cancelled_step(a.0, second, t2);
    lemma_cancelled_step(b.0, third, t3);
}

/// Two executions that differ in nothing but the identifiers they carry.
pub open spec fn alike(a: ExecutionView, b: ExecutionView) -> bool {
    &&& a == (ExecutionView {
        request_id: a.request_id,
        client_context_id: a.client_context_id,
        emitted: a.emitted,
        ..b
    })
    &&& frames_alike(a.emitted, b.emitted)
}

/// Two frames that differ in nothing but the identifiers a status carries.
pub open spec fn frame_alike(f: FrameView, g: FrameView) -> bool {
    match f {
        FrameView::Status(s) => g matches FrameView::Status(t) && s.outcome == t.outcome,
        _ => f == g,
    }
}

/// Two streams that differ in nothing but the identifiers a status carries.
pub open spec fn frames_alike(f: Seq<FrameView>, g: Seq<FrameView>) -> bool {
    f.len() == g.len() && forall|i: int| 0 <= i < f.len() ==> frame_alike(#[trigger] f[i], g[i])
}

/// Two actions that differ in nothing but the identifiers a status carries.
pub open spec fn action_alike(x: ActionView, y: ActionView) -> bool {
    match x {
        ActionView::Emit(f) => y matches ActionView::Emit(g) && frame_alike(f, g),
        _ => x == y,
    }
}

proof fn lemma_emit_alike(a: ExecutionView, b: ExecutionView, f: FrameView, g: FrameView)
    requires
        alike(a, b),
        frame_alike(f, g),
    ensures
        alike(emit_spec(a, f).0, emit_spec(b, g).0),
        action_alike(emit_spec(a, f).1, emit_spec(b, g).1),
{
    let x = a.emitted.push(f);
    let y = b.emitted.push(g);
    assert forall|i: int| 0 <= i < x.len() implies frame_alike(#[trigger] x[i], y[i]) by {
        if i < a.emitted.len() {
            assert(frame_alike(a.emitted[i], b.emitted[i]));
        }
    }
}

proof fn lemma_wrap_up_alike(a: ExecutionView, b: ExecutionView, outcome: Outcome, now: u64)
    requires
        alike(a, b),
    ensures
        alike(wrap_up_spec(a, outcome, now).0, wrap_up_spec(b, outcome, now).0),
        action_alike(wrap_up_spec(a, outcome, now).1, wrap_up_spec(b, outcome, now).1),
{
    let f = FrameView::Metrics(metrics_at(a, now));
    lemma_emit_alike(
        ExecutionView { stage: Stage::SendingMetrics, outcome, pending: Seq::empty(), ..a },
        ExecutionView { stage: Stage::SendingMetrics, outcome, pending: Seq::empty(), ..b },
        f,
        f,
    );
}

proof fn lemma_fail_alike(a: ExecutionView, b: ExecutionView, kind: ErrorKind, message: Seq<char>)
    requires
        alike(a, b),
    ensures
        alike(fail_spec(a, kind, message).0, fail_spec(b, kind, message).0),
        action_alike(fail_spec(a, kind, message).1, fail_spec(b, kind, message).1),
{
    let f = FrameView::Error { kind, message };
    lemma_emit_alike(
        ExecutionView { stage: Stage::SendingLast, failed: true, pending: Seq::empty(), ..a },
        ExecutionView { stage: Stage::SendingLast, failed: true, pending: Seq::empty(), ..b },
        f,
        f,
    );
}

proof fn lemma_proceed_alike(a: ExecutionView, b: ExecutionView, now: u64)
    requires
        alike(a, b),
    ensures
        alike(proceed_spec(a, now).0, proceed_spec(b, now).0),
        action_alike(proceed_spec(a, now).1, proceed_spec(b, now).1),
{
    if limit_reached(a) {
        lemma_wrap_up_alike(a, b, natural_outcome(a), now);
    } else if a.pending.len() > 0 {
        let row = a.pending[0];
        let count = saturate(a.count + 1);
        let size = saturate(a.size + saturate(row_size(row) as int));
        lemma_emit_alike(
            ExecutionView {
                stage: Stage::SendingRow,
                pending: a.pending.drop_first(),
                count,
                size,
                ..a
            },
            ExecutionView {
                stage: Stage::SendingRow,
                pending: b.pending.drop_first(),
                count,
                size,
                ..b
            },
            FrameView::Row(row),
            FrameView::Row(row),
        );
    } else if a.source_done {
        lemma_wrap_up_alike(a, b, natural_outcome(a), now);
    }
}

proof fn lemma_received_alike(a: ExecutionView, b: ExecutionView, reply: ReplyView, now: u64)
    requires
        alike(a, b),
    ensures
        alike(received_spec(a, reply, now).0, received_spec(b, reply, now).0),
        action_alike(received_spec(a, reply, now).1, received_spec(b, reply, now).1),
{
    match reply {
        ReplyView::Failed { fatal, message } => {
            if fatal {
                lemma_fail_alike(a, b, ErrorKind::Execution, message);
            } else {
                let errors = saturate(a.errors + 1);
                lemma_proceed_alike(
                    ExecutionView { errors, source_done: true, ..a },
                    ExecutionView { errors, source_done: true, ..b },
                    now,
                );
            }
        },
        ReplyView::Rows { rows, done } => {
            match project_all_spec(a.plan.columns, a.params, rows) {
                None => {
                    lemma_fail_alike(a, b, ErrorKind::Execution, misfit_message());
                },
                Some(batch) => {
                    let fetched = saturate(a.fetched + rows.len());
                    lemma_proceed_alike(
                        ExecutionView { pending: batch, source_done: done, fetched, ..a },
                        ExecutionView { pending: batch, source_done: done, fetched, ..b },
                        now,
                    );
                },
            }
        },
    }
}

/// Executions that are alike stay alike: the same event makes them take the
/// same step, up to the identifiers in a status. So an execution of a plan
/// that was prepared and looked up emits the rows, the metrics and the outcome
/// that an execution of the same plan compiled on the spot emits, for the
/// same parameters and the same answers of the source.
pub proof fn lemma_alike_executions_step_alike(
    a: ExecutionView,
    b: ExecutionView,
    event: EventView,
    cancelled: bool,
    now: u64,
)
    requires
        alike(a, b),
    ensures
        alike(step_spec(a, event, cancelled, now).0, step_spec(b, event, cancelled, now).0),
        action_alike(step_spec(a, event, cancelled, now).1, step_spec(b, event, cancelled, now).1),
{
    if a.stage is Done || !answers(a.stage, event) || event is ConsumerGone {
    } else if a.stage is SendingLast {
    } else if a.stage is SendingMetrics {
        lemma_emit_alike(
            ExecutionView { stage: Stage::SendingLast, ..a },
            ExecutionView { stage: Stage::SendingLast, ..b },
            FrameView::Status(status_of(a)),
            FrameView::Status(status_of(b)),
        );
    } else if cancelled {
        lemma_wrap_up_alike(a, b, Outcome::Cancelled, now);
    } else if a.stage is Idle {
        lemma_proceed_alike(begun_spec(a), begun_spec(b), now);
    } else if a.stage is Fetching {
        lemma_received_alike(a, b, event->Source_0, now);
    } else {
        lemma_proceed_alike(a, b, now);
    }
}

/// Executions of the same plan with the same parameters start alike,
/// whatever identifiers they carry.
pub proof fn lemma_same_plan_starts_alike(
    id_a: Seq<char>,
    context_a: Seq<char>,
    id_b: Seq<char>,
    context_b: Seq<char>,
    plan: PlanView,
    params: Seq<ValueView>,
    received_at: u64,
    now: u64,
)
    ensures
        alike(
            started_spec(id_a, context_a, plan, params, received_at, now),
            started_spec(id_b, context_b, plan, params, received_at, now),
        ),
{
}

/// Streams that are alike hold the same rows, and end alike.
pub proof fn lemma_alike_streams_same_rows(f: Seq<FrameView>, g: Seq<FrameView>)
    requires
        frames_alike(f, g),
    ensures
        rows_of(f) == rows_of(g),
        f.len() > 0 ==> frame_alike(f.last(), g.last()),
    decreases f.len(),
{
    if f.len() > 0 {
        assert(frame_alike(f[f.len() - 1], g[f.len() - 1]));
        assert forall|i: int| 0 <= i < f.len() - 1 implies frame_alike(
            #[trigger] f.drop_last()[i],
            g.drop_last()[i],
        ) by {
            assert(frame_alike(f[i], g[i]));
        }
        lemma_alike_streams_same_rows(f.drop_last(), g.drop_last());
    }
}

/// What a run against a source gathers: the rows it delivers, how many
/// errors the source reported that did not end it, and the failure that
/// ended it, where one did.
pub struct Gathered {
    pub rows: Seq<Seq<ValueView>>,
    pub errors: u64,
    pub failure: Option<Seq<char>>,
}

/// Whether so many rows are all that a limit allows.
pub open spec fn full(limit: Option<u64>, n: nat) -> bool {
    limit matches Some(l) && n >= l
}

/// The first rows, as many as a limit allows.
pub open spec fn capped(limit: Option<u64>, rows: Seq<Seq<ValueView>>) -> Seq<Seq<ValueView>> {
    match limit {
        Some(l) => if rows.len() > l {
            rows.take(l as int)
        } else {
            rows
        },
        None => rows,
    }
}

/// A run that came to its end with these rows at hand.
pub open spec fn settled(limit: Option<u64>, rows: Seq<Seq<ValueView>>, errors: u64) -> Gathered {
    Gathered { rows: capped(limit, rows), errors, failure: None }
}

/// The answers of a source, each by its view.
pub open spec fn script_view(script: Seq<SourceReply>) -> Seq<ReplyView> {
    script.map_values(|r: SourceReply| r@)
}

/// The answer with index `i`; behind the last, the source is done.
pub open spec fn reply_at(script: Seq<ReplyView>, i: int) -> ReplyView {
    if 0 <= i < script.len() {
        script[i]
    } else {
        ReplyView::Rows { rows: Seq::empty(), done: true }
    }
}

/// What a plan gathers from the answers of its source from the one with
/// index `i` on, with the rows `known` at hand: the answers are taken in
/// order until the rows at hand are all that the limit allows, or the source
/// is done, fails, or answers with a row that does not fit the plan. The rows
/// of an answer that holds a row that does not fit are all left out.
pub open spec fn gather(
    plan: PlanView,
    params: Seq<ValueView>,
    script: Seq<ReplyView>,
    i: int,
    known: Seq<Seq<ValueView>>,
) -> Gathered
    decreases script.len() - i,
{
    if full(plan.limit, known.len()) || i < 0 || i >= script.len() {
        settled(plan.limit, known, 0)
    } else {
        match script[i] {
            ReplyView::Failed { fatal, message } => if fatal {
                Gathered { rows: known, errors: 0, failure: Some(message) }
            } else {
                Gathered { rows: known, errors: 1, failure: None }
            },
            ReplyView::Rows { rows, done } => match project_all_spec(plan.columns, params, rows) {
                None => Gathered { rows: known, errors: 0, failure: Some(misfit_message()) },
                Some(batch) => if done {
                    settled(plan.limit, known + batch, 0)
                } else {
                    gather(plan, params, script, i + 1, known + batch)
                },
            },
        }
    }
}

/// What a plan gathers: its one row where it has no source, else what the
/// answers of its source give.
pub open spec fn gathered(plan: PlanView, params: Seq<ValueView>, script: Seq<ReplyView>) -> Gathered {
    if plan.target is None {
        match project_spec(plan.columns, params, Seq::empty()) {
            Some(row) => settled(plan.limit, seq![row], 0),
            None => settled(plan.limit, Seq::empty(), 0),
        }
    } else {
        gather(plan, params, script, 0, Seq::empty())
    }
}

/// The frames that close the stream of a run: the error, or the metrics
/// and the status.
pub open spec fn closing_frames(g: Gathered, v: ExecutionView, now: u64) -> Seq<FrameView> {
    match g.failure {
        Some(message) => seq![FrameView::Error { kind: ErrorKind::Execution, message }],
        None => seq![
            FrameView::Metrics(
                QueryMetrics {
                    elapsed_time_ms: saturate(now - v.received_at),
                    execution_time_ms: saturate(now - v.started_at),
                    result_count: saturate(g.rows.len() as int),
                    result_size_bytes: saturate(rows_size(g.rows) as int),
                    mutation_count: 0,
                    sort_count: 0,
                    error_count: g.errors,
                    warning_count: 0,
                },
            ),
            FrameView::Status(
                StatusView {
                    outcome: if g.errors > 0 {
                        Outcome::Errors
                    } else {
                        Outcome::Success
                    },
                    request_id: v.request_id,
                    client_context_id: v.client_context_id,
                },
            ),
        ],
    }
}

/// The stream of a run that gathered `g`.
pub open spec fn stream_of(g: Gathered, v: ExecutionView, now: u64) -> Seq<FrameView> {
    row_frames(g.rows) + closing_frames(g, v, now)
}

/// The frames that a fresh execution emits when it is run to its end at the
/// time `now` against a source with the answers `script`: where it was asked
/// to stop, the metrics and the status `cancelled`; else the rows it gathers
/// and the frames that close them.
pub open spec fn run_frames(v: ExecutionView, script: Seq<ReplyView>, cancelled: bool, now: u64) -> Seq<
    FrameView,
> {
    if cancelled {
        seq![
            FrameView::Metrics(metrics_at(v, now)),
            FrameView::Status(
                StatusView {
                    outcome: Outcome::Cancelled,
                    request_id: v.request_id,
                    client_context_id: v.client_context_id,
                },
            ),
        ]
    } else {
        stream_of(gathered(v.plan, v.params, script), v, now)
    }
}

/// The event that a run hands to an execution in the stage.
pub open spec fn due_event(stage: Stage, script: Seq<ReplyView>, cursor: int) -> EventView {
    match stage {
        Stage::Idle => EventView::Begin,
        Stage::Fetching => EventView::Source(reply_at(script, cursor)),
        _ => EventView::Delivered,
    }
}

/// An execution that has emitted rows only, on its way to gather `g` from
/// the answers with index `cursor` on.
pub open spec fn ready(v: ExecutionView, script: Seq<ReplyView>, cursor: int, g: Gathered) -> bool {
    let known = rows_of(v.emitted) + v.pending;
    &&& all_rows(v.emitted)
    &&& v.count == saturate(rows_of(v.emitted).len() as int)
    &&& v.size == saturate(rows_size(rows_of(v.emitted)) as int)
    &&& !v.cut_short
    &&& !v.failed
    &&& (v.plan.limit matches Some(l) ==> rows_of(v.emitted).len() <= l)
    &&& if v.source_done {
        g == settled(v.plan.limit, known, v.errors)
    } else {
        v.errors == 0 && g == gather(v.plan, v.params, script, cursor, known)
    }
}

/// An execution in a run, on its way to the stream of `g`.
pub open spec fn on_course(
    v: ExecutionView,
    script: Seq<ReplyView>,
    cursor: int,
    g: Gathered,
    now: u64,
) -> bool {
    match v.stage {
        Stage::Idle => g == gathered(v.plan, v.params, script) && cursor == 0,
        Stage::Fetching => ready(v, script, cursor, g) && !v.source_done && !full(
            v.plan.limit,
            rows_of(v.emitted).len(),
        ),
        Stage::SendingRow => ready(v, script, cursor, g),
        Stage::SendingMetrics => !v.cut_short && stream_of(g, v, now) == v.emitted.push(
            FrameView::Status(status_of(v)),
        ),
        _ => !v.cut_short && stream_of(g, v, now) == v.emitted,
    }
}

/// Two executions of the same request.
pub open spec fn same_request(a: ExecutionView, b: ExecutionView) -> bool {
    &&& a.request_id == b.request_id
    &&& a.client_context_id == b.client_context_id
    &&& a.plan == b.plan
    &&& a.params == b.params
    &&& a.received_at == b.received_at
    &&& a.started_at == b.started_at
}

proof fn lemma_wrap_up_on_course(
    v: ExecutionView,
    script: Seq<ReplyView>,
    cursor: int,
    g: Gathered,
    now: u64,
)
    requires
        ready(v, script, cursor, g),
        g == settled(v.plan.limit, rows_of(v.emitted), v.errors),
    ensures
        on_course(wrap_up_spec(v, natural_outcome(v), now).0, script, cursor, g, now),
{
    let next = wrap_up_spec(v, natural_outcome(v), now).0;
    lemma_rows_alone(v.emitted);
    assert(g.rows == rows_of(v.emitted));
    assert(stream_of(g, next, now) =~= next.emitted.push(FrameView::Status(status_of(next))));
}

proof fn lemma_proceed_on_course(
    v: ExecutionView,
    script: Seq<ReplyView>,
    cursor: int,
    g: Gathered,
    now: u64,
)
    requires
        ready(v, script, cursor, g),
    ensures
        on_course(proceed_spec(v, now).0, script, cursor, g, now),
{
    let known = rows_of(v.emitted) + v.pending;
    let done = rows_of(v.emitted);
    if limit_reached(v) {
        let l = v.plan.limit->0;
        assert(done.len() == l);
        assert(capped(v.plan.limit, known) =~= done);
        lemma_wrap_up_on_course(v, script, cursor, g, now);
    } else if v.pending.len() > 0 {
        let row = v.pending[0];
        let next = proceed_spec(v, now).0;
        lemma_rows_of_push(v.emitted, FrameView::Row(row));
        lemma_rows_size_push(done, row);
        crate::frame::lemma_stream_goes_on(v.emitted, FrameView::Row(row));
        assert(rows_of(next.emitted) + next.pending =~= known);
    } else if v.source_done {
        assert(known =~= done);
        lemma_wrap_up_on_course(v, script, cursor, g, now);
    } else {
        assert(known =~= done);
    }
}

proof fn lemma_received_on_course(
    v: ExecutionView,
    script: Seq<ReplyView>,
    cursor: int,
    g: Gathered,
    now: u64,
)
    requires
        ready(v, script, cursor, g),
        v.pending.len() == 0,
        !v.source_done,
        !full(v.plan.limit, rows_of(v.emitted).len()),
    ensures
        on_course(
            received_spec(v, reply_at(script, cursor), now).0,
            script,
            cursor + 1,
            g,
            now,
        ),
{
    let reply = reply_at(script, cursor);
    let known = rows_of(v.emitted);
    assert(rows_of(v.emitted) + v.pending =~= known);
    lemma_rows_alone(v.emitted);
    let none = Seq::<Seq<ValueView>>::empty();
    assert(project_all_spec(v.plan.columns, v.params, none) == Some(none)) by {
        assert(project_all_spec(v.plan.columns, v.params, none)->0 =~= none);
    }
    match reply {
        ReplyView::Failed { fatal, message } => {
            if fatal {
                let next = fail_spec(v, ErrorKind::Execution, message).0;
                assert(stream_of(g, next, now) =~= next.emitted);
            } else {
                let mid = ExecutionView { errors: saturate(v.errors + 1), source_done: true, ..v };
                assert(rows_of(mid.emitted) + mid.pending =~= known);
                lemma_proceed_on_course(mid, script, cursor + 1, g, now);
            }
        },
        ReplyView::Rows { rows, done } => {
            match project_all_spec(v.plan.columns, v.params, rows) {
                None => {
                    let next = fail_spec(v, ErrorKind::Execution, misfit_message()).0;
                    assert(stream_of(g, next, now) =~= next.emitted);
                },
                Some(batch) => {
                    let mid = ExecutionView {
                        pending: batch,
                        source_done: done,
                        fetched: saturate(v.fetched + rows.len()),
                        ..v
                    };
                    if !(0 <= cursor < script.len()) {
                        assert(known + batch =~= known);
                    }
                    lemma_proceed_on_course(mid, script, cursor + 1, g, now);
                },
            }
        },
    }
}

/// A step of a run keeps the execution on its way: handed the event that is
/// due, an execution that is on course for a stream is on course for it
/// after the step.
pub proof fn lemma_step_stays_on_course(
    v: ExecutionView,
    script: Seq<ReplyView>,
    cursor: int,
    g: Gathered,
    now: u64,
)
    requires
        execution_well_formed(v),
        on_course(v, script, cursor, g, now),
        !(v.stage is Done),
    ensures
        ({
            let next = step_spec(v, due_event(v.stage, script, cursor), false, now).0;
            &&& on_course(
                next,
                script,
                if v.stage is Fetching {
                    cursor + 1
                } else {
                    cursor
                },
                g,
                now,
            )
            &&& same_request(next, v)
            &&& !next.cut_short
        }),
{
    match v.stage {
        Stage::Idle => {
            let mid = begun_spec(v);
            assert(rows_of(v.emitted) =~= Seq::<Seq<ValueView>>::empty());
            assert(rows_of(mid.emitted) + mid.pending =~= mid.pending);
            lemma_proceed_on_course(mid, script, cursor, g, now);
        },
        Stage::Fetching => {
            lemma_received_on_course(v, script, cursor, g, now);
        },
        Stage::SendingRow => {
            lemma_proceed_on_course(v, script, cursor, g, now);
        },
        _ => {},
    }
}

/// The frames of a run are a complete stream: rows, then the metrics and a
/// status, or rows and then an error. The last frame is a status or an error,
/// and no frame before it is.
pub proof fn lemma_run_frames_complete(
    v: ExecutionView,
    script: Seq<ReplyView>,
    cancelled: bool,
    now: u64,
)
    ensures
        complete_stream(run_frames(v, script, cancelled, now)),
        is_terminal(run_frames(v, script, cancelled, now).last()),
        forall|i: int|
            0 <= i < run_frames(v, script, cancelled, now).len() - 1 ==> !is_terminal(
                #[trigger] run_frames(v, script, cancelled, now)[i],
            ),
{
    let frames = run_frames(v, script, cancelled, now);
    if cancelled {
        assert(frames.drop_last().drop_last() =~= Seq::<FrameView>::empty());
    } else {
        let g = gathered(v.plan, v.params, script);
        lemma_rows_of_row_frames(g.rows);
        let closing = closing_frames(g, v, now);
        if g.failure is Some {
            assert(frames.drop_last() =~= row_frames(g.rows));
        } else {
            assert(frames.drop_last().drop_last() =~= row_frames(g.rows));
            assert(frames.drop_last().last() == closing[0]);
        }
    }
    crate::frame::lemma_complete_stream_one_terminal(frames);
}

/// The rows in the frames of a run are the rows the run gathers.
pub proof fn lemma_run_frames_rows(v: ExecutionView, script: Seq<ReplyView>, now: u64)
    ensures
        rows_of(run_frames(v, script, false, now)) == gathered(v.plan, v.params, script).rows,
{
    let g = gathered(v.plan, v.params, script);
    let closing = closing_frames(g, v, now);
    let rows = row_frames(g.rows);
    lemma_rows_of_row_frames(g.rows);
    if g.failure is Some {
        assert(rows + closing =~= rows.push(closing[0]));
        lemma_rows_of_push(rows, closing[0]);
    } else {
        assert(rows + closing =~= rows.push(closing[0]).push(closing[1]));
        lemma_rows_of_push(rows, closing[0]);
        lemma_rows_of_push(rows.push(closing[0]), closing[1]);
    }
}

/// Runs of executions that are alike are alike: they hold the same rows and
/// the same metrics, and end with the same error or with statuses of the
/// same outcome.
pub proof fn lemma_alike_runs(
    a: ExecutionView,
    b: ExecutionView,
    script: Seq<ReplyView>,
    cancelled: bool,
    now: u64,
)
    requires
        alike(a, b),
    ensures
        frames_alike(run_frames(a, script, cancelled, now), run_frames(b, script, cancelled, now)),
        rows_of(run_frames(a, script, cancelled, now)) == rows_of(
            run_frames(b, script, cancelled, now),
        ),
{
    let x = run_frames(a, script, cancelled, now);
    let y = run_frames(b, script, cancelled, now);
    if !cancelled {
        let g = gathered(a.plan, a.params, script);
        assert(x == row_frames(g.rows) + closing_frames(g, a, now));
        assert(y == row_frames(g.rows) + closing_frames(g, b, now));
        assert forall|i: int| 0 <= i < x.len() implies frame_alike(#[trigger] x[i], y[i]) by {
            if i < g.rows.len() {
                assert(x[i] == row_frames(g.rows)[i]);
                assert(y[i] == row_frames(g.rows)[i]);
            } else {
                assert(x[i] == closing_frames(g, a, now)[i - g.rows.len()]);
                assert(y[i] == closing_frames(g, b, now)[i - g.rows.len()]);
            }
        }
    }
    lemma_alike_streams_same_rows(x, y);
}

/// A plan without a source and without a limit yields one row, whatever
/// the parameters, and its run ends in success: the row, the metrics of one
/// row, and the status `success`.
pub proof fn lemma_constant_plan_yields_one_row(
    v: ExecutionView,
    script: Seq<ReplyView>,
    now: u64,
)
    requires
        plan_well_formed(v.plan),
        v.plan.target is None,
        v.plan.limit is None,
    ensures
        project_spec(v.plan.columns, v.params, Seq::empty()) is Some,
        gathered(v.plan, v.params, script) == (Gathered {
            rows: seq![project_spec(v.plan.columns, v.params, Seq::empty())->0],
            errors: 0,
            failure: None,
        }),
        run_frames(v, script, false, now).len() == 3,
        run_frames(v, script, false, now)[0] == FrameView::Row(
            project_spec(v.plan.columns, v.params, Seq::empty())->0,
        ),
        run_frames(v, script, false, now)[1] matches FrameView::Metrics(m) && m.result_count == 1
            && m.error_count == 0,
        run_frames(v, script, false, now)[2] matches FrameView::Status(s) && s.outcome
            == Outcome::Success && s.request_id == v.request_id && s.client_context_id
            == v.client_context_id,
{
    lemma_constant_plan_has_no_fields(v.plan, v.plan.columns.len() as int);
    assert(v.plan.columns.take(v.plan.columns.len() as int) =~= v.plan.columns);
    let row = project_spec(v.plan.columns, v.params, Seq::empty())->0;
    let g = gathered(v.plan, v.params, script);
    assert(g.rows == seq![row]);
    assert(row_frames(g.rows) =~= seq![FrameView::Row(row)]);
}

impl Execution {
    /// Runs a fresh execution to its end against a source whose answers are
    /// known beforehand, and a consumer that takes every frame at once.
    /// `script` holds the answers in the order in which the source gives them;
    /// a source that is asked once more answers that it is done. `cancelled`
    /// says whether the request has been asked to stop. Returns the frames
    /// in the order in which they were emitted.
    pub fn run(&mut self, script: &Vec<SourceReply>, cancelled: bool, now: u64) -> (frames: Vec<
        ResultFrame,
    >)
        requires
            execution_well_formed(old(self)@),
            old(self)@.stage is Idle,
        ensures
            execution_well_formed(final(self)@),
            final(self)@.stage is Done,
            !final(self)@.cut_short,
            same_request(final(self)@, old(self)@),
            frames_view(frames@) == final(self)@.emitted,
            frames_view(frames@) == run_frames(old(self)@, script_view(script@), cancelled, now),
            complete_stream(frames_view(frames@)),
    {
        let mut frames: Vec<ResultFrame> = Vec::new();
        let mut next: usize = 0;
        let mut spare: bool = true;
        let mut event = Event::Begin;
        let ghost sv = script_view(script@);
        let ghost g = gathered(self@.plan, self@.params, sv);
        let ghost mut cursor: int = 0;
        assert(frames_view(frames@) =~= self@.emitted);
        loop
            invariant
                execution_well_formed(self@),
                !(self@.stage is Done),
                sv == script_view(script@),
                same_request(self@, old(self)@),
                frames_view(frames@) == self@.emitted,
                next <= script.len(),
                !spare ==> next == script.len(),
                !spare && !(self@.stage is Fetching) ==> self@.source_done || stage_rank(
                    self@.stage,
                ) <= 2,
                !spare && self@.stage is Fetching ==> event@ == EventView::Source(
                    ReplyView::Rows { rows: Seq::empty(), done: true },
                ),
                self@.stage is SendingMetrics || self@.stage is SendingLast
                    ==> self@.pending.len() == 0,
                g == gathered(old(self)@.plan, old(self)@.params, sv),
                self@.stage is Idle ==> self@ == old(self)@,
                !cancelled ==> on_course(self@, sv, cursor, g, now),
                !cancelled ==> event@ == due_event(self@.stage, sv, cursor),
                !cancelled && spare ==> cursor == next - (if self@.stage is Fetching {
                    1int
                } else {
                    0int
                }),
                !cancelled && !spare ==> cursor >= script.len(),
                cancelled ==> answers(self@.stage, event@) && !(event is ConsumerGone),
                cancelled ==> match self@.stage {
                    Stage::Idle => true,
                    Stage::SendingMetrics => self@.outcome is Cancelled && self@.emitted == seq![
                        FrameView::Metrics(metrics_at(old(self)@, now)),
                    ],
                    Stage::SendingLast => self@.emitted == run_frames(old(self)@, sv, true, now),
                    _ => false,
                },
            decreases
                    (script.len() - next) + (if spare { 1nat } else { 0nat }) + (if self@.stage
                        is Fetching { 1nat } else { 0nat }),
                    self@.pending.len(),
                    stage_rank(self@.stage),
        {
            let ghost before = self@;
            let ghost before_frames = frames_view(frames@);
            proof {
                let none = Seq::<Seq<ValueView>>::empty();
                assert(project_all_spec(before.plan.columns, before.params, none) == Some(none)) by {
                    assert(project_all_spec(before.plan.columns, before.params, none)->0 =~= none);
                }
                if !cancelled {
                    lemma_step_stays_on_course(before, sv, cursor, g, now);
                    if before.stage is Fetching {
                        cursor = cursor + 1;
                    }
                }
            }
            match self.step(event, cancelled, now) {
                Action::Finish(_) => {
                    proof {
                        lemma_finished_stream_is_complete(self@);
                    }
                    return frames;
                },
                Action::Emit(frame) => {
                    frames.push(frame);
                    assert(frames_view(frames@) =~= before_frames.push(frame@));
                    event = Event::Delivered;
                    proof {
                        if cancelled && before.stage is Idle {
                            assert(self@.emitted =~= seq![
                                FrameView::Metrics(metrics_at(old(self)@, now)),
                            ]);
                        }
                        if cancelled && before.stage is SendingMetrics {
                            assert(self@.emitted =~= run_frames(old(self)@, sv, true, now));
                        }
                    }
                },
                Action::Fetch(_) => {
                    if next < script.len() {
                        event = Event::Source(script[next].clone());
                        next = next + 1;
                    } else {
                        let rows: Vec<Vec<Value>> = Vec::new();
                        assert(rows_view(rows@) =~= Seq::<Seq<ValueView>>::empty());
                        event = Event::Source(SourceReply::Rows { rows, done: true });
                        spare = false;
                    }
                },
            }
        }
    }
}

} // verus!
