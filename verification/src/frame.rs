//! The values a query yields and the frames that carry them to the caller.
//!
//! A result stream is a run of row frames, then one metrics frame, then one
//! status frame; or a run of row frames cut short by one error frame. The
//! predicates at the end of this file say so over sequences of frame views.

use vstd::prelude::*;
use vstd::utf8::encode_utf8;

verus! {

/// One value of a row or of a bound parameter.
#[derive(Debug, PartialEq, Eq)]
pub enum Value {
    Null,
    Bool(bool),
    Int(i64),
    Text(String),
}

/// What a `Value` stands for.
pub enum ValueView {
    Null,
    Bool(bool),
    Int(int),
    Text(Seq<char>),
}

impl View for Value {
    type V = ValueView;

    open spec fn view(&self) -> ValueView {
        match self {
            Value::Null => ValueView::Null,
            Value::Bool(b) => ValueView::Bool(*b),
            Value::Int(i) => ValueView::Int(*i as int),
            Value::Text(s) => ValueView::Text(s@),
        }
    }
}

impl Clone for Value {
    fn clone(&self) -> (copy: Value)
        ensures
            copy@ == self@,
    {
        match self {
            Value::Null => Value::Null,
            Value::Bool(b) => Value::Bool(*b),
            Value::Int(i) => Value::Int(*i),
            Value::Text(s) => Value::Text(s.clone()),
        }
    }
}

/// The views of a run of values, in order.
pub open spec fn values_view(values: Seq<Value>) -> Seq<ValueView> {
    values.map_values(|v: Value| v@)
}

/// The views of a run of rows, in order.
pub open spec fn rows_view(rows: Seq<Vec<Value>>) -> Seq<Seq<ValueView>> {
    rows.map_values(|r: Vec<Value>| values_view(r@))
}

/// The bytes a value is counted with in the size of a result.
pub open spec fn value_size(v: ValueView) -> nat {
    match v {
        ValueView::Null => 1,
        ValueView::Bool(_) => 1,
        ValueView::Int(_) => 8,
        ValueView::Text(s) => encode_utf8(s).len(),
    }
}

/// The bytes a row is counted with: the sum over its values.
pub open spec fn row_size(row: Seq<ValueView>) -> nat
    decreases row.len(),
{
    if row.len() == 0 {
        0
    } else {
        row_size(row.drop_last()) + value_size(row.last())
    }
}

/// `n`, held at the largest 64-bit number where it would pass it.
pub open spec fn saturate(n: int) -> u64 {
    if n >= u64::MAX {
        u64::MAX
    } else if n <= 0 {
        0
    } else {
        n as u64
    }
}

/// The sum of two counters, held at the largest number.
pub fn saturating_sum(a: u64, b: u64) -> (sum: u64)
    ensures
        sum == saturate(a + b),
{
    if a > u64::MAX - b {
        u64::MAX
    } else {
        a + b
    }
}

/// A copy of a run of values.
pub fn copy_values(values: &Vec<Value>) -> (copy: Vec<Value>)
    ensures
        values_view(copy@) == values_view(values@),
{
    let mut copy: Vec<Value> = Vec::new();
    let mut i: usize = 0;
    while i < values.len()
        invariant
            i <= values.len(),
            copy.len() == i,
            forall|j: int| 0 <= j < i ==> copy[j]@ == values[j]@,
        decreases values.len() - i,
    {
        copy.push(values[i].clone());
        i = i + 1;
    }
    assert(values_view(copy@) =~= values_view(values@));
    copy
}

/// The size of a row in bytes, held at the largest 64-bit number.
pub fn measure_row(row: &Vec<Value>) -> (size: u64)
    ensures
        size == saturate(row_size(values_view(row@)) as int),
{
    let mut size: u64 = 0;
    let mut i: usize = 0;
    while i < row.len()
        invariant
            i <= row.len(),
            size == saturate(row_size(values_view(row@).take(i as int)) as int),
        decreases row.len() - i,
    {
        let one: u64 = match &row[i] {
            Value::Null => 1,
            Value::Bool(_) => 1,
            Value::Int(_) => 8,
            Value::Text(s) => {
                let n: usize = s.as_str().as_bytes().len();
                n as u64
            },
        };
        proof {
            let all = values_view(row@);
            assert(all.take(i + 1).drop_last() =~= all.take(i as int));
            assert(all.take(i + 1).last() == row[i as int]@);
            assert(one == value_size(row[i as int]@));
        }
        size = saturating_sum(size, one);
        i = i + 1;
    }
    assert(values_view(row@).take(i as int) =~= values_view(row@));
    size
}

/// The kinds of failure a caller can be told of.
#[derive(Clone, Copy, Debug, PartialEq, Eq, Structural)]
pub enum ErrorKind {
    /// The statement is malformed or unsupported.
    Compile,
    /// No plan is registered under the name.
    PlanNotFound,
    /// A data service failed while the result was being produced.
    Execution,
    /// The request was cancelled.
    Cancelled,
    /// An invariant of the engine was found broken.
    Internal,
}

impl ErrorKind {
    /// The word that stands for the kind on the wire.
    pub open spec fn word(self) -> Seq<char> {
        match self {
            ErrorKind::Compile => "compile"@,
            ErrorKind::PlanNotFound => "plan_not_found"@,
            ErrorKind::Execution => "execution"@,
            ErrorKind::Cancelled => "cancelled"@,
            ErrorKind::Internal => "internal"@,
        }
    }

    pub fn as_str(self) -> (word: &'static str)
        ensures
            word@ == self.word(),
    {
        match self {
            ErrorKind::Compile => "compile",
            ErrorKind::PlanNotFound => "plan_not_found",
            ErrorKind::Execution => "execution",
            ErrorKind::Cancelled => "cancelled",
            ErrorKind::Internal => "internal",
        }
    }
}

/// How an execution that ran to its end came out.
#[derive(Clone, Copy, Debug, PartialEq, Eq, Structural)]
pub enum Outcome {
    /// Every row was delivered and no data service reported an error.
    Success,
    /// The execution ran to its end, and data services reported errors on the way.
    Errors,
    /// The execution was stopped on request.
    Cancelled,
}

impl Outcome {
    /// The word that stands for the outcome on the wire.
    pub open spec fn word(self) -> Seq<char> {
        match self {
            Outcome::Success => "success"@,
            Outcome::Errors => "errors"@,
            Outcome::Cancelled => "cancelled"@,
        }
    }

    pub fn as_str(self) -> (word: &'static str)
        ensures
            word@ == self.word(),
    {
        match self {
            Outcome::Success => "success",
            Outcome::Errors => "errors",
            Outcome::Cancelled => "cancelled",
        }
    }

    /// The kind of failure an outcome stands for, where it stands for one:
    /// none for success, and a cancelled execution has not failed in its
    /// execution.
    pub open spec fn spec_error_kind(self) -> Option<ErrorKind> {
        match self {
            Outcome::Success => None,
            Outcome::Errors => Some(ErrorKind::Execution),
            Outcome::Cancelled => Some(ErrorKind::Cancelled),
        }
    }

    pub fn error_kind(self) -> (kind: Option<ErrorKind>)
        ensures
            kind == self.spec_error_kind(),
    {
        match self {
            Outcome::Success => None,
            Outcome::Errors => Some(ErrorKind::Execution),
            Outcome::Cancelled => Some(ErrorKind::Cancelled),
        }
    }
}

/// Counters of one execution. All are zero where they do not apply.
#[derive(Clone, Copy, Debug, PartialEq, Eq, Structural)]
pub struct QueryMetrics {
    pub elapsed_time_ms: u64,
    pub execution_time_ms: u64,
    pub result_count: u64,
    pub result_size_bytes: u64,
    pub mutation_count: u64,
    pub sort_count: u64,
    pub error_count: u64,
    pub warning_count: u64,
}

impl QueryMetrics {
    /// The counters of an execution that has done nothing.
    pub open spec fn zero() -> QueryMetrics {
        QueryMetrics {
            elapsed_time_ms: 0,
            execution_time_ms: 0,
            result_count: 0,
            result_size_bytes: 0,
            mutation_count: 0,
            sort_count: 0,
            error_count: 0,
            warning_count: 0,
        }
    }

    pub fn new() -> (m: QueryMetrics)
        ensures
            m == QueryMetrics::zero(),
    {
        QueryMetrics {
            elapsed_time_ms: 0,
            execution_time_ms: 0,
            result_count: 0,
            result_size_bytes: 0,
            mutation_count: 0,
            sort_count: 0,
            error_count: 0,
            warning_count: 0,
        }
    }
}

/// The closing word on an execution.
#[derive(Debug, PartialEq, Eq)]
pub struct QueryStatus {
    pub outcome: Outcome,
    pub request_id: String,
    pub client_context_id: String,
}

/// What a `QueryStatus` stands for.
pub struct StatusView {
    pub outcome: Outcome,
    pub request_id: Seq<char>,
    pub client_context_id: Seq<char>,
}

impl View for QueryStatus {
    type V = StatusView;

    open spec fn view(&self) -> StatusView {
        StatusView {
            outcome: self.outcome,
            request_id: self.request_id@,
            client_context_id: self.client_context_id@,
        }
    }
}

/// One unit of a result stream.
#[derive(Debug, PartialEq, Eq)]
pub enum ResultFrame {
    Row(Vec<Value>),
    Metrics(QueryMetrics),
    Status(QueryStatus),
    Error { kind: ErrorKind, message: String },
}

/// What a `ResultFrame` stands for.
pub enum FrameView {
    Row(Seq<ValueView>),
    Metrics(QueryMetrics),
    Status(StatusView),
    Error { kind: ErrorKind, message: Seq<char> },
}

impl View for ResultFrame {
    type V = FrameView;

    open spec fn view(&self) -> FrameView {
        match self {
            ResultFrame::Row(values) => FrameView::Row(values_view(values@)),
            ResultFrame::Metrics(m) => FrameView::Metrics(*m),
            ResultFrame::Status(s) => FrameView::Status(s@),
            ResultFrame::Error { kind, message } => FrameView::Error {
                kind: *kind,
                message: message@,
            },
        }
    }
}

impl Clone for ResultFrame {
    fn clone(&self) -> (copy: ResultFrame)
        ensures
            copy@ == self@,
    {
        match self {
            ResultFrame::Row(values) => ResultFrame::Row(copy_values(values)),
            ResultFrame::Metrics(m) => ResultFrame::Metrics(*m),
            ResultFrame::Status(s) => ResultFrame::Status(
                QueryStatus {
                    outcome: s.outcome,
                    request_id: s.request_id.clone(),
                    client_context_id: s.client_context_id.clone(),
                },
            ),
            ResultFrame::Error { kind, message } => ResultFrame::Error {
                kind: *kind,
                message: message.clone(),
            },
        }
    }
}

impl ResultFrame {
    /// Whether the frame ends a stream.
    pub fn is_terminal(&self) -> (b: bool)
        ensures
            b == is_terminal(self@),
    {
        match self {
            ResultFrame::Status(_) => true,
            ResultFrame::Error { .. } => true,
            _ => false,
        }
    }
}

/// The views of a run of frames, in order.
pub open spec fn frames_view(frames: Seq<ResultFrame>) -> Seq<FrameView> {
    frames.map_values(|f: ResultFrame| f@)
}

/// A status or an error frame: after it no frame is sent.
pub open spec fn is_terminal(f: FrameView) -> bool {
    f is Status || f is Error
}

/// Whether every frame is a row.
pub open spec fn all_rows(s: Seq<FrameView>) -> bool {
    forall|i: int| 0 <= i < s.len() ==> (#[trigger] s[i]) is Row
}

/// Rows, then the metrics: what a stream holds just before its status.
pub open spec fn summarised_stream(s: Seq<FrameView>) -> bool {
    s.len() >= 1 && all_rows(s.drop_last()) && s.last() is Metrics
}

/// A stream that has run to its end: rows, metrics and status; or rows and
/// an error.
pub open spec fn complete_stream(s: Seq<FrameView>) -> bool {
    s.len() >= 1 && if s.last() is Status {
        summarised_stream(s.drop_last())
    } else {
        s.last() is Error && all_rows(s.drop_last())
    }
}

/// A stream as far as it has come: any beginning of a complete stream.
pub open spec fn stream_in_order(s: Seq<FrameView>) -> bool {
    all_rows(s) || summarised_stream(s) || complete_stream(s)
}

/// The rows of a stream, in order.
pub open spec fn rows_of(s: Seq<FrameView>) -> Seq<Seq<ValueView>>
    decreases s.len(),
{
    if s.len() == 0 {
        Seq::empty()
    } else if s.last() is Row {
        rows_of(s.drop_last()).push(s.last()->Row_0)
    } else {
        rows_of(s.drop_last())
    }
}

/// A complete stream holds exactly one terminal frame, and it is the last.
pub proof fn lemma_complete_stream_one_terminal(s: Seq<FrameView>)
    requires
        complete_stream(s),
    ensures
        is_terminal(s.last()),
        forall|i: int| 0 <= i < s.len() - 1 ==> !is_terminal(#[trigger] s[i]),
{
    assert forall|i: int| 0 <= i < s.len() - 1 implies !is_terminal(#[trigger] s[i]) by {
        let front = s.drop_last();
        assert(front[i] == s[i]);
        if s.last() is Status {
            if i < front.len() - 1 {
                assert(front.drop_last()[i] == s[i]);
            }
        }
    }
}

/// Every beginning of a stream in order is in order.
pub proof fn lemma_stream_prefix_in_order(s: Seq<FrameView>, n: int)
    requires
        stream_in_order(s),
        0 <= n <= s.len(),
    ensures
        stream_in_order(s.take(n)),
{
    let p = s.take(n);
    if n == s.len() {
        assert(p =~= s);
    } else if all_rows(s) {
        assert(all_rows(p));
    } else if summarised_stream(s) {
        assert forall|i: int| 0 <= i < p.len() implies (#[trigger] p[i]) is Row by {
            assert(s.drop_last()[i] == p[i]);
        }
    } else {
        let front = s.drop_last();
        if s.last() is Status {
            if n == s.len() - 1 {
                assert(p =~= front);
            } else {
                assert forall|i: int| 0 <= i < p.len() implies (#[trigger] p[i]) is Row by {
                    assert(front.drop_last()[i] == p[i]);
                }
            }
        } else {
            assert forall|i: int| 0 <= i < p.len() implies (#[trigger] p[i]) is Row by {
                assert(front[i] == p[i]);
            }
        }
    }
}

/// How a stream in order goes on: rows take a further row, or the metrics,
/// or an error; the metrics take the status.
pub proof fn lemma_stream_goes_on(s: Seq<FrameView>, f: FrameView)
    ensures
        all_rows(s) && f is Row ==> all_rows(s.push(f)),
        all_rows(s) && f is Metrics ==> summarised_stream(s.push(f)),
        all_rows(s) && f is Error ==> complete_stream(s.push(f)),
        summarised_stream(s) && f is Status ==> complete_stream(s.push(f)),
{
    let next = s.push(f);
    assert(next.drop_last() =~= s);
    assert(next.last() == f);
    if all_rows(s) && f is Row {
        assert forall|i: int| 0 <= i < next.len() implies (#[trigger] next[i]) is Row by {
            if i < s.len() {
                assert(next[i] == s[i]);
            }
        }
    }
}

/// The bytes that rows are counted with: the sum over the rows.
pub open spec fn rows_size(rows: Seq<Seq<ValueView>>) -> nat
    decreases rows.len(),
{
    if rows.len() == 0 {
        0
    } else {
        rows_size(rows.drop_last()) + row_size(rows.last())
    }
}

/// The frames that carry rows, in order.
pub open spec fn row_frames(rows: Seq<Seq<ValueView>>) -> Seq<FrameView> {
    rows.map_values(|r: Seq<ValueView>| FrameView::Row(r))
}

/// The rows of a stream with one more frame: one more row where the frame
/// is a row, the same rows where it is not.
pub proof fn lemma_rows_of_push(s: Seq<FrameView>, f: FrameView)
    ensures
        rows_of(s.push(f)) == if f is Row {
            rows_of(s).push(f->Row_0)
        } else {
            rows_of(s)
        },
{
    assert(s.push(f).drop_last() =~= s);
}

/// One more row adds its size to the size of the rows.
pub proof fn lemma_rows_size_push(rows: Seq<Seq<ValueView>>, row: Seq<ValueView>)
    ensures
        rows_size(rows.push(row)) == rows_size(rows) + row_size(row),
{
    assert(rows.push(row).drop_last() =~= rows);
}

/// A stream of rows alone is the frames of its rows.
pub proof fn lemma_rows_alone(s: Seq<FrameView>)
    requires
        all_rows(s),
    ensures
        s == row_frames(rows_of(s)),
        rows_of(s).len() == s.len(),
    decreases s.len(),
{
    if s.len() > 0 {
        let front = s.drop_last();
        assert forall|i: int| 0 <= i < front.len() implies (#[trigger] front[i]) is Row by {
            assert(front[i] == s[i]);
        }
        lemma_rows_alone(front);
        assert(s.last() is Row) by {
            assert(s[s.len() - 1] is Row);
        }
        let rows = rows_of(s);
        assert(rows == rows_of(front).push(s.last()->Row_0));
        assert forall|i: int| 0 <= i < s.len() implies s[i] == #[trigger] row_frames(rows)[i] by {
            if i < front.len() {
                assert(rows[i] == rows_of(front)[i]);
                assert(row_frames(rows_of(front))[i] == front[i]);
                assert(front[i] == s[i]);
            }
        }
        assert(s =~= row_frames(rows_of(s)));
    } else {
        assert(s =~= row_frames(rows_of(s)));
    }
}

/// The rows of the frames of rows are those rows.
pub proof fn lemma_rows_of_row_frames(rows: Seq<Seq<ValueView>>)
    ensures
        rows_of(row_frames(rows)) == rows,
        all_rows(row_frames(rows)),
    decreases rows.len(),
{
    if rows.len() > 0 {
        lemma_rows_of_row_frames(rows.drop_last());
        assert(row_frames(rows).drop_last() =~= row_frames(rows.drop_last()));
        assert(rows_of(row_frames(rows)) =~= rows);
    } else {
        assert(rows_of(row_frames(rows)) =~= rows);
    }
}

} // verus!
