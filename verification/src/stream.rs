//! The result stream: a bounded queue of frames between the execution that
//! produces them and the caller that consumes them.
//!
//! The stream never waits. Where the producer would have to wait for room,
//! `push` hands the frame back; where the consumer would have to wait for a
//! frame, `pull` says so. Whoever drives the two ends suspends them on these
//! answers and tries again.
//!
//! The stream takes frames only in the order of a result: rows, then metrics,
//! then a status; or rows, then an error. Frames leave it in the order in which
//! they entered, each once. A stream whose producer has closed before a status
//! or an error entered it tells the consumer so, and does not end silently.

use std::collections::VecDeque;
use vstd::prelude::*;
use crate::frame::{
    all_rows, complete_stream, stream_in_order, summarised_stream, ErrorKind, FrameView,
    ResultFrame,
};

verus! {

/// How far the frames that entered a stream have come.
#[derive(Clone, Copy, Debug, PartialEq, Eq, Structural)]
pub enum StreamStage {
    /// Rows only, or nothing yet.
    Rows,
    /// The metrics have entered: the status is owed.
    Summarised,
    /// A status or an error has entered: nothing may follow.
    Ended,
}

/// The stage of frames that are in order.
pub open spec fn stage_of(pushed: Seq<FrameView>) -> StreamStage {
    if complete_stream(pushed) {
        StreamStage::Ended
    } else if summarised_stream(pushed) {
        StreamStage::Summarised
    } else {
        StreamStage::Rows
    }
}

/// Whether a frame may enter behind frames of the stage.
pub open spec fn stage_takes(stage: StreamStage, f: FrameView) -> bool {
    match stage {
        StreamStage::Rows => f is Row || f is Metrics || f is Error,
        StreamStage::Summarised => f is Status,
        StreamStage::Ended => false,
    }
}

/// Frames in order stay in order with one more frame exactly where their
/// stage takes it.
pub proof fn lemma_stage_decides(pushed: Seq<FrameView>, f: FrameView)
    requires
        stream_in_order(pushed),
    ensures
        stream_in_order(pushed.push(f)) == stage_takes(stage_of(pushed), f),
        stage_takes(stage_of(pushed), f) ==> stage_of(pushed.push(f)) == match f {
            FrameView::Row(_) => StreamStage::Rows,
            FrameView::Metrics(_) => StreamStage::Summarised,
            _ => StreamStage::Ended,
        },
{
    let next = pushed.push(f);
    assert(next.drop_last() =~= pushed);
    assert(next.last() == f);
    if pushed.len() > 0 {
        assert(next[pushed.len() - 1] == pushed.last());
        if all_rows(next) {
            assert(next[pushed.len() - 1] is Row);
        }
        if all_rows(pushed) {
            assert(pushed[pushed.len() - 1] is Row);
        }
    }
    if all_rows(pushed) && f is Row {
        assert forall|i: int| 0 <= i < next.len() implies (#[trigger] next[i]) is Row by {
            if i < pushed.len() {
                assert(next[i] == pushed[i]);
            }
        }
    }
    if all_rows(next) {
        assert(next[next.len() - 1] is Row);
        assert forall|i: int| 0 <= i < pushed.len() implies (#[trigger] pushed[i]) is Row by {
            assert(next[i] == pushed[i]);
        }
    }
}

/// What a `ResultStream` stands for.
pub struct StreamView {
    /// The frames that wait in the stream, the next to leave first.
    pub queued: Seq<FrameView>,
    /// Every frame that has entered the stream, in order.
    pub pushed: Seq<FrameView>,
    /// Every frame that has left the stream, in order.
    pub pulled: Seq<FrameView>,
    pub capacity: nat,
    pub producer_closed: bool,
    pub consumer_closed: bool,
}

/// What holds of every stream: the frames that entered are in the order of a
/// result, and they are those that left followed by those that wait.
pub open spec fn stream_well_formed(s: StreamView) -> bool {
    &&& s.capacity >= 1
    &&& s.queued.len() <= s.capacity
    &&& s.pushed == s.pulled + s.queued
    &&& stream_in_order(s.pushed)
}

/// What became of a frame that was pushed.
#[derive(Debug, PartialEq, Eq)]
pub enum PushOutcome {
    /// The frame waits in the stream.
    Accepted,
    /// The stream is full. The frame comes back, to be pushed again when the
    /// consumer has made room.
    Full(ResultFrame),
    /// The consumer has gone. The frame is dropped.
    Disconnected,
    /// The frame may not follow those that entered before it, or the
    /// producer has closed. The frame is dropped.
    OutOfOrder,
}

/// What a pull found.
#[derive(Debug, PartialEq, Eq)]
pub enum PullOutcome {
    Frame(ResultFrame),
    /// No frame waits, and more may come.
    Pending,
    /// Every frame has left, the last of them a status or an error.
    End,
    /// Every frame has left and the producer has closed, and no status or
    /// error was among them: the result is cut short.
    Truncated,
}

impl PullOutcome {
    /// The failure a pull stands for: an internal one where the result was
    /// cut short, none otherwise.
    pub open spec fn spec_error_kind(self) -> Option<ErrorKind> {
        match self {
            PullOutcome::Truncated => Some(ErrorKind::Internal),
            _ => None,
        }
    }

    pub fn error_kind(&self) -> (kind: Option<ErrorKind>)
        ensures
            kind == self.spec_error_kind(),
    {
        match self {
            PullOutcome::Truncated => Some(ErrorKind::Internal),
            _ => None,
        }
    }
}

/// The result stream of one execution.
pub struct ResultStream {
    queue: VecDeque<ResultFrame>,
    capacity: usize,
    stage: StreamStage,
    producer_closed: bool,
    consumer_closed: bool,
    pushed: Ghost<Seq<FrameView>>,
    pulled: Ghost<Seq<FrameView>>,
}

impl View for ResultStream {
    type V = StreamView;

    closed spec fn view(&self) -> StreamView {
        StreamView {
            queued: self.queue@.map_values(|f: ResultFrame| f@),
            pushed: self.pushed@,
            pulled: self.pulled@,
            capacity: self.capacity as nat,
            producer_closed: self.producer_closed,
            consumer_closed: self.consumer_closed,
        }
    }
}

impl ResultStream {
    /// What holds of every stream, and that the stream knows how far the
    /// frames that entered it have come.
    pub closed spec fn well_formed(&self) -> bool {
        stream_well_formed(self@) && self.stage == stage_of(self.pushed@)
    }

    /// What holds of every stream holds of this one.
    pub proof fn lemma_well_formed(&self)
        requires
            self.well_formed(),
        ensures
            stream_well_formed(self@),
    {
    }

    /// An empty stream for at most `capacity` waiting frames. A stream holds
    /// at least one frame: a capacity of zero is taken as one.
    pub fn new(capacity: usize) -> (stream: ResultStream)
        ensures
            stream.well_formed(),
            stream@ == (StreamView {
                queued: Seq::empty(),
                pushed: Seq::empty(),
                pulled: Seq::empty(),
                capacity: if capacity == 0 {
                    1
                } else {
                    capacity as nat
                },
                producer_closed: false,
                consumer_closed: false,
            }),
    {
        let stream = ResultStream {
            queue: VecDeque::new(),
            capacity: if capacity == 0 {
                1
            } else {
                capacity
            },
            stage: StreamStage::Rows,
            producer_closed: false,
            consumer_closed: false,
            pushed: Ghost(Seq::empty()),
            pulled: Ghost(Seq::empty()),
        };
        assert(stream@.queued =~= Seq::<FrameView>::empty());
        assert(stream@.pushed =~= stream@.pulled + stream@.queued);
        stream
    }

    /// How many frames wait.
    pub fn len(&self) -> (n: usize)
        ensures
            n == self@.queued.len(),
    {
        self.queue.len()
    }

    /// Puts a frame into the stream, if it may enter and there is room.
    pub fn push(&mut self, frame: ResultFrame) -> (outcome: PushOutcome)
        requires
            old(self).well_formed(),
        ensures
            final(self).well_formed(),
            outcome == push_outcome(old(self)@, frame),
            final(self)@ == if outcome is Accepted {
                StreamView {
                    queued: old(self)@.queued.push(frame@),
                    pushed: old(self)@.pushed.push(frame@),
                    ..old(self)@
                }
            } else {
                old(self)@
            },
    {
        if self.consumer_closed {
            return PushOutcome::Disconnected;
        }
        proof {
            lemma_stage_decides(self.pushed@, frame@);
        }
        let fits = !self.producer_closed && match self.stage {
            StreamStage::Rows => match &frame {
                ResultFrame::Status(_) => false,
                _ => true,
            },
            StreamStage::Summarised => match &frame {
                ResultFrame::Status(_) => true,
                _ => false,
            },
            StreamStage::Ended => false,
        };
        if !fits {
            return PushOutcome::OutOfOrder;
        }
        if self.queue.len() >= self.capacity {
            return PushOutcome::Full(frame);
        }
        self.stage = match &frame {
            ResultFrame::Row(_) => StreamStage::Rows,
            ResultFrame::Metrics(_) => StreamStage::Summarised,
            _ => StreamStage::Ended,
        };
        let ghost fv = frame@;
        let ghost before = self@;
        self.queue.push_back(frame);
        self.pushed = Ghost(self.pushed@.push(fv));
        proof {
            assert(self@.queued =~= before.queued.push(fv));
            assert(self@.pushed =~= self@.pulled + self@.queued);
        }
        PushOutcome::Accepted
    }

    /// Takes the next frame out of the stream, if one waits.
    pub fn pull(&mut self) -> (outcome: PullOutcome)
        requires
            old(self).well_formed(),
        ensures
            final(self).well_formed(),
            match outcome {
                PullOutcome::Frame(frame) => {
                    &&& old(self)@.queued.len() > 0
                    &&& frame@ == old(self)@.queued[0]
                    &&& final(self)@ == (StreamView {
                        queued: old(self)@.queued.drop_first(),
                        pulled: old(self)@.pulled.push(frame@),
                        ..old(self)@
                    })
                },
                PullOutcome::End => {
                    &&& old(self)@.queued.len() == 0
                    &&& complete_stream(old(self)@.pushed)
                    &&& final(self)@ == old(self)@
                },
                PullOutcome::Truncated => {
                    &&& old(self)@.queued.len() == 0
                    &&& !complete_stream(old(self)@.pushed)
                    &&& old(self)@.producer_closed
                    &&& final(self)@ == old(self)@
                },
                PullOutcome::Pending => {
                    &&& old(self)@.queued.len() == 0
                    &&& !complete_stream(old(self)@.pushed)
                    &&& !old(self)@.producer_closed
                    &&& final(self)@ == old(self)@
                },
            },
    {
        let ghost before = self@;
        match self.queue.pop_front() {
            Some(frame) => {
                self.pulled = Ghost(self.pulled@.push(frame@));
                proof {
                    assert(self@.queued =~= before.queued.drop_first());
                    assert(self@.pushed =~= self@.pulled + self@.queued);
                }
                PullOutcome::Frame(frame)
            },
            None => {
                assert(self@.queued =~= before.queued);
                match self.stage {
                    StreamStage::Ended => PullOutcome::End,
                    _ => if self.producer_closed {
                        PullOutcome::Truncated
                    } else {
                        PullOutcome::Pending
                    },
                }
            },
        }
    }

    /// Closes the producer's end: no frame enters from now on.
    pub fn close_producer(&mut self)
        requires
            old(self).well_formed(),
        ensures
            final(self).well_formed(),
            final(self)@ == (StreamView { producer_closed: true, ..old(self)@ }),
    {
        self.producer_closed = true;
    }

    /// Closes the consumer's end: the producer's next push finds it gone.
    pub fn close_consumer(&mut self)
        requires
            old(self).well_formed(),
        ensures
            final(self).well_formed(),
            final(self)@ == (StreamView { consumer_closed: true, ..old(self)@ }),
    {
        self.consumer_closed = true;
    }
}

/// What `push` answers on a stream for a frame: the first that applies of
/// consumer gone, frame out of order or producer closed, stream full, and
/// accepted.
pub open spec fn push_outcome(s: StreamView, frame: ResultFrame) -> PushOutcome {
    if s.consumer_closed {
        PushOutcome::Disconnected
    } else if s.producer_closed || !stream_in_order(s.pushed.push(frame@)) {
        PushOutcome::OutOfOrder
    } else if s.queued.len() >= s.capacity {
        PushOutcome::Full(frame)
    } else {
        PushOutcome::Accepted
    }
}

/// Frames leave a stream in the order in which they entered it: those that
/// have left are the first of those that entered.
pub proof fn lemma_pulled_in_pushed_order(s: StreamView)
    requires
        stream_well_formed(s),
    ensures
        s.pulled.len() <= s.pushed.len(),
        s.pulled == s.pushed.take(s.pulled.len() as int),
        stream_in_order(s.pulled),
{
    assert(s.pulled =~= s.pushed.take(s.pulled.len() as int));
    crate::frame::lemma_stream_prefix_in_order(s.pushed, s.pulled.len() as int);
}

/// A consumer that was told of the end has seen a complete result: every
/// frame that entered has left, and the last of them is the one status or
/// error among them.
pub proof fn lemma_end_is_complete(s: StreamView)
    requires
        stream_well_formed(s),
        s.queued.len() == 0,
        complete_stream(s.pushed),
    ensures
        s.pulled == s.pushed,
        complete_stream(s.pulled),
{
    assert(s.pulled =~= s.pushed);
}

} // verus!
