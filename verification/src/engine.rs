//! The per-attempt state machine: one streaming request from dispatch to
//! completion, retry or failure.
//!
//! The engine owns the frame buffer and the print buffer for one attempt,
//! decides what every decoded event means, and reports what to show as plain
//! output items; the surrounding shell performs the HTTP call, feeds the
//! body chunks in, renders the output items, and honours the statuses.
//!
//! `step` fixes what one event does to the attempt, and `run_steps` folds it
//! over a sequence of events with the cancellation checkpoint after each
//! one; the engine's methods are contracted to equal those functions, so
//! what an attempt prints is a function of the frame bytes and the observed
//! abort flags alone.

use vstd::prelude::*;
use vstd::string::StringExecFns;
use crate::events::Event;
use crate::events::EventView;
use crate::events::decode_frame;
use crate::events::event_spec;
use crate::events::view_of_event;
use crate::frames::FrameBuffer;
use crate::frames::first_delim;
use crate::frames::frames_of;
use crate::frames::lemma_rest_has_no_delim;
use crate::frames::lemma_split_append;
use crate::frames::rest_of;
use crate::json::error_kind_of;
use crate::retry::MAX_TRIES;
use crate::retry::retry_allowed;
use crate::retry::should_retry;
use crate::runstate::RunState;
use crate::text::buffer_after;
use crate::text::post_process;
use crate::text::processed_text;

verus! {

/// Where the attempt stands after a step.
#[derive(Debug, Clone, Copy, PartialEq, Eq)]
pub enum Status {
    /// Still consuming the body stream.
    Streaming,
    /// The stream ended normally, or an abort was honoured.
    Completed,
    /// The same prompt should be resubmitted with the next attempt number.
    Retrying,
    /// The attempt failed; the error has been reported.
    Failed,
}

/// One item to show on the terminal, in order.
#[derive(Debug, PartialEq, Eq)]
pub enum Output {
    /// Display-ready response text, written as it arrives.
    Text(String),
    /// The bolded response label, shown once before the first content.
    ResponseLabel,
    /// The bolded error label with the message to surface.
    Error(String),
    /// The informational notice before an automatic retry, with the current
    /// attempt number.
    RetryNotice(i64),
    /// The blank line and idle prompt indicator once the request concludes.
    Idle,
}

/// An output item over mathematical text.
pub enum OutputView {
    Text(Seq<char>),
    ResponseLabel,
    Error(Seq<char>),
    RetryNotice(i64),
    Idle,
}

/// The view of one output item.
pub open spec fn view_of_output(o: Output) -> OutputView {
    match o {
        Output::Text(t) => OutputView::Text(t@),
        Output::ResponseLabel => OutputView::ResponseLabel,
        Output::Error(m) => OutputView::Error(m@),
        Output::RetryNotice(c) => OutputView::RetryNotice(c),
        Output::Idle => OutputView::Idle,
    }
}

/// The views of a sequence of output items.
pub open spec fn outputs_view(s: Seq<Output>) -> Seq<OutputView> {
    s.map_values(|o: Output| view_of_output(o))
}

/// The engine's abstract state: the running flag, whether content has been
/// emitted, the pending post-processor fragments, and the attempt number.
pub struct EngineView {
    pub running: bool,
    pub seen: bool,
    pub pending: Seq<Seq<char>>,
    pub attempt: i64,
}

/// The same state with the running flag cleared.
pub open spec fn stopped(m: EngineView) -> EngineView {
    EngineView { running: false, ..m }
}

/// What one decoded event does to the attempt: the next state, the output
/// items to show, and where the attempt stands.
pub open spec fn step(m: EngineView, ev: EventView) -> (EngineView, Seq<OutputView>, Status) {
    match ev {
        EventView::Ignored => (m, Seq::empty(), Status::Streaming),
        EventView::Content(t) => {
            if t.len() == 0 {
                (m, Seq::empty(), Status::Streaming)
            } else {
                let shown = OutputView::Text(processed_text(m.pending, t));
                let outs = if m.seen {
                    seq![shown]
                } else {
                    seq![OutputView::ResponseLabel, shown]
                };
                (
                    EngineView { seen: true, pending: buffer_after(m.pending, t), ..m },
                    outs,
                    Status::Streaming,
                )
            }
        },
        EventView::StreamEnd => (stopped(m), seq![OutputView::Idle], Status::Completed),
        EventView::ProviderError(msg) => (
            stopped(m),
            seq![
                OutputView::Error("Received an error message from OpenAI: "@ + msg),
                OutputView::Idle,
            ],
            Status::Failed,
        ),
        EventView::NoChoices(d) => (
            stopped(m),
            seq![
                OutputView::Error("Response didn't contain 'choices': "@ + d),
                OutputView::Idle,
            ],
            Status::Failed,
        ),
        EventView::BadPayload(msg) => (
            stopped(m),
            seq![OutputView::Error(msg), OutputView::Idle],
            Status::Failed,
        ),
        EventView::BadBytes => (
            stopped(m),
            seq![OutputView::Error("Response was not decodable text"@), OutputView::Idle],
            Status::Failed,
        ),
        EventView::Unstructured(line) => {
            if !m.seen {
                if retry_allowed(error_kind_of(line), m.attempt) {
                    (m, seq![OutputView::RetryNotice(m.attempt)], Status::Retrying)
                } else {
                    (
                        stopped(m),
                        seq![
                            OutputView::Error("Response didn't contain 'data': "@ + line),
                            OutputView::Idle,
                        ],
                        Status::Failed,
                    )
                }
            } else {
                (
                    stopped(m),
                    seq![
                        OutputView::Error("Response didn't contain 'data:': "@ + line),
                        OutputView::Idle,
                    ],
                    Status::Failed,
                )
            }
        },
    }
}

/// Folds `step` over a sequence of events, evaluating the cancellation
/// checkpoint with the matching abort flag after each streaming step, and
/// stopping at the first event or abort that concludes the attempt.  A
/// missing abort flag counts as not aborted.
pub open spec fn run_steps(m: EngineView, events: Seq<EventView>, aborts: Seq<bool>) -> (
    EngineView,
    Seq<OutputView>,
    Status,
)
    decreases events.len(),
{
    if events.len() == 0 {
        (m, Seq::empty(), Status::Streaming)
    } else {
        let first = step(m, events[0]);
        if !(first.2 is Streaming) {
            first
        } else {
            let ab = if aborts.len() > 0 {
                aborts[0]
            } else {
                false
            };
            let atail = if aborts.len() > 0 {
                aborts.drop_first()
            } else {
                aborts
            };
            if ab {
                (stopped(first.0), first.1 + seq![OutputView::Idle], Status::Completed)
            } else {
                let rest = run_steps(first.0, events.drop_first(), atail);
                (rest.0, first.1 + rest.1, rest.2)
            }
        }
    }
}

/// Processing a whole chunk: `run_steps` over the events of the frames the
/// bytes complete.
pub open spec fn chunk_run(m: EngineView, bytes: Seq<u8>, aborts: Seq<bool>) -> (
    EngineView,
    Seq<OutputView>,
    Status,
) {
    run_steps(m, frames_of(bytes).map_values(|f: Seq<u8>| event_spec(f)), aborts)
}

proof fn lemma_run_steps_append(
    m: EngineView,
    e1: Seq<EventView>,
    e2: Seq<EventView>,
    a1: Seq<bool>,
    a2: Seq<bool>,
)
    requires
        a1.len() == e1.len(),
        run_steps(m, e1, a1).2 is Streaming,
    ensures
        run_steps(m, e1 + e2, a1 + a2) == ({
            let first = run_steps(m, e1, a1);
            let rest = run_steps(first.0, e2, a2);
            (rest.0, first.1 + rest.1, rest.2)
        }),
    decreases e1.len(),
{
    if e1.len() == 0 {
        assert(e1 + e2 =~= e2);
        assert(a1 + a2 =~= a2);
        assert(run_steps(m, e1, a1) == (m, Seq::<OutputView>::empty(), Status::Streaming));
        assert(Seq::<OutputView>::empty() + run_steps(m, e2, a2).1 =~= run_steps(m, e2, a2).1);
    } else {
        let s1 = step(m, e1[0]);
        assert(s1.2 is Streaming);
        assert(a1[0] == false);
        assert((e1 + e2)[0] == e1[0]);
        assert((e1 + e2).drop_first() =~= e1.drop_first() + e2);
        assert((a1 + a2)[0] == false);
        assert((a1 + a2).drop_first() =~= a1.drop_first() + a2);
        lemma_run_steps_append(s1.0, e1.drop_first(), e2, a1.drop_first(), a2);
        let mid = run_steps(s1.0, e1.drop_first(), a1.drop_first());
        let rest = run_steps(mid.0, e2, a2);
        assert(s1.1 + (mid.1 + rest.1) =~= (s1.1 + mid.1) + rest.1);
    }
}

/// The state machine for one request attempt.
pub struct Engine {
    running: bool,
    had_first_success: bool,
    print_buffer: Vec<String>,
    frames: FrameBuffer,
    count: i64,
}

impl Engine {
    /// Whether this attempt is still streaming.
    pub closed spec fn is_streaming(&self) -> bool {
        self.running
    }

    /// Whether any non-empty content delta has been emitted in this attempt.
    pub closed spec fn seen_content(&self) -> bool {
        self.had_first_success
    }

    /// The pending fragments still waiting for the second half of a split
    /// escape.
    pub closed spec fn pending_text(&self) -> Seq<Seq<char>> {
        self.print_buffer.deep_view()
    }

    /// Every body byte fed in so far.
    pub closed spec fn fed(&self) -> Seq<u8> {
        self.frames.fed()
    }

    /// The body bytes still waiting for a frame delimiter.
    pub closed spec fn pending_bytes(&self) -> Seq<u8> {
        self.frames.pending()
    }

    /// This attempt's number, starting at 1.
    pub closed spec fn attempt(&self) -> i64 {
        self.count
    }

    /// The engine's abstract state.
    pub closed spec fn model(&self) -> EngineView {
        EngineView {
            running: self.running,
            seen: self.had_first_success,
            pending: self.print_buffer.deep_view(),
            attempt: self.count,
        }
    }

    /// The frame buffer holds exactly the undelimited tail of the bytes fed.
    pub closed spec fn wf(&self) -> bool {
        self.frames.wf()
    }

    /// A fresh attempt with the given attempt number: streaming, nothing
    /// seen, nothing buffered.
    pub fn new(count: i64) -> (e: Engine)
        ensures
            e.wf(),
            e.is_streaming(),
            !e.seen_content(),
            e.pending_text() == Seq::<Seq<char>>::empty(),
            e.fed() == Seq::<u8>::empty(),
            e.pending_bytes() == Seq::<u8>::empty(),
            e.attempt() == count,
            e.model() == (EngineView {
                running: true,
                seen: false,
                pending: Seq::empty(),
                attempt: count,
            }),
    {
        let e = Engine {
            running: true,
            had_first_success: false,
            print_buffer: Vec::new(),
            frames: FrameBuffer::new(),
            count,
        };
        proof {
            assert(e.print_buffer.deep_view() =~~= Seq::<Seq<char>>::empty());
        }
        e
    }

    /// Applies one decoded event, exactly as `step` says: prints content,
    /// surfaces errors, consults the retry policy on a first unstructured
    /// line, and reports where the attempt stands.
    pub fn on_event(&mut self, ev: Event) -> (r: (Vec<Output>, Status))
        requires
            old(self).is_streaming(),
        ensures
            final(self).wf() == old(self).wf(),
            final(self).fed() == old(self).fed(),
            final(self).pending_bytes() == old(self).pending_bytes(),
            final(self).attempt() == old(self).attempt(),
            final(self).is_streaming() == (r.1 is Streaming || r.1 is Retrying),
            ({
                let s = step(old(self).model(), view_of_event(ev));
                &&& final(self).model() == s.0
                &&& outputs_view(r.0@) == s.1
                &&& r.1 == s.2
            }),
            r.1 is Completed || r.1 is Failed ==> r.0@.len() > 0 && r.0@.last() is Idle,
            r.1 is Retrying ==> r.0@.len() == 1 && (r.0@[0] matches Output::RetryNotice(c) && c
                == old(self).attempt()),
            r.1 is Streaming ==> forall|j: int| 0 <= j < r.0@.len() ==> !(r.0@[j] is Idle),
            forall|j: int| 0 <= j < r.0@.len() - 1 ==> !(r.0@[j] is Idle),
    {
        let mut outs: Vec<Output> = Vec::new();
        proof {
            assert(outputs_view(outs@) =~= Seq::<OutputView>::empty());
        }
        match ev {
            Event::Ignored => (outs, Status::Streaming),
            Event::Content(text) => {
                if text.as_str().is_empty() {
                    (outs, Status::Streaming)
                } else {
                    let processed = post_process(&mut self.print_buffer, text.as_str());
                    if !self.had_first_success {
                        self.had_first_success = true;
                        outs.push(Output::ResponseLabel);
                    }
                    outs.push(Output::Text(processed));
                    proof {
                        assert(outputs_view(outs@) =~= step(
                            old(self).model(),
                            view_of_event(ev),
                        ).1);
                    }
                    (outs, Status::Streaming)
                }
            },
            Event::StreamEnd => {
                self.running = false;
                outs.push(Output::Idle);
                proof {
                    assert(outputs_view(outs@) =~= seq![OutputView::Idle]);
                }
                (outs, Status::Completed)
            },
            Event::ProviderError(msg) => {
                self.running = false;
                let m = String::from_str("Received an error message from OpenAI: ").concat(
                    msg.as_str(),
                );
                outs.push(Output::Error(m));
                outs.push(Output::Idle);
                proof {
                    assert(outputs_view(outs@) =~= step(old(self).model(), view_of_event(ev)).1);
                }
                (outs, Status::Failed)
            },
            Event::NoChoices(data) => {
                self.running = false;
                let m = String::from_str("Response didn't contain 'choices': ").concat(
                    data.as_str(),
                );
                outs.push(Output::Error(m));
                outs.push(Output::Idle);
                proof {
                    assert(outputs_view(outs@) =~= step(old(self).model(), view_of_event(ev)).1);
                }
                (outs, Status::Failed)
            },
            Event::BadPayload(msg) => {
                self.running = false;
                outs.push(Output::Error(msg));
                outs.push(Output::Idle);
                proof {
                    assert(outputs_view(outs@) =~= step(old(self).model(), view_of_event(ev)).1);
                }
                (outs, Status::Failed)
            },
            Event::BadBytes => {
                self.running = false;
                outs.push(Output::Error(String::from_str("Response was not decodable text")));
                outs.push(Output::Idle);
                proof {
                    assert(outputs_view(outs@) =~= step(old(self).model(), view_of_event(ev)).1);
                }
                (outs, Status::Failed)
            },
            Event::Unstructured(line) => {
                if !self.had_first_success {
                    if should_retry(line.as_str(), self.count) {
                        outs.push(Output::RetryNotice(self.count));
                        proof {
                            assert(outputs_view(outs@) =~= step(
                                old(self).model(),
                                view_of_event(ev),
                            ).1);
                        }
                        (outs, Status::Retrying)
                    } else {
                        self.running = false;
                        let m = String::from_str("Response didn't contain 'data': ").concat(
                            line.as_str(),
                        );
                        outs.push(Output::Error(m));
                        outs.push(Output::Idle);
                        proof {
                            assert(outputs_view(outs@) =~= step(
                                old(self).model(),
                                view_of_event(ev),
                            ).1);
                        }
                        (outs, Status::Failed)
                    }
                } else {
                    self.running = false;
                    let m = String::from_str("Response didn't contain 'data:': ").concat(
                        line.as_str(),
                    );
                    outs.push(Output::Error(m));
                    outs.push(Output::Idle);
                    proof {
                        assert(outputs_view(outs@) =~= step(
                            old(self).model(),
                            view_of_event(ev),
                        ).1);
                    }
                    (outs, Status::Failed)
                }
            },
        }
    }

    /// The cooperative cancellation checkpoint, evaluated once per decoded
    /// event: when the abort flag was observed, printing halts here, the
    /// attempt concludes, and the idle indicator is shown; the run flag is
    /// cleared and nothing is thrown.
    pub fn abort_checkpoint(&mut self, abort: bool) -> (r: (Vec<Output>, Status))
        requires
            old(self).is_streaming(),
        ensures
            final(self).wf() == old(self).wf(),
            final(self).fed() == old(self).fed(),
            final(self).pending_bytes() == old(self).pending_bytes(),
            final(self).attempt() == old(self).attempt(),
            final(self).model() == if abort {
                stopped(old(self).model())
            } else {
                old(self).model()
            },
            abort ==> {
                &&& r.0@.len() == 1
                &&& r.0@[0] is Idle
                &&& r.1 is Completed
                &&& !final(self).is_streaming()
            },
            !abort ==> r.0@.len() == 0 && r.1 is Streaming && *final(self) == *old(self),
    {
        let mut outs: Vec<Output> = Vec::new();
        if abort {
            self.running = false;
            outs.push(Output::Idle);
            (outs, Status::Completed)
        } else {
            (outs, Status::Streaming)
        }
    }

    /// Feeds one network chunk through the reassembler and applies every
    /// completed frame's event in order, evaluating the cancellation
    /// checkpoint after each one; stops at the first event that concludes
    /// the attempt.  The result equals `chunk_run` of the buffered bytes
    /// plus the chunk, for the abort flags that were observed; the run-state
    /// handle mirrors the engine's running flag for the foreground loop.
    #[verifier::loop_isolation(false)]
    pub fn on_chunk(&mut self, chunk: &[u8], run: &RunState) -> (r: (Vec<Output>, Status))
        requires
            old(self).wf(),
            old(self).is_streaming(),
        ensures
            final(self).wf(),
            final(self).fed() == old(self).fed() + chunk@,
            final(self).attempt() == old(self).attempt(),
            final(self).is_streaming() == (r.1 is Streaming || r.1 is Retrying),
            r.1 is Retrying ==> old(self).attempt() < MAX_TRIES,
            r.1 is Completed || r.1 is Failed ==> r.0@.len() > 0 && r.0@.last() is Idle,
            r.1 is Retrying ==> r.0@.len() > 0 && (r.0@.last() matches Output::RetryNotice(c) && c
                == old(self).attempt()),
            forall|i: int| 0 <= i < r.0@.len() - 1 ==> !(r.0@[i] is Idle),
            exists|aborts: Seq<bool>|
                {
                    let res = #[trigger] chunk_run(
                        old(self).model(),
                        old(self).pending_bytes() + chunk@,
                        aborts,
                    );
                    &&& final(self).model() == res.0
                    &&& outputs_view(r.0@) == res.1
                    &&& r.1 == res.2
                },
    {
        let ghost m0 = old(self).model();
        let ghost stream = old(self).pending_bytes() + chunk@;
        let frames = self.frames.push_chunk(chunk);
        let ghost events = frames.deep_view().map_values(|f: Seq<u8>| event_spec(f));
        let ghost mut acc: Seq<bool> = Seq::empty();
        proof {
            assert(self.model() == m0);
            assert(events.take(0) =~= Seq::<EventView>::empty());
        }
        let mut outs: Vec<Output> = Vec::new();
        let mut i: usize = 0;
        proof {
            assert(outputs_view(outs@) =~= Seq::<OutputView>::empty());
        }
        while i < frames.len()
            invariant
                self.wf(),
                self.is_streaming(),
                self.fed() == old(self).fed() + chunk@,
                self.attempt() == old(self).attempt(),
                i <= frames@.len(),
                acc.len() == i as int,
                forall|k: int| 0 <= k < outs@.len() ==> !(outs@[k] is Idle),
                run_steps(m0, events.take(i as int), acc) == (
                    self.model(),
                    outputs_view(outs@),
                    Status::Streaming,
                ),
            decreases frames@.len() - i,
        {
            let ghost pre = self.model();
            let ghost outs_pre = outs@;
            proof {
                assert(frames.deep_view()[i as int] =~= frames@[i as int]@);
                assert(events[i as int] == event_spec(frames@[i as int]@));
            }
            let ev = decode_frame(frames[i].as_slice());
            let (mut step_out, status) = self.on_event(ev);
            let ghost s = step(pre, events[i as int]);
            outs.append(&mut step_out);
            proof {
                assert(outputs_view(outs@) =~= outputs_view(outs_pre) + s.1);
            }
            match status {
                Status::Streaming => {},
                _ => {
                    proof {
                        lemma_run_steps_append(m0, events.take(i as int), events.skip(i as int),
                            acc, Seq::empty());
                        assert(events.take(i as int) + events.skip(i as int) =~= events);
                        assert(acc + Seq::<bool>::empty() =~= acc);
                        assert(events.skip(i as int)[0] == events[i as int]);
                        assert(run_steps(pre, events.skip(i as int), Seq::empty()) == s);
                        assert(run_steps(m0, events, acc) == (
                            self.model(),
                            outputs_view(outs_pre) + s.1,
                            s.2,
                        ));
                        assert(chunk_run(m0, stream, acc) == (
                            self.model(),
                            outputs_view(outs@),
                            status,
                        ));
                    }
                    if !self.running {
                        run.set_running(false);
                    }
                    return (outs, status);
                },
            }
            let aborted = run.take_abort();
            let ghost mid = self.model();
            let (mut abort_out, status) = self.abort_checkpoint(aborted);
            outs.append(&mut abort_out);
            if aborted {
                proof {
                    lemma_run_steps_append(m0, events.take(i as int), events.skip(i as int), acc,
                        seq![true]);
                    assert(events.take(i as int) + events.skip(i as int) =~= events);
                    assert(acc + seq![true] =~= acc.push(true));
                    assert(events.skip(i as int)[0] == events[i as int]);
                    assert(run_steps(pre, events.skip(i as int), seq![true]) == (
                        stopped(s.0),
                        s.1 + seq![OutputView::Idle],
                        Status::Completed,
                    ));
                    assert(outputs_view(outs@) =~= (outputs_view(outs_pre) + s.1) + seq![
                        OutputView::Idle,
                    ]);
                    assert(outputs_view(outs_pre) + (s.1 + seq![OutputView::Idle])
                        =~= (outputs_view(outs_pre) + s.1) + seq![OutputView::Idle]);
                    assert(run_steps(m0, events, acc.push(true)) == (
                        self.model(),
                        outputs_view(outs@),
                        Status::Completed,
                    ));
                    assert(chunk_run(m0, stream, acc.push(true)) == (
                        self.model(),
                        outputs_view(outs@),
                        Status::Completed,
                    ));
                }
                run.set_running(false);
                return (outs, Status::Completed);
            }
            proof {
                lemma_run_steps_append(m0, events.take(i as int), seq![events[i as int]], acc,
                    seq![false]);
                assert(events.take(i as int) + seq![events[i as int]] =~= events.take(
                    i as int + 1,
                ));
                assert(acc + seq![false] =~= acc.push(false));
                assert(seq![events[i as int]][0] == events[i as int]);
                assert(seq![events[i as int]].drop_first() =~= Seq::<EventView>::empty());
                assert(seq![false][0] == false);
                assert(seq![false].drop_first() =~= Seq::<bool>::empty());
                assert(run_steps(mid, Seq::<EventView>::empty(), Seq::<bool>::empty()) == (
                    mid,
                    Seq::<OutputView>::empty(),
                    Status::Streaming,
                ));
                assert(run_steps(pre, seq![events[i as int]], seq![false]) == (
                    mid,
                    s.1 + Seq::<OutputView>::empty(),
                    Status::Streaming,
                ));
                assert(s.1 + Seq::<OutputView>::empty() =~= s.1);
                assert(run_steps(m0, events.take(i as int + 1), acc.push(false)) == (
                    mid,
                    outputs_view(outs@),
                    Status::Streaming,
                ));
                acc = acc.push(false);
            }
            i = i + 1;
        }
        proof {
            assert(events.take(frames@.len() as int) =~= events);
            assert(chunk_run(m0, stream, acc) == (
                self.model(),
                outputs_view(outs@),
                Status::Streaming,
            ));
        }
        (outs, Status::Streaming)
    }

    /// The chunk source is exhausted with no further data: the attempt
    /// completes, the run flag is cleared, and the idle indicator is shown.
    pub fn on_stream_end(&mut self, run: &RunState) -> (r: (Vec<Output>, Status))
        requires
            old(self).is_streaming(),
        ensures
            final(self).wf() == old(self).wf(),
            final(self).model() == stopped(old(self).model()),
            !final(self).is_streaming(),
            r.0@.len() == 1 && r.0@[0] is Idle && r.1 is Completed,
    {
        self.running = false;
        run.set_running(false);
        let mut outs: Vec<Output> = Vec::new();
        outs.push(Output::Idle);
        (outs, Status::Completed)
    }

    /// The network call itself failed before any data arrived: fatal for
    /// this prompt, no retry; the message is surfaced and the run flag
    /// cleared.
    pub fn on_connect_error(&mut self, message: String, run: &RunState) -> (r: (
        Vec<Output>,
        Status,
    ))
        requires
            old(self).is_streaming(),
        ensures
            final(self).wf() == old(self).wf(),
            final(self).model() == stopped(old(self).model()),
            !final(self).is_streaming(),
            r.0@.len() == 2,
            (r.0@[0] matches Output::Error(m) && m@ == message@),
            r.0@[1] is Idle,
            r.1 is Failed,
    {
        self.running = false;
        run.set_running(false);
        let mut outs: Vec<Output> = Vec::new();
        outs.push(Output::Error(message));
        outs.push(Output::Idle);
        (outs, Status::Failed)
    }
}

/// The worker's continuation for one finished attempt: resubmit the same
/// prompt with the next attempt number after a retry signal, move on to the
/// next prompt otherwise.
pub fn next_attempt(status: Status, count: i64) -> (r: Option<i64>)
    requires
        count < i64::MAX,
    ensures
        status is Retrying ==> (r matches Some(next) && next == count + 1),
        !(status is Retrying) ==> r is None,
{
    match status {
        Status::Retrying => Some(count + 1),
        _ => None,
    }
}

/// Processing a sequence of chunks one after another without interruption
/// (empty abort flags: the checkpoint never fires): each chunk joins the
/// buffered remainder, its completed frames run through `chunk_run`, and the
/// new remainder stays for the next chunk; processing stops at the first
/// chunk whose events conclude the attempt.  Mirrors repeated calls of
/// `on_chunk` with the abort flag never observed set.
pub open spec fn feed_chunks(m: EngineView, pending: Seq<u8>, chunks: Seq<Seq<u8>>) -> (
    EngineView,
    Seq<u8>,
    Seq<OutputView>,
    Status,
)
    decreases chunks.len(),
{
    if chunks.len() == 0 {
        (m, pending, Seq::empty(), Status::Streaming)
    } else {
        let stream = pending + chunks[0];
        let res = chunk_run(m, stream, Seq::empty());
        if !(res.2 is Streaming) {
            (res.0, rest_of(stream), res.1, res.2)
        } else {
            let later = feed_chunks(res.0, rest_of(stream), chunks.drop_first());
            (later.0, later.1, res.1 + later.2, later.3)
        }
    }
}

proof fn lemma_map_event_spec_append(a: Seq<Seq<u8>>, b: Seq<Seq<u8>>)
    ensures
        (a + b).map_values(|f: Seq<u8>| event_spec(f)) == a.map_values(|f: Seq<u8>| event_spec(f))
            + b.map_values(|f: Seq<u8>| event_spec(f)),
{
    assert((a + b).map_values(|f: Seq<u8>| event_spec(f)) =~= a.map_values(
        |f: Seq<u8>| event_spec(f),
    ) + b.map_values(|f: Seq<u8>| event_spec(f)));
}

proof fn lemma_run_steps_append_noabort(m: EngineView, e1: Seq<EventView>, e2: Seq<EventView>)
    requires
        run_steps(m, e1, Seq::empty()).2 is Streaming,
    ensures
        run_steps(m, e1 + e2, Seq::empty()) == ({
            let first = run_steps(m, e1, Seq::empty());
            let rest = run_steps(first.0, e2, Seq::empty());
            (rest.0, first.1 + rest.1, rest.2)
        }),
    decreases e1.len(),
{
    let a = Seq::<bool>::empty();
    if e1.len() == 0 {
        assert(e1 + e2 =~= e2);
        assert(run_steps(m, e1, a) == (m, Seq::<OutputView>::empty(), Status::Streaming));
        assert(Seq::<OutputView>::empty() + run_steps(m, e2, a).1 =~= run_steps(m, e2, a).1);
    } else {
        let s1 = step(m, e1[0]);
        assert(s1.2 is Streaming);
        assert((e1 + e2)[0] == e1[0]);
        assert((e1 + e2).drop_first() =~= e1.drop_first() + e2);
        lemma_run_steps_append_noabort(s1.0, e1.drop_first(), e2);
        let mid = run_steps(s1.0, e1.drop_first(), a);
        let rest = run_steps(mid.0, e2, a);
        assert(s1.1 + (mid.1 + rest.1) =~= (s1.1 + mid.1) + rest.1);
    }
}

proof fn lemma_run_steps_stopped_noabort(m: EngineView, e1: Seq<EventView>, e2: Seq<EventView>)
    requires
        !(run_steps(m, e1, Seq::empty()).2 is Streaming),
    ensures
        run_steps(m, e1 + e2, Seq::empty()) == run_steps(m, e1, Seq::empty()),
    decreases e1.len(),
{
    let a = Seq::<bool>::empty();
    assert(e1.len() > 0);
    let s1 = step(m, e1[0]);
    assert((e1 + e2)[0] == e1[0]);
    if !(s1.2 is Streaming) {
    } else {
        assert((e1 + e2).drop_first() =~= e1.drop_first() + e2);
        assert(!(run_steps(s1.0, e1.drop_first(), a).2 is Streaming));
        lemma_run_steps_stopped_noabort(s1.0, e1.drop_first(), e2);
        let mid = run_steps(s1.0, e1.drop_first(), a);
        assert(s1.1 + run_steps(s1.0, e1.drop_first() + e2, a).1 =~= s1.1 + mid.1);
    }
}

/// The displayed output is fragmentation-invariant: an uninterrupted run
/// over any chunking of a byte stream shows exactly the outputs of the run
/// over the whole stream's frames, ends in the same state and status, and so
/// depends only on the concatenation of the chunks, never on where they were
/// split.
pub proof fn lemma_display_fragmentation_invariant(
    m: EngineView,
    pending: Seq<u8>,
    chunks: Seq<Seq<u8>>,
)
    requires
        first_delim(pending) == -1,
    ensures
        ({
            let whole = chunk_run(m, pending + chunks.flatten(), Seq::empty());
            let fed = feed_chunks(m, pending, chunks);
            &&& fed.0 == whole.0
            &&& fed.2 == whole.1
            &&& fed.3 == whole.2
        }),
    decreases chunks.len(),
{
    if chunks.len() == 0 {
        assert(chunks.flatten() =~= Seq::<u8>::empty());
        assert(pending + chunks.flatten() =~= pending);
        assert(frames_of(pending) =~= Seq::<Seq<u8>>::empty());
        assert(frames_of(pending).map_values(|f: Seq<u8>| event_spec(f))
            =~= Seq::<EventView>::empty());
    } else {
        let c0 = chunks[0];
        let flat_rest = chunks.drop_first().flatten();
        let stream0 = pending + c0;
        let rest0 = rest_of(stream0);
        assert(chunks.flatten() == c0 + flat_rest);
        assert(pending + chunks.flatten() =~= stream0 + flat_rest);
        lemma_split_append(stream0, flat_rest);
        lemma_rest_has_no_delim(stream0);
        let f1 = frames_of(stream0);
        let f2 = frames_of(rest0 + flat_rest);
        assert(frames_of(stream0 + flat_rest) == f1 + f2);
        lemma_map_event_spec_append(f1, f2);
        let e1 = f1.map_values(|f: Seq<u8>| event_spec(f));
        let e2 = f2.map_values(|f: Seq<u8>| event_spec(f));
        let res = chunk_run(m, stream0, Seq::empty());
        if !(res.2 is Streaming) {
            lemma_run_steps_stopped_noabort(m, e1, e2);
        } else {
            lemma_run_steps_append_noabort(m, e1, e2);
            lemma_display_fragmentation_invariant(res.0, rest0, chunks.drop_first());
        }
    }
}

} // verus!
