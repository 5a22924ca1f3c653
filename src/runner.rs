use vstd::prelude::*;

use crate::header::HeaderErrorView;
use crate::request::RunError;

verus! {

/// Where an invocation stands once its request has been assembled.
#[derive(Clone, Copy, Debug, PartialEq, Eq, Structural)]
pub enum Phase {
    /// The request was handed to the transport; no response yet.
    RequestSent,
    /// The response came; the next body chunk is awaited.
    StreamingBody,
    /// A chunk was handed to the output sink; its write is awaited.
    Writing,
    /// The whole body was written.
    Done,
    /// The invocation failed.
    Failed,
}

/// What the transport or the output sink reports.
#[derive(Clone, Debug, PartialEq, Eq)]
pub enum RunEvent {
    /// Response headers arrived, with this status.
    Responded(u16),
    /// The next chunk of the body.
    Chunk(Vec<u8>),
    /// The body has no more chunks.
    BodyEnd,
    /// The last chunk was written.
    Written,
    /// The transport failed.
    TransportError(String),
    /// The output sink refused a write.
    WriteError(String),
}

/// What is to be done next.
#[derive(Debug, PartialEq, Eq)]
pub enum RunAction {
    /// Ask the transport for the next chunk of the body.
    PullChunk,
    /// Write these bytes to the output sink.
    Write(Vec<u8>),
    /// Stop with this outcome.
    Finish(Result<(), RunError>),
}

pub enum EventView {
    Responded(u16),
    Chunk(Seq<u8>),
    BodyEnd,
    Written,
    TransportError(Seq<char>),
    WriteError(Seq<char>),
}

pub enum RunErrorView {
    HeaderInvalid(HeaderErrorView),
    TransportFailed(Seq<char>),
    OutputFailed(Seq<char>),
}

pub enum ActionView {
    PullChunk,
    Write(Seq<u8>),
    Finish(Result<(), RunErrorView>),
}

impl View for RunEvent {
    type V = EventView;

    open spec fn view(&self) -> EventView {
        match self {
            RunEvent::Responded(s) => EventView::Responded(*s),
            RunEvent::Chunk(b) => EventView::Chunk(b@),
            RunEvent::BodyEnd => EventView::BodyEnd,
            RunEvent::Written => EventView::Written,
            RunEvent::TransportError(m) => EventView::TransportError(m@),
            RunEvent::WriteError(m) => EventView::WriteError(m@),
        }
    }
}

impl View for RunError {
    type V = RunErrorView;

    open spec fn view(&self) -> RunErrorView {
        match self {
            RunError::HeaderInvalid(e) => RunErrorView::HeaderInvalid(e@),
            RunError::TransportFailed(m) => RunErrorView::TransportFailed(m@),
            RunError::OutputFailed(m) => RunErrorView::OutputFailed(m@),
        }
    }
}

impl View for RunAction {
    type V = ActionView;

    open spec fn view(&self) -> ActionView {
        match self {
            RunAction::PullChunk => ActionView::PullChunk,
            RunAction::Write(b) => ActionView::Write(b@),
            RunAction::Finish(Ok(())) => ActionView::Finish(Ok(())),
            RunAction::Finish(Err(e)) => ActionView::Finish(Err(e@)),
        }
    }
}

/// The events that can come in phase `p`.
pub open spec fn accepts(p: Phase, e: EventView) -> bool {
    match (p, e) {
        (Phase::RequestSent, EventView::Responded(_)) => true,
        (Phase::RequestSent, EventView::TransportError(_)) => true,
        (Phase::StreamingBody, EventView::Chunk(_)) => true,
        (Phase::StreamingBody, EventView::BodyEnd) => true,
        (Phase::StreamingBody, EventView::TransportError(_)) => true,
        (Phase::Writing, EventView::Written) => true,
        (Phase::Writing, EventView::WriteError(_)) => true,
        _ => false,
    }
}

/// The next phase and the action, for an event that phase `p` accepts. The
/// response status is not looked at.
pub open spec fn next(p: Phase, e: EventView) -> (Phase, ActionView) {
    match e {
        EventView::Responded(_) => (Phase::StreamingBody, ActionView::PullChunk),
        EventView::Chunk(b) => (Phase::Writing, ActionView::Write(b)),
        EventView::BodyEnd => (Phase::Done, ActionView::Finish(Ok(()))),
        EventView::Written => (Phase::StreamingBody, ActionView::PullChunk),
        EventView::TransportError(m) => (
            Phase::Failed,
            ActionView::Finish(Err(RunErrorView::TransportFailed(m))),
        ),
        EventView::WriteError(m) => (
            Phase::Failed,
            ActionView::Finish(Err(RunErrorView::OutputFailed(m))),
        ),
    }
}

/// Whether phase `phase` accepts event `event`: the condition for `step`.
pub fn accepts_event(phase: Phase, event: &RunEvent) -> (r: bool)
    ensures
        r == accepts(phase, event@),
{
    match (phase, event) {
        (Phase::RequestSent, RunEvent::Responded(_)) => true,
        (Phase::RequestSent, RunEvent::TransportError(_)) => true,
        (Phase::StreamingBody, RunEvent::Chunk(_)) => true,
        (Phase::StreamingBody, RunEvent::BodyEnd) => true,
        (Phase::StreamingBody, RunEvent::TransportError(_)) => true,
        (Phase::Writing, RunEvent::Written) => true,
        (Phase::Writing, RunEvent::WriteError(_)) => true,
        _ => false,
    }
}

/// Decides what follows event `event` in phase `phase`.
pub fn step(phase: Phase, event: RunEvent) -> (r: (Phase, RunAction))
    requires
        accepts(phase, event@),
    ensures
        r.0 == next(phase, event@).0,
        r.1@ == next(phase, event@).1,
{
    match event {
        RunEvent::Responded(_) => (Phase::StreamingBody, RunAction::PullChunk),
        RunEvent::Chunk(b) => (Phase::Writing, RunAction::Write(b)),
        RunEvent::BodyEnd => (Phase::Done, RunAction::Finish(Ok(()))),
        RunEvent::Written => (Phase::StreamingBody, RunAction::PullChunk),
        RunEvent::TransportError(m) => (
            Phase::Failed,
            RunAction::Finish(Err(RunError::TransportFailed(m))),
        ),
        RunEvent::WriteError(m) => (
            Phase::Failed,
            RunAction::Finish(Err(RunError::OutputFailed(m))),
        ),
    }
}

/// Each event of `es`, fed in order from phase `p`, is accepted.
pub open spec fn all_accepted(p: Phase, es: Seq<EventView>) -> bool
    decreases es.len(),
{
    if es.len() == 0 {
        true
    } else {
        all_accepted(p, es.drop_last()) && accepts(drive(p, es.drop_last()).0, es.last())
    }
}

/// The phase reached and the actions decided when the events `es` are fed in
/// order from phase `p`.
pub open spec fn drive(p: Phase, es: Seq<EventView>) -> (Phase, Seq<ActionView>)
    decreases es.len(),
{
    if es.len() == 0 {
        (p, Seq::empty())
    } else {
        let (q, acts) = drive(p, es.drop_last());
        let (q2, a) = next(q, es.last());
        (q2, acts.push(a))
    }
}

/// The bytes that the actions `acts` write, in order.
pub open spec fn written(acts: Seq<ActionView>) -> Seq<u8>
    decreases acts.len(),
{
    if acts.len() == 0 {
        Seq::empty()
    } else {
        match acts.last() {
            ActionView::Write(b) => written(acts.drop_last()) + b,
            _ => written(acts.drop_last()),
        }
    }
}

/// The chunks `cs` one after the other.
pub open spec fn concat_chunks(cs: Seq<Seq<u8>>) -> Seq<u8>
    decreases cs.len(),
{
    if cs.len() == 0 {
        Seq::empty()
    } else {
        concat_chunks(cs.drop_last()) + cs.last()
    }
}

/// A response with status `status` whose body comes as the chunks `cs`, each
/// written without fault, then the end of the body.
pub open spec fn body_events(status: u16, cs: Seq<Seq<u8>>) -> Seq<EventView>
    decreases cs.len(),
{
    if cs.len() == 0 {
        seq![EventView::Responded(status)]
    } else {
        body_events(status, cs.drop_last()).push(EventView::Chunk(cs.last())).push(
            EventView::Written,
        )
    }
}

proof fn lemma_body_events(status: u16, cs: Seq<Seq<u8>>)
    ensures
        all_accepted(Phase::RequestSent, body_events(status, cs)),
        drive(Phase::RequestSent, body_events(status, cs)).0 == Phase::StreamingBody,
        written(drive(Phase::RequestSent, body_events(status, cs)).1) == concat_chunks(cs),
        forall|i: int|
            0 <= i < drive(Phase::RequestSent, body_events(status, cs)).1.len() ==> !(
            #[trigger] drive(Phase::RequestSent, body_events(status, cs)).1[i] is Finish),
    decreases cs.len(),
{
    let p = Phase::RequestSent;
    if cs.len() == 0 {
        let es = body_events(status, cs);
        let e0 = Seq::<EventView>::empty();
        assert(es.drop_last() =~= e0);
        assert(drive(p, e0) == (p, Seq::<ActionView>::empty()));
        assert(all_accepted(p, e0));
        let acts = drive(p, es).1;
        assert(acts =~= seq![ActionView::PullChunk]);
        assert(acts.drop_last() =~= Seq::<ActionView>::empty());
        assert(written(Seq::<ActionView>::empty()) == Seq::<u8>::empty());
    } else {
        lemma_body_events(status, cs.drop_last());
        let es0 = body_events(status, cs.drop_last());
        let es1 = es0.push(EventView::Chunk(cs.last()));
        let es2 = es1.push(EventView::Written);
        assert(es2.drop_last() =~= es1);
        assert(es1.drop_last() =~= es0);
        let a0 = drive(p, es0).1;
        let a1 = drive(p, es1).1;
        let a2 = drive(p, es2).1;
        assert(a1 == a0.push(ActionView::Write(cs.last())));
        assert(a2 == a1.push(ActionView::PullChunk));
        assert(a2.drop_last() =~= a1);
        assert(a1.drop_last() =~= a0);
        assert(body_events(status, cs) == es2);
        assert(all_accepted(p, es1));
        assert(all_accepted(p, es2));
        assert(written(a1) == written(a0) + cs.last());
        assert(written(a2) == written(a1));
        assert(forall|i: int| 0 <= i < a0.len() ==> a2[i] == #[trigger] a0[i]);
    }
}

/// A response whose body comes as any sequence of chunks, each written without
/// fault, is relayed whole: every event is accepted, the output receives the
/// chunks byte for byte and in order, and the invocation ends in success, with
/// no other outcome decided before.
pub proof fn body_relayed_whole(status: u16, cs: Seq<Seq<u8>>)
    ensures
        ({
            let es = body_events(status, cs).push(EventView::BodyEnd);
            let (q, acts) = drive(Phase::RequestSent, es);
            &&& all_accepted(Phase::RequestSent, es)
            &&& q == Phase::Done
            &&& written(acts) == concat_chunks(cs)
            &&& acts.last() == ActionView::Finish(Ok(()))
            &&& forall|i: int| 0 <= i < acts.len() - 1 ==> !(#[trigger] acts[i] is Finish)
        }),
{
    lemma_body_events(status, cs);
    let es0 = body_events(status, cs);
    let es = es0.push(EventView::BodyEnd);
    assert(es.drop_last() =~= es0);
    let acts = drive(Phase::RequestSent, es).1;
    assert(acts.drop_last() =~= drive(Phase::RequestSent, es0).1);
    assert(forall|i: int|
        0 <= i < acts.len() - 1 ==> acts[i] == #[trigger] drive(Phase::RequestSent, es0).1[i]);
}

/// A transport error before any response ends the invocation with
/// `TransportFailed` and nothing written.
pub proof fn transport_error_writes_nothing(m: Seq<char>)
    ensures
        ({
            let es = seq![EventView::TransportError(m)];
            let (q, acts) = drive(Phase::RequestSent, es);
            &&& all_accepted(Phase::RequestSent, es)
            &&& q == Phase::Failed
            &&& written(acts).len() == 0
            &&& acts == seq![ActionView::Finish(Err(RunErrorView::TransportFailed(m)))]
        }),
{
    let es = seq![EventView::TransportError(m)];
    let e0 = Seq::<EventView>::empty();
    assert(es.drop_last() =~= e0);
    assert(drive(Phase::RequestSent, e0) == (Phase::RequestSent, Seq::<ActionView>::empty()));
    assert(all_accepted(Phase::RequestSent, e0));
    assert(written(Seq::<ActionView>::empty()) == Seq::<u8>::empty());
    let acts = drive(Phase::RequestSent, es).1;
    assert(acts =~= seq![ActionView::Finish(Err(RunErrorView::TransportFailed(m)))]);
    assert(acts.drop_last() =~= Seq::<ActionView>::empty());
}

} // verus!
