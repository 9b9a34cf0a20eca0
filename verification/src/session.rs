//! The session with a stateful kernel: the step that takes one message from
//! the event path, the reading of a whole sequence of messages, and the
//! result that a complete submission leaves.

use vstd::prelude::*;
use crate::execution::{ExecutionError, ExecutionResult};
use crate::kernel::{
    append_visible_text, free_of_errors, transcript, ExecutionState, Incoming, KernelEvent,
};
use crate::text::string_of;

verus! {

/// Whether an event correlates to the submission in flight: it does if the
/// request of the submission is not known, or is the parent of the event.
pub open spec fn correlates(request: Option<Seq<char>>, event: KernelEvent) -> bool {
    match request {
        Some(id) => event.parent_id() == id,
        None => true,
    }
}

/// Whether `event`, arriving while the recorded state is `state`, completes
/// the submission of `request`: it is the status `Idle`, the state before it
/// was `Busy`, and it correlates to the submission.
pub open spec fn completes(
    state: ExecutionState,
    request: Option<Seq<char>>,
    event: KernelEvent,
) -> bool {
    &&& state == ExecutionState::Busy
    &&& event matches KernelEvent::Status { state: next, .. }
    &&& next == ExecutionState::Idle
    &&& correlates(request, event)
}

/// The recorded state after `event`: a status event sets it, no other event
/// touches it.
pub open spec fn state_after(state: ExecutionState, event: KernelEvent) -> ExecutionState {
    match event {
        KernelEvent::Status { state: next, .. } => next,
        _ => state,
    }
}

/// What the caller is to do after an event.
#[derive(Clone, Copy, Debug, PartialEq, Eq, Structural)]
pub enum Reaction {
    /// Nothing; read on.
    Continue,
    /// An error arrived and stands last in the buffer: show it now.
    SurfaceError,
    /// The submission is complete; stop reading.
    Complete,
}

/// The reaction to `event` arriving in `state` for the submission of
/// `request`.
pub open spec fn reaction_to(
    state: ExecutionState,
    request: Option<Seq<char>>,
    event: KernelEvent,
) -> Reaction {
    if completes(state, request, event) {
        Reaction::Complete
    } else if event is Error {
        Reaction::SurfaceError
    } else {
        Reaction::Continue
    }
}

/// How the reading of a sequence of messages ended.
#[derive(Clone, Copy, Debug, PartialEq, Eq, Structural)]
pub enum ReadEnd {
    /// The messages ran out before the submission was complete.
    Pending,
    /// A status `Idle` after `Busy` completed the submission.
    Complete,
    /// A message of unexpected shape arrived.
    Violation,
}

/// What reading a sequence of messages comes to.
pub struct Reading {
    /// The recorded state at the end.
    pub state: ExecutionState,
    /// The events that were appended to the buffer, in arrival order.
    pub events: Seq<KernelEvent>,
    /// How many messages were taken, the one that ended the reading included.
    pub taken: nat,
    /// How the reading ended.
    pub end: ReadEnd,
}

/// Reads `messages` from a session whose recorded state is `state`, for the
/// submission of `request`. The reading stops with the first event that
/// completes the submission or with the first message of unexpected shape;
/// what follows is not looked at.
pub open spec fn read(
    state: ExecutionState,
    request: Option<Seq<char>>,
    messages: Seq<Incoming>,
) -> Reading
    decreases messages.len(),
{
    if messages.len() == 0 {
        Reading { state, events: Seq::empty(), taken: 0, end: ReadEnd::Pending }
    } else {
        match messages[0] {
            Incoming::Unexpected => Reading {
                state,
                events: Seq::empty(),
                taken: 1,
                end: ReadEnd::Violation,
            },
            Incoming::Event(event) => if completes(state, request, event) {
                Reading {
                    state: state_after(state, event),
                    events: Seq::empty(),
                    taken: 1,
                    end: ReadEnd::Complete,
                }
            } else {
                let rest = read(state_after(state, event), request, messages.drop_first());
                Reading {
                    state: rest.state,
                    events: if event is Status {
                        rest.events
                    } else {
                        seq![event] + rest.events
                    },
                    taken: rest.taken + 1,
                    end: rest.end,
                }
            },
        }
    }
}

/// The state that is recorded when the message at `index` arrives.
pub open spec fn state_before(state: ExecutionState, messages: Seq<Incoming>, index: int)
    -> ExecutionState
    decreases index,
{
    if index <= 0 {
        state
    } else {
        let earlier = state_before(state, messages, index - 1);
        match messages[index - 1] {
            Incoming::Event(event) => state_after(earlier, event),
            Incoming::Unexpected => earlier,
        }
    }
}

/// The message at `index` is an event that completes the submission.
pub open spec fn fires_at(
    state: ExecutionState,
    request: Option<Seq<char>>,
    messages: Seq<Incoming>,
    index: int,
) -> bool {
    &&& 0 <= index < messages.len()
    &&& messages[index] matches Incoming::Event(event)
    &&& completes(state_before(state, messages, index), request, event)
}

/// The events among `messages` that are no status, in arrival order.
pub open spec fn kept(messages: Seq<Incoming>) -> Seq<KernelEvent>
    decreases messages.len(),
{
    if messages.len() == 0 {
        Seq::empty()
    } else {
        let rest = kept(messages.drop_first());
        match messages[0] {
            Incoming::Event(event) => if event is Status {
                rest
            } else {
                seq![event] + rest
            },
            Incoming::Unexpected => rest,
        }
    }
}

/// What is recorded before a message does not depend on whether the
/// messages are counted from the first or from the second.
proof fn lemma_state_before_shift(state: ExecutionState, messages: Seq<Incoming>, index: int)
    requires
        1 <= index <= messages.len(),
        messages[0] is Event,
    ensures
        state_before(state, messages, index) == state_before(
            state_after(state, messages[0]->Event_0),
            messages.drop_first(),
            index - 1,
        ),
    decreases index,
{
    if index > 1 {
        lemma_state_before_shift(state, messages, index - 1);
        assert(messages.drop_first()[index - 2] == messages[index - 1]);
    } else {
        assert(state_before(state, messages, 0) == state);
    }
}

/// The completion signal fires once, not twice: among the messages that a
/// reading takes, the only one that completes the submission is the last,
/// and it does so exactly when the reading ends as complete.
pub proof fn lemma_completion_fires_once(
    state: ExecutionState,
    request: Option<Seq<char>>,
    messages: Seq<Incoming>,
    index: int,
)
    requires
        0 <= index < read(state, request, messages).taken,
    ensures
        read(state, request, messages).taken <= messages.len(),
        fires_at(state, request, messages, index) <==> (read(state, request, messages).end
            is Complete && index == read(state, request, messages).taken - 1),
    decreases messages.len(),
{
    lemma_read_bounds(state, request, messages);
    match messages[0] {
        Incoming::Unexpected => {},
        Incoming::Event(event) => {
            if !completes(state, request, event) {
                let later = messages.drop_first();
                let next = state_after(state, event);
                lemma_read_bounds(next, request, later);
                if index > 0 {
                    lemma_completion_fires_once(next, request, later, index - 1);
                    lemma_state_before_shift(state, messages, index);
                    assert(later[index - 1] == messages[index]);
                }
            }
        },
    }
}

/// A reading takes no more messages than there are, takes all of them
/// where it ends pending, and takes at least one where it ends otherwise.
pub proof fn lemma_read_bounds(
    state: ExecutionState,
    request: Option<Seq<char>>,
    messages: Seq<Incoming>,
)
    ensures
        read(state, request, messages).taken <= messages.len(),
        read(state, request, messages).end is Pending ==> read(state, request, messages).taken
            == messages.len(),
        !(read(state, request, messages).end is Pending) ==> read(
            state,
            request,
            messages,
        ).taken >= 1,
    decreases messages.len(),
{
    if messages.len() > 0 {
        match messages[0] {
            Incoming::Unexpected => {},
            Incoming::Event(event) => {
                if !completes(state, request, event) {
                    lemma_read_bounds(state_after(state, event), request, messages.drop_first());
                }
            },
        }
    }
}

/// What a reading buffers is exactly what arrived and is no status: every
/// such event among the messages taken, once, in arrival order.
pub proof fn lemma_read_keeps_events(
    state: ExecutionState,
    request: Option<Seq<char>>,
    messages: Seq<Incoming>,
)
    ensures
        read(state, request, messages).taken <= messages.len(),
        read(state, request, messages).events == kept(
            messages.take(read(state, request, messages).taken as int),
        ),
    decreases messages.len(),
{
    lemma_read_bounds(state, request, messages);
    let taken = read(state, request, messages).taken as int;
    if messages.len() == 0 {
        assert(messages.take(0) =~= Seq::<Incoming>::empty());
    } else {
        match messages[0] {
            Incoming::Unexpected => {
                let one = messages.take(1);
                assert(one.drop_first() =~= Seq::<Incoming>::empty());
                assert(kept(one.drop_first()) =~= Seq::<KernelEvent>::empty());
            },
            Incoming::Event(event) => {
                if completes(state, request, event) {
                    let one = messages.take(1);
                    assert(one.drop_first() =~= Seq::<Incoming>::empty());
                    assert(kept(one.drop_first()) =~= Seq::<KernelEvent>::empty());
                } else {
                    let later = messages.drop_first();
                    lemma_read_keeps_events(state_after(state, event), request, later);
                    assert(messages.take(taken).drop_first() =~= later.take(taken - 1));
                }
            },
        }
    }
}

/// Every event among `messages` that is no status is among the kept.
pub proof fn lemma_kept_holds(messages: Seq<Incoming>, index: int)
    requires
        0 <= index < messages.len(),
        messages[index] matches Incoming::Event(event) && !(event is Status),
    ensures
        kept(messages).contains(messages[index]->Event_0),
    decreases messages.len(),
{
    let rest = kept(messages.drop_first());
    if index == 0 {
        let all = seq![messages[0]->Event_0] + rest;
        assert(all[0] == messages[0]->Event_0);
    } else {
        lemma_kept_holds(messages.drop_first(), index - 1);
        assert(messages.drop_first()[index - 1] == messages[index]);
        let wanted = messages[index]->Event_0;
        let at = choose|at: int| 0 <= at < rest.len() && rest[at] == wanted;
        match messages[0] {
            Incoming::Event(event) => {
                if !(event is Status) {
                    let all = seq![event] + rest;
                    assert(all[at + 1] == wanted);
                }
            },
            Incoming::Unexpected => {},
        }
    }
}

/// An error is surfaced wherever it arrives: the reaction to it is to show
/// it, whatever the recorded state, and a reading that takes it buffers it,
/// whatever follows it.
pub proof fn lemma_error_is_surfaced(
    state: ExecutionState,
    request: Option<Seq<char>>,
    messages: Seq<Incoming>,
    index: int,
)
    requires
        0 <= index < read(state, request, messages).taken,
        messages[index] matches Incoming::Event(event) && event is Error,
    ensures
        reaction_to(state_before(state, messages, index), request, messages[index]->Event_0)
            == Reaction::SurfaceError,
        read(state, request, messages).events.contains(messages[index]->Event_0),
{
    lemma_read_keeps_events(state, request, messages);
    let taken = read(state, request, messages).taken as int;
    assert(messages.take(taken)[index] == messages[index]);
    lemma_kept_holds(messages.take(taken), index);
}

/// What a message adds to the buffer.
pub open spec fn kept_of(message: Incoming) -> Seq<KernelEvent> {
    match message {
        Incoming::Event(event) => if event is Status {
            Seq::empty()
        } else {
            seq![event]
        },
        Incoming::Unexpected => Seq::empty(),
    }
}

/// One message more adds to the kept what it adds to the buffer.
proof fn lemma_kept_push(messages: Seq<Incoming>, message: Incoming)
    ensures
        kept(messages.push(message)) == kept(messages) + kept_of(message),
    decreases messages.len(),
{
    let longer = messages.push(message);
    if messages.len() == 0 {
        assert(longer.drop_first() =~= Seq::<Incoming>::empty());
        assert(kept(longer.drop_first()) =~= Seq::<KernelEvent>::empty());
        assert(kept(longer) =~= kept_of(message));
        assert(kept(messages) + kept_of(message) =~= kept_of(message));
    } else {
        lemma_kept_push(messages.drop_first(), message);
        assert(longer.drop_first() =~= messages.drop_first().push(message));
        assert(longer[0] == messages[0]);
        assert(kept(longer) =~= kept(messages) + kept_of(message));
    }
}

/// Every rich display among `events` comes after the echo of the input of
/// the request that caused it.
pub open spec fn displays_follow_input(events: Seq<KernelEvent>) -> bool {
    forall|j: int|
        0 <= j < events.len() && (#[trigger] events[j]) is DisplayData ==> exists|i: int|
            0 <= i < j && (#[trigger] events[i]) is ExecuteInput && events[i].parent_id()
                == events[j].parent_id()
}

/// Every rich display among `messages` comes after the echo of the input of
/// the request that caused it.
pub open spec fn displays_arrive_after_input(messages: Seq<Incoming>) -> bool {
    forall|j: int|
        0 <= j < messages.len() && (#[trigger] messages[j]) is Event && messages[j]->Event_0
            is DisplayData ==> exists|i: int|
            0 <= i < j && (#[trigger] messages[i]) is Event && messages[i]->Event_0
                is ExecuteInput && messages[i]->Event_0.parent_id()
                == messages[j]->Event_0.parent_id()
}

/// The events kept of messages in which every display arrives after its
/// input are in that order too.
proof fn lemma_kept_in_order(messages: Seq<Incoming>)
    requires
        displays_arrive_after_input(messages),
    ensures
        displays_follow_input(kept(messages)),
    decreases messages.len(),
{
    if messages.len() > 0 {
        let front = messages.drop_last();
        let last = messages.last();
        assert forall|j: int|
            0 <= j < front.len() && (#[trigger] front[j]) is Event && front[j]->Event_0
                is DisplayData implies exists|i: int|
            0 <= i < j && (#[trigger] front[i]) is Event && front[i]->Event_0 is ExecuteInput
                && front[i]->Event_0.parent_id() == front[j]->Event_0.parent_id() by {
            assert(front[j] == messages[j]);
            let i = choose|i: int|
                0 <= i < j && (#[trigger] messages[i]) is Event && messages[i]->Event_0
                    is ExecuteInput && messages[i]->Event_0.parent_id()
                    == messages[j]->Event_0.parent_id();
            assert(front[i] == messages[i]);
        }
        lemma_kept_in_order(front);
        assert(front.push(last) =~= messages);
        lemma_kept_push(front, last);
        let before = kept(front);
        let all = kept(messages);
        assert forall|j: int| 0 <= j < all.len() && (#[trigger] all[j]) is DisplayData implies
            exists|i: int|
            0 <= i < j && (#[trigger] all[i]) is ExecuteInput && all[i].parent_id()
                == all[j].parent_id() by {
            if j < before.len() {
                assert(all[j] == before[j]);
                let i = choose|i: int|
                    0 <= i < j && (#[trigger] before[i]) is ExecuteInput && before[i].parent_id()
                        == before[j].parent_id();
                assert(all[i] == before[i]);
            } else {
                let at = messages.len() - 1;
                assert(messages[at] == last);
                assert(all[j] == last->Event_0);
                let source = choose|i: int|
                    0 <= i < at && (#[trigger] messages[i]) is Event && messages[i]->Event_0
                        is ExecuteInput && messages[i]->Event_0.parent_id()
                        == messages[at]->Event_0.parent_id();
                assert(front[source] == messages[source]);
                lemma_kept_holds(front, source);
                let wanted = messages[source]->Event_0;
                let i = choose|i: int| 0 <= i < before.len() && before[i] == wanted;
                assert(all[i] == wanted);
            }
        }
    }
}

/// The buffer keeps the order of arrival: where every rich display that a
/// reading takes arrived after the echo of the input of its request, every
/// rich display in the buffer stands behind that echo.
pub proof fn lemma_displays_follow_input(
    state: ExecutionState,
    request: Option<Seq<char>>,
    messages: Seq<Incoming>,
)
    requires
        displays_arrive_after_input(messages.take(read(state, request, messages).taken as int)),
    ensures
        displays_follow_input(read(state, request, messages).events),
{
    lemma_read_keeps_events(state, request, messages);
    lemma_kept_in_order(messages.take(read(state, request, messages).taken as int));
}

/// What a call of `drain` did.
#[derive(Debug, PartialEq, Eq)]
pub struct Drained {
    /// How many messages were taken.
    pub taken: usize,
    /// The positions in the buffer of the errors that arrived, in arrival
    /// order: each is to be shown.
    pub surfaced: Vec<usize>,
}

/// The state of one kernel session: the execution state that the kernel
/// last reported, the request of the submission in flight where it is known,
/// the events buffered for that submission, whether it is complete, and
/// whether a protocol violation has broken the session.
#[derive(Debug, PartialEq, Eq)]
pub struct Session {
    state: ExecutionState,
    request: Option<String>,
    buffer: Vec<KernelEvent>,
    complete: bool,
    broken: bool,
}

impl Session {
    /// A complete submission has left the kernel idle, and no submission
    /// completes in a broken session.
    #[verifier::type_invariant]
    spec fn idle_when_complete(&self) -> bool {
        self.complete ==> self.state == ExecutionState::Idle && !self.broken
    }

    /// The execution state that was recorded last.
    pub closed spec fn state(&self) -> ExecutionState {
        self.state
    }

    /// The request of the submission in flight, where it is known.
    pub closed spec fn request(&self) -> Option<Seq<char>> {
        match self.request {
            Some(id) => Some(id@),
            None => None,
        }
    }

    /// The events buffered for the submission in flight, in arrival order.
    pub closed spec fn events(&self) -> Seq<KernelEvent> {
        self.buffer@
    }

    /// Whether the submission in flight is complete.
    pub closed spec fn complete(&self) -> bool {
        self.complete
    }

    /// Whether a protocol violation has made the session unusable. A broken
    /// session takes no more messages and no new submission: it is to be
    /// discarded.
    pub closed spec fn broken(&self) -> bool {
        self.broken
    }

    /// A session that has seen nothing: idle, with an empty buffer.
    pub fn new() -> (session: Session)
        ensures
            session.state() == ExecutionState::Idle,
            session.request() is None,
            session.events() == Seq::<KernelEvent>::empty(),
            !session.complete(),
            !session.broken(),
    {
        Session {
            state: ExecutionState::Idle,
            request: None,
            buffer: Vec::new(),
            complete: false,
            broken: false,
        }
    }

    /// Starts the collection for a new submission: the buffer is emptied and
    /// the completion flag lowered. The recorded state stays. Where the
    /// request of the submission is given, only a status that names it as
    /// its parent completes the submission.
    pub fn begin_submission(&mut self, request: Option<String>)
        requires
            !old(self).broken(),
        ensures
            final(self).state() == old(self).state(),
            final(self).request() == match request {
                Some(id) => Some(id@),
                None => None,
            },
            final(self).events() == Seq::<KernelEvent>::empty(),
            !final(self).complete(),
            !final(self).broken(),
    {
        self.complete = false;
        self.buffer = Vec::new();
        self.request = request;
    }

    /// Whether a protocol violation has made the session unusable.
    pub fn is_broken(&self) -> (broken: bool)
        ensures
            broken == self.broken(),
    {
        self.broken
    }

    /// The execution state that was recorded last.
    pub fn execution_state(&self) -> (state: ExecutionState)
        ensures
            state == self.state(),
    {
        self.state
    }

    /// Whether the submission in flight is complete.
    pub fn is_complete(&self) -> (complete: bool)
        ensures
            complete == self.complete(),
    {
        self.complete
    }

    /// The events buffered for the submission in flight.
    pub fn buffered(&self) -> (events: &Vec<KernelEvent>)
        ensures
            events@ == self.events(),
    {
        &self.buffer
    }

    /// Appends an event to the buffer.
    fn keep(&mut self, event: KernelEvent)
        ensures
            final(self).state == old(self).state,
            final(self).request == old(self).request,
            final(self).complete == old(self).complete,
            final(self).broken == old(self).broken,
            final(self).buffer@ == old(self).buffer@.push(event),
    {
        proof {
            use_type_invariant(&*self);
        }
        let mut buffer: Vec<KernelEvent> = Vec::new();
        std::mem::swap(&mut buffer, &mut self.buffer);
        buffer.push(event);
        self.buffer = buffer;
    }

    /// Takes one message from the event path.
    ///
    /// A message of unexpected shape is a protocol violation: it breaks the
    /// session and changes nothing else. An event sets the recorded state if
    /// it is a status, and is appended to the buffer if it is not. The status
    /// `Idle` after `Busy` completes the submission.
    pub fn observe(&mut self, message: Incoming) -> (reaction: Result<Reaction, ExecutionError>)
        requires
            !old(self).complete(),
            !old(self).broken(),
        ensures
            final(self).request() == old(self).request(),
            match message {
                Incoming::Unexpected => {
                    &&& reaction == Err::<Reaction, ExecutionError>(
                        ExecutionError::ProtocolViolation,
                    )
                    &&& final(self).state() == old(self).state()
                    &&& final(self).events() == old(self).events()
                    &&& !final(self).complete()
                    &&& final(self).broken()
                },
                Incoming::Event(event) => {
                    &&& !final(self).broken()
                    &&& reaction == Ok::<Reaction, ExecutionError>(
                        reaction_to(old(self).state(), old(self).request(), event),
                    )
                    &&& final(self).state() == state_after(old(self).state(), event)
                    &&& final(self).events() == if event is Status {
                        old(self).events()
                    } else {
                        old(self).events().push(event)
                    }
                    &&& final(self).complete() == completes(
                        old(self).state(),
                        old(self).request(),
                        event,
                    )
                },
            },
    {
        match message {
            Incoming::Unexpected => {
                self.broken = true;
                Err(ExecutionError::ProtocolViolation)
            },
            Incoming::Event(event) => {
                match event {
                    KernelEvent::Status { parent, state } => {
                        let correlated = match &self.request {
                            Some(id) => parent == *id,
                            None => true,
                        };
                        let done = self.state == ExecutionState::Busy && state
                            == ExecutionState::Idle && correlated;
                        self.state = state;
                        self.complete = done;
                        if done {
                            Ok(Reaction::Complete)
                        } else {
                            Ok(Reaction::Continue)
                        }
                    },
                    KernelEvent::Error { parent, message, traceback } => {
                        self.keep(KernelEvent::Error { parent, message, traceback });
                        Ok(Reaction::SurfaceError)
                    },
                    other => {
                        self.keep(other);
                        Ok(Reaction::Continue)
                    },
                }
            },
        }
    }

    /// What reading `messages` comes to for the session as it stands.
    pub open spec fn reading(&self, messages: Seq<Incoming>) -> Reading {
        read(self.state(), self.request(), messages)
    }

    /// Takes messages from the event path, in order, until one completes the
    /// submission, one is of unexpected shape, or none is left.
    ///
    /// Every error that arrives is listed in `surfaced`, whatever follows it.
    pub fn drain(&mut self, messages: Vec<Incoming>) -> (drained: Result<Drained, ExecutionError>)
        requires
            !old(self).complete(),
            !old(self).broken(),
        ensures
            final(self).request() == old(self).request(),
            final(self).state() == old(self).reading(messages@).state,
            final(self).events() == old(self).events() + old(self).reading(messages@).events,
            final(self).complete() == (old(self).reading(messages@).end is Complete),
            final(self).broken() == (old(self).reading(messages@).end is Violation),
            drained is Err <==> old(self).reading(messages@).end is Violation,
            drained matches Err(e) ==> e == ExecutionError::ProtocolViolation,
            drained matches Ok(d) ==> {
                &&& d.taken == old(self).reading(messages@).taken
                &&& forall|k: int|
                    0 <= k < d.surfaced@.len() ==> old(self).events().len() <= (
                    #[trigger] d.surfaced@[k]) < final(self).events().len()
                        && final(self).events()[d.surfaced@[k] as int] is Error
                &&& forall|a: int, b: int|
                    0 <= a < b < d.surfaced@.len() ==> d.surfaced@[a] < d.surfaced@[b]
                &&& forall|p: int|
                    old(self).events().len() <= p < final(self).events().len() && (
                    #[trigger] final(self).events()[p]) is Error ==> exists|k: int|
                        0 <= k < d.surfaced@.len() && #[trigger] d.surfaced@[k] == p
            },
    {
        let ghost start = self.state();
        let ghost request = self.request();
        let ghost before = self.events();
        let mut surfaced: Vec<usize> = Vec::new();
        let mut taken: usize = 0;
        let total = messages.len();
        assert(messages@.skip(0) =~= messages@);
        for message in it: messages
            invariant
                it.seq() == messages@,
                total == messages@.len(),
                taken == it.index(),
                !self.complete(),
                !self.broken(),
                start == old(self).state(),
                request == old(self).request(),
                request == self.request(),
                before == old(self).events(),
                read(start, request, messages@).state == self.reading(
                    messages@.skip(taken as int),
                ).state,
                read(start, request, messages@).events == self.events().skip(before.len() as int)
                    + self.reading(messages@.skip(taken as int)).events,
                read(start, request, messages@).taken == taken + self.reading(
                    messages@.skip(taken as int),
                ).taken,
                read(start, request, messages@).end == self.reading(
                    messages@.skip(taken as int),
                ).end,
                before.len() <= self.events().len(),
                self.events().take(before.len() as int) == before,
                forall|k: int|
                    0 <= k < surfaced@.len() ==> before.len() <= (#[trigger] surfaced@[k])
                        < self.events().len() && self.events()[surfaced@[k] as int] is Error,
                forall|a: int, b: int| 0 <= a < b < surfaced@.len() ==> surfaced@[a] < surfaced@[b],
                forall|p: int|
                    before.len() <= p < self.events().len() && (#[trigger] self.events()[p])
                        is Error ==> exists|k: int|
                        0 <= k < surfaced@.len() && #[trigger] surfaced@[k] == p,
        {
            let ghost rest = messages@.skip(taken as int);
            let ghost seen = self.events();
            let ghost listed = surfaced@;
            proof {
                assert(rest[0] == message);
                assert(rest.drop_first() =~= messages@.skip(taken + 1));
            }
            let position = self.buffer.len();
            assert(taken < messages@.len());
            taken += 1;
            match self.observe(message) {
                Err(e) => {
                    proof {
                        assert(self.events() =~= before + self.events().skip(before.len() as int));
                    }
                    return Err(e);
                },
                Ok(Reaction::Complete) => {
                    proof {
                        assert(self.events() =~= before + self.events().skip(before.len() as int));
                    }
                    return Ok(Drained { taken, surfaced });
                },
                Ok(Reaction::SurfaceError) => {
                    surfaced.push(position);
                    proof {
                        assert(self.events() == seen.push(message->Event_0));
                        assert(self.events().skip(before.len() as int) =~= seen.skip(
                            before.len() as int,
                        ) + seq![message->Event_0]);
                        assert(self.events().take(before.len() as int) =~= seen.take(
                            before.len() as int,
                        ));
                        assert forall|p: int|
                            before.len() <= p < self.events().len() && (
                            #[trigger] self.events()[p]) is Error implies exists|k: int|
                            0 <= k < surfaced@.len() && #[trigger] surfaced@[k] == p by {
                            if p < seen.len() {
                                assert(seen[p] is Error);
                                let k = choose|k: int|
                                    0 <= k < listed.len() && #[trigger] listed[k] == p;
                                assert(surfaced@[k] == p);
                            } else {
                                assert(surfaced@[listed.len() as int] == p);
                            }
                        }
                    }
                },
                Ok(Reaction::Continue) => {
                    proof {
                        if message->Event_0 is Status {
                            assert(self.events() == seen);
                        } else {
                            assert(self.events() == seen.push(message->Event_0));
                            assert(self.events().skip(before.len() as int) =~= seen.skip(
                                before.len() as int,
                            ) + seq![message->Event_0]);
                            assert(self.events().take(before.len() as int) =~= seen.take(
                                before.len() as int,
                            ));
                            assert forall|p: int|
                                before.len() <= p < self.events().len() && (
                                #[trigger] self.events()[p]) is Error implies exists|k: int|
                                0 <= k < surfaced@.len() && #[trigger] surfaced@[k] == p by {
                                assert(p < seen.len());
                                assert(seen[p] is Error);
                            }
                        }
                    }
                },
            }
        }
        proof {
            assert(messages@.skip(messages@.len() as int) =~= Seq::<Incoming>::empty());
            assert(self.events() =~= before + self.events().skip(before.len() as int));
        }
        Ok(Drained { taken, surfaced })
    }

    /// Hands the events of a complete submission to the caller as its
    /// result. An incomplete session comes back as it is.
    ///
    /// A result is given only after the kernel went from busy to idle. It
    /// succeeded if no error arrived; its text is what the events show, in
    /// arrival order.
    pub fn finish(self) -> (result: Result<ExecutionResult, Session>)
        ensures
            match result {
                Ok(r) => {
                    &&& self.complete()
                    &&& self.state() == ExecutionState::Idle
                    &&& r.events@ == self.events()
                    &&& r.succeeded == free_of_errors(self.events())
                    &&& r.text@ == transcript(self.events())
                },
                Err(session) => !self.complete() && session == self,
            },
    {
        if !self.complete {
            return Err(self);
        }
        proof {
            use_type_invariant(&self);
        }
        let mut text: Vec<char> = Vec::new();
        let mut succeeded = true;
        let mut i: usize = 0;
        assert(self.buffer@.take(0) =~= Seq::<KernelEvent>::empty());
        while i < self.buffer.len()
            invariant
                i <= self.buffer.len(),
                text@ == transcript(self.buffer@.take(i as int)),
                succeeded == free_of_errors(self.buffer@.take(i as int)),
            decreases self.buffer.len() - i,
        {
            let ghost upto = self.buffer@.take(i + 1);
            let ghost seen = self.buffer@.take(i as int);
            proof {
                assert(upto.drop_last() =~= seen);
                assert(upto.last() == self.buffer@[i as int]);
            }
            append_visible_text(&mut text, &self.buffer[i]);
            match &self.buffer[i] {
                KernelEvent::Error { .. } => {
                    succeeded = false;
                    assert(upto[i as int] is Error);
                },
                _ => {
                    proof {
                        if free_of_errors(seen) {
                            assert forall|k: int| 0 <= k < upto.len() implies !((
                            #[trigger] upto[k]) is Error) by {
                                if k < i {
                                    assert(seen[k] == upto[k]);
                                }
                            }
                        } else {
                            let k = choose|k: int| 0 <= k < seen.len() && seen[k] is Error;
                            assert(upto[k] is Error);
                        }
                    }
                },
            }
            i += 1;
        }
        assert(self.buffer@.take(self.buffer@.len() as int) =~= self.buffer@);
        Ok(ExecutionResult { succeeded, text: string_of(&text), events: self.buffer })
    }
}

} // verus!
