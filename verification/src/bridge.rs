//! Event fanout: each event of a session goes to its log, to IPC and into the
//! state that is shown.

use vstd::prelude::*;
use vstd::utf8::*;

use crate::ipc::{
    frame_line, framed, framed_behind, framed_lines, lines_come_through, lines_read, one_line,
    text_reply_view, OneLine,
};

verus! {

/// Where the events of a session go, and how many came so far.
#[derive(Debug)]
pub struct EventFanout {
    event_id: u64,
    ipc: bool,
    log: bool,
    watched: bool,
}

/// What an [`EventFanout`] is.
pub struct EventFanoutView {
    /// The events so far; the last one has this number.
    pub event_id: nat,
    /// Events are announced over IPC.
    pub ipc: bool,
    /// Events are written to the log.
    pub log: bool,
    /// Someone watches the version of the state.
    pub watched: bool,
}

impl View for EventFanout {
    type V = EventFanoutView;

    closed spec fn view(&self) -> EventFanoutView {
        EventFanoutView {
            event_id: self.event_id as nat,
            ipc: self.ipc,
            log: self.log,
            watched: self.watched,
        }
    }
}

/// What happened.
#[derive(Debug)]
pub enum BridgeEvent {
    /// An event came.
    Received,
    /// The event, with its number, was turned into text, or could not be.
    Serialized(Result<OneLine, String>),
    /// The event went into the state: the state's version before and after.
    Applied { before: u64, after: u64 },
    /// There are no more events.
    Closed,
}

/// What is to be done.
#[derive(Debug)]
pub enum BridgeAction {
    /// Number the event and turn it into text.
    Envelope { id: u64 },
    /// Announce the line over IPC, append the bytes to the log, and put the
    /// event into the state.
    Deliver { ipc_line: Option<OneLine>, log_bytes: Option<Vec<u8>> },
    /// Tell the watcher of the version, and wait for the next event.
    Notify { version: Option<u64> },
    /// Stop.
    Stop,
}

/// What a [`BridgeEvent`] is.
pub enum BridgeEventView {
    Received,
    Serialized(Result<Seq<char>, Seq<char>>),
    Applied(u64, u64),
    Closed,
}

/// What a [`BridgeAction`] is.
pub enum BridgeActionView {
    Envelope(nat),
    Deliver(Option<Seq<char>>, Option<Seq<u8>>),
    Notify(Option<u64>),
    Stop,
}

impl View for BridgeEvent {
    type V = BridgeEventView;

    open spec fn view(&self) -> BridgeEventView {
        match self {
            BridgeEvent::Received => BridgeEventView::Received,
            BridgeEvent::Serialized(text) => BridgeEventView::Serialized(text_reply_view(*text)),
            BridgeEvent::Applied { before, after } => BridgeEventView::Applied(*before, *after),
            BridgeEvent::Closed => BridgeEventView::Closed,
        }
    }
}

impl View for BridgeAction {
    type V = BridgeActionView;

    open spec fn view(&self) -> BridgeActionView {
        match self {
            BridgeAction::Envelope { id } => BridgeActionView::Envelope(*id as nat),
            BridgeAction::Deliver { ipc_line, log_bytes } => BridgeActionView::Deliver(
                match ipc_line {
                    Some(line) => Some(line@),
                    None => None,
                },
                match log_bytes {
                    Some(bytes) => Some(bytes@),
                    None => None,
                },
            ),
            BridgeAction::Notify { version } => BridgeActionView::Notify(*version),
            BridgeAction::Stop => BridgeActionView::Stop,
        }
    }
}

/// The fanout of a session before its first event.
pub open spec fn fanout_start(ipc: bool, log: bool, watched: bool) -> EventFanoutView {
    EventFanoutView { event_id: 0, ipc, log, watched }
}

/// What the fanout becomes, and what is to be done: events are numbered from
/// one on; IPC gets the text, an empty line where there is none; the log gets
/// the text as a line where there is one; the watcher is told where the state
/// changed.
pub open spec fn fanout_next(state: EventFanoutView, event: BridgeEventView) -> (
    EventFanoutView,
    BridgeActionView,
) {
    match event {
        BridgeEventView::Received => (
            EventFanoutView { event_id: state.event_id + 1, ..state },
            BridgeActionView::Envelope(state.event_id + 1),
        ),
        BridgeEventView::Serialized(text) => (
            state,
            BridgeActionView::Deliver(
                if state.ipc {
                    Some(
                        match text {
                            Ok(line) => line,
                            Err(_) => Seq::empty(),
                        },
                    )
                } else {
                    None
                },
                match text {
                    Ok(line) => if state.log {
                        Some(framed(line))
                    } else {
                        None
                    },
                    Err(_) => None,
                },
            ),
        ),
        BridgeEventView::Applied(before, after) => (
            state,
            BridgeActionView::Notify(
                if before != after && state.watched {
                    Some(after)
                } else {
                    None
                },
            ),
        ),
        BridgeEventView::Closed => (state, BridgeActionView::Stop),
    }
}

impl EventFanout {
    /// The fanout of a session: whether there is an IPC handle, whether its log
    /// could be opened, and whether someone watches its state.
    pub fn new(ipc: bool, log: bool, watched: bool) -> (r: EventFanout)
        ensures
            r@ == fanout_start(ipc, log, watched),
    {
        EventFanout { event_id: 0, ipc, log, watched }
    }

    /// Whether commands are to be taken from IPC: where there is a handle.
    pub fn consumes_commands(&self) -> (r: bool)
        ensures
            r == self@.ipc,
    {
        self.ipc
    }

    /// The number of events so far.
    pub fn events(&self) -> (r: u64)
        ensures
            r == self@.event_id,
    {
        self.event_id
    }

    /// Takes what happened, and says what is to be done.
    pub fn advance(&mut self, event: BridgeEvent) -> (r: BridgeAction)
        requires
            event is Received ==> old(self)@.event_id < u64::MAX,
        ensures
            (final(self)@, r@) == fanout_next(old(self)@, event@),
    {
        match event {
            BridgeEvent::Received => {
                self.event_id = self.event_id + 1;
                BridgeAction::Envelope { id: self.event_id }
            },
            BridgeEvent::Serialized(text) => {
                let log_bytes = match &text {
                    Ok(line) => if self.log {
                        Some(frame_line(line))
                    } else {
                        None
                    },
                    Err(_) => None,
                };
                let ipc_line = if self.ipc {
                    Some(
                        match text {
                            Ok(line) => line,
                            Err(_) => OneLine::empty(),
                        },
                    )
                } else {
                    None
                };
                BridgeAction::Deliver { ipc_line, log_bytes }
            },
            BridgeEvent::Applied { before, after } => {
                let version = if before != after && self.watched {
                    Some(after)
                } else {
                    None
                };
                BridgeAction::Notify { version }
            },
            BridgeEvent::Closed => BridgeAction::Stop,
        }
    }
}

// ---------------------------------------------------------------------------
// Laws
// ---------------------------------------------------------------------------

/// The fanout after `events`.
pub open spec fn fanout_after(state: EventFanoutView, events: Seq<BridgeEventView>) -> EventFanoutView
    decreases events.len(),
{
    if events.len() == 0 {
        state
    } else {
        fanout_next(fanout_after(state, events.drop_last()), events.last()).0
    }
}

/// How many events came.
pub open spec fn received(events: Seq<BridgeEventView>) -> nat
    decreases events.len(),
{
    if events.len() == 0 {
        0
    } else {
        received(events.drop_last()) + if events.last() is Received {
            1nat
        } else {
            0nat
        }
    }
}

/// Whatever happened before, the event that comes after `n` others is number
/// `n + 1`; and where the events go stays as it was.
pub proof fn events_are_numbered(
    ipc: bool,
    log: bool,
    watched: bool,
    events: Seq<BridgeEventView>,
)
    ensures
        ({
            let state = fanout_after(fanout_start(ipc, log, watched), events);
            &&& state == (EventFanoutView { event_id: received(events), ipc, log, watched })
            &&& fanout_next(state, BridgeEventView::Received).1 == BridgeActionView::Envelope(
                received(events) + 1,
            )
        }),
    decreases events.len(),
{
    if events.len() > 0 {
        events_are_numbered(ipc, log, watched, events.drop_last());
    }
}

/// What the log gains by `events`.
pub open spec fn logged(state: EventFanoutView, events: Seq<BridgeEventView>) -> Seq<u8>
    decreases events.len(),
{
    if events.len() == 0 {
        Seq::empty()
    } else {
        let rest = events.drop_last();
        logged(state, rest) + match fanout_next(fanout_after(state, rest), events.last()).1 {
            BridgeActionView::Deliver(_, Some(bytes)) => bytes,
            _ => Seq::empty(),
        }
    }
}

/// What is announced over IPC by `events`.
pub open spec fn announced(state: EventFanoutView, events: Seq<BridgeEventView>) -> Seq<Seq<char>>
    decreases events.len(),
{
    if events.len() == 0 {
        Seq::empty()
    } else {
        let rest = events.drop_last();
        match fanout_next(fanout_after(state, rest), events.last()).1 {
            BridgeActionView::Deliver(Some(line), _) => announced(state, rest).push(line),
            _ => announced(state, rest),
        }
    }
}

/// The texts of the events, in order; those that have none left out.
pub open spec fn texts_of(events: Seq<BridgeEventView>) -> Seq<Seq<char>>
    decreases events.len(),
{
    if events.len() == 0 {
        Seq::empty()
    } else {
        match events.last() {
            BridgeEventView::Serialized(Ok(line)) => texts_of(events.drop_last()).push(line),
            _ => texts_of(events.drop_last()),
        }
    }
}

/// The texts of the events, in order; empty ones where there are none.
pub open spec fn lines_of(events: Seq<BridgeEventView>) -> Seq<Seq<char>>
    decreases events.len(),
{
    if events.len() == 0 {
        Seq::empty()
    } else {
        match events.last() {
            BridgeEventView::Serialized(Ok(line)) => lines_of(events.drop_last()).push(line),
            BridgeEventView::Serialized(Err(_)) => lines_of(events.drop_last()).push(Seq::empty()),
            _ => lines_of(events.drop_last()),
        }
    }
}

/// The log gains the texts of the events as lines, in order, and IPC the same
/// texts, with an empty line for an event that has none; neither gains anything
/// where it is not there.
pub proof fn events_are_delivered(
    ipc: bool,
    log: bool,
    watched: bool,
    events: Seq<BridgeEventView>,
)
    ensures
        logged(fanout_start(ipc, log, watched), events) == if log {
            framed_lines(texts_of(events))
        } else {
            Seq::empty()
        },
        announced(fanout_start(ipc, log, watched), events) == if ipc {
            lines_of(events)
        } else {
            Seq::empty()
        },
    decreases events.len(),
{
    if events.len() > 0 {
        let rest = events.drop_last();
        events_are_delivered(ipc, log, watched, rest);
        events_are_numbered(ipc, log, watched, rest);
        let before = logged(fanout_start(ipc, log, watched), rest);
        assert(before + Seq::<u8>::empty() =~= before);
        if let BridgeEventView::Serialized(Ok(line)) = events.last() {
            framed_behind(texts_of(rest), line);
        }
    }
}

/// What is read of the log are the texts of the events, in order.
pub proof fn log_is_read_back(ipc: bool, watched: bool, events: Seq<BridgeEventView>)
    requires
        forall|i: int|
            0 <= i < texts_of(events).len() ==> one_line(#[trigger] texts_of(events)[i]),
    ensures
        lines_read(Seq::empty(), logged(fanout_start(ipc, true, watched), events)) == texts_of(
            events,
        ).map_values(|line: Seq<char>| encode_utf8(line)),
{
    events_are_delivered(ipc, true, watched, events);
    lines_come_through(texts_of(events));
}

/// The watcher is told of a version just where it changed.
pub proof fn watcher_hears_changes(state: EventFanoutView, before: u64, after: u64)
    requires
        state.watched,
    ensures
        fanout_next(state, BridgeEventView::Applied(before, after)).1 == BridgeActionView::Notify(
            if before == after {
                None
            } else {
                Some(after)
            },
        ),
{
}

/// An event with text goes over IPC as that text, and to the log as that text
/// and a newline; one without is an empty line over IPC and nothing in the log.
/// Where there is no IPC or no log, that gets nothing. The state stays.
pub proof fn texts_are_delivered_whole(state: EventFanoutView, line: Seq<char>, why: Seq<char>)
    ensures
        ({
            let ipc_line: Option<Seq<char>> = if state.ipc {
                Some(line)
            } else {
                None
            };
            let log_bytes: Option<Seq<u8>> = if state.log {
                Some(encode_utf8(line).push(0x0a))
            } else {
                None
            };
            fanout_next(state, BridgeEventView::Serialized(Ok(line))) == (
                state,
                BridgeActionView::Deliver(ipc_line, log_bytes),
            )
        }),
        ({
            let blank: Option<Seq<char>> = if state.ipc {
                Some(Seq::empty())
            } else {
                None
            };
            fanout_next(state, BridgeEventView::Serialized(Err(why))) == (
                state,
                BridgeActionView::Deliver(blank, None),
            )
        }),
{
}

/// Nobody is told of a version where nobody watches.
pub proof fn unwatched_state_is_quiet(state: EventFanoutView, before: u64, after: u64)
    requires
        !state.watched,
    ensures
        fanout_next(state, BridgeEventView::Applied(before, after)) == (
            state,
            BridgeActionView::Notify(None),
        ),
        fanout_next(state, BridgeEventView::Closed) == (state, BridgeActionView::Stop),
{
}

/// What happened and what is to be done are seen with all that they hold.
pub proof fn actions_are_seen_whole(
    line: OneLine,
    why: String,
    bytes: Vec<u8>,
    id: u64,
    before: u64,
    after: u64,
)
    ensures
        BridgeEvent::Received@ == BridgeEventView::Received,
        BridgeEvent::Serialized(Ok(line))@ == BridgeEventView::Serialized(Ok(line@)),
        BridgeEvent::Serialized(Err(why))@ == BridgeEventView::Serialized(Err(why@)),
        (BridgeEvent::Applied { before, after })@ == BridgeEventView::Applied(before, after),
        (BridgeAction::Envelope { id })@ == BridgeActionView::Envelope(id as nat),
        (BridgeAction::Deliver { ipc_line: Some(line), log_bytes: Some(bytes) })@
            == BridgeActionView::Deliver(Some(line@), Some(bytes@)),
        (BridgeAction::Deliver { ipc_line: None, log_bytes: None })@ == BridgeActionView::Deliver(
            None,
            None,
        ),
        (BridgeAction::Notify { version: Some(after) })@ == BridgeActionView::Notify(Some(after)),
        (BridgeAction::Notify { version: None })@ == BridgeActionView::Notify(None),
{
}

} // verus!
