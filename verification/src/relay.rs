use vstd::prelude::*;

verus! {

/// One of the two copy directions of the bidirectional relay, between the
/// inbound side A (post-handshake) and the outbound side B.
#[derive(Clone, Copy, PartialEq, Eq, Structural, Debug)]
pub enum Direction {
    AToB,
    BToA,
}

/// The relay's control state: per direction, whether copying is over (its
/// source reached EOF or failed) and whether the FIN toward its sink has
/// been sent; plus the global abort and shutdown marks.
#[derive(Clone, Copy, PartialEq, Eq, Structural, Debug)]
pub struct RelayState {
    pub a_to_b_done: bool,
    pub b_to_a_done: bool,
    pub a_to_b_fin_sent: bool,
    pub b_to_a_fin_sent: bool,
    /// Whether any byte has moved, in either direction: a connection still
    /// idle when the idle window expires is dropped.
    pub moved_bytes: bool,
    pub aborted: bool,
    pub shutdown: bool,
}

/// What a direction's copy task observes.
#[derive(Clone, Copy, PartialEq, Eq, Structural, Debug)]
pub enum RelayEvent {
    /// This many bytes were read in the given direction.
    Data(Direction, usize),
    /// The direction's source reached end of stream.
    Eof(Direction),
    /// The direction's read failed.
    ReadError(Direction),
    /// The direction's write failed.
    WriteError(Direction),
    /// The idle window (by default 60 seconds) expired.
    IdleExpired,
    /// The shutdown broadcast fired.
    Shutdown,
}

/// What the relay does in response.
#[derive(Clone, Copy, PartialEq, Eq, Structural, Debug)]
pub enum RelayAction {
    /// Deliver the bytes onward in the given direction.
    Forward(Direction, usize),
    /// Send FIN on the write side the given direction feeds (its peer then
    /// observes EOF), and copy no more in that direction.
    HalfClose(Direction),
    /// A write failed: tear both directions down at once.
    AbortBoth,
    /// Shutdown: half-close both directions cleanly, hard-close after the
    /// grace period.
    GracefulClose,
    /// Nothing to do.
    Nothing,
}

/// Whether copying in direction `d` is over.
pub open spec fn dir_done(st: RelayState, d: Direction) -> bool {
    match d {
        Direction::AToB => st.a_to_b_done,
        Direction::BToA => st.b_to_a_done,
    }
}

/// Whether the FIN toward the sink of direction `d` has been sent.
pub open spec fn fin_sent(st: RelayState, d: Direction) -> bool {
    match d {
        Direction::AToB => st.a_to_b_fin_sent,
        Direction::BToA => st.b_to_a_fin_sent,
    }
}

/// Marks direction `d` as done with its FIN sent.
pub open spec fn close_dir(st: RelayState, d: Direction) -> RelayState {
    match d {
        Direction::AToB => RelayState { a_to_b_done: true, a_to_b_fin_sent: true, ..st },
        Direction::BToA => RelayState { b_to_a_done: true, b_to_a_fin_sent: true, ..st },
    }
}

/// The relay's transition relation. In a live relay: data in an open
/// direction is forwarded; the first EOF or read error in a direction sends
/// exactly one FIN to its sink and ends only that direction, the other keeps
/// copying; a write error aborts both; an expired idle window drops the
/// connection only while no byte has moved; the shutdown broadcast closes
/// both cleanly. After an abort or shutdown nothing more is done.
pub open spec fn relay_step(st: RelayState, ev: RelayEvent) -> (RelayState, RelayAction) {
    if st.aborted || st.shutdown {
        (st, RelayAction::Nothing)
    } else {
        match ev {
            RelayEvent::Data(d, n) => if !dir_done(st, d) {
                (RelayState { moved_bytes: true, ..st }, RelayAction::Forward(d, n))
            } else {
                (st, RelayAction::Nothing)
            },
            RelayEvent::Eof(d) => if !dir_done(st, d) {
                (close_dir(st, d), RelayAction::HalfClose(d))
            } else {
                (st, RelayAction::Nothing)
            },
            RelayEvent::ReadError(d) => if !dir_done(st, d) {
                (close_dir(st, d), RelayAction::HalfClose(d))
            } else {
                (st, RelayAction::Nothing)
            },
            RelayEvent::WriteError(_) => (
                RelayState { aborted: true, ..st },
                RelayAction::AbortBoth,
            ),
            RelayEvent::IdleExpired => if !st.moved_bytes {
                (RelayState { aborted: true, ..st }, RelayAction::AbortBoth)
            } else {
                (st, RelayAction::Nothing)
            },
            RelayEvent::Shutdown => (
                RelayState { shutdown: true, ..st },
                RelayAction::GracefulClose,
            ),
        }
    }
}

impl RelayState {
    /// A relay that has just finished the handshake: both directions open.
    pub fn new() -> (r: RelayState)
        ensures
            !r.a_to_b_done && !r.b_to_a_done && !r.a_to_b_fin_sent && !r.b_to_a_fin_sent
                && !r.moved_bytes && !r.aborted && !r.shutdown,
    {
        RelayState {
            a_to_b_done: false,
            b_to_a_done: false,
            a_to_b_fin_sent: false,
            b_to_a_fin_sent: false,
            moved_bytes: false,
            aborted: false,
            shutdown: false,
        }
    }

    /// Advances the relay on one observation, exactly as `relay_step` says.
    pub fn on_event(&mut self, ev: RelayEvent) -> (a: RelayAction)
        ensures
            (*final(self), a) == relay_step(*old(self), ev),
    {
        if self.aborted || self.shutdown {
            return RelayAction::Nothing;
        }
        match ev {
            RelayEvent::Data(d, n) => {
                if !self.is_dir_done(d) {
                    self.moved_bytes = true;
                    RelayAction::Forward(d, n)
                } else {
                    RelayAction::Nothing
                }
            },
            RelayEvent::Eof(d) => {
                if !self.is_dir_done(d) {
                    self.close_direction(d);
                    RelayAction::HalfClose(d)
                } else {
                    RelayAction::Nothing
                }
            },
            RelayEvent::ReadError(d) => {
                if !self.is_dir_done(d) {
                    self.close_direction(d);
                    RelayAction::HalfClose(d)
                } else {
                    RelayAction::Nothing
                }
            },
            RelayEvent::WriteError(_) => {
                self.aborted = true;
                RelayAction::AbortBoth
            },
            RelayEvent::IdleExpired => {
                if !self.moved_bytes {
                    self.aborted = true;
                    RelayAction::AbortBoth
                } else {
                    RelayAction::Nothing
                }
            },
            RelayEvent::Shutdown => {
                self.shutdown = true;
                RelayAction::GracefulClose
            },
        }
    }

    /// Whether both directions are over: the relay task may end.
    pub fn finished(&self) -> (r: bool)
        ensures
            r == (self.a_to_b_done && self.b_to_a_done),
    {
        self.a_to_b_done && self.b_to_a_done
    }

    fn is_dir_done(&self, d: Direction) -> (r: bool)
        ensures
            r == dir_done(*self, d),
    {
        match d {
            Direction::AToB => self.a_to_b_done,
            Direction::BToA => self.b_to_a_done,
        }
    }

    fn close_direction(&mut self, d: Direction)
        ensures
            *final(self) == close_dir(*old(self), d),
    {
        match d {
            Direction::AToB => {
                self.a_to_b_done = true;
                self.a_to_b_fin_sent = true;
            },
            Direction::BToA => {
                self.b_to_a_done = true;
                self.b_to_a_fin_sent = true;
            },
        }
    }
}

/// How often processing the events emits `HalfClose(d)` from state `st`.
pub open spec fn count_half_close(st: RelayState, evs: Seq<RelayEvent>, d: Direction) -> int
    decreases evs.len(),
{
    if evs.len() == 0 {
        0
    } else {
        let (st1, a) = relay_step(st, evs[0]);
        (if a == RelayAction::HalfClose(d) {
            1int
        } else {
            0int
        }) + count_half_close(st1, evs.drop_first(), d)
    }
}

/// Law: each sink observes EOF at most once, and exactly once when its
/// source direction ends in a live relay. Over any sequence of
/// observations, the relay sends at most one FIN per direction — from a
/// state where the direction is already over, none at all.
pub proof fn lemma_half_close_at_most_once(st: RelayState, evs: Seq<RelayEvent>, d: Direction)
    ensures
        count_half_close(st, evs, d) <= if dir_done(st, d) {
            0int
        } else {
            1int
        },
        count_half_close(st, evs, d) >= 0,
    decreases evs.len(),
{
    if evs.len() > 0 {
        let (st1, a) = relay_step(st, evs[0]);
        lemma_half_close_at_most_once(st1, evs.drop_first(), d);
    }
}

/// Law: one direction ending does not end the other. After an EOF or read
/// error in one direction of a live relay, data in the opposite direction is
/// still forwarded.
pub proof fn lemma_reverse_direction_continues(
    st: RelayState,
    d: Direction,
    other: Direction,
    n: usize,
)
    requires
        !st.aborted,
        !st.shutdown,
        d != other,
        !dir_done(st, other),
    ensures
        relay_step(relay_step(st, RelayEvent::Eof(d)).0, RelayEvent::Data(other, n)).1
            == RelayAction::Forward(other, n),
        relay_step(relay_step(st, RelayEvent::ReadError(d)).0, RelayEvent::Data(other, n)).1
            == RelayAction::Forward(other, n),
{
}

/// State of an accept loop: it takes new connections until the shutdown
/// broadcast (or, for a QUIC stream acceptor, the connection's end) stops
/// it.
#[derive(Clone, Copy, PartialEq, Eq, Structural, Debug)]
pub struct AcceptorState {
    pub accepting: bool,
}

/// What an accept loop observes.
#[derive(Clone, Copy, PartialEq, Eq, Structural, Debug)]
pub enum AcceptorEvent {
    /// A connection (or QUIC bidirectional stream) arrived.
    Incoming,
    /// An accept failed recoverably.
    IncomingFailed,
    /// The QUIC connection was closed by the application: the loop ends
    /// cleanly.
    StreamClosed,
    /// The stream source failed fatally.
    StreamFatal,
    /// The shutdown broadcast fired.
    ShutdownFired,
}

/// What the accept loop does in response.
#[derive(Clone, Copy, PartialEq, Eq, Structural, Debug)]
pub enum AcceptorAction {
    /// Spawn a connection task carrying a fresh shutdown subscription.
    Spawn,
    /// Log and retry after a short backoff.
    Retry,
    /// End the loop reporting success.
    FinishOk,
    /// End the loop reporting the error.
    FinishErr,
    /// Refuse: the loop is no longer accepting.
    Refuse,
}

/// The accept loop's transition relation: while accepting, an arrival is
/// dispatched to a fresh task and a failed accept is retried; the shutdown
/// broadcast, a closed stream source or a fatal error stop the loop, and a
/// stopped loop refuses everything.
pub open spec fn acceptor_step(st: AcceptorState, ev: AcceptorEvent) -> (
    AcceptorState,
    AcceptorAction,
) {
    if !st.accepting {
        (st, AcceptorAction::Refuse)
    } else {
        match ev {
            AcceptorEvent::Incoming => (st, AcceptorAction::Spawn),
            AcceptorEvent::IncomingFailed => (st, AcceptorAction::Retry),
            AcceptorEvent::StreamClosed => (
                AcceptorState { accepting: false },
                AcceptorAction::FinishOk,
            ),
            AcceptorEvent::StreamFatal => (
                AcceptorState { accepting: false },
                AcceptorAction::FinishErr,
            ),
            AcceptorEvent::ShutdownFired => (
                AcceptorState { accepting: false },
                AcceptorAction::Refuse,
            ),
        }
    }
}

impl AcceptorState {
    /// A freshly started accept loop.
    pub fn new() -> (r: AcceptorState)
        ensures
            r.accepting,
    {
        AcceptorState { accepting: true }
    }

    /// Advances the accept loop on one observation, exactly as
    /// `acceptor_step` says.
    pub fn on_event(&mut self, ev: AcceptorEvent) -> (a: AcceptorAction)
        ensures
            (*final(self), a) == acceptor_step(*old(self), ev),
    {
        if !self.accepting {
            return AcceptorAction::Refuse;
        }
        match ev {
            AcceptorEvent::Incoming => AcceptorAction::Spawn,
            AcceptorEvent::IncomingFailed => AcceptorAction::Retry,
            AcceptorEvent::StreamClosed => {
                self.accepting = false;
                AcceptorAction::FinishOk
            },
            AcceptorEvent::StreamFatal => {
                self.accepting = false;
                AcceptorAction::FinishErr
            },
            AcceptorEvent::ShutdownFired => {
                self.accepting = false;
                AcceptorAction::Refuse
            },
        }
    }
}

/// How often processing the events spawns a task from state `st`.
pub open spec fn count_spawn(st: AcceptorState, evs: Seq<AcceptorEvent>) -> int
    decreases evs.len(),
{
    if evs.len() == 0 {
        0
    } else {
        let (st1, a) = acceptor_step(st, evs[0]);
        (if a == AcceptorAction::Spawn {
            1int
        } else {
            0int
        }) + count_spawn(st1, evs.drop_first())
    }
}

/// Law: after the shutdown broadcast fires, new accepts are refused. Once
/// the loop stops accepting — in particular right after `ShutdownFired` —
/// no sequence of further observations ever spawns another task.
pub proof fn lemma_no_spawn_after_shutdown(st: AcceptorState, evs: Seq<AcceptorEvent>)
    ensures
        count_spawn(acceptor_step(st, AcceptorEvent::ShutdownFired).0, evs) == 0,
{
    lemma_stopped_never_spawns(acceptor_step(st, AcceptorEvent::ShutdownFired).0, evs);
}

proof fn lemma_stopped_never_spawns(st: AcceptorState, evs: Seq<AcceptorEvent>)
    requires
        !st.accepting,
    ensures
        count_spawn(st, evs) == 0,
    decreases evs.len(),
{
    if evs.len() > 0 {
        lemma_stopped_never_spawns(acceptor_step(st, evs[0]).0, evs.drop_first());
    }
}

} // verus!
