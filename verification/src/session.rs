//! Session state machine.
//!
//! The lab default (`lab_auto_accept = true`) makes READY reachable right after
//! HELLO, without identity crypto.

use vstd::prelude::*;

verus! {

#[derive(Debug, Clone, Copy, PartialEq, Eq, Structural)]
pub enum SessionState {
    Disconnected,
    QuicConnected,
    MnpHello,
    IdentityPending,
    Authenticated,
    Ready,
}

#[derive(Debug, Clone, Copy, PartialEq, Eq)]
pub enum SessionError {
    Illegal { from: SessionState, event: &'static str },
}

#[derive(Debug, Clone)]
pub struct Session {
    state: SessionState,
    lab_auto_accept: bool,
}

/// What a session is: its state and whether identity is skipped.
pub struct SessionModel {
    pub state: SessionState,
    pub lab_auto_accept: bool,
}

impl View for Session {
    type V = SessionModel;

    closed spec fn view(&self) -> SessionModel {
        SessionModel { state: self.state, lab_auto_accept: self.lab_auto_accept }
    }
}

/// The session a lab peer starts with.
pub open spec fn spec_new_lab() -> SessionModel {
    SessionModel { state: SessionState::Disconnected, lab_auto_accept: true }
}

/// One transition: legal only from `expected`, then the state is `next`;
/// otherwise refused with the state it was attempted from and the event.
pub open spec fn spec_step(
    s: SessionModel,
    expected: SessionState,
    next: SessionState,
    event: &'static str,
) -> Result<SessionModel, SessionError> {
    if s.state == expected {
        Ok(SessionModel { state: next, ..s })
    } else {
        Err(SessionError::Illegal { from: s.state, event })
    }
}

/// QUIC came up: legal only from `Disconnected`.
pub open spec fn spec_on_quic_connected(s: SessionModel) -> Result<SessionModel, SessionError> {
    spec_step(s, SessionState::Disconnected, SessionState::QuicConnected, "quic_connected")
}

/// HELLO / HELLO_ACK accepted: legal only from `QuicConnected`. It passes
/// `MnpHello` and stops at `IdentityPending`, or, with lab auto-accept, goes
/// on through `Authenticated` to `Ready`.
pub open spec fn spec_on_hello_ok(s: SessionModel) -> Result<SessionModel, SessionError> {
    if s.state != SessionState::QuicConnected {
        Err(SessionError::Illegal { from: s.state, event: "hello" })
    } else if s.lab_auto_accept {
        Ok(SessionModel { state: SessionState::Ready, ..s })
    } else {
        Ok(SessionModel { state: SessionState::IdentityPending, ..s })
    }
}

/// GOODBYE or connection loss: back to `Disconnected` from anywhere.
pub open spec fn spec_on_goodbye_or_loss(s: SessionModel) -> SessionModel {
    SessionModel { state: SessionState::Disconnected, ..s }
}

/// The session after an event: the new one if it was accepted, the old one
/// if it was refused.
pub open spec fn after(s: SessionModel, r: Result<SessionModel, SessionError>) -> SessionModel {
    match r {
        Ok(t) => t,
        Err(_) => s,
    }
}

/// Whether a `Result<(), _>` reports the same outcome as a transition.
pub open spec fn same_outcome(
    res: Result<(), SessionError>,
    spec: Result<SessionModel, SessionError>,
) -> bool {
    match spec {
        Ok(_) => res is Ok,
        Err(e) => res == Err::<(), SessionError>(e),
    }
}

impl Session {
    /// Lab default: auto-accept identity after HELLO.
    pub fn new_lab() -> (s: Session)
        ensures
            s@ == spec_new_lab(),
    {
        Session { state: SessionState::Disconnected, lab_auto_accept: true }
    }

    pub fn state(&self) -> (st: SessionState)
        ensures
            st == self@.state,
    {
        self.state
    }

    pub fn lab_auto_accept(&self) -> (b: bool)
        ensures
            b == self@.lab_auto_accept,
    {
        self.lab_auto_accept
    }

    pub fn on_quic_connected(&mut self) -> (res: Result<(), SessionError>)
        ensures
            same_outcome(res, spec_on_quic_connected(old(self)@)),
            final(self)@ == after(old(self)@, spec_on_quic_connected(old(self)@)),
    {
        self.step(SessionState::Disconnected, SessionState::QuicConnected, "quic_connected")
    }

    /// HELLO / HELLO_ACK accepted. With lab auto-accept, continues to READY.
    pub fn on_hello_ok(&mut self) -> (res: Result<(), SessionError>)
        ensures
            same_outcome(res, spec_on_hello_ok(old(self)@)),
            final(self)@ == after(old(self)@, spec_on_hello_ok(old(self)@)),
    {
        self.step(SessionState::QuicConnected, SessionState::MnpHello, "hello")?;
        self.step(SessionState::MnpHello, SessionState::IdentityPending, "hello")?;
        if self.lab_auto_accept {
            self.step(
                SessionState::IdentityPending,
                SessionState::Authenticated,
                "lab_auto_accept",
            )?;
            // AUTHENTICATED -> READY is a no-op until policy exists.
            self.step(SessionState::Authenticated, SessionState::Ready, "authz_noop")?;
        }
        Ok(())
    }

    pub fn on_goodbye_or_loss(&mut self)
        ensures
            final(self)@ == spec_on_goodbye_or_loss(old(self)@),
    {
        self.state = SessionState::Disconnected;
    }

    fn step(&mut self, expected: SessionState, next: SessionState, event: &'static str) -> (res:
        Result<(), SessionError>)
        ensures
            same_outcome(res, spec_step(old(self)@, expected, next, event)),
            final(self)@ == after(old(self)@, spec_step(old(self)@, expected, next, event)),
    {
        if self.state != expected {
            return Err(SessionError::Illegal { from: self.state, event });
        }
        self.state = next;
        Ok(())
    }
}

/// A refused event leaves the session as it was, and no event changes
/// whether identity is auto-accepted.
pub proof fn lemma_refusal_changes_nothing(s: SessionModel)
    ensures
        spec_on_quic_connected(s) is Err ==> after(s, spec_on_quic_connected(s)) == s,
        spec_on_hello_ok(s) is Err ==> after(s, spec_on_hello_ok(s)) == s,
        after(s, spec_on_quic_connected(s)).lab_auto_accept == s.lab_auto_accept,
        after(s, spec_on_hello_ok(s)).lab_auto_accept == s.lab_auto_accept,
        spec_on_goodbye_or_loss(s).lab_auto_accept == s.lab_auto_accept,
{
}

/// A lab session reaches `Ready` after QUIC comes up and HELLO is accepted,
/// and goes back to `Disconnected` on GOODBYE.
pub proof fn lemma_lab_session_reaches_ready()
    ensures
        spec_on_quic_connected(spec_new_lab()) is Ok,
        spec_on_hello_ok(spec_on_quic_connected(spec_new_lab())->Ok_0) == Ok::<
            SessionModel,
            SessionError,
        >(SessionModel { state: SessionState::Ready, lab_auto_accept: true }),
        spec_on_goodbye_or_loss(
            spec_on_hello_ok(spec_on_quic_connected(spec_new_lab())->Ok_0)->Ok_0,
        ).state == SessionState::Disconnected,
{
}

/// HELLO is refused before QUIC is up, and a second QUIC connect is refused.
pub proof fn lemma_out_of_order_events_refused(s: SessionModel)
    ensures
        s.state == SessionState::Disconnected ==> spec_on_hello_ok(s) == Err::<
            SessionModel,
            SessionError,
        >(SessionError::Illegal { from: SessionState::Disconnected, event: "hello" }),
        s.state != SessionState::Disconnected ==> spec_on_quic_connected(s) is Err,
{
}

/// `Ready` is only ever entered through an accepted HELLO on a QUIC-connected
/// session with lab auto-accept.
pub proof fn lemma_ready_only_via_auto_accepted_hello(s: SessionModel)
    requires
        s.state != SessionState::Ready,
    ensures
        after(s, spec_on_quic_connected(s)).state != SessionState::Ready,
        after(s, spec_on_hello_ok(s)).state == SessionState::Ready ==> s.state
            == SessionState::QuicConnected && s.lab_auto_accept,
        spec_on_goodbye_or_loss(s).state != SessionState::Ready,
{
}

/// GOODBYE or loss of the connection goes back to `Disconnected` from every
/// state, keeps auto-accept, and a new QUIC connection is then accepted; so a
/// sequence of events that ends with it always leaves the session
/// disconnected.
pub proof fn lemma_goodbye_always_disconnects(s: SessionModel, events: Seq<SessionEvent>)
    ensures
        spec_on_goodbye_or_loss(s).state == SessionState::Disconnected,
        spec_on_goodbye_or_loss(s).lab_auto_accept == s.lab_auto_accept,
        spec_on_quic_connected(spec_on_goodbye_or_loss(s)) is Ok,
        spec_run(s, events.push(SessionEvent::GoodbyeOrLoss)).state == SessionState::Disconnected,
{
    lemma_run_push(s, events, SessionEvent::GoodbyeOrLoss);
}

/// Running one more event after a sequence is that event on the session the
/// sequence left.
pub proof fn lemma_run_push(s: SessionModel, events: Seq<SessionEvent>, e: SessionEvent)
    ensures
        spec_run(s, events.push(e)) == spec_on_event(spec_run(s, events), e),
    decreases events.len(),
{
    let t = events.push(e);
    assert(t[0] == if events.len() == 0 { e } else { events[0] });
    if events.len() == 0 {
        assert(t.drop_first() =~= Seq::<SessionEvent>::empty());
        assert(spec_run(spec_on_event(s, e), Seq::<SessionEvent>::empty()) == spec_on_event(s, e));
    } else {
        assert(t.drop_first() =~= events.drop_first().push(e));
        lemma_run_push(spec_on_event(s, events[0]), events.drop_first(), e);
    }
}

/// The events a session reacts to.
#[derive(Debug, Clone, Copy, PartialEq, Eq, Structural)]
pub enum SessionEvent {
    QuicConnected,
    HelloOk,
    GoodbyeOrLoss,
}

/// The session after one event, accepted or refused.
pub open spec fn spec_on_event(s: SessionModel, e: SessionEvent) -> SessionModel {
    match e {
        SessionEvent::QuicConnected => after(s, spec_on_quic_connected(s)),
        SessionEvent::HelloOk => after(s, spec_on_hello_ok(s)),
        SessionEvent::GoodbyeOrLoss => spec_on_goodbye_or_loss(s),
    }
}

/// The session after a sequence of events, each accepted or refused in turn.
pub open spec fn spec_run(s: SessionModel, events: Seq<SessionEvent>) -> SessionModel
    decreases events.len(),
{
    if events.len() == 0 {
        s
    } else {
        spec_run(spec_on_event(s, events[0]), events.drop_first())
    }
}

/// No sequence of events, accepted or refused, changes whether identity is
/// auto-accepted: a lab session keeps auto-accept whatever happens to it.
pub proof fn lemma_run_keeps_auto_accept(s: SessionModel, events: Seq<SessionEvent>)
    ensures
        spec_run(s, events).lab_auto_accept == s.lab_auto_accept,
        spec_run(spec_new_lab(), events).lab_auto_accept,
    decreases events.len(),
{
    if events.len() > 0 {
        lemma_run_keeps_auto_accept(spec_on_event(s, events[0]), events.drop_first());
        lemma_run_keeps_auto_accept(spec_on_event(spec_new_lab(), events[0]), events.drop_first());
    }
}

/// A session without auto-accept never reaches `Ready` from another state,
/// whatever events it sees.
pub proof fn lemma_run_without_auto_accept_never_ready(s: SessionModel, events: Seq<SessionEvent>)
    requires
        !s.lab_auto_accept,
        s.state != SessionState::Ready,
    ensures
        spec_run(s, events).state != SessionState::Ready,
    decreases events.len(),
{
    if events.len() > 0 {
        lemma_run_without_auto_accept_never_ready(spec_on_event(s, events[0]), events.drop_first());
    }
}

} // verus!
