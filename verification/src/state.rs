//! The connection lifecycle: a one-way walk from idle through connecting
//! and open to a terminal state. A session that has closed or failed never
//! comes back; a caller wanting the player again makes a new session.

use vstd::prelude::*;

verus! {

/// Where the connection stands.
#[derive(Clone, Copy, PartialEq, Eq, Structural, Debug)]
pub enum ConnState {
    /// Nothing started yet.
    Idle,
    /// The player process is up and the endpoint is being dialled.
    Connecting,
    /// The channel carries commands and events; the only state in which
    /// requests succeed.
    Open,
    /// Shutdown under way: quit sent or failure seen, teardown pending.
    Closing,
    /// Torn down in an orderly way. Terminal.
    Closed,
    /// Dead from a spawn, connect or teardown failure. Terminal.
    Failed,
}

/// What can happen to a connection.
#[derive(Clone, Copy, PartialEq, Eq, Structural, Debug)]
pub enum ConnEvent {
    /// The player process was started.
    SpawnStarted,
    /// The endpoint accepted the connection.
    ConnectSucceeded,
    /// The endpoint never became connectable.
    ConnectFailed,
    /// A caller asked the session to quit.
    QuitRequested,
    /// Reading or writing the channel failed.
    IoFailed,
    /// The reader is stopped and the process is gone.
    TeardownDone,
}

/// How far along the one-way lifecycle a state is. Transitions never
/// decrease it.
pub open spec fn rank(s: ConnState) -> int {
    match s {
        ConnState::Idle => 0,
        ConnState::Connecting => 1,
        ConnState::Open => 2,
        ConnState::Closing => 3,
        ConnState::Closed => 4,
        ConnState::Failed => 4,
    }
}

pub open spec fn is_terminal(s: ConnState) -> bool {
    s is Closed || s is Failed
}

/// The transition function of the lifecycle.
pub open spec fn spec_step(s: ConnState, e: ConnEvent) -> ConnState {
    match s {
        ConnState::Closed => ConnState::Closed,
        ConnState::Failed => ConnState::Failed,
        ConnState::Idle => match e {
            ConnEvent::SpawnStarted => ConnState::Connecting,
            ConnEvent::QuitRequested => ConnState::Closed,
            _ => ConnState::Idle,
        },
        ConnState::Connecting => match e {
            ConnEvent::ConnectSucceeded => ConnState::Open,
            ConnEvent::ConnectFailed => ConnState::Failed,
            ConnEvent::IoFailed => ConnState::Failed,
            ConnEvent::QuitRequested => ConnState::Closing,
            _ => ConnState::Connecting,
        },
        ConnState::Open => match e {
            ConnEvent::QuitRequested => ConnState::Closing,
            ConnEvent::IoFailed => ConnState::Closing,
            _ => ConnState::Open,
        },
        ConnState::Closing => match e {
            ConnEvent::TeardownDone => ConnState::Closed,
            _ => ConnState::Closing,
        },
    }
}

/// Executable transition, exactly `spec_step`.
pub fn step(s: ConnState, e: ConnEvent) -> (r: ConnState)
    ensures
        r == spec_step(s, e),
{
    match s {
        ConnState::Closed => ConnState::Closed,
        ConnState::Failed => ConnState::Failed,
        ConnState::Idle => match e {
            ConnEvent::SpawnStarted => ConnState::Connecting,
            ConnEvent::QuitRequested => ConnState::Closed,
            _ => ConnState::Idle,
        },
        ConnState::Connecting => match e {
            ConnEvent::ConnectSucceeded => ConnState::Open,
            ConnEvent::ConnectFailed => ConnState::Failed,
            ConnEvent::IoFailed => ConnState::Failed,
            ConnEvent::QuitRequested => ConnState::Closing,
            _ => ConnState::Connecting,
        },
        ConnState::Open => match e {
            ConnEvent::QuitRequested => ConnState::Closing,
            ConnEvent::IoFailed => ConnState::Closing,
            _ => ConnState::Open,
        },
        ConnState::Closing => match e {
            ConnEvent::TeardownDone => ConnState::Closed,
            _ => ConnState::Closing,
        },
    }
}

/// Transitions only move forward: the lifecycle is one-directional.
pub proof fn lemma_step_monotone(s: ConnState, e: ConnEvent)
    ensures
        rank(spec_step(s, e)) >= rank(s),
{
}

/// A terminal state absorbs every event: closed stays closed, failed
/// stays failed, whatever later arrives.
pub proof fn lemma_terminal_absorbing(s: ConnState, e: ConnEvent)
    requires
        is_terminal(s),
    ensures
        spec_step(s, e) == s,
{
}

/// The only way to be open is to have been open already or to have just
/// finished connecting: nothing reopens a session past its shutdown.
pub proof fn lemma_no_reopen(s: ConnState, e: ConnEvent)
    requires
        spec_step(s, e) is Open,
    ensures
        s is Open || (s is Connecting && e is ConnectSucceeded),
{
}

/// Once a session has begun closing — after a quit or a failure — no
/// later event makes it open again: `running` stays false forever.
pub proof fn lemma_closed_for_good(s: ConnState, e: ConnEvent)
    requires
        rank(s) >= 3,
    ensures
        rank(spec_step(s, e)) >= 3,
        !(spec_step(s, e) is Open),
{
}

/// The state after a whole sequence of events, first to last.
pub open spec fn run_events(s: ConnState, es: Seq<ConnEvent>) -> ConnState
    decreases es.len(),
{
    if es.len() == 0 {
        s
    } else {
        run_events(spec_step(s, es[0]), es.skip(1))
    }
}

/// Shutdown is final under every future: from any state past `Open` — as
/// `quit` and `fail_connection` leave it — no sequence of later events
/// ever reaches `Open` again.
pub proof fn lemma_quit_is_final(s: ConnState, es: Seq<ConnEvent>)
    requires
        rank(s) >= 3,
    ensures
        rank(run_events(s, es)) >= 3,
        !(run_events(s, es) is Open),
    decreases es.len(),
{
    if es.len() > 0 {
        lemma_closed_for_good(s, es[0]);
        lemma_quit_is_final(spec_step(s, es[0]), es.skip(1));
    }
}

} // verus!
