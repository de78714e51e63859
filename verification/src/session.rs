//! The session core: the decisions of the IPC facade, as a sequential
//! state machine over the dispatch table, the observer registry and the
//! connection lifecycle.
//!
//! The surrounding process, socket and task plumbing calls in here: it
//! asks `begin_send` for the next line to write, hands every inbound line
//! to `handle_line`, polls replies with `take_reply`, and reports
//! lifecycle events. Everything the session decides is stated here and
//! verified; only the I/O around it is not.

use vstd::prelude::*;

use crate::codec::CmdS;
use crate::codec::Command;
use crate::codec::Message;
use crate::codec::MsgS;
use crate::codec::decode_line;
use crate::codec::encode_command;
use crate::codec::lit_success;
use crate::codec::response_is_success;
use crate::codec::spec_decode_line;
use crate::codec::spec_encode;
use crate::dispatch::DispatchTable;
use crate::dispatch::SlotS;
use crate::dispatch::TakenReply;
use crate::json::Value;
use crate::observer::ValueKind;
use crate::observer::ObservedHandle;
use crate::observer::Registry;
use crate::observer::bump;
use crate::observer::coerce_spec;
use crate::observer::kind_matches;
use crate::observer::obs_preserved;
use crate::state::ConnEvent;
use crate::state::ConnState;
use crate::state::spec_step;
use crate::state::step;

verus! {

/// Why a request did not succeed.
#[derive(Debug, PartialEq)]
pub enum IpcError {
    /// The session is not open: the command was never sent, or the
    /// connection died while it was outstanding.
    Disconnected,
    /// The player answered with a non-success status; holds its error
    /// word. The connection stays open.
    Rejected(String),
}

/// The player binary could not be found or launched. Fatal to the
/// session; reported, never retried silently.
pub struct SpawnError {
    pub detail: String,
}

/// The IPC endpoint never became connectable within the allowed time.
/// Fatal to the session.
pub struct ConnectError {
    pub detail: String,
}

/// How the player is to run.
#[derive(Clone, Copy, PartialEq, Eq, Structural, Debug)]
pub enum PlaybackMode {
    AudioOnly,
    AudioVideo,
}

/// What the supervisor launches the player with.
pub struct SpawnOptions {
    /// The path of the IPC endpoint the player is to create; unique per
    /// session.
    pub ipc_endpoint_path: String,
    /// Extra arguments appended after the computed ones.
    pub extra_args: Vec<String>,
}

pub open spec fn strs_view(v: Seq<String>) -> Seq<Seq<char>> {
    Seq::new(v.len(), |i: int| v[i]@)
}

/// The argument list the player is launched with: the endpoint flag, idle
/// and no-terminal flags, the video switch for audio-only mode, then the
/// caller's extra arguments in order.
pub open spec fn spec_spawn_args(path: Seq<char>, extra: Seq<Seq<char>>, mode: PlaybackMode) -> Seq<
    Seq<char>,
> {
    let base = seq![
        "--input-ipc-server="@ + path,
        "--idle=yes"@,
        "--no-terminal"@,
    ];
    let with_mode = if mode is AudioOnly {
        base.push("--no-video"@)
    } else {
        base
    };
    with_mode + extra
}

/// Computes the player's argument list from the options and mode.
pub fn spawn_args(opts: &SpawnOptions, mode: PlaybackMode) -> (r: Vec<String>)
    ensures
        strs_view(r@) == spec_spawn_args(opts.ipc_endpoint_path@, strs_view(opts.extra_args@), mode),
{
    let ghost target = spec_spawn_args(
        opts.ipc_endpoint_path@,
        strs_view(opts.extra_args@),
        mode,
    );
    let mut r: Vec<String> = Vec::new();
    let mut flag = "--input-ipc-server=".to_owned();
    flag.append(opts.ipc_endpoint_path.as_str());
    r.push(flag);
    r.push("--idle=yes".to_owned());
    r.push("--no-terminal".to_owned());
    match mode {
        PlaybackMode::AudioOnly => {
            r.push("--no-video".to_owned());
        },
        PlaybackMode::AudioVideo => {},
    }
    let ghost baselen = r@.len();
    proof {
        assert(strs_view(r@) =~= target.subrange(0, baselen as int));
    }
    let mut k: usize = 0;
    while k < opts.extra_args.len()
        invariant
            k <= opts.extra_args@.len(),
            r@.len() == baselen + k,
            baselen + opts.extra_args@.len() == target.len(),
            target == spec_spawn_args(opts.ipc_endpoint_path@, strs_view(opts.extra_args@), mode),
            strs_view(r@) == target.subrange(0, baselen + k),
        decreases opts.extra_args@.len() - k,
    {
        r.push(opts.extra_args[k].clone());
        proof {
            assert((target.subrange(0, baselen + k + 1))[baselen + k] == target[baselen + k]);
            assert(target[baselen + k] == strs_view(opts.extra_args@)[k as int]);
            assert(strs_view(r@) =~= target.subrange(0, baselen + k + 1));
        }
        k = k + 1;
    }
    proof {
        assert(target.subrange(0, target.len() as int) =~= target);
    }
    r
}

/// What one inbound line did to the session.
#[derive(Debug, PartialEq)]
pub enum LineOutcome {
    /// A response resolved the pending request under this id.
    ResponseDelivered(u64),
    /// A response named an id with no pending slot: a protocol warning,
    /// nothing changed.
    ResponseIgnored(u64),
    /// A property-change event updated the subscription under this
    /// observer id.
    EventApplied(u64),
    /// An event without an observer id, or for an unknown one: noted and
    /// dropped.
    EventIgnored,
    /// The line decodes as neither message shape: a protocol error; the
    /// line is dropped and the connection stays as it was.
    BadLine,
}

/// The protocol session: connection state, request id allocator, dispatch
/// table and observer registry.
pub struct Session {
    state: ConnState,
    next_request_id: u64,
    dispatch: DispatchTable,
    observers: Registry,
}

impl Session {
    /// Components are well formed and every outstanding request id was
    /// allocated below the next one.
    pub closed spec fn wf(&self) -> bool {
        &&& self.dispatch.wf()
        &&& self.observers.wf()
        &&& forall|id: u64| #[trigger] self.dispatch.has_req(id) ==> id < self.next_request_id
    }

    /// The connection state.
    pub closed spec fn st(&self) -> ConnState {
        self.state
    }

    /// The next request id to be allocated.
    pub closed spec fn next_rid(&self) -> u64 {
        self.next_request_id
    }

    /// The dispatch table, for contracts to inspect.
    pub closed spec fn tbl(&self) -> DispatchTable {
        self.dispatch
    }

    /// The observer registry, for contracts to inspect.
    pub closed spec fn obs(&self) -> Registry {
        self.observers
    }

    /// A fresh session: idle, with nothing outstanding and nothing
    /// observed.
    pub fn new() -> (r: Session)
        ensures
            r.wf(),
            r.st() is Idle,
            r.next_rid() == 1,
            r.tbl().count() == 0,
            r.obs().count() == 0,
            forall|id: u64| !(#[trigger] r.tbl().has_req(id)),
            forall|n: Seq<char>| !(#[trigger] r.obs().has_name(n)),
    {
        Session {
            state: ConnState::Idle,
            next_request_id: 1,
            dispatch: DispatchTable::new(),
            observers: Registry::new(),
        }
    }

    /// Reports a lifecycle event: the state advances by the transition
    /// function and nothing else moves. Quitting and connection failure
    /// have their own entry points, which also resolve waiters.
    pub fn advance(&mut self, e: ConnEvent)
        requires
            old(self).wf(),
        ensures
            final(self).wf(),
            final(self).st() == spec_step(old(self).st(), e),
            final(self).next_rid() == old(self).next_rid(),
            final(self).tbl() == old(self).tbl(),
            final(self).obs() == old(self).obs(),
    {
        self.state = step(self.state, e);
    }

    /// Whether the session is usable: open, commands accepted. False
    /// forever once the session has begun closing.
    pub fn running(&self) -> (r: bool)
        ensures
            r == (self.st() is Open),
    {
        match self.state {
            ConnState::Open => true,
            _ => false,
        }
    }

    /// Starts one command: allocates the next request id, registers its
    /// reply slot — before the line goes out, so a fast response cannot
    /// miss it — and encodes the line to write. Refused exactly when the
    /// session is not open or the id space is spent; a refusal changes
    /// nothing.
    pub fn begin_send(&mut self, cmd: &Command) -> (r: Result<(u64, String), IpcError>)
        requires
            old(self).wf(),
        ensures
            final(self).wf(),
            final(self).st() == old(self).st(),
            final(self).obs() == old(self).obs(),
            match r {
                Ok((id, line)) => {
                    &&& old(self).st() is Open
                    &&& old(self).next_rid() < u64::MAX
                    &&& id == old(self).next_rid()
                    &&& final(self).next_rid() == id + 1
                    &&& line@ == spec_encode(cmd@, id as int)
                    &&& final(self).tbl().has_req(id)
                    &&& final(self).tbl().slot_of(id) is Pending
                    &&& final(self).tbl().count() == old(self).tbl().count() + 1
                    &&& forall|o: u64|
                        o != id ==> #[trigger] final(self).tbl().has_req(o) == old(self).tbl().has_req(o)
                    &&& forall|o: u64|
                        o != id && old(self).tbl().has_req(o) ==> #[trigger] final(self).tbl().slot_of(o) == old(self).tbl().slot_of(o)
                },
                Err(e) => {
                    &&& e is Disconnected
                    &&& !(old(self).st() is Open) || old(self).next_rid() == u64::MAX
                    &&& *final(self) == *old(self)
                },
            },
    {
        match self.state {
            ConnState::Open => {},
            _ => {
                return Err(IpcError::Disconnected);
            },
        }
        if self.next_request_id == u64::MAX {
            return Err(IpcError::Disconnected);
        }
        let id = self.next_request_id;
        self.next_request_id = self.next_request_id + 1;
        let registered = self.dispatch.register(id);
        proof {
            assert(registered);
        }
        let line = encode_command(cmd, id);
        Ok((id, line))
    }

    /// Routes one inbound line: a response resolves its pending slot, a
    /// property-change event updates its subscription, anything else is
    /// noted and dropped. No line — however malformed — moves the
    /// connection state or touches another request or observer.
    pub fn handle_line(&mut self, line: &str) -> (r: LineOutcome)
        requires
            old(self).wf(),
        ensures
            final(self).wf(),
            final(self).st() == old(self).st(),
            final(self).next_rid() == old(self).next_rid(),
            match r {
                LineOutcome::ResponseDelivered(id) => {
                    &&& spec_decode_line(line@) matches Some(MsgS::Response(resp))
                        && resp.request_id == id as int
                    &&& old(self).tbl().has_req(id)
                    &&& old(self).tbl().slot_of(id) is Pending
                    &&& final(self).tbl().has_req(id)
                    &&& final(self).tbl().slot_of(id) == SlotS::Answered(
                        spec_decode_line(line@)->Some_0->Response_0,
                    )
                    &&& forall|o: u64|
                        o != id ==> #[trigger] final(self).tbl().has_req(o) == old(self).tbl().has_req(o)
                    &&& forall|o: u64|
                        o != id && old(self).tbl().has_req(o) ==> #[trigger] final(self).tbl().slot_of(o) == old(self).tbl().slot_of(o)
                    &&& final(self).obs() == old(self).obs()
                },
                LineOutcome::ResponseIgnored(id) => {
                    &&& spec_decode_line(line@) matches Some(MsgS::Response(resp))
                        && resp.request_id == id as int
                    &&& !(old(self).tbl().has_req(id) && old(self).tbl().slot_of(id) is Pending)
                    &&& *final(self) == *old(self)
                },
                LineOutcome::EventApplied(oid) => {
                    &&& spec_decode_line(line@) matches Some(MsgS::Event(ev)) && ev.observer_id
                        == Some(oid as int)
                    &&& old(self).obs().has_obs(oid)
                    &&& final(self).obs().has_obs(oid)
                    &&& final(self).obs().version_of(oid) == bump(old(self).obs().version_of(oid))
                    &&& final(self).obs().value_of(oid) == coerce_spec(
                        spec_decode_line(line@)->Some_0->Event_0.data,
                        old(self).obs().kind_of(oid),
                        old(self).obs().default_of(oid),
                    )
                    &&& forall|o: u64|
                        o != oid && old(self).obs().has_obs(o) ==> #[trigger] obs_preserved(
                            old(self).obs(),
                            final(self).obs(),
                            o,
                        )
                    &&& final(self).tbl() == old(self).tbl()
                },
                LineOutcome::EventIgnored => {
                    &&& spec_decode_line(line@) matches Some(MsgS::Event(ev)) && (match ev.observer_id {
                        Some(oid) => !(0 <= oid <= u64::MAX && old(self).obs().has_obs(
                            oid as u64,
                        )),
                        None => true,
                    })
                    &&& *final(self) == *old(self)
                },
                LineOutcome::BadLine => {
                    &&& spec_decode_line(line@) is None
                    &&& *final(self) == *old(self)
                },
            },
    {
        match decode_line(line) {
            None => LineOutcome::BadLine,
            Some(Message::Response(resp)) => {
                let id = resp.request_id;
                let delivered = self.dispatch.complete(resp);
                if delivered {
                    LineOutcome::ResponseDelivered(id)
                } else {
                    LineOutcome::ResponseIgnored(id)
                }
            },
            Some(Message::Event(ev)) => {
                match ev.observer_id {
                    Some(oid) => {
                        let applied = self.observers.on_event(oid, &ev.data);
                        if applied {
                            LineOutcome::EventApplied(oid)
                        } else {
                            LineOutcome::EventIgnored
                        }
                    },
                    None => LineOutcome::EventIgnored,
                }
            },
        }
    }

    /// The sender's poll for the reply to its own request: the one
    /// response completed under that id — never another caller's — or the
    /// terminal disconnect, or word to keep waiting.
    pub fn take_reply(&mut self, id: u64) -> (r: ReplyPoll)
        requires
            old(self).wf(),
        ensures
            final(self).wf(),
            final(self).st() == old(self).st(),
            final(self).next_rid() == old(self).next_rid(),
            final(self).obs() == old(self).obs(),
            match r {
                ReplyPoll::Waiting => {
                    &&& *final(self) == *old(self)
                    &&& old(self).tbl().has_req(id)
                    &&& old(self).tbl().slot_of(id) is Pending
                },
                ReplyPoll::Success(v) => {
                    &&& old(self).tbl().has_req(id)
                    &&& old(self).tbl().slot_of(id) matches SlotS::Answered(resp)
                        && resp.request_id == id as int && resp.error == lit_success() && v@
                        == resp.data
                    &&& !final(self).tbl().has_req(id)
                },
                ReplyPoll::Rejected(e) => {
                    &&& old(self).tbl().has_req(id)
                    &&& old(self).tbl().slot_of(id) matches SlotS::Answered(resp)
                        && resp.request_id == id as int && resp.error == e@ && e@ != lit_success()
                    &&& !final(self).tbl().has_req(id)
                },
                ReplyPoll::Disconnected => {
                    &&& (!old(self).tbl().has_req(id) && *final(self) == *old(self)) || (old(self).tbl().has_req(id) && old(self).tbl().slot_of(id) is Disconnected && !final(self).tbl().has_req(id))
                },
            },
            forall|o: u64|
                o != id ==> #[trigger] final(self).tbl().has_req(o) == old(self).tbl().has_req(o),
            forall|o: u64|
                o != id && old(self).tbl().has_req(o) ==> #[trigger] final(self).tbl().slot_of(o)
                    == old(self).tbl().slot_of(o),
    {
        let present = self.dispatch_has(id);
        if !present {
            return ReplyPoll::Disconnected;
        }
        match self.dispatch.take(id) {
            None => ReplyPoll::Waiting,
            Some(TakenReply::Disconnected) => ReplyPoll::Disconnected,
            Some(TakenReply::Answered(resp)) => {
                proof {
                    old(self).dispatch.lemma_answer_matches(id);
                }
                if response_is_success(&resp) {
                    ReplyPoll::Success(resp.data)
                } else {
                    ReplyPoll::Rejected(resp.error)
                }
            },
        }
    }

    fn dispatch_has(&self, id: u64) -> (r: bool)
        requires
            self.wf(),
        ensures
            r == self.tbl().has_req(id),
    {
        self.dispatch.contains(id)
    }

    /// Gives up waiting for this id: its slot is dropped, and a late
    /// response under it will be ignored as unknown. Only this caller's
    /// own wait is affected.
    pub fn cancel_request(&mut self, id: u64)
        requires
            old(self).wf(),
        ensures
            final(self).wf(),
            final(self).st() == old(self).st(),
            final(self).next_rid() == old(self).next_rid(),
            final(self).obs() == old(self).obs(),
            !final(self).tbl().has_req(id),
            forall|o: u64|
                o != id ==> #[trigger] final(self).tbl().has_req(o) == old(self).tbl().has_req(o),
            forall|o: u64|
                o != id && old(self).tbl().has_req(o) ==> #[trigger] final(self).tbl().slot_of(o)
                    == old(self).tbl().slot_of(o),
    {
        self.dispatch.cancel(id);
    }

    /// The connection died under the session: the state leaves `Open` for
    /// good and every outstanding request resolves as disconnected — no
    /// waiter is left hanging.
    pub fn fail_connection(&mut self)
        requires
            old(self).wf(),
        ensures
            final(self).wf(),
            final(self).st() == spec_step(old(self).st(), ConnEvent::IoFailed),
            !(final(self).st() is Open),
            final(self).next_rid() == old(self).next_rid(),
            final(self).obs() == old(self).obs(),
            forall|id: u64| #[trigger] final(self).tbl().has_req(id) == old(self).tbl().has_req(id),
            forall|id: u64|
                old(self).tbl().has_req(id) ==> #[trigger] final(self).tbl().slot_of(id) == (if old(self).tbl().slot_of(id) is Pending {
                    SlotS::Disconnected
                } else {
                    old(self).tbl().slot_of(id)
                }),
    {
        self.state = step(self.state, ConnEvent::IoFailed);
        self.dispatch.fail_all();
    }

    /// Asks the session to shut down, from any state, without an error:
    /// from an open session it hands back the encoded quit command to
    /// write, best effort. The state leaves `Open` for good, and every
    /// pending request resolves as disconnected. After this, `running` is
    /// false and stays false, and every later send is refused.
    pub fn quit(&mut self) -> (r: Option<(u64, String)>)
        requires
            old(self).wf(),
        ensures
            final(self).wf(),
            final(self).st() == spec_step(old(self).st(), ConnEvent::QuitRequested),
            !(final(self).st() is Open),
            match r {
                Some((id, line)) => {
                    &&& old(self).st() is Open
                    &&& old(self).next_rid() < u64::MAX
                    &&& id == old(self).next_rid()
                    &&& line@ == spec_encode(CmdS::Quit, id as int)
                },
                None => !(old(self).st() is Open) || old(self).next_rid() == u64::MAX,
            },
            final(self).obs() == old(self).obs(),
            forall|id: u64| #[trigger] final(self).tbl().has_req(id) == old(self).tbl().has_req(id),
            forall|id: u64|
                old(self).tbl().has_req(id) ==> #[trigger] final(self).tbl().slot_of(id) == (if old(self).tbl().slot_of(id) is Pending {
                    SlotS::Disconnected
                } else {
                    old(self).tbl().slot_of(id)
                }),
    {
        let line: Option<(u64, String)> = match self.state {
            ConnState::Open => {
                if self.next_request_id == u64::MAX {
                    None
                } else {
                    let id = self.next_request_id;
                    self.next_request_id = self.next_request_id + 1;
                    let line = encode_command(&Command::Quit, id);
                    Some((id, line))
                }
            },
            _ => None,
        };
        self.state = step(self.state, ConnEvent::QuitRequested);
        self.dispatch.fail_all();
        line
    }

    /// The reader is stopped and the player process is gone: the session
    /// reaches its terminal state, with anything still pending resolved as
    /// disconnected.
    pub fn finish_teardown(&mut self)
        requires
            old(self).wf(),
        ensures
            final(self).wf(),
            final(self).st() == spec_step(old(self).st(), ConnEvent::TeardownDone),
            final(self).next_rid() == old(self).next_rid(),
            final(self).obs() == old(self).obs(),
            forall|id: u64| #[trigger] final(self).tbl().has_req(id) == old(self).tbl().has_req(id),
            forall|id: u64|
                old(self).tbl().has_req(id) ==> #[trigger] final(self).tbl().slot_of(id) == (if old(self).tbl().slot_of(id) is Pending {
                    SlotS::Disconnected
                } else {
                    old(self).tbl().slot_of(id)
                }),
    {
        self.state = step(self.state, ConnEvent::TeardownDone);
        self.dispatch.fail_all();
    }

    /// Starts or joins the observation of a property. The first caller
    /// for a name gets, besides the handle, the registration command to
    /// send — its reply slot already registered; later callers share the
    /// subscription with their own independent handle. Refused exactly
    /// when the session is not open or an id space is spent, changing
    /// nothing.
    pub fn observe(&mut self, name: String, kind: ValueKind, default: Value) -> (r: Result<
        (ObservedHandle, Option<(u64, String)>),
        IpcError,
    >)
        requires
            old(self).wf(),
            kind_matches(default@, kind),
        ensures
            final(self).wf(),
            final(self).st() == old(self).st(),
            match r {
                Ok((h, req)) => {
                    &&& old(self).st() is Open
                    &&& final(self).obs().has_obs(h.id)
                    &&& h.seen == final(self).obs().version_of(h.id)
                    &&& final(self).obs().name_of(h.id) == name@
                    &&& match req {
                        Some((rid, line)) => {
                            &&& !old(self).obs().has_name(name@)
                            &&& final(self).obs().has_name(name@)
                            &&& final(self).obs().version_of(h.id) == 0
                            &&& final(self).obs().value_of(h.id) == default@
                            &&& final(self).obs().default_of(h.id) == default@
                            &&& final(self).obs().kind_of(h.id) == kind
                            &&& rid == old(self).next_rid()
                            &&& final(self).next_rid() == rid + 1
                            &&& line@ == spec_encode(
                                CmdS::ObserveProperty { observer_id: h.id as int, name: name@ },
                                rid as int,
                            )
                            &&& final(self).tbl().has_req(rid)
                            &&& final(self).tbl().slot_of(rid) is Pending
                            &&& forall|o: u64|
                                o != rid ==> #[trigger] final(self).tbl().has_req(o) == old(self).tbl().has_req(o)
                            &&& forall|o: u64|
                                o != rid && old(self).tbl().has_req(o) ==> #[trigger] final(self).tbl().slot_of(o) == old(self).tbl().slot_of(o)
                        },
                        None => {
                            &&& old(self).obs().has_name(name@)
                            &&& h.id == old(self).obs().id_of_name(name@)
                            &&& final(self).obs() == old(self).obs()
                            &&& final(self).tbl() == old(self).tbl()
                            &&& final(self).next_rid() == old(self).next_rid()
                        },
                    }
                    &&& forall|o: u64|
                        o != h.id && old(self).obs().has_obs(o) ==> #[trigger] obs_preserved(
                            old(self).obs(),
                            final(self).obs(),
                            o,
                        )
                },
                Err(e) => {
                    &&& e is Disconnected
                    &&& !(old(self).st() is Open) || old(self).next_rid() == u64::MAX || (!old(self).obs().has_name(name@) && old(self).obs().next_oid() == u64::MAX)
                    &&& *final(self) == *old(self)
                },
            },
    {
        match self.state {
            ConnState::Open => {},
            _ => {
                return Err(IpcError::Disconnected);
            },
        }
        if self.next_request_id == u64::MAX {
            return Err(IpcError::Disconnected);
        }
        let name_for_cmd = name.clone();
        match self.observers.observe(name, kind, default) {
            None => Err(IpcError::Disconnected),
            Some((h, None)) => Ok((h, None)),
            Some((h, Some(oid))) => {
                let rid = self.next_request_id;
                self.next_request_id = self.next_request_id + 1;
                let registered = self.dispatch.register(rid);
                proof {
                    assert(registered);
                }
                let cmd = Command::ObserveProperty { observer_id: oid, name: name_for_cmd };
                let line = encode_command(&cmd, rid);
                Ok((h, Some((rid, line))))
            },
        }
    }
}

impl Session {
    /// What a caller finds answered under its request id is a response
    /// bearing exactly that id: the session can never hand one sender
    /// another sender's reply.
    pub proof fn lemma_reply_isolation(&self, id: u64)
        requires
            self.wf(),
            self.tbl().has_req(id),
            self.tbl().slot_of(id) is Answered,
        ensures
            self.tbl().slot_of(id)->Answered_0.request_id == id as int,
    {
        self.dispatch.lemma_answer_matches(id);
    }

    /// Whether at least one event for the handle's property has been
    /// accepted since this handle last asked. Reads the shared
    /// subscription, moves only this handle's own mark.
    pub fn poll_changed(&self, h: &mut ObservedHandle) -> (r: bool)
        requires
            self.wf(),
            self.obs().has_obs(old(h).id),
        ensures
            r == (self.obs().version_of(old(h).id) != old(h).seen),
            final(h).id == old(h).id,
            final(h).seen == self.obs().version_of(old(h).id),
    {
        h.has_changed(&self.observers)
    }

    /// The latest decoded value of the handle's property, or its
    /// registration default while no event has arrived. Never blocks.
    pub fn current_value(&self, h: &ObservedHandle) -> (v: Value)
        requires
            self.wf(),
            self.obs().has_obs(h.id),
        ensures
            v@ == self.obs().value_of(h.id),
    {
        h.current(&self.observers)
    }
}

/// What polling an outstanding request can say.
#[derive(Debug, PartialEq)]
pub enum ReplyPoll {
    /// Nothing yet: the slot is still pending.
    Waiting,
    /// The player accepted the command; holds the response payload.
    Success(Value),
    /// The player rejected the command; holds its error word.
    Rejected(String),
    /// The session closed or failed before an answer, or no slot exists
    /// under this id any more.
    Disconnected,
}

} // verus!
