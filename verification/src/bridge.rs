//! The per-connection bridge state machine.
//!
//! One bridge multiplexes a WebSocket client, a child language-server
//! process and a heartbeat timer. The surrounding task performs the I/O: it
//! feeds every observed event into the bridge and carries out the returned
//! actions in order. The bridge decides everything else: the transforms
//! applied to each message, the heartbeat bookkeeping, and the guarantee
//! that every path out of the steady state tears the session down — SQL
//! cleanup for whatever was provisioned, then a terminate for the child.
//!
//! While a provisioning request is outstanding (`pending` holds the
//! intercepted `initialize`), the caller must not feed further events; the
//! bridge ignores any that arrive.

use vstd::prelude::*;

use crate::config::{Config, ConfigModel, SqlConfig, SqlConfigModel};
use crate::json::{json_model, Json, JsonModel};
use crate::message::{save_target, spec_save_target};
use crate::provision::{
    provision_request, spec_cleanup_plan, spec_init_options, spec_provision_request,
    spec_rewrite_init_options, CleanupPlan, ProvisionRequest, SqlsDatabase, SqlsDatabaseModel,
};
use crate::remap::{
    remap_message, spec_remap_message, spec_remap_message_ok, RemapDirection,
};

verus! {

/// Why the bridge left its steady state.
#[derive(Clone, Copy, PartialEq, Eq, Structural, Debug)]
pub enum DrainReason {
    /// Two heartbeat ticks elapsed without a pong in between.
    Unhealthy,
    /// The client's stream ended.
    PeerGone,
    /// The child process closed its stdout.
    ChildExited,
    /// A transform, write or provisioning step failed.
    Fatal,
}

/// The bridge's lifecycle.
#[derive(Clone, Copy, PartialEq, Eq, Structural, Debug)]
pub enum BridgeState {
    /// The child is being spawned.
    Starting,
    /// The steady state: events flow.
    Running,
    /// Tearing down: no new input is consumed.
    Draining(DrainReason),
    /// Everything released.
    Closed,
}

/// What the merged client-side input yields.
pub enum SocketEvent {
    /// A text frame that parsed as JSON.
    LspMessage(Json),
    /// A text frame that did not parse: forwarded untouched.
    Raw(Vec<char>),
    /// The peer sent a close frame.
    Close,
    /// A heartbeat reply.
    Pong,
    /// The 30-second timer fired.
    Tick,
    /// The stream is exhausted; the peer is gone.
    End,
}

pub enum SocketEventModel {
    LspMessage(JsonModel),
    Raw(Seq<char>),
    Close,
    Pong,
    Tick,
    End,
}

impl View for SocketEvent {
    type V = SocketEventModel;

    open spec fn view(&self) -> SocketEventModel {
        match self {
            SocketEvent::LspMessage(m) => SocketEventModel::LspMessage(json_model(*m)),
            SocketEvent::Raw(t) => SocketEventModel::Raw(t@),
            SocketEvent::Close => SocketEventModel::Close,
            SocketEvent::Pong => SocketEventModel::Pong,
            SocketEvent::Tick => SocketEventModel::Tick,
            SocketEvent::End => SocketEventModel::End,
        }
    }
}

/// What the child's stdout yields.
pub enum ChildEvent {
    /// One framed message body, with its parse when it parsed.
    Message { raw: Vec<char>, parsed: Option<Json> },
    /// A framing error on the child side; the child may recover.
    CodecFault,
    /// The child closed its stdout.
    Eof,
}

pub enum ChildEventModel {
    Message { raw: Seq<char>, parsed: Option<JsonModel> },
    CodecFault,
    Eof,
}

impl View for ChildEvent {
    type V = ChildEventModel;

    open spec fn view(&self) -> ChildEventModel {
        match self {
            ChildEvent::Message { raw, parsed } => ChildEventModel::Message {
                raw: raw@,
                parsed: match parsed {
                    Some(p) => Some(json_model(*p)),
                    None => None,
                },
            },
            ChildEvent::CodecFault => ChildEventModel::CodecFault,
            ChildEvent::Eof => ChildEventModel::Eof,
        }
    }
}

/// What the caller must carry out, in order.
pub enum Action {
    /// Write the saved document to disk before forwarding.
    WriteFile { path: Vec<char>, text: Vec<char> },
    /// Run the provisioning plan, then report back with `on_provisioned`.
    Provision(ProvisionRequest),
    /// Serialize and frame the message onto the child's stdin.
    ForwardToChild(Json),
    /// Frame the text onto the child's stdin untouched.
    ForwardRawToChild(Vec<char>),
    /// Send the message to the client as a text frame.
    ForwardToClient(Json),
    /// Send the text to the client as a text frame untouched.
    ForwardRawToClient(Vec<char>),
    /// Send a PING frame with an empty payload.
    SendPing,
    /// Send a close frame to the client.
    SendCloseFrame,
    /// Run the cleanup plan against the DBMS.
    RunCleanup(CleanupPlan),
    /// Terminate the child process, then wait for it.
    KillChild,
}

pub enum ActionModel {
    WriteFile { path: Seq<char>, text: Seq<char> },
    Provision((Seq<char>, Seq<char>, SqlConfigModel)),
    ForwardToChild(JsonModel),
    ForwardRawToChild(Seq<char>),
    ForwardToClient(JsonModel),
    ForwardRawToClient(Seq<char>),
    SendPing,
    SendCloseFrame,
    RunCleanup(crate::provision::CleanupPlanModel),
    KillChild,
}

impl View for Action {
    type V = ActionModel;

    open spec fn view(&self) -> ActionModel {
        match self {
            Action::WriteFile { path, text } => ActionModel::WriteFile {
                path: path@,
                text: text@,
            },
            Action::Provision(req) => ActionModel::Provision(req@),
            Action::ForwardToChild(m) => ActionModel::ForwardToChild(json_model(*m)),
            Action::ForwardRawToChild(t) => ActionModel::ForwardRawToChild(t@),
            Action::ForwardToClient(m) => ActionModel::ForwardToClient(json_model(*m)),
            Action::ForwardRawToClient(t) => ActionModel::ForwardRawToClient(t@),
            Action::SendPing => ActionModel::SendPing,
            Action::SendCloseFrame => ActionModel::SendCloseFrame,
            Action::RunCleanup(p) => ActionModel::RunCleanup(p@),
            Action::KillChild => ActionModel::KillChild,
        }
    }
}

pub open spec fn actions_model(v: Seq<Action>) -> Seq<ActionModel> {
    Seq::new(v.len(), |i: int| v[i]@)
}

/// One connection's bridge.
pub struct Bridge {
    pub state: BridgeState,
    /// A pong arrived since the last ping.
    pub alive: bool,
    pub remap: bool,
    pub sync: bool,
    /// The selected server's logical name; `sql` enables provisioning.
    pub server_name: Vec<char>,
    /// The project root URL, `file://`, trailing slash.
    pub root: Vec<char>,
    pub config: Option<Config>,
    /// The provisioned session, once one exists.
    pub database: Option<SqlsDatabase>,
    /// An intercepted `initialize`, parked while provisioning runs.
    pub pending: Option<Json>,
}

pub struct BridgeModel {
    pub state: BridgeState,
    pub alive: bool,
    pub remap: bool,
    pub sync: bool,
    pub server_name: Seq<char>,
    pub root: Seq<char>,
    pub config: Option<ConfigModel>,
    pub database: Option<SqlsDatabaseModel>,
    pub pending: Option<JsonModel>,
}

impl View for Bridge {
    type V = BridgeModel;

    open spec fn view(&self) -> BridgeModel {
        BridgeModel {
            state: self.state,
            alive: self.alive,
            remap: self.remap,
            sync: self.sync,
            server_name: self.server_name@,
            root: self.root@,
            config: match self.config {
                Some(c) => Some(c@),
                None => None,
            },
            database: match self.database {
                Some(d) => Some(d@),
                None => None,
            },
            pending: match self.pending {
                Some(p) => Some(json_model(p)),
                None => None,
            },
        }
    }
}

/// Cleanup for whatever was provisioned, then a terminate for the child.
pub open spec fn spec_drain_actions(b: BridgeModel) -> Seq<ActionModel> {
    (match b.database {
        Some(db) => if db.has_resources() {
            seq![ActionModel::RunCleanup(spec_cleanup_plan(db))]
        } else {
            Seq::empty()
        },
        None => Seq::empty(),
    }) + seq![ActionModel::KillChild]
}

/// Leaving the steady state: record the reason, clean up, kill the child.
pub open spec fn spec_enter_drain(b: BridgeModel, reason: DrainReason) -> (
    BridgeModel,
    Seq<ActionModel>,
) {
    (BridgeModel { state: BridgeState::Draining(reason), ..b }, spec_drain_actions(b))
}

/// Whether the bridge consumes events at all.
pub open spec fn spec_accepts(b: BridgeModel) -> bool {
    b.state is Running && b.pending is None
}

/// The bridge's reaction to one client-side event.
pub open spec fn spec_on_client_event(b: BridgeModel, e: SocketEventModel) -> (
    BridgeModel,
    Seq<ActionModel>,
) {
    if !spec_accepts(b) {
        (b, Seq::empty())
    } else {
        match e {
            SocketEventModel::LspMessage(m) => {
                if b.remap && !spec_remap_message_ok(RemapDirection::ToFile, m, b.root) {
                    spec_enter_drain(b, DrainReason::Fatal)
                } else {
                    let m1 = if b.remap {
                        spec_remap_message(RemapDirection::ToFile, m, b.root)
                    } else {
                        m
                    };
                    let writes = if b.sync {
                        match spec_save_target(m1) {
                            Some((path, text)) => seq![ActionModel::WriteFile { path, text }],
                            None => Seq::<ActionModel>::empty(),
                        }
                    } else {
                        Seq::<ActionModel>::empty()
                    };
                    match spec_provision_request(m1, b.server_name, b.config) {
                        Some(req) => (
                            BridgeModel { pending: Some(m1), ..b },
                            writes + seq![ActionModel::Provision(req)],
                        ),
                        None => (b, writes + seq![ActionModel::ForwardToChild(m1)]),
                    }
                }
            },
            SocketEventModel::Raw(t) => (b, seq![ActionModel::ForwardRawToChild(t)]),
            SocketEventModel::Close => (b, Seq::empty()),
            SocketEventModel::Pong => (BridgeModel { alive: true, ..b }, Seq::empty()),
            SocketEventModel::Tick => {
                if b.alive {
                    (BridgeModel { alive: false, ..b }, seq![ActionModel::SendPing])
                } else {
                    spec_enter_drain(b, DrainReason::Unhealthy)
                }
            },
            SocketEventModel::End => spec_enter_drain(b, DrainReason::PeerGone),
        }
    }
}

/// The bridge's reaction to one child-side event.
pub open spec fn spec_on_child_event(b: BridgeModel, e: ChildEventModel) -> (
    BridgeModel,
    Seq<ActionModel>,
) {
    if !spec_accepts(b) {
        (b, Seq::empty())
    } else {
        match e {
            ChildEventModel::Message { raw, parsed } => {
                if b.remap {
                    match parsed {
                        Some(m) => (
                            b,
                            seq![
                                ActionModel::ForwardToClient(
                                    spec_remap_message(RemapDirection::ToSource, m, b.root),
                                ),
                            ],
                        ),
                        None => (b, seq![ActionModel::ForwardRawToClient(raw)]),
                    }
                } else {
                    (b, seq![ActionModel::ForwardRawToClient(raw)])
                }
            },
            ChildEventModel::CodecFault => (b, Seq::empty()),
            ChildEventModel::Eof => {
                let step = spec_enter_drain(b, DrainReason::ChildExited);
                (step.0, seq![ActionModel::SendCloseFrame] + step.1)
            },
        }
    }
}

/// The bridge's reaction to the end of provisioning: on success the parked
/// `initialize` goes to the child rewritten; on failure the connection is
/// fatal and the partial record is cleaned up.
pub open spec fn spec_on_provisioned(
    b: BridgeModel,
    db: SqlsDatabaseModel,
    sc: SqlConfigModel,
    ok: bool,
) -> (BridgeModel, Seq<ActionModel>) {
    if !(b.state is Running && b.pending is Some) {
        (b, Seq::empty())
    } else {
        let b1 = BridgeModel { database: Some(db), pending: None, ..b };
        if ok {
            let msg = spec_rewrite_init_options(b.pending->Some_0, spec_init_options(db, sc));
            (b1, seq![ActionModel::ForwardToChild(msg)])
        } else {
            spec_enter_drain(b1, DrainReason::Fatal)
        }
    }
}

/// A failure outside the bridge (a disk write, a socket send) is fatal.
pub open spec fn spec_on_fatal(b: BridgeModel) -> (BridgeModel, Seq<ActionModel>) {
    if b.state is Running {
        spec_enter_drain(b, DrainReason::Fatal)
    } else {
        (b, Seq::empty())
    }
}

impl Bridge {
    /// A bridge about to spawn its child.
    pub fn new(
        remap: bool,
        sync: bool,
        server_name: Vec<char>,
        root: Vec<char>,
        config: Option<Config>,
    ) -> (r: Bridge)
        ensures
            r@.state == BridgeState::Starting,
            r@.alive,
            r@.remap == remap,
            r@.sync == sync,
            r@.server_name == server_name@,
            r@.root == root@,
            (r@.config == match config {
                Some(c) => Some(c@),
                None => None::<ConfigModel>,
            }),
            r@.database is None,
            r@.pending is None,
    {
        Bridge {
            state: BridgeState::Starting,
            alive: true,
            remap,
            sync,
            server_name,
            root,
            config,
            database: None,
            pending: None,
        }
    }

    /// The child spawned; enter the steady state.
    pub fn started(&mut self)
        requires
            old(self)@.state == BridgeState::Starting,
        ensures
            (final(self)@ == BridgeModel { state: BridgeState::Running, ..old(self)@ }),
    {
        self.state = BridgeState::Running;
    }

    /// The child failed to spawn; nothing to tear down.
    pub fn start_failed(&mut self)
        requires
            old(self)@.state == BridgeState::Starting,
        ensures
            (final(self)@ == BridgeModel { state: BridgeState::Closed, ..old(self)@ }),
    {
        self.state = BridgeState::Closed;
    }

    /// The teardown finished; the bridge is gone.
    pub fn finished(&mut self)
        requires
            old(self)@.state is Draining,
        ensures
            (final(self)@ == BridgeModel { state: BridgeState::Closed, ..old(self)@ }),
    {
        self.state = BridgeState::Closed;
    }

    /// Pushes the drain actions and records the reason.
    fn enter_drain(&mut self, reason: DrainReason) -> (r: Vec<Action>)
        ensures
            (final(self)@, actions_model(r@)) == spec_enter_drain(old(self)@, reason),
    {
        let mut acts: Vec<Action> = Vec::new();
        if let Some(db) = &self.database {
            let needs = db.created_database.is_some() || db.created_user.is_some();
            if needs {
                acts.push(Action::RunCleanup(db.cleanup_plan()));
            }
        }
        acts.push(Action::KillChild);
        self.state = BridgeState::Draining(reason);
        proof {
            assert(actions_model(acts@) =~= spec_drain_actions(old(self)@));
        }
        acts
    }

    /// Reacts to one client-side event.
    pub fn on_client_event(&mut self, e: SocketEvent) -> (r: Vec<Action>)
        ensures
            (final(self)@, actions_model(r@)) == spec_on_client_event(old(self)@, e@),
    {
        let accepts = matches!(self.state, BridgeState::Running) && self.pending.is_none();
        if !accepts {
            let r: Vec<Action> = Vec::new();
            proof {
                assert(actions_model(r@) =~= Seq::<ActionModel>::empty());
            }
            return r;
        }
        match e {
            SocketEvent::LspMessage(m) => {
                let ghost m0 = json_model(m);
                let m1 = if self.remap {
                    match remap_message(RemapDirection::ToFile, m, self.root.as_slice()) {
                        Ok(out) => out,
                        Err(_) => {
                            return self.enter_drain(DrainReason::Fatal);
                        },
                    }
                } else {
                    m
                };
                let ghost m1m = json_model(m1);
                let mut acts: Vec<Action> = Vec::new();
                if self.sync {
                    if let Some(save) = save_target(&m1) {
                        acts.push(Action::WriteFile { path: save.path, text: save.text });
                    }
                }
                let req = provision_request(&m1, self.server_name.as_slice(), &self.config);
                match req {
                    Some(req) => {
                        self.pending = Some(m1);
                        acts.push(Action::Provision(req));
                        proof {
                            assert(actions_model(acts@) =~= spec_on_client_event(
                                old(self)@,
                                e@,
                            ).1);
                        }
                        acts
                    },
                    None => {
                        acts.push(Action::ForwardToChild(m1));
                        proof {
                            assert(actions_model(acts@) =~= spec_on_client_event(
                                old(self)@,
                                e@,
                            ).1);
                        }
                        acts
                    },
                }
            },
            SocketEvent::Raw(t) => {
                let mut acts: Vec<Action> = Vec::new();
                acts.push(Action::ForwardRawToChild(t));
                proof {
                    assert(actions_model(acts@) =~= spec_on_client_event(old(self)@, e@).1);
                }
                acts
            },
            SocketEvent::Close => {
                let r: Vec<Action> = Vec::new();
                proof {
                    assert(actions_model(r@) =~= Seq::<ActionModel>::empty());
                }
                r
            },
            SocketEvent::Pong => {
                self.alive = true;
                let r: Vec<Action> = Vec::new();
                proof {
                    assert(actions_model(r@) =~= Seq::<ActionModel>::empty());
                }
                r
            },
            SocketEvent::Tick => {
                if self.alive {
                    self.alive = false;
                    let mut acts: Vec<Action> = Vec::new();
                    acts.push(Action::SendPing);
                    proof {
                        assert(actions_model(acts@) =~= seq![ActionModel::SendPing]);
                    }
                    acts
                } else {
                    self.enter_drain(DrainReason::Unhealthy)
                }
            },
            SocketEvent::End => self.enter_drain(DrainReason::PeerGone),
        }
    }

    /// Reacts to one child-side event.
    pub fn on_child_event(&mut self, e: ChildEvent) -> (r: Vec<Action>)
        ensures
            (final(self)@, actions_model(r@)) == spec_on_child_event(old(self)@, e@),
    {
        let accepts = matches!(self.state, BridgeState::Running) && self.pending.is_none();
        if !accepts {
            let r: Vec<Action> = Vec::new();
            proof {
                assert(actions_model(r@) =~= Seq::<ActionModel>::empty());
            }
            return r;
        }
        match e {
            ChildEvent::Message { raw, parsed } => {
                let mut acts: Vec<Action> = Vec::new();
                if self.remap {
                    match parsed {
                        Some(m) => {
                            let out = match remap_message(
                                RemapDirection::ToSource,
                                m,
                                self.root.as_slice(),
                            ) {
                                Ok(out) => out,
                                Err(_) => {
                                    proof {
                                        crate::remap::lemma_to_source_total(
                                            json_model(m),
                                            old(self)@.root,
                                        );
                                    }
                                    unreached()
                                },
                            };
                            acts.push(Action::ForwardToClient(out));
                        },
                        None => {
                            acts.push(Action::ForwardRawToClient(raw));
                        },
                    }
                } else {
                    acts.push(Action::ForwardRawToClient(raw));
                }
                proof {
                    assert(actions_model(acts@) =~= spec_on_child_event(old(self)@, e@).1);
                }
                acts
            },
            ChildEvent::CodecFault => {
                let r: Vec<Action> = Vec::new();
                proof {
                    assert(actions_model(r@) =~= Seq::<ActionModel>::empty());
                }
                r
            },
            ChildEvent::Eof => {
                let mut acts: Vec<Action> = Vec::new();
                acts.push(Action::SendCloseFrame);
                let mut rest = self.enter_drain(DrainReason::ChildExited);
                let ghost rest_model = actions_model(rest@);
                acts.append(&mut rest);
                proof {
                    assert(actions_model(acts@) =~= seq![ActionModel::SendCloseFrame]
                        + rest_model);
                }
                acts
            },
        }
    }

    /// Takes the provisioning outcome: the session record as the steps left
    /// it, and whether every step succeeded.
    pub fn on_provisioned(&mut self, db: SqlsDatabase, sc: &SqlConfig, ok: bool) -> (r: Vec<
        Action,
    >)
        ensures
            (final(self)@, actions_model(r@)) == spec_on_provisioned(old(self)@, db@, sc@, ok),
    {
        let accepts = matches!(self.state, BridgeState::Running) && self.pending.is_some();
        if !accepts {
            let r: Vec<Action> = Vec::new();
            proof {
                assert(actions_model(r@) =~= Seq::<ActionModel>::empty());
            }
            return r;
        }
        let pending = match self.pending.take() {
            Some(p) => p,
            None => unreached(),
        };
        if ok {
            let opts = crate::provision::init_options_json(&db, sc);
            self.database = Some(db);
            let msg = crate::provision::rewrite_init_options(pending, opts);
            let mut acts: Vec<Action> = Vec::new();
            acts.push(Action::ForwardToChild(msg));
            proof {
                assert(actions_model(acts@) =~= spec_on_provisioned(old(self)@, db@, sc@, ok).1);
            }
            acts
        } else {
            self.database = Some(db);
            self.enter_drain(DrainReason::Fatal)
        }
    }

    /// Reacts to a failed disk write or socket send.
    pub fn on_fatal(&mut self) -> (r: Vec<Action>)
        ensures
            (final(self)@, actions_model(r@)) == spec_on_fatal(old(self)@),
    {
        if matches!(self.state, BridgeState::Running) {
            self.enter_drain(DrainReason::Fatal)
        } else {
            let r: Vec<Action> = Vec::new();
            proof {
                assert(actions_model(r@) =~= Seq::<ActionModel>::empty());
            }
            r
        }
    }
}

/// A bridge folded over a sequence of client-side events, with every action
/// it emits along the way, in order.
pub open spec fn spec_run_client(b: BridgeModel, evs: Seq<SocketEventModel>) -> (
    BridgeModel,
    Seq<ActionModel>,
)
    decreases evs.len(),
{
    if evs.len() == 0 {
        (b, Seq::empty())
    } else {
        let step = spec_on_client_event(b, evs[0]);
        let rest = spec_run_client(step.0, evs.drop_first());
        (rest.0, step.1 + rest.1)
    }
}

/// A bridge folded over a sequence of child-side events.
pub open spec fn spec_run_child(b: BridgeModel, evs: Seq<ChildEventModel>) -> (
    BridgeModel,
    Seq<ActionModel>,
)
    decreases evs.len(),
{
    if evs.len() == 0 {
        (b, Seq::empty())
    } else {
        let step = spec_on_child_event(b, evs[0]);
        let rest = spec_run_child(step.0, evs.drop_first());
        (rest.0, step.1 + rest.1)
    }
}

pub open spec fn count_cleanups(acts: Seq<ActionModel>) -> nat
    decreases acts.len(),
{
    if acts.len() == 0 {
        0
    } else {
        (if acts[0] is RunCleanup {
            1nat
        } else {
            0nat
        }) + count_cleanups(acts.drop_first())
    }
}

pub open spec fn count_kills(acts: Seq<ActionModel>) -> nat
    decreases acts.len(),
{
    if acts.len() == 0 {
        0
    } else {
        (if acts[0] is KillChild {
            1nat
        } else {
            0nat
        }) + count_kills(acts.drop_first())
    }
}

proof fn lemma_counts_concat(a: Seq<ActionModel>, b: Seq<ActionModel>)
    ensures
        count_cleanups(a + b) == count_cleanups(a) + count_cleanups(b),
        count_kills(a + b) == count_kills(a) + count_kills(b),
    decreases a.len(),
{
    if a.len() == 0 {
        assert(a + b =~= b);
    } else {
        lemma_counts_concat(a.drop_first(), b);
        assert((a + b).drop_first() =~= a.drop_first() + b);
    }
}

/// Any event the bridge can observe, from either side or from a failed
/// action.
pub enum BridgeEventModel {
    FromClient(SocketEventModel),
    FromChild(ChildEventModel),
    ActionFailed,
}

/// One observed event's effect.
pub open spec fn spec_step(b: BridgeModel, e: BridgeEventModel) -> (BridgeModel, Seq<ActionModel>) {
    match e {
        BridgeEventModel::FromClient(ev) => spec_on_client_event(b, ev),
        BridgeEventModel::FromChild(ev) => spec_on_child_event(b, ev),
        BridgeEventModel::ActionFailed => spec_on_fatal(b),
    }
}

/// A bridge folded over everything it observes, with every action emitted
/// along the way, in order.
pub open spec fn spec_run(b: BridgeModel, evs: Seq<BridgeEventModel>) -> (
    BridgeModel,
    Seq<ActionModel>,
)
    decreases evs.len(),
{
    if evs.len() == 0 {
        (b, Seq::empty())
    } else {
        let step = spec_step(b, evs[0]);
        let rest = spec_run(step.0, evs.drop_first());
        (rest.0, step.1 + rest.1)
    }
}

/// Once the bridge has left the steady state, events do nothing more.
proof fn lemma_run_stuck(b: BridgeModel, evs: Seq<BridgeEventModel>)
    requires
        !(b.state is Running),
    ensures
        spec_run(b, evs).0 == b,
        spec_run(b, evs).1 == Seq::<ActionModel>::empty(),
    decreases evs.len(),
{
    if evs.len() > 0 {
        lemma_run_stuck(b, evs.drop_first());
        assert(Seq::<ActionModel>::empty() + Seq::<ActionModel>::empty()
            =~= Seq::<ActionModel>::empty());
    }
}

/// What one observed event does to the state, the record, and the counters.
proof fn lemma_step_counts(b: BridgeModel, e: BridgeEventModel)
    requires
        b.state is Running,
    ensures
        ({
            let step = spec_step(b, e);
            &&& step.0.state is Running || step.0.state is Draining
            &&& step.0.database == b.database
            &&& (step.0.state is Running ==> count_cleanups(step.1) == 0 && count_kills(step.1)
                == 0)
            &&& (step.0.state is Draining ==> count_cleanups(step.1) == (
            if b.database matches Some(db) && db.has_resources() {
                1nat
            } else {
                0nat
            }) && count_kills(step.1) == 1)
        }),
{
    match e {
        BridgeEventModel::FromClient(ev) => {
            lemma_client_step_counts(b, ev);
        },
        BridgeEventModel::FromChild(ev) => {
            let step = spec_on_child_event(b, ev);
            if !spec_accepts(b) {
                lemma_counts_none(step.1);
            } else {
                match ev {
                    ChildEventModel::Message { raw, parsed } => {
                        lemma_counts_none(step.1);
                    },
                    ChildEventModel::CodecFault => {
                        lemma_counts_none(step.1);
                    },
                    ChildEventModel::Eof => {
                        lemma_drain_counts(b);
                        lemma_counts_concat(seq![ActionModel::SendCloseFrame], spec_drain_actions(b));
                        lemma_counts_single(ActionModel::SendCloseFrame);
                    },
                }
            }
        },
        BridgeEventModel::ActionFailed => {
            lemma_drain_counts(b);
        },
    }
}

/// Cleanup guarantee: starting from the steady state with a provisioned
/// record that holds resources, any run of observed events that reaches
/// `Draining` emits the cleanup exactly once and terminates the child
/// exactly once; a run that stays in the steady state emits neither.
pub proof fn lemma_cleanup_exactly_once(b: BridgeModel, evs: Seq<BridgeEventModel>)
    requires
        b.state is Running,
        b.database matches Some(db) && db.has_resources(),
    ensures
        spec_run(b, evs).0.state is Draining ==> count_cleanups(spec_run(b, evs).1) == 1
            && count_kills(spec_run(b, evs).1) == 1,
        spec_run(b, evs).0.state is Running ==> count_cleanups(spec_run(b, evs).1) == 0
            && count_kills(spec_run(b, evs).1) == 0,
    decreases evs.len(),
{
    if evs.len() > 0 {
        let step = spec_step(b, evs[0]);
        let rest = spec_run(step.0, evs.drop_first());
        lemma_counts_concat(step.1, rest.1);
        lemma_step_counts(b, evs[0]);
        if step.0.state is Running {
            lemma_cleanup_exactly_once(step.0, evs.drop_first());
        } else {
            lemma_run_stuck(step.0, evs.drop_first());
        }
    }
}

/// No action sequence without cleanup or kill steps counts any.
proof fn lemma_counts_none(acts: Seq<ActionModel>)
    requires
        forall|i: int|
            0 <= i < acts.len() ==> !((#[trigger] acts[i]) is RunCleanup) && !(acts[i] is KillChild),
    ensures
        count_cleanups(acts) == 0,
        count_kills(acts) == 0,
    decreases acts.len(),
{
    if acts.len() > 0 {
        assert forall|i: int| 0 <= i < acts.drop_first().len() implies !((#[trigger] acts.drop_first()[i]) is RunCleanup) && !(acts.drop_first()[i] is KillChild) by {
            assert(acts.drop_first()[i] == acts[i + 1]);
        }
        assert(!(acts[0] is RunCleanup) && !(acts[0] is KillChild));
        lemma_counts_none(acts.drop_first());
        assert(count_cleanups(acts) == (if acts[0] is RunCleanup {
            1nat
        } else {
            0nat
        }) + count_cleanups(acts.drop_first()));
    }
}

proof fn lemma_counts_single(a: ActionModel)
    ensures
        count_cleanups(seq![a]) == (if a is RunCleanup {
            1nat
        } else {
            0nat
        }),
        count_kills(seq![a]) == (if a is KillChild {
            1nat
        } else {
            0nat
        }),
{
    assert(count_cleanups(Seq::<ActionModel>::empty()) == 0);
    assert(count_kills(Seq::<ActionModel>::empty()) == 0);
    assert(seq![a].drop_first() =~= Seq::<ActionModel>::empty());
}

/// What one client step does to the state, the record, and the counters.
proof fn lemma_client_step_counts(b: BridgeModel, e: SocketEventModel)
    requires
        b.state is Running,
    ensures
        ({
            let step = spec_on_client_event(b, e);
            &&& step.0.state is Running || step.0.state is Draining
            &&& step.0.database == b.database
            &&& (step.0.state is Running ==> count_cleanups(step.1) == 0 && count_kills(step.1)
                == 0)
            &&& (step.0.state is Draining ==> count_cleanups(step.1) == (
            if b.database matches Some(db) && db.has_resources() {
                1nat
            } else {
                0nat
            }) && count_kills(step.1) == 1)
        }),
{
    let step = spec_on_client_event(b, e);
    if !spec_accepts(b) {
        lemma_counts_none(step.1);
    } else {
        lemma_drain_counts(b);
        match e {
            SocketEventModel::LspMessage(m) => {
                if !(b.remap && !spec_remap_message_ok(RemapDirection::ToFile, m, b.root)) {
                    lemma_counts_none(step.1);
                }
            },
            SocketEventModel::Raw(t) => {
                lemma_counts_none(step.1);
            },
            SocketEventModel::Close => {
                lemma_counts_none(step.1);
            },
            SocketEventModel::Pong => {
                lemma_counts_none(step.1);
            },
            SocketEventModel::Tick => {
                if b.alive {
                    lemma_counts_none(step.1);
                }
            },
            SocketEventModel::End => {},
        }
    }
}

/// The drain actions hold one cleanup when resources exist, and one kill.
proof fn lemma_drain_counts(b: BridgeModel)
    ensures
        count_cleanups(spec_drain_actions(b)) == (
        if b.database matches Some(db) && db.has_resources() {
            1nat
        } else {
            0nat
        }),
        count_kills(spec_drain_actions(b)) == 1,
{
    let front = match b.database {
        Some(db) => if db.has_resources() {
            seq![ActionModel::RunCleanup(spec_cleanup_plan(db))]
        } else {
            Seq::<ActionModel>::empty()
        },
        None => Seq::<ActionModel>::empty(),
    };
    lemma_counts_concat(front, seq![ActionModel::KillChild]);
    lemma_counts_single(ActionModel::KillChild);
    match b.database {
        Some(db) => {
            if db.has_resources() {
                lemma_counts_single(ActionModel::RunCleanup(spec_cleanup_plan(db)));
            } else {
                lemma_counts_none(front);
            }
        },
        None => {
            lemma_counts_none(front);
        },
    }
}

/// An event that is neither tick nor pong cannot revive the heartbeat: a
/// bridge whose liveness bit is down stays down until a pong, or leaves the
/// steady state.
proof fn lemma_dead_stays_dead(b: BridgeModel, evs: Seq<SocketEventModel>)
    requires
        !(b.state is Running) || !b.alive,
        forall|i: int|
            0 <= i < evs.len() ==> !((#[trigger] evs[i]) is Tick) && !(evs[i] is Pong),
    ensures
        !(spec_run_client(b, evs).0.state is Running) || !spec_run_client(b, evs).0.alive,
    decreases evs.len(),
{
    if evs.len() > 0 {
        let step = spec_on_client_event(b, evs[0]);
        assert(forall|i: int|
            0 <= i < evs.drop_first().len() ==> !((#[trigger] evs.drop_first()[i]) is Tick) && !(
            evs.drop_first()[i] is Pong));
        lemma_dead_stays_dead(step.0, evs.drop_first());
    }
}

/// Heartbeat liveness, timeout side: after a tick, if no pong arrives
/// before the next tick, that next tick drains the bridge as unhealthy.
pub proof fn lemma_heartbeat_timeout(b: BridgeModel, between: Seq<SocketEventModel>)
    requires
        spec_accepts(b),
        forall|i: int|
            0 <= i < between.len() ==> !((#[trigger] between[i]) is Tick) && !(between[i] is Pong),
    ensures
        ({
            let b1 = spec_on_client_event(b, SocketEventModel::Tick).0;
            let b2 = spec_run_client(b1, between).0;
            b2.state is Running && b2.pending is None ==> spec_on_client_event(
                b2,
                SocketEventModel::Tick,
            ).0.state == BridgeState::Draining(DrainReason::Unhealthy)
        }),
{
    let b1 = spec_on_client_event(b, SocketEventModel::Tick).0;
    lemma_dead_stays_dead(b1, between);
}

/// Control traffic: events that touch neither the message path nor the
/// heartbeat clock.
pub open spec fn control_event(e: SocketEventModel) -> bool {
    e is Raw || e is Close || e is Pong
}

proof fn lemma_alive_stays_alive(b: BridgeModel, evs: Seq<SocketEventModel>)
    requires
        b.state is Running,
        b.alive,
        forall|i: int| 0 <= i < evs.len() ==> control_event(#[trigger] evs[i]),
    ensures
        spec_run_client(b, evs).0.state is Running,
        spec_run_client(b, evs).0.alive,
        spec_run_client(b, evs).0.pending == b.pending,
    decreases evs.len(),
{
    if evs.len() > 0 {
        let step = spec_on_client_event(b, evs[0]);
        assert(forall|i: int|
            0 <= i < evs.drop_first().len() ==> control_event(#[trigger] evs.drop_first()[i]));
        lemma_alive_stays_alive(step.0, evs.drop_first());
    }
}

/// Heartbeat liveness, pong side: a pong between two ticks keeps the bridge
/// in the steady state through the next tick. Stated over control traffic;
/// message events are covered by the timeout side.
pub proof fn lemma_heartbeat_pong(
    b: BridgeModel,
    before: Seq<SocketEventModel>,
    after: Seq<SocketEventModel>,
)
    requires
        spec_accepts(b),
        b.alive,
        forall|i: int| 0 <= i < before.len() ==> control_event(#[trigger] before[i]),
        forall|i: int| 0 <= i < after.len() ==> control_event(#[trigger] after[i]),
    ensures
        ({
            let b1 = spec_on_client_event(b, SocketEventModel::Tick).0;
            let b2 = spec_run_client(b1, before + seq![SocketEventModel::Pong] + after).0;
            spec_on_client_event(b2, SocketEventModel::Tick).0.state is Running
        }),
{
    let b1 = spec_on_client_event(b, SocketEventModel::Tick).0;
    let evs = before + seq![SocketEventModel::Pong] + after;
    lemma_run_client_append(b1, before + seq![SocketEventModel::Pong], after);
    lemma_run_client_append(b1, before, seq![SocketEventModel::Pong]);
    assert((before + seq![SocketEventModel::Pong]) + after =~= evs);
    let ba = spec_run_client(b1, before).0;
    lemma_control_keeps_running(b1, before);
    let bp = spec_on_client_event(ba, SocketEventModel::Pong).0;
    assert(spec_run_client(ba, seq![SocketEventModel::Pong]).0 == bp) by {
        assert(seq![SocketEventModel::Pong].drop_first() =~= Seq::<SocketEventModel>::empty());
        assert(seq![SocketEventModel::Pong][0] == SocketEventModel::Pong);
        assert(spec_run_client(bp, Seq::<SocketEventModel>::empty()).0 == bp);
    }
    assert(bp.state is Running && bp.alive);
    lemma_alive_stays_alive(bp, after);
}

/// Control traffic keeps the bridge in the steady state with no pending
/// provisioning.
proof fn lemma_control_keeps_running(b: BridgeModel, evs: Seq<SocketEventModel>)
    requires
        b.state is Running,
        b.pending is None,
        forall|i: int| 0 <= i < evs.len() ==> control_event(#[trigger] evs[i]),
    ensures
        spec_run_client(b, evs).0.state is Running,
        spec_run_client(b, evs).0.pending is None,
    decreases evs.len(),
{
    if evs.len() > 0 {
        let step = spec_on_client_event(b, evs[0]);
        assert(forall|i: int|
            0 <= i < evs.drop_first().len() ==> control_event(#[trigger] evs.drop_first()[i]));
        lemma_control_keeps_running(step.0, evs.drop_first());
    }
}

/// Folding a run splits at any concatenation point.
proof fn lemma_run_client_append(b: BridgeModel, e1: Seq<SocketEventModel>, e2: Seq<SocketEventModel>)
    ensures
        spec_run_client(b, e1 + e2).0 == spec_run_client(spec_run_client(b, e1).0, e2).0,
        spec_run_client(b, e1 + e2).1 == spec_run_client(b, e1).1 + spec_run_client(
            spec_run_client(b, e1).0,
            e2,
        ).1,
    decreases e1.len(),
{
    if e1.len() == 0 {
        assert(e1 + e2 =~= e2);
        assert(Seq::<ActionModel>::empty() + spec_run_client(b, e2).1 =~= spec_run_client(
            b,
            e2,
        ).1);
    } else {
        let step = spec_on_client_event(b, e1[0]);
        assert((e1 + e2).drop_first() =~= e1.drop_first() + e2);
        lemma_run_client_append(step.0, e1.drop_first(), e2);
        assert(step.1 + (spec_run_client(step.0, e1.drop_first()).1 + spec_run_client(
            spec_run_client(step.0, e1.drop_first()).0,
            e2,
        ).1) =~= (step.1 + spec_run_client(step.0, e1.drop_first()).1) + spec_run_client(
            spec_run_client(step.0, e1.drop_first()).0,
            e2,
        ).1);
    }
}

/// The messages a run forwards to the child, in order.
pub open spec fn forwards_to_child(acts: Seq<ActionModel>) -> Seq<ActionModel>
    decreases acts.len(),
{
    if acts.len() == 0 {
        Seq::empty()
    } else {
        (if acts[0] is ForwardToChild || acts[0] is ForwardRawToChild {
            seq![acts[0]]
        } else {
            Seq::<ActionModel>::empty()
        }) + forwards_to_child(acts.drop_first())
    }
}

proof fn lemma_forwards_concat(a: Seq<ActionModel>, b: Seq<ActionModel>)
    ensures
        forwards_to_child(a + b) == forwards_to_child(a) + forwards_to_child(b),
    decreases a.len(),
{
    if a.len() == 0 {
        assert(a + b =~= b);
        assert(Seq::<ActionModel>::empty() + forwards_to_child(b) =~= forwards_to_child(b));
    } else {
        lemma_forwards_concat(a.drop_first(), b);
        assert((a + b).drop_first() =~= a.drop_first() + b);
        let head = if a[0] is ForwardToChild || a[0] is ForwardRawToChild {
            seq![a[0]]
        } else {
            Seq::<ActionModel>::empty()
        };
        assert((a + b)[0] == a[0]);
        assert(head + (forwards_to_child(a.drop_first()) + forwards_to_child(b)) =~= (head
            + forwards_to_child(a.drop_first())) + forwards_to_child(b));
    }
}

/// FIFO toward the child: two messages sent by the client in order are
/// forwarded to the child's stdin in that order, each in its transformed
/// form. Stated for messages that transform cleanly and do not start
/// provisioning; a provisioning `initialize` parks the stream instead.
pub proof fn lemma_fifo_to_child(b: BridgeModel, m1: JsonModel, m2: JsonModel)
    requires
        spec_accepts(b),
        b.remap ==> spec_remap_message_ok(RemapDirection::ToFile, m1, b.root),
        b.remap ==> spec_remap_message_ok(RemapDirection::ToFile, m2, b.root),
        spec_provision_request(
            (if b.remap {
                spec_remap_message(RemapDirection::ToFile, m1, b.root)
            } else {
                m1
            }),
            b.server_name,
            b.config,
        ) is None,
        spec_provision_request(
            (if b.remap {
                spec_remap_message(RemapDirection::ToFile, m2, b.root)
            } else {
                m2
            }),
            b.server_name,
            b.config,
        ) is None,
    ensures
        ({
            let t1 = if b.remap {
                spec_remap_message(RemapDirection::ToFile, m1, b.root)
            } else {
                m1
            };
            let t2 = if b.remap {
                spec_remap_message(RemapDirection::ToFile, m2, b.root)
            } else {
                m2
            };
            forwards_to_child(
                spec_run_client(
                    b,
                    seq![SocketEventModel::LspMessage(m1), SocketEventModel::LspMessage(m2)],
                ).1,
            ) == seq![ActionModel::ForwardToChild(t1), ActionModel::ForwardToChild(t2)]
        }),
{
    let t1 = if b.remap {
        spec_remap_message(RemapDirection::ToFile, m1, b.root)
    } else {
        m1
    };
    let t2 = if b.remap {
        spec_remap_message(RemapDirection::ToFile, m2, b.root)
    } else {
        m2
    };
    let evs = seq![SocketEventModel::LspMessage(m1), SocketEventModel::LspMessage(m2)];
    let step1 = spec_on_client_event(b, evs[0]);
    assert(evs.drop_first() =~= seq![SocketEventModel::LspMessage(m2)]);
    let step2 = spec_on_client_event(step1.0, SocketEventModel::LspMessage(m2));
    assert(seq![SocketEventModel::LspMessage(m2)].drop_first()
        =~= Seq::<SocketEventModel>::empty());
    assert(spec_run_client(step2.0, Seq::<SocketEventModel>::empty()).1
        == Seq::<ActionModel>::empty());
    assert(seq![SocketEventModel::LspMessage(m2)][0] == SocketEventModel::LspMessage(m2));
    assert(spec_run_client(step1.0, seq![SocketEventModel::LspMessage(m2)]).1 == step2.1
        + Seq::<ActionModel>::empty());
    assert(evs[0] == SocketEventModel::LspMessage(m1));
    assert(spec_run_client(b, evs).1 == step1.1 + (step2.1 + Seq::<ActionModel>::empty()));
    assert(step2.1 + Seq::<ActionModel>::empty() =~= step2.1);
    assert(spec_run_client(b, evs).1 == step1.1 + step2.1);
    lemma_forwards_concat(step1.1, step2.1);
    lemma_forwards_one_message(b, m1);
    assert(step1.0 == b || step1.0 == BridgeModel { alive: b.alive, ..b });
    lemma_forwards_one_message(step1.0, m2);
    assert(forwards_to_child(step1.1) =~= seq![ActionModel::ForwardToChild(t1)]);
    assert(forwards_to_child(step2.1) =~= seq![ActionModel::ForwardToChild(t2)]);
    assert(seq![ActionModel::ForwardToChild(t1)] + seq![ActionModel::ForwardToChild(t2)] =~= seq![
        ActionModel::ForwardToChild(t1),
        ActionModel::ForwardToChild(t2),
    ]);
}

/// One cleanly transforming, non-provisioning message leaves the bridge
/// unchanged and forwards exactly its transformed form.
proof fn lemma_forwards_one_message(b: BridgeModel, m: JsonModel)
    requires
        spec_accepts(b),
        b.remap ==> spec_remap_message_ok(RemapDirection::ToFile, m, b.root),
        spec_provision_request(
            (if b.remap {
                spec_remap_message(RemapDirection::ToFile, m, b.root)
            } else {
                m
            }),
            b.server_name,
            b.config,
        ) is None,
    ensures
        ({
            let t = if b.remap {
                spec_remap_message(RemapDirection::ToFile, m, b.root)
            } else {
                m
            };
            let step = spec_on_client_event(b, SocketEventModel::LspMessage(m));
            step.0 == b && forwards_to_child(step.1) == seq![ActionModel::ForwardToChild(t)]
        }),
{
    let t = if b.remap {
        spec_remap_message(RemapDirection::ToFile, m, b.root)
    } else {
        m
    };
    let step = spec_on_client_event(b, SocketEventModel::LspMessage(m));
    let writes = if b.sync {
        match spec_save_target(t) {
            Some((path, text)) => seq![ActionModel::WriteFile { path, text }],
            None => Seq::<ActionModel>::empty(),
        }
    } else {
        Seq::<ActionModel>::empty()
    };
    lemma_forwards_concat(writes, seq![ActionModel::ForwardToChild(t)]);
    assert(forwards_to_child(Seq::<ActionModel>::empty()) =~= Seq::<ActionModel>::empty());
    assert(forwards_to_child(writes) =~= Seq::<ActionModel>::empty()) by {
        if writes.len() > 0 {
            assert(writes[0] is WriteFile);
            assert(writes.drop_first() =~= Seq::<ActionModel>::empty());
            assert(Seq::<ActionModel>::empty() + forwards_to_child(Seq::<ActionModel>::empty())
                =~= Seq::<ActionModel>::empty());
        }
    }
    assert(forwards_to_child(seq![ActionModel::ForwardToChild(t)]) =~= seq![
        ActionModel::ForwardToChild(t),
    ]) by {
        assert(seq![ActionModel::ForwardToChild(t)].drop_first()
            =~= Seq::<ActionModel>::empty());
        assert(seq![ActionModel::ForwardToChild(t)] + forwards_to_child(
            Seq::<ActionModel>::empty(),
        ) =~= seq![ActionModel::ForwardToChild(t)]);
    }
    assert(Seq::<ActionModel>::empty() + seq![ActionModel::ForwardToChild(t)] =~= seq![
        ActionModel::ForwardToChild(t),
    ]);
}

/// The messages a run forwards to the client, in order.
pub open spec fn forwards_to_client(acts: Seq<ActionModel>) -> Seq<ActionModel>
    decreases acts.len(),
{
    if acts.len() == 0 {
        Seq::empty()
    } else {
        (if acts[0] is ForwardToClient || acts[0] is ForwardRawToClient {
            seq![acts[0]]
        } else {
            Seq::<ActionModel>::empty()
        }) + forwards_to_client(acts.drop_first())
    }
}

/// What one child message forwards to the client: the remapped parse when
/// remapping is on and the text parsed, the raw text otherwise.
pub open spec fn spec_client_forward(
    b: BridgeModel,
    raw: Seq<char>,
    parsed: Option<JsonModel>,
) -> ActionModel {
    if b.remap {
        match parsed {
            Some(m) => ActionModel::ForwardToClient(
                spec_remap_message(RemapDirection::ToSource, m, b.root),
            ),
            None => ActionModel::ForwardRawToClient(raw),
        }
    } else {
        ActionModel::ForwardRawToClient(raw)
    }
}

/// FIFO toward the client: two child messages are forwarded to the client
/// in that order, each in its translated form.
pub proof fn lemma_fifo_to_client(
    b: BridgeModel,
    raw1: Seq<char>,
    p1: Option<JsonModel>,
    raw2: Seq<char>,
    p2: Option<JsonModel>,
)
    requires
        spec_accepts(b),
    ensures
        ({
            let evs = seq![
                ChildEventModel::Message { raw: raw1, parsed: p1 },
                ChildEventModel::Message { raw: raw2, parsed: p2 },
            ];
            forwards_to_client(spec_run_child(b, evs).1) == seq![
                spec_client_forward(b, raw1, p1),
                spec_client_forward(b, raw2, p2),
            ]
        }),
{
    let e1 = ChildEventModel::Message { raw: raw1, parsed: p1 };
    let e2 = ChildEventModel::Message { raw: raw2, parsed: p2 };
    let evs = seq![e1, e2];
    let step1 = spec_on_child_event(b, e1);
    assert(evs[0] == e1);
    assert(evs.drop_first() =~= seq![e2]);
    assert(step1.0 == b);
    assert(step1.1 =~= seq![spec_client_forward(b, raw1, p1)]);
    let step2 = spec_on_child_event(b, e2);
    assert(seq![e2][0] == e2);
    assert(seq![e2].drop_first() =~= Seq::<ChildEventModel>::empty());
    assert(step2.1 =~= seq![spec_client_forward(b, raw2, p2)]);
    assert(spec_run_child(step2.0, Seq::<ChildEventModel>::empty()).1
        == Seq::<ActionModel>::empty());
    assert(spec_run_child(b, seq![e2]).1 == step2.1 + Seq::<ActionModel>::empty());
    assert(spec_run_child(b, evs).1 == step1.1 + (step2.1 + Seq::<ActionModel>::empty()));
    assert(spec_run_child(b, evs).1 =~= step1.1 + step2.1);
    lemma_forwards_client_concat(step1.1, step2.1);
    assert(forwards_to_client(step1.1) =~= seq![spec_client_forward(b, raw1, p1)]) by {
        assert(step1.1.drop_first() =~= Seq::<ActionModel>::empty());
        assert(seq![spec_client_forward(b, raw1, p1)] + forwards_to_client(
            Seq::<ActionModel>::empty(),
        ) =~= seq![spec_client_forward(b, raw1, p1)]);
    }
    assert(forwards_to_client(step2.1) =~= seq![spec_client_forward(b, raw2, p2)]) by {
        assert(step2.1.drop_first() =~= Seq::<ActionModel>::empty());
        assert(seq![spec_client_forward(b, raw2, p2)] + forwards_to_client(
            Seq::<ActionModel>::empty(),
        ) =~= seq![spec_client_forward(b, raw2, p2)]);
    }
    assert(seq![spec_client_forward(b, raw1, p1)] + seq![spec_client_forward(b, raw2, p2)] =~= seq![
        spec_client_forward(b, raw1, p1),
        spec_client_forward(b, raw2, p2),
    ]);
}

proof fn lemma_forwards_client_concat(a: Seq<ActionModel>, b: Seq<ActionModel>)
    ensures
        forwards_to_client(a + b) == forwards_to_client(a) + forwards_to_client(b),
    decreases a.len(),
{
    if a.len() == 0 {
        assert(a + b =~= b);
        assert(Seq::<ActionModel>::empty() + forwards_to_client(b) =~= forwards_to_client(b));
    } else {
        lemma_forwards_client_concat(a.drop_first(), b);
        assert((a + b).drop_first() =~= a.drop_first() + b);
        let head = if a[0] is ForwardToClient || a[0] is ForwardRawToClient {
            seq![a[0]]
        } else {
            Seq::<ActionModel>::empty()
        };
        assert((a + b)[0] == a[0]);
        assert(head + (forwards_to_client(a.drop_first()) + forwards_to_client(b)) =~= (head
            + forwards_to_client(a.drop_first())) + forwards_to_client(b));
    }
}


} // verus!