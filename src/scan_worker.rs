use vstd::prelude::*;

use vstd::arithmetic::div_mod::{lemma_fundamental_div_mod, lemma_fundamental_div_mod_converse};

use crate::models::{IpPortScanResult, Subnet, SubnetScanConfiguration};
use crate::subnet_helpers::{first_host, host_count, last_host};

verus! {

/// Where a worker is in its life.
#[derive(Clone, Copy, Debug, PartialEq, Eq, Structural)]
pub enum WorkerState {
    /// Not started.
    Idle,
    /// A probe is out; its result is to be sent.
    Running,
    /// Every host and port was probed and sent; the queue is to be closed.
    Done,
    /// A result could not be sent; the scan of the subnet stopped.
    Aborted,
    /// The scan of the subnet was cancelled; the queue is to be closed.
    Cancelled,
}

/// A result that could not be handed to the subnet's queue, because the
/// consuming side had gone away.
#[derive(Clone, Copy, Debug, PartialEq, Eq, Structural)]
pub struct ChannelSendFailure {
    pub subnet: Subnet,
    pub result: IpPortScanResult,
}

/// What the runner of a worker reports to it.
#[derive(Clone, Copy, Debug, PartialEq, Eq, Structural)]
pub enum WorkerEvent {
    /// Begin the scan.
    Start,
    /// The result of the last probe was pushed onto the queue.
    Sent,
    /// The result of the last probe could not be pushed onto the queue.
    SendFailed(IpPortScanResult),
    /// Stop the scan of this subnet.
    Cancel,
}

/// What the worker asks its runner to do next.
#[derive(Clone, Copy, Debug, PartialEq, Eq, Structural)]
pub enum WorkerAction {
    /// Probe `port` on `ip`, then push the result onto the queue.
    Probe { ip: u32, port: u16 },
    /// Close the queue: the subnet is finished.
    Close,
    /// Report the failure: the scan of the subnet stopped.
    Abort(ChannelSendFailure),
    /// The event did not apply to the worker's state; nothing to do.
    Ignore,
}

/// The state of a worker as plain values.
pub struct WorkerView {
    pub config: SubnetScanConfiguration,
    pub sent: nat,
    pub state: WorkerState,
}

/// The number of probes of a scan: each port on each host.
pub open spec fn total_targets(config: SubnetScanConfiguration) -> nat {
    host_count(config.subnet) * config.port_count()
}

/// The `i`-th host and port of a scan: hosts in increasing order, and for
/// each host the ports in increasing order.
pub open spec fn target(config: SubnetScanConfiguration, i: nat) -> (u32, u16) {
    let ports = config.port_count();
    (
        (first_host(config.subnet) + i / ports) as u32,
        (config.begin_port + i % ports) as u16,
    )
}

/// What follows once `sent` results went out: the next probe, or the end.
pub open spec fn next_move(config: SubnetScanConfiguration, sent: nat) -> (WorkerState, WorkerAction) {
    if sent < total_targets(config) {
        let (ip, port) = target(config, sent);
        (WorkerState::Running, WorkerAction::Probe { ip, port })
    } else {
        (WorkerState::Done, WorkerAction::Close)
    }
}

/// How a worker answers an event: its next state and the action it asks for.
pub open spec fn worker_step(w: WorkerView, event: WorkerEvent) -> (WorkerView, WorkerAction) {
    match (w.state, event) {
        (WorkerState::Idle, WorkerEvent::Start) => {
            let (state, action) = next_move(w.config, 0);
            (WorkerView { sent: 0, state, ..w }, action)
        },
        (WorkerState::Running, WorkerEvent::Sent) => {
            let (state, action) = next_move(w.config, w.sent + 1);
            (WorkerView { sent: w.sent + 1, state, ..w }, action)
        },
        (WorkerState::Running, WorkerEvent::SendFailed(result)) => (
            WorkerView { state: WorkerState::Aborted, ..w },
            WorkerAction::Abort(ChannelSendFailure { subnet: w.config.subnet, result }),
        ),
        (WorkerState::Idle, WorkerEvent::Cancel) | (WorkerState::Running, WorkerEvent::Cancel) => (
            WorkerView { state: WorkerState::Cancelled, ..w },
            WorkerAction::Close,
        ),
        _ => (w, WorkerAction::Ignore),
    }
}

/// The worker of a fresh scan of `config`.
pub open spec fn initial_worker(config: SubnetScanConfiguration) -> WorkerView {
    WorkerView { config, sent: 0, state: WorkerState::Idle }
}

/// The actions that a worker asks for when it answers `events` in order,
/// starting from `w`, and the worker it becomes.
pub open spec fn worker_trace(w: WorkerView, events: Seq<WorkerEvent>) -> (WorkerView, Seq<WorkerAction>)
    decreases events.len(),
{
    if events.len() == 0 {
        (w, Seq::empty())
    } else {
        let (before, actions) = worker_trace(w, events.drop_last());
        let (after, action) = worker_step(before, events.last());
        (after, actions.push(action))
    }
}

/// A start, then `n` results sent without failure.
pub open spec fn start_and_sends(n: nat) -> Seq<WorkerEvent> {
    seq![WorkerEvent::Start] + Seq::new(n, |i: int| WorkerEvent::Sent)
}

/// The probe of every target of a scan, in order.
pub open spec fn all_probes(config: SubnetScanConfiguration) -> Seq<WorkerAction> {
    Seq::new(
        total_targets(config),
        |i: int| WorkerAction::Probe { ip: target(config, i as nat).0, port: target(config, i as nat).1 },
    )
}

proof fn lemma_trace_prefix(config: SubnetScanConfiguration, k: nat)
    requires
        k <= total_targets(config),
    ensures
        worker_trace(initial_worker(config), start_and_sends(k)) == (
            WorkerView {
                config,
                sent: k,
                state: if k < total_targets(config) {
                    WorkerState::Running
                } else {
                    WorkerState::Done
                },
            },
            if k < total_targets(config) {
                all_probes(config).take(k as int + 1)
            } else {
                all_probes(config).push(WorkerAction::Close)
            },
        ),
    decreases k,
{
    let total = total_targets(config);
    let events = start_and_sends(k);
    let w = initial_worker(config);
    assert(events.len() > 0);
    assert(worker_trace(w, events) == ({
        let (before, actions) = worker_trace(w, events.drop_last());
        let (after, action) = worker_step(before, events.last());
        (after, actions.push(action))
    }));
    if k == 0 {
        assert(events.drop_last() =~= Seq::<WorkerEvent>::empty());
        if total > 0 {
            assert(all_probes(config).take(1) =~= seq![all_probes(config)[0]]);
        } else {
            assert(all_probes(config) =~= Seq::<WorkerAction>::empty());
        }
    } else {
        lemma_trace_prefix(config, (k - 1) as nat);
        assert(events.drop_last() =~= start_and_sends((k - 1) as nat));
        assert(events.last() == WorkerEvent::Sent);
        if k < total {
            assert(all_probes(config).take(k as int).push(all_probes(config)[k as int])
                =~= all_probes(config).take(k as int + 1));
        } else {
            assert(all_probes(config).take(k as int) =~= all_probes(config));
        }
    }
}

/// The position of host `h` with port `p` among the targets of a scan.
pub open spec fn target_index(config: SubnetScanConfiguration, h: nat, p: nat) -> nat {
    h * config.port_count() + p
}

/// A started worker whose every result is sent asks for exactly one probe
/// per target of its scan, host count times port count of them, in order,
/// and then to close its queue.
pub proof fn lemma_scan_probes_every_target(config: SubnetScanConfiguration)
    ensures
        worker_trace(initial_worker(config), start_and_sends(total_targets(config))) == (
            WorkerView { config, sent: total_targets(config), state: WorkerState::Done },
            all_probes(config).push(WorkerAction::Close),
        ),
        all_probes(config).len() == host_count(config.subnet) * config.port_count(),
{
    lemma_trace_prefix(config, total_targets(config));
}

/// The targets of a scan are each host with each port, once: the target
/// at `h * port_count + p` is host `h` with port `p`, and no two positions
/// share a target.
pub proof fn lemma_targets_cover_hosts_and_ports(config: SubnetScanConfiguration)
    requires
        config.wf(),
        0 <= first_host(config.subnet) <= last_host(config.subnet) <= u32::MAX,
    ensures
        forall|h: nat, p: nat|
            h < host_count(config.subnet) && p < config.port_count() ==> {
                &&& #[trigger] target_index(config, h, p) < total_targets(config)
                &&& target(config, target_index(config, h, p)) == (
                    (first_host(config.subnet) + h) as u32,
                    (config.begin_port + p) as u16,
                )
            },
        forall|i: nat, j: nat|
            i < total_targets(config) && j < total_targets(config) && #[trigger] target(config, i)
                == #[trigger] target(config, j) ==> i == j,
{
    assert forall|h: nat, p: nat|
        h < host_count(config.subnet) && p < config.port_count() implies {
            &&& #[trigger] target_index(config, h, p) < total_targets(config)
            &&& target(config, target_index(config, h, p)) == (
                (first_host(config.subnet) + h) as u32,
                (config.begin_port + p) as u16,
            )
        } by {
        let ports = config.port_count();
        let hosts = host_count(config.subnet);
        let i = target_index(config, h, p);
        lemma_fundamental_div_mod_converse(i as int, ports as int, h as int, p as int);
        assert(i < hosts * ports) by (nonlinear_arith)
            requires
                h < hosts,
                p < ports,
                i == h * ports + p,
        ;
    }
    assert forall|i: nat, j: nat|
        i < total_targets(config) && j < total_targets(config) && #[trigger] target(config, i)
            == #[trigger] target(config, j) implies i == j by {
        let ports = config.port_count();
        lemma_target_in_range(config, i);
        lemma_target_in_range(config, j);
        let first = first_host(config.subnet);
        assert(target(config, i).0 == target(config, j).0);
        assert(i / ports == j / ports);
        assert(config.begin_port + i % ports == config.begin_port + j % ports);
        lemma_fundamental_div_mod(i as int, ports as int);
        lemma_fundamental_div_mod(j as int, ports as int);
    }
}

/// The scan of one subnet: walks every host and port of its configuration
/// in order, one probe at a time, and stops at the first result that cannot
/// be sent.
pub struct SubnetScanWorker {
    config: SubnetScanConfiguration,
    first_host: u32,
    host_count: u64,
    sent: u64,
    state: WorkerState,
}

impl View for SubnetScanWorker {
    type V = WorkerView;

    closed spec fn view(&self) -> WorkerView {
        WorkerView { config: self.config, sent: self.sent as nat, state: self.state }
    }
}

proof fn lemma_target_in_range(config: SubnetScanConfiguration, i: nat)
    requires
        config.wf(),
        first_host(config.subnet) <= last_host(config.subnet),
        i < total_targets(config),
    ensures
        config.port_count() > 0,
        first_host(config.subnet) + i / config.port_count() <= last_host(config.subnet),
        config.begin_port + i % config.port_count() < config.end_port,
{
    let h = host_count(config.subnet);
    let p = config.port_count();
    assert(p > 0) by (nonlinear_arith)
        requires
            i < h * p,
    ;
    assert(i / p < h) by (nonlinear_arith)
        requires
            i < h * p,
            p > 0,
    ;
}

proof fn lemma_total_targets_bound(config: SubnetScanConfiguration)
    requires
        config.wf(),
        host_count(config.subnet) <= 0x1_0000_0000,
    ensures
        total_targets(config) < u64::MAX,
{
    let h = host_count(config.subnet);
    let p = config.port_count();
    assert(h * p <= 0x1_0000_0000 * 0xffff) by (nonlinear_arith)
        requires
            h <= 0x1_0000_0000,
            p <= 0xffff,
    ;
}

impl SubnetScanWorker {
    /// The invariant of a worker: its cached host range is that of its
    /// subnet, and a probe is out only while targets remain.
    pub closed spec fn wf(&self) -> bool {
        &&& self.config.wf()
        &&& self.first_host == first_host(self.config.subnet)
        &&& self.host_count == host_count(self.config.subnet)
        &&& 1 <= self.host_count <= 0x1_0000_0000
        &&& first_host(self.config.subnet) <= last_host(self.config.subnet) <= u32::MAX
        &&& self.sent <= total_targets(self.config)
        &&& self.state == WorkerState::Running ==> self.sent < total_targets(self.config)
    }

    /// An idle worker for `config`.
    pub fn new(config: SubnetScanConfiguration) -> (r: Self)
        requires
            config.wf(),
        ensures
            r.wf(),
            r@ == initial_worker(config),
    {
        let (first, _last) = config.subnet.host_range();
        let count = config.subnet.host_count();
        SubnetScanWorker { config, first_host: first, host_count: count, sent: 0, state: WorkerState::Idle }
    }

    /// The configuration that the worker scans.
    pub fn config(&self) -> (r: SubnetScanConfiguration)
        ensures
            r == self@.config,
    {
        self.config
    }

    /// The state the worker is in.
    pub fn state(&self) -> (r: WorkerState)
        ensures
            r == self@.state,
    {
        self.state
    }

    /// The number of results sent so far.
    pub fn sent(&self) -> (r: u64)
        ensures
            r == self@.sent,
    {
        self.sent
    }

    fn next_move(&mut self, sent: u64) -> (r: WorkerAction)
        requires
            old(self).wf(),
            sent <= total_targets(old(self).config),
        ensures
            final(self).wf(),
            (final(self)@, r) == ({
                let (state, action) = next_move(old(self).config, sent as nat);
                (WorkerView { sent: sent as nat, state, ..old(self)@ }, action)
            }),
    {
        let ports = (self.config.end_port - self.config.begin_port) as u64;
        assert(ports == self.config.port_count());
        self.sent = sent;
        if ports > 0 && sent / ports < self.host_count {
            proof {
                assert(sent < total_targets(self.config)) by (nonlinear_arith)
                    requires
                        ports > 0,
                        sent / ports < self.host_count,
                        total_targets(self.config) == self.host_count * ports,
                ;
                lemma_target_in_range(self.config, sent as nat);
            }
            let ip = self.first_host + (sent / ports) as u32;
            let port = self.config.begin_port + (sent % ports) as u16;
            self.state = WorkerState::Running;
            WorkerAction::Probe { ip, port }
        } else {
            assert(sent >= total_targets(self.config)) by (nonlinear_arith)
                requires
                    ports == 0 || sent / ports >= self.host_count,
                    total_targets(self.config) == self.host_count * ports,
            ;
            self.state = WorkerState::Done;
            WorkerAction::Close
        }
    }

    /// Answers `event`: moves to the next state and says what to do.
    pub fn step(&mut self, event: WorkerEvent) -> (r: WorkerAction)
        requires
            old(self).wf(),
        ensures
            final(self).wf(),
            (final(self)@, r) == worker_step(old(self)@, event),
    {
        match (self.state, event) {
            (WorkerState::Idle, WorkerEvent::Start) => self.next_move(0),
            (WorkerState::Running, WorkerEvent::Sent) => {
                proof {
                    lemma_total_targets_bound(self.config);
                }
                self.next_move(self.sent + 1)
            },
            (WorkerState::Running, WorkerEvent::SendFailed(result)) => {
                self.state = WorkerState::Aborted;
                WorkerAction::Abort(ChannelSendFailure { subnet: self.config.subnet, result })
            },
            (WorkerState::Idle, WorkerEvent::Cancel) | (WorkerState::Running, WorkerEvent::Cancel) => {
                self.state = WorkerState::Cancelled;
                WorkerAction::Close
            },
            _ => WorkerAction::Ignore,
        }
    }
}

} // verus!
