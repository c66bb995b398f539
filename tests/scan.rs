use humble_port_scanner::app::{SubnetScannerApp, DEFAULT_SCAN_TIMEOUT_MILLIS, PROGRESS_BAR_SIZE};
use humble_port_scanner::arg_helpers::prepare_subnets_and_port_ranges;
use humble_port_scanner::errors::AppErrors;
use humble_port_scanner::models::{
    scan_result_from_probe, IpPortScanResult, PortState, Subnet, SubnetScanConfiguration,
};
use humble_port_scanner::progress_helper::{ProgressUpdate, ScanProgressTracker};
use humble_port_scanner::scan_stream::{ScanResultStreamer, SourceEvent};
use humble_port_scanner::scan_worker::{
    ChannelSendFailure, SubnetScanWorker, WorkerAction, WorkerEvent, WorkerState,
};

fn config(addr: u32, prefix_len: u8, begin_port: u16, end_port: u16) -> SubnetScanConfiguration {
    SubnetScanConfiguration { subnet: Subnet { addr, prefix_len }, begin_port, end_port }
}

fn result(ip: u32, port: u16) -> IpPortScanResult {
    IpPortScanResult { ip, port, state: PortState::Closed }
}

/// Runs a worker with every send succeeding; gives the probes and the last action.
fn run_worker(c: SubnetScanConfiguration) -> (Vec<(u32, u16)>, WorkerAction) {
    let mut w = SubnetScanWorker::new(c);
    let mut probes = Vec::new();
    let mut action = w.step(WorkerEvent::Start);
    while let WorkerAction::Probe { ip, port } = action {
        probes.push((ip, port));
        action = w.step(WorkerEvent::Sent);
    }
    assert_eq!(w.state(), WorkerState::Done);
    assert_eq!(w.sent() as usize, probes.len());
    (probes, action)
}

#[test]
fn worker_probes_each_host_and_port_once_in_order() {
    // 10.0.0.0/30 has the hosts 10.0.0.1 and 10.0.0.2
    let (probes, last) = run_worker(config(0x0a00_0000, 30, 22, 25));
    assert_eq!(last, WorkerAction::Close);
    assert_eq!(
        probes,
        vec![
            (0x0a00_0001, 22),
            (0x0a00_0001, 23),
            (0x0a00_0001, 24),
            (0x0a00_0002, 22),
            (0x0a00_0002, 23),
            (0x0a00_0002, 24),
        ]
    );
}

#[test]
fn worker_probe_count_is_hosts_times_ports() {
    // /24: 254 hosts; /31 and /32 keep every address
    assert_eq!(run_worker(config(0xc0a8_0100, 24, 1, 5)).0.len(), 254 * 4);
    assert_eq!(run_worker(config(0x0a00_0000, 31, 80, 81)).0, vec![(0x0a00_0000, 80), (0x0a00_0001, 80)]);
    assert_eq!(run_worker(config(0x7f00_0001, 32, 9000, 9001)).0, vec![(0x7f00_0001, 9000)]);
    assert_eq!(run_worker(config(0xffff_ffff, 32, 1, 3)).0, vec![(0xffff_ffff, 1), (0xffff_ffff, 2)]);
}

#[test]
fn worker_with_empty_port_range_closes_at_once() {
    let (probes, last) = run_worker(config(0x0a00_0000, 24, 80, 80));
    assert!(probes.is_empty());
    assert_eq!(last, WorkerAction::Close);
}

#[test]
fn worker_stops_at_first_failed_send() {
    let c = config(0x0a00_0000, 30, 22, 25);
    let mut w = SubnetScanWorker::new(c);
    assert_eq!(w.step(WorkerEvent::Start), WorkerAction::Probe { ip: 0x0a00_0001, port: 22 });
    assert_eq!(w.step(WorkerEvent::Sent), WorkerAction::Probe { ip: 0x0a00_0001, port: 23 });
    let lost = result(0x0a00_0001, 23);
    assert_eq!(
        w.step(WorkerEvent::SendFailed(lost)),
        WorkerAction::Abort(ChannelSendFailure { subnet: c.subnet, result: lost })
    );
    assert_eq!(w.state(), WorkerState::Aborted);
    assert_eq!(w.step(WorkerEvent::Sent), WorkerAction::Ignore);
    assert_eq!(w.sent(), 1);
    assert_eq!(
        AppErrors::IpScanResultChannelSendError(ChannelSendFailure { subnet: c.subnet, result: lost })
            .to_string(),
        "Unable to send scan result 10.0.0.1:23 over the queue of subnet 10.0.0.0/30"
    );
}

#[test]
fn worker_cancel_and_ignored_events() {
    let mut w = SubnetScanWorker::new(config(0x0a00_0000, 24, 1, 100));
    assert_eq!(w.step(WorkerEvent::Sent), WorkerAction::Ignore);
    assert_eq!(w.state(), WorkerState::Idle);
    w.step(WorkerEvent::Start);
    assert_eq!(w.step(WorkerEvent::Cancel), WorkerAction::Close);
    assert_eq!(w.state(), WorkerState::Cancelled);
    assert_eq!(w.step(WorkerEvent::Start), WorkerAction::Ignore);
}

#[test]
fn probe_outcome_gives_port_state() {
    assert_eq!(scan_result_from_probe(1, 2, None).state, PortState::TimeOut);
    assert_eq!(scan_result_from_probe(1, 2, Some(true)).state, PortState::Open);
    assert_eq!(scan_result_from_probe(1, 2, Some(false)), result(1, 2));
}

#[test]
fn multiplexer_emits_one_closed_marker_per_subnet() {
    let a = Subnet { addr: 0x0a00_0000, prefix_len: 24 };
    let b = Subnet { addr: 0x0b00_0000, prefix_len: 24 };
    let c = Subnet { addr: 0x0c00_0000, prefix_len: 24 };
    let mut registry: ScanResultStreamer<&str> = ScanResultStreamer::new();
    registry.add_stream_from_rx(a, "qa");
    registry.add_stream_from_rx(b, "qb");
    registry.add_stream_from_rx(c, "qc");
    let (mut mux, queues) = registry.start();
    assert_eq!(queues, vec![(a, "qa"), (b, "qb"), (c, "qc")]);
    assert!(!mux.is_exhausted());

    let r = result(0x0a00_0001, 80);
    assert_eq!(mux.next_event(SourceEvent::Item(a, r)), Some((a, Some(r))));
    assert_eq!(mux.next_event(SourceEvent::Closed(b)), Some((b, None)));
    assert_eq!(mux.next_event(SourceEvent::Closed(b)), None);
    assert_eq!(mux.next_event(SourceEvent::Item(b, r)), None);
    assert_eq!(mux.next_event(SourceEvent::Closed(a)), Some((a, None)));
    assert!(!mux.is_exhausted());
    let unknown = Subnet { addr: 0x0d00_0000, prefix_len: 24 };
    assert_eq!(mux.next_event(SourceEvent::Closed(unknown)), None);
    assert_eq!(mux.next_event(SourceEvent::Closed(c)), Some((c, None)));
    assert!(mux.is_exhausted());
}

#[test]
fn registering_a_subnet_again_replaces_its_queue() {
    let a = Subnet { addr: 0x0a00_0000, prefix_len: 24 };
    let mut registry: ScanResultStreamer<u8> = ScanResultStreamer::new();
    registry.add_stream_from_rx(a, 1);
    registry.add_stream_from_rx(a, 2);
    let (mut mux, queues) = registry.start();
    assert_eq!(queues, vec![(a, 2)]);
    assert_eq!(mux.next_event(SourceEvent::Closed(a)), Some((a, None)));
    assert!(mux.is_exhausted());
}

#[test]
fn multiplexer_with_no_subnet_is_exhausted() {
    let registry: ScanResultStreamer<u8> = ScanResultStreamer::new();
    let (mux, queues) = registry.start();
    assert!(queues.is_empty());
    assert!(mux.is_exhausted());
}

#[test]
fn tracker_counts_and_finishes() {
    let a = Subnet { addr: 0x0a00_0000, prefix_len: 30 };
    let mut t = ScanProgressTracker::new(100);
    assert_eq!(t.initate_subnet_progress(a, 2), 0);
    let p = t.progress_of(a).unwrap();
    assert_eq!((p.completed, p.total, p.finished), (0, 4, false));
    assert_eq!(t.update_progress(a), Some((0, 25)));
    assert_eq!(t.update_progress(a), Some((0, 50)));
    assert_eq!(t.update_progress(a), Some((0, 75)));
    assert_eq!(t.complete_progress(a), Some(0));
    let p = t.progress_of(a).unwrap();
    assert_eq!((p.completed, p.total, p.finished), (3, 4, true));
}

#[test]
fn tracker_ignores_unregistered_subnets() {
    let mut t = ScanProgressTracker::new(100);
    let a = Subnet { addr: 0x0a00_0000, prefix_len: 30 };
    assert_eq!(t.update_progress(a), None);
    assert_eq!(t.complete_progress(a), None);
    assert!(t.progress_of(a).is_none());
}

#[test]
fn tracker_bar_is_full_when_nothing_is_expected_and_caps_at_full() {
    let a = Subnet { addr: 0x0a00_0000, prefix_len: 32 };
    let b = Subnet { addr: 0x0b00_0000, prefix_len: 32 };
    let mut t = ScanProgressTracker::new(100);
    assert_eq!(t.initate_subnet_progress(a, 0), 0);
    assert_eq!(t.update_progress(a), Some((0, 100)));
    assert_eq!(t.initate_subnet_progress(b, 1), 1);
    assert_eq!(t.update_progress(b), Some((1, 100)));
    assert_eq!(t.update_progress(b), Some((1, 100)));
    assert_eq!(t.progress_of(b).unwrap().completed, 2);
    // registering again starts over
    assert_eq!(t.initate_subnet_progress(b, 1), 1);
    assert_eq!(t.progress_of(b).unwrap().completed, 0);
}

#[test]
fn builder_needs_a_runtime() {
    let built = SubnetScannerApp::<u8>::builder()
        .set_configs(vec![config(0x7f00_0001, 32, 9000, 9001)])
        .build();
    assert!(matches!(built, Err(AppErrors::NoRuntimeProvidedError)));
    let app = SubnetScannerApp::builder()
        .set_configs(vec![config(0x7f00_0001, 32, 9000, 9001)])
        .set_runtime(7u8)
        .build()
        .unwrap();
    assert_eq!(*app.runtime(), 7);
    assert_eq!(app.configurations().len(), 1);
}

/// One subnet, one port: exactly one result, then the subnet's closed marker.
#[test]
fn end_to_end_single_host_single_port() {
    let configs =
        prepare_subnets_and_port_ranges(vec![String::from("127.0.0.1/32")], vec![String::from("9000:9001")])
            .unwrap();
    let app = SubnetScannerApp::builder().set_configs(configs).set_runtime(()).build().unwrap();
    let mut plan = app.start_subnet_scans(vec!["queue"]);
    assert_eq!(plan.scan_progress.progress_bar_size(), PROGRESS_BAR_SIZE);
    let (mut mux, queues) = plan.scan_results.start();
    let subnet = queues[0].0;

    // the worker's run, with the queue as a list of deliveries
    let mut delivered = Vec::new();
    let worker = &mut plan.workers[0];
    let mut action = worker.step(WorkerEvent::Start);
    loop {
        match action {
            WorkerAction::Probe { ip, port } => {
                delivered.push(SourceEvent::Item(subnet, scan_result_from_probe(ip, port, Some(false))));
                action = worker.step(WorkerEvent::Sent);
            }
            WorkerAction::Close => {
                delivered.push(SourceEvent::Closed(subnet));
                break;
            }
            _ => panic!("unexpected action"),
        }
    }

    let mut emitted = Vec::new();
    for ev in delivered {
        if let Some(e) = mux.next_event(ev) {
            match e.1 {
                Some(_) => {
                    plan.scan_progress.update_progress(e.0);
                }
                None => {
                    plan.scan_progress.complete_progress(e.0);
                }
            }
            emitted.push(e);
        }
    }
    let r = IpPortScanResult { ip: 0x7f00_0001, port: 9000, state: PortState::Closed };
    assert_eq!(emitted, vec![(subnet, Some(r)), (subnet, None)]);
    assert!(mux.is_exhausted());
    let p = plan.scan_progress.progress_of(subnet).unwrap();
    assert_eq!((p.completed, p.total, p.finished), (1, 1, true));
}

/// Two subnets and one port range: the count mismatch comes before any worker.
#[test]
fn end_to_end_count_mismatch_starts_nothing() {
    let r = prepare_subnets_and_port_ranges(
        vec![String::from("127.0.0.1/32"), String::from("10.0.0.0/24")],
        vec![String::from("9000:9001")],
    );
    assert!(matches!(r, Err(AppErrors::ArgumentCountMismatch { subnets: 2, ports: 1 })));
}

#[test]
fn setup_registers_every_subnet_before_any_worker_runs() {
    let app = SubnetScannerApp::builder()
        .set_configs(vec![config(0x0a00_0000, 30, 1, 3), config(0x0b00_0000, 24, 5, 6)])
        .set_runtime(())
        .build()
        .unwrap();
    let plan = app.start_subnet_scans(vec![1u8, 2u8]);
    assert_eq!(plan.workers.len(), 2);
    assert!(plan.workers.iter().all(|w| w.state() == WorkerState::Idle));
    assert_eq!(plan.workers[1].config(), config(0x0b00_0000, 24, 5, 6));
    assert_eq!(plan.scan_progress.progress_of(Subnet { addr: 0x0a00_0000, prefix_len: 30 }).unwrap().total, 4);
    assert_eq!(plan.scan_progress.progress_of(Subnet { addr: 0x0b00_0000, prefix_len: 24 }).unwrap().total, 254);
    let (_mux, queues) = plan.scan_results.start();
    assert_eq!(
        queues,
        vec![
            (Subnet { addr: 0x0a00_0000, prefix_len: 30 }, 1u8),
            (Subnet { addr: 0x0b00_0000, prefix_len: 24 }, 2u8)
        ]
    );
}

#[test]
fn tracker_routes_fan_in_events() {
    let a = Subnet { addr: 0x0a00_0000, prefix_len: 30 };
    let other = Subnet { addr: 0x0b00_0000, prefix_len: 30 };
    let mut t = ScanProgressTracker::new(100);
    t.initate_subnet_progress(a, 1);
    let r = result(0x0a00_0001, 1);
    assert_eq!(t.on_event((a, Some(r))), ProgressUpdate::Position { index: 0, position: 50 });
    assert_eq!(t.on_event((a, Some(r))), ProgressUpdate::Position { index: 0, position: 100 });
    assert_eq!(t.on_event((a, None)), ProgressUpdate::Finished { index: 0 });
    assert_eq!(t.on_event((other, Some(r))), ProgressUpdate::Unregistered { subnet: other });
    assert_eq!(t.on_event((other, None)), ProgressUpdate::Unregistered { subnet: other });
    let p = t.progress_of(a).unwrap();
    assert_eq!((p.completed, p.total, p.finished), (2, 2, true));
}

#[test]
fn builder_timeout_defaults_to_one_second() {
    let app = SubnetScannerApp::builder().set_runtime(()).build().unwrap();
    assert_eq!(app.scan_timeout(), DEFAULT_SCAN_TIMEOUT_MILLIS);
    assert_eq!(app.scan_timeout(), 1000);
    let app = SubnetScannerApp::builder().set_scan_timeout(250).set_runtime(()).build().unwrap();
    assert_eq!(app.scan_timeout(), 250);
}

#[test]
fn setup_pairs_each_subnet_with_its_own_queue() {
    let a = config(0x0a00_0000, 30, 1, 3);
    let b = config(0x0b00_0000, 24, 5, 6);
    let a_again = config(0x0a00_0000, 30, 7, 9);
    let app = SubnetScannerApp::builder()
        .set_configs(vec![a, b, a_again])
        .set_runtime(())
        .build()
        .unwrap();
    let plan = app.start_subnet_scans(vec!["qa", "qb", "qa2"]);
    let (_mux, queues) = plan.scan_results.start();
    // a subnet that comes again keeps its place and takes its latest queue
    assert_eq!(queues, vec![(a.subnet, "qa2"), (b.subnet, "qb")]);
    assert_eq!(plan.workers[2].config(), a_again);
}
