use vstd::prelude::*;

use crate::errors::AppErrors;
use crate::models::{Subnet, SubnetScanConfiguration};
use crate::progress_helper::{ScanProgressTracker, SubnetProgress, entry_at, has_entry};
use crate::scan_stream::{ScanResultStreamer, holds_queue, lemma_with_source_holds};
use crate::scan_worker::{SubnetScanWorker, initial_worker};
use crate::subnet_helpers::host_count;

verus! {

/// The length of each progress bar.
pub const PROGRESS_BAR_SIZE: u64 = 100;

/// The time a probe waits by default, in milliseconds: one second.
pub const DEFAULT_SCAN_TIMEOUT_MILLIS: u64 = 1000;

/// The subnets of `configs` in the order of their first appearance, each once.
pub open spec fn registered_subnets(configs: Seq<SubnetScanConfiguration>) -> Seq<Subnet>
    decreases configs.len(),
{
    if configs.len() == 0 {
        Seq::empty()
    } else {
        let prev = registered_subnets(configs.drop_last());
        if prev.contains(configs.last().subnet) {
            prev
        } else {
            prev.push(configs.last().subnet)
        }
    }
}

/// The progress entries after registering each of `configs` in order: a
/// subnet that comes again starts again with the ports of its latest
/// configuration.
pub open spec fn registered_progress(configs: Seq<SubnetScanConfiguration>) -> Seq<SubnetProgress>
    decreases configs.len(),
{
    if configs.len() == 0 {
        Seq::empty()
    } else {
        let prev = registered_progress(configs.drop_last());
        let c = configs.last();
        let fresh = SubnetProgress {
            subnet: c.subnet,
            completed: 0,
            total: (host_count(c.subnet) * c.port_count()) as u64,
            finished: false,
        };
        if exists|i: int| 0 <= i < prev.len() && prev[i].subnet == c.subnet {
            prev.update(choose|i: int| 0 <= i < prev.len() && prev[i].subnet == c.subnet, fresh)
        } else {
            prev.push(fresh)
        }
    }
}

/// Whether no configuration after the `i`-th has its subnet.
pub open spec fn last_of_subnet(configs: Seq<SubnetScanConfiguration>, i: int) -> bool {
    forall|k: int| i < k < configs.len() ==> configs[k].subnet != configs[i].subnet
}

/// A scan that is set up and not yet running: each subnet's queue is
/// registered with the fan-in and with the progress tracker, and each
/// configuration has its idle worker.
pub struct ScanPlan<Q> {
    pub scan_results: ScanResultStreamer<Q>,
    pub scan_progress: ScanProgressTracker,
    pub workers: Vec<SubnetScanWorker>,
}

/// A scan of subnets, ready to be set up and run on the runtime `R`.
pub struct SubnetScannerApp<R> {
    subnet_scan_configurations: Vec<SubnetScanConfiguration>,
    scan_timeout_millis: u64,
    runtime: R,
}

/// Collects what a scan needs; `build` checks that a runtime was given.
pub struct SubnetScannerAppBuilder<R> {
    subnet_scan_configurations: Vec<SubnetScanConfiguration>,
    scan_timeout_millis: u64,
    runtime: Option<R>,
}

impl<R> SubnetScannerApp<R> {
    /// The configurations, each valid.
    pub closed spec fn wf(&self) -> bool {
        forall|i: int|
            0 <= i < self.subnet_scan_configurations@.len()
                ==> #[trigger] self.subnet_scan_configurations@[i].wf()
    }

    /// The configurations to scan, in order.
    pub closed spec fn configs(&self) -> Seq<SubnetScanConfiguration> {
        self.subnet_scan_configurations@
    }

    /// The time each probe may take, in milliseconds.
    pub closed spec fn timeout(&self) -> u64 {
        self.scan_timeout_millis
    }

    /// The runtime the scan runs on.
    pub closed spec fn runtime_spec(&self) -> R {
        self.runtime
    }

    /// A builder with no configuration, the default timeout and no runtime.
    pub fn builder() -> (r: SubnetScannerAppBuilder<R>)
        ensures
            r.wf(),
            r.configs() == Seq::<SubnetScanConfiguration>::empty(),
            r.runtime() is None,
            r.timeout() == DEFAULT_SCAN_TIMEOUT_MILLIS,
    {
        SubnetScannerAppBuilder::new()
    }

    /// The configurations to scan.
    pub fn configurations(&self) -> (r: &Vec<SubnetScanConfiguration>)
        ensures
            r@ == self.configs(),
    {
        &self.subnet_scan_configurations
    }

    /// The time each probe may take, in milliseconds.
    pub fn scan_timeout(&self) -> (r: u64)
        ensures
            r == self.timeout(),
    {
        self.scan_timeout_millis
    }

    /// The runtime the scan runs on.
    pub fn runtime(&self) -> (r: &R)
        ensures
            *r == self.runtime_spec(),
    {
        &self.runtime
    }

    /// Sets the scan up: registers every subnet's queue, the `i`-th of
    /// `queues` for the `i`-th configuration, with the fan-in and with the
    /// progress tracker, before any worker exists, and makes one idle
    /// worker per configuration.
    pub fn start_subnet_scans<Q>(&self, queues: Vec<Q>) -> (r: ScanPlan<Q>)
        requires
            self.wf(),
            queues.len() == self.configs().len(),
        ensures
            r.scan_results.wf(),
            r.scan_results.keys() == registered_subnets(self.configs()),
            forall|i: int|
                0 <= i < self.configs().len() && last_of_subnet(self.configs(), i) ==> holds_queue(
                    r.scan_results.sources(),
                    #[trigger] self.configs()[i].subnet,
                    queues@[i],
                ),
            r.scan_progress.wf(),
            r.scan_progress.entries() == registered_progress(self.configs()),
            r.scan_progress.bar_size() == PROGRESS_BAR_SIZE,
            r.workers@.len() == self.configs().len(),
            forall|i: int|
                0 <= i < r.workers@.len() ==> (#[trigger] r.workers@[i]).wf() && r.workers@[i]@
                    == initial_worker(self.configs()[i]),
    {
        let mut scan_results: ScanResultStreamer<Q> = ScanResultStreamer::new();
        let mut scan_progress = ScanProgressTracker::new(PROGRESS_BAR_SIZE);
        let mut workers: Vec<SubnetScanWorker> = Vec::new();
        let ghost given = queues@;
        let mut queues = queues;
        let ghost configs = self.configs();
        let mut i: usize = 0;
        while i < self.subnet_scan_configurations.len()
            invariant
                i <= configs.len(),
                configs == self.configs(),
                self.wf(),
                given.len() == configs.len(),
                queues@ == given.skip(i as int),
                forall|c: int|
                    0 <= c < i && (forall|k: int| c < k < i ==> configs[k].subnet != configs[c].subnet)
                        ==> holds_queue(scan_results.sources(), #[trigger] configs[c].subnet, given[c]),
                scan_results.wf(),
                scan_results.keys() == registered_subnets(configs.take(i as int)),
                scan_progress.wf(),
                scan_progress.entries() == registered_progress(configs.take(i as int)),
                scan_progress.bar_size() == PROGRESS_BAR_SIZE,
                workers@.len() == i,
                forall|j: int|
                    0 <= j < i ==> (#[trigger] workers@[j]).wf() && workers@[j]@ == initial_worker(
                        configs[j],
                    ),
            decreases configs.len() - i,
        {
            let config = self.subnet_scan_configurations[i];
            assert(configs[i as int].wf());
            assert(queues@[0] == given[i as int]);
            let rx = queues.remove(0);
            assert(queues@ =~= given.skip(i + 1));
            let ghost sources_before = scan_results.sources();
            assert(configs.take(i + 1).drop_last() =~= configs.take(i as int));
            assert(configs.take(i + 1).last() == config);
            scan_results.add_stream_from_rx(config.subnet, rx);
            assert forall|c: int|
                0 <= c < i + 1 && (forall|k: int| c < k < i + 1 ==> configs[k].subnet != configs[c].subnet)
                    implies holds_queue(scan_results.sources(), #[trigger] configs[c].subnet, given[c]) by {
                lemma_with_source_holds(sources_before, config.subnet, given[i as int], configs[c].subnet, given[c]);
                if c < i {
                    assert(configs[i as int].subnet != configs[c].subnet);
                }
            }
            let ghost before = scan_progress.entries();
            proof {
                scan_progress.lemma_entries_distinct();
            }
            let slot = scan_progress.initate_subnet_progress(
                config.subnet,
                (config.end_port - config.begin_port) as u64,
            );
            proof {
                let prev = registered_progress(configs.take(i as int));
                assert(prev == before);
                if exists|k: int| 0 <= k < prev.len() && prev[k].subnet == config.subnet {
                    let k = choose|k: int| 0 <= k < prev.len() && prev[k].subnet == config.subnet;
                    assert(entry_at(before, config.subnet, k));
                    assert(has_entry(before, config.subnet));
                    assert(k == slot as int);
                } else {
                    assert(!has_entry(before, config.subnet));
                }
            }
            workers.push(SubnetScanWorker::new(config));
            i = i + 1;
        }
        assert(configs.take(i as int) =~= configs);
        ScanPlan { scan_results, scan_progress, workers }
    }
}

impl<R> SubnetScannerAppBuilder<R> {
    /// The configurations, each valid.
    pub closed spec fn wf(&self) -> bool {
        forall|i: int|
            0 <= i < self.subnet_scan_configurations@.len()
                ==> #[trigger] self.subnet_scan_configurations@[i].wf()
    }

    /// The configurations collected so far, in order.
    pub closed spec fn configs(&self) -> Seq<SubnetScanConfiguration> {
        self.subnet_scan_configurations@
    }

    /// The runtime given, if any.
    pub closed spec fn runtime(&self) -> Option<R> {
        self.runtime
    }

    /// The time each probe may take, in milliseconds.
    pub closed spec fn timeout(&self) -> u64 {
        self.scan_timeout_millis
    }

    /// A builder with no configuration, a timeout of one second and no
    /// runtime.
    pub fn new() -> (r: Self)
        ensures
            r.wf(),
            r.configs() == Seq::<SubnetScanConfiguration>::empty(),
            r.runtime() is None,
            r.timeout() == DEFAULT_SCAN_TIMEOUT_MILLIS,
    {
        SubnetScannerAppBuilder {
            subnet_scan_configurations: Vec::new(),
            scan_timeout_millis: DEFAULT_SCAN_TIMEOUT_MILLIS,
            runtime: None,
        }
    }

    /// Adds `subnet_scan_configurations` after those collected so far.
    pub fn set_configs(self, subnet_scan_configurations: Vec<SubnetScanConfiguration>) -> (r: Self)
        requires
            self.wf(),
            forall|i: int|
                0 <= i < subnet_scan_configurations@.len()
                    ==> #[trigger] subnet_scan_configurations@[i].wf(),
        ensures
            r.wf(),
            r.configs() == self.configs() + subnet_scan_configurations@,
            r.runtime() == self.runtime(),
            r.timeout() == self.timeout(),
    {
        let mut builder = self;
        let mut more = subnet_scan_configurations;
        builder.subnet_scan_configurations.append(&mut more);
        builder
    }

    /// Sets the time each probe may take, in milliseconds.
    pub fn set_scan_timeout(self, scan_timeout_millis: u64) -> (r: Self)
        ensures
            self.wf() ==> r.wf(),
            r.configs() == self.configs(),
            r.runtime() == self.runtime(),
            r.timeout() == scan_timeout_millis,
    {
        let mut builder = self;
        builder.scan_timeout_millis = scan_timeout_millis;
        builder
    }

    /// Sets the runtime the scan runs on.
    pub fn set_runtime(self, runtime: R) -> (r: Self)
        ensures
            self.wf() ==> r.wf(),
            r.configs() == self.configs(),
            r.runtime() == Some(runtime),
            r.timeout() == self.timeout(),
    {
        let mut builder = self;
        builder.runtime = Some(runtime);
        builder
    }

    /// The app, or `NoRuntimeProvidedError` when no runtime was given.
    pub fn build(self) -> (r: Result<SubnetScannerApp<R>, AppErrors>)
        requires
            self.wf(),
        ensures
            match r {
                Ok(app) => {
                    &&& self.runtime() == Some(app.runtime_spec())
                    &&& app.wf()
                    &&& app.configs() == self.configs()
                    &&& app.timeout() == self.timeout()
                },
                Err(e) => self.runtime() is None && e is NoRuntimeProvidedError,
            },
    {
        match self.runtime {
            None => Err(AppErrors::NoRuntimeProvidedError),
            Some(runtime) => Ok(
                SubnetScannerApp {
                    subnet_scan_configurations: self.subnet_scan_configurations,
                    scan_timeout_millis: self.scan_timeout_millis,
                    runtime,
                },
            ),
        }
    }
}

} // verus!
