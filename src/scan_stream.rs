use vstd::prelude::*;

use crate::models::{IpPortScanResult, Subnet};

verus! {

/// What a subnet's queue delivers: a result, or the news that it closed.
#[derive(Clone, Copy, Debug, PartialEq, Eq, Structural)]
pub enum SourceEvent {
    Item(Subnet, IpPortScanResult),
    Closed(Subnet),
}

/// The subnets of a sequence of sources, in order.
pub open spec fn source_keys<Q>(sources: Seq<(Subnet, Q)>) -> Seq<Subnet> {
    sources.map_values(|s: (Subnet, Q)| s.0)
}

/// The sources after registering `rx` under `key`: it takes the place of
/// the queue of `key` where there is one, and comes last otherwise; every
/// other source stays as it was.
pub open spec fn with_source<Q>(sources: Seq<(Subnet, Q)>, key: Subnet, rx: Q) -> Seq<(Subnet, Q)> {
    if source_keys(sources).contains(key) {
        sources.map_values(|s: (Subnet, Q)| if s.0 == key { (key, rx) } else { s })
    } else {
        sources.push((key, rx))
    }
}

/// Whether `sources` holds the queue `q` under `key`.
pub open spec fn holds_queue<Q>(sources: Seq<(Subnet, Q)>, key: Subnet, q: Q) -> bool {
    exists|j: int| 0 <= j < sources.len() && sources[j] == (key, q)
}

/// Registering `rx` under `key` leaves it there, and keeps every queue
/// held under another subnet.
pub proof fn lemma_with_source_holds<Q>(
    sources: Seq<(Subnet, Q)>,
    key: Subnet,
    rx: Q,
    other: Subnet,
    q: Q,
)
    ensures
        holds_queue(with_source(sources, key, rx), key, rx),
        other != key && holds_queue(sources, other, q) ==> holds_queue(
            with_source(sources, key, rx),
            other,
            q,
        ),
{
    let after = with_source(sources, key, rx);
    if source_keys(sources).contains(key) {
        let j = choose|j: int| 0 <= j < source_keys(sources).len() && source_keys(sources)[j] == key;
        assert(after[j] == (key, rx));
    } else {
        assert(after[sources.len() as int] == (key, rx));
    }
    if other != key && holds_queue(sources, other, q) {
        let j = choose|j: int| 0 <= j < sources.len() && sources[j] == (other, q);
        assert(after[j] == (other, q));
    }
}

/// The registration phase of the fan-in: one queue per subnet, added
/// before any result is read. Registering a subnet again replaces its
/// queue.
pub struct ScanResultStreamer<Q> {
    sources: Vec<(Subnet, Q)>,
}

impl<Q> ScanResultStreamer<Q> {
    /// The registered subnets with their queues, in the order of their
    /// first registration.
    pub closed spec fn sources(&self) -> Seq<(Subnet, Q)> {
        self.sources@
    }

    /// The registered subnets, in the order of their first registration.
    pub open spec fn keys(&self) -> Seq<Subnet> {
        source_keys(self.sources())
    }

    /// No subnet is registered twice.
    pub closed spec fn wf(&self) -> bool {
        self.keys().no_duplicates()
    }

    /// A registry with no subnet.
    pub fn new() -> (r: Self)
        ensures
            r.wf(),
            r.sources() == Seq::<(Subnet, Q)>::empty(),
            r.keys() == Seq::<Subnet>::empty(),
    {
        ScanResultStreamer { sources: Vec::new() }
    }

    /// Registers the queue `rx` under `key`, in place of an earlier queue
    /// of that subnet.
    pub fn add_stream_from_rx(&mut self, key: Subnet, rx: Q)
        requires
            old(self).wf(),
        ensures
            final(self).wf(),
            final(self).sources() == with_source(old(self).sources(), key, rx),
            final(self).keys() == if old(self).keys().contains(key) {
                old(self).keys()
            } else {
                old(self).keys().push(key)
            },
    {
        let mut i: usize = 0;
        while i < self.sources.len()
            invariant
                i <= self.sources.len(),
                self.sources@ == old(self).sources@,
                old(self).wf(),
                forall|j: int| 0 <= j < i ==> self.sources@[j].0 != key,
            decreases self.sources.len() - i,
        {
            if self.sources[i].0 == key {
                let ghost before = self.keys();
                let ghost old_sources = self.sources@;
                assert(before[i as int] == key);
                assert(before.contains(key));
                self.sources.set(i, (key, rx));
                assert(self.keys() =~= before);
                assert forall|j: int| 0 <= j < old_sources.len() && j != i implies old_sources[j].0
                    != key by {
                    assert(before[j] == old_sources[j].0);
                }
                assert(self.sources@ =~= with_source(old_sources, key, rx));
                return;
            }
            i = i + 1;
        }
        assert(!self.keys().contains(key)) by {
            if self.keys().contains(key) {
                let j = choose|j: int| 0 <= j < self.keys().len() && self.keys()[j] == key;
                assert(self.sources@[j].0 == key);
            }
        }
        self.sources.push((key, rx));
        assert(self.keys() =~= old(self).keys().push(key));
        assert(self.sources@ =~= with_source(old(self).sources@, key, rx));
    }

    /// Ends the registration: the fan-in over the registered subnets, and
    /// the queues to read, each with its subnet.
    pub fn start(self) -> (r: (ResultMultiplexer, Vec<(Subnet, Q)>))
        requires
            self.wf(),
        ensures
            r.0.wf(),
            r.0.active() == self.keys().to_set(),
            r.1@ == self.sources(),
            source_keys(r.1@) == self.keys(),
    {
        let mut active: Vec<Subnet> = Vec::new();
        let mut i: usize = 0;
        while i < self.sources.len()
            invariant
                i <= self.sources.len(),
                active@ == self.keys().take(i as int),
                self.keys().no_duplicates(),
            decreases self.sources.len() - i,
        {
            active.push(self.sources[i].0);
            assert(self.keys().take(i + 1) =~= self.keys().take(i as int).push(self.sources@[i as int].0));
            i = i + 1;
        }
        assert(self.keys().take(i as int) =~= self.keys());
        let mux = ResultMultiplexer { active };
        assert(mux.active() =~= self.keys().to_set());
        (mux, self.sources)
    }
}

/// What the fan-in hands on: a subnet with one of its results, or with
/// `None` once its queue has closed.
pub type Emitted = (Subnet, Option<IpPortScanResult>);

/// How the fan-in answers an event of a source, given the subnets whose
/// queues are still open: a result of an open subnet is handed on; the
/// closing of an open subnet is handed on as its closed marker and the
/// subnet leaves the open set; anything else is dropped.
pub open spec fn mux_step(active: Set<Subnet>, event: SourceEvent) -> (Set<Subnet>, Option<Emitted>) {
    match event {
        SourceEvent::Item(key, result) => if active.contains(key) {
            (active, Some((key, Some(result))))
        } else {
            (active, None)
        },
        SourceEvent::Closed(key) => if active.contains(key) {
            (active.remove(key), Some((key, None)))
        } else {
            (active, None)
        },
    }
}

/// The consuming phase of the fan-in: the subnets whose queues are still
/// open. Its stream ends when none is left.
pub struct ResultMultiplexer {
    active: Vec<Subnet>,
}

impl ResultMultiplexer {
    /// The subnets whose closed marker has not been handed on yet.
    pub closed spec fn active(&self) -> Set<Subnet> {
        self.active@.to_set()
    }

    /// Each open subnet is held once.
    pub closed spec fn wf(&self) -> bool {
        self.active@.no_duplicates()
    }

    /// Takes in one event of a source and says what to hand on, if anything.
    pub fn next_event(&mut self, event: SourceEvent) -> (r: Option<Emitted>)
        requires
            old(self).wf(),
        ensures
            final(self).wf(),
            (final(self).active(), r) == mux_step(old(self).active(), event),
    {
        let key = match event {
            SourceEvent::Item(k, _) => k,
            SourceEvent::Closed(k) => k,
        };
        let mut i: usize = 0;
        while i < self.active.len()
            invariant
                i <= self.active.len(),
                self.active@ == old(self).active@,
                old(self).wf(),
                key == match event {
                    SourceEvent::Item(k, _) => k,
                    SourceEvent::Closed(k) => k,
                },
                forall|j: int| 0 <= j < i ==> self.active@[j] != key,
            decreases self.active.len() - i,
        {
            if self.active[i] == key {
                assert(self.active@.contains(key));
                match event {
                    SourceEvent::Item(k, result) => {
                        return Some((k, Some(result)));
                    },
                    SourceEvent::Closed(k) => {
                        let ghost before = self.active@;
                        self.active.remove(i);
                        assert(self.active@.to_set() =~= before.to_set().remove(key)) by {
                            assert forall|x: Subnet| #[trigger]
                                self.active@.contains(x) <==> before.contains(x) && x != key by {
                                if self.active@.contains(x) {
                                    let j = choose|j: int|
                                        0 <= j < self.active@.len() && self.active@[j] == x;
                                    if j < i {
                                        assert(before[j] == x);
                                    } else {
                                        assert(before[j + 1] == x);
                                    }
                                }
                                if before.contains(x) && x != key {
                                    let j = choose|j: int| 0 <= j < before.len() && before[j] == x;
                                    if j < i {
                                        assert(self.active@[j] == x);
                                    } else {
                                        assert(self.active@[j - 1] == x);
                                    }
                                }
                            }
                        }
                        assert(self.active@.no_duplicates()) by {
                            assert forall|a: int, b: int|
                                0 <= a < b < self.active@.len() implies self.active@[a]
                                != self.active@[b] by {
                                let a0 = if a < i { a } else { a + 1 };
                                let b0 = if b < i { b } else { b + 1 };
                                assert(self.active@[a] == before[a0]);
                                assert(self.active@[b] == before[b0]);
                            }
                        }
                        return Some((k, None));
                    },
                }
            }
            i = i + 1;
        }
        assert(!self.active@.to_set().contains(key));
        None
    }

    /// Whether every registered subnet has handed on its closed marker.
    pub fn is_exhausted(&self) -> (r: bool)
        ensures
            r <==> self.active() == Set::<Subnet>::empty(),
    {
        proof {
            if self.active@.len() > 0 {
                assert(self.active().contains(self.active@[0]));
            }
        }
        assert(self.active@.len() == 0 ==> self.active() =~= Set::<Subnet>::empty());
        self.active.len() == 0
    }
}

/// The open subnets and everything handed on after the fan-in, starting
/// with the subnets `active` open, has taken in `events` in order.
pub open spec fn mux_replay(active: Set<Subnet>, events: Seq<SourceEvent>) -> (Set<Subnet>, Seq<Emitted>)
    decreases events.len(),
{
    if events.len() == 0 {
        (active, Seq::empty())
    } else {
        let (open, out) = mux_replay(active, events.drop_last());
        let (next, emitted) = mux_step(open, events.last());
        match emitted {
            Some(e) => (next, out.push(e)),
            None => (next, out),
        }
    }
}

/// How many closed markers of `key` stand in `out`.
pub open spec fn marker_count(out: Seq<Emitted>, key: Subnet) -> nat
    decreases out.len(),
{
    if out.len() == 0 {
        0
    } else {
        marker_count(out.drop_last(), key) + if out.last() == (key, None::<IpPortScanResult>) {
            1nat
        } else {
            0nat
        }
    }
}

proof fn lemma_contains_push(s: Seq<SourceEvent>, e: SourceEvent, x: SourceEvent)
    ensures
        s.push(e).contains(x) == (s.contains(x) || e == x),
{
    if s.contains(x) {
        let j = choose|j: int| 0 <= j < s.len() && s[j] == x;
        assert(s.push(e)[j] == x);
    }
    if e == x {
        assert(s.push(e)[s.len() as int] == x);
    }
    if s.push(e).contains(x) {
        let j = choose|j: int| 0 <= j < s.push(e).len() && s.push(e)[j] == x;
        if j < s.len() {
            assert(s[j] == x);
        }
    }
}

proof fn lemma_replay(registered: Set<Subnet>, events: Seq<SourceEvent>)
    ensures
        mux_replay(registered, events).0 == registered.filter(
            |k: Subnet| !events.contains(SourceEvent::Closed(k)),
        ),
        forall|k: Subnet| #[trigger]
            marker_count(mux_replay(registered, events).1, k) == if registered.contains(k)
                && events.contains(SourceEvent::Closed(k)) {
                1nat
            } else {
                0nat
            },
    decreases events.len(),
{
    let (open, out) = mux_replay(registered, events);
    if events.len() == 0 {
        assert(open =~= registered.filter(|k: Subnet| !events.contains(SourceEvent::Closed(k))));
    } else {
        let prev = events.drop_last();
        let e = events.last();
        assert(events =~= prev.push(e));
        lemma_replay(registered, prev);
        let (open0, out0) = mux_replay(registered, prev);
        assert forall|k: Subnet| #[trigger] events.contains(SourceEvent::Closed(k)) == (prev.contains(
            SourceEvent::Closed(k),
        ) || e == SourceEvent::Closed(k)) by {
            lemma_contains_push(prev, e, SourceEvent::Closed(k));
        }
        assert(open =~= registered.filter(|k: Subnet| !events.contains(SourceEvent::Closed(k))));
        assert forall|k: Subnet|
            #[trigger] marker_count(out, k) == if registered.contains(k) && events.contains(
                SourceEvent::Closed(k),
            ) {
                1nat
            } else {
                0nat
            } by {
            assert(marker_count(out0, k) == if registered.contains(k) && prev.contains(
                SourceEvent::Closed(k),
            ) {
                1nat
            } else {
                0nat
            });
            let (next, emitted) = mux_step(open0, e);
            if let Some(x) = emitted {
                assert(out == out0.push(x));
                assert(out.drop_last() =~= out0);
            }
        }
    }
}

/// For subnets registered once each, whatever the sources deliver: each
/// subnet's closed marker is handed on at most once, exactly once when its
/// queue closed, never for a subnet that was not registered; and the
/// stream is exhausted exactly when every registered subnet has handed on
/// its closed marker.
pub proof fn lemma_one_closed_marker_per_subnet(registered: Set<Subnet>, events: Seq<SourceEvent>)
    ensures
        ({
            let (open, out) = mux_replay(registered, events);
            &&& forall|k: Subnet|
                registered.contains(k) ==> #[trigger] marker_count(out, k) == if events.contains(
                    SourceEvent::Closed(k),
                ) {
                    1nat
                } else {
                    0nat
                }
            &&& forall|k: Subnet| !registered.contains(k) ==> #[trigger] marker_count(out, k) == 0
            &&& (open == Set::<Subnet>::empty() <==> forall|k: Subnet|
                registered.contains(k) ==> #[trigger] marker_count(out, k) == 1)
        }),
{
    lemma_replay(registered, events);
    let (open, out) = mux_replay(registered, events);
    if open == Set::<Subnet>::empty() {
        assert forall|k: Subnet| registered.contains(k) implies #[trigger] marker_count(out, k)
            == 1 by {
            if !events.contains(SourceEvent::Closed(k)) {
                assert(open.contains(k));
            }
        }
    }
    if forall|k: Subnet| registered.contains(k) ==> #[trigger] marker_count(out, k) == 1 {
        assert forall|k: Subnet| !open.contains(k) by {
            if registered.contains(k) {
                assert(marker_count(out, k) == 1);
            }
        }
        assert(open =~= Set::<Subnet>::empty());
    }
}

/// The events of a queue of `key` that delivers `results` in order.
pub open spec fn deliveries(key: Subnet, results: Seq<IpPortScanResult>) -> Seq<SourceEvent> {
    results.map_values(|r: IpPortScanResult| SourceEvent::Item(key, r))
}

/// What the fan-in hands on for `results` of `key`, in order.
pub open spec fn handed_on(key: Subnet, results: Seq<IpPortScanResult>) -> Seq<Emitted> {
    results.map_values(|r: IpPortScanResult| (key, Some(r)))
}

proof fn lemma_deliveries_keep_open(active: Set<Subnet>, key: Subnet, results: Seq<IpPortScanResult>)
    requires
        active.contains(key),
    ensures
        mux_replay(active, deliveries(key, results)) == (active, handed_on(key, results)),
    decreases results.len(),
{
    if results.len() > 0 {
        let prev = results.drop_last();
        assert(deliveries(key, results).drop_last() =~= deliveries(key, prev));
        assert(handed_on(key, results) =~= handed_on(key, prev).push((key, Some(results.last()))));
        lemma_deliveries_keep_open(active, key, prev);
    } else {
        assert(handed_on(key, results) =~= Seq::<Emitted>::empty());
    }
}

/// For a registered subnet whose queue delivers some results and then
/// closes, the fan-in hands on exactly those results, in their order, then
/// the subnet's one closed marker, and the subnet leaves the open set.
pub proof fn lemma_results_then_closed_marker(
    registered: Set<Subnet>,
    key: Subnet,
    results: Seq<IpPortScanResult>,
)
    requires
        registered.contains(key),
    ensures
        mux_replay(registered, deliveries(key, results).push(SourceEvent::Closed(key))) == (
            registered.remove(key),
            handed_on(key, results).push((key, None)),
        ),
{
    lemma_deliveries_keep_open(registered, key, results);
    assert(deliveries(key, results).push(SourceEvent::Closed(key)).drop_last() =~= deliveries(
        key,
        results,
    ));
}

proof fn lemma_markers_close(registered: Set<Subnet>, events: Seq<SourceEvent>)
    ensures
        ({
            let (open, out) = mux_replay(registered, events);
            &&& forall|i: int| 0 <= i < out.len() && (#[trigger] out[i]).1 is None ==> !open.contains(out[i].0)
            &&& forall|i: int, j: int|
                0 <= i < j < out.len() && (#[trigger] out[i]).1 is None ==> (#[trigger] out[j]).0 != out[i].0
        }),
    decreases events.len(),
{
    if events.len() > 0 {
        let prev = events.drop_last();
        lemma_markers_close(registered, prev);
        let (open0, out0) = mux_replay(registered, prev);
        let (open, out) = mux_replay(registered, events);
        let (next, emitted) = mux_step(open0, events.last());
        assert(open == next);
        assert(forall|k: Subnet| open.contains(k) ==> open0.contains(k));
        if let Some(x) = emitted {
            assert(out == out0.push(x));
            assert(open0.contains(x.0));
            assert forall|i: int, j: int|
                0 <= i < j < out.len() && (#[trigger] out[i]).1 is None implies (#[trigger] out[j]).0
                != out[i].0 by {
                if j == out0.len() {
                    assert(out[i] == out0[i]);
                } else {
                    assert(out[i] == out0[i] && out[j] == out0[j]);
                }
            }
            assert forall|i: int| 0 <= i < out.len() && (#[trigger] out[i]).1 is None implies !open.contains(
                out[i].0,
            ) by {
                if i < out0.len() {
                    assert(out[i] == out0[i]);
                }
            }
        }
    }
}

/// Once the fan-in has handed on a subnet's closed marker, it hands on
/// nothing more of that subnet, whatever the sources deliver afterwards.
pub proof fn lemma_nothing_after_closed_marker(registered: Set<Subnet>, events: Seq<SourceEvent>)
    ensures
        ({
            let out = mux_replay(registered, events).1;
            forall|i: int, j: int|
                0 <= i < j < out.len() && (#[trigger] out[i]).1 is None ==> (#[trigger] out[j]).0 != out[i].0
        }),
{
    lemma_markers_close(registered, events);
}

} // verus!
