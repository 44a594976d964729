use vstd::prelude::*;

use crate::codec::{decode, is_payload_bytes, payload_bytes};
use crate::metric_id::BaseMetricId;
use crate::payload::IPCPayload;
use crate::wire::Wire;

verus! {

/// Which store a metric lives in.
#[derive(Clone, Copy, Debug, PartialEq, Eq, Structural, Hash)]
pub enum Store {
    /// The compiled-in store.
    Static,
    /// The store of metrics registered at runtime.
    Dynamic,
}

/// The containers of a batch, one per kind of update.
#[derive(Clone, Copy, Debug, PartialEq, Eq, Structural, Hash)]
pub enum Container {
    Booleans,
    LabeledBooleans,
    Counters,
    CustomSamples,
    LabeledCustomSamples,
    Denominators,
    Events,
    LabeledCounters,
    DualLabeledCounters,
    MemorySamples,
    LabeledMemorySamples,
    Numerators,
    Rates,
    StringLists,
    TimingSamples,
    LabeledTimingSamples,
}

/// Points at one update of a batch: the entry of a container and, where the
/// entry holds several labels, events or strings, the item within it; with
/// the metric it is for and the store to find that metric in.
#[derive(Clone, Copy, Debug, PartialEq, Eq, Structural)]
pub struct Route {
    pub container: Container,
    pub entry: usize,
    pub item: usize,
    pub id: BaseMetricId,
    pub store: Store,
}

/// The store that a metric with this identifier lives in.
pub open spec fn store_of(id: BaseMetricId) -> Store {
    if id.spec_is_dynamic() {
        Store::Dynamic
    } else {
        Store::Static
    }
}

pub open spec fn route(c: Container, e: int, j: int, id: BaseMetricId) -> Route {
    Route { container: c, entry: e as usize, item: j as usize, id, store: store_of(id) }
}

/// One route per entry of `m`, in order.
pub open spec fn entry_routes<V>(c: Container, m: Seq<(BaseMetricId, V)>) -> Seq<Route> {
    Seq::new(m.len(), |e: int| route(c, e, 0, m[e].0))
}

/// One route per item of each entry of `m`, entry after entry, items in order.
pub open spec fn item_routes<V>(c: Container, m: Seq<(BaseMetricId, Vec<V>)>) -> Seq<Route>
    decreases m.len(),
{
    if m.len() == 0 {
        Seq::empty()
    } else {
        item_routes(c, m.drop_last()) + Seq::new(
            m.last().1@.len(),
            |j: int| route(c, m.len() - 1, j, m.last().0),
        )
    }
}

/// Every update of `p`, container after container, in the order in which
/// replay applies them.
pub open spec fn replay_plan(p: &IPCPayload) -> Seq<Route> {
    entry_routes(Container::Booleans, p.booleans@)
    + item_routes(Container::LabeledBooleans, p.labeled_booleans@)
    + entry_routes(Container::Counters, p.counters@)
    + entry_routes(Container::CustomSamples, p.custom_samples@)
    + item_routes(Container::LabeledCustomSamples, p.labeled_custom_samples@)
    + entry_routes(Container::Denominators, p.denominators@)
    + item_routes(Container::Events, p.events@)
    + item_routes(Container::LabeledCounters, p.labeled_counters@)
    + item_routes(Container::DualLabeledCounters, p.dual_labeled_counters@)
    + entry_routes(Container::MemorySamples, p.memory_samples@)
    + item_routes(Container::LabeledMemorySamples, p.labeled_memory_samples@)
    + entry_routes(Container::Numerators, p.numerators@)
    + entry_routes(Container::Rates, p.rates@)
    + item_routes(Container::StringLists, p.string_lists@)
    + entry_routes(Container::TimingSamples, p.timing_samples@)
    + item_routes(Container::LabeledTimingSamples, p.labeled_timing_samples@)
}

fn push_entry_routes<V>(out: &mut Vec<Route>, c: Container, m: &Vec<(BaseMetricId, V)>)
    ensures
        final(out)@ == old(out)@ + entry_routes(c, m@),
{
    let ghost start = out@;
    let mut e: usize = 0;
    while e < m.len()
        invariant
            e <= m@.len(),
            out@ == start + entry_routes(c, m@).take(e as int),
        decreases m@.len() - e,
    {
        let id = m[e].0;
        out.push(Route { container: c, entry: e, item: 0, id, store: store_for(id) });
        assert(entry_routes(c, m@).take(e + 1) =~= entry_routes(c, m@).take(e as int).push(
            route(c, e as int, 0, id),
        ));
        e += 1;
    }
    assert(entry_routes(c, m@).take(e as int) =~= entry_routes(c, m@));
}

fn push_item_routes<V>(out: &mut Vec<Route>, c: Container, m: &Vec<(BaseMetricId, Vec<V>)>)
    ensures
        final(out)@ == old(out)@ + item_routes(c, m@),
{
    let ghost start = out@;
    let mut e: usize = 0;
    while e < m.len()
        invariant
            e <= m@.len(),
            out@ == start + item_routes(c, m@.take(e as int)),
        decreases m@.len() - e,
    {
        let id = m[e].0;
        let n = m[e].1.len();
        let ghost before = out@;
        let mut j: usize = 0;
        while j < n
            invariant
                j <= n,
                n == m@[e as int].1@.len(),
                id == m@[e as int].0,
                out@ == before + Seq::new(j as nat, |k: int| route(c, e as int, k, id)),
            decreases n - j,
        {
            out.push(Route { container: c, entry: e, item: j, id, store: store_for(id) });
            assert(Seq::new((j + 1) as nat, |k: int| route(c, e as int, k, id)) =~= Seq::new(
                j as nat,
                |k: int| route(c, e as int, k, id),
            ).push(route(c, e as int, j as int, id)));
            j += 1;
        }
        assert(m@.take(e + 1).drop_last() =~= m@.take(e as int));
        assert(out@ =~= start + item_routes(c, m@.take(e + 1)));
        e += 1;
    }
    assert(m@.take(e as int) =~= m@);
}

/// The store to look `id` up in.
pub fn store_for(id: BaseMetricId) -> (r: Store)
    ensures
        r == store_of(id),
{
    if id.is_dynamic() {
        Store::Dynamic
    } else {
        Store::Static
    }
}

/// Lists every update of `p` with the store it goes to, in the order in
/// which replay applies them.
pub fn plan_replay(p: &IPCPayload) -> (r: Vec<Route>)
    ensures
        r@ == replay_plan(p),
{
    let mut out: Vec<Route> = Vec::new();
    push_entry_routes(&mut out, Container::Booleans, &p.booleans);
    push_item_routes(&mut out, Container::LabeledBooleans, &p.labeled_booleans);
    push_entry_routes(&mut out, Container::Counters, &p.counters);
    push_entry_routes(&mut out, Container::CustomSamples, &p.custom_samples);
    push_item_routes(&mut out, Container::LabeledCustomSamples, &p.labeled_custom_samples);
    push_entry_routes(&mut out, Container::Denominators, &p.denominators);
    push_item_routes(&mut out, Container::Events, &p.events);
    push_item_routes(&mut out, Container::LabeledCounters, &p.labeled_counters);
    push_item_routes(&mut out, Container::DualLabeledCounters, &p.dual_labeled_counters);
    push_entry_routes(&mut out, Container::MemorySamples, &p.memory_samples);
    push_item_routes(&mut out, Container::LabeledMemorySamples, &p.labeled_memory_samples);
    push_entry_routes(&mut out, Container::Numerators, &p.numerators);
    push_entry_routes(&mut out, Container::Rates, &p.rates);
    push_item_routes(&mut out, Container::StringLists, &p.string_lists);
    push_entry_routes(&mut out, Container::TimingSamples, &p.timing_samples);
    push_item_routes(&mut out, Container::LabeledTimingSamples, &p.labeled_timing_samples);
    assert(out@ =~= replay_plan(p));
    out
}

/// One update to apply to a metric, borrowed from the batch.
pub enum MetricOp<'a> {
    SetBool(bool),
    SetLabeledBool(&'a String, bool),
    AddToCounter(i32),
    AccumulateSamplesSigned(&'a Vec<i64>),
    AccumulateLabeledSamplesSigned(&'a String, &'a Vec<i64>),
    AddToDenominator(i32),
    RecordEvent(u64, &'a Vec<(String, String)>),
    AddToLabeledCounter(&'a String, i32),
    AddToDualLabeledCounter(&'a String, &'a String, i32),
    AccumulateMemorySamples(&'a Vec<u64>),
    AccumulateLabeledMemorySamples(&'a String, &'a Vec<u64>),
    AddToNumerator(i32),
    AddToRate(i32, i32),
    AddString(&'a String),
    AccumulateTimingSamples(&'a Vec<u64>),
    AccumulateLabeledTimingSamples(&'a String, &'a Vec<u64>),
}

/// What an update stands for: the operation, with the values it carries.
pub enum OpModel {
    SetBool(bool),
    SetLabeledBool(Seq<char>, bool),
    AddToCounter(i32),
    AccumulateSamplesSigned(Seq<i64>),
    AccumulateLabeledSamplesSigned(Seq<char>, Seq<i64>),
    AddToDenominator(i32),
    RecordEvent(u64, Seq<(Seq<char>, Seq<char>)>),
    AddToLabeledCounter(Seq<char>, i32),
    AddToDualLabeledCounter(Seq<char>, Seq<char>, i32),
    AccumulateMemorySamples(Seq<u64>),
    AccumulateLabeledMemorySamples(Seq<char>, Seq<u64>),
    AddToNumerator(i32),
    AddToRate(i32, i32),
    AddString(Seq<char>),
    AccumulateTimingSamples(Seq<u64>),
    AccumulateLabeledTimingSamples(Seq<char>, Seq<u64>),
}

impl<'a> MetricOp<'a> {
    pub open spec fn model(&self) -> OpModel {
        match *self {
            MetricOp::SetBool(v) => OpModel::SetBool(v),
            MetricOp::SetLabeledBool(l, v) => OpModel::SetLabeledBool(l@, v),
            MetricOp::AddToCounter(v) => OpModel::AddToCounter(v),
            MetricOp::AccumulateSamplesSigned(v) => OpModel::AccumulateSamplesSigned(v@),
            MetricOp::AccumulateLabeledSamplesSigned(l, v) => OpModel::AccumulateLabeledSamplesSigned(l@, v@),
            MetricOp::AddToDenominator(v) => OpModel::AddToDenominator(v),
            MetricOp::RecordEvent(t, extra) => OpModel::RecordEvent(t, extra.model()),
            MetricOp::AddToLabeledCounter(l, v) => OpModel::AddToLabeledCounter(l@, v),
            MetricOp::AddToDualLabeledCounter(k, c, v) => OpModel::AddToDualLabeledCounter(k@, c@, v),
            MetricOp::AccumulateMemorySamples(v) => OpModel::AccumulateMemorySamples(v@),
            MetricOp::AccumulateLabeledMemorySamples(l, v) => OpModel::AccumulateLabeledMemorySamples(l@, v@),
            MetricOp::AddToNumerator(v) => OpModel::AddToNumerator(v),
            MetricOp::AddToRate(n, d) => OpModel::AddToRate(n, d),
            MetricOp::AddString(x) => OpModel::AddString(x@),
            MetricOp::AccumulateTimingSamples(v) => OpModel::AccumulateTimingSamples(v@),
            MetricOp::AccumulateLabeledTimingSamples(l, v) => OpModel::AccumulateLabeledTimingSamples(l@, v@),
        }
    }
}

/// The metric stores that replay applies updates to: a compiled-in one and
/// one of metrics registered at runtime. Labeled metrics create the
/// sub-metric of a label they do not know yet.
///
/// `knows` says which metrics the stores hold, and `calls` lists the
/// operations applied so far, in order. An implementation verified against
/// these contracts defines both; the defaults describe stores that know every
/// metric and keep no record.
pub trait MetricStores {
    open spec fn knows(&self, store: Store, container: Container, id: BaseMetricId) -> bool {
        true
    }

    open spec fn calls(&self) -> Seq<(Store, BaseMetricId, OpModel)> {
        Seq::empty()
    }

    /// Whether `store` holds a metric of the kind of `container` under `id`.
    fn contains(&self, store: Store, container: Container, id: BaseMetricId) -> (r: bool)
        ensures
            r == self.knows(store, container, id),
    ;

    /// Applies `op` to the metric `id` of `store`.
    fn apply(&mut self, store: Store, id: BaseMetricId, op: MetricOp<'_>)
        ensures
            final(self).calls() == old(self).calls().push((store, id, op.model())),
            forall|s: Store, c: Container, i: BaseMetricId|
                #[trigger] final(self).knows(s, c, i) == old(self).knows(s, c, i),
    ;
}

/// The routes among `routes` that replay applies to `stores`: those whose
/// metric the stores know, in order.
pub open spec fn kept_routes<S: MetricStores>(stores: &S, p: &IPCPayload, routes: Seq<Route>) -> Seq<
    Route,
>
    decreases routes.len(),
{
    if routes.len() == 0 {
        Seq::empty()
    } else {
        let r = routes.last();
        let rest = kept_routes(stores, p, routes.drop_last());
        if stores.knows(r.store, r.container, r.id) && route_in(p, r) {
            rest.push(r)
        } else {
            rest
        }
    }
}

/// The operation that replay applies for route `r` of `p`.
pub open spec fn call_of(p: &IPCPayload, r: Route) -> (Store, BaseMetricId, OpModel) {
    (r.store, r.id, op_of(p, r).model())
}

/// The operations that replaying `routes` of `p` applies to `stores`: one
/// for each route whose metric the stores know, in order.
pub open spec fn applied<S: MetricStores>(stores: &S, p: &IPCPayload, routes: Seq<Route>) -> Seq<
    (Store, BaseMetricId, OpModel),
> {
    kept_routes(stores, p, routes).map_values(|r: Route| call_of(p, r))
}

/// Whether `r` points at an update that `p` holds.
pub open spec fn route_in(p: &IPCPayload, r: Route) -> bool {
    let e = r.entry as int;
    let j = r.item as int;
    match r.container {
        Container::Booleans => e < p.booleans@.len(),
        Container::LabeledBooleans => e < p.labeled_booleans@.len() && j < p.labeled_booleans@[e].1@.len(),
        Container::Counters => e < p.counters@.len(),
        Container::CustomSamples => e < p.custom_samples@.len(),
        Container::LabeledCustomSamples => e < p.labeled_custom_samples@.len() && j < p.labeled_custom_samples@[e].1@.len(),
        Container::Denominators => e < p.denominators@.len(),
        Container::Events => e < p.events@.len() && j < p.events@[e].1@.len(),
        Container::LabeledCounters => e < p.labeled_counters@.len() && j < p.labeled_counters@[e].1@.len(),
        Container::DualLabeledCounters => e < p.dual_labeled_counters@.len() && j < p.dual_labeled_counters@[e].1@.len(),
        Container::MemorySamples => e < p.memory_samples@.len(),
        Container::LabeledMemorySamples => e < p.labeled_memory_samples@.len() && j < p.labeled_memory_samples@[e].1@.len(),
        Container::Numerators => e < p.numerators@.len(),
        Container::Rates => e < p.rates@.len(),
        Container::StringLists => e < p.string_lists@.len() && j < p.string_lists@[e].1@.len(),
        Container::TimingSamples => e < p.timing_samples@.len(),
        Container::LabeledTimingSamples => e < p.labeled_timing_samples@.len() && j < p.labeled_timing_samples@[e].1@.len(),
    }
}

/// The update that `r` points at in `p`: the operation of its container, on
/// the entry's value or on the item's label and value.
pub open spec fn op_of<'a>(p: &'a IPCPayload, r: Route) -> MetricOp<'a> {
    let e = r.entry as int;
    let j = r.item as int;
    match r.container {
        Container::Booleans => MetricOp::SetBool(p.booleans@[e].1),
        Container::LabeledBooleans => MetricOp::SetLabeledBool(&p.labeled_booleans@[e].1@[j].0, p.labeled_booleans@[e].1@[j].1),
        Container::Counters => MetricOp::AddToCounter(p.counters@[e].1),
        Container::CustomSamples => MetricOp::AccumulateSamplesSigned(&p.custom_samples@[e].1),
        Container::LabeledCustomSamples => MetricOp::AccumulateLabeledSamplesSigned(&p.labeled_custom_samples@[e].1@[j].0, &p.labeled_custom_samples@[e].1@[j].1),
        Container::Denominators => MetricOp::AddToDenominator(p.denominators@[e].1),
        Container::Events => MetricOp::RecordEvent(p.events@[e].1@[j].0, &p.events@[e].1@[j].1),
        Container::LabeledCounters => MetricOp::AddToLabeledCounter(&p.labeled_counters@[e].1@[j].0, p.labeled_counters@[e].1@[j].1),
        Container::DualLabeledCounters => MetricOp::AddToDualLabeledCounter(&p.dual_labeled_counters@[e].1@[j].0.0, &p.dual_labeled_counters@[e].1@[j].0.1, p.dual_labeled_counters@[e].1@[j].1),
        Container::MemorySamples => MetricOp::AccumulateMemorySamples(&p.memory_samples@[e].1),
        Container::LabeledMemorySamples => MetricOp::AccumulateLabeledMemorySamples(&p.labeled_memory_samples@[e].1@[j].0, &p.labeled_memory_samples@[e].1@[j].1),
        Container::Numerators => MetricOp::AddToNumerator(p.numerators@[e].1),
        Container::Rates => MetricOp::AddToRate(p.rates@[e].1.0, p.rates@[e].1.1),
        Container::StringLists => MetricOp::AddString(&p.string_lists@[e].1@[j]),
        Container::TimingSamples => MetricOp::AccumulateTimingSamples(&p.timing_samples@[e].1),
        Container::LabeledTimingSamples => MetricOp::AccumulateLabeledTimingSamples(&p.labeled_timing_samples@[e].1@[j].0, &p.labeled_timing_samples@[e].1@[j].1),
    }
}

/// The update that `r` points at in `p`, if `p` holds it.
pub fn op_at<'a>(p: &'a IPCPayload, r: &Route) -> (op: Option<MetricOp<'a>>)
    ensures
        op is Some <==> route_in(p, *r),
        op matches Some(o) ==> o == op_of(p, *r),
{
    let e = r.entry;
    let j = r.item;
    match r.container {
        Container::Booleans => {
            if e < p.booleans.len() {
                Some(MetricOp::SetBool(p.booleans[e].1))
            } else {
                None
            }
        },
        Container::LabeledBooleans => {
            if e < p.labeled_booleans.len() && j < p.labeled_booleans[e].1.len() {
                let (label, v) = &p.labeled_booleans[e].1[j];
                Some(MetricOp::SetLabeledBool(label, *v))
            } else {
                None
            }
        },
        Container::Counters => {
            if e < p.counters.len() {
                Some(MetricOp::AddToCounter(p.counters[e].1))
            } else {
                None
            }
        },
        Container::CustomSamples => {
            if e < p.custom_samples.len() {
                Some(MetricOp::AccumulateSamplesSigned(&p.custom_samples[e].1))
            } else {
                None
            }
        },
        Container::LabeledCustomSamples => {
            if e < p.labeled_custom_samples.len() && j < p.labeled_custom_samples[e].1.len() {
                let (label, v) = &p.labeled_custom_samples[e].1[j];
                Some(MetricOp::AccumulateLabeledSamplesSigned(label, v))
            } else {
                None
            }
        },
        Container::Denominators => {
            if e < p.denominators.len() {
                Some(MetricOp::AddToDenominator(p.denominators[e].1))
            } else {
                None
            }
        },
        Container::Events => {
            if e < p.events.len() && j < p.events[e].1.len() {
                let (t, extra) = &p.events[e].1[j];
                Some(MetricOp::RecordEvent(*t, extra))
            } else {
                None
            }
        },
        Container::LabeledCounters => {
            if e < p.labeled_counters.len() && j < p.labeled_counters[e].1.len() {
                let (label, v) = &p.labeled_counters[e].1[j];
                Some(MetricOp::AddToLabeledCounter(label, *v))
            } else {
                None
            }
        },
        Container::DualLabeledCounters => {
            if e < p.dual_labeled_counters.len() && j < p.dual_labeled_counters[e].1.len() {
                let ((key, category), v) = &p.dual_labeled_counters[e].1[j];
                Some(MetricOp::AddToDualLabeledCounter(key, category, *v))
            } else {
                None
            }
        },
        Container::MemorySamples => {
            if e < p.memory_samples.len() {
                Some(MetricOp::AccumulateMemorySamples(&p.memory_samples[e].1))
            } else {
                None
            }
        },
        Container::LabeledMemorySamples => {
            if e < p.labeled_memory_samples.len() && j < p.labeled_memory_samples[e].1.len() {
                let (label, v) = &p.labeled_memory_samples[e].1[j];
                Some(MetricOp::AccumulateLabeledMemorySamples(label, v))
            } else {
                None
            }
        },
        Container::Numerators => {
            if e < p.numerators.len() {
                Some(MetricOp::AddToNumerator(p.numerators[e].1))
            } else {
                None
            }
        },
        Container::Rates => {
            if e < p.rates.len() {
                let (n, d) = p.rates[e].1;
                Some(MetricOp::AddToRate(n, d))
            } else {
                None
            }
        },
        Container::StringLists => {
            if e < p.string_lists.len() && j < p.string_lists[e].1.len() {
                Some(MetricOp::AddString(&p.string_lists[e].1[j]))
            } else {
                None
            }
        },
        Container::TimingSamples => {
            if e < p.timing_samples.len() {
                Some(MetricOp::AccumulateTimingSamples(&p.timing_samples[e].1))
            } else {
                None
            }
        },
        Container::LabeledTimingSamples => {
            if e < p.labeled_timing_samples.len() && j < p.labeled_timing_samples[e].1.len() {
                let (label, v) = &p.labeled_timing_samples[e].1[j];
                Some(MetricOp::AccumulateLabeledTimingSamples(label, v))
            } else {
                None
            }
        },
    }
}

/// Applies every update of `p` whose metric `stores` knows, in the order of
/// `replay_plan(p)`; updates of unknown metrics are skipped.
pub fn replay_payload<S: MetricStores>(p: &IPCPayload, stores: &mut S)
    ensures
        final(stores).calls() == old(stores).calls() + applied(&*old(stores), p, replay_plan(p)),
        forall|s: Store, c: Container, i: BaseMetricId|
            #[trigger] final(stores).knows(s, c, i) == old(stores).knows(s, c, i),
        replay_plan(p).len() == 0 ==> *final(stores) == *old(stores),
{
    let routes = plan_replay(p);
    let ghost start = *stores;
    let mut i: usize = 0;
    while i < routes.len()
        invariant
            i <= routes@.len(),
            routes@ == replay_plan(p),
            start == *old(stores),
            routes@.len() == 0 ==> *stores == *old(stores),
            stores.calls() == start.calls() + applied(&start, p, routes@.take(i as int)),
            forall|s: Store, c: Container, k: BaseMetricId|
                #[trigger] stores.knows(s, c, k) == start.knows(s, c, k),
        decreases routes@.len() - i,
    {
        let r = routes[i];
        proof {
            assert(routes@.take(i + 1).drop_last() =~= routes@.take(i as int));
            assert(routes@.take(i + 1).last() == r);
        }
        if stores.contains(r.store, r.container, r.id) {
            match op_at(p, &r) {
                Some(op) => {
                    stores.apply(r.store, r.id, op);
                    assert(kept_routes(&start, p, routes@.take(i + 1)) == kept_routes(
                        &start,
                        p,
                        routes@.take(i as int),
                    ).push(r));
                    assert(applied(&start, p, routes@.take(i + 1)) =~= applied(
                        &start,
                        p,
                        routes@.take(i as int),
                    ).push(call_of(p, r)));
                    assert(stores.calls() =~= start.calls() + applied(&start, p, routes@.take(i + 1)));
                },
                None => {},
            }
        }
        i += 1;
    }
    assert(routes@.take(i as int) =~= routes@);
}

/// Reads a batch from `buf` and applies it to `stores`. Bytes that are no
/// batch are an error, and then nothing is applied.
pub fn replay_from_buf<S: MetricStores>(buf: &[u8], stores: &mut S) -> (r: Result<(), ()>)
    ensures
        r is Ok <==> is_payload_bytes(buf@),
        r is Err ==> *final(stores) == *old(stores),
        r is Ok ==> exists|p: IPCPayload|
            #![trigger payload_bytes(p.model())]
            payload_bytes(p.model()) == buf@ && final(stores).calls() == old(stores).calls()
                + applied(&*old(stores), &p, replay_plan(&p)),
        forall|s: Store, c: Container, i: BaseMetricId|
            #[trigger] final(stores).knows(s, c, i) == old(stores).knows(s, c, i),
        buf@ == payload_bytes(IPCPayload::empty_model()) ==> *final(stores) == *old(stores),
{
    match decode(buf) {
        Ok(p) => {
            proof {
                if buf@ == payload_bytes(IPCPayload::empty_model()) {
                    lemma_empty_batch(&p);
                }
            }
            replay_payload(&p, stores);
            Ok(())
        },
        Err(_) => Err(()),
    }
}

/// The identifier of entry `e` of container `c` of `p`.
pub open spec fn entry_id(p: &IPCPayload, c: Container, e: int) -> BaseMetricId {
    match c {
        Container::Booleans => p.booleans@[e].0,
        Container::LabeledBooleans => p.labeled_booleans@[e].0,
        Container::Counters => p.counters@[e].0,
        Container::CustomSamples => p.custom_samples@[e].0,
        Container::LabeledCustomSamples => p.labeled_custom_samples@[e].0,
        Container::Denominators => p.denominators@[e].0,
        Container::Events => p.events@[e].0,
        Container::LabeledCounters => p.labeled_counters@[e].0,
        Container::DualLabeledCounters => p.dual_labeled_counters@[e].0,
        Container::MemorySamples => p.memory_samples@[e].0,
        Container::LabeledMemorySamples => p.labeled_memory_samples@[e].0,
        Container::Numerators => p.numerators@[e].0,
        Container::Rates => p.rates@[e].0,
        Container::StringLists => p.string_lists@[e].0,
        Container::TimingSamples => p.timing_samples@[e].0,
        Container::LabeledTimingSamples => p.labeled_timing_samples@[e].0,
    }
}

/// `r` points at an update that `p` holds, is for the metric of that entry,
/// and goes to the store that the metric's tag names.
pub open spec fn route_ok(p: &IPCPayload, r: Route) -> bool {
    route_in(p, r) && r.id == entry_id(p, r.container, r.entry as int) && r.store == store_of(r.id)
}

/// The entries of `m` can be counted in a `usize`, as those of any vector can.
pub open spec fn entries_fit<V>(m: Seq<(BaseMetricId, V)>) -> bool {
    m.len() <= usize::MAX
}

/// The entries of `m`, and the items of each, can be counted in a `usize`.
pub open spec fn items_fit<V>(m: Seq<(BaseMetricId, Vec<V>)>) -> bool {
    m.len() <= usize::MAX && forall|k: int| 0 <= k < m.len() ==> (#[trigger] m[k]).1@.len() <= usize::MAX
}

/// Every count in `p` fits in a `usize`, as it does for any batch held in memory.
pub open spec fn payload_fits(p: &IPCPayload) -> bool {
    &&& entries_fit(p.booleans@)
    &&& items_fit(p.labeled_booleans@)
    &&& entries_fit(p.counters@)
    &&& entries_fit(p.custom_samples@)
    &&& items_fit(p.labeled_custom_samples@)
    &&& entries_fit(p.denominators@)
    &&& items_fit(p.events@)
    &&& items_fit(p.labeled_counters@)
    &&& items_fit(p.dual_labeled_counters@)
    &&& entries_fit(p.memory_samples@)
    &&& items_fit(p.labeled_memory_samples@)
    &&& entries_fit(p.numerators@)
    &&& entries_fit(p.rates@)
    &&& items_fit(p.string_lists@)
    &&& entries_fit(p.timing_samples@)
    &&& items_fit(p.labeled_timing_samples@)
}

proof fn lemma_entry_route_facts<V>(c: Container, m: Seq<(BaseMetricId, V)>)
    requires
        entries_fit(m),
    ensures
        forall|i: int|
            0 <= i < entry_routes(c, m).len() ==> {
                let r = #[trigger] entry_routes(c, m)[i];
                &&& r.container == c
                &&& r.entry == i
                &&& i < m.len()
                &&& r.item == 0
                &&& r.id == m[i].0
                &&& r.store == store_of(r.id)
            },
{
}

proof fn lemma_item_route_facts<V>(c: Container, m: Seq<(BaseMetricId, Vec<V>)>)
    requires
        items_fit(m),
    ensures
        forall|i: int|
            0 <= i < item_routes(c, m).len() ==> {
                let r = #[trigger] item_routes(c, m)[i];
                &&& r.container == c
                &&& r.entry < m.len()
                &&& r.item < m[r.entry as int].1@.len()
                &&& r.id == m[r.entry as int].0
                &&& r.store == store_of(r.id)
            },
        forall|i: int, j: int|
            0 <= i < j < item_routes(c, m).len() ==> {
                let a = #[trigger] item_routes(c, m)[i];
                let b = #[trigger] item_routes(c, m)[j];
                a.entry < b.entry || (a.entry == b.entry && a.item < b.item)
            },
    decreases m.len(),
{
    if m.len() > 0 {
        let d = m.drop_last();
        assert forall|k: int| 0 <= k < d.len() implies (#[trigger] d[k]).1@.len() <= usize::MAX by {
            assert(d[k] == m[k]);
        };
        lemma_item_route_facts(c, d);
        let head = item_routes(c, d);
        let tail = Seq::new(m.last().1@.len(), |j: int| route(c, m.len() - 1, j, m.last().0));
        let r = item_routes(c, m);
        assert(r == head + tail);
        assert forall|i: int| 0 <= i < r.len() implies {
            let x = #[trigger] r[i];
            &&& x.container == c
            &&& x.entry < m.len()
            &&& x.item < m[x.entry as int].1@.len()
            &&& x.id == m[x.entry as int].0
            &&& x.store == store_of(x.id)
        } by {
            if i < head.len() {
                assert(r[i] == head[i]);
                assert(m[head[i].entry as int] == d[head[i].entry as int]);
                assert(head[i].entry < d.len());
            } else {
                assert(r[i] == tail[i - head.len()]);
            }
        };
        assert forall|i: int, j: int| 0 <= i < j < r.len() implies {
            let a = #[trigger] r[i];
            let b = #[trigger] r[j];
            a.entry < b.entry || (a.entry == b.entry && a.item < b.item)
        } by {
            if j < head.len() {
                assert(r[i] == head[i] && r[j] == head[j]);
            } else if i >= head.len() {
                assert(r[i] == tail[i - head.len()] && r[j] == tail[j - head.len()]);
            } else {
                assert(r[i] == head[i] && r[j] == tail[j - head.len()]);
            }
        };
    }
}

/// Every route of `a + b` is sound where those of `a` and of `b` are.
proof fn lemma_routes_ok_concat(p: &IPCPayload, a: Seq<Route>, b: Seq<Route>)
    requires
        forall|i: int| 0 <= i < a.len() ==> route_ok(p, #[trigger] a[i]),
        forall|i: int| 0 <= i < b.len() ==> route_ok(p, #[trigger] b[i]),
    ensures
        forall|i: int| 0 <= i < (a + b).len() ==> route_ok(p, #[trigger] (a + b)[i]),
{
    assert forall|i: int| 0 <= i < (a + b).len() implies route_ok(p, #[trigger] (a + b)[i]) by {
        if i < a.len() {
            assert((a + b)[i] == a[i]);
        } else {
            assert((a + b)[i] == b[i - a.len()]);
        }
    };
}

/// The routes to events in `s` come entry after entry, and within one entry
/// item after item.
pub open spec fn events_in_order(s: Seq<Route>) -> bool {
    forall|i: int, j: int|
        0 <= i < j < s.len() && (#[trigger] s[i]).container == Container::Events && (#[trigger] s[j]).container
            == Container::Events ==> s[i].entry < s[j].entry || (s[i].entry == s[j].entry && s[i].item
            < s[j].item)
}

pub open spec fn no_events(s: Seq<Route>) -> bool {
    forall|i: int| 0 <= i < s.len() ==> (#[trigger] s[i]).container != Container::Events
}

proof fn lemma_order_concat(a: Seq<Route>, b: Seq<Route>)
    requires
        events_in_order(a),
        events_in_order(b),
        no_events(a) || no_events(b),
    ensures
        events_in_order(a + b),
{
    let s = a + b;
    assert forall|i: int, j: int|
        0 <= i < j < s.len() && (#[trigger] s[i]).container == Container::Events && (#[trigger] s[j]).container
            == Container::Events implies s[i].entry < s[j].entry || (s[i].entry == s[j].entry && s[i].item
            < s[j].item) by {
        if j < a.len() {
            assert(s[i] == a[i] && s[j] == a[j]);
        } else if i >= a.len() {
            assert(s[i] == b[i - a.len()] && s[j] == b[j - a.len()]);
        } else {
            assert(s[i] == a[i] && s[j] == b[j - a.len()]);
        }
    };
}

proof fn lemma_no_events_concat(a: Seq<Route>, b: Seq<Route>)
    requires
        no_events(a),
        no_events(b),
    ensures
        no_events(a + b),
{
    assert forall|i: int| 0 <= i < (a + b).len() implies (#[trigger] (a + b)[i]).container != Container::Events by {
        if i < a.len() {
            assert((a + b)[i] == a[i]);
        } else {
            assert((a + b)[i] == b[i - a.len()]);
        }
    };
}

/// Replay sends each update to the store that its identifier's tag names,
/// never to the other one, and only to the metric of the entry it comes
/// from: an update for one identifier never reaches another.
pub proof fn lemma_dispatch_by_tag(p: &IPCPayload)
    requires
        payload_fits(p),
    ensures
        forall|i: int| 0 <= i < replay_plan(p).len() ==> route_ok(p, #[trigger] replay_plan(p)[i]),
{
    lemma_entry_route_facts(Container::Booleans, p.booleans@);
    lemma_item_route_facts(Container::LabeledBooleans, p.labeled_booleans@);
    lemma_entry_route_facts(Container::Counters, p.counters@);
    lemma_entry_route_facts(Container::CustomSamples, p.custom_samples@);
    lemma_item_route_facts(Container::LabeledCustomSamples, p.labeled_custom_samples@);
    lemma_entry_route_facts(Container::Denominators, p.denominators@);
    lemma_item_route_facts(Container::Events, p.events@);
    lemma_item_route_facts(Container::LabeledCounters, p.labeled_counters@);
    lemma_item_route_facts(Container::DualLabeledCounters, p.dual_labeled_counters@);
    lemma_entry_route_facts(Container::MemorySamples, p.memory_samples@);
    lemma_item_route_facts(Container::LabeledMemorySamples, p.labeled_memory_samples@);
    lemma_entry_route_facts(Container::Numerators, p.numerators@);
    lemma_entry_route_facts(Container::Rates, p.rates@);
    lemma_item_route_facts(Container::StringLists, p.string_lists@);
    lemma_entry_route_facts(Container::TimingSamples, p.timing_samples@);
    lemma_item_route_facts(Container::LabeledTimingSamples, p.labeled_timing_samples@);
    lemma_routes_ok_concat(p, entry_routes(Container::Booleans, p.booleans@), item_routes(Container::LabeledBooleans, p.labeled_booleans@));
    lemma_routes_ok_concat(p, entry_routes(Container::Booleans, p.booleans@) + item_routes(Container::LabeledBooleans, p.labeled_booleans@), entry_routes(Container::Counters, p.counters@));
    lemma_routes_ok_concat(p, entry_routes(Container::Booleans, p.booleans@) + item_routes(Container::LabeledBooleans, p.labeled_booleans@) + entry_routes(Container::Counters, p.counters@), entry_routes(Container::CustomSamples, p.custom_samples@));
    lemma_routes_ok_concat(p, entry_routes(Container::Booleans, p.booleans@) + item_routes(Container::LabeledBooleans, p.labeled_booleans@) + entry_routes(Container::Counters, p.counters@) + entry_routes(Container::CustomSamples, p.custom_samples@), item_routes(Container::LabeledCustomSamples, p.labeled_custom_samples@));
    lemma_routes_ok_concat(p, entry_routes(Container::Booleans, p.booleans@) + item_routes(Container::LabeledBooleans, p.labeled_booleans@) + entry_routes(Container::Counters, p.counters@) + entry_routes(Container::CustomSamples, p.custom_samples@) + item_routes(Container::LabeledCustomSamples, p.labeled_custom_samples@), entry_routes(Container::Denominators, p.denominators@));
    lemma_routes_ok_concat(p, entry_routes(Container::Booleans, p.booleans@) + item_routes(Container::LabeledBooleans, p.labeled_booleans@) + entry_routes(Container::Counters, p.counters@) + entry_routes(Container::CustomSamples, p.custom_samples@) + item_routes(Container::LabeledCustomSamples, p.labeled_custom_samples@) + entry_routes(Container::Denominators, p.denominators@), item_routes(Container::Events, p.events@));
    lemma_routes_ok_concat(p, entry_routes(Container::Booleans, p.booleans@) + item_routes(Container::LabeledBooleans, p.labeled_booleans@) + entry_routes(Container::Counters, p.counters@) + entry_routes(Container::CustomSamples, p.custom_samples@) + item_routes(Container::LabeledCustomSamples, p.labeled_custom_samples@) + entry_routes(Container::Denominators, p.denominators@) + item_routes(Container::Events, p.events@), item_routes(Container::LabeledCounters, p.labeled_counters@));
    lemma_routes_ok_concat(p, entry_routes(Container::Booleans, p.booleans@) + item_routes(Container::LabeledBooleans, p.labeled_booleans@) + entry_routes(Container::Counters, p.counters@) + entry_routes(Container::CustomSamples, p.custom_samples@) + item_routes(Container::LabeledCustomSamples, p.labeled_custom_samples@) + entry_routes(Container::Denominators, p.denominators@) + item_routes(Container::Events, p.events@) + item_routes(Container::LabeledCounters, p.labeled_counters@), item_routes(Container::DualLabeledCounters, p.dual_labeled_counters@));
    lemma_routes_ok_concat(p, entry_routes(Container::Booleans, p.booleans@) + item_routes(Container::LabeledBooleans, p.labeled_booleans@) + entry_routes(Container::Counters, p.counters@) + entry_routes(Container::CustomSamples, p.custom_samples@) + item_routes(Container::LabeledCustomSamples, p.labeled_custom_samples@) + entry_routes(Container::Denominators, p.denominators@) + item_routes(Container::Events, p.events@) + item_routes(Container::LabeledCounters, p.labeled_counters@) + item_routes(Container::DualLabeledCounters, p.dual_labeled_counters@), entry_routes(Container::MemorySamples, p.memory_samples@));
    lemma_routes_ok_concat(p, entry_routes(Container::Booleans, p.booleans@) + item_routes(Container::LabeledBooleans, p.labeled_booleans@) + entry_routes(Container::Counters, p.counters@) + entry_routes(Container::CustomSamples, p.custom_samples@) + item_routes(Container::LabeledCustomSamples, p.labeled_custom_samples@) + entry_routes(Container::Denominators, p.denominators@) + item_routes(Container::Events, p.events@) + item_routes(Container::LabeledCounters, p.labeled_counters@) + item_routes(Container::DualLabeledCounters, p.dual_labeled_counters@) + entry_routes(Container::MemorySamples, p.memory_samples@), item_routes(Container::LabeledMemorySamples, p.labeled_memory_samples@));
    lemma_routes_ok_concat(p, entry_routes(Container::Booleans, p.booleans@) + item_routes(Container::LabeledBooleans, p.labeled_booleans@) + entry_routes(Container::Counters, p.counters@) + entry_routes(Container::CustomSamples, p.custom_samples@) + item_routes(Container::LabeledCustomSamples, p.labeled_custom_samples@) + entry_routes(Container::Denominators, p.denominators@) + item_routes(Container::Events, p.events@) + item_routes(Container::LabeledCounters, p.labeled_counters@) + item_routes(Container::DualLabeledCounters, p.dual_labeled_counters@) + entry_routes(Container::MemorySamples, p.memory_samples@) + item_routes(Container::LabeledMemorySamples, p.labeled_memory_samples@), entry_routes(Container::Numerators, p.numerators@));
    lemma_routes_ok_concat(p, entry_routes(Container::Booleans, p.booleans@) + item_routes(Container::LabeledBooleans, p.labeled_booleans@) + entry_routes(Container::Counters, p.counters@) + entry_routes(Container::CustomSamples, p.custom_samples@) + item_routes(Container::LabeledCustomSamples, p.labeled_custom_samples@) + entry_routes(Container::Denominators, p.denominators@) + item_routes(Container::Events, p.events@) + item_routes(Container::LabeledCounters, p.labeled_counters@) + item_routes(Container::DualLabeledCounters, p.dual_labeled_counters@) + entry_routes(Container::MemorySamples, p.memory_samples@) + item_routes(Container::LabeledMemorySamples, p.labeled_memory_samples@) + entry_routes(Container::Numerators, p.numerators@), entry_routes(Container::Rates, p.rates@));
    lemma_routes_ok_concat(p, entry_routes(Container::Booleans, p.booleans@) + item_routes(Container::LabeledBooleans, p.labeled_booleans@) + entry_routes(Container::Counters, p.counters@) + entry_routes(Container::CustomSamples, p.custom_samples@) + item_routes(Container::LabeledCustomSamples, p.labeled_custom_samples@) + entry_routes(Container::Denominators, p.denominators@) + item_routes(Container::Events, p.events@) + item_routes(Container::LabeledCounters, p.labeled_counters@) + item_routes(Container::DualLabeledCounters, p.dual_labeled_counters@) + entry_routes(Container::MemorySamples, p.memory_samples@) + item_routes(Container::LabeledMemorySamples, p.labeled_memory_samples@) + entry_routes(Container::Numerators, p.numerators@) + entry_routes(Container::Rates, p.rates@), item_routes(Container::StringLists, p.string_lists@));
    lemma_routes_ok_concat(p, entry_routes(Container::Booleans, p.booleans@) + item_routes(Container::LabeledBooleans, p.labeled_booleans@) + entry_routes(Container::Counters, p.counters@) + entry_routes(Container::CustomSamples, p.custom_samples@) + item_routes(Container::LabeledCustomSamples, p.labeled_custom_samples@) + entry_routes(Container::Denominators, p.denominators@) + item_routes(Container::Events, p.events@) + item_routes(Container::LabeledCounters, p.labeled_counters@) + item_routes(Container::DualLabeledCounters, p.dual_labeled_counters@) + entry_routes(Container::MemorySamples, p.memory_samples@) + item_routes(Container::LabeledMemorySamples, p.labeled_memory_samples@) + entry_routes(Container::Numerators, p.numerators@) + entry_routes(Container::Rates, p.rates@) + item_routes(Container::StringLists, p.string_lists@), entry_routes(Container::TimingSamples, p.timing_samples@));
    lemma_routes_ok_concat(p, entry_routes(Container::Booleans, p.booleans@) + item_routes(Container::LabeledBooleans, p.labeled_booleans@) + entry_routes(Container::Counters, p.counters@) + entry_routes(Container::CustomSamples, p.custom_samples@) + item_routes(Container::LabeledCustomSamples, p.labeled_custom_samples@) + entry_routes(Container::Denominators, p.denominators@) + item_routes(Container::Events, p.events@) + item_routes(Container::LabeledCounters, p.labeled_counters@) + item_routes(Container::DualLabeledCounters, p.dual_labeled_counters@) + entry_routes(Container::MemorySamples, p.memory_samples@) + item_routes(Container::LabeledMemorySamples, p.labeled_memory_samples@) + entry_routes(Container::Numerators, p.numerators@) + entry_routes(Container::Rates, p.rates@) + item_routes(Container::StringLists, p.string_lists@) + entry_routes(Container::TimingSamples, p.timing_samples@), item_routes(Container::LabeledTimingSamples, p.labeled_timing_samples@));
}

/// Replay applies the events of one metric in the order in which they were
/// recorded, and does not interleave them with the events of another.
pub proof fn lemma_events_in_order(p: &IPCPayload)
    requires
        payload_fits(p),
    ensures
        events_in_order(replay_plan(p)),
{
    lemma_entry_route_facts(Container::Booleans, p.booleans@);
    lemma_item_route_facts(Container::LabeledBooleans, p.labeled_booleans@);
    lemma_entry_route_facts(Container::Counters, p.counters@);
    lemma_entry_route_facts(Container::CustomSamples, p.custom_samples@);
    lemma_item_route_facts(Container::LabeledCustomSamples, p.labeled_custom_samples@);
    lemma_entry_route_facts(Container::Denominators, p.denominators@);
    lemma_item_route_facts(Container::Events, p.events@);
    lemma_item_route_facts(Container::LabeledCounters, p.labeled_counters@);
    lemma_item_route_facts(Container::DualLabeledCounters, p.dual_labeled_counters@);
    lemma_entry_route_facts(Container::MemorySamples, p.memory_samples@);
    lemma_item_route_facts(Container::LabeledMemorySamples, p.labeled_memory_samples@);
    lemma_entry_route_facts(Container::Numerators, p.numerators@);
    lemma_entry_route_facts(Container::Rates, p.rates@);
    lemma_item_route_facts(Container::StringLists, p.string_lists@);
    lemma_entry_route_facts(Container::TimingSamples, p.timing_samples@);
    lemma_item_route_facts(Container::LabeledTimingSamples, p.labeled_timing_samples@);
    lemma_no_events_concat(entry_routes(Container::Booleans, p.booleans@), item_routes(Container::LabeledBooleans, p.labeled_booleans@));
    lemma_no_events_concat(entry_routes(Container::Booleans, p.booleans@) + item_routes(Container::LabeledBooleans, p.labeled_booleans@), entry_routes(Container::Counters, p.counters@));
    lemma_no_events_concat(entry_routes(Container::Booleans, p.booleans@) + item_routes(Container::LabeledBooleans, p.labeled_booleans@) + entry_routes(Container::Counters, p.counters@), entry_routes(Container::CustomSamples, p.custom_samples@));
    lemma_no_events_concat(entry_routes(Container::Booleans, p.booleans@) + item_routes(Container::LabeledBooleans, p.labeled_booleans@) + entry_routes(Container::Counters, p.counters@) + entry_routes(Container::CustomSamples, p.custom_samples@), item_routes(Container::LabeledCustomSamples, p.labeled_custom_samples@));
    lemma_no_events_concat(entry_routes(Container::Booleans, p.booleans@) + item_routes(Container::LabeledBooleans, p.labeled_booleans@) + entry_routes(Container::Counters, p.counters@) + entry_routes(Container::CustomSamples, p.custom_samples@) + item_routes(Container::LabeledCustomSamples, p.labeled_custom_samples@), entry_routes(Container::Denominators, p.denominators@));
    lemma_order_concat(entry_routes(Container::Booleans, p.booleans@), item_routes(Container::LabeledBooleans, p.labeled_booleans@));
    lemma_order_concat(entry_routes(Container::Booleans, p.booleans@) + item_routes(Container::LabeledBooleans, p.labeled_booleans@), entry_routes(Container::Counters, p.counters@));
    lemma_order_concat(entry_routes(Container::Booleans, p.booleans@) + item_routes(Container::LabeledBooleans, p.labeled_booleans@) + entry_routes(Container::Counters, p.counters@), entry_routes(Container::CustomSamples, p.custom_samples@));
    lemma_order_concat(entry_routes(Container::Booleans, p.booleans@) + item_routes(Container::LabeledBooleans, p.labeled_booleans@) + entry_routes(Container::Counters, p.counters@) + entry_routes(Container::CustomSamples, p.custom_samples@), item_routes(Container::LabeledCustomSamples, p.labeled_custom_samples@));
    lemma_order_concat(entry_routes(Container::Booleans, p.booleans@) + item_routes(Container::LabeledBooleans, p.labeled_booleans@) + entry_routes(Container::Counters, p.counters@) + entry_routes(Container::CustomSamples, p.custom_samples@) + item_routes(Container::LabeledCustomSamples, p.labeled_custom_samples@), entry_routes(Container::Denominators, p.denominators@));
    lemma_order_concat(entry_routes(Container::Booleans, p.booleans@) + item_routes(Container::LabeledBooleans, p.labeled_booleans@) + entry_routes(Container::Counters, p.counters@) + entry_routes(Container::CustomSamples, p.custom_samples@) + item_routes(Container::LabeledCustomSamples, p.labeled_custom_samples@) + entry_routes(Container::Denominators, p.denominators@), item_routes(Container::Events, p.events@));
    lemma_order_concat(entry_routes(Container::Booleans, p.booleans@) + item_routes(Container::LabeledBooleans, p.labeled_booleans@) + entry_routes(Container::Counters, p.counters@) + entry_routes(Container::CustomSamples, p.custom_samples@) + item_routes(Container::LabeledCustomSamples, p.labeled_custom_samples@) + entry_routes(Container::Denominators, p.denominators@) + item_routes(Container::Events, p.events@), item_routes(Container::LabeledCounters, p.labeled_counters@));
    lemma_order_concat(entry_routes(Container::Booleans, p.booleans@) + item_routes(Container::LabeledBooleans, p.labeled_booleans@) + entry_routes(Container::Counters, p.counters@) + entry_routes(Container::CustomSamples, p.custom_samples@) + item_routes(Container::LabeledCustomSamples, p.labeled_custom_samples@) + entry_routes(Container::Denominators, p.denominators@) + item_routes(Container::Events, p.events@) + item_routes(Container::LabeledCounters, p.labeled_counters@), item_routes(Container::DualLabeledCounters, p.dual_labeled_counters@));
    lemma_order_concat(entry_routes(Container::Booleans, p.booleans@) + item_routes(Container::LabeledBooleans, p.labeled_booleans@) + entry_routes(Container::Counters, p.counters@) + entry_routes(Container::CustomSamples, p.custom_samples@) + item_routes(Container::LabeledCustomSamples, p.labeled_custom_samples@) + entry_routes(Container::Denominators, p.denominators@) + item_routes(Container::Events, p.events@) + item_routes(Container::LabeledCounters, p.labeled_counters@) + item_routes(Container::DualLabeledCounters, p.dual_labeled_counters@), entry_routes(Container::MemorySamples, p.memory_samples@));
    lemma_order_concat(entry_routes(Container::Booleans, p.booleans@) + item_routes(Container::LabeledBooleans, p.labeled_booleans@) + entry_routes(Container::Counters, p.counters@) + entry_routes(Container::CustomSamples, p.custom_samples@) + item_routes(Container::LabeledCustomSamples, p.labeled_custom_samples@) + entry_routes(Container::Denominators, p.denominators@) + item_routes(Container::Events, p.events@) + item_routes(Container::LabeledCounters, p.labeled_counters@) + item_routes(Container::DualLabeledCounters, p.dual_labeled_counters@) + entry_routes(Container::MemorySamples, p.memory_samples@), item_routes(Container::LabeledMemorySamples, p.labeled_memory_samples@));
    lemma_order_concat(entry_routes(Container::Booleans, p.booleans@) + item_routes(Container::LabeledBooleans, p.labeled_booleans@) + entry_routes(Container::Counters, p.counters@) + entry_routes(Container::CustomSamples, p.custom_samples@) + item_routes(Container::LabeledCustomSamples, p.labeled_custom_samples@) + entry_routes(Container::Denominators, p.denominators@) + item_routes(Container::Events, p.events@) + item_routes(Container::LabeledCounters, p.labeled_counters@) + item_routes(Container::DualLabeledCounters, p.dual_labeled_counters@) + entry_routes(Container::MemorySamples, p.memory_samples@) + item_routes(Container::LabeledMemorySamples, p.labeled_memory_samples@), entry_routes(Container::Numerators, p.numerators@));
    lemma_order_concat(entry_routes(Container::Booleans, p.booleans@) + item_routes(Container::LabeledBooleans, p.labeled_booleans@) + entry_routes(Container::Counters, p.counters@) + entry_routes(Container::CustomSamples, p.custom_samples@) + item_routes(Container::LabeledCustomSamples, p.labeled_custom_samples@) + entry_routes(Container::Denominators, p.denominators@) + item_routes(Container::Events, p.events@) + item_routes(Container::LabeledCounters, p.labeled_counters@) + item_routes(Container::DualLabeledCounters, p.dual_labeled_counters@) + entry_routes(Container::MemorySamples, p.memory_samples@) + item_routes(Container::LabeledMemorySamples, p.labeled_memory_samples@) + entry_routes(Container::Numerators, p.numerators@), entry_routes(Container::Rates, p.rates@));
    lemma_order_concat(entry_routes(Container::Booleans, p.booleans@) + item_routes(Container::LabeledBooleans, p.labeled_booleans@) + entry_routes(Container::Counters, p.counters@) + entry_routes(Container::CustomSamples, p.custom_samples@) + item_routes(Container::LabeledCustomSamples, p.labeled_custom_samples@) + entry_routes(Container::Denominators, p.denominators@) + item_routes(Container::Events, p.events@) + item_routes(Container::LabeledCounters, p.labeled_counters@) + item_routes(Container::DualLabeledCounters, p.dual_labeled_counters@) + entry_routes(Container::MemorySamples, p.memory_samples@) + item_routes(Container::LabeledMemorySamples, p.labeled_memory_samples@) + entry_routes(Container::Numerators, p.numerators@) + entry_routes(Container::Rates, p.rates@), item_routes(Container::StringLists, p.string_lists@));
    lemma_order_concat(entry_routes(Container::Booleans, p.booleans@) + item_routes(Container::LabeledBooleans, p.labeled_booleans@) + entry_routes(Container::Counters, p.counters@) + entry_routes(Container::CustomSamples, p.custom_samples@) + item_routes(Container::LabeledCustomSamples, p.labeled_custom_samples@) + entry_routes(Container::Denominators, p.denominators@) + item_routes(Container::Events, p.events@) + item_routes(Container::LabeledCounters, p.labeled_counters@) + item_routes(Container::DualLabeledCounters, p.dual_labeled_counters@) + entry_routes(Container::MemorySamples, p.memory_samples@) + item_routes(Container::LabeledMemorySamples, p.labeled_memory_samples@) + entry_routes(Container::Numerators, p.numerators@) + entry_routes(Container::Rates, p.rates@) + item_routes(Container::StringLists, p.string_lists@), entry_routes(Container::TimingSamples, p.timing_samples@));
    lemma_order_concat(entry_routes(Container::Booleans, p.booleans@) + item_routes(Container::LabeledBooleans, p.labeled_booleans@) + entry_routes(Container::Counters, p.counters@) + entry_routes(Container::CustomSamples, p.custom_samples@) + item_routes(Container::LabeledCustomSamples, p.labeled_custom_samples@) + entry_routes(Container::Denominators, p.denominators@) + item_routes(Container::Events, p.events@) + item_routes(Container::LabeledCounters, p.labeled_counters@) + item_routes(Container::DualLabeledCounters, p.dual_labeled_counters@) + entry_routes(Container::MemorySamples, p.memory_samples@) + item_routes(Container::LabeledMemorySamples, p.labeled_memory_samples@) + entry_routes(Container::Numerators, p.numerators@) + entry_routes(Container::Rates, p.rates@) + item_routes(Container::StringLists, p.string_lists@) + entry_routes(Container::TimingSamples, p.timing_samples@), item_routes(Container::LabeledTimingSamples, p.labeled_timing_samples@));
}

/// Harvesting an empty batch gives bytes that decode, and a batch with every
/// container empty has nothing to replay.
pub proof fn lemma_empty_batch(p: &IPCPayload)
    requires
        p.model() == IPCPayload::empty_model(),
    ensures
        is_payload_bytes(payload_bytes(IPCPayload::empty_model())),
        replay_plan(p).len() == 0,
{
    assert(p.model().0.len() == p.booleans@.len());
    assert(p.model().1.0.len() == p.labeled_booleans@.len());
    assert(p.model().1.1.0.len() == p.counters@.len());
    assert(p.model().1.1.1.0.len() == p.custom_samples@.len());
    assert(p.model().1.1.1.1.0.len() == p.labeled_custom_samples@.len());
    assert(p.model().1.1.1.1.1.0.len() == p.denominators@.len());
    assert(p.model().1.1.1.1.1.1.0.len() == p.events@.len());
    assert(p.model().1.1.1.1.1.1.1.0.len() == p.labeled_counters@.len());
    assert(p.model().1.1.1.1.1.1.1.1.0.len() == p.dual_labeled_counters@.len());
    assert(p.model().1.1.1.1.1.1.1.1.1.0.len() == p.memory_samples@.len());
    assert(p.model().1.1.1.1.1.1.1.1.1.1.0.len() == p.labeled_memory_samples@.len());
    assert(p.model().1.1.1.1.1.1.1.1.1.1.1.0.len() == p.numerators@.len());
    assert(p.model().1.1.1.1.1.1.1.1.1.1.1.1.0.len() == p.rates@.len());
    assert(p.model().1.1.1.1.1.1.1.1.1.1.1.1.1.0.len() == p.string_lists@.len());
    assert(p.model().1.1.1.1.1.1.1.1.1.1.1.1.1.1.0.len() == p.timing_samples@.len());
    assert(p.model().1.1.1.1.1.1.1.1.1.1.1.1.1.1.1.len() == p.labeled_timing_samples@.len());
    assert(replay_plan(p) =~= Seq::empty());
}

proof fn lemma_kept_facts<S: MetricStores>(stores: &S, p: &IPCPayload, routes: Seq<Route>)
    ensures
        forall|i: int|
            0 <= i < kept_routes(stores, p, routes).len() ==> {
                let r = #[trigger] kept_routes(stores, p, routes)[i];
                &&& stores.knows(r.store, r.container, r.id)
                &&& exists|j: int| 0 <= j < routes.len() && routes[j] == r
            },
    decreases routes.len(),
{
    if routes.len() > 0 {
        let d = routes.drop_last();
        lemma_kept_facts(stores, p, d);
        let k = kept_routes(stores, p, routes);
        let kd = kept_routes(stores, p, d);
        assert forall|i: int| 0 <= i < k.len() implies {
            let r = #[trigger] k[i];
            &&& stores.knows(r.store, r.container, r.id)
            &&& exists|j: int| 0 <= j < routes.len() && routes[j] == r
        } by {
            if i < kd.len() {
                assert(k[i] == kd[i]);
                let j = choose|j: int| 0 <= j < d.len() && d[j] == kd[i];
                assert(routes[j] == d[j]);
            } else {
                assert(k[i] == routes.last());
                assert(routes[routes.len() - 1] == routes.last());
            }
        };
    }
}

proof fn lemma_kept_in_order<S: MetricStores>(stores: &S, p: &IPCPayload, routes: Seq<Route>)
    requires
        events_in_order(routes),
    ensures
        events_in_order(kept_routes(stores, p, routes)),
    decreases routes.len(),
{
    if routes.len() > 0 {
        let d = routes.drop_last();
        assert forall|i: int, j: int|
            0 <= i < j < d.len() && (#[trigger] d[i]).container == Container::Events && (#[trigger] d[j]).container
                == Container::Events implies d[i].entry < d[j].entry || (d[i].entry == d[j].entry && d[i].item
                < d[j].item) by {
            assert(d[i] == routes[i] && d[j] == routes[j]);
        };
        lemma_kept_in_order(stores, p, d);
        lemma_kept_facts(stores, p, d);
        let k = kept_routes(stores, p, routes);
        let kd = kept_routes(stores, p, d);
        let last = routes.last();
        assert forall|a: int, b: int|
            0 <= a < b < k.len() && (#[trigger] k[a]).container == Container::Events && (#[trigger] k[b]).container
                == Container::Events implies k[a].entry < k[b].entry || (k[a].entry == k[b].entry && k[a].item
                < k[b].item) by {
            if b < kd.len() {
                assert(k[a] == kd[a] && k[b] == kd[b]);
            } else {
                assert(k[a] == kd[a] && k[b] == last);
                let ja = choose|j: int| 0 <= j < d.len() && d[j] == kd[a];
                assert(routes[ja] == kd[a]);
                assert(routes[routes.len() - 1] == last);
            }
        };
    }
}

/// At the level of the calls replay makes: each goes to the store that its
/// identifier's tag names, for the metric of the entry it comes from, and
/// only where the stores know that metric, so an unknown identifier gets no
/// call; the events of one metric are applied in recorded order, with no
/// event of another metric between them.
pub proof fn lemma_replay_calls<S: MetricStores>(stores: &S, p: &IPCPayload)
    requires
        payload_fits(p),
    ensures
        applied(stores, p, replay_plan(p)) == kept_routes(stores, p, replay_plan(p)).map_values(
            |r: Route| call_of(p, r),
        ),
        forall|i: int|
            0 <= i < kept_routes(stores, p, replay_plan(p)).len() ==> {
                let r = #[trigger] kept_routes(stores, p, replay_plan(p))[i];
                &&& route_ok(p, r)
                &&& r.store == store_of(r.id)
                &&& stores.knows(r.store, r.container, r.id)
            },
        events_in_order(kept_routes(stores, p, replay_plan(p))),
{
    lemma_dispatch_by_tag(p);
    lemma_events_in_order(p);
    lemma_kept_facts(stores, p, replay_plan(p));
    lemma_kept_in_order(stores, p, replay_plan(p));
    let k = kept_routes(stores, p, replay_plan(p));
    assert forall|i: int| 0 <= i < k.len() implies {
        let r = #[trigger] k[i];
        &&& route_ok(p, r)
        &&& r.store == store_of(r.id)
        &&& stores.knows(r.store, r.container, r.id)
    } by {
        let j = choose|j: int| 0 <= j < replay_plan(p).len() && replay_plan(p)[j] == k[i];
        assert(route_ok(p, replay_plan(p)[j]));
    };
}

} // verus!
