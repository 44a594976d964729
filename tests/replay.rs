use std::collections::HashSet;

use fog_ipc::buffer::{
    take_buf, with_ipc_payload, PayloadBuffer, PAYLOAD_ACCESS_WATERMARK,
};
use fog_ipc::codec::{decode, encode};
use fog_ipc::metric_id::BaseMetricId;
use fog_ipc::payload::IPCPayload;
use fog_ipc::replay::{plan_replay, replay_from_buf, store_for, Container, MetricOp, MetricStores, Store};
use fog_ipc::role::{is_in_automation, need_ipc, test_set_need_ipc, IpcMode};

const DYN: u32 = 1 << 26;

#[derive(Default)]
struct Recorder {
    known: HashSet<(Store, Container, u32)>,
    lookups: Vec<(Store, u32)>,
    calls: Vec<(Store, u32, String)>,
}

impl Recorder {
    fn knows(mut self, store: Store, container: Container, id: u32) -> Self {
        self.known.insert((store, container, id));
        self
    }
}

fn describe(op: &MetricOp<'_>) -> String {
    match op {
        MetricOp::SetBool(b) => format!("set({})", b),
        MetricOp::AddToCounter(n) => format!("add({})", n),
        MetricOp::RecordEvent(t, extra) => format!("record({}, {})", t, extra.len()),
        MetricOp::AddToLabeledCounter(l, n) => format!("{}.add({})", l, n),
        MetricOp::AddString(x) => format!("add({})", x),
        MetricOp::AddToRate(n, d) => format!("rate({}, {})", n, d),
        _ => "other".to_string(),
    }
}

impl MetricStores for Recorder {
    fn contains(&self, store: Store, container: Container, id: BaseMetricId) -> bool {
        self.known.contains(&(store, container, id.0))
    }

    fn apply(&mut self, store: Store, id: BaseMetricId, op: MetricOp<'_>) {
        self.lookups.push((store, id.0));
        self.calls.push((store, id.0, describe(&op)));
    }
}

#[test]
fn counter_and_boolean_scenario() {
    let mut buffer = PayloadBuffer::new();
    with_ipc_payload(&mut buffer, |p: &mut IPCPayload| p.add_counter(BaseMetricId(42), 3));
    with_ipc_payload(&mut buffer, |p: &mut IPCPayload| p.add_counter(BaseMetricId(42), 3));
    with_ipc_payload(&mut buffer, |p: &mut IPCPayload| p.booleans.push((BaseMetricId(DYN | 7), true)));
    with_ipc_payload(&mut buffer, |p: &mut IPCPayload| p.counters.push((BaseMetricId(999), 1)));
    let bytes = take_buf(&mut buffer).0.unwrap();
    assert!(decode(&bytes).is_ok());
    let mut stores = Recorder::default()
        .knows(Store::Static, Container::Counters, 42)
        .knows(Store::Dynamic, Container::Booleans, DYN | 7);
    assert_eq!(replay_from_buf(&bytes, &mut stores), Ok(()));
    assert_eq!(
        stores.calls,
        vec![
            (Store::Dynamic, DYN | 7, "set(true)".to_string()),
            (Store::Static, 42, "add(6)".to_string()),
        ]
    );
}

#[test]
fn static_ids_never_reach_the_dynamic_store() {
    let mut p = IPCPayload::new();
    p.counters.push((BaseMetricId(5), 1));
    p.counters.push((BaseMetricId(DYN | 5), 2));
    let mut stores = Recorder::default()
        .knows(Store::Dynamic, Container::Counters, 5)
        .knows(Store::Static, Container::Counters, DYN | 5);
    assert_eq!(replay_from_buf(&encode(&p), &mut stores), Ok(()));
    assert!(stores.calls.is_empty());
    assert_eq!(store_for(BaseMetricId(5)), Store::Static);
    assert_eq!(store_for(BaseMetricId(DYN | 5)), Store::Dynamic);
}

#[test]
fn unknown_identifier_leaves_others_alone() {
    let mut p = IPCPayload::new();
    p.counters.push((BaseMetricId(999), 1));
    p.counters.push((BaseMetricId(1), 2));
    let mut stores = Recorder::default().knows(Store::Static, Container::Counters, 1);
    assert_eq!(replay_from_buf(&encode(&p), &mut stores), Ok(()));
    assert_eq!(stores.calls, vec![(Store::Static, 1, "add(2)".to_string())]);
}

#[test]
fn events_replay_in_recorded_order() {
    let mut p = IPCPayload::new();
    p.events.push((BaseMetricId(1), vec![(1, vec![]), (2, vec![(String::from("k"), String::from("v"))])]));
    p.events.push((BaseMetricId(2), vec![(3, vec![])]));
    let mut stores = Recorder::default()
        .knows(Store::Static, Container::Events, 1)
        .knows(Store::Static, Container::Events, 2);
    assert_eq!(replay_from_buf(&encode(&p), &mut stores), Ok(()));
    assert_eq!(
        stores.calls,
        vec![
            (Store::Static, 1, "record(1, 0)".to_string()),
            (Store::Static, 1, "record(2, 1)".to_string()),
            (Store::Static, 2, "record(3, 0)".to_string()),
        ]
    );
}

#[test]
fn labels_and_strings_each_get_a_call() {
    let mut p = IPCPayload::new();
    p.labeled_counters.push((BaseMetricId(DYN | 3), vec![(String::from("a"), 1), (String::from("b"), 2)]));
    p.string_lists.push((BaseMetricId(4), vec![String::from("x"), String::from("y")]));
    p.rates.push((BaseMetricId(5), (7, 8)));
    let plan = plan_replay(&p);
    assert_eq!(plan.len(), 5);
    let mut stores = Recorder::default()
        .knows(Store::Dynamic, Container::LabeledCounters, DYN | 3)
        .knows(Store::Static, Container::StringLists, 4)
        .knows(Store::Static, Container::Rates, 5);
    assert_eq!(replay_from_buf(&encode(&p), &mut stores), Ok(()));
    assert_eq!(
        stores.calls,
        vec![
            (Store::Dynamic, DYN | 3, "a.add(1)".to_string()),
            (Store::Dynamic, DYN | 3, "b.add(2)".to_string()),
            (Store::Static, 5, "rate(7, 8)".to_string()),
            (Store::Static, 4, "add(x)".to_string()),
            (Store::Static, 4, "add(y)".to_string()),
        ]
    );
}

#[test]
fn empty_harvest_replays_nothing() {
    let mut buffer = PayloadBuffer::new();
    let bytes = take_buf(&mut buffer).0.unwrap();
    assert_eq!(bytes, encode(&IPCPayload::new()));
    let mut stores = Recorder::default().knows(Store::Static, Container::Counters, 1);
    assert_eq!(replay_from_buf(&bytes, &mut stores), Ok(()));
    assert!(stores.calls.is_empty());
    assert!(stores.lookups.is_empty());
}

#[test]
fn garbage_is_an_error_and_applies_nothing() {
    let mut stores = Recorder::default().knows(Store::Static, Container::Counters, 1);
    assert_eq!(replay_from_buf(&[1, 2, 3], &mut stores), Err(()));
    assert!(stores.calls.is_empty());
}

#[test]
fn harvest_empties_the_buffer() {
    let mut buffer = PayloadBuffer::new();
    with_ipc_payload(&mut buffer, |p: &mut IPCPayload| p.counters.push((BaseMetricId(1), 1)));
    let first = take_buf(&mut buffer).0.unwrap();
    assert_eq!(decode(&first).unwrap().counters, vec![(BaseMetricId(1), 1)]);
    assert!(buffer.payload.counters.is_empty());
    let second = take_buf(&mut buffer).0.unwrap();
    assert_eq!(second, encode(&IPCPayload::new()));
}

#[test]
fn watermark_fires_once_per_period() {
    let mut buffer = PayloadBuffer::new();
    let period = PAYLOAD_ACCESS_WATERMARK + 2;
    let mut fired_at = Vec::new();
    for k in 1..=(3 * period) {
        let ((), fired) = with_ipc_payload(&mut buffer, |_p: &mut IPCPayload| ());
        if fired {
            fired_at.push(k);
            assert_eq!(buffer.access_count, 0);
        }
    }
    assert_eq!(fired_at, vec![period, 2 * period, 3 * period]);
    assert_eq!(period, 90001);
}

#[test]
fn with_ipc_payload_counts_and_returns() {
    let mut buffer = PayloadBuffer::new();
    let (n, fired) = with_ipc_payload(&mut buffer, |p: &mut IPCPayload| {
        p.booleans.push((BaseMetricId(1), true));
        p.booleans.len()
    });
    assert_eq!(n, 1);
    assert!(!fired);
    assert_eq!(buffer.access_count, 1);
    buffer.access_count = PAYLOAD_ACCESS_WATERMARK + 1;
    let ((), fired) = with_ipc_payload(&mut buffer, |_p: &mut IPCPayload| ());
    assert!(fired);
    assert_eq!(buffer.access_count, 0);
    buffer.access_count = PAYLOAD_ACCESS_WATERMARK + 1;
    let (bytes, fired) = take_buf(&mut buffer);
    assert!(fired);
    assert_eq!(decode(&bytes.unwrap()).unwrap().booleans, vec![(BaseMetricId(1), true)]);
    assert_eq!(buffer.access_count, 0);
}

#[test]
fn need_ipc_override_is_restored() {
    let mut mode = IpcMode { need_ipc: false };
    assert!(!need_ipc(&mode));
    let guard = test_set_need_ipc(&mut mode, true);
    assert!(need_ipc(&mode));
    guard.restore(&mut mode);
    assert!(!need_ipc(&mode));
    assert!(!is_in_automation());
}
