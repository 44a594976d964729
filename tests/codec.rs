use fog_ipc::codec::{decode, encode, DecodeError};
use fog_ipc::metric_id::BaseMetricId;
use fog_ipc::payload::IPCPayload;

const DYN: u32 = 1 << 26;

fn s(x: &str) -> String {
    x.to_string()
}

fn full_payload() -> IPCPayload {
    let mut p = IPCPayload::new();
    p.booleans.push((BaseMetricId(1), true));
    p.booleans.push((BaseMetricId(DYN | 2), false));
    p.labeled_booleans.push((BaseMetricId(3), vec![(s("a"), true), (s("b"), false)]));
    p.counters.push((BaseMetricId(4), -7));
    p.custom_samples.push((BaseMetricId(5), vec![i64::MIN, -1, 0, i64::MAX]));
    p.labeled_custom_samples.push((BaseMetricId(6), vec![(s("x"), vec![1, 2])]));
    p.denominators.push((BaseMetricId(7), 9));
    let extras: Vec<(String, String)> =
        (0..10).map(|i| (format!("key{}", i), "v".repeat(100))).collect();
    p.events.push((BaseMetricId(8), vec![(10, vec![]), (20, extras)]));
    p.labeled_counters.push((BaseMetricId(9), vec![(s("l"), 3)]));
    p.dual_labeled_counters.push((BaseMetricId(10), vec![((s("k"), s("c")), 4)]));
    p.memory_samples.push((BaseMetricId(11), vec![u64::MAX, 0]));
    p.labeled_memory_samples.push((BaseMetricId(12), vec![(s("m"), vec![5])]));
    p.numerators.push((BaseMetricId(13), i32::MIN));
    p.rates.push((BaseMetricId(DYN | 14), (1, 2)));
    p.string_lists.push((BaseMetricId(15), vec![s("héllo"), s("")]));
    p.timing_samples.push((BaseMetricId(16), vec![1_000_000]));
    p.labeled_timing_samples.push((BaseMetricId(17), vec![(s("t"), vec![])]));
    p
}

#[test]
fn empty_batch_encodes_as_sixteen_zero_counts() {
    let bytes = encode(&IPCPayload::new());
    assert_eq!(bytes, vec![0u8; 16 * 8]);
    let back = decode(&bytes).unwrap();
    assert!(back.booleans.is_empty());
    assert!(back.labeled_timing_samples.is_empty());
    assert_eq!(encode(&back), bytes);
}

#[test]
fn full_batch_round_trips() {
    let p = full_payload();
    let bytes = encode(&p);
    let back = decode(&bytes).unwrap();
    assert_eq!(back.booleans, p.booleans);
    assert_eq!(back.labeled_booleans, p.labeled_booleans);
    assert_eq!(back.counters, p.counters);
    assert_eq!(back.custom_samples, p.custom_samples);
    assert_eq!(back.labeled_custom_samples, p.labeled_custom_samples);
    assert_eq!(back.denominators, p.denominators);
    assert_eq!(back.events, p.events);
    assert_eq!(back.labeled_counters, p.labeled_counters);
    assert_eq!(back.dual_labeled_counters, p.dual_labeled_counters);
    assert_eq!(back.memory_samples, p.memory_samples);
    assert_eq!(back.labeled_memory_samples, p.labeled_memory_samples);
    assert_eq!(back.numerators, p.numerators);
    assert_eq!(back.rates, p.rates);
    assert_eq!(back.string_lists, p.string_lists);
    assert_eq!(back.timing_samples, p.timing_samples);
    assert_eq!(back.labeled_timing_samples, p.labeled_timing_samples);
    assert_eq!(encode(&back), bytes);
}

#[test]
fn only_dynamic_identifiers_round_trip() {
    let mut p = IPCPayload::new();
    p.counters.push((BaseMetricId(DYN | 1), 1));
    p.counters.push((BaseMetricId(DYN | 2), 2));
    let back = decode(&encode(&p)).unwrap();
    assert_eq!(back.counters, p.counters);
}

#[test]
fn encoding_is_that_of_bincode() {
    let p = full_payload();
    let ids = |m: &Vec<(BaseMetricId, bool)>| m.iter().map(|(k, v)| (k.0, *v)).collect::<Vec<_>>();
    let mut q = IPCPayload::new();
    q.booleans = p.booleans.clone();
    q.counters.push((BaseMetricId(4), -7));
    q.string_lists.push((BaseMetricId(15), vec![s("héllo")]));
    q.rates.push((BaseMetricId(3), (1, -2)));
    let e: Vec<(u32, i32)> = vec![];
    let tuple = (
        ids(&q.booleans),
        Vec::<(u32, Vec<(String, bool)>)>::new(),
        vec![(4u32, -7i32)],
        Vec::<(u32, Vec<i64>)>::new(),
        Vec::<(u32, Vec<(String, Vec<i64>)>)>::new(),
        e.clone(),
        Vec::<(u32, Vec<(u64, Vec<(String, String)>)>)>::new(),
        Vec::<(u32, Vec<(String, i32)>)>::new(),
        Vec::<(u32, Vec<((String, String), i32)>)>::new(),
        Vec::<(u32, Vec<u64>)>::new(),
        Vec::<(u32, Vec<(String, Vec<u64>)>)>::new(),
        e,
        vec![(3u32, (1i32, -2i32))],
        vec![(15u32, vec![s("héllo")])],
        Vec::<(u32, Vec<u64>)>::new(),
        Vec::<(u32, Vec<(String, Vec<u64>)>)>::new(),
    );
    assert_eq!(encode(&q), bincode::serialize(&tuple).unwrap());
}

#[test]
fn truncated_bytes_are_rejected() {
    let bytes = encode(&full_payload());
    for cut in [0, 1, 8, bytes.len() / 2, bytes.len() - 1] {
        assert_eq!(decode(&bytes[..cut]).err(), Some(DecodeError));
    }
}

#[test]
fn trailing_bytes_are_rejected() {
    let mut bytes = encode(&IPCPayload::new());
    bytes.push(0);
    assert_eq!(decode(&bytes).err(), Some(DecodeError));
}

#[test]
fn bad_bool_byte_is_rejected() {
    let mut p = IPCPayload::new();
    p.booleans.push((BaseMetricId(1), true));
    let mut bytes = encode(&p);
    // count (8) + id (4), then the boolean
    assert_eq!(bytes[12], 1);
    bytes[12] = 2;
    assert_eq!(decode(&bytes).err(), Some(DecodeError));
}

#[test]
fn invalid_utf8_is_rejected() {
    let mut p = IPCPayload::new();
    p.string_lists.push((BaseMetricId(1), vec![s("ab")]));
    let mut bytes = encode(&p);
    let at = bytes.iter().position(|b| *b == b'a').unwrap();
    bytes[at] = 0xff;
    assert_eq!(decode(&bytes).err(), Some(DecodeError));
}

#[test]
fn add_counter_merges_deltas() {
    let mut p = IPCPayload::new();
    p.add_counter(BaseMetricId(42), 3);
    p.add_counter(BaseMetricId(42), 3);
    p.add_counter(BaseMetricId(1), i32::MAX);
    p.add_counter(BaseMetricId(1), 1);
    assert_eq!(p.counters, vec![(BaseMetricId(42), 6), (BaseMetricId(1), i32::MAX)]);
}

#[test]
fn dynamic_tag_is_bit_twenty_six() {
    assert!(BaseMetricId(DYN).is_dynamic());
    assert!(BaseMetricId(DYN | 7).is_dynamic());
    assert!(!BaseMetricId(42).is_dynamic());
    assert!(!BaseMetricId(DYN - 1).is_dynamic());
}
