use vstd::prelude::*;
use vstd::seq_lib::lemma_concat_associative;

use crate::metric_id::BaseMetricId;
use crate::wire::{at, Wire};

verus! {

/// Values kept per metric, in the order in which their identifiers first came.
pub type IdMap<V> = Vec<(BaseMetricId, V)>;

/// Values kept per label, in the order in which their labels first came.
pub type LabelMap<V> = Vec<(String, V)>;

/// Values kept per pair of labels.
pub type DualLabelMap<V> = Vec<((String, String), V)>;

/// One recorded event: its timestamp and its extra keys and values.
pub type EventRecord = (u64, Vec<(String, String)>);

/// All containers of a batch, in the order of their binary form.
pub type PayloadParts = (IdMap<bool>, (IdMap<LabelMap<bool>>, (IdMap<i32>, (IdMap<Vec<i64>>, (IdMap<LabelMap<Vec<i64>>>, (IdMap<i32>, (IdMap<Vec<EventRecord>>, (IdMap<LabelMap<i32>>, (IdMap<DualLabelMap<i32>>, (IdMap<Vec<u64>>, (IdMap<LabelMap<Vec<u64>>>, (IdMap<i32>, (IdMap<(i32, i32)>, (IdMap<Vec<String>>, (IdMap<Vec<u64>>, IdMap<LabelMap<Vec<u64>>>)))))))))))))));

/// What a batch stands for.
pub type PayloadModel = <PayloadParts as Wire>::Model;

/// Contains all the information necessary to update the metrics on the main
/// process.
pub struct IPCPayload {
    pub booleans: IdMap<bool>,
    pub labeled_booleans: IdMap<LabelMap<bool>>,
    pub counters: IdMap<i32>,
    pub custom_samples: IdMap<Vec<i64>>,
    pub labeled_custom_samples: IdMap<LabelMap<Vec<i64>>>,
    pub denominators: IdMap<i32>,
    pub events: IdMap<Vec<EventRecord>>,
    pub labeled_counters: IdMap<LabelMap<i32>>,
    pub dual_labeled_counters: IdMap<DualLabelMap<i32>>,
    pub memory_samples: IdMap<Vec<u64>>,
    pub labeled_memory_samples: IdMap<LabelMap<Vec<u64>>>,
    pub numerators: IdMap<i32>,
    pub rates: IdMap<(i32, i32)>,
    pub string_lists: IdMap<Vec<String>>,
    pub timing_samples: IdMap<Vec<u64>>,
    pub labeled_timing_samples: IdMap<LabelMap<Vec<u64>>>,
}

/// No identifier has two entries in `m`.
pub open spec fn ids_unique<V>(m: Seq<(BaseMetricId, V)>) -> bool {
    forall|i: int, j: int| 0 <= i < j < m.len() ==> (#[trigger] m[i]).0 != (#[trigger] m[j]).0
}

impl IPCPayload {
    /// Each container has at most one entry per identifier.
    pub open spec fn wf(&self) -> bool {
        &&& ids_unique(self.booleans@)
        &&& ids_unique(self.labeled_booleans@)
        &&& ids_unique(self.counters@)
        &&& ids_unique(self.custom_samples@)
        &&& ids_unique(self.labeled_custom_samples@)
        &&& ids_unique(self.denominators@)
        &&& ids_unique(self.events@)
        &&& ids_unique(self.labeled_counters@)
        &&& ids_unique(self.dual_labeled_counters@)
        &&& ids_unique(self.memory_samples@)
        &&& ids_unique(self.labeled_memory_samples@)
        &&& ids_unique(self.numerators@)
        &&& ids_unique(self.rates@)
        &&& ids_unique(self.string_lists@)
        &&& ids_unique(self.timing_samples@)
        &&& ids_unique(self.labeled_timing_samples@)
    }

    /// The batch with every container empty.
    pub open spec fn empty_model() -> PayloadModel {
        (Seq::empty(), (Seq::empty(), (Seq::empty(), (Seq::empty(), (Seq::empty(), (Seq::empty(), (Seq::empty(), (Seq::empty(), (Seq::empty(), (Seq::empty(), (Seq::empty(), (Seq::empty(), (Seq::empty(), (Seq::empty(), (Seq::empty(), Seq::empty())))))))))))))))
    }

    /// A batch with every container empty.
    pub fn new() -> (r: IPCPayload)
        ensures
            r.model() == Self::empty_model(),
            r.wf(),
    {
        let r = IPCPayload {
            booleans: Vec::new(),
            labeled_booleans: Vec::new(),
            counters: Vec::new(),
            custom_samples: Vec::new(),
            labeled_custom_samples: Vec::new(),
            denominators: Vec::new(),
            events: Vec::new(),
            labeled_counters: Vec::new(),
            dual_labeled_counters: Vec::new(),
            memory_samples: Vec::new(),
            labeled_memory_samples: Vec::new(),
            numerators: Vec::new(),
            rates: Vec::new(),
            string_lists: Vec::new(),
            timing_samples: Vec::new(),
            labeled_timing_samples: Vec::new(),
        };
        assert(r.model() =~~= Self::empty_model());
        r
    }
}

impl Wire for IPCPayload {
    type Model = PayloadModel;

    open spec fn model(&self) -> PayloadModel {
        (self.booleans.model(), (self.labeled_booleans.model(), (self.counters.model(), (self.custom_samples.model(), (self.labeled_custom_samples.model(), (self.denominators.model(), (self.events.model(), (self.labeled_counters.model(), (self.dual_labeled_counters.model(), (self.memory_samples.model(), (self.labeled_memory_samples.model(), (self.numerators.model(), (self.rates.model(), (self.string_lists.model(), (self.timing_samples.model(), self.labeled_timing_samples.model())))))))))))))))
    }

    closed spec fn wire(m: PayloadModel) -> Seq<u8> {
        <PayloadParts as Wire>::wire(m)
    }

    proof fn lemma_wire_nonempty(m: PayloadModel) {
        <PayloadParts as Wire>::lemma_wire_nonempty(m);
    }

    proof fn lemma_wire_unique(s: Seq<u8>, pos: int, m1: PayloadModel, m2: PayloadModel) {
        <PayloadParts as Wire>::lemma_wire_unique(s, pos, m1, m2);
    }

    fn encode_into(&self, out: &mut Vec<u8>) {
        let ghost m = self.model();
        let ghost start = out@;
        let ghost before = out@;
        self.booleans.encode_into(out);
        proof {
            lemma_concat_associative(before, <IdMap<bool> as Wire>::wire(self.booleans.model()), <(IdMap<LabelMap<bool>>, (IdMap<i32>, (IdMap<Vec<i64>>, (IdMap<LabelMap<Vec<i64>>>, (IdMap<i32>, (IdMap<Vec<EventRecord>>, (IdMap<LabelMap<i32>>, (IdMap<DualLabelMap<i32>>, (IdMap<Vec<u64>>, (IdMap<LabelMap<Vec<u64>>>, (IdMap<i32>, (IdMap<(i32, i32)>, (IdMap<Vec<String>>, (IdMap<Vec<u64>>, IdMap<LabelMap<Vec<u64>>>)))))))))))))) as Wire>::wire(m.1));
        }
        assert(out@ + <(IdMap<LabelMap<bool>>, (IdMap<i32>, (IdMap<Vec<i64>>, (IdMap<LabelMap<Vec<i64>>>, (IdMap<i32>, (IdMap<Vec<EventRecord>>, (IdMap<LabelMap<i32>>, (IdMap<DualLabelMap<i32>>, (IdMap<Vec<u64>>, (IdMap<LabelMap<Vec<u64>>>, (IdMap<i32>, (IdMap<(i32, i32)>, (IdMap<Vec<String>>, (IdMap<Vec<u64>>, IdMap<LabelMap<Vec<u64>>>)))))))))))))) as Wire>::wire(m.1) == start + Self::wire(m));
        let ghost before = out@;
        self.labeled_booleans.encode_into(out);
        proof {
            lemma_concat_associative(before, <IdMap<LabelMap<bool>> as Wire>::wire(self.labeled_booleans.model()), <(IdMap<i32>, (IdMap<Vec<i64>>, (IdMap<LabelMap<Vec<i64>>>, (IdMap<i32>, (IdMap<Vec<EventRecord>>, (IdMap<LabelMap<i32>>, (IdMap<DualLabelMap<i32>>, (IdMap<Vec<u64>>, (IdMap<LabelMap<Vec<u64>>>, (IdMap<i32>, (IdMap<(i32, i32)>, (IdMap<Vec<String>>, (IdMap<Vec<u64>>, IdMap<LabelMap<Vec<u64>>>))))))))))))) as Wire>::wire(m.1.1));
        }
        assert(out@ + <(IdMap<i32>, (IdMap<Vec<i64>>, (IdMap<LabelMap<Vec<i64>>>, (IdMap<i32>, (IdMap<Vec<EventRecord>>, (IdMap<LabelMap<i32>>, (IdMap<DualLabelMap<i32>>, (IdMap<Vec<u64>>, (IdMap<LabelMap<Vec<u64>>>, (IdMap<i32>, (IdMap<(i32, i32)>, (IdMap<Vec<String>>, (IdMap<Vec<u64>>, IdMap<LabelMap<Vec<u64>>>))))))))))))) as Wire>::wire(m.1.1) == start + Self::wire(m));
        let ghost before = out@;
        self.counters.encode_into(out);
        proof {
            lemma_concat_associative(before, <IdMap<i32> as Wire>::wire(self.counters.model()), <(IdMap<Vec<i64>>, (IdMap<LabelMap<Vec<i64>>>, (IdMap<i32>, (IdMap<Vec<EventRecord>>, (IdMap<LabelMap<i32>>, (IdMap<DualLabelMap<i32>>, (IdMap<Vec<u64>>, (IdMap<LabelMap<Vec<u64>>>, (IdMap<i32>, (IdMap<(i32, i32)>, (IdMap<Vec<String>>, (IdMap<Vec<u64>>, IdMap<LabelMap<Vec<u64>>>)))))))))))) as Wire>::wire(m.1.1.1));
        }
        assert(out@ + <(IdMap<Vec<i64>>, (IdMap<LabelMap<Vec<i64>>>, (IdMap<i32>, (IdMap<Vec<EventRecord>>, (IdMap<LabelMap<i32>>, (IdMap<DualLabelMap<i32>>, (IdMap<Vec<u64>>, (IdMap<LabelMap<Vec<u64>>>, (IdMap<i32>, (IdMap<(i32, i32)>, (IdMap<Vec<String>>, (IdMap<Vec<u64>>, IdMap<LabelMap<Vec<u64>>>)))))))))))) as Wire>::wire(m.1.1.1) == start + Self::wire(m));
        let ghost before = out@;
        self.custom_samples.encode_into(out);
        proof {
            lemma_concat_associative(before, <IdMap<Vec<i64>> as Wire>::wire(self.custom_samples.model()), <(IdMap<LabelMap<Vec<i64>>>, (IdMap<i32>, (IdMap<Vec<EventRecord>>, (IdMap<LabelMap<i32>>, (IdMap<DualLabelMap<i32>>, (IdMap<Vec<u64>>, (IdMap<LabelMap<Vec<u64>>>, (IdMap<i32>, (IdMap<(i32, i32)>, (IdMap<Vec<String>>, (IdMap<Vec<u64>>, IdMap<LabelMap<Vec<u64>>>))))))))))) as Wire>::wire(m.1.1.1.1));
        }
        assert(out@ + <(IdMap<LabelMap<Vec<i64>>>, (IdMap<i32>, (IdMap<Vec<EventRecord>>, (IdMap<LabelMap<i32>>, (IdMap<DualLabelMap<i32>>, (IdMap<Vec<u64>>, (IdMap<LabelMap<Vec<u64>>>, (IdMap<i32>, (IdMap<(i32, i32)>, (IdMap<Vec<String>>, (IdMap<Vec<u64>>, IdMap<LabelMap<Vec<u64>>>))))))))))) as Wire>::wire(m.1.1.1.1) == start + Self::wire(m));
        let ghost before = out@;
        self.labeled_custom_samples.encode_into(out);
        proof {
            lemma_concat_associative(before, <IdMap<LabelMap<Vec<i64>>> as Wire>::wire(self.labeled_custom_samples.model()), <(IdMap<i32>, (IdMap<Vec<EventRecord>>, (IdMap<LabelMap<i32>>, (IdMap<DualLabelMap<i32>>, (IdMap<Vec<u64>>, (IdMap<LabelMap<Vec<u64>>>, (IdMap<i32>, (IdMap<(i32, i32)>, (IdMap<Vec<String>>, (IdMap<Vec<u64>>, IdMap<LabelMap<Vec<u64>>>)))))))))) as Wire>::wire(m.1.1.1.1.1));
        }
        assert(out@ + <(IdMap<i32>, (IdMap<Vec<EventRecord>>, (IdMap<LabelMap<i32>>, (IdMap<DualLabelMap<i32>>, (IdMap<Vec<u64>>, (IdMap<LabelMap<Vec<u64>>>, (IdMap<i32>, (IdMap<(i32, i32)>, (IdMap<Vec<String>>, (IdMap<Vec<u64>>, IdMap<LabelMap<Vec<u64>>>)))))))))) as Wire>::wire(m.1.1.1.1.1) == start + Self::wire(m));
        let ghost before = out@;
        self.denominators.encode_into(out);
        proof {
            lemma_concat_associative(before, <IdMap<i32> as Wire>::wire(self.denominators.model()), <(IdMap<Vec<EventRecord>>, (IdMap<LabelMap<i32>>, (IdMap<DualLabelMap<i32>>, (IdMap<Vec<u64>>, (IdMap<LabelMap<Vec<u64>>>, (IdMap<i32>, (IdMap<(i32, i32)>, (IdMap<Vec<String>>, (IdMap<Vec<u64>>, IdMap<LabelMap<Vec<u64>>>))))))))) as Wire>::wire(m.1.1.1.1.1.1));
        }
        assert(out@ + <(IdMap<Vec<EventRecord>>, (IdMap<LabelMap<i32>>, (IdMap<DualLabelMap<i32>>, (IdMap<Vec<u64>>, (IdMap<LabelMap<Vec<u64>>>, (IdMap<i32>, (IdMap<(i32, i32)>, (IdMap<Vec<String>>, (IdMap<Vec<u64>>, IdMap<LabelMap<Vec<u64>>>))))))))) as Wire>::wire(m.1.1.1.1.1.1) == start + Self::wire(m));
        let ghost before = out@;
        self.events.encode_into(out);
        proof {
            lemma_concat_associative(before, <IdMap<Vec<EventRecord>> as Wire>::wire(self.events.model()), <(IdMap<LabelMap<i32>>, (IdMap<DualLabelMap<i32>>, (IdMap<Vec<u64>>, (IdMap<LabelMap<Vec<u64>>>, (IdMap<i32>, (IdMap<(i32, i32)>, (IdMap<Vec<String>>, (IdMap<Vec<u64>>, IdMap<LabelMap<Vec<u64>>>)))))))) as Wire>::wire(m.1.1.1.1.1.1.1));
        }
        assert(out@ + <(IdMap<LabelMap<i32>>, (IdMap<DualLabelMap<i32>>, (IdMap<Vec<u64>>, (IdMap<LabelMap<Vec<u64>>>, (IdMap<i32>, (IdMap<(i32, i32)>, (IdMap<Vec<String>>, (IdMap<Vec<u64>>, IdMap<LabelMap<Vec<u64>>>)))))))) as Wire>::wire(m.1.1.1.1.1.1.1) == start + Self::wire(m));
        let ghost before = out@;
        self.labeled_counters.encode_into(out);
        proof {
            lemma_concat_associative(before, <IdMap<LabelMap<i32>> as Wire>::wire(self.labeled_counters.model()), <(IdMap<DualLabelMap<i32>>, (IdMap<Vec<u64>>, (IdMap<LabelMap<Vec<u64>>>, (IdMap<i32>, (IdMap<(i32, i32)>, (IdMap<Vec<String>>, (IdMap<Vec<u64>>, IdMap<LabelMap<Vec<u64>>>))))))) as Wire>::wire(m.1.1.1.1.1.1.1.1));
        }
        assert(out@ + <(IdMap<DualLabelMap<i32>>, (IdMap<Vec<u64>>, (IdMap<LabelMap<Vec<u64>>>, (IdMap<i32>, (IdMap<(i32, i32)>, (IdMap<Vec<String>>, (IdMap<Vec<u64>>, IdMap<LabelMap<Vec<u64>>>))))))) as Wire>::wire(m.1.1.1.1.1.1.1.1) == start + Self::wire(m));
        let ghost before = out@;
        self.dual_labeled_counters.encode_into(out);
        proof {
            lemma_concat_associative(before, <IdMap<DualLabelMap<i32>> as Wire>::wire(self.dual_labeled_counters.model()), <(IdMap<Vec<u64>>, (IdMap<LabelMap<Vec<u64>>>, (IdMap<i32>, (IdMap<(i32, i32)>, (IdMap<Vec<String>>, (IdMap<Vec<u64>>, IdMap<LabelMap<Vec<u64>>>)))))) as Wire>::wire(m.1.1.1.1.1.1.1.1.1));
        }
        assert(out@ + <(IdMap<Vec<u64>>, (IdMap<LabelMap<Vec<u64>>>, (IdMap<i32>, (IdMap<(i32, i32)>, (IdMap<Vec<String>>, (IdMap<Vec<u64>>, IdMap<LabelMap<Vec<u64>>>)))))) as Wire>::wire(m.1.1.1.1.1.1.1.1.1) == start + Self::wire(m));
        let ghost before = out@;
        self.memory_samples.encode_into(out);
        proof {
            lemma_concat_associative(before, <IdMap<Vec<u64>> as Wire>::wire(self.memory_samples.model()), <(IdMap<LabelMap<Vec<u64>>>, (IdMap<i32>, (IdMap<(i32, i32)>, (IdMap<Vec<String>>, (IdMap<Vec<u64>>, IdMap<LabelMap<Vec<u64>>>))))) as Wire>::wire(m.1.1.1.1.1.1.1.1.1.1));
        }
        assert(out@ + <(IdMap<LabelMap<Vec<u64>>>, (IdMap<i32>, (IdMap<(i32, i32)>, (IdMap<Vec<String>>, (IdMap<Vec<u64>>, IdMap<LabelMap<Vec<u64>>>))))) as Wire>::wire(m.1.1.1.1.1.1.1.1.1.1) == start + Self::wire(m));
        let ghost before = out@;
        self.labeled_memory_samples.encode_into(out);
        proof {
            lemma_concat_associative(before, <IdMap<LabelMap<Vec<u64>>> as Wire>::wire(self.labeled_memory_samples.model()), <(IdMap<i32>, (IdMap<(i32, i32)>, (IdMap<Vec<String>>, (IdMap<Vec<u64>>, IdMap<LabelMap<Vec<u64>>>)))) as Wire>::wire(m.1.1.1.1.1.1.1.1.1.1.1));
        }
        assert(out@ + <(IdMap<i32>, (IdMap<(i32, i32)>, (IdMap<Vec<String>>, (IdMap<Vec<u64>>, IdMap<LabelMap<Vec<u64>>>)))) as Wire>::wire(m.1.1.1.1.1.1.1.1.1.1.1) == start + Self::wire(m));
        let ghost before = out@;
        self.numerators.encode_into(out);
        proof {
            lemma_concat_associative(before, <IdMap<i32> as Wire>::wire(self.numerators.model()), <(IdMap<(i32, i32)>, (IdMap<Vec<String>>, (IdMap<Vec<u64>>, IdMap<LabelMap<Vec<u64>>>))) as Wire>::wire(m.1.1.1.1.1.1.1.1.1.1.1.1));
        }
        assert(out@ + <(IdMap<(i32, i32)>, (IdMap<Vec<String>>, (IdMap<Vec<u64>>, IdMap<LabelMap<Vec<u64>>>))) as Wire>::wire(m.1.1.1.1.1.1.1.1.1.1.1.1) == start + Self::wire(m));
        let ghost before = out@;
        self.rates.encode_into(out);
        proof {
            lemma_concat_associative(before, <IdMap<(i32, i32)> as Wire>::wire(self.rates.model()), <(IdMap<Vec<String>>, (IdMap<Vec<u64>>, IdMap<LabelMap<Vec<u64>>>)) as Wire>::wire(m.1.1.1.1.1.1.1.1.1.1.1.1.1));
        }
        assert(out@ + <(IdMap<Vec<String>>, (IdMap<Vec<u64>>, IdMap<LabelMap<Vec<u64>>>)) as Wire>::wire(m.1.1.1.1.1.1.1.1.1.1.1.1.1) == start + Self::wire(m));
        let ghost before = out@;
        self.string_lists.encode_into(out);
        proof {
            lemma_concat_associative(before, <IdMap<Vec<String>> as Wire>::wire(self.string_lists.model()), <(IdMap<Vec<u64>>, IdMap<LabelMap<Vec<u64>>>) as Wire>::wire(m.1.1.1.1.1.1.1.1.1.1.1.1.1.1));
        }
        assert(out@ + <(IdMap<Vec<u64>>, IdMap<LabelMap<Vec<u64>>>) as Wire>::wire(m.1.1.1.1.1.1.1.1.1.1.1.1.1.1) == start + Self::wire(m));
        let ghost before = out@;
        self.timing_samples.encode_into(out);
        proof {
            lemma_concat_associative(before, <IdMap<Vec<u64>> as Wire>::wire(self.timing_samples.model()), <IdMap<LabelMap<Vec<u64>>> as Wire>::wire(m.1.1.1.1.1.1.1.1.1.1.1.1.1.1.1));
        }
        assert(out@ + <IdMap<LabelMap<Vec<u64>>> as Wire>::wire(m.1.1.1.1.1.1.1.1.1.1.1.1.1.1.1) == start + Self::wire(m));
        self.labeled_timing_samples.encode_into(out);
    }

    fn decode_at(buf: &[u8], pos: usize) -> (r: Option<(IPCPayload, usize)>) {
        let r = <PayloadParts as Wire>::decode_at(buf, pos);
        assert forall|m: PayloadModel| #[trigger]
            at(buf@, pos as int, Self::wire(m)) implies at(buf@, pos as int, <PayloadParts as Wire>::wire(m)) by {};
        match r {
            Some((parts, end)) => {
                let (booleans, (labeled_booleans, (counters, (custom_samples, (labeled_custom_samples, (denominators, (events, (labeled_counters, (dual_labeled_counters, (memory_samples, (labeled_memory_samples, (numerators, (rates, (string_lists, (timing_samples, labeled_timing_samples))))))))))))))) = parts;
                Some((IPCPayload {
            booleans,
            labeled_booleans,
            counters,
            custom_samples,
            labeled_custom_samples,
            denominators,
            events,
            labeled_counters,
            dual_labeled_counters,
            memory_samples,
            labeled_memory_samples,
            numerators,
            rates,
            string_lists,
            timing_samples,
            labeled_timing_samples,
                }, end))
            },
            None => None,
        }
    }
}

/// `a + b`, held to the range of `i32`.
pub open spec fn saturating_sum(a: i32, b: i32) -> i32 {
    if a + b > i32::MAX {
        i32::MAX
    } else if a + b < i32::MIN {
        i32::MIN
    } else {
        (a + b) as i32
    }
}

/// `i` is the first entry of `m` for `id`.
pub open spec fn first_entry<V>(m: Seq<(BaseMetricId, V)>, id: BaseMetricId, i: int) -> bool {
    0 <= i < m.len() && m[i].0 == id && forall|j: int| 0 <= j < i ==> (#[trigger] m[j]).0 != id
}

impl IPCPayload {
    /// Adds `delta` to the pending change of counter `id`, so that each
    /// counter has one entry.
    pub fn add_counter(&mut self, id: BaseMetricId, delta: i32)
        requires
            old(self).wf(),
        ensures
            final(self).wf(),
            forall|i: int|
                first_entry(old(self).counters@, id, i) ==> final(self).counters@ == old(
                    self,
                ).counters@.update(i, (id, saturating_sum(old(self).counters@[i].1, delta))),
            (forall|i: int| 0 <= i < old(self).counters@.len() ==> (#[trigger] old(self).counters@[i]).0 != id)
                ==> final(self).counters@ == old(self).counters@.push((id, delta)),
            *final(self) == (IPCPayload { counters: final(self).counters, ..*old(self) }),
    {
        let mut i: usize = 0;
        while i < self.counters.len()
            invariant
                i <= self.counters@.len(),
                *self == *old(self),
                old(self).wf(),
                forall|j: int| 0 <= j < i ==> (#[trigger] self.counters@[j]).0 != id,
            decreases self.counters@.len() - i,
        {
            if self.counters[i].0 == id {
                let cur = self.counters[i].1;
                let sum = cur as i64 + delta as i64;
                let v: i32 = if sum > i32::MAX as i64 {
                    i32::MAX
                } else if sum < i32::MIN as i64 {
                    i32::MIN
                } else {
                    sum as i32
                };
                self.counters.set(i, (id, v));
                assert forall|a: int, b: int| 0 <= a < b < self.counters@.len() implies (
                #[trigger] self.counters@[a]).0 != (#[trigger] self.counters@[b]).0 by {
                    assert(old(self).counters@[a].0 != old(self).counters@[b].0);
                };
                assert(first_entry(old(self).counters@, id, i as int));
                assert forall|k: int| first_entry(old(self).counters@, id, k) implies k == i by {
                    if k < i {
                    } else if k > i {
                        assert(old(self).counters@[i as int].0 == id);
                    }
                };
                return;
            }
            i += 1;
        }
        self.counters.push((id, delta));
        assert forall|a: int, b: int| 0 <= a < b < self.counters@.len() implies (
        #[trigger] self.counters@[a]).0 != (#[trigger] self.counters@[b]).0 by {
            if b < old(self).counters@.len() {
                assert(old(self).counters@[a].0 != old(self).counters@[b].0);
            } else {
                assert(old(self).counters@[a].0 != id);
            }
        };
    }
}

} // verus!
