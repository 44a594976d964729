use vstd::prelude::*;

verus! {

/// The bit of a metric identifier that marks it as registered at runtime.
pub const DYNAMIC_METRIC_BIT: u32 = 26;

/// Names a metric instance. Identifiers with the dynamic bit set belong to
/// the runtime-registered store; all others to the compiled-in store.
#[derive(Clone, Copy, Debug, PartialEq, Eq, Structural, Hash, PartialOrd, Ord)]
pub struct BaseMetricId(pub u32);

/// Whether `raw` carries the dynamic tag.
pub open spec fn is_dynamic_raw(raw: u32) -> bool {
    raw & (1u32 << DYNAMIC_METRIC_BIT) != 0
}

impl BaseMetricId {
    pub open spec fn spec_is_dynamic(self) -> bool {
        is_dynamic_raw(self.0)
    }

    pub fn is_dynamic(self) -> (r: bool)
        ensures
            r == self.spec_is_dynamic(),
    {
        self.0 & (1u32 << DYNAMIC_METRIC_BIT) != 0
    }
}

} // verus!
