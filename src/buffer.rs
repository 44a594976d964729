use vstd::arithmetic::div_mod::lemma_fundamental_div_mod_converse;
use vstd::prelude::*;

use crate::codec::{encode, payload_bytes};
use crate::payload::IPCPayload;
use crate::wire::Wire;

verus! {

/// Accesses to the batch that may pass before a flush is asked for.
///
/// An event can cost about a kilobyte in binary form, and a message between
/// processes holds at most 256 MB, so this stays well below that ceiling and
/// leaves time for the flush to run. The comparison is made against the count
/// as it stood before the access, hence the one subtracted.
pub const PAYLOAD_ACCESS_WATERMARK: usize = 90000 - 1;

/// The number of accesses from one flush request to the next.
pub open spec fn flush_period() -> int {
    PAYLOAD_ACCESS_WATERMARK + 2
}

/// The pending batch of a process and the number of times it was accessed
/// since the last flush request.
pub struct PayloadBuffer {
    pub payload: IPCPayload,
    pub access_count: usize,
}

/// The access count after one more access, and whether that access asks
/// for a flush.
pub open spec fn next_access(count: usize) -> (usize, bool) {
    if count > PAYLOAD_ACCESS_WATERMARK {
        (0, true)
    } else {
        ((count + 1) as usize, false)
    }
}

/// The access count and the number of flush requests after `n` accesses to
/// a fresh buffer.
pub open spec fn run_accesses(n: nat) -> (usize, nat)
    decreases n,
{
    if n == 0 {
        (0, 0)
    } else {
        let (c, f) = run_accesses((n - 1) as nat);
        let (c2, fired) = next_access(c);
        (c2, if fired { f + 1 } else { f })
    }
}

/// Starting from a fresh buffer, every `flush_period()`-th access asks for a
/// flush and no other does: after `n` accesses, `n / flush_period()`
/// requests have been made, and the count stands at the rest.
pub proof fn lemma_watermark(n: nat)
    ensures
        run_accesses(n).0 as int == (n as int) % flush_period(),
        run_accesses(n).1 as int == (n as int) / flush_period(),
    decreases n,
{
    let p = flush_period();
    if n == 0 {
        lemma_fundamental_div_mod_converse(0, p, 0, 0);
    } else {
        lemma_watermark((n - 1) as nat);
        let q = (n - 1) / p;
        let r = (n - 1) % p;
        vstd::arithmetic::div_mod::lemma_fundamental_div_mod((n - 1) as int, p);
        vstd::arithmetic::div_mod::lemma_mod_pos_bound((n - 1) as int, p);
        if r > PAYLOAD_ACCESS_WATERMARK {
            assert(n == (q + 1) * p + 0) by (nonlinear_arith)
                requires
                    n - 1 == q * p + r,
                    r == p - 1,
            ;
            lemma_fundamental_div_mod_converse(n as int, p, q + 1, 0);
        } else {
            assert(n == q * p + (r + 1)) by (nonlinear_arith)
                requires
                    n - 1 == q * p + r,
            ;
            lemma_fundamental_div_mod_converse(n as int, p, q, r + 1);
        }
    }
}

/// Asks the outside for the pending batch to be flushed soon. Without a
/// second process to drain the buffer there is nothing to do.
pub fn handle_payload_filling() {
}

impl PayloadBuffer {
    /// A buffer with an empty batch and no accesses yet.
    pub fn new() -> (r: PayloadBuffer)
        ensures
            r.payload.model() == IPCPayload::empty_model(),
            r.access_count == 0,
    {
        PayloadBuffer { payload: IPCPayload::new(), access_count: 0 }
    }

    /// Counts one access; returns whether it crossed the watermark, in which
    /// case the count starts again from zero.
    pub fn note_access(&mut self) -> (fired: bool)
        ensures
            (final(self).access_count, fired) == next_access(old(self).access_count),
            final(self).payload == old(self).payload,
    {
        if self.access_count > PAYLOAD_ACCESS_WATERMARK {
            self.access_count = 0;
            true
        } else {
            self.access_count = self.access_count + 1;
            false
        }
    }
}

/// Runs `f` on the pending batch, after counting the access and asking for a
/// flush where the watermark was crossed. Returns what `f` returned, and
/// whether this access asked for a flush, so that a host can pass the request
/// on once it no longer holds the batch.
pub fn with_ipc_payload<F, R>(buffer: &mut PayloadBuffer, f: F) -> (r: (R, bool))
    where
        F: FnOnce(&mut IPCPayload) -> R,
    requires
        forall|p: &mut IPCPayload| f.requires((p,)),
    ensures
        (final(buffer).access_count, r.1) == next_access(old(buffer).access_count),
        exists|p: &mut IPCPayload|
            *p == old(buffer).payload && *final(p) == final(buffer).payload && f.ensures((p,), r.0),
{
    let fired = buffer.note_access();
    if fired {
        handle_payload_filling();
    }
    (f(&mut buffer.payload), fired)
}

/// Takes the pending batch in binary form and leaves an empty batch in its
/// place, as one access; also returns whether that access asked for a flush.
pub fn take_buf(buffer: &mut PayloadBuffer) -> (r: (Option<Vec<u8>>, bool))
    ensures
        r.0 matches Some(b) && b@ == payload_bytes(old(buffer).payload.model()),
        final(buffer).payload.model() == IPCPayload::empty_model(),
        (final(buffer).access_count, r.1) == next_access(old(buffer).access_count),
{
    with_ipc_payload(buffer, harvest)
}

/// Encodes `payload` and empties it.
fn harvest(payload: &mut IPCPayload) -> (r: Option<Vec<u8>>)
    ensures
        r matches Some(b) && b@ == payload_bytes(old(payload).model()),
        final(payload).model() == IPCPayload::empty_model(),
{
    let buf = encode(payload);
    *payload = IPCPayload::new();
    Some(buf)
}

} // verus!
