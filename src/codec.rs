use vstd::prelude::*;

use crate::payload::{IPCPayload, PayloadModel};
use crate::wire::Wire;

verus! {

/// The bytes could not be read as a batch.
#[derive(Debug, Clone, Copy, PartialEq, Eq, Structural)]
pub struct DecodeError;

/// The binary form of the batch `m`.
pub open spec fn payload_bytes(m: PayloadModel) -> Seq<u8> {
    <IPCPayload as Wire>::wire(m)
}

/// Whether `buf` is the binary form of some batch.
pub open spec fn is_payload_bytes(buf: Seq<u8>) -> bool {
    exists|m: PayloadModel| payload_bytes(m) == buf
}

/// The binary form of a whole batch, every container included.
pub fn encode(payload: &IPCPayload) -> (r: Vec<u8>)
    ensures
        r@ == payload_bytes(payload.model()),
{
    let mut out: Vec<u8> = Vec::new();
    payload.encode_into(&mut out);
    assert(out@ =~= payload_bytes(payload.model()));
    out
}

/// Reads a whole batch from `buf`; bytes left over after it are an error.
pub fn decode(buf: &[u8]) -> (r: Result<IPCPayload, DecodeError>)
    ensures
        r is Ok <==> is_payload_bytes(buf@),
        r matches Ok(p) ==> payload_bytes(p.model()) == buf@,
        forall|m: PayloadModel| #[trigger]
            payload_bytes(m) == buf@ ==> (r matches Ok(p) && p.model() == m),
{
    let r = IPCPayload::decode_at(buf, 0);
    assert forall|m: PayloadModel| #[trigger] payload_bytes(m) == buf@ implies crate::wire::at(
        buf@,
        0,
        <IPCPayload as Wire>::wire(m),
    ) by {
        assert(buf@.subrange(0, buf@.len() as int) =~= buf@);
    };
    match r {
        Some((p, end)) => {
            if end == buf.len() {
                assert(buf@.subrange(0, end as int) =~= buf@);
                assert(payload_bytes(p.model()) == buf@);
                Ok(p)
            } else {
                assert forall|m: PayloadModel| payload_bytes(m) != buf@ by {
                    if payload_bytes(m) == buf@ {
                        assert(buf@.subrange(0, buf@.len() as int) =~= buf@);
                        assert(crate::wire::at(buf@, 0, <IPCPayload as Wire>::wire(m)));
                    }
                };
                Err(DecodeError)
            }
        },
        None => {
            assert forall|m: PayloadModel| payload_bytes(m) != buf@ by {
                if payload_bytes(m) == buf@ {
                    assert(buf@.subrange(0, buf@.len() as int) =~= buf@);
                    assert(crate::wire::at(buf@, 0, <IPCPayload as Wire>::wire(m)));
                }
            };
            Err(DecodeError)
        },
    }
}

/// Decoding the binary form of a batch gives that batch back: the bytes are
/// a batch, and no other batch has them as its binary form.
pub proof fn lemma_round_trip(b: PayloadModel)
    requires
        payload_bytes(b).len() <= u64::MAX,
    ensures
        is_payload_bytes(payload_bytes(b)),
        forall|c: PayloadModel| #[trigger] payload_bytes(c) == payload_bytes(b) ==> c == b,
{
    let s = payload_bytes(b);
    assert forall|c: PayloadModel| #[trigger] payload_bytes(c) == payload_bytes(b) implies c == b by {
        assert(s.subrange(0, s.len() as int) =~= s);
        <IPCPayload as Wire>::lemma_wire_unique(s, 0, c, b);
    };
}

} // verus!
