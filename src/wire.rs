use vstd::bytes::*;
use vstd::prelude::*;
use vstd::slice::{slice_subrange, slice_to_vec};
use vstd::string::StringSliceAdditionalSpecFns;
use vstd::utf8::*;

use crate::metric_id::BaseMetricId;

verus! {

/// `e` stands in `buf` from `pos` on.
pub open spec fn at(buf: Seq<u8>, pos: int, e: Seq<u8>) -> bool {
    0 <= pos && pos + e.len() <= buf.len() && buf.subrange(pos, pos + e.len()) == e
}

/// A value with a binary form: fixed-width integers little-endian, lengths
/// as eight-byte counts ahead of the items, pairs as one part after the other.
pub trait Wire: Sized {
    /// What a value of the type stands for.
    type Model;

    spec fn model(&self) -> Self::Model;

    /// The bytes that stand for `m`.
    spec fn wire(m: Self::Model) -> Seq<u8>;

    /// No value has an empty binary form.
    proof fn lemma_wire_nonempty(m: Self::Model)
        ensures
            Self::wire(m).len() >= 1,
    ;

    /// Two values whose binary forms both stand in `s` at `pos` are the same.
    proof fn lemma_wire_unique(s: Seq<u8>, pos: int, m1: Self::Model, m2: Self::Model)
        requires
            s.len() <= u64::MAX,
            at(s, pos, Self::wire(m1)),
            at(s, pos, Self::wire(m2)),
        ensures
            m1 == m2,
    ;

    /// Appends the binary form of `self` to `out`.
    fn encode_into(&self, out: &mut Vec<u8>)
        ensures
            final(out)@ == old(out)@ + Self::wire(self.model()),
    ;

    /// Reads one value from `buf` at `pos`, and the position after it.
    fn decode_at(buf: &[u8], pos: usize) -> (r: Option<(Self, usize)>)
        requires
            pos <= buf@.len(),
        ensures
            r matches Some((v, end)) ==> pos <= end <= buf@.len() && buf@.subrange(
                pos as int,
                end as int,
            ) == Self::wire(v.model()),
            forall|m: Self::Model| #[trigger]
                at(buf@, pos as int, Self::wire(m)) ==> (r matches Some((v, end)) && v.model() == m
                    && end == pos + Self::wire(m).len()),
    ;
}

/// The binary form of a count of items.
pub open spec fn wire_len(n: nat) -> Seq<u8> {
    spec_u64_to_le_bytes(n as u64)
}

/// Reads `n` bytes at `pos`, if there are that many.
fn take(buf: &[u8], pos: usize, n: usize) -> (r: Option<&[u8]>)
    requires
        pos <= buf@.len(),
    ensures
        r matches Some(s) ==> pos + n <= buf@.len() && pos + n <= usize::MAX && s@ == buf@.subrange(
            pos as int,
            pos + n,
        ),
        pos + n <= buf@.len() ==> r is Some,
{
    if n <= buf.len() - pos {
        Some(slice_subrange(buf, pos, pos + n))
    } else {
        None
    }
}

impl Wire for u64 {
    type Model = u64;

    open spec fn model(&self) -> u64 {
        *self
    }

    open spec fn wire(m: u64) -> Seq<u8> {
        spec_u64_to_le_bytes(m)
    }

    proof fn lemma_wire_nonempty(m: Self::Model) {
        lemma_auto_spec_u64_to_from_le_bytes();
    }

    proof fn lemma_wire_unique(s: Seq<u8>, pos: int, m1: Self::Model, m2: Self::Model) {
        lemma_auto_spec_u64_to_from_le_bytes();
        assert(Self::wire(m1) == s.subrange(pos, pos + 8));
        assert(Self::wire(m2) == s.subrange(pos, pos + 8));
    }

    fn encode_into(&self, out: &mut Vec<u8>) {
        let ghost before = out@;
        let mut b = u64_to_le_bytes(*self);
        out.append(&mut b);
        assert(out@ == before + spec_u64_to_le_bytes(*self));
        assert(before == old(out)@);
        assert(Self::wire(self.model()) == spec_u64_to_le_bytes(*self));
    }

    fn decode_at(buf: &[u8], pos: usize) -> (r: Option<(u64, usize)>) {
        proof {
            lemma_auto_spec_u64_to_from_le_bytes();
        }
        match take(buf, pos, 8) {
            Some(s) => {
                let v = u64_from_le_bytes(s);
                assert(buf@.subrange(pos as int, pos + 8) == spec_u64_to_le_bytes(v));
                Some((v, pos + 8))
            },
            None => None,
        }
    }
}

impl Wire for u32 {
    type Model = u32;

    open spec fn model(&self) -> u32 {
        *self
    }

    open spec fn wire(m: u32) -> Seq<u8> {
        spec_u32_to_le_bytes(m)
    }

    proof fn lemma_wire_nonempty(m: Self::Model) {
        lemma_auto_spec_u32_to_from_le_bytes();
    }

    proof fn lemma_wire_unique(s: Seq<u8>, pos: int, m1: Self::Model, m2: Self::Model) {
        lemma_auto_spec_u32_to_from_le_bytes();
        assert(Self::wire(m1) == s.subrange(pos, pos + 4));
        assert(Self::wire(m2) == s.subrange(pos, pos + 4));
    }

    fn encode_into(&self, out: &mut Vec<u8>) {
        let ghost before = out@;
        let mut b = u32_to_le_bytes(*self);
        out.append(&mut b);
        assert(out@ == before + spec_u32_to_le_bytes(*self));
        assert(before == old(out)@);
        assert(Self::wire(self.model()) == spec_u32_to_le_bytes(*self));
    }

    fn decode_at(buf: &[u8], pos: usize) -> (r: Option<(u32, usize)>) {
        proof {
            lemma_auto_spec_u32_to_from_le_bytes();
        }
        match take(buf, pos, 4) {
            Some(s) => {
                let v = u32_from_le_bytes(s);
                assert(buf@.subrange(pos as int, pos + 4) == spec_u32_to_le_bytes(v));
                Some((v, pos + 4))
            },
            None => None,
        }
    }
}

impl Wire for i32 {
    type Model = i32;

    open spec fn model(&self) -> i32 {
        *self
    }

    open spec fn wire(m: i32) -> Seq<u8> {
        spec_u32_to_le_bytes(m as u32)
    }

    proof fn lemma_wire_nonempty(m: Self::Model) {
        lemma_auto_spec_u32_to_from_le_bytes();
    }

    proof fn lemma_wire_unique(s: Seq<u8>, pos: int, m1: Self::Model, m2: Self::Model) {
        lemma_auto_spec_u32_to_from_le_bytes();
        assert(Self::wire(m1) == s.subrange(pos, pos + 4));
        assert(Self::wire(m2) == s.subrange(pos, pos + 4));
        assert(m1 as u32 == m2 as u32);
        assert(m1 == m2) by (bit_vector)
            requires
                m1 as u32 == m2 as u32,
        ;
    }

    fn encode_into(&self, out: &mut Vec<u8>) {
        let mut b = u32_to_le_bytes(*self as u32);
        out.append(&mut b);
    }

    fn decode_at(buf: &[u8], pos: usize) -> (r: Option<(i32, usize)>) {
        proof {
            lemma_auto_spec_u32_to_from_le_bytes();
        }
        match take(buf, pos, 4) {
            Some(s) => {
                let u = u32_from_le_bytes(s);
                let v = u as i32;
                assert(v as u32 == u) by (bit_vector)
                    requires
                        v == u as i32,
                ;
                assert forall|m: i32| #[trigger]
                    at(buf@, pos as int, Self::wire(m)) implies v == m by {
                    assert(s@ == spec_u32_to_le_bytes(m as u32));
                    assert(u == m as u32);
                    assert((m as u32) as i32 == m) by (bit_vector);
                };
                assert(buf@.subrange(pos as int, pos + 4) == spec_u32_to_le_bytes(v as u32));
                Some((v, pos + 4))
            },
            None => None,
        }
    }
}

impl Wire for i64 {
    type Model = i64;

    open spec fn model(&self) -> i64 {
        *self
    }

    open spec fn wire(m: i64) -> Seq<u8> {
        spec_u64_to_le_bytes(m as u64)
    }

    proof fn lemma_wire_nonempty(m: Self::Model) {
        lemma_auto_spec_u64_to_from_le_bytes();
    }

    proof fn lemma_wire_unique(s: Seq<u8>, pos: int, m1: Self::Model, m2: Self::Model) {
        lemma_auto_spec_u64_to_from_le_bytes();
        assert(Self::wire(m1) == s.subrange(pos, pos + 8));
        assert(Self::wire(m2) == s.subrange(pos, pos + 8));
        assert(m1 as u64 == m2 as u64);
        assert(m1 == m2) by (bit_vector)
            requires
                m1 as u64 == m2 as u64,
        ;
    }

    fn encode_into(&self, out: &mut Vec<u8>) {
        let mut b = u64_to_le_bytes(*self as u64);
        out.append(&mut b);
    }

    fn decode_at(buf: &[u8], pos: usize) -> (r: Option<(i64, usize)>) {
        proof {
            lemma_auto_spec_u64_to_from_le_bytes();
        }
        match take(buf, pos, 8) {
            Some(s) => {
                let u = u64_from_le_bytes(s);
                let v = u as i64;
                assert(v as u64 == u) by (bit_vector)
                    requires
                        v == u as i64,
                ;
                assert forall|m: i64| #[trigger]
                    at(buf@, pos as int, Self::wire(m)) implies v == m by {
                    assert(s@ == spec_u64_to_le_bytes(m as u64));
                    assert(u == m as u64);
                    assert((m as u64) as i64 == m) by (bit_vector);
                };
                assert(buf@.subrange(pos as int, pos + 8) == spec_u64_to_le_bytes(v as u64));
                Some((v, pos + 8))
            },
            None => None,
        }
    }
}

impl Wire for bool {
    type Model = bool;

    open spec fn model(&self) -> bool {
        *self
    }

    open spec fn wire(m: bool) -> Seq<u8> {
        seq![if m { 1u8 } else { 0u8 }]
    }

    proof fn lemma_wire_nonempty(m: Self::Model) {
    }

    proof fn lemma_wire_unique(s: Seq<u8>, pos: int, m1: Self::Model, m2: Self::Model) {
        assert(Self::wire(m1)[0] == s[pos]);
        assert(Self::wire(m2)[0] == s[pos]);
    }

    fn encode_into(&self, out: &mut Vec<u8>) {
        out.push(if *self { 1u8 } else { 0u8 });
    }

    fn decode_at(buf: &[u8], pos: usize) -> (r: Option<(bool, usize)>) {
        match take(buf, pos, 1) {
            Some(s) => {
                let b = s[0];
                assert(buf@.subrange(pos as int, pos + 1) =~= seq![b]);
                if b == 0 {
                    Some((false, pos + 1))
                } else if b == 1 {
                    Some((true, pos + 1))
                } else {
                    None
                }
            },
            None => None,
        }
    }
}

impl Wire for BaseMetricId {
    type Model = u32;

    open spec fn model(&self) -> u32 {
        self.0
    }

    open spec fn wire(m: u32) -> Seq<u8> {
        spec_u32_to_le_bytes(m)
    }

    proof fn lemma_wire_nonempty(m: Self::Model) {
        lemma_auto_spec_u32_to_from_le_bytes();
    }

    proof fn lemma_wire_unique(s: Seq<u8>, pos: int, m1: Self::Model, m2: Self::Model) {
        lemma_auto_spec_u32_to_from_le_bytes();
        assert(Self::wire(m1) == s.subrange(pos, pos + 4));
        assert(Self::wire(m2) == s.subrange(pos, pos + 4));
    }

    fn encode_into(&self, out: &mut Vec<u8>) {
        self.0.encode_into(out);
    }

    fn decode_at(buf: &[u8], pos: usize) -> (r: Option<(BaseMetricId, usize)>) {
        let r = u32::decode_at(buf, pos);
        assert forall|m: u32| #[trigger]
            at(buf@, pos as int, Self::wire(m)) implies at(buf@, pos as int, u32::wire(m)) by {};
        match r {
            Some((v, end)) => Some((BaseMetricId(v), end)),
            None => None,
        }
    }
}

/// Relies on std::str::from_utf8: it accepts exactly the byte sequences that
/// are valid UTF-8, and the text it hands back is made of those bytes.
#[verifier::external_body]
fn utf8_text(b: &[u8]) -> (r: Option<&str>)
    ensures
        r is Some <==> valid_utf8(b@),
        r matches Some(s) ==> s.spec_bytes() == b@,
{
    std::str::from_utf8(b).ok()
}

/// Reads a count of items at `pos` as a `usize`, if it is no larger than
/// the bytes that follow it.
fn decode_len(buf: &[u8], pos: usize) -> (r: Option<(usize, usize)>)
    requires
        pos <= buf@.len(),
    ensures
        r matches Some((n, end)) ==> end == pos + 8 && end <= buf@.len() && buf@.subrange(
            pos as int,
            end as int,
        ) == wire_len(n as nat) && n <= buf@.len() - end,
        forall|n: nat| #[trigger]
            at(buf@, pos as int, wire_len(n)) && n <= buf@.len() - pos - 8 ==> (r matches Some(
                (k, end),
            ) && k == n && end == pos + 8),
{
    proof {
        lemma_auto_spec_u64_to_from_le_bytes();
    }
    let total = buf.len();
    let r = u64::decode_at(buf, pos);
    assert forall|n: nat| #[trigger]
        at(buf@, pos as int, wire_len(n)) && n <= buf@.len() - pos - 8 implies at(
        buf@,
        pos as int,
        u64::wire(n as u64),
    ) && (n as u64) as nat == n by {
        assert(n <= total);
    };
    match r {
        Some((n, end)) => {
            if n <= (buf.len() - end) as u64 {
                Some((n as usize, end))
            } else {
                None
            }
        },
        None => None,
    }
}

impl Wire for String {
    type Model = Seq<char>;

    open spec fn model(&self) -> Seq<char> {
        self@
    }

    open spec fn wire(m: Seq<char>) -> Seq<u8> {
        wire_len(encode_utf8(m).len()) + encode_utf8(m)
    }

    proof fn lemma_wire_nonempty(m: Self::Model) {
        lemma_auto_spec_u64_to_from_le_bytes();
    }

    proof fn lemma_wire_unique(s: Seq<u8>, pos: int, m1: Self::Model, m2: Self::Model) {
        lemma_auto_spec_u64_to_from_le_bytes();
        let e1 = encode_utf8(m1);
        let e2 = encode_utf8(m2);
        let w1 = Self::wire(m1);
        let w2 = Self::wire(m2);
        assert(w1.subrange(0, 8) =~= wire_len(e1.len()));
        assert(w2.subrange(0, 8) =~= wire_len(e2.len()));
        assert(s.subrange(pos, pos + 8) =~= w1.subrange(0, 8));
        assert(s.subrange(pos, pos + 8) =~= w2.subrange(0, 8));
        assert(e1.len() == e2.len());
        assert(s.subrange(pos + 8, pos + 8 + e1.len()) =~= w1.subrange(8, 8 + e1.len() as int));
        assert(s.subrange(pos + 8, pos + 8 + e2.len()) =~= w2.subrange(8, 8 + e2.len() as int));
        assert(w1.subrange(8, 8 + e1.len() as int) =~= e1);
        assert(w2.subrange(8, 8 + e2.len() as int) =~= e2);
        encode_utf8_decode_utf8(m1);
        encode_utf8_decode_utf8(m2);
    }

    fn encode_into(&self, out: &mut Vec<u8>) {
        let b = self.as_str().as_bytes();
        (b.len() as u64).encode_into(out);
        let mut v = slice_to_vec(b);
        out.append(&mut v);
    }

    fn decode_at(buf: &[u8], pos: usize) -> (r: Option<(String, usize)>) {
        proof {
            lemma_auto_spec_u64_to_from_le_bytes();
        }
        match decode_len(buf, pos) {
            Some((n, p)) => {
                match take(buf, p, n) {
                    Some(s) => {
                        match utf8_text(s) {
                            Some(t) => {
                                let text = t.to_owned();
                                proof {
                                    encode_utf8_decode_utf8(text@);
                                    assert forall|m: Seq<char>| #[trigger]
                                        at(buf@, pos as int, Self::wire(m)) implies text@ == m
                                        && p + n == pos + Self::wire(m).len() by {
                                        let e = encode_utf8(m);
                                        assert(wire_len(e.len()).len() == 8);
                                        assert(buf@.subrange(pos as int, pos + 8) =~= buf@.subrange(pos as int, pos + Self::wire(m).len()).subrange(0, 8));
                                        assert(buf@.subrange(pos as int, pos + 8) == wire_len(e.len()));
                                        assert(at(buf@, pos as int, wire_len(e.len())));
                                        assert(n == e.len());
                                        assert(s@ =~= buf@.subrange(pos as int, pos + Self::wire(m).len()).subrange(8, 8 + n));
                                        encode_utf8_decode_utf8(m);
                                        assert(encode_utf8(text@) == e);
                                    };
                                    assert(buf@.subrange(pos as int, (p + n) as int)
                                        =~= wire_len(n as nat) + s@);
                                }
                                Some((text, p + n))
                            },
                            None => {
                                proof {
                                    assert forall|m: Seq<char>| #[trigger]
                                        at(buf@, pos as int, Self::wire(m)) implies false by {
                                        let e = encode_utf8(m);
                                        assert(wire_len(e.len()).len() == 8);
                                        assert(buf@.subrange(pos as int, pos + 8) =~= buf@.subrange(pos as int, pos + Self::wire(m).len()).subrange(0, 8));
                                        assert(buf@.subrange(pos as int, pos + 8) == wire_len(e.len()));
                                        assert(at(buf@, pos as int, wire_len(e.len())));
                                        assert(n == e.len());
                                        assert(s@ =~= buf@.subrange(pos as int, pos + Self::wire(m).len()).subrange(8, 8 + n));
                                        assert((wire_len(e.len()) + e).subrange(8, 8 + n) =~= e);
                                        encode_utf8_valid_utf8(m);
                                    };
                                }
                                None
                            },
                        }
                    },
                    None => None,
                }
            },
            None => {
                proof {
                    assert forall|m: Seq<char>| #[trigger]
                        at(buf@, pos as int, Self::wire(m)) implies false by {
                        let e = encode_utf8(m);
                        assert(buf@.subrange(pos as int, pos + 8) == wire_len(e.len()));
                        assert(at(buf@, pos as int, wire_len(e.len())));
                    };
                }
                None
            },
        }
    }
}

/// What the items of `v` stand for.
pub open spec fn models<T: Wire>(v: Seq<T>) -> Seq<T::Model> {
    v.map_values(|x: T| x.model())
}

/// The binary forms of `ms`, one after the other.
pub open spec fn wire_items<T: Wire>(ms: Seq<T::Model>) -> Seq<u8>
    decreases ms.len(),
{
    if ms.len() == 0 {
        Seq::empty()
    } else {
        wire_items::<T>(ms.drop_last()) + T::wire(ms.last())
    }
}

proof fn lemma_items_len<T: Wire>(ms: Seq<T::Model>)
    ensures
        wire_items::<T>(ms).len() >= ms.len(),
    decreases ms.len(),
{
    if ms.len() > 0 {
        lemma_items_len::<T>(ms.drop_last());
        T::lemma_wire_nonempty(ms.last());
    }
}

proof fn lemma_items_prefix<T: Wire>(ms: Seq<T::Model>, j: int)
    requires
        0 <= j <= ms.len(),
    ensures
        wire_items::<T>(ms.take(j)).len() <= wire_items::<T>(ms).len(),
        wire_items::<T>(ms).subrange(0, wire_items::<T>(ms.take(j)).len() as int)
            == wire_items::<T>(ms.take(j)),
    decreases ms.len(),
{
    if j == ms.len() {
        assert(ms.take(j) =~= ms);
    } else {
        let d = ms.drop_last();
        lemma_items_prefix::<T>(d, j);
        assert(d.take(j) =~= ms.take(j));
        let a = wire_items::<T>(d);
        let b = T::wire(ms.last());
        assert((a + b).subrange(0, wire_items::<T>(ms.take(j)).len() as int) =~= a.subrange(
            0,
            wire_items::<T>(ms.take(j)).len() as int,
        ));
    }
}

proof fn lemma_items_unique<T: Wire>(s: Seq<u8>, pos: int, m1: Seq<T::Model>, m2: Seq<T::Model>)
    requires
        s.len() <= u64::MAX,
        m1.len() == m2.len(),
        at(s, pos, wire_items::<T>(m1)),
        at(s, pos, wire_items::<T>(m2)),
    ensures
        m1 == m2,
    decreases m1.len(),
{
    if m1.len() > 0 {
        let d1 = m1.drop_last();
        let d2 = m2.drop_last();
        let a1 = wire_items::<T>(d1);
        let a2 = wire_items::<T>(d2);
        let w1 = wire_items::<T>(m1);
        let w2 = wire_items::<T>(m2);
        assert(s.subrange(pos, pos + a1.len()) =~= w1.subrange(0, a1.len() as int));
        assert(w1.subrange(0, a1.len() as int) =~= a1);
        assert(s.subrange(pos, pos + a2.len()) =~= w2.subrange(0, a2.len() as int));
        assert(w2.subrange(0, a2.len() as int) =~= a2);
        lemma_items_unique::<T>(s, pos, d1, d2);
        let l1 = T::wire(m1.last()).len() as int;
        let l2 = T::wire(m2.last()).len() as int;
        let o = a1.len() as int;
        assert(s.subrange(pos + o, pos + o + l1) =~= w1.subrange(o, o + l1));
        assert(w1.subrange(o, o + l1) =~= T::wire(m1.last()));
        assert(s.subrange(pos + o, pos + o + l2) =~= w2.subrange(o, o + l2));
        assert(w2.subrange(o, o + l2) =~= T::wire(m2.last()));
        T::lemma_wire_unique(s, pos + o, m1.last(), m2.last());
        assert(m1 =~= d1.push(m1.last()));
        assert(m2 =~= d2.push(m2.last()));
    } else {
        assert(m1 =~= m2);
    }
}

impl<A: Wire, B: Wire> Wire for (A, B) {
    type Model = (A::Model, B::Model);

    open spec fn model(&self) -> (A::Model, B::Model) {
        (self.0.model(), self.1.model())
    }

    open spec fn wire(m: (A::Model, B::Model)) -> Seq<u8> {
        A::wire(m.0) + B::wire(m.1)
    }

    proof fn lemma_wire_nonempty(m: Self::Model) {
        A::lemma_wire_nonempty(m.0);
    }

    proof fn lemma_wire_unique(s: Seq<u8>, pos: int, m1: Self::Model, m2: Self::Model) {
        let la1 = A::wire(m1.0).len() as int;
        let la2 = A::wire(m2.0).len() as int;
        let w1 = Self::wire(m1);
        let w2 = Self::wire(m2);
        assert(s.subrange(pos, pos + la1) =~= w1.subrange(0, la1));
        assert(w1.subrange(0, la1) =~= A::wire(m1.0));
        assert(s.subrange(pos, pos + la2) =~= w2.subrange(0, la2));
        assert(w2.subrange(0, la2) =~= A::wire(m2.0));
        A::lemma_wire_unique(s, pos, m1.0, m2.0);
        let lb1 = B::wire(m1.1).len() as int;
        let lb2 = B::wire(m2.1).len() as int;
        assert(s.subrange(pos + la1, pos + la1 + lb1) =~= w1.subrange(la1, la1 + lb1));
        assert(w1.subrange(la1, la1 + lb1) =~= B::wire(m1.1));
        assert(s.subrange(pos + la1, pos + la1 + lb2) =~= w2.subrange(la1, la1 + lb2));
        assert(w2.subrange(la1, la1 + lb2) =~= B::wire(m2.1));
        B::lemma_wire_unique(s, pos + la1, m1.1, m2.1);
    }

    fn encode_into(&self, out: &mut Vec<u8>) {
        self.0.encode_into(out);
        self.1.encode_into(out);
    }

    fn decode_at(buf: &[u8], pos: usize) -> (r: Option<((A, B), usize)>) {
        let ra = A::decode_at(buf, pos);
        proof {
            assert forall|m: Self::Model| #[trigger]
                at(buf@, pos as int, Self::wire(m)) implies at(buf@, pos as int, A::wire(m.0))
                && at(buf@, pos + A::wire(m.0).len(), B::wire(m.1)) by {
                let la = A::wire(m.0).len() as int;
                let lb = B::wire(m.1).len() as int;
                let w = buf@.subrange(pos as int, pos + la + lb);
                assert(buf@.subrange(pos as int, pos + la) =~= w.subrange(0, la));
                assert(buf@.subrange(pos + la, pos + la + lb) =~= w.subrange(la, la + lb));
                assert((A::wire(m.0) + B::wire(m.1)).subrange(0, la) =~= A::wire(m.0));
                assert((A::wire(m.0) + B::wire(m.1)).subrange(la, la + lb) =~= B::wire(m.1));
            };
        }
        match ra {
            Some((a, p)) => {
                match B::decode_at(buf, p) {
                    Some((b, end)) => {
                        assert(buf@.subrange(pos as int, end as int) =~= buf@.subrange(
                            pos as int,
                            p as int,
                        ) + buf@.subrange(p as int, end as int));
                        Some(((a, b), end))
                    },
                    None => None,
                }
            },
            None => None,
        }
    }
}

impl<T: Wire> Wire for Vec<T> {
    type Model = Seq<T::Model>;

    open spec fn model(&self) -> Seq<T::Model> {
        models(self@)
    }

    open spec fn wire(ms: Seq<T::Model>) -> Seq<u8> {
        wire_len(ms.len()) + wire_items::<T>(ms)
    }

    proof fn lemma_wire_nonempty(ms: Self::Model) {
        lemma_auto_spec_u64_to_from_le_bytes();
    }

    proof fn lemma_wire_unique(s: Seq<u8>, pos: int, m1: Self::Model, m2: Self::Model) {
        lemma_auto_spec_u64_to_from_le_bytes();
        lemma_items_len::<T>(m1);
        lemma_items_len::<T>(m2);
        let w1 = Self::wire(m1);
        let w2 = Self::wire(m2);
        assert(s.subrange(pos, pos + 8) =~= w1.subrange(0, 8));
        assert(w1.subrange(0, 8) =~= wire_len(m1.len()));
        assert(s.subrange(pos, pos + 8) =~= w2.subrange(0, 8));
        assert(w2.subrange(0, 8) =~= wire_len(m2.len()));
        assert(m1.len() == m2.len());
        let i1 = wire_items::<T>(m1);
        let i2 = wire_items::<T>(m2);
        assert(s.subrange(pos + 8, pos + 8 + i1.len()) =~= w1.subrange(8, 8 + i1.len() as int));
        assert(w1.subrange(8, 8 + i1.len() as int) =~= i1);
        assert(s.subrange(pos + 8, pos + 8 + i2.len()) =~= w2.subrange(8, 8 + i2.len() as int));
        assert(w2.subrange(8, 8 + i2.len() as int) =~= i2);
        lemma_items_unique::<T>(s, pos + 8, m1, m2);
    }

    fn encode_into(&self, out: &mut Vec<u8>) {
        let ghost start = out@;
        let ghost ms = self.model();
        (self.len() as u64).encode_into(out);
        let mut i: usize = 0;
        while i < self.len()
            invariant
                i <= self@.len(),
                ms == models(self@),
                out@ == start + wire_len(ms.len()) + wire_items::<T>(ms.take(i as int)),
            decreases self@.len() - i,
        {
            self[i].encode_into(out);
            proof {
                assert(ms.take(i + 1).drop_last() =~= ms.take(i as int));
            }
            i += 1;
        }
        assert(ms.take(i as int) =~= ms);
    }

    fn decode_at(buf: &[u8], pos: usize) -> (r: Option<(Vec<T>, usize)>) {
        proof {
            lemma_auto_spec_u64_to_from_le_bytes();
            assert forall|ms: Seq<T::Model>| #[trigger]
                at(buf@, pos as int, Self::wire(ms)) implies at(buf@, pos as int, wire_len(ms.len()))
                && ms.len() <= buf@.len() - pos - 8 by {
                lemma_items_len::<T>(ms);
                let w = buf@.subrange(pos as int, pos + Self::wire(ms).len());
                assert(buf@.subrange(pos as int, pos + 8) =~= w.subrange(0, 8));
                assert(Self::wire(ms).subrange(0, 8) =~= wire_len(ms.len()));
            };
        }
        let (n, p) = match decode_len(buf, pos) {
            Some(x) => x,
            None => return None,
        };
        let mut out: Vec<T> = Vec::new();
        let mut cur: usize = p;
        let mut i: usize = 0;
        while i < n
            invariant
                p == pos + 8,
                p <= cur <= buf@.len(),
                i <= n,
                out@.len() == i,
                buf@.subrange(pos as int, p as int) == wire_len(n as nat),
                buf@.subrange(p as int, cur as int) == wire_items::<T>(models(out@)),
                forall|ms: Seq<T::Model>| #[trigger]
                    at(buf@, pos as int, Self::wire(ms)) ==> ms.len() == n && models(out@)
                        == ms.take(i as int) && cur == p + wire_items::<T>(ms.take(i as int)).len(),
            decreases n - i,
        {
            proof {
                assert forall|ms: Seq<T::Model>| #[trigger]
                    at(buf@, pos as int, Self::wire(ms)) implies at(buf@, cur as int, T::wire(ms[i as int])) by {
                    lemma_items_prefix::<T>(ms, i + 1);
                    assert(ms.take(i + 1).drop_last() =~= ms.take(i as int));
                    let wi = wire_items::<T>(ms.take(i as int));
                    let wn = wire_items::<T>(ms.take(i + 1));
                    let all = wire_items::<T>(ms);
                    let e = T::wire(ms[i as int]);
                    assert(buf@.subrange(p as int, p + all.len()) =~= buf@.subrange(pos as int, pos + Self::wire(ms).len()).subrange(8, 8 + all.len() as int));
                    assert(Self::wire(ms).subrange(8, 8 + all.len() as int) =~= all);
                    assert(buf@.subrange(cur as int, cur + e.len()) =~= all.subrange(wi.len() as int, wn.len() as int));
                    assert(wn.subrange(wi.len() as int, wn.len() as int) =~= e);
                    assert(all.subrange(0, wn.len() as int).subrange(wi.len() as int, wn.len() as int) =~= all.subrange(wi.len() as int, wn.len() as int));
                };
            }
            match T::decode_at(buf, cur) {
                Some((v, e)) => {
                    let ghost old_out = out@;
                    out.push(v);
                    proof {
                        assert(models(out@).drop_last() =~= models(old_out));
                        assert(buf@.subrange(p as int, e as int) =~= buf@.subrange(p as int, cur as int)
                            + buf@.subrange(cur as int, e as int));
                        assert forall|ms: Seq<T::Model>| #[trigger]
                            at(buf@, pos as int, Self::wire(ms)) implies models(out@) == ms.take(i + 1)
                            && e == p + wire_items::<T>(ms.take(i + 1)).len() by {
                            assert(ms.take(i + 1).drop_last() =~= ms.take(i as int));
                            assert(models(out@) =~= ms.take(i + 1));
                        };
                    }
                    cur = e;
                    i += 1;
                },
                None => {
                    return None;
                },
            }
        }
        proof {
            assert(buf@.subrange(pos as int, cur as int) =~= buf@.subrange(pos as int, p as int)
                + buf@.subrange(p as int, cur as int));
            assert forall|ms: Seq<T::Model>| #[trigger]
                at(buf@, pos as int, Self::wire(ms)) implies models(out@) == ms by {
                assert(ms.take(i as int) =~= ms);
            };
        }
        Some((out, cur))
    }
}

} // verus!
