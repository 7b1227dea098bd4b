//! Kernel descriptors: the decoded metadata and SPIR-V words that describe
//! one compute kernel — its slice bindings, push constants, specialization
//! constants and workgroup dimensions.
//!
//! Descriptors travel as compact blobs produced by the offline kernel
//! compiler. The wire schema is fixed: length-prefixed byte-string names
//! (kept here as their UTF-8 bytes, uninterpreted), little-endian scalars,
//! 32-bit length prefixes on every list. [`KernelDesc::from_bytes`]
//! decodes a blob; [`KernelDesc::to_bytes`] writes one, and a decoded
//! descriptor re-encodes to exactly the bytes it came from.

use crate::bytes::read_range;
use crate::device::Features;
use crate::scalar::ScalarType;
use vstd::bytes::{
    lemma_auto_spec_u32_to_from_le_bytes, lemma_auto_spec_u64_to_from_le_bytes,
    spec_u32_from_le_bytes, spec_u32_to_le_bytes, spec_u64_to_le_bytes, u32_from_le_bytes,
    u32_to_le_bytes, u64_from_le_bytes, u64_to_le_bytes,
};
use vstd::prelude::*;
use vstd::slice::slice_subrange;

verus! {

/// Describes one specialization constant: its name, type, and whether it
/// sets a workgroup dimension.
#[derive(Debug)]
pub struct SpecDesc {
    pub name: Vec<u8>,
    pub scalar_type: ScalarType,
    pub thread_dim: Option<usize>,
}

impl SpecDesc {
    /// Well-formed: any thread dimension is one of the three axes, and
    /// the name's length fits its 32-bit prefix.
    pub open spec fn wf(&self) -> bool {
        &&& match self.thread_dim {
            Some(d) => d < 3,
            None => true,
        }
        &&& self.name@.len() <= 0xFFFF_FFFF
    }
}

/// Describes one slice binding: its name, element type, mutability, and
/// whether it participates in elementwise ("item") dispatch.
#[derive(Debug)]
pub struct SliceDesc {
    pub name: Vec<u8>,
    pub scalar_type: ScalarType,
    pub mutable: bool,
    pub item: bool,
}

impl SliceDesc {
    /// Well-formed: the name's length fits its 32-bit prefix.
    pub open spec fn wf(&self) -> bool {
        self.name@.len() <= 0xFFFF_FFFF
    }
}

/// Describes one push constant: its name and element type.
#[derive(Debug)]
pub struct PushDesc {
    pub name: Vec<u8>,
    pub scalar_type: ScalarType,
}

impl PushDesc {
    /// Well-formed: the name's length fits its 32-bit prefix.
    pub open spec fn wf(&self) -> bool {
        self.name@.len() <= 0xFFFF_FFFF
    }
}

/// The decoded form of one kernel: identity, SPIR-V words, required
/// features, workgroup dimensions, and the three descriptor lists.
#[derive(Debug)]
pub struct KernelDesc {
    pub name: Vec<u8>,
    pub hash: u64,
    pub spirv: Vec<u32>,
    pub features: Features,
    pub threads: Vec<u32>,
    pub safe: bool,
    pub spec_descs: Vec<SpecDesc>,
    pub slice_descs: Vec<SliceDesc>,
    pub push_descs: Vec<PushDesc>,
}

/// Schema bound: no descriptor list may have more entries than this, so
/// that push-constant sizes fit comfortably in 32 bits.
pub const MAX_DESCS: usize = 0xFFFF;

/// Schema bound: a module may not have more SPIR-V words than this.
pub const MAX_SPIRV_WORDS: usize = 0x00FF_FFFF;

impl KernelDesc {
    /// Well-formedness established by the decoder: between one and three
    /// workgroup dimensions, none of them zero; every thread-dimension
    /// index on an axis; descriptor lists within the schema bound; and
    /// every length within its wire prefix.
    pub open spec fn wf(&self) -> bool {
        &&& 1 <= self.threads@.len() <= 3
        &&& forall|i: int| 0 <= i < self.threads@.len() ==> self.threads@[i] >= 1
        &&& forall|i: int| 0 <= i < self.spec_descs@.len() ==> (#[trigger] self.spec_descs@[i]).wf()
        &&& forall|i: int|
            0 <= i < self.slice_descs@.len() ==> (#[trigger] self.slice_descs@[i]).wf()
        &&& forall|i: int| 0 <= i < self.push_descs@.len() ==> (#[trigger] self.push_descs@[i]).wf()
        &&& self.spec_descs@.len() <= MAX_DESCS
        &&& self.slice_descs@.len() <= MAX_DESCS
        &&& self.push_descs@.len() <= MAX_DESCS
        &&& self.name@.len() <= 0xFFFF_FFFF
        &&& self.spirv@.len() <= MAX_SPIRV_WORDS
    }

    /// The byte size of the push-constant block: each named push constant
    /// in order, rounded up to a multiple of four, then two 32-bit words
    /// for every slice binding.
    pub open spec fn spec_push_consts_range(&self) -> int {
        let raw = spec_push_size_sum(self.push_descs@, self.push_descs@.len() as int);
        let rounded = raw + ((4 - raw % 4) % 4);
        rounded + self.slice_descs@.len() * 8
    }

    /// The byte size of the push-constant block.
    pub fn push_consts_range(&self) -> (r: u32)
        requires
            self.wf(),
        ensures
            r == self.spec_push_consts_range(),
    {
        let ghost pushes = self.push_descs@;
        let mut size: usize = 0;
        let mut i: usize = 0;
        while i < self.push_descs.len()
            invariant
                0 <= i <= pushes.len(),
                pushes.len() <= MAX_DESCS,
                pushes == self.push_descs@,
                size == spec_push_size_sum(pushes, i as int),
                size <= 8 * i,
            decreases pushes.len() - i,
        {
            size += self.push_descs[i].scalar_type.size();
            i += 1;
        }
        let ghost raw = spec_push_size_sum(pushes, pushes.len() as int);
        let ghost rounded = raw + ((4 - raw % 4) % 4);
        while size % 4 != 0
            invariant
                raw <= size,
                size <= rounded,
                rounded % 4 == 0,
                rounded < raw + 4,
                0 <= raw <= 8 * MAX_DESCS,
            decreases rounded - size,
        {
            size += 1;
        }
        let total = size + self.slice_descs.len() * 8;
        total as u32
    }
}

/// The summed byte sizes of the first `n` push descriptors.
pub open spec fn spec_push_size_sum(pushes: Seq<PushDesc>, n: int) -> int
    decreases n,
{
    if n <= 0 {
        0
    } else {
        spec_push_size_sum(pushes, n - 1) + pushes[n - 1].scalar_type.spec_size()
    }
}

/// Wire form of one 32-bit scalar: its little-endian bytes.
pub open spec fn enc_u32(x: u32) -> Seq<u8> {
    spec_u32_to_le_bytes(x)
}

/// Wire form of one 64-bit scalar: its little-endian bytes.
pub open spec fn enc_u64(x: u64) -> Seq<u8> {
    spec_u64_to_le_bytes(x)
}

/// Wire form of a flag: one byte, zero or one.
pub open spec fn enc_bool(b: bool) -> Seq<u8> {
    seq![if b { 1u8 } else { 0u8 }]
}

/// Wire form of a byte string: 32-bit length prefix, then the bytes.
pub open spec fn enc_bytes(n: Seq<u8>) -> Seq<u8> {
    enc_u32(n.len() as u32) + n
}

/// Wire form of a word list body: each word's little-endian bytes.
pub open spec fn enc_u32s(s: Seq<u32>) -> Seq<u8>
    decreases s.len(),
{
    if s.len() == 0 {
        Seq::empty()
    } else {
        enc_u32s(s.drop_last()) + enc_u32(s.last())
    }
}

/// Wire form of one specialization-constant descriptor.
pub open spec fn enc_spec_desc(d: SpecDesc) -> Seq<u8> {
    enc_bytes(d.name@) + seq![d.scalar_type.spec_tag()] + (match d.thread_dim {
        None => seq![0u8],
        Some(t) => seq![1u8, t as u8],
    })
}

/// Wire form of a specialization-descriptor list body.
pub open spec fn enc_spec_descs(s: Seq<SpecDesc>) -> Seq<u8>
    decreases s.len(),
{
    if s.len() == 0 {
        Seq::empty()
    } else {
        enc_spec_descs(s.drop_last()) + enc_spec_desc(s.last())
    }
}

/// Wire form of one slice descriptor.
pub open spec fn enc_slice_desc(d: SliceDesc) -> Seq<u8> {
    enc_bytes(d.name@) + seq![d.scalar_type.spec_tag()] + enc_bool(d.mutable) + enc_bool(d.item)
}

/// Wire form of a slice-descriptor list body.
pub open spec fn enc_slice_descs(s: Seq<SliceDesc>) -> Seq<u8>
    decreases s.len(),
{
    if s.len() == 0 {
        Seq::empty()
    } else {
        enc_slice_descs(s.drop_last()) + enc_slice_desc(s.last())
    }
}

/// Wire form of one push-constant descriptor.
pub open spec fn enc_push_desc(d: PushDesc) -> Seq<u8> {
    enc_bytes(d.name@) + seq![d.scalar_type.spec_tag()]
}

/// Wire form of a push-descriptor list body.
pub open spec fn enc_push_descs(s: Seq<PushDesc>) -> Seq<u8>
    decreases s.len(),
{
    if s.len() == 0 {
        Seq::empty()
    } else {
        enc_push_descs(s.drop_last()) + enc_push_desc(s.last())
    }
}

/// The wire form of the head's variable-length front: name, hash, and
/// the length-prefixed SPIR-V words.
pub open spec fn spec_front_bytes(name: Seq<u8>, hash: u64, spirv: Seq<u32>) -> Seq<u8> {
    enc_bytes(name) + enc_u64(hash) + enc_u32(spirv.len() as u32) + enc_u32s(spirv)
}

/// The wire form of the five capability flags, in schema order.
pub open spec fn spec_flags_bytes(f: Features) -> Seq<u8> {
    enc_bool(f.shader_int8) + enc_bool(f.shader_int16) + enc_bool(f.shader_int64) + enc_bool(
        f.shader_float16,
    ) + enc_bool(f.shader_float64)
}

/// The wire form of a descriptor's scalar head: everything before the
/// three descriptor lists, field by field in schema order.
pub open spec fn spec_head_bytes(d: KernelDesc) -> Seq<u8> {
    spec_front_bytes(d.name@, d.hash, d.spirv@) + spec_flags_bytes(d.features) + enc_u32(
        d.threads@.len() as u32,
    ) + enc_u32s(d.threads@) + enc_bool(d.safe)
}

/// The full wire form of a kernel descriptor: the scalar head, then the
/// three length-prefixed descriptor lists.
pub open spec fn spec_desc_bytes(d: KernelDesc) -> Seq<u8> {
    spec_head_bytes(d) + enc_u32(d.spec_descs@.len() as u32) + enc_spec_descs(d.spec_descs@)
        + enc_u32(d.slice_descs@.len() as u32) + enc_slice_descs(d.slice_descs@) + enc_u32(
        d.push_descs@.len() as u32,
    ) + enc_push_descs(d.push_descs@)
}

/// Whether `piece` occurs in `b` starting at position `pos`.
pub open spec fn enc_at(piece: Seq<u8>, b: Seq<u8>, pos: int) -> bool {
    &&& 0 <= pos
    &&& pos + piece.len() <= b.len()
    &&& b.subrange(pos, pos + piece.len()) == piece
}

/// A word-list body is four bytes per word.
pub proof fn lemma_enc_u32s_len(s: Seq<u32>)
    ensures
        enc_u32s(s).len() == 4 * s.len(),
    decreases s.len(),
{
    if s.len() > 0 {
        lemma_enc_u32s_len(s.drop_last());
        lemma_auto_spec_u32_to_from_le_bytes();
        assert(enc_u32(s.last()).len() == 4);
    }
}

/// Equal encodings of equally many words are encodings of the same
/// words.
pub proof fn lemma_enc_u32s_inj(a: Seq<u32>, b: Seq<u32>)
    requires
        a.len() == b.len(),
        enc_u32s(a) == enc_u32s(b),
    ensures
        a == b,
    decreases a.len(),
{
    if a.len() > 0 {
        lemma_enc_u32s_len(a);
        lemma_enc_u32s_len(a.drop_last());
        lemma_enc_u32s_len(b.drop_last());
        lemma_auto_spec_u32_to_from_le_bytes();
        let ea = enc_u32s(a);
        let eb = enc_u32s(b);
        assert(enc_u32(a.last()).len() == 4);
        assert(enc_u32(b.last()).len() == 4);
        assert(enc_u32(a.last()) =~= ea.subrange(ea.len() - 4, ea.len() as int));
        assert(enc_u32(b.last()) =~= eb.subrange(eb.len() - 4, eb.len() as int));
        assert(spec_u32_from_le_bytes(spec_u32_to_le_bytes(a.last())) == a.last());
        assert(spec_u32_from_le_bytes(spec_u32_to_le_bytes(b.last())) == b.last());
        assert(enc_u32s(a.drop_last()) =~= ea.subrange(0, ea.len() - 4));
        assert(enc_u32s(b.drop_last()) =~= eb.subrange(0, eb.len() - 4));
        lemma_enc_u32s_inj(a.drop_last(), b.drop_last());
        assert(a =~= a.drop_last().push(a.last()));
        assert(b =~= b.drop_last().push(b.last()));
    } else {
        assert(a =~= b);
    }
}

/// Two equal-width values with the same four-byte encoding are equal.
proof fn lemma_enc_u32_inj(a: u32, b: u32)
    requires
        enc_u32(a) == enc_u32(b),
    ensures
        a == b,
{
    lemma_auto_spec_u32_to_from_le_bytes();
    assert(spec_u32_to_le_bytes(a).len() == 4);
    assert(spec_u32_to_le_bytes(b).len() == 4);
    assert(spec_u32_from_le_bytes(spec_u32_to_le_bytes(a)) == a);
    assert(spec_u32_from_le_bytes(spec_u32_to_le_bytes(b)) == b);
}

/// A nonempty list body is its first item's encoding followed by the
/// rest of the list body.
proof fn lemma_enc_spec_descs_front(s: Seq<SpecDesc>)
    requires
        s.len() > 0,
    ensures
        enc_spec_descs(s) == enc_spec_desc(s.first()) + enc_spec_descs(s.skip(1)),
    decreases s.len(),
{
    if s.len() == 1 {
        assert(s.drop_last() =~= Seq::<SpecDesc>::empty());
        assert(s.skip(1) =~= Seq::<SpecDesc>::empty());
        assert(s.last() == s.first());
        assert(enc_spec_descs(s) =~= enc_spec_desc(s.first()) + enc_spec_descs(s.skip(1)));
    } else {
        lemma_enc_spec_descs_front(s.drop_last());
        assert(s.drop_last().first() == s.first());
        assert(s.skip(1).drop_last() =~= s.drop_last().skip(1));
        assert(s.skip(1).last() == s.last());
        assert(enc_spec_descs(s.skip(1)) == enc_spec_descs(s.skip(1).drop_last()) + enc_spec_desc(
            s.skip(1).last(),
        ));
        assert(enc_spec_descs(s) =~= enc_spec_desc(s.first()) + enc_spec_descs(s.skip(1)));
    }
}

/// A nonempty list body is its first item's encoding followed by the
/// rest of the list body.
proof fn lemma_enc_slice_descs_front(s: Seq<SliceDesc>)
    requires
        s.len() > 0,
    ensures
        enc_slice_descs(s) == enc_slice_desc(s.first()) + enc_slice_descs(s.skip(1)),
    decreases s.len(),
{
    if s.len() == 1 {
        assert(s.drop_last() =~= Seq::<SliceDesc>::empty());
        assert(s.skip(1) =~= Seq::<SliceDesc>::empty());
        assert(s.last() == s.first());
        assert(enc_slice_descs(s) =~= enc_slice_desc(s.first()) + enc_slice_descs(s.skip(1)));
    } else {
        lemma_enc_slice_descs_front(s.drop_last());
        assert(s.drop_last().first() == s.first());
        assert(s.skip(1).drop_last() =~= s.drop_last().skip(1));
        assert(s.skip(1).last() == s.last());
        assert(enc_slice_descs(s.skip(1)) == enc_slice_descs(s.skip(1).drop_last()) + enc_slice_desc(
            s.skip(1).last(),
        ));
        assert(enc_slice_descs(s) =~= enc_slice_desc(s.first()) + enc_slice_descs(s.skip(1)));
    }
}

/// A nonempty list body is its first item's encoding followed by the
/// rest of the list body.
proof fn lemma_enc_push_descs_front(s: Seq<PushDesc>)
    requires
        s.len() > 0,
    ensures
        enc_push_descs(s) == enc_push_desc(s.first()) + enc_push_descs(s.skip(1)),
    decreases s.len(),
{
    if s.len() == 1 {
        assert(s.drop_last() =~= Seq::<PushDesc>::empty());
        assert(s.skip(1) =~= Seq::<PushDesc>::empty());
        assert(s.last() == s.first());
        assert(enc_push_descs(s) =~= enc_push_desc(s.first()) + enc_push_descs(s.skip(1)));
    } else {
        lemma_enc_push_descs_front(s.drop_last());
        assert(s.drop_last().first() == s.first());
        assert(s.skip(1).drop_last() =~= s.drop_last().skip(1));
        assert(s.skip(1).last() == s.last());
        assert(enc_push_descs(s.skip(1)) == enc_push_descs(s.skip(1).drop_last()) + enc_push_desc(
            s.skip(1).last(),
        ));
        assert(enc_push_descs(s) =~= enc_push_desc(s.first()) + enc_push_descs(s.skip(1)));
    }
}

/// Append one byte.
fn push_u8(out: &mut Vec<u8>, x: u8)
    ensures
        final(out)@ == old(out)@ + seq![x],
{
    out.push(x);
    proof {
        assert(out@ =~= old(out)@ + seq![x]);
    }
}

/// Append a flag byte.
fn push_bool(out: &mut Vec<u8>, b: bool)
    ensures
        final(out)@ == old(out)@ + enc_bool(b),
{
    if b {
        push_u8(out, 1);
    } else {
        push_u8(out, 0);
    }
}

/// Append one 32-bit scalar, little-endian.
fn push_u32(out: &mut Vec<u8>, x: u32)
    ensures
        final(out)@ == old(out)@ + enc_u32(x),
{
    let mut piece = u32_to_le_bytes(x);
    out.append(&mut piece);
}

/// Append one 64-bit scalar, little-endian.
fn push_u64(out: &mut Vec<u8>, x: u64)
    ensures
        final(out)@ == old(out)@ + enc_u64(x),
{
    let mut piece = u64_to_le_bytes(x);
    out.append(&mut piece);
}

/// Append a length-prefixed byte string.
fn push_bytes(out: &mut Vec<u8>, b: &Vec<u8>)
    requires
        b@.len() <= 0xFFFF_FFFF,
    ensures
        final(out)@ == old(out)@ + enc_bytes(b@),
{
    push_u32(out, b.len() as u32);
    let mut copy = read_range(b, 0, b.len());
    proof {
        assert(copy@ =~= b@);
    }
    out.append(&mut copy);
    proof {
        assert(out@ =~= old(out)@ + enc_bytes(b@));
    }
}

/// Append a word-list body.
fn push_u32s(out: &mut Vec<u8>, s: &Vec<u32>)
    ensures
        final(out)@ == old(out)@ + enc_u32s(s@),
{
    let mut i: usize = 0;
    while i < s.len()
        invariant
            0 <= i <= s@.len(),
            out@ == old(out)@ + enc_u32s(s@.take(i as int)),
        decreases s@.len() - i,
    {
        push_u32(out, s[i]);
        proof {
            assert(s@.take(i + 1).drop_last() =~= s@.take(i as int));
            assert(s@.take(i + 1).last() == s@[i as int]);
            assert(out@ =~= old(out)@ + enc_u32s(s@.take(i + 1)));
        }
        i += 1;
    }
    proof {
        assert(s@.take(s@.len() as int) =~= s@);
    }
}

impl KernelDesc {
    /// Serialize this descriptor into its wire form.
    #[verifier::rlimit(100)]
    pub fn to_bytes(&self) -> (r: Vec<u8>)
        requires
            self.wf(),
        ensures
            r@ == spec_desc_bytes(*self),
    {
        let mut out: Vec<u8> = Vec::new();
        push_bytes(&mut out, &self.name);
        push_u64(&mut out, self.hash);
        push_u32(&mut out, self.spirv.len() as u32);
        push_u32s(&mut out, &self.spirv);
        push_bool(&mut out, self.features.shader_int8);
        push_bool(&mut out, self.features.shader_int16);
        push_bool(&mut out, self.features.shader_int64);
        push_bool(&mut out, self.features.shader_float16);
        push_bool(&mut out, self.features.shader_float64);
        push_u32(&mut out, self.threads.len() as u32);
        push_u32s(&mut out, &self.threads);
        push_bool(&mut out, self.safe);
        proof {
            assert(out@ =~= spec_head_bytes(*self));
        }
        push_u32(&mut out, self.spec_descs.len() as u32);
        let ghost base_spec = out@;
        let mut i: usize = 0;
        while i < self.spec_descs.len()
            invariant
                0 <= i <= self.spec_descs@.len(),
                forall|j: int|
                    0 <= j < self.spec_descs@.len() ==> (#[trigger] self.spec_descs@[j]).wf(),
                out@ == base_spec + enc_spec_descs(self.spec_descs@.take(i as int)),
            decreases self.spec_descs@.len() - i,
        {
            let d = &self.spec_descs[i];
            push_bytes(&mut out, &d.name);
            push_u8(&mut out, d.scalar_type.tag());
            match &d.thread_dim {
                None => push_u8(&mut out, 0),
                Some(t) => {
                    push_u8(&mut out, 1);
                    push_u8(&mut out, *t as u8);
                },
            }
            proof {
                let s = self.spec_descs@;
                assert(s.take(i + 1).drop_last() =~= s.take(i as int));
                assert(s.take(i + 1).last() == s[i as int]);
                assert(out@ =~= base_spec + enc_spec_descs(s.take(i + 1)));
            }
            i += 1;
        }
        proof {
            assert(self.spec_descs@.take(self.spec_descs@.len() as int) =~= self.spec_descs@);
        }
        push_u32(&mut out, self.slice_descs.len() as u32);
        let ghost base_slice = out@;
        let mut i: usize = 0;
        while i < self.slice_descs.len()
            invariant
                0 <= i <= self.slice_descs@.len(),
                forall|j: int|
                    0 <= j < self.slice_descs@.len() ==> (#[trigger] self.slice_descs@[j]).wf(),
                out@ == base_slice + enc_slice_descs(self.slice_descs@.take(i as int)),
            decreases self.slice_descs@.len() - i,
        {
            let d = &self.slice_descs[i];
            push_bytes(&mut out, &d.name);
            push_u8(&mut out, d.scalar_type.tag());
            push_bool(&mut out, d.mutable);
            push_bool(&mut out, d.item);
            proof {
                let s = self.slice_descs@;
                assert(s.take(i + 1).drop_last() =~= s.take(i as int));
                assert(s.take(i + 1).last() == s[i as int]);
                assert(out@ =~= base_slice + enc_slice_descs(s.take(i + 1)));
            }
            i += 1;
        }
        proof {
            assert(self.slice_descs@.take(self.slice_descs@.len() as int) =~= self.slice_descs@);
        }
        push_u32(&mut out, self.push_descs.len() as u32);
        let ghost base_push = out@;
        let mut i: usize = 0;
        while i < self.push_descs.len()
            invariant
                0 <= i <= self.push_descs@.len(),
                forall|j: int|
                    0 <= j < self.push_descs@.len() ==> (#[trigger] self.push_descs@[j]).wf(),
                out@ == base_push + enc_push_descs(self.push_descs@.take(i as int)),
            decreases self.push_descs@.len() - i,
        {
            let d = &self.push_descs[i];
            push_bytes(&mut out, &d.name);
            push_u8(&mut out, d.scalar_type.tag());
            proof {
                let s = self.push_descs@;
                assert(s.take(i + 1).drop_last() =~= s.take(i as int));
                assert(s.take(i + 1).last() == s[i as int]);
                assert(out@ =~= base_push + enc_push_descs(s.take(i + 1)));
            }
            i += 1;
        }
        proof {
            assert(self.push_descs@.take(self.push_descs@.len() as int) =~= self.push_descs@);
            assert(out@ =~= spec_desc_bytes(*self));
        }
        out
    }
}

/// Read one byte at `pos`.
fn read_u8(bytes: &Vec<u8>, pos: usize) -> (r: Option<(u8, usize)>)
    requires
        pos <= bytes@.len(),
    ensures
        match r {
            Some(v) => {
                &&& v.1 == pos + 1
                &&& v.1 <= bytes@.len()
                &&& bytes@.subrange(pos as int, v.1 as int) == seq![v.0]
            },
            None => pos + 1 > bytes@.len(),
        },
{
    let n = bytes.len();
    if n - pos >= 1 {
        let b = bytes[pos];
        proof {
            assert(bytes@.subrange(pos as int, pos + 1) =~= seq![b]);
        }
        Some((b, pos + 1))
    } else {
        None
    }
}

/// Read one flag byte at `pos`; bytes other than zero and one are
/// rejected.
fn read_bool(bytes: &Vec<u8>, pos: usize) -> (r: Option<(bool, usize)>)
    requires
        pos <= bytes@.len(),
    ensures
        match r {
            Some(v) => {
                &&& v.1 == pos + 1
                &&& v.1 <= bytes@.len()
                &&& bytes@.subrange(pos as int, v.1 as int) == enc_bool(v.0)
            },
            None => pos + 1 > bytes@.len() || bytes@[pos as int] > 1,
        },
{
    match read_u8(bytes, pos) {
        Some((b, p)) => {
            proof {
                assert(bytes@.subrange(pos as int, pos + 1)[0] == b);
            }
            if b == 0 {
                Some((false, p))
            } else if b == 1 {
                Some((true, p))
            } else {
                None
            }
        },
        None => None,
    }
}

/// Read one scalar-type tag byte at `pos`.
fn read_tag(bytes: &Vec<u8>, pos: usize) -> (r: Option<(ScalarType, usize)>)
    requires
        pos <= bytes@.len(),
    ensures
        match r {
            Some(v) => {
                &&& v.1 == pos + 1
                &&& v.1 <= bytes@.len()
                &&& bytes@.subrange(pos as int, v.1 as int) == seq![v.0.spec_tag()]
            },
            None => pos + 1 > bytes@.len() || bytes@[pos as int] > 11,
        },
{
    match read_u8(bytes, pos) {
        Some((t, p)) => {
            proof {
                assert(bytes@.subrange(pos as int, pos + 1)[0] == t);
            }
            match ScalarType::from_tag(t) {
                Some(st) => Some((st, p)),
                None => None,
            }
        },
        None => None,
    }
}

/// Read one 32-bit little-endian scalar at `pos`.
fn read_u32(bytes: &Vec<u8>, pos: usize) -> (r: Option<(u32, usize)>)
    requires
        pos <= bytes@.len(),
    ensures
        match r {
            Some(v) => {
                &&& v.1 == pos + 4
                &&& v.1 <= bytes@.len()
                &&& bytes@.subrange(pos as int, v.1 as int) == enc_u32(v.0)
            },
            None => pos + 4 > bytes@.len(),
        },
{
    let n = bytes.len();
    if n - pos >= 4 {
        let window = slice_subrange(bytes.as_slice(), pos, pos + 4);
        let x = u32_from_le_bytes(window);
        proof {
            lemma_auto_spec_u32_to_from_le_bytes();
            assert(enc_u32(x) == bytes@.subrange(pos as int, pos + 4));
        }
        Some((x, pos + 4))
    } else {
        None
    }
}

/// Read one 64-bit little-endian scalar at `pos`.
fn read_u64(bytes: &Vec<u8>, pos: usize) -> (r: Option<(u64, usize)>)
    requires
        pos <= bytes@.len(),
    ensures
        match r {
            Some(v) => {
                &&& v.1 == pos + 8
                &&& v.1 <= bytes@.len()
                &&& bytes@.subrange(pos as int, v.1 as int) == enc_u64(v.0)
            },
            None => pos + 8 > bytes@.len(),
        },
{
    let n = bytes.len();
    if n - pos >= 8 {
        let window = slice_subrange(bytes.as_slice(), pos, pos + 8);
        let x = u64_from_le_bytes(window);
        proof {
            lemma_auto_spec_u64_to_from_le_bytes();
            assert(enc_u64(x) == bytes@.subrange(pos as int, pos + 8));
        }
        Some((x, pos + 8))
    } else {
        None
    }
}

/// Read one length-prefixed byte string at `pos`.
fn read_name(bytes: &Vec<u8>, pos: usize) -> (r: Option<(Vec<u8>, usize)>)
    requires
        pos <= bytes@.len(),
    ensures
        match r {
            Some(v) => {
                &&& v.1 <= bytes@.len()
                &&& v.0@.len() <= 0xFFFF_FFFF
                &&& v.1 == pos + 4 + v.0@.len()
                &&& bytes@.subrange(pos as int, v.1 as int) == enc_bytes(v.0@)
            },
            None => pos + 4 > bytes@.len() || pos + 4 + spec_u32_from_le_bytes(
                bytes@.subrange(pos as int, pos + 4),
            ) > bytes@.len(),
        },
{
    let total = bytes.len();
    match read_u32(bytes, pos) {
        Some((n, p)) => {
            proof {
                lemma_auto_spec_u32_to_from_le_bytes();
                assert(spec_u32_to_le_bytes(n).len() == 4);
                assert(spec_u32_from_le_bytes(spec_u32_to_le_bytes(n)) == n);
                assert(spec_u32_from_le_bytes(bytes@.subrange(pos as int, pos + 4)) == n);
            }
            let count = n as usize;
            if total - p >= count {
                let name = read_range(bytes, p, count);
                proof {
                    assert(name@ =~= bytes@.subrange(p as int, p + count));
                    assert(bytes@.subrange(pos as int, (p + count) as int) =~= enc_u32(n) + name@);
                    assert(name@.len() as u32 == n);
                }
                Some((name, p + count))
            } else {
                None
            }
        },
        None => None,
    }
}

/// Read `n` 32-bit little-endian words at `pos`.
fn read_u32s(bytes: &Vec<u8>, pos: usize, n: usize) -> (r: Option<(Vec<u32>, usize)>)
    requires
        pos <= bytes@.len(),
    ensures
        match r {
            Some(v) => {
                &&& pos <= v.1 <= bytes@.len()
                &&& v.0@.len() == n
                &&& v.1 == pos + 4 * n
                &&& bytes@.subrange(pos as int, v.1 as int) == enc_u32s(v.0@)
            },
            None => pos + 4 * n > bytes@.len(),
        },
{
    let mut out: Vec<u32> = Vec::new();
    let mut cur = pos;
    let mut i: usize = 0;
    while i < n
        invariant
            0 <= i <= n,
            out@.len() == i,
            pos <= cur <= bytes@.len(),
            cur == pos + 4 * i,
            bytes@.subrange(pos as int, cur as int) == enc_u32s(out@),
        decreases n - i,
    {
        match read_u32(bytes, cur) {
            Some((x, p)) => {
                let ghost prev = out@;
                out.push(x);
                proof {
                    assert(out@.drop_last() =~= prev);
                    assert(bytes@.subrange(pos as int, p as int) =~= bytes@.subrange(
                        pos as int,
                        cur as int,
                    ) + bytes@.subrange(cur as int, p as int));
                    assert(bytes@.subrange(pos as int, p as int) =~= enc_u32s(out@));
                }
                cur = p;
            },
            None => {
                return None;
            },
        }
        i += 1;
    }
    Some((out, cur))
}

/// Each byte of a piece present at `pos` appears at its offset.
proof fn lemma_enc_at_byte(piece: Seq<u8>, b: Seq<u8>, pos: int, j: int)
    requires
        enc_at(piece, b, pos),
        0 <= j < piece.len(),
    ensures
        b[pos + j] == piece[j],
{
    assert(b.subrange(pos, pos + piece.len())[j] == piece[j]);
}

/// When a length-prefixed byte string's encoding (followed by anything)
/// is present at `pos`, the length prefix reads back as the string's
/// length, and the whole string is in bounds.
proof fn lemma_name_at(n: Seq<u8>, tail: Seq<u8>, b: Seq<u8>, pos: int)
    requires
        n.len() <= 0xFFFF_FFFF,
        enc_at(enc_bytes(n) + tail, b, pos),
    ensures
        pos + 4 <= b.len(),
        b.subrange(pos, pos + 4) == enc_u32(n.len() as u32),
        spec_u32_from_le_bytes(b.subrange(pos, pos + 4)) == n.len(),
        pos + 4 + n.len() <= b.len(),
{
    lemma_auto_spec_u32_to_from_le_bytes();
    let piece = enc_bytes(n) + tail;
    assert(enc_u32(n.len() as u32).len() == 4);
    assert(b.subrange(pos, pos + 4) =~= piece.subrange(0, 4));
    assert(piece.subrange(0, 4) =~= enc_u32(n.len() as u32));
    assert(spec_u32_from_le_bytes(spec_u32_to_le_bytes(n.len() as u32)) == n.len() as u32);
}

/// A parsed length-prefixed string at the position of an encoded one has
/// the encoded one's length, so parsing ends where the encoding ends.
proof fn lemma_name_len_eq(parsed: Seq<u8>, encoded: Seq<u8>, tail: Seq<u8>, b: Seq<u8>, pos: int)
    requires
        parsed.len() <= 0xFFFF_FFFF,
        encoded.len() <= 0xFFFF_FFFF,
        enc_at(enc_bytes(parsed), b, pos),
        enc_at(enc_bytes(encoded) + tail, b, pos),
    ensures
        parsed.len() == encoded.len(),
{
    lemma_auto_spec_u32_to_from_le_bytes();
    assert(enc_u32(parsed.len() as u32).len() == 4);
    assert(enc_u32(encoded.len() as u32).len() == 4);
    assert(b.subrange(pos, pos + 4) =~= enc_bytes(parsed).subrange(0, 4));
    assert(enc_bytes(parsed).subrange(0, 4) =~= enc_u32(parsed.len() as u32));
    lemma_name_at(encoded, tail, b, pos);
    lemma_enc_u32_inj(parsed.len() as u32, encoded.len() as u32);
}

/// Any sub-slice of a piece present at `pos` appears at its offset.
proof fn lemma_enc_at_sub(piece: Seq<u8>, b: Seq<u8>, pos: int, i: int, j: int)
    requires
        enc_at(piece, b, pos),
        0 <= i <= j <= piece.len(),
    ensures
        b.subrange(pos + i, pos + j) == piece.subrange(i, j),
{
    assert forall|m: int| 0 <= m < piece.len() implies b[pos + m] == piece[m] by {
        assert(b.subrange(pos, pos + piece.len())[m] == piece[m]);
    }
    assert(b.subrange(pos + i, pos + j) =~= piece.subrange(i, j));
}

/// Read one specialization-constant descriptor at `pos`.
fn read_spec_desc(bytes: &Vec<u8>, pos: usize, Ghost(cand): Ghost<Option<SpecDesc>>) -> (r:
    Option<(SpecDesc, usize)>)
    requires
        pos <= bytes@.len(),
        cand matches Some(d) ==> d.wf() && enc_at(enc_spec_desc(d), bytes@, pos as int),
    ensures
        match r {
            Some(v) => {
                &&& pos <= v.1 <= bytes@.len()
                &&& v.0.wf()
                &&& bytes@.subrange(pos as int, v.1 as int) == enc_spec_desc(v.0)
            },
            None => true,
        },
        cand matches Some(d) ==> r is Some && r.unwrap().1 == pos + enc_spec_desc(d).len(),
{
    proof {
        if let Some(d) = cand {
            let dimpart: Seq<u8> = match d.thread_dim {
                None => seq![0u8],
                Some(t) => seq![1u8, t as u8],
            };
            assert(enc_bytes(d.name@) + (seq![d.scalar_type.spec_tag()] + dimpart)
                =~= enc_spec_desc(d));
            lemma_name_at(d.name@, seq![d.scalar_type.spec_tag()] + dimpart, bytes@, pos as int);
        }
    }
    let (name, p1) = match read_name(bytes, pos) {
        Some(v) => v,
        None => {
            proof {
                if let Some(d) = cand {
                    assert(false);
                }
            }
            return None;
        },
    };
    proof {
        if let Some(d) = cand {
            let dimpart: Seq<u8> = match d.thread_dim {
                None => seq![0u8],
                Some(t) => seq![1u8, t as u8],
            };
            assert(enc_bytes(d.name@) + (seq![d.scalar_type.spec_tag()] + dimpart)
                =~= enc_spec_desc(d));
            lemma_name_len_eq(
                name@,
                d.name@,
                seq![d.scalar_type.spec_tag()] + dimpart,
                bytes@,
                pos as int,
            );
            assert(p1 == pos + 4 + d.name@.len());
            lemma_enc_at_byte(enc_spec_desc(d), bytes@, pos as int, 4 + d.name@.len() as int);
            assert(enc_spec_desc(d)[4 + d.name@.len() as int] == d.scalar_type.spec_tag());
            assert(bytes@[p1 as int] == d.scalar_type.spec_tag());
            assert(d.scalar_type.spec_tag() <= 11);
        }
    }
    let (st, p2) = match read_tag(bytes, p1) {
        Some(v) => v,
        None => {
            proof {
                if let Some(d) = cand {
                    assert(false);
                }
            }
            return None;
        },
    };
    proof {
        if let Some(d) = cand {
            lemma_enc_at_byte(enc_spec_desc(d), bytes@, pos as int, 5 + d.name@.len() as int);
            assert(bytes@[p2 as int] == (match d.thread_dim {
                None => 0u8,
                Some(t) => 1u8,
            }));
        }
    }
    let (flag, p3) = match read_u8(bytes, p2) {
        Some(v) => v,
        None => {
            proof {
                if let Some(d) = cand {
                    assert(false);
                }
            }
            return None;
        },
    };
    proof {
        assert(bytes@.subrange(p2 as int, p3 as int)[0] == flag);
    }
    if flag == 0 {
        let d = SpecDesc { name, scalar_type: st, thread_dim: None };
        proof {
            assert(bytes@.subrange(pos as int, p3 as int) =~= enc_spec_desc(d));
            if let Some(c) = cand {
                assert(c.thread_dim is None);
                assert(p3 == pos + enc_spec_desc(c).len());
            }
        }
        Some((d, p3))
    } else if flag == 1 {
        proof {
            if let Some(c) = cand {
                assert(c.thread_dim is Some);
                lemma_enc_at_byte(enc_spec_desc(c), bytes@, pos as int, 6 + c.name@.len() as int);
                assert(bytes@[p3 as int] == (c.thread_dim.unwrap() as u8));
            }
        }
        let (dim, p4) = match read_u8(bytes, p3) {
            Some(v) => v,
            None => {
                proof {
                    if let Some(c) = cand {
                        assert(false);
                    }
                }
                return None;
            },
        };
        proof {
            assert(bytes@.subrange(p3 as int, p4 as int)[0] == dim);
        }
        if dim < 3 {
            let d = SpecDesc { name, scalar_type: st, thread_dim: Some(dim as usize) };
            proof {
                assert(bytes@.subrange(p2 as int, p4 as int) =~= bytes@.subrange(
                    p2 as int,
                    p3 as int,
                ) + bytes@.subrange(p3 as int, p4 as int));
                assert(bytes@.subrange(p2 as int, p4 as int) =~= seq![1u8, dim]);
                assert(bytes@.subrange(pos as int, p4 as int) =~= enc_spec_desc(d));
                if let Some(c) = cand {
                    assert(p4 == pos + enc_spec_desc(c).len());
                }
            }
            Some((d, p4))
        } else {
            proof {
                if let Some(c) = cand {
                    assert(dim == c.thread_dim.unwrap() as u8);
                    assert(false);
                }
            }
            None
        }
    } else {
        proof {
            if let Some(c) = cand {
                assert(false);
            }
        }
        None
    }
}

/// Read one slice descriptor at `pos`.
fn read_slice_desc(bytes: &Vec<u8>, pos: usize, Ghost(cand): Ghost<Option<SliceDesc>>) -> (r:
    Option<(SliceDesc, usize)>)
    requires
        pos <= bytes@.len(),
        cand matches Some(d) ==> d.wf() && enc_at(enc_slice_desc(d), bytes@, pos as int),
    ensures
        match r {
            Some(v) => {
                &&& pos <= v.1 <= bytes@.len()
                &&& v.0.wf()
                &&& bytes@.subrange(pos as int, v.1 as int) == enc_slice_desc(v.0)
            },
            None => true,
        },
        cand matches Some(d) ==> r is Some && r.unwrap().1 == pos + enc_slice_desc(d).len(),
{
    proof {
        if let Some(d) = cand {
            assert(enc_bytes(d.name@) + (seq![d.scalar_type.spec_tag()] + enc_bool(d.mutable)
                + enc_bool(d.item)) =~= enc_slice_desc(d));
            lemma_name_at(
                d.name@,
                seq![d.scalar_type.spec_tag()] + enc_bool(d.mutable) + enc_bool(d.item),
                bytes@,
                pos as int,
            );
        }
    }
    let (name, p1) = match read_name(bytes, pos) {
        Some(v) => v,
        None => {
            proof {
                if let Some(d) = cand {
                    assert(false);
                }
            }
            return None;
        },
    };
    proof {
        if let Some(d) = cand {
            assert(enc_bytes(d.name@) + (seq![d.scalar_type.spec_tag()] + enc_bool(d.mutable)
                + enc_bool(d.item)) =~= enc_slice_desc(d));
            lemma_name_len_eq(
                name@,
                d.name@,
                seq![d.scalar_type.spec_tag()] + enc_bool(d.mutable) + enc_bool(d.item),
                bytes@,
                pos as int,
            );
            assert(p1 == pos + 4 + d.name@.len());
            lemma_enc_at_byte(enc_slice_desc(d), bytes@, pos as int, 4 + d.name@.len() as int);
            assert(enc_slice_desc(d)[4 + d.name@.len() as int] == d.scalar_type.spec_tag());
            assert(d.scalar_type.spec_tag() <= 11);
        }
    }
    let (st, p2) = match read_tag(bytes, p1) {
        Some(v) => v,
        None => {
            proof {
                if let Some(d) = cand {
                    assert(false);
                }
            }
            return None;
        },
    };
    proof {
        if let Some(d) = cand {
            lemma_enc_at_byte(enc_slice_desc(d), bytes@, pos as int, 5 + d.name@.len() as int);
            assert(bytes@[p2 as int] == (if d.mutable {
                1u8
            } else {
                0u8
            }));
        }
    }
    let (mutable, p3) = match read_bool(bytes, p2) {
        Some(v) => v,
        None => {
            proof {
                if let Some(d) = cand {
                    assert(false);
                }
            }
            return None;
        },
    };
    proof {
        if let Some(d) = cand {
            lemma_enc_at_byte(enc_slice_desc(d), bytes@, pos as int, 6 + d.name@.len() as int);
            assert(bytes@[p3 as int] == (if d.item {
                1u8
            } else {
                0u8
            }));
        }
    }
    let (item, p4) = match read_bool(bytes, p3) {
        Some(v) => v,
        None => {
            proof {
                if let Some(d) = cand {
                    assert(false);
                }
            }
            return None;
        },
    };
    let d = SliceDesc { name, scalar_type: st, mutable, item };
    proof {
        assert(bytes@.subrange(pos as int, p4 as int) =~= enc_slice_desc(d));
        if let Some(c) = cand {
            assert(p4 == pos + enc_slice_desc(c).len());
        }
    }
    Some((d, p4))
}

/// Read one push-constant descriptor at `pos`.
fn read_push_desc(bytes: &Vec<u8>, pos: usize, Ghost(cand): Ghost<Option<PushDesc>>) -> (r:
    Option<(PushDesc, usize)>)
    requires
        pos <= bytes@.len(),
        cand matches Some(d) ==> d.wf() && enc_at(enc_push_desc(d), bytes@, pos as int),
    ensures
        match r {
            Some(v) => {
                &&& pos <= v.1 <= bytes@.len()
                &&& v.0.wf()
                &&& bytes@.subrange(pos as int, v.1 as int) == enc_push_desc(v.0)
            },
            None => true,
        },
        cand matches Some(d) ==> r is Some && r.unwrap().1 == pos + enc_push_desc(d).len(),
{
    proof {
        if let Some(d) = cand {
            assert(enc_bytes(d.name@) + seq![d.scalar_type.spec_tag()] =~= enc_push_desc(d));
            lemma_name_at(d.name@, seq![d.scalar_type.spec_tag()], bytes@, pos as int);
        }
    }
    let (name, p1) = match read_name(bytes, pos) {
        Some(v) => v,
        None => {
            proof {
                if let Some(d) = cand {
                    assert(false);
                }
            }
            return None;
        },
    };
    proof {
        if let Some(d) = cand {
            assert(enc_bytes(d.name@) + seq![d.scalar_type.spec_tag()] =~= enc_push_desc(d));
            lemma_name_len_eq(
                name@,
                d.name@,
                seq![d.scalar_type.spec_tag()],
                bytes@,
                pos as int,
            );
            assert(p1 == pos + 4 + d.name@.len());
            lemma_enc_at_byte(enc_push_desc(d), bytes@, pos as int, 4 + d.name@.len() as int);
            assert(enc_push_desc(d)[4 + d.name@.len() as int] == d.scalar_type.spec_tag());
            assert(d.scalar_type.spec_tag() <= 11);
        }
    }
    let (st, p2) = match read_tag(bytes, p1) {
        Some(v) => v,
        None => {
            proof {
                if let Some(d) = cand {
                    assert(false);
                }
            }
            return None;
        },
    };
    let d = PushDesc { name, scalar_type: st };
    proof {
        assert(bytes@.subrange(pos as int, p2 as int) =~= enc_push_desc(d));
        if let Some(c) = cand {
            assert(p2 == pos + enc_push_desc(c).len());
        }
    }
    Some((d, p2))
}

/// Read `n` specialization-constant descriptors at `pos`.
fn read_spec_descs(
    bytes: &Vec<u8>,
    pos: usize,
    n: usize,
    Ghost(cand): Ghost<Option<Seq<SpecDesc>>>,
) -> (r: Option<(Vec<SpecDesc>, usize)>)
    requires
        pos <= bytes@.len(),
        cand matches Some(s) ==> {
            &&& s.len() == n
            &&& forall|i: int| 0 <= i < s.len() ==> (#[trigger] s[i]).wf()
            &&& enc_at(enc_spec_descs(s), bytes@, pos as int)
        },
    ensures
        match r {
            Some(v) => {
                &&& pos <= v.1 <= bytes@.len()
                &&& v.0@.len() == n
                &&& forall|i: int| 0 <= i < v.0@.len() ==> (#[trigger] v.0@[i]).wf()
                &&& bytes@.subrange(pos as int, v.1 as int) == enc_spec_descs(v.0@)
            },
            None => true,
        },
        cand matches Some(s) ==> r is Some && r.unwrap().1 == pos + enc_spec_descs(s).len(),
{
    let mut out: Vec<SpecDesc> = Vec::new();
    let mut cur = pos;
    let mut i: usize = 0;
    proof {
        if let Some(s) = cand {
            assert(s.skip(0) =~= s);
        }
    }
    while i < n
        invariant
            0 <= i <= n,
            out@.len() == i,
            pos <= cur <= bytes@.len(),
            forall|j: int| 0 <= j < out@.len() ==> (#[trigger] out@[j]).wf(),
            bytes@.subrange(pos as int, cur as int) == enc_spec_descs(out@),
            cand matches Some(s) ==> {
                &&& s.len() == n
                &&& forall|j: int| 0 <= j < s.len() ==> (#[trigger] s[j]).wf()
                &&& enc_at(enc_spec_descs(s.skip(i as int)), bytes@, cur as int)
                &&& cur + enc_spec_descs(s.skip(i as int)).len() == pos + enc_spec_descs(s).len()
            },
        decreases n - i,
    {
        let ghost item_cand: Option<SpecDesc> = match cand {
            Some(s) => Some(s[i as int]),
            None => None,
        };
        proof {
            if let Some(s) = cand {
                let rest = s.skip(i as int);
                lemma_enc_spec_descs_front(rest);
                assert(rest.first() == s[i as int]);
                assert(rest.skip(1) =~= s.skip(i + 1));
                let ilen = enc_spec_desc(s[i as int]).len() as int;
                let whole = enc_spec_descs(rest);
                assert(bytes@.subrange(cur as int, cur + ilen) =~= bytes@.subrange(
                    cur as int,
                    cur + whole.len(),
                ).subrange(0, ilen));
                assert(whole.subrange(0, ilen) =~= enc_spec_desc(s[i as int]));
                assert(bytes@.subrange(cur + ilen, cur + whole.len()) =~= bytes@.subrange(
                    cur as int,
                    cur + whole.len(),
                ).subrange(ilen, whole.len() as int));
                assert(whole.subrange(ilen, whole.len() as int) =~= enc_spec_descs(s.skip(i + 1)));
                assert(enc_at(enc_spec_desc(s[i as int]), bytes@, cur as int));
                assert(enc_at(enc_spec_descs(s.skip(i + 1)), bytes@, cur + ilen));
            }
        }
        match read_spec_desc(bytes, cur, Ghost(item_cand)) {
            Some((d, p)) => {
                let ghost prev = out@;
                out.push(d);
                proof {
                    assert(out@.drop_last() =~= prev);
                    assert(bytes@.subrange(pos as int, p as int) =~= bytes@.subrange(
                        pos as int,
                        cur as int,
                    ) + bytes@.subrange(cur as int, p as int));
                    assert(bytes@.subrange(pos as int, p as int) =~= enc_spec_descs(out@));
                }
                cur = p;
            },
            None => {
                proof {
                    if let Some(s) = cand {
                        assert(false);
                    }
                }
                return None;
            },
        }
        i += 1;
    }
    proof {
        if let Some(s) = cand {
            assert(s.skip(n as int) =~= Seq::<SpecDesc>::empty());
        }
    }
    Some((out, cur))
}

/// Read `n` slice descriptors at `pos`.
fn read_slice_descs(
    bytes: &Vec<u8>,
    pos: usize,
    n: usize,
    Ghost(cand): Ghost<Option<Seq<SliceDesc>>>,
) -> (r: Option<(Vec<SliceDesc>, usize)>)
    requires
        pos <= bytes@.len(),
        cand matches Some(s) ==> {
            &&& s.len() == n
            &&& forall|i: int| 0 <= i < s.len() ==> (#[trigger] s[i]).wf()
            &&& enc_at(enc_slice_descs(s), bytes@, pos as int)
        },
    ensures
        match r {
            Some(v) => {
                &&& pos <= v.1 <= bytes@.len()
                &&& v.0@.len() == n
                &&& forall|i: int| 0 <= i < v.0@.len() ==> (#[trigger] v.0@[i]).wf()
                &&& bytes@.subrange(pos as int, v.1 as int) == enc_slice_descs(v.0@)
            },
            None => true,
        },
        cand matches Some(s) ==> r is Some && r.unwrap().1 == pos + enc_slice_descs(s).len(),
{
    let mut out: Vec<SliceDesc> = Vec::new();
    let mut cur = pos;
    let mut i: usize = 0;
    proof {
        if let Some(s) = cand {
            assert(s.skip(0) =~= s);
        }
    }
    while i < n
        invariant
            0 <= i <= n,
            out@.len() == i,
            pos <= cur <= bytes@.len(),
            forall|j: int| 0 <= j < out@.len() ==> (#[trigger] out@[j]).wf(),
            bytes@.subrange(pos as int, cur as int) == enc_slice_descs(out@),
            cand matches Some(s) ==> {
                &&& s.len() == n
                &&& forall|j: int| 0 <= j < s.len() ==> (#[trigger] s[j]).wf()
                &&& enc_at(enc_slice_descs(s.skip(i as int)), bytes@, cur as int)
                &&& cur + enc_slice_descs(s.skip(i as int)).len() == pos + enc_slice_descs(s).len()
            },
        decreases n - i,
    {
        let ghost item_cand: Option<SliceDesc> = match cand {
            Some(s) => Some(s[i as int]),
            None => None,
        };
        proof {
            if let Some(s) = cand {
                let rest = s.skip(i as int);
                lemma_enc_slice_descs_front(rest);
                assert(rest.first() == s[i as int]);
                assert(rest.skip(1) =~= s.skip(i + 1));
                let ilen = enc_slice_desc(s[i as int]).len() as int;
                let whole = enc_slice_descs(rest);
                assert(bytes@.subrange(cur as int, cur + ilen) =~= bytes@.subrange(
                    cur as int,
                    cur + whole.len(),
                ).subrange(0, ilen));
                assert(whole.subrange(0, ilen) =~= enc_slice_desc(s[i as int]));
                assert(bytes@.subrange(cur + ilen, cur + whole.len()) =~= bytes@.subrange(
                    cur as int,
                    cur + whole.len(),
                ).subrange(ilen, whole.len() as int));
                assert(whole.subrange(ilen, whole.len() as int) =~= enc_slice_descs(s.skip(i + 1)));
                assert(enc_at(enc_slice_desc(s[i as int]), bytes@, cur as int));
                assert(enc_at(enc_slice_descs(s.skip(i + 1)), bytes@, cur + ilen));
            }
        }
        match read_slice_desc(bytes, cur, Ghost(item_cand)) {
            Some((d, p)) => {
                let ghost prev = out@;
                out.push(d);
                proof {
                    assert(out@.drop_last() =~= prev);
                    assert(bytes@.subrange(pos as int, p as int) =~= bytes@.subrange(
                        pos as int,
                        cur as int,
                    ) + bytes@.subrange(cur as int, p as int));
                    assert(bytes@.subrange(pos as int, p as int) =~= enc_slice_descs(out@));
                }
                cur = p;
            },
            None => {
                proof {
                    if let Some(s) = cand {
                        assert(false);
                    }
                }
                return None;
            },
        }
        i += 1;
    }
    proof {
        if let Some(s) = cand {
            assert(s.skip(n as int) =~= Seq::<SliceDesc>::empty());
        }
    }
    Some((out, cur))
}

/// Read `n` push-constant descriptors at `pos`.
fn read_push_descs(
    bytes: &Vec<u8>,
    pos: usize,
    n: usize,
    Ghost(cand): Ghost<Option<Seq<PushDesc>>>,
) -> (r: Option<(Vec<PushDesc>, usize)>)
    requires
        pos <= bytes@.len(),
        cand matches Some(s) ==> {
            &&& s.len() == n
            &&& forall|i: int| 0 <= i < s.len() ==> (#[trigger] s[i]).wf()
            &&& enc_at(enc_push_descs(s), bytes@, pos as int)
        },
    ensures
        match r {
            Some(v) => {
                &&& pos <= v.1 <= bytes@.len()
                &&& v.0@.len() == n
                &&& forall|i: int| 0 <= i < v.0@.len() ==> (#[trigger] v.0@[i]).wf()
                &&& bytes@.subrange(pos as int, v.1 as int) == enc_push_descs(v.0@)
            },
            None => true,
        },
        cand matches Some(s) ==> r is Some && r.unwrap().1 == pos + enc_push_descs(s).len(),
{
    let mut out: Vec<PushDesc> = Vec::new();
    let mut cur = pos;
    let mut i: usize = 0;
    proof {
        if let Some(s) = cand {
            assert(s.skip(0) =~= s);
        }
    }
    while i < n
        invariant
            0 <= i <= n,
            out@.len() == i,
            pos <= cur <= bytes@.len(),
            forall|j: int| 0 <= j < out@.len() ==> (#[trigger] out@[j]).wf(),
            bytes@.subrange(pos as int, cur as int) == enc_push_descs(out@),
            cand matches Some(s) ==> {
                &&& s.len() == n
                &&& forall|j: int| 0 <= j < s.len() ==> (#[trigger] s[j]).wf()
                &&& enc_at(enc_push_descs(s.skip(i as int)), bytes@, cur as int)
                &&& cur + enc_push_descs(s.skip(i as int)).len() == pos + enc_push_descs(s).len()
            },
        decreases n - i,
    {
        let ghost item_cand: Option<PushDesc> = match cand {
            Some(s) => Some(s[i as int]),
            None => None,
        };
        proof {
            if let Some(s) = cand {
                let rest = s.skip(i as int);
                lemma_enc_push_descs_front(rest);
                assert(rest.first() == s[i as int]);
                assert(rest.skip(1) =~= s.skip(i + 1));
                let ilen = enc_push_desc(s[i as int]).len() as int;
                let whole = enc_push_descs(rest);
                assert(bytes@.subrange(cur as int, cur + ilen) =~= bytes@.subrange(
                    cur as int,
                    cur + whole.len(),
                ).subrange(0, ilen));
                assert(whole.subrange(0, ilen) =~= enc_push_desc(s[i as int]));
                assert(bytes@.subrange(cur + ilen, cur + whole.len()) =~= bytes@.subrange(
                    cur as int,
                    cur + whole.len(),
                ).subrange(ilen, whole.len() as int));
                assert(whole.subrange(ilen, whole.len() as int) =~= enc_push_descs(s.skip(i + 1)));
                assert(enc_at(enc_push_desc(s[i as int]), bytes@, cur as int));
                assert(enc_at(enc_push_descs(s.skip(i + 1)), bytes@, cur + ilen));
            }
        }
        match read_push_desc(bytes, cur, Ghost(item_cand)) {
            Some((d, p)) => {
                let ghost prev = out@;
                out.push(d);
                proof {
                    assert(out@.drop_last() =~= prev);
                    assert(bytes@.subrange(pos as int, p as int) =~= bytes@.subrange(
                        pos as int,
                        cur as int,
                    ) + bytes@.subrange(cur as int, p as int));
                    assert(bytes@.subrange(pos as int, p as int) =~= enc_push_descs(out@));
                }
                cur = p;
            },
            None => {
                proof {
                    if let Some(s) = cand {
                        assert(false);
                    }
                }
                return None;
            },
        }
        i += 1;
    }
    proof {
        if let Some(s) = cand {
            assert(s.skip(n as int) =~= Seq::<PushDesc>::empty());
        }
    }
    Some((out, cur))
}

/// Where each field of a descriptor's scalar head sits in its wire
/// form: the pieces in schema order, at cumulative offsets.
#[verifier::spinoff_prover]
#[verifier::rlimit(100)]
proof fn lemma_head_pieces(d: KernelDesc)
    requires
        d.wf(),
    ensures
        ({
            let n0 = d.name@.len() as int;
            let sl = d.spirv@.len() as int;
            let tl = d.threads@.len() as int;
            let h = spec_head_bytes(d);
            &&& h.len() == 4 + n0 + 8 + 4 + 4 * sl + 5 + 4 + 4 * tl + 1
            &&& h.subrange(0, 4 + n0) == enc_bytes(d.name@)
            &&& h.subrange(4 + n0, 12 + n0) == enc_u64(d.hash)
            &&& h.subrange(12 + n0, 16 + n0) == enc_u32(d.spirv@.len() as u32)
            &&& h.subrange(16 + n0, 16 + n0 + 4 * sl) == enc_u32s(d.spirv@)
            &&& h.subrange(16 + n0 + 4 * sl, 17 + n0 + 4 * sl) == enc_bool(
                d.features.shader_int8,
            )
            &&& h.subrange(17 + n0 + 4 * sl, 18 + n0 + 4 * sl) == enc_bool(
                d.features.shader_int16,
            )
            &&& h.subrange(18 + n0 + 4 * sl, 19 + n0 + 4 * sl) == enc_bool(
                d.features.shader_int64,
            )
            &&& h.subrange(19 + n0 + 4 * sl, 20 + n0 + 4 * sl) == enc_bool(
                d.features.shader_float16,
            )
            &&& h.subrange(20 + n0 + 4 * sl, 21 + n0 + 4 * sl) == enc_bool(
                d.features.shader_float64,
            )
            &&& h.subrange(21 + n0 + 4 * sl, 25 + n0 + 4 * sl) == enc_u32(
                d.threads@.len() as u32,
            )
            &&& h.subrange(25 + n0 + 4 * sl, 25 + n0 + 4 * sl + 4 * tl) == enc_u32s(d.threads@)
            &&& h.subrange(25 + n0 + 4 * sl + 4 * tl, 26 + n0 + 4 * sl + 4 * tl) == enc_bool(
                d.safe,
            )
        }),
{
    lemma_auto_spec_u32_to_from_le_bytes();
    lemma_auto_spec_u64_to_from_le_bytes();
    lemma_enc_u32s_len(d.spirv@);
    lemma_enc_u32s_len(d.threads@);
    let a1 = enc_bytes(d.name@);
    let a2 = enc_u64(d.hash);
    let a3 = enc_u32(d.spirv@.len() as u32);
    let a4 = enc_u32s(d.spirv@);
    let a5 = enc_bool(d.features.shader_int8);
    let a6 = enc_bool(d.features.shader_int16);
    let a7 = enc_bool(d.features.shader_int64);
    let a8 = enc_bool(d.features.shader_float16);
    let a9 = enc_bool(d.features.shader_float64);
    let a10 = enc_u32(d.threads@.len() as u32);
    let a11 = enc_u32s(d.threads@);
    let a12 = enc_bool(d.safe);
    let g1 = a1;
    let g2 = g1 + a2;
    let g3 = g2 + a3;
    let g4 = g3 + a4;
    let g5 = g4 + a5;
    let g6 = g5 + a6;
    let g7 = g6 + a7;
    let g8 = g7 + a8;
    let g9 = g8 + a9;
    let g10 = g9 + a10;
    let g11 = g10 + a11;
    let g12 = g11 + a12;
    let h = spec_head_bytes(d);
    assert(h =~= g12);
    assert(g12.subrange(0, g11.len() as int) =~= g11);
    assert(g12.subrange(g11.len() as int, g12.len() as int) =~= a12);
    assert(g11.subrange(0, g10.len() as int) =~= g10);
    assert(g11.subrange(g10.len() as int, g11.len() as int) =~= a11);
    assert(g10.subrange(0, g9.len() as int) =~= g9);
    assert(g10.subrange(g9.len() as int, g10.len() as int) =~= a10);
    assert(g9.subrange(0, g8.len() as int) =~= g8);
    assert(g9.subrange(g8.len() as int, g9.len() as int) =~= a9);
    assert(g8.subrange(0, g7.len() as int) =~= g7);
    assert(g8.subrange(g7.len() as int, g8.len() as int) =~= a8);
    assert(g7.subrange(0, g6.len() as int) =~= g6);
    assert(g7.subrange(g6.len() as int, g7.len() as int) =~= a7);
    assert(g6.subrange(0, g5.len() as int) =~= g5);
    assert(g6.subrange(g5.len() as int, g6.len() as int) =~= a6);
    assert(g5.subrange(0, g4.len() as int) =~= g4);
    assert(g5.subrange(g4.len() as int, g5.len() as int) =~= a5);
    assert(g4.subrange(0, g3.len() as int) =~= g3);
    assert(g4.subrange(g3.len() as int, g4.len() as int) =~= a4);
    assert(g3.subrange(0, g2.len() as int) =~= g2);
    assert(g3.subrange(g2.len() as int, g3.len() as int) =~= a3);
    assert(g2.subrange(0, g1.len() as int) =~= g1);
    assert(g2.subrange(g1.len() as int, g2.len() as int) =~= a2);
    lemma_sub_of_prefix(g12, g11, a12);
    lemma_sub_of_prefix(g11, g10, a11);
    lemma_sub_of_prefix(g10, g9, a10);
    lemma_sub_of_prefix(g9, g8, a9);
    lemma_sub_of_prefix(g8, g7, a8);
    lemma_sub_of_prefix(g7, g6, a7);
    lemma_sub_of_prefix(g6, g5, a6);
    lemma_sub_of_prefix(g5, g4, a5);
    lemma_sub_of_prefix(g4, g3, a4);
    lemma_sub_of_prefix(g3, g2, a3);
    lemma_sub_of_prefix(g2, g1, a2);
    assert forall|i: int, j: int| 0 <= i <= j <= g11.len() implies g12.subrange(i, j)
        == g11.subrange(i, j) by {
        assert(g12.subrange(i, j) =~= g11.subrange(i, j));
    }
    assert(h.subrange(0, 4 + d.name@.len() as int) =~= a1);
}

/// Sub-slices of a concatenation's prefix part are sub-slices of the
/// prefix.
proof fn lemma_sub_of_prefix(whole: Seq<u8>, prefix: Seq<u8>, tail: Seq<u8>)
    requires
        whole == prefix + tail,
    ensures
        forall|i: int, j: int|
            0 <= i <= j <= prefix.len() ==> whole.subrange(i, j) == #[trigger] prefix.subrange(
                i,
                j,
            ),
{
    assert forall|i: int, j: int| 0 <= i <= j <= prefix.len() implies whole.subrange(i, j)
        == prefix.subrange(i, j) by {
        assert(whole.subrange(i, j) =~= prefix.subrange(i, j));
    }
}

/// Decode the head's front: the name, the hash, and the SPIR-V words.
/// When a well-formed descriptor's head encoding is present, this
/// succeeds and stops exactly after the SPIR-V words.
#[verifier::rlimit(100)]
fn read_front(bytes: &Vec<u8>, Ghost(cand): Ghost<Option<KernelDesc>>) -> (r: Option<(
    (Vec<u8>, u64, Vec<u32>),
    usize,
)>)
    requires
        cand matches Some(d) ==> d.wf() && enc_at(spec_head_bytes(d), bytes@, 0),
    ensures
        match r {
            Some(v) => {
                &&& v.1 <= bytes@.len()
                &&& v.0.0@.len() <= 0xFFFF_FFFF
                &&& v.0.2@.len() <= MAX_SPIRV_WORDS
                &&& bytes@.subrange(0, v.1 as int) == spec_front_bytes(v.0.0@, v.0.1, v.0.2@)
            },
            None => true,
        },
        cand matches Some(d) ==> {
            &&& r is Some
            &&& r.unwrap().1 == 16 + d.name@.len() + 4 * d.spirv@.len()
        },
{
    proof {
        if let Some(d) = cand {
            let h = spec_head_bytes(d);
            lemma_head_pieces(d);
            assert(enc_bytes(d.name@) + h.skip(4 + d.name@.len() as int) =~= h);
            lemma_name_at(d.name@, h.skip(4 + d.name@.len() as int), bytes@, 0);
        }
    }
    let (name, p1) = match read_name(bytes, 0) {
        Some(v) => v,
        None => {
            proof {
                if let Some(d) = cand {
                    assert(false);
                }
            }
            return None;
        },
    };
    proof {
        if let Some(d) = cand {
            let h = spec_head_bytes(d);
            lemma_head_pieces(d);
            assert(enc_bytes(d.name@) + h.skip(4 + d.name@.len() as int) =~= h);
            lemma_name_len_eq(name@, d.name@, h.skip(4 + d.name@.len() as int), bytes@, 0);
            assert(p1 == 4 + d.name@.len());
            lemma_enc_at_sub(h, bytes@, 0, p1 as int, p1 + 8);
        }
    }
    let (hash, p2) = match read_u64(bytes, p1) {
        Some(v) => v,
        None => {
            proof {
                if let Some(d) = cand {
                    assert(false);
                }
            }
            return None;
        },
    };
    proof {
        if let Some(d) = cand {
            lemma_head_pieces(d);
            lemma_enc_at_sub(spec_head_bytes(d), bytes@, 0, p2 as int, p2 + 4);
        }
    }
    let (spirv_len, p3) = match read_u32(bytes, p2) {
        Some(v) => v,
        None => {
            proof {
                if let Some(d) = cand {
                    assert(false);
                }
            }
            return None;
        },
    };
    proof {
        if let Some(d) = cand {
            lemma_enc_u32_inj(spirv_len, d.spirv@.len() as u32);
            assert(spirv_len == d.spirv@.len());
        }
    }
    if spirv_len as usize > MAX_SPIRV_WORDS {
        proof {
            if let Some(d) = cand {
                assert(false);
            }
        }
        return None;
    }
    proof {
        if let Some(d) = cand {
            lemma_head_pieces(d);
            lemma_enc_at_sub(spec_head_bytes(d), bytes@, 0, p3 as int, p3 + 4 * d.spirv@.len());
            assert(enc_at(enc_u32s(d.spirv@), bytes@, p3 as int));
        }
    }
    let (spirv, p4) = match read_u32s(bytes, p3, spirv_len as usize) {
        Some(v) => v,
        None => {
            proof {
                if let Some(d) = cand {
                    assert(false);
                }
            }
            return None;
        },
    };
    proof {
        assert(bytes@.subrange(0, p2 as int) =~= bytes@.subrange(0, p1 as int) + bytes@.subrange(
            p1 as int,
            p2 as int,
        ));
        assert(bytes@.subrange(0, p3 as int) =~= bytes@.subrange(0, p2 as int) + bytes@.subrange(
            p2 as int,
            p3 as int,
        ));
        assert(bytes@.subrange(0, p4 as int) =~= bytes@.subrange(0, p3 as int) + bytes@.subrange(
            p3 as int,
            p4 as int,
        ));
        assert(bytes@.subrange(0, p4 as int) == spec_front_bytes(name@, hash, spirv@));
    }
    Some(((name, hash, spirv), p4))
}

/// Decode the five capability flags at `pos`. When a well-formed
/// descriptor's head encoding is present and `pos` is where its flags
/// start, this succeeds.
#[verifier::rlimit(100)]
fn read_flags(bytes: &Vec<u8>, pos: usize, Ghost(cand): Ghost<Option<KernelDesc>>) -> (r: Option<
    (Features, usize),
>)
    requires
        pos <= bytes@.len(),
        cand matches Some(d) ==> {
            &&& d.wf()
            &&& enc_at(spec_head_bytes(d), bytes@, 0)
            &&& pos == 16 + d.name@.len() + 4 * d.spirv@.len()
        },
    ensures
        match r {
            Some(v) => {
                &&& v.1 == pos + 5
                &&& v.1 <= bytes@.len()
                &&& bytes@.subrange(pos as int, v.1 as int) == spec_flags_bytes(v.0)
            },
            None => true,
        },
        cand matches Some(d) ==> r is Some,
{
    proof {
        if let Some(d) = cand {
            lemma_head_pieces(d);
            lemma_enc_at_sub(spec_head_bytes(d), bytes@, 0, pos as int, pos + 1);
        }
    }
    let (int8, p5) = match read_bool(bytes, pos) {
        Some(v) => v,
        None => {
            proof {
                if let Some(d) = cand {
                    assert(bytes@[pos as int] == enc_bool(d.features.shader_int8)[0]);
                    assert(false);
                }
            }
            return None;
        },
    };
    proof {
        if let Some(d) = cand {
            lemma_head_pieces(d);
            lemma_enc_at_sub(spec_head_bytes(d), bytes@, 0, p5 as int, p5 + 1);
        }
    }
    let (int16, p6) = match read_bool(bytes, p5) {
        Some(v) => v,
        None => {
            proof {
                if let Some(d) = cand {
                    assert(bytes@[p5 as int] == enc_bool(d.features.shader_int16)[0]);
                    assert(false);
                }
            }
            return None;
        },
    };
    proof {
        if let Some(d) = cand {
            lemma_head_pieces(d);
            lemma_enc_at_sub(spec_head_bytes(d), bytes@, 0, p6 as int, p6 + 1);
        }
    }
    let (int64, p7) = match read_bool(bytes, p6) {
        Some(v) => v,
        None => {
            proof {
                if let Some(d) = cand {
                    assert(bytes@[p6 as int] == enc_bool(d.features.shader_int64)[0]);
                    assert(false);
                }
            }
            return None;
        },
    };
    proof {
        if let Some(d) = cand {
            lemma_head_pieces(d);
            lemma_enc_at_sub(spec_head_bytes(d), bytes@, 0, p7 as int, p7 + 1);
        }
    }
    let (float16, p8) = match read_bool(bytes, p7) {
        Some(v) => v,
        None => {
            proof {
                if let Some(d) = cand {
                    assert(bytes@[p7 as int] == enc_bool(d.features.shader_float16)[0]);
                    assert(false);
                }
            }
            return None;
        },
    };
    proof {
        if let Some(d) = cand {
            lemma_head_pieces(d);
            lemma_enc_at_sub(spec_head_bytes(d), bytes@, 0, p8 as int, p8 + 1);
        }
    }
    let (float64, p9) = match read_bool(bytes, p8) {
        Some(v) => v,
        None => {
            proof {
                if let Some(d) = cand {
                    assert(bytes@[p8 as int] == enc_bool(d.features.shader_float64)[0]);
                    assert(false);
                }
            }
            return None;
        },
    };
    let f = Features {
        shader_int8: int8,
        shader_int16: int16,
        shader_int64: int64,
        shader_float16: float16,
        shader_float64: float64,
    };
    proof {
        assert(bytes@.subrange(pos as int, p9 as int) =~= spec_flags_bytes(f));
    }
    Some((f, p9))
}

/// Decode the scalar head of a blob: every field before the descriptor
/// lists, returned as a descriptor with empty lists. When the head of a
/// well-formed descriptor's encoding is present, decoding succeeds and
/// stops exactly where the head ends.
#[verifier::rlimit(100)]
fn read_head(bytes: &Vec<u8>, Ghost(cand): Ghost<Option<KernelDesc>>) -> (r: Option<(
    KernelDesc,
    usize,
)>)
    requires
        cand matches Some(d) ==> d.wf() && enc_at(spec_head_bytes(d), bytes@, 0),
    ensures
        match r {
            Some(v) => {
                &&& v.1 <= bytes@.len()
                &&& v.0.wf()
                &&& v.0.spec_descs@.len() == 0
                &&& v.0.slice_descs@.len() == 0
                &&& v.0.push_descs@.len() == 0
                &&& bytes@.subrange(0, v.1 as int) == spec_head_bytes(v.0)
            },
            None => true,
        },
        cand matches Some(d) ==> r is Some && r.unwrap().1 == spec_head_bytes(d).len(),
{
    let ((name, hash, spirv), p4) = match read_front(bytes, Ghost(cand)) {
        Some(v) => v,
        None => {
            proof {
                if let Some(d) = cand {
                    assert(false);
                }
            }
            return None;
        },
    };
    let (features, p9) = match read_flags(bytes, p4, Ghost(cand)) {
        Some(v) => v,
        None => {
            proof {
                if let Some(d) = cand {
                    assert(false);
                }
            }
            return None;
        },
    };
    proof {
        if let Some(d) = cand {
            lemma_head_pieces(d);
            lemma_enc_at_sub(spec_head_bytes(d), bytes@, 0, p9 as int, p9 + 4);
        }
    }
    let (threads_len, p10) = match read_u32(bytes, p9) {
        Some(v) => v,
        None => {
            proof {
                if let Some(d) = cand {
                    assert(false);
                }
            }
            return None;
        },
    };
    proof {
        if let Some(d) = cand {
            lemma_enc_u32_inj(threads_len, d.threads@.len() as u32);
            assert(threads_len == d.threads@.len());
        }
    }
    if threads_len < 1 || threads_len > 3 {
        proof {
            if let Some(d) = cand {
                assert(false);
            }
        }
        return None;
    }
    proof {
        if let Some(d) = cand {
            lemma_head_pieces(d);
            lemma_enc_at_sub(spec_head_bytes(d), bytes@, 0, p10 as int, p10 + 4 * d.threads@.len());
            assert(enc_at(enc_u32s(d.threads@), bytes@, p10 as int));
        }
    }
    let (threads, p11) = match read_u32s(bytes, p10, threads_len as usize) {
        Some(v) => v,
        None => {
            proof {
                if let Some(d) = cand {
                    assert(false);
                }
            }
            return None;
        },
    };
    proof {
        if let Some(d) = cand {
            assert(bytes@.subrange(p10 as int, p11 as int) == enc_u32s(threads@));
            assert(bytes@.subrange(p10 as int, p11 as int) == enc_u32s(d.threads@));
            lemma_enc_u32s_inj(threads@, d.threads@);
            assert(threads@ == d.threads@);
        }
    }
    let mut ti: usize = 0;
    while ti < threads.len()
        invariant
            0 <= ti <= threads@.len(),
            forall|j: int| 0 <= j < ti ==> threads@[j] >= 1,
            cand matches Some(d) ==> d.wf() && threads@ == d.threads@,
        decreases threads@.len() - ti,
    {
        if threads[ti] == 0 {
            proof {
                if let Some(d) = cand {
                    assert(d.threads@[ti as int] >= 1);
                    assert(false);
                }
            }
            return None;
        }
        ti += 1;
    }
    proof {
        if let Some(d) = cand {
            lemma_head_pieces(d);
            lemma_enc_at_sub(spec_head_bytes(d), bytes@, 0, p11 as int, p11 + 1);
        }
    }
    let (safe, p12) = match read_bool(bytes, p11) {
        Some(v) => v,
        None => {
            proof {
                if let Some(d) = cand {
                    assert(bytes@[p11 as int] == enc_bool(d.safe)[0]);
                    assert(false);
                }
            }
            return None;
        },
    };
    let d = KernelDesc {
        name,
        hash,
        spirv,
        features,
        threads,
        safe,
        spec_descs: Vec::new(),
        slice_descs: Vec::new(),
        push_descs: Vec::new(),
    };
    proof {
        assert(bytes@.subrange(0, p9 as int) =~= bytes@.subrange(0, p4 as int) + bytes@.subrange(
            p4 as int,
            p9 as int,
        ));
        assert(bytes@.subrange(0, p10 as int) =~= bytes@.subrange(0, p9 as int) + bytes@.subrange(
            p9 as int,
            p10 as int,
        ));
        assert(bytes@.subrange(0, p11 as int) =~= bytes@.subrange(0, p10 as int) + bytes@.subrange(
            p10 as int,
            p11 as int,
        ));
        assert(bytes@.subrange(0, p12 as int) =~= bytes@.subrange(0, p11 as int) + bytes@.subrange(
            p11 as int,
            p12 as int,
        ));
        assert(bytes@.subrange(0, p12 as int) =~= spec_head_bytes(d));
        if let Some(c) = cand {
            lemma_head_pieces(c);
            assert(p12 == spec_head_bytes(c).len());
        }
    }
    Some((d, p12))
}

/// Where the head and the three length-prefixed descriptor lists sit in
/// a descriptor's full wire form.
#[verifier::spinoff_prover]
#[verifier::rlimit(100)]
proof fn lemma_desc_pieces(d: KernelDesc)
    requires
        d.wf(),
    ensures
        ({
            let h = spec_head_bytes(d).len() as int;
            let l1 = enc_spec_descs(d.spec_descs@).len() as int;
            let l2 = enc_slice_descs(d.slice_descs@).len() as int;
            let l3 = enc_push_descs(d.push_descs@).len() as int;
            let w = spec_desc_bytes(d);
            &&& w.len() == h + 4 + l1 + 4 + l2 + 4 + l3
            &&& w.subrange(0, h) == spec_head_bytes(d)
            &&& w.subrange(h, h + 4) == enc_u32(d.spec_descs@.len() as u32)
            &&& w.subrange(h + 4, h + 4 + l1) == enc_spec_descs(d.spec_descs@)
            &&& w.subrange(h + 4 + l1, h + 8 + l1) == enc_u32(d.slice_descs@.len() as u32)
            &&& w.subrange(h + 8 + l1, h + 8 + l1 + l2) == enc_slice_descs(d.slice_descs@)
            &&& w.subrange(h + 8 + l1 + l2, h + 12 + l1 + l2) == enc_u32(
                d.push_descs@.len() as u32,
            )
            &&& w.subrange(h + 12 + l1 + l2, h + 12 + l1 + l2 + l3) == enc_push_descs(
                d.push_descs@,
            )
        }),
{
    lemma_auto_spec_u32_to_from_le_bytes();
    let a1 = spec_head_bytes(d);
    let a2 = enc_u32(d.spec_descs@.len() as u32);
    let a3 = enc_spec_descs(d.spec_descs@);
    let a4 = enc_u32(d.slice_descs@.len() as u32);
    let a5 = enc_slice_descs(d.slice_descs@);
    let a6 = enc_u32(d.push_descs@.len() as u32);
    let a7 = enc_push_descs(d.push_descs@);
    assert(a2.len() == 4);
    assert(a4.len() == 4);
    assert(a6.len() == 4);
    let g1 = a1;
    let g2 = g1 + a2;
    let g3 = g2 + a3;
    let g4 = g3 + a4;
    let g5 = g4 + a5;
    let g6 = g5 + a6;
    let g7 = g6 + a7;
    let w = spec_desc_bytes(d);
    assert(w =~= g7);
    assert(g7.subrange(0, g6.len() as int) =~= g6);
    assert(g7.subrange(g6.len() as int, g7.len() as int) =~= a7);
    assert(g6.subrange(0, g5.len() as int) =~= g5);
    assert(g6.subrange(g5.len() as int, g6.len() as int) =~= a6);
    assert(g5.subrange(0, g4.len() as int) =~= g4);
    assert(g5.subrange(g4.len() as int, g5.len() as int) =~= a5);
    assert(g4.subrange(0, g3.len() as int) =~= g3);
    assert(g4.subrange(g3.len() as int, g4.len() as int) =~= a4);
    assert(g3.subrange(0, g2.len() as int) =~= g2);
    assert(g3.subrange(g2.len() as int, g3.len() as int) =~= a3);
    assert(g2.subrange(0, g1.len() as int) =~= g1);
    assert(g2.subrange(g1.len() as int, g2.len() as int) =~= a2);
    lemma_sub_of_prefix(g7, g6, a7);
    lemma_sub_of_prefix(g6, g5, a6);
    lemma_sub_of_prefix(g5, g4, a5);
    lemma_sub_of_prefix(g4, g3, a4);
    lemma_sub_of_prefix(g3, g2, a3);
    lemma_sub_of_prefix(g2, g1, a2);
}

/// The decoding pass: on a well-formed descriptor's exact wire form
/// (the ghost candidate) it cannot fail.
#[verifier::rlimit(100)]
fn decode_desc(bytes: &Vec<u8>, Ghost(cand): Ghost<Option<KernelDesc>>) -> (r: Option<KernelDesc>)
    requires
        cand matches Some(d) ==> d.wf() && spec_desc_bytes(d) == bytes@,
    ensures
        match r {
            Some(d) => d.wf() && spec_desc_bytes(d) == bytes@,
            None => true,
        },
        cand matches Some(d) ==> r is Some,
{
    let total = bytes.len();
    proof {
        if let Some(d0) = cand {
            lemma_desc_pieces(d0);
            assert(enc_at(spec_head_bytes(d0), bytes@, 0));
        }
    }
    let (head, p12) = match read_head(bytes, Ghost(cand)) {
        Some(v) => v,
        None => {
            proof {
                if let Some(d0) = cand {
                    assert(false);
                }
            }
            return None;
        },
    };
    proof {
        if let Some(d0) = cand {
            lemma_desc_pieces(d0);
            assert(enc_at(enc_u32(d0.spec_descs@.len() as u32), bytes@, p12 as int));
        }
    }
    let (spec_len, p13) = match read_u32(bytes, p12) {
        Some(v) => v,
        None => {
            proof {
                if let Some(d0) = cand {
                    assert(false);
                }
            }
            return None;
        },
    };
    proof {
        if let Some(d0) = cand {
            lemma_enc_u32_inj(spec_len, d0.spec_descs@.len() as u32);
            assert(spec_len == d0.spec_descs@.len());
        }
    }
    if spec_len as usize > MAX_DESCS {
        proof {
            if let Some(d0) = cand {
                assert(false);
            }
        }
        return None;
    }
    proof {
        if let Some(d0) = cand {
            lemma_desc_pieces(d0);
            assert(enc_at(enc_spec_descs(d0.spec_descs@), bytes@, p13 as int));
        }
    }
    let ghost spec_cand: Option<Seq<SpecDesc>> = match cand {
        Some(d0) => Some(d0.spec_descs@),
        None => None,
    };
    let (spec_descs, p14) = match read_spec_descs(bytes, p13, spec_len as usize, Ghost(spec_cand)) {
        Some(v) => v,
        None => {
            proof {
                if let Some(d0) = cand {
                    assert(false);
                }
            }
            return None;
        },
    };
    proof {
        if let Some(d0) = cand {
            lemma_desc_pieces(d0);
            assert(enc_at(enc_u32(d0.slice_descs@.len() as u32), bytes@, p14 as int));
        }
    }
    let (slice_len, p15) = match read_u32(bytes, p14) {
        Some(v) => v,
        None => {
            proof {
                if let Some(d0) = cand {
                    assert(false);
                }
            }
            return None;
        },
    };
    proof {
        if let Some(d0) = cand {
            lemma_enc_u32_inj(slice_len, d0.slice_descs@.len() as u32);
            assert(slice_len == d0.slice_descs@.len());
        }
    }
    if slice_len as usize > MAX_DESCS {
        proof {
            if let Some(d0) = cand {
                assert(false);
            }
        }
        return None;
    }
    proof {
        if let Some(d0) = cand {
            lemma_desc_pieces(d0);
            assert(enc_at(enc_slice_descs(d0.slice_descs@), bytes@, p15 as int));
        }
    }
    let ghost slice_cand: Option<Seq<SliceDesc>> = match cand {
        Some(d0) => Some(d0.slice_descs@),
        None => None,
    };
    let (slice_descs, p16) = match read_slice_descs(
        bytes,
        p15,
        slice_len as usize,
        Ghost(slice_cand),
    ) {
        Some(v) => v,
        None => {
            proof {
                if let Some(d0) = cand {
                    assert(false);
                }
            }
            return None;
        },
    };
    proof {
        if let Some(d0) = cand {
            lemma_desc_pieces(d0);
            assert(enc_at(enc_u32(d0.push_descs@.len() as u32), bytes@, p16 as int));
        }
    }
    let (push_len, p17) = match read_u32(bytes, p16) {
        Some(v) => v,
        None => {
            proof {
                if let Some(d0) = cand {
                    assert(false);
                }
            }
            return None;
        },
    };
    proof {
        if let Some(d0) = cand {
            lemma_enc_u32_inj(push_len, d0.push_descs@.len() as u32);
            assert(push_len == d0.push_descs@.len());
        }
    }
    if push_len as usize > MAX_DESCS {
        proof {
            if let Some(d0) = cand {
                assert(false);
            }
        }
        return None;
    }
    proof {
        if let Some(d0) = cand {
            lemma_desc_pieces(d0);
            assert(enc_at(enc_push_descs(d0.push_descs@), bytes@, p17 as int));
        }
    }
    let ghost push_cand: Option<Seq<PushDesc>> = match cand {
        Some(d0) => Some(d0.push_descs@),
        None => None,
    };
    let (push_descs, p18) = match read_push_descs(bytes, p17, push_len as usize, Ghost(push_cand)) {
        Some(v) => v,
        None => {
            proof {
                if let Some(d0) = cand {
                    assert(false);
                }
            }
            return None;
        },
    };
    if p18 != total {
        proof {
            if let Some(d0) = cand {
                lemma_desc_pieces(d0);
                assert(false);
            }
        }
        return None;
    }
    let d = KernelDesc { spec_descs, slice_descs, push_descs, ..head };
    proof {
        assert(spec_head_bytes(d) == spec_head_bytes(head));
        assert(bytes@.subrange(0, p13 as int) =~= bytes@.subrange(0, p12 as int)
            + bytes@.subrange(p12 as int, p13 as int));
        assert(bytes@.subrange(0, p14 as int) =~= bytes@.subrange(0, p13 as int)
            + bytes@.subrange(p13 as int, p14 as int));
        assert(bytes@.subrange(0, p15 as int) =~= bytes@.subrange(0, p14 as int)
            + bytes@.subrange(p14 as int, p15 as int));
        assert(bytes@.subrange(0, p16 as int) =~= bytes@.subrange(0, p15 as int)
            + bytes@.subrange(p15 as int, p16 as int));
        assert(bytes@.subrange(0, p17 as int) =~= bytes@.subrange(0, p16 as int)
            + bytes@.subrange(p16 as int, p17 as int));
        assert(bytes@.subrange(0, p18 as int) =~= bytes@.subrange(0, p17 as int)
            + bytes@.subrange(p17 as int, p18 as int));
        assert(bytes@.subrange(0, p18 as int) =~= bytes@);
        assert(spec_desc_bytes(d) == bytes@);
    }
    Some(d)
}

impl KernelDesc {
    /// Decode a descriptor blob. A decoded descriptor is well-formed and
    /// re-encodes to exactly the input: decoding validates the whole
    /// blob, trailing bytes included. Decoding fails only when no
    /// well-formed descriptor has the input as its wire form.
    pub fn from_bytes(bytes: &Vec<u8>) -> (r: Option<KernelDesc>)
        ensures
            match r {
                Some(d) => d.wf() && spec_desc_bytes(d) == bytes@,
                None => forall|d: KernelDesc| d.wf() ==> spec_desc_bytes(d) != bytes@,
            },
    {
        let ghost cand: Option<KernelDesc> = if exists|d: KernelDesc|
            d.wf() && spec_desc_bytes(d) == bytes@ {
            Some(choose|d: KernelDesc| d.wf() && spec_desc_bytes(d) == bytes@)
        } else {
            None
        };
        let r = decode_desc(bytes, Ghost(cand));
        proof {
            if r is None {
                assert(cand is None);
                assert forall|d: KernelDesc| d.wf() implies spec_desc_bytes(d) != bytes@ by {
                    if spec_desc_bytes(d) == bytes@ {
                        assert(exists|e: KernelDesc| e.wf() && spec_desc_bytes(e) == bytes@);
                        assert(false);
                    }
                }
            }
        }
        r
    }
}

/// Field-wise sameness of two specialization descriptors.
pub open spec fn spec_desc_eqv(a: SpecDesc, b: SpecDesc) -> bool {
    &&& a.name@ == b.name@
    &&& a.scalar_type == b.scalar_type
    &&& a.thread_dim == b.thread_dim
}

/// Field-wise sameness of two slice descriptors.
pub open spec fn slice_desc_eqv(a: SliceDesc, b: SliceDesc) -> bool {
    &&& a.name@ == b.name@
    &&& a.scalar_type == b.scalar_type
    &&& a.mutable == b.mutable
    &&& a.item == b.item
}

/// Field-wise sameness of two push descriptors.
pub open spec fn push_desc_eqv(a: PushDesc, b: PushDesc) -> bool {
    &&& a.name@ == b.name@
    &&& a.scalar_type == b.scalar_type
}

/// Element-wise sameness of two slice-descriptor lists.
pub open spec fn slice_descs_eqv(a: Seq<SliceDesc>, b: Seq<SliceDesc>) -> bool {
    &&& a.len() == b.len()
    &&& forall|i: int| 0 <= i < a.len() ==> slice_desc_eqv(#[trigger] a[i], b[i])
}

/// Element-wise sameness of two push-descriptor lists.
pub open spec fn push_descs_eqv(a: Seq<PushDesc>, b: Seq<PushDesc>) -> bool {
    &&& a.len() == b.len()
    &&& forall|i: int| 0 <= i < a.len() ==> push_desc_eqv(#[trigger] a[i], b[i])
}

/// An owned copy of a byte string.
pub fn dup_bytes(v: &Vec<u8>) -> (r: Vec<u8>)
    ensures
        r@ == v@,
{
    let r = read_range(v, 0, v.len());
    proof {
        assert(r@ =~= v@);
    }
    r
}

/// An owned copy of a word list.
pub fn dup_words(v: &Vec<u32>) -> (r: Vec<u32>)
    ensures
        r@ == v@,
{
    let mut out: Vec<u32> = Vec::new();
    let mut i: usize = 0;
    while i < v.len()
        invariant
            0 <= i <= v@.len(),
            out@ == v@.take(i as int),
        decreases v@.len() - i,
    {
        out.push(v[i]);
        proof {
            assert(out@ =~= v@.take(i + 1));
        }
        i += 1;
    }
    proof {
        assert(v@.take(v@.len() as int) =~= v@);
    }
    out
}

/// An owned copy of a slice-descriptor list.
pub fn dup_slice_descs(v: &Vec<SliceDesc>) -> (r: Vec<SliceDesc>)
    ensures
        slice_descs_eqv(r@, v@),
{
    let mut out: Vec<SliceDesc> = Vec::new();
    let mut i: usize = 0;
    while i < v.len()
        invariant
            0 <= i <= v@.len(),
            out@.len() == i,
            forall|j: int| 0 <= j < i ==> slice_desc_eqv(#[trigger] out@[j], v@[j]),
        decreases v@.len() - i,
    {
        let d = &v[i];
        out.push(
            SliceDesc {
                name: dup_bytes(&d.name),
                scalar_type: d.scalar_type,
                mutable: d.mutable,
                item: d.item,
            },
        );
        i += 1;
    }
    out
}

/// An owned copy of a push-descriptor list.
pub fn dup_push_descs(v: &Vec<PushDesc>) -> (r: Vec<PushDesc>)
    ensures
        push_descs_eqv(r@, v@),
{
    let mut out: Vec<PushDesc> = Vec::new();
    let mut i: usize = 0;
    while i < v.len()
        invariant
            0 <= i <= v@.len(),
            out@.len() == i,
            forall|j: int| 0 <= j < i ==> push_desc_eqv(#[trigger] out@[j], v@[j]),
        decreases v@.len() - i,
    {
        let d = &v[i];
        out.push(PushDesc { name: dup_bytes(&d.name), scalar_type: d.scalar_type });
        i += 1;
    }
    out
}
} // verus!
