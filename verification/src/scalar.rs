//! The closed set of element types a buffer or kernel argument may have,
//! and the tagged value type used for push constants and specialization.
//!
//! Half-precision and floating-point elements are carried by their bit
//! patterns: equality on a `ScalarElem` is bitwise on the byte encoding,
//! which is what pipeline-cache keying requires.

use vstd::bytes::{
    lemma_auto_spec_u16_to_from_le_bytes, lemma_auto_spec_u32_to_from_le_bytes,
    lemma_auto_spec_u64_to_from_le_bytes, spec_u16_from_le_bytes, spec_u16_to_le_bytes,
    spec_u32_from_le_bytes, spec_u32_to_le_bytes, spec_u64_from_le_bytes, spec_u64_to_le_bytes,
    u16_from_le_bytes, u16_to_le_bytes, u32_from_le_bytes, u32_to_le_bytes, u64_from_le_bytes,
    u64_to_le_bytes,
};
use vstd::prelude::*;
use vstd::slice::{slice_index_get, slice_subrange};

verus! {

/// Tag for the element type of a buffer, push constant or spec constant.
#[derive(Clone, Copy, Debug, PartialEq, Eq, Hash, Structural)]
pub enum ScalarType {
    U8,
    I8,
    U16,
    I16,
    F16,
    BF16,
    U32,
    I32,
    F32,
    U64,
    I64,
    F64,
}

impl ScalarType {
    /// Size in bytes of one element of this type.
    pub open spec fn spec_size(self) -> nat {
        match self {
            ScalarType::U8 => 1,
            ScalarType::I8 => 1,
            ScalarType::U16 => 2,
            ScalarType::I16 => 2,
            ScalarType::F16 => 2,
            ScalarType::BF16 => 2,
            ScalarType::U32 => 4,
            ScalarType::I32 => 4,
            ScalarType::F32 => 4,
            ScalarType::U64 => 8,
            ScalarType::I64 => 8,
            ScalarType::F64 => 8,
        }
    }

    /// Size in bytes of one element.
    pub fn size(&self) -> (r: usize)
        ensures
            r == self.spec_size(),
            1 <= r && r <= 8,
    {
        match self {
            ScalarType::U8 => 1,
            ScalarType::I8 => 1,
            ScalarType::U16 => 2,
            ScalarType::I16 => 2,
            ScalarType::F16 => 2,
            ScalarType::BF16 => 2,
            ScalarType::U32 => 4,
            ScalarType::I32 => 4,
            ScalarType::F32 => 4,
            ScalarType::U64 => 8,
            ScalarType::I64 => 8,
            ScalarType::F64 => 8,
        }
    }

    /// Alignment of one element: equal to its size.
    pub fn alignment(&self) -> (r: usize)
        ensures
            r == self.spec_size(),
    {
        self.size()
    }

    /// The fixed wire tag of this type, as used in kernel-descriptor blobs.
    pub open spec fn spec_tag(self) -> u8 {
        match self {
            ScalarType::U8 => 0,
            ScalarType::I8 => 1,
            ScalarType::U16 => 2,
            ScalarType::I16 => 3,
            ScalarType::F16 => 4,
            ScalarType::BF16 => 5,
            ScalarType::U32 => 6,
            ScalarType::I32 => 7,
            ScalarType::F32 => 8,
            ScalarType::U64 => 9,
            ScalarType::I64 => 10,
            ScalarType::F64 => 11,
        }
    }

    /// The fixed wire tag of this type.
    pub fn tag(&self) -> (r: u8)
        ensures
            r == self.spec_tag(),
    {
        match self {
            ScalarType::U8 => 0,
            ScalarType::I8 => 1,
            ScalarType::U16 => 2,
            ScalarType::I16 => 3,
            ScalarType::F16 => 4,
            ScalarType::BF16 => 5,
            ScalarType::U32 => 6,
            ScalarType::I32 => 7,
            ScalarType::F32 => 8,
            ScalarType::U64 => 9,
            ScalarType::I64 => 10,
            ScalarType::F64 => 11,
        }
    }

    /// Decode a wire tag; tags greater than 11 name no type.
    pub fn from_tag(t: u8) -> (r: Option<ScalarType>)
        ensures
            match r {
                Some(st) => st.spec_tag() == t,
                None => t > 11,
            },
    {
        match t {
            0 => Some(ScalarType::U8),
            1 => Some(ScalarType::I8),
            2 => Some(ScalarType::U16),
            3 => Some(ScalarType::I16),
            4 => Some(ScalarType::F16),
            5 => Some(ScalarType::BF16),
            6 => Some(ScalarType::U32),
            7 => Some(ScalarType::I32),
            8 => Some(ScalarType::F32),
            9 => Some(ScalarType::U64),
            10 => Some(ScalarType::I64),
            11 => Some(ScalarType::F64),
            _ => None,
        }
    }
}

/// One value of some [`ScalarType`]. The half and float variants hold the
/// value's bit pattern, so equality is bitwise on the byte encoding.
#[derive(Clone, Copy, Debug, PartialEq, Eq, Hash, Structural)]
pub enum ScalarElem {
    U8(u8),
    I8(i8),
    U16(u16),
    I16(i16),
    F16(u16),
    BF16(u16),
    U32(u32),
    I32(i32),
    F32(u32),
    U64(u64),
    I64(i64),
    F64(u64),
}

impl ScalarElem {
    /// The type tag of this value.
    pub open spec fn spec_scalar_type(self) -> ScalarType {
        match self {
            ScalarElem::U8(_) => ScalarType::U8,
            ScalarElem::I8(_) => ScalarType::I8,
            ScalarElem::U16(_) => ScalarType::U16,
            ScalarElem::I16(_) => ScalarType::I16,
            ScalarElem::F16(_) => ScalarType::F16,
            ScalarElem::BF16(_) => ScalarType::BF16,
            ScalarElem::U32(_) => ScalarType::U32,
            ScalarElem::I32(_) => ScalarType::I32,
            ScalarElem::F32(_) => ScalarType::F32,
            ScalarElem::U64(_) => ScalarType::U64,
            ScalarElem::I64(_) => ScalarType::I64,
            ScalarElem::F64(_) => ScalarType::F64,
        }
    }

    /// The type tag of this value.
    pub fn scalar_type(&self) -> (r: ScalarType)
        ensures
            r == self.spec_scalar_type(),
    {
        match self {
            ScalarElem::U8(_) => ScalarType::U8,
            ScalarElem::I8(_) => ScalarType::I8,
            ScalarElem::U16(_) => ScalarType::U16,
            ScalarElem::I16(_) => ScalarType::I16,
            ScalarElem::F16(_) => ScalarType::F16,
            ScalarElem::BF16(_) => ScalarType::BF16,
            ScalarElem::U32(_) => ScalarType::U32,
            ScalarElem::I32(_) => ScalarType::I32,
            ScalarElem::F32(_) => ScalarType::F32,
            ScalarElem::U64(_) => ScalarType::U64,
            ScalarElem::I64(_) => ScalarType::I64,
            ScalarElem::F64(_) => ScalarType::F64,
        }
    }

    /// The little-endian byte encoding of this value.
    pub open spec fn spec_bytes(self) -> Seq<u8> {
        match self {
            ScalarElem::U8(x) => seq![x],
            ScalarElem::I8(x) => seq![x as u8],
            ScalarElem::U16(x) => spec_u16_to_le_bytes(x),
            ScalarElem::I16(x) => spec_u16_to_le_bytes(x as u16),
            ScalarElem::F16(x) => spec_u16_to_le_bytes(x),
            ScalarElem::BF16(x) => spec_u16_to_le_bytes(x),
            ScalarElem::U32(x) => spec_u32_to_le_bytes(x),
            ScalarElem::I32(x) => spec_u32_to_le_bytes(x as u32),
            ScalarElem::F32(x) => spec_u32_to_le_bytes(x),
            ScalarElem::U64(x) => spec_u64_to_le_bytes(x),
            ScalarElem::I64(x) => spec_u64_to_le_bytes(x as u64),
            ScalarElem::F64(x) => spec_u64_to_le_bytes(x),
        }
    }

    /// The encoding is exactly as wide as the type's size.
    pub proof fn lemma_bytes_len(self)
        ensures
            self.spec_bytes().len() == self.spec_scalar_type().spec_size(),
    {
        vstd::bytes::lemma_auto_spec_u16_to_from_le_bytes();
        vstd::bytes::lemma_auto_spec_u32_to_from_le_bytes();
        vstd::bytes::lemma_auto_spec_u64_to_from_le_bytes();
    }

    /// Encode this value as little-endian bytes.
    pub fn to_le_bytes(&self) -> (r: Vec<u8>)
        ensures
            r@ == self.spec_bytes(),
            r@.len() == self.spec_scalar_type().spec_size(),
    {
        proof {
            self.lemma_bytes_len();
        }
        match self {
            ScalarElem::U8(x) => {
                let mut v: Vec<u8> = Vec::new();
                v.push(*x);
                proof {
                    assert(v@ =~= self.spec_bytes());
                }
                v
            },
            ScalarElem::I8(x) => {
                let mut v: Vec<u8> = Vec::new();
                v.push(*x as u8);
                proof {
                    assert(v@ =~= self.spec_bytes());
                }
                v
            },
            ScalarElem::U16(x) => u16_to_le_bytes(*x),
            ScalarElem::I16(x) => u16_to_le_bytes(*x as u16),
            ScalarElem::F16(x) => u16_to_le_bytes(*x),
            ScalarElem::BF16(x) => u16_to_le_bytes(*x),
            ScalarElem::U32(x) => u32_to_le_bytes(*x),
            ScalarElem::I32(x) => u32_to_le_bytes(*x as u32),
            ScalarElem::F32(x) => u32_to_le_bytes(*x),
            ScalarElem::U64(x) => u64_to_le_bytes(*x),
            ScalarElem::I64(x) => u64_to_le_bytes(*x as u64),
            ScalarElem::F64(x) => u64_to_le_bytes(*x),
        }
    }
}

/// An element type that typed buffers can hold: it has a fixed
/// [`ScalarType`] and a little-endian byte encoding exactly that wide,
/// and the encoding determines the value.
pub trait Scalar: Sized + Copy {
    /// The type tag of this element type.
    spec fn spec_st() -> ScalarType;

    /// The little-endian byte encoding of this value.
    spec fn spec_bytes(self) -> Seq<u8>;

    /// The type tag of this element type.
    fn scalar_type() -> (r: ScalarType)
        ensures
            r == Self::spec_st(),
    ;

    /// Encode this value as little-endian bytes.
    fn to_le_bytes(self) -> (r: Vec<u8>)
        ensures
            r@ == self.spec_bytes(),
    ;

    /// Decode a value from exactly one element's worth of bytes.
    fn from_le_bytes(b: &[u8]) -> (r: Self)
        requires
            b@.len() == Self::spec_st().spec_size(),
        ensures
            r.spec_bytes() == b@,
    ;

    /// The encoding is exactly as wide as the type's size.
    proof fn lemma_bytes_len(self)
        ensures
            self.spec_bytes().len() == Self::spec_st().spec_size(),
    ;

    /// The encoding determines the value.
    proof fn lemma_bytes_inj(self, other: Self)
        requires
            self.spec_bytes() == other.spec_bytes(),
        ensures
            self == other,
    ;
}

impl Scalar for u8 {
    open spec fn spec_st() -> ScalarType {
        ScalarType::U8
    }

    open spec fn spec_bytes(self) -> Seq<u8> {
        seq![self]
    }

    fn scalar_type() -> (r: ScalarType) {
        ScalarType::U8
    }

    fn to_le_bytes(self) -> (r: Vec<u8>) {
        let mut v: Vec<u8> = Vec::new();
        v.push(self);
        proof {
            assert(v@ =~= self.spec_bytes());
        }
        v
    }

    fn from_le_bytes(b: &[u8]) -> (r: Self) {
        let r = *slice_index_get(b, 0);
        proof {
            assert(r.spec_bytes() =~= b@);
        }
        r
    }

    proof fn lemma_bytes_len(self) {
    }

    proof fn lemma_bytes_inj(self, other: Self) {
        assert(self == self.spec_bytes()[0]);
        assert(other == other.spec_bytes()[0]);
    }
}

impl Scalar for u16 {
    open spec fn spec_st() -> ScalarType {
        ScalarType::U16
    }

    open spec fn spec_bytes(self) -> Seq<u8> {
        spec_u16_to_le_bytes(self)
    }

    fn scalar_type() -> (r: ScalarType) {
        ScalarType::U16
    }

    fn to_le_bytes(self) -> (r: Vec<u8>) {
        u16_to_le_bytes(self)
    }

    fn from_le_bytes(b: &[u8]) -> (r: Self) {
        proof {
            lemma_auto_spec_u16_to_from_le_bytes();
        }
        u16_from_le_bytes(b)
    }

    proof fn lemma_bytes_len(self) {
        lemma_auto_spec_u16_to_from_le_bytes();
    }

    proof fn lemma_bytes_inj(self, other: Self) {
        lemma_auto_spec_u16_to_from_le_bytes();
        assert(spec_u16_to_le_bytes(self).len() == 2);
        assert(spec_u16_to_le_bytes(other).len() == 2);
        assert(spec_u16_from_le_bytes(spec_u16_to_le_bytes(self)) == self);
        assert(spec_u16_from_le_bytes(spec_u16_to_le_bytes(other)) == other);
    }
}

impl Scalar for u32 {
    open spec fn spec_st() -> ScalarType {
        ScalarType::U32
    }

    open spec fn spec_bytes(self) -> Seq<u8> {
        spec_u32_to_le_bytes(self)
    }

    fn scalar_type() -> (r: ScalarType) {
        ScalarType::U32
    }

    fn to_le_bytes(self) -> (r: Vec<u8>) {
        u32_to_le_bytes(self)
    }

    fn from_le_bytes(b: &[u8]) -> (r: Self) {
        proof {
            lemma_auto_spec_u32_to_from_le_bytes();
        }
        u32_from_le_bytes(b)
    }

    proof fn lemma_bytes_len(self) {
        lemma_auto_spec_u32_to_from_le_bytes();
    }

    proof fn lemma_bytes_inj(self, other: Self) {
        lemma_auto_spec_u32_to_from_le_bytes();
        assert(spec_u32_to_le_bytes(self).len() == 4);
        assert(spec_u32_to_le_bytes(other).len() == 4);
        assert(spec_u32_from_le_bytes(spec_u32_to_le_bytes(self)) == self);
        assert(spec_u32_from_le_bytes(spec_u32_to_le_bytes(other)) == other);
    }
}

impl Scalar for u64 {
    open spec fn spec_st() -> ScalarType {
        ScalarType::U64
    }

    open spec fn spec_bytes(self) -> Seq<u8> {
        spec_u64_to_le_bytes(self)
    }

    fn scalar_type() -> (r: ScalarType) {
        ScalarType::U64
    }

    fn to_le_bytes(self) -> (r: Vec<u8>) {
        u64_to_le_bytes(self)
    }

    fn from_le_bytes(b: &[u8]) -> (r: Self) {
        proof {
            lemma_auto_spec_u64_to_from_le_bytes();
        }
        u64_from_le_bytes(b)
    }

    proof fn lemma_bytes_len(self) {
        lemma_auto_spec_u64_to_from_le_bytes();
    }

    proof fn lemma_bytes_inj(self, other: Self) {
        lemma_auto_spec_u64_to_from_le_bytes();
        assert(spec_u64_from_le_bytes(spec_u64_to_le_bytes(self)) == self);
        assert(spec_u64_from_le_bytes(spec_u64_to_le_bytes(other)) == other);
    }
}

impl Scalar for i8 {
    open spec fn spec_st() -> ScalarType {
        ScalarType::I8
    }

    open spec fn spec_bytes(self) -> Seq<u8> {
        seq![self as u8]
    }

    fn scalar_type() -> (r: ScalarType) {
        ScalarType::I8
    }

    fn to_le_bytes(self) -> (r: Vec<u8>) {
        let mut v: Vec<u8> = Vec::new();
        v.push(self as u8);
        proof {
            assert(v@ =~= self.spec_bytes());
        }
        v
    }

    fn from_le_bytes(b: &[u8]) -> (r: Self) {
        let x = *slice_index_get(b, 0);
        proof {
            assert(((x as i8) as u8) == x) by (bit_vector);
        }
        let r = #[verifier::truncate] (x as i8);
        proof {
            assert(r.spec_bytes() =~= b@);
        }
        r
    }

    proof fn lemma_bytes_len(self) {
    }

    proof fn lemma_bytes_inj(self, other: Self) {
        let a = self;
        let b = other;
        assert(a.spec_bytes()[0] == b.spec_bytes()[0]);
        assert((a as u8) == (b as u8) ==> a == b) by (bit_vector);
    }
}

impl Scalar for i16 {
    open spec fn spec_st() -> ScalarType {
        ScalarType::I16
    }

    open spec fn spec_bytes(self) -> Seq<u8> {
        spec_u16_to_le_bytes(self as u16)
    }

    fn scalar_type() -> (r: ScalarType) {
        ScalarType::I16
    }

    fn to_le_bytes(self) -> (r: Vec<u8>) {
        u16_to_le_bytes(self as u16)
    }

    fn from_le_bytes(b: &[u8]) -> (r: Self) {
        proof {
            lemma_auto_spec_u16_to_from_le_bytes();
        }
        let x = u16_from_le_bytes(b);
        proof {
            assert(((x as i16) as u16) == x) by (bit_vector);
        }
        let r = #[verifier::truncate] (x as i16);
        r
    }

    proof fn lemma_bytes_len(self) {
        lemma_auto_spec_u16_to_from_le_bytes();
    }

    proof fn lemma_bytes_inj(self, other: Self) {
        lemma_auto_spec_u16_to_from_le_bytes();
        let a = self;
        let b = other;
        assert(spec_u16_to_le_bytes(a as u16).len() == 2);
        assert(spec_u16_to_le_bytes(b as u16).len() == 2);
        assert(spec_u16_from_le_bytes(spec_u16_to_le_bytes(a as u16)) == (a as u16));
        assert(spec_u16_from_le_bytes(spec_u16_to_le_bytes(b as u16)) == (b as u16));
        assert((a as u16) == (b as u16) ==> a == b) by (bit_vector);
    }
}

impl Scalar for i32 {
    open spec fn spec_st() -> ScalarType {
        ScalarType::I32
    }

    open spec fn spec_bytes(self) -> Seq<u8> {
        spec_u32_to_le_bytes(self as u32)
    }

    fn scalar_type() -> (r: ScalarType) {
        ScalarType::I32
    }

    fn to_le_bytes(self) -> (r: Vec<u8>) {
        u32_to_le_bytes(self as u32)
    }

    fn from_le_bytes(b: &[u8]) -> (r: Self) {
        proof {
            lemma_auto_spec_u32_to_from_le_bytes();
        }
        let x = u32_from_le_bytes(b);
        proof {
            assert(((x as i32) as u32) == x) by (bit_vector);
        }
        let r = #[verifier::truncate] (x as i32);
        r
    }

    proof fn lemma_bytes_len(self) {
        lemma_auto_spec_u32_to_from_le_bytes();
    }

    proof fn lemma_bytes_inj(self, other: Self) {
        lemma_auto_spec_u32_to_from_le_bytes();
        let a = self;
        let b = other;
        assert(spec_u32_to_le_bytes(a as u32).len() == 4);
        assert(spec_u32_to_le_bytes(b as u32).len() == 4);
        assert(spec_u32_from_le_bytes(spec_u32_to_le_bytes(a as u32)) == (a as u32));
        assert(spec_u32_from_le_bytes(spec_u32_to_le_bytes(b as u32)) == (b as u32));
        assert((a as u32) == (b as u32) ==> a == b) by (bit_vector);
    }
}

impl Scalar for i64 {
    open spec fn spec_st() -> ScalarType {
        ScalarType::I64
    }

    open spec fn spec_bytes(self) -> Seq<u8> {
        spec_u64_to_le_bytes(self as u64)
    }

    fn scalar_type() -> (r: ScalarType) {
        ScalarType::I64
    }

    fn to_le_bytes(self) -> (r: Vec<u8>) {
        u64_to_le_bytes(self as u64)
    }

    fn from_le_bytes(b: &[u8]) -> (r: Self) {
        proof {
            lemma_auto_spec_u64_to_from_le_bytes();
        }
        let x = u64_from_le_bytes(b);
        proof {
            assert(((x as i64) as u64) == x) by (bit_vector);
        }
        let r = #[verifier::truncate] (x as i64);
        r
    }

    proof fn lemma_bytes_len(self) {
        lemma_auto_spec_u64_to_from_le_bytes();
    }

    proof fn lemma_bytes_inj(self, other: Self) {
        lemma_auto_spec_u64_to_from_le_bytes();
        let a = self;
        let b = other;
        assert(spec_u64_to_le_bytes(a as u64).len() == 8);
        assert(spec_u64_to_le_bytes(b as u64).len() == 8);
        assert(spec_u64_from_le_bytes(spec_u64_to_le_bytes(a as u64)) == (a as u64));
        assert(spec_u64_from_le_bytes(spec_u64_to_le_bytes(b as u64)) == (b as u64));
        assert((a as u64) == (b as u64) ==> a == b) by (bit_vector);
    }
}

/// The little-endian encoding of a whole element sequence, in order.
pub open spec fn spec_elems_bytes<T: Scalar>(s: Seq<T>) -> Seq<u8>
    decreases s.len(),
{
    if s.len() == 0 {
        Seq::empty()
    } else {
        spec_elems_bytes(s.drop_last()) + s.last().spec_bytes()
    }
}

/// The encoding of `n` elements is `n` times the element size.
pub proof fn lemma_elems_bytes_len<T: Scalar>(s: Seq<T>)
    ensures
        spec_elems_bytes(s).len() == s.len() * T::spec_st().spec_size(),
    decreases s.len(),
{
    if s.len() > 0 {
        lemma_elems_bytes_len(s.drop_last());
        s.last().lemma_bytes_len();
        assert(s.len() * T::spec_st().spec_size() == (s.len() - 1) * T::spec_st().spec_size()
            + T::spec_st().spec_size()) by (nonlinear_arith);
    }
}

/// The encoding of a sequence determines the sequence.
pub proof fn lemma_elems_bytes_inj<T: Scalar>(a: Seq<T>, b: Seq<T>)
    requires
        spec_elems_bytes(a) == spec_elems_bytes(b),
        a.len() == b.len(),
    ensures
        a == b,
    decreases a.len(),
{
    if a.len() > 0 {
        let width = T::spec_st().spec_size() as int;
        lemma_elems_bytes_len::<T>(a.drop_last());
        lemma_elems_bytes_len::<T>(b.drop_last());
        a.last().lemma_bytes_len();
        b.last().lemma_bytes_len();
        let ea = spec_elems_bytes(a);
        let eb = spec_elems_bytes(b);
        assert(a.last().spec_bytes() =~= ea.subrange(ea.len() - width, ea.len() as int));
        assert(b.last().spec_bytes() =~= eb.subrange(eb.len() - width, eb.len() as int));
        a.last().lemma_bytes_inj(b.last());
        assert(spec_elems_bytes(a.drop_last()) =~= ea.subrange(0, ea.len() - width));
        assert(spec_elems_bytes(b.drop_last()) =~= eb.subrange(0, eb.len() - width));
        lemma_elems_bytes_inj(a.drop_last(), b.drop_last());
        assert(a =~= a.drop_last().push(a.last()));
        assert(b =~= b.drop_last().push(b.last()));
    } else {
        assert(a =~= b);
    }
}

/// Encode a vector of elements as their concatenated little-endian bytes.
pub fn encode_elems<T: Scalar>(v: &Vec<T>) -> (r: Vec<u8>)
    ensures
        r@ == spec_elems_bytes(v@),
        r@.len() == v@.len() * T::spec_st().spec_size(),
{
    let mut out: Vec<u8> = Vec::new();
    let mut i: usize = 0;
    while i < v.len()
        invariant
            0 <= i <= v@.len(),
            out@ == spec_elems_bytes(v@.take(i as int)),
        decreases v@.len() - i,
    {
        let mut piece = v[i].to_le_bytes();
        out.append(&mut piece);
        proof {
            assert(v@.take(i + 1).drop_last() =~= v@.take(i as int));
            assert(v@.take(i + 1).last() == v@[i as int]);
        }
        i += 1;
    }
    proof {
        assert(v@.take(v@.len() as int) =~= v@);
        lemma_elems_bytes_len(v@);
    }
    out
}

/// Decode a vector of elements from their concatenated little-endian
/// bytes; the byte length must be a whole number of elements.
pub fn decode_elems<T: Scalar>(bytes: &Vec<u8>) -> (r: Vec<T>)
    requires
        bytes@.len() % T::spec_st().spec_size() == 0,
    ensures
        spec_elems_bytes(r@) == bytes@,
        r@.len() * T::spec_st().spec_size() == bytes@.len(),
{
    let width = T::scalar_type().size();
    let blen = bytes.len();
    let count = blen / width;
    let mut out: Vec<T> = Vec::new();
    let mut i: usize = 0;
    proof {
        assert(count * width == blen) by (nonlinear_arith)
            requires
                width >= 1,
                count == blen as int / width as int,
                blen as int % width as int == 0,
        ;
    }
    while i < count
        invariant
            0 <= i <= count,
            width == T::spec_st().spec_size(),
            1 <= width <= 8,
            blen == bytes@.len(),
            count * width == blen,
            out@.len() == i,
            spec_elems_bytes(out@) == bytes@.take((i * width) as int),
        decreases count - i,
    {
        proof {
            assert(i * width + width <= count * width && (i + 1) * width == i * width + width)
                by (nonlinear_arith)
                requires
                    i < count,
                    width >= 1,
            ;
        }
        let start = i * width;
        let window = slice_subrange(bytes.as_slice(), start, start + width);
        let elem = T::from_le_bytes(window);
        let ghost prev = out@;
        out.push(elem);
        proof {
            assert(out@.drop_last() =~= prev);
            assert(spec_elems_bytes(out@) == spec_elems_bytes(prev) + elem.spec_bytes());
            assert(bytes@.take((start + width) as int) =~= bytes@.take((i * width) as int)
                + bytes@.subrange(start as int, (start + width) as int));
        }
        i += 1;
    }
    proof {
        assert(bytes@.take((count * width) as int) =~= bytes@);
    }
    out
}

/// An `f16` value carried as its bit pattern, so that half-precision
/// buffers exist without floating-point arithmetic in the runtime.
#[derive(Clone, Copy, Debug, PartialEq, Eq, Hash, Structural)]
pub struct F16Bits(pub u16);

/// A `bf16` value carried as its bit pattern.
#[derive(Clone, Copy, Debug, PartialEq, Eq, Hash, Structural)]
pub struct BF16Bits(pub u16);

/// An `f32` value carried as its bit pattern.
#[derive(Clone, Copy, Debug, PartialEq, Eq, Hash, Structural)]
pub struct F32Bits(pub u32);

/// An `f64` value carried as its bit pattern.
#[derive(Clone, Copy, Debug, PartialEq, Eq, Hash, Structural)]
pub struct F64Bits(pub u64);

impl Scalar for F16Bits {
    open spec fn spec_st() -> ScalarType {
        ScalarType::F16
    }

    open spec fn spec_bytes(self) -> Seq<u8> {
        spec_u16_to_le_bytes(self.0)
    }

    fn scalar_type() -> (r: ScalarType) {
        ScalarType::F16
    }

    fn to_le_bytes(self) -> (r: Vec<u8>) {
        u16_to_le_bytes(self.0)
    }

    fn from_le_bytes(b: &[u8]) -> (r: Self) {
        proof {
            lemma_auto_spec_u16_to_from_le_bytes();
        }
        F16Bits(u16_from_le_bytes(b))
    }

    proof fn lemma_bytes_len(self) {
        lemma_auto_spec_u16_to_from_le_bytes();
    }

    proof fn lemma_bytes_inj(self, other: Self) {
        lemma_auto_spec_u16_to_from_le_bytes();
        assert(spec_u16_to_le_bytes(self.0).len() == 2);
        assert(spec_u16_to_le_bytes(other.0).len() == 2);
        assert(spec_u16_from_le_bytes(spec_u16_to_le_bytes(self.0)) == self.0);
        assert(spec_u16_from_le_bytes(spec_u16_to_le_bytes(other.0)) == other.0);
    }
}

impl Scalar for BF16Bits {
    open spec fn spec_st() -> ScalarType {
        ScalarType::BF16
    }

    open spec fn spec_bytes(self) -> Seq<u8> {
        spec_u16_to_le_bytes(self.0)
    }

    fn scalar_type() -> (r: ScalarType) {
        ScalarType::BF16
    }

    fn to_le_bytes(self) -> (r: Vec<u8>) {
        u16_to_le_bytes(self.0)
    }

    fn from_le_bytes(b: &[u8]) -> (r: Self) {
        proof {
            lemma_auto_spec_u16_to_from_le_bytes();
        }
        BF16Bits(u16_from_le_bytes(b))
    }

    proof fn lemma_bytes_len(self) {
        lemma_auto_spec_u16_to_from_le_bytes();
    }

    proof fn lemma_bytes_inj(self, other: Self) {
        lemma_auto_spec_u16_to_from_le_bytes();
        assert(spec_u16_to_le_bytes(self.0).len() == 2);
        assert(spec_u16_to_le_bytes(other.0).len() == 2);
        assert(spec_u16_from_le_bytes(spec_u16_to_le_bytes(self.0)) == self.0);
        assert(spec_u16_from_le_bytes(spec_u16_to_le_bytes(other.0)) == other.0);
    }
}

impl Scalar for F32Bits {
    open spec fn spec_st() -> ScalarType {
        ScalarType::F32
    }

    open spec fn spec_bytes(self) -> Seq<u8> {
        spec_u32_to_le_bytes(self.0)
    }

    fn scalar_type() -> (r: ScalarType) {
        ScalarType::F32
    }

    fn to_le_bytes(self) -> (r: Vec<u8>) {
        u32_to_le_bytes(self.0)
    }

    fn from_le_bytes(b: &[u8]) -> (r: Self) {
        proof {
            lemma_auto_spec_u32_to_from_le_bytes();
        }
        F32Bits(u32_from_le_bytes(b))
    }

    proof fn lemma_bytes_len(self) {
        lemma_auto_spec_u32_to_from_le_bytes();
    }

    proof fn lemma_bytes_inj(self, other: Self) {
        lemma_auto_spec_u32_to_from_le_bytes();
        assert(spec_u32_to_le_bytes(self.0).len() == 4);
        assert(spec_u32_to_le_bytes(other.0).len() == 4);
        assert(spec_u32_from_le_bytes(spec_u32_to_le_bytes(self.0)) == self.0);
        assert(spec_u32_from_le_bytes(spec_u32_to_le_bytes(other.0)) == other.0);
    }
}

impl Scalar for F64Bits {
    open spec fn spec_st() -> ScalarType {
        ScalarType::F64
    }

    open spec fn spec_bytes(self) -> Seq<u8> {
        spec_u64_to_le_bytes(self.0)
    }

    fn scalar_type() -> (r: ScalarType) {
        ScalarType::F64
    }

    fn to_le_bytes(self) -> (r: Vec<u8>) {
        u64_to_le_bytes(self.0)
    }

    fn from_le_bytes(b: &[u8]) -> (r: Self) {
        proof {
            lemma_auto_spec_u64_to_from_le_bytes();
        }
        F64Bits(u64_from_le_bytes(b))
    }

    proof fn lemma_bytes_len(self) {
        lemma_auto_spec_u64_to_from_le_bytes();
    }

    proof fn lemma_bytes_inj(self, other: Self) {
        lemma_auto_spec_u64_to_from_le_bytes();
        assert(spec_u64_from_le_bytes(spec_u64_to_le_bytes(self.0)) == self.0);
        assert(spec_u64_from_le_bytes(spec_u64_to_le_bytes(other.0)) == other.0);
    }
}

/// The concatenated little-endian encodings of a value list, in order:
/// the wire form of specialization bytes and of packed push constants.
pub open spec fn spec_scalar_elems_bytes(values: Seq<ScalarElem>) -> Seq<u8>
    decreases values.len(),
{
    if values.len() == 0 {
        Seq::empty()
    } else {
        spec_scalar_elems_bytes(values.drop_last()) + values.last().spec_bytes()
    }
}

/// Encode a value list as its concatenated little-endian bytes.
pub fn scalar_elems_to_bytes(values: &Vec<ScalarElem>) -> (r: Vec<u8>)
    ensures
        r@ == spec_scalar_elems_bytes(values@),
{
    let mut out: Vec<u8> = Vec::new();
    let mut i: usize = 0;
    while i < values.len()
        invariant
            0 <= i <= values@.len(),
            out@ == spec_scalar_elems_bytes(values@.take(i as int)),
        decreases values@.len() - i,
    {
        let mut piece = values[i].to_le_bytes();
        out.append(&mut piece);
        proof {
            assert(values@.take(i + 1).drop_last() =~= values@.take(i as int));
            assert(values@.take(i + 1).last() == values@[i as int]);
        }
        i += 1;
    }
    proof {
        assert(values@.take(values@.len() as int) =~= values@);
    }
    out
}
} // verus!
