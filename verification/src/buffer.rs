//! Buffers: untyped raw storage that lives on the host or on one engine,
//! and the typed façade over it.
//!
//! A host buffer owns its bytes; a device buffer holds a range reference
//! into engine memory. All byte lengths and offsets are whole multiples of
//! the element size, and a typed buffer's element type always matches the
//! recorded scalar type.

use crate::device::{Device, DeviceId, DeviceInner, DeviceLost};
use crate::engine::{DeviceBuffer, Engine, OpKind};
use crate::scalar::{
    decode_elems, encode_elems, lemma_elems_bytes_inj, lemma_elems_bytes_len, spec_elems_bytes,
    Scalar, ScalarType,
};
use core::marker::PhantomData;
use vstd::prelude::*;

verus! {

/// Host access was requested on a slice that resides on a device.
#[derive(Clone, Copy, Debug, PartialEq, Eq, Structural)]
pub struct SliceOnDeviceError {
    pub index: usize,
}

impl SliceOnDeviceError {
    /// The error for a slice on the device with this physical index.
    pub fn new(index: usize) -> (r: SliceOnDeviceError)
        ensures
            r.index == index,
    {
        SliceOnDeviceError { index }
    }

    /// The physical index of the device the slice is on.
    pub fn index(&self) -> (r: usize)
        ensures
            r == self.index,
    {
        self.index
    }

    /// A short description; the device index is in `index`.
    pub fn message(&self) -> (r: &'static str)
        ensures
            r@ == "the slice is on a device, not the host"@,
    {
        "the slice is on a device, not the host"
    }
}

/// Where a raw slice's bytes live: owned host bytes, or a range of one
/// engine allocation.
#[derive(Debug)]
pub enum RawSliceInner {
    Host(Vec<u8>),
    Device(DeviceBuffer),
}

/// An untyped slice: a device identity, an element type, and the backing
/// bytes on the host or on that device.
#[derive(Debug)]
pub struct RawSlice {
    pub device: DeviceId,
    pub scalar_type: ScalarType,
    pub inner: RawSliceInner,
}

impl RawSlice {
    /// Invariant: host slices carry the host identity; device slices point
    /// at their own device, and their range is element-aligned.
    pub open spec fn wf(&self) -> bool {
        match self.inner {
            RawSliceInner::Host(b) => {
                &&& self.device == DeviceId::Host
                &&& b@.len() % self.scalar_type.spec_size() == 0
            },
            RawSliceInner::Device(d) => {
                &&& self.device == d.device
                &&& self.device != DeviceId::Host
                &&& d.len as int % self.scalar_type.spec_size() as int == 0
                &&& d.offset as int % self.scalar_type.spec_size() as int == 0
                &&& d.offset + d.len <= usize::MAX
            },
        }
    }

    /// Whether the bytes live on the host.
    pub open spec fn is_host_spec(&self) -> bool {
        self.inner is Host
    }

    /// The bytes of a host slice.
    pub open spec fn spec_host_bytes(&self) -> Seq<u8> {
        match self.inner {
            RawSliceInner::Host(b) => b@,
            RawSliceInner::Device(_) => Seq::empty(),
        }
    }

    /// The device range of a device slice.
    pub open spec fn spec_device_ref(&self) -> DeviceBuffer {
        match self.inner {
            RawSliceInner::Host(_) => DeviceBuffer {
                device: DeviceId::Host,
                alloc_id: 0,
                offset: 0,
                len: 0,
            },
            RawSliceInner::Device(d) => d,
        }
    }

    /// The length in bytes.
    pub open spec fn spec_len_bytes(&self) -> nat {
        match self.inner {
            RawSliceInner::Host(b) => b@.len(),
            RawSliceInner::Device(d) => d.len as nat,
        }
    }

    /// The length in elements.
    pub open spec fn spec_len(&self) -> nat {
        self.spec_len_bytes() / self.scalar_type.spec_size()
    }

    /// A host slice over the given bytes; their length must be a whole
    /// number of elements.
    pub fn from_bytes(scalar_type: ScalarType, bytes: Vec<u8>) -> (r: RawSlice)
        requires
            bytes@.len() % scalar_type.spec_size() == 0,
        ensures
            r.wf(),
            r.device == DeviceId::Host,
            r.scalar_type == scalar_type,
            r.is_host_spec(),
            r.spec_host_bytes() == bytes@,
    {
        RawSlice { device: DeviceId::Host, scalar_type, inner: RawSliceInner::Host(bytes) }
    }

    /// The length in elements.
    pub fn len(&self) -> (r: usize)
        requires
            self.wf(),
        ensures
            r == self.spec_len(),
    {
        let width = self.scalar_type.size();
        match &self.inner {
            RawSliceInner::Host(b) => b.len() / width,
            RawSliceInner::Device(d) => d.len / width,
        }
    }

    /// Whether the slice holds no elements.
    pub fn is_empty(&self) -> (r: bool)
        requires
            self.wf(),
        ensures
            r == (self.spec_len_bytes() == 0),
    {
        match &self.inner {
            RawSliceInner::Host(b) => b.len() == 0,
            RawSliceInner::Device(d) => d.len == 0,
        }
    }

    /// The element type recorded for these bytes.
    pub fn scalar_type(&self) -> (r: ScalarType)
        ensures
            r == self.scalar_type,
    {
        self.scalar_type
    }

    /// The identity of the device the bytes live on.
    pub fn device(&self) -> (r: DeviceId)
        ensures
            r == self.device,
    {
        self.device
    }

    /// The bytes of this slice, if it lives on the host; the error names
    /// the device's index otherwise.
    pub fn host_bytes(&self) -> (r: Result<&Vec<u8>, SliceOnDeviceError>)
        requires
            self.wf(),
        ensures
            match r {
                Ok(b) => self.is_host_spec() && b@ == self.spec_host_bytes(),
                Err(e) => {
                    &&& !self.is_host_spec()
                    &&& self.device matches DeviceId::Device { index, .. } && e.index == index
                },
            },
    {
        match &self.inner {
            RawSliceInner::Host(b) => Ok(b),
            RawSliceInner::Device(d) => {
                match self.device {
                    DeviceId::Host => Err(SliceOnDeviceError::new(0)),
                    DeviceId::Device { index, .. } => Err(SliceOnDeviceError::new(index)),
                }
            },
        }
    }

    /// Divide this slice at element index `mid`: the first `mid` elements
    /// and the rest. Both halves keep the device and element type; their
    /// lengths sum to the whole, and they cover disjoint element ranges.
    pub fn split_at(&self, mid: usize) -> (r: (RawSlice, RawSlice))
        requires
            self.wf(),
            mid <= self.spec_len(),
        ensures
            r.0.wf(),
            r.1.wf(),
            r.0.device == self.device,
            r.1.device == self.device,
            r.0.scalar_type == self.scalar_type,
            r.1.scalar_type == self.scalar_type,
            r.0.spec_len() == mid,
            r.1.spec_len() == self.spec_len() - mid,
            r.0.spec_len() + r.1.spec_len() == self.spec_len(),
            self.is_host_spec() ==> {
                &&& r.0.is_host_spec()
                &&& r.1.is_host_spec()
                &&& r.0.spec_host_bytes() == self.spec_host_bytes().take(
                    mid * self.scalar_type.spec_size(),
                )
                &&& r.1.spec_host_bytes() == self.spec_host_bytes().skip(
                    mid * self.scalar_type.spec_size(),
                )
            },
            !self.is_host_spec() ==> {
                &&& !r.0.is_host_spec()
                &&& !r.1.is_host_spec()
                &&& r.0.spec_device_ref() == (DeviceBuffer {
                    len: (mid * self.scalar_type.spec_size()) as usize,
                    ..self.spec_device_ref()
                })
                &&& r.1.spec_device_ref() == (DeviceBuffer {
                    offset: (self.spec_device_ref().offset + mid * self.scalar_type.spec_size())
                        as usize,
                    len: (self.spec_device_ref().len - mid * self.scalar_type.spec_size()) as usize,
                    ..self.spec_device_ref()
                })
                &&& r.0.spec_device_ref().offset + r.0.spec_device_ref().len == r.1.spec_device_ref().offset
            },
    {
        let width = self.scalar_type.size();
        let nbytes = match &self.inner {
            RawSliceInner::Host(b) => b.len(),
            RawSliceInner::Device(d) => d.len,
        };
        proof {
            lemma_mul_le_div_mul(mid as int, nbytes as int, width as int);
            lemma_split_lens(mid as int, nbytes as int, width as int);
        }
        let mid_bytes = mid * width;
        match &self.inner {
            RawSliceInner::Host(b) => {
                let head = crate::bytes::read_range(b, 0, mid_bytes);
                let tail = crate::bytes::read_range(b, mid_bytes, b.len() - mid_bytes);
                proof {
                    assert(head@ =~= b@.take(mid_bytes as int));
                    assert(tail@ =~= b@.skip(mid_bytes as int));
                }
                let a = RawSlice {
                    device: self.device,
                    scalar_type: self.scalar_type,
                    inner: RawSliceInner::Host(head),
                };
                let c = RawSlice {
                    device: self.device,
                    scalar_type: self.scalar_type,
                    inner: RawSliceInner::Host(tail),
                };
                (a, c)
            },
            RawSliceInner::Device(d) => {
                let head = DeviceBuffer {
                    device: d.device,
                    alloc_id: d.alloc_id,
                    offset: d.offset,
                    len: mid_bytes,
                };
                let tail = DeviceBuffer {
                    device: d.device,
                    alloc_id: d.alloc_id,
                    offset: d.offset + mid_bytes,
                    len: d.len - mid_bytes,
                };
                proof {
                    lemma_mod_add_multiple(d.offset as int, mid as int, width as int);
                }
                let a = RawSlice {
                    device: self.device,
                    scalar_type: self.scalar_type,
                    inner: RawSliceInner::Device(head),
                };
                let c = RawSlice {
                    device: self.device,
                    scalar_type: self.scalar_type,
                    inner: RawSliceInner::Device(tail),
                };
                (a, c)
            },
        }
    }
}

/// For `0 <= m <= n / w` (with `w | n`), `m * w <= n`, and both parts of
/// the split stay element-aligned.
proof fn lemma_mul_le_div_mul(m: int, n: int, w: int)
    requires
        w >= 1,
        n >= 0,
        n % w == 0,
        0 <= m <= n / w,
    ensures
        m * w <= n,
        n - m * w >= 0,
        (m * w) % w == 0,
        (n - m * w) % w == 0,
{
    let k = n / w;
    vstd::arithmetic::div_mod::lemma_fundamental_div_mod(n, w);
    assert(n == k * w);
    assert(m * w <= k * w) by (nonlinear_arith)
        requires
            w >= 1,
            0 <= m <= k,
    ;
    assert((m * w) % w == 0) by (nonlinear_arith)
        requires
            w >= 1,
    ;
    vstd::arithmetic::div_mod::lemma_mod_multiples_basic(k - m, w);
    assert((k - m) * w == k * w - m * w) by (nonlinear_arith);
}

/// Element counts of an exact split: `m * w` bytes hold `m` elements and
/// the remaining `n - m * w` bytes hold `n / w - m`.
proof fn lemma_split_lens(m: int, n: int, w: int)
    requires
        w >= 1,
        n >= 0,
        n % w == 0,
        0 <= m <= n / w,
    ensures
        (m * w) / w == m,
        (n - m * w) / w == n / w - m,
{
    let k = n / w;
    vstd::arithmetic::div_mod::lemma_fundamental_div_mod(n, w);
    assert(n == k * w);
    assert((m * w) / w == m) by (nonlinear_arith)
        requires
            w >= 1,
            m >= 0,
    ;
    assert((k * w - m * w) / w == k - m) by (nonlinear_arith)
        requires
            w >= 1,
            0 <= m <= k,
    ;
}

/// A sum of two multiples of `w` is a multiple of `w`.
proof fn lemma_mod_add_multiple(a: int, m: int, w: int)
    requires
        w >= 1,
        a >= 0,
        m >= 0,
        a % w == 0,
    ensures
        (a + m * w) % w == 0,
{
    vstd::arithmetic::div_mod::lemma_mod_multiples_vanish(m, a, w);
    assert(w * m == m * w) by (nonlinear_arith);
}

/// An owned untyped buffer: the raw slice it consists of.
#[derive(Debug)]
pub struct RawBuffer {
    pub slice: RawSlice,
}

impl RawBuffer {
    /// Invariant: the underlying slice is well-formed.
    pub open spec fn wf(&self) -> bool {
        self.slice.wf()
    }

    /// A host buffer over the given bytes.
    pub fn from_bytes(scalar_type: ScalarType, bytes: Vec<u8>) -> (r: RawBuffer)
        requires
            bytes@.len() % scalar_type.spec_size() == 0,
        ensures
            r.wf(),
            r.slice.device == DeviceId::Host,
            r.slice.scalar_type == scalar_type,
            r.slice.is_host_spec(),
            r.slice.spec_host_bytes() == bytes@,
    {
        RawBuffer { slice: RawSlice::from_bytes(scalar_type, bytes) }
    }

    /// The length in elements.
    pub fn len(&self) -> (r: usize)
        requires
            self.wf(),
        ensures
            r == self.slice.spec_len(),
    {
        self.slice.len()
    }
}

/// `m` elements of width `w` occupy `m * w` bytes: a whole number of
/// elements, dividing back to `m`.
pub proof fn lemma_elems_len(m: int, w: int)
    requires
        w >= 1,
        m >= 0,
    ensures
        (m * w) % w == 0,
        (m * w) / w == m,
        m * w >= 0,
{
    vstd::arithmetic::div_mod::lemma_mod_multiples_basic(m, w);
    assert((m * w) / w == m) by (nonlinear_arith)
        requires
            w >= 1,
            m >= 0,
    ;
    assert(m * w >= 0) by (nonlinear_arith)
        requires
            w >= 1,
            m >= 0,
    ;
}

/// Two element sequences with the same encoding are the same sequence.
/// This is the round-trip law behind `from_vec` and `into_vec`: the bytes
/// a vector was stored as decode back to exactly that vector.
pub proof fn lemma_elems_round_trip<T: Scalar>(v: Seq<T>, w: Seq<T>)
    requires
        spec_elems_bytes(v) == spec_elems_bytes(w),
    ensures
        v == w,
{
    lemma_elems_bytes_len::<T>(v);
    lemma_elems_bytes_len::<T>(w);
    assert(v.len() == w.len()) by (nonlinear_arith)
        requires
            v.len() * T::spec_st().spec_size() == w.len() * T::spec_st().spec_size(),
            T::spec_st().spec_size() >= 1,
    ;
    lemma_elems_bytes_inj(v, w);
}

/// A typed owned buffer of `T` elements, on the host or on one device.
#[derive(Debug)]
pub struct Buffer<T: Scalar> {
    pub raw: RawBuffer,
    pub _marker: PhantomData<T>,
}

/// A typed immutable slice of `T` elements. On the host it carries its
/// own copy of the bytes; on a device it references a range of engine
/// memory.
#[derive(Debug)]
pub struct Slice<T: Scalar> {
    pub raw: RawSlice,
    pub _marker: PhantomData<T>,
}

/// A typed slice of `T` elements handed to kernels for writing. Two
/// mutable slices made by `split_at_mut` cover disjoint element ranges.
#[derive(Debug)]
pub struct SliceMut<T: Scalar> {
    pub raw: RawSlice,
    pub _marker: PhantomData<T>,
}

impl<T: Scalar> Buffer<T> {
    /// Invariant: the raw buffer is well-formed and records exactly this
    /// element type.
    pub open spec fn wf(&self) -> bool {
        &&& self.raw.wf()
        &&& self.raw.slice.scalar_type == T::spec_st()
    }

    /// The identity of the device the elements live on.
    pub open spec fn spec_device(&self) -> DeviceId {
        self.raw.slice.device
    }

    /// The length in elements.
    pub open spec fn spec_len(&self) -> nat {
        self.raw.slice.spec_len()
    }

    /// The byte encoding of the elements of a host buffer.
    pub open spec fn spec_host_bytes(&self) -> Seq<u8> {
        self.raw.slice.spec_host_bytes()
    }

    /// The engine range of a device buffer.
    pub open spec fn spec_device_ref(&self) -> DeviceBuffer {
        self.raw.slice.spec_device_ref()
    }

    /// Whether a device buffer's range points into the engine owned by
    /// `device`; host buffers need no engine.
    pub open spec fn valid_in(&self, device: Device) -> bool {
        match self.raw.slice.inner {
            RawSliceInner::Host(_) => true,
            RawSliceInner::Device(d) => {
                &&& device.spec_engine() is Some
                &&& d.valid(device.spec_engine().unwrap())
            },
        }
    }

    /// The byte encoding of the elements, wherever they live: host bytes,
    /// or the referenced engine range.
    pub open spec fn spec_bytes_in(&self, device: Device) -> Seq<u8> {
        match self.raw.slice.inner {
            RawSliceInner::Host(b) => b@,
            RawSliceInner::Device(d) => d.spec_bytes(device.spec_engine().unwrap()),
        }
    }

    /// A host buffer holding exactly the elements of `v`.
    pub fn from_vec(v: Vec<T>) -> (r: Buffer<T>)
        ensures
            r.wf(),
            r.spec_device() == DeviceId::Host,
            r.raw.slice.is_host_spec(),
            r.spec_len() == v@.len(),
            r.spec_host_bytes() == spec_elems_bytes(v@),
    {
        let bytes = encode_elems(&v);
        let width = T::scalar_type().size();
        proof {
            lemma_elems_len(v@.len() as int, width as int);
        }
        Buffer {
            raw: RawBuffer::from_bytes(T::scalar_type(), bytes),
            _marker: PhantomData,
        }
    }

    /// The identity of the device the elements live on.
    pub fn device(&self) -> (r: DeviceId)
        ensures
            r == self.spec_device(),
    {
        self.raw.slice.device()
    }

    /// The element type of this buffer.
    pub fn scalar_type(&self) -> (r: ScalarType)
        requires
            self.wf(),
        ensures
            r == T::spec_st(),
            r == self.raw.slice.scalar_type,
    {
        self.raw.slice.scalar_type()
    }

    /// The length in elements.
    pub fn len(&self) -> (r: usize)
        requires
            self.wf(),
        ensures
            r == self.spec_len(),
    {
        self.raw.slice.len()
    }

    /// Whether the buffer holds no elements.
    pub fn is_empty(&self) -> (r: bool)
        requires
            self.wf(),
        ensures
            r == (self.spec_len() == 0),
    {
        self.len() == 0
    }

    /// The elements of a host buffer, decoded; fails with the device's
    /// index when the buffer is device-resident.
    pub fn as_host_slice(&self) -> (r: Result<Vec<T>, SliceOnDeviceError>)
        requires
            self.wf(),
        ensures
            match r {
                Ok(v) => {
                    &&& self.raw.slice.is_host_spec()
                    &&& spec_elems_bytes(v@) == self.spec_host_bytes()
                    &&& v@.len() == self.spec_len()
                },
                Err(e) => {
                    &&& !self.raw.slice.is_host_spec()
                    &&& self.spec_device() matches DeviceId::Device { index, .. } && e.index
                        == index
                },
            },
    {
        let width = T::scalar_type().size();
        match self.raw.slice.host_bytes() {
            Ok(b) => {
                let v = decode_elems::<T>(b);
                proof {
                    lemma_split_lens(v@.len() as int, b@.len() as int, width as int);
                }
                Ok(v)
            },
            Err(e) => Err(e),
        }
    }

    /// An immutable typed view of this buffer. On the host the view
    /// carries a copy of the bytes; on a device it references the same
    /// engine range.
    pub fn as_slice(&self) -> (r: Slice<T>)
        requires
            self.wf(),
        ensures
            r.wf(),
            r.raw.device == self.spec_device(),
            r.raw.scalar_type == T::spec_st(),
            r.spec_len() == self.spec_len(),
            r.raw.is_host_spec() == self.raw.slice.is_host_spec(),
            r.raw.spec_host_bytes() == self.spec_host_bytes(),
            r.raw.spec_device_ref() == self.spec_device_ref(),
    {
        match &self.raw.slice.inner {
            RawSliceInner::Host(b) => {
                let copy = crate::bytes::read_range(b, 0, b.len());
                proof {
                    assert(copy@ =~= b@);
                }
                Slice {
                    raw: RawSlice {
                        device: self.raw.slice.device,
                        scalar_type: self.raw.slice.scalar_type,
                        inner: RawSliceInner::Host(copy),
                    },
                    _marker: PhantomData,
                }
            },
            RawSliceInner::Device(d) => Slice {
                raw: RawSlice {
                    device: self.raw.slice.device,
                    scalar_type: self.raw.slice.scalar_type,
                    inner: RawSliceInner::Device(*d),
                },
                _marker: PhantomData,
            },
        }
    }

    /// A mutable typed view of this buffer, for kernels to write through.
    /// On the host the view carries a copy of the bytes; host buffers are
    /// written through their owner, not through views.
    pub fn as_slice_mut(&mut self) -> (r: SliceMut<T>)
        requires
            old(self).wf(),
        ensures
            *final(self) == *old(self),
            r.wf(),
            r.raw.device == old(self).spec_device(),
            r.raw.scalar_type == T::spec_st(),
            r.spec_len() == old(self).spec_len(),
            r.raw.is_host_spec() == old(self).raw.slice.is_host_spec(),
            r.raw.spec_host_bytes() == old(self).spec_host_bytes(),
            r.raw.spec_device_ref() == old(self).spec_device_ref(),
    {
        let s = self.as_slice();
        SliceMut { raw: s.raw, _marker: PhantomData }
    }

    /// Divide this buffer at element index `mid` into two immutable
    /// views whose lengths sum to the whole and whose element ranges are
    /// disjoint.
    pub fn split_at(&self, mid: usize) -> (r: (Slice<T>, Slice<T>))
        requires
            self.wf(),
            mid <= self.spec_len(),
        ensures
            r.0.wf(),
            r.1.wf(),
            r.0.raw.device == self.spec_device(),
            r.1.raw.device == self.spec_device(),
            r.0.spec_len() == mid,
            r.1.spec_len() == self.spec_len() - mid,
            self.raw.slice.is_host_spec() ==> {
                &&& r.0.raw.spec_host_bytes() == self.spec_host_bytes().take(
                    mid * T::spec_st().spec_size(),
                )
                &&& r.1.raw.spec_host_bytes() == self.spec_host_bytes().skip(
                    mid * T::spec_st().spec_size(),
                )
            },
            !self.raw.slice.is_host_spec() ==> {
                &&& r.0.raw.spec_device_ref() == (DeviceBuffer {
                    len: (mid * T::spec_st().spec_size()) as usize,
                    ..self.spec_device_ref()
                })
                &&& r.1.raw.spec_device_ref() == (DeviceBuffer {
                    offset: (self.spec_device_ref().offset + mid * T::spec_st().spec_size())
                        as usize,
                    len: (self.spec_device_ref().len - mid * T::spec_st().spec_size()) as usize,
                    ..self.spec_device_ref()
                })
            },
    {
        let (a, b) = self.raw.slice.split_at(mid);
        (Slice { raw: a, _marker: PhantomData }, Slice { raw: b, _marker: PhantomData })
    }

    /// Divide this buffer at element index `mid` into two mutable views
    /// covering disjoint element ranges.
    pub fn split_at_mut(&mut self, mid: usize) -> (r: (SliceMut<T>, SliceMut<T>))
        requires
            old(self).wf(),
            mid <= old(self).spec_len(),
        ensures
            *final(self) == *old(self),
            r.0.wf(),
            r.1.wf(),
            r.0.raw.device == old(self).spec_device(),
            r.1.raw.device == old(self).spec_device(),
            r.0.spec_len() == mid,
            r.1.spec_len() == old(self).spec_len() - mid,
            !old(self).raw.slice.is_host_spec() ==> {
                &&& r.0.raw.spec_device_ref() == (DeviceBuffer {
                    len: (mid * T::spec_st().spec_size()) as usize,
                    ..old(self).spec_device_ref()
                })
                &&& r.1.raw.spec_device_ref() == (DeviceBuffer {
                    offset: (old(self).spec_device_ref().offset + mid * T::spec_st().spec_size())
                        as usize,
                    len: (old(self).spec_device_ref().len - mid * T::spec_st().spec_size())
                        as usize,
                    ..old(self).spec_device_ref()
                })
            },
    {
        let (a, b) = self.raw.slice.split_at(mid);
        (SliceMut { raw: a, _marker: PhantomData }, SliceMut { raw: b, _marker: PhantomData })
    }

    /// Move this buffer to `device`. A buffer already there is returned
    /// unchanged; a host buffer is uploaded to a fresh device allocation,
    /// and the upload is queued before this returns. A lost device fails
    /// fast and leaves nothing allocated.
    pub fn into_device(self, device: &mut Device) -> (r: Result<Buffer<T>, DeviceLost>)
        requires
            self.wf(),
            old(device).wf(),
            self.spec_device() == old(device).spec_id() || self.spec_device() == DeviceId::Host,
        ensures
            final(device).wf(),
            final(device).spec_id() == old(device).spec_id(),
            self.spec_device() == old(device).spec_id() ==> {
                &&& r is Ok
                &&& r.unwrap() == self
                &&& *final(device) == *old(device)
            },
            self.spec_device() != old(device).spec_id() ==> {
                let e = old(device).spec_engine().unwrap();
                if e.lost {
                    &&& r == Err::<Buffer<T>, DeviceLost>(e.lost_id())
                    &&& *final(device) == *old(device)
                } else {
                    let e2 = final(device).spec_engine().unwrap();
                    &&& r is Ok
                    &&& r.unwrap().wf()
                    &&& r.unwrap().spec_device() == old(device).spec_id()
                    &&& r.unwrap().spec_len() == self.spec_len()
                    &&& !r.unwrap().raw.slice.is_host_spec()
                    &&& r.unwrap().valid_in(*final(device))
                    &&& r.unwrap().spec_bytes_in(*final(device)) == self.spec_host_bytes()
                    &&& e2 == (Engine { allocs: e2.allocs, ops: e2.ops, ..e })
                    &&& e2.ops@ == (if self.spec_host_bytes().len() == 0 {
                        e.ops@
                    } else {
                        e.ops@.push(OpKind::Upload)
                    })
                    &&& e2.allocs@.len() == e.allocs@.len() + 1
                    &&& forall|i: int|
                        0 <= i < e.allocs@.len() ==> e2.allocs@[i] == e.allocs@[i]
                }
            },
    {
        match &mut device.inner {
            DeviceInner::Host => Ok(self),
            DeviceInner::Device(engine) => {
                let engine_id = engine.device_id();
                if self.raw.slice.device == engine_id {
                    Ok(self)
                } else {
                    match self.raw.slice.inner {
                        RawSliceInner::Host(b) => {
                            let ghost e0 = *engine;
                            let nbytes = b.len();
                            let dbuf = match engine.allocate(nbytes) {
                                Ok(dbuf) => dbuf,
                                Err(e) => {
                                    return Err(e);
                                },
                            };
                            let ghost e1 = *engine;
                            if nbytes > 0 {
                                match engine.upload(&dbuf, &b) {
                                    Ok(_) => {},
                                    Err(e) => {
                                        proof {
                                            assert(false);
                                        }
                                        return Err(e);
                                    },
                                }
                                proof {
                                    assert forall|i: int|
                                        0 <= i < e0.allocs@.len() implies engine.allocs@[i]
                                        == e0.allocs@[i] by {
                                        assert(dbuf.alloc_id == e0.allocs@.len());
                                        assert(0 <= i < e1.allocs@.len() && i != dbuf.alloc_id
                                            as int);
                                        assert(engine.allocs@[i] == e1.allocs@[i]);
                                        assert(e1.allocs@[i] == e0.allocs@[i]);
                                    }
                                }
                            } else {
                                proof {
                                    assert(dbuf.spec_bytes(*engine) =~= b@);
                                }
                            }
                            Ok(
                                Buffer {
                                    raw: RawBuffer {
                                        slice: RawSlice {
                                            device: engine_id,
                                            scalar_type: self.raw.slice.scalar_type,
                                            inner: RawSliceInner::Device(dbuf),
                                        },
                                    },
                                    _marker: PhantomData,
                                },
                            )
                        },
                        RawSliceInner::Device(_) => {
                            proof {
                                assert(false);
                            }
                            Err(engine.lost_error())
                        },
                    }
                }
            },
        }
    }

    /// The elements of this buffer as a vector: decoded directly on the
    /// host, or downloaded (and the download awaited) from a device. The
    /// device argument must be the one this buffer lives on.
    pub fn to_vec(&self, device: &mut Device) -> (r: Result<Vec<T>, DeviceLost>)
        requires
            self.wf(),
            old(device).wf(),
            self.spec_device() == old(device).spec_id(),
            self.valid_in(*old(device)),
        ensures
            final(device).wf(),
            final(device).spec_id() == old(device).spec_id(),
            self.raw.slice.is_host_spec() ==> {
                &&& r is Ok
                &&& spec_elems_bytes(r.unwrap()@) == self.spec_host_bytes()
                &&& r.unwrap()@.len() == self.spec_len()
                &&& *final(device) == *old(device)
            },
            !self.raw.slice.is_host_spec() ==> {
                let e = old(device).spec_engine().unwrap();
                if e.lost {
                    &&& r == Err::<Vec<T>, DeviceLost>(e.lost_id())
                    &&& *final(device) == *old(device)
                } else {
                    let e2 = final(device).spec_engine().unwrap();
                    &&& r is Ok
                    &&& spec_elems_bytes(r.unwrap()@) == self.spec_bytes_in(*old(device))
                    &&& r.unwrap()@.len() == self.spec_len()
                    &&& e2 == (Engine {
                        ops: e2.ops,
                        completed: e2.completed,
                        ..e
                    })
                    &&& e2.ops@ == (if self.spec_len() == 0 {
                        e.ops@
                    } else {
                        e.ops@.push(OpKind::Download)
                    })
                }
            },
    {
        let width = T::scalar_type().size();
        match &mut device.inner {
            DeviceInner::Host => {
                match &self.raw.slice.inner {
                    RawSliceInner::Host(b) => {
                        let v = decode_elems::<T>(b);
                        proof {
                            lemma_split_lens(v@.len() as int, b@.len() as int, width as int);
                        }
                        Ok(v)
                    },
                    RawSliceInner::Device(_) => {
                        proof {
                            assert(false);
                        }
                        Err(DeviceLost { index: 0, handle: 0 })
                    },
                }
            },
            DeviceInner::Device(engine) => {
                match &self.raw.slice.inner {
                    RawSliceInner::Host(_) => {
                        proof {
                            assert(false);
                        }
                        Err(engine.lost_error())
                    },
                    RawSliceInner::Device(d) => {
                        if d.len == 0 {
                            if engine.lost {
                                return Err(engine.lost_error());
                            }
                            let v: Vec<T> = Vec::new();
                            proof {
                                assert(spec_elems_bytes(v@) =~= self.spec_bytes_in(*old(device)));
                            }
                            return Ok(v);
                        }
                        let fut = match engine.download(d) {
                            Ok(fut) => fut,
                            Err(e) => {
                                return Err(e);
                            },
                        };
                        let bytes = match fut.block(engine) {
                            Ok(bytes) => bytes,
                            Err(e) => {
                                proof {
                                    assert(false);
                                }
                                return Err(e);
                            },
                        };
                        let v = decode_elems::<T>(&bytes);
                        proof {
                            lemma_split_lens(v@.len() as int, bytes@.len() as int, width as int);
                        }
                        Ok(v)
                    },
                }
            },
        }
    }

    /// Consume this buffer and return its elements as a vector; see
    /// [`Buffer::to_vec`].
    pub fn into_vec(self, device: &mut Device) -> (r: Result<Vec<T>, DeviceLost>)
        requires
            self.wf(),
            old(device).wf(),
            self.spec_device() == old(device).spec_id(),
            self.valid_in(*old(device)),
        ensures
            final(device).wf(),
            final(device).spec_id() == old(device).spec_id(),
            self.raw.slice.is_host_spec() ==> {
                &&& r is Ok
                &&& spec_elems_bytes(r.unwrap()@) == self.spec_host_bytes()
                &&& r.unwrap()@.len() == self.spec_len()
                &&& *final(device) == *old(device)
            },
            !self.raw.slice.is_host_spec() ==> {
                let e = old(device).spec_engine().unwrap();
                if e.lost {
                    &&& r == Err::<Vec<T>, DeviceLost>(e.lost_id())
                    &&& *final(device) == *old(device)
                } else {
                    let e2 = final(device).spec_engine().unwrap();
                    &&& r is Ok
                    &&& spec_elems_bytes(r.unwrap()@) == self.spec_bytes_in(*old(device))
                    &&& r.unwrap()@.len() == self.spec_len()
                    &&& e2 == (Engine {
                        ops: e2.ops,
                        completed: e2.completed,
                        ..e
                    })
                    &&& e2.ops@ == (if self.spec_len() == 0 {
                        e.ops@
                    } else {
                        e.ops@.push(OpKind::Download)
                    })
                }
            },
    {
        self.to_vec(device)
    }
}

impl<T: Scalar> Slice<T> {
    /// Invariant: the raw slice is well-formed and records exactly this
    /// element type.
    pub open spec fn wf(&self) -> bool {
        &&& self.raw.wf()
        &&& self.raw.scalar_type == T::spec_st()
    }

    /// The identity of the device the elements live on.
    pub open spec fn spec_device(&self) -> DeviceId {
        self.raw.device
    }

    /// The length in elements.
    pub open spec fn spec_len(&self) -> nat {
        self.raw.spec_len()
    }

    /// A host slice holding exactly the elements of `v`.
    pub fn from_vec(v: Vec<T>) -> (r: Slice<T>)
        ensures
            r.wf(),
            r.spec_device() == DeviceId::Host,
            r.raw.is_host_spec(),
            r.spec_len() == v@.len(),
            r.raw.spec_host_bytes() == spec_elems_bytes(v@),
    {
        let buffer = Buffer::from_vec(v);
        Slice { raw: buffer.raw.slice, _marker: PhantomData }
    }

    /// The identity of the device the elements live on.
    pub fn device(&self) -> (r: DeviceId)
        ensures
            r == self.spec_device(),
    {
        self.raw.device()
    }

    /// The element type of this slice.
    pub fn scalar_type(&self) -> (r: ScalarType)
        requires
            self.wf(),
        ensures
            r == T::spec_st(),
    {
        self.raw.scalar_type()
    }

    /// The length in elements.
    pub fn len(&self) -> (r: usize)
        requires
            self.wf(),
        ensures
            r == self.spec_len(),
    {
        self.raw.len()
    }

    /// The elements of a host slice, decoded; fails with the device's
    /// index when the slice is device-resident.
    pub fn as_host_slice(&self) -> (r: Result<Vec<T>, SliceOnDeviceError>)
        requires
            self.wf(),
        ensures
            match r {
                Ok(v) => {
                    &&& self.raw.is_host_spec()
                    &&& spec_elems_bytes(v@) == self.raw.spec_host_bytes()
                    &&& v@.len() == self.spec_len()
                },
                Err(e) => {
                    &&& !self.raw.is_host_spec()
                    &&& self.spec_device() matches DeviceId::Device { index, .. } && e.index
                        == index
                },
            },
    {
        let width = T::scalar_type().size();
        match self.raw.host_bytes() {
            Ok(b) => {
                let v = decode_elems::<T>(b);
                proof {
                    lemma_split_lens(v@.len() as int, b@.len() as int, width as int);
                }
                Ok(v)
            },
            Err(e) => Err(e),
        }
    }

    /// Divide this slice at element index `mid` into two views whose
    /// lengths sum to the whole and whose element ranges are disjoint.
    pub fn split_at(&self, mid: usize) -> (r: (Slice<T>, Slice<T>))
        requires
            self.wf(),
            mid <= self.spec_len(),
        ensures
            r.0.wf(),
            r.1.wf(),
            r.0.raw.device == self.spec_device(),
            r.1.raw.device == self.spec_device(),
            r.0.spec_len() == mid,
            r.1.spec_len() == self.spec_len() - mid,
            self.raw.is_host_spec() ==> {
                &&& r.0.raw.spec_host_bytes() == self.raw.spec_host_bytes().take(
                    mid * T::spec_st().spec_size(),
                )
                &&& r.1.raw.spec_host_bytes() == self.raw.spec_host_bytes().skip(
                    mid * T::spec_st().spec_size(),
                )
            },
            !self.raw.is_host_spec() ==> {
                &&& r.0.raw.spec_device_ref() == (DeviceBuffer {
                    len: (mid * T::spec_st().spec_size()) as usize,
                    ..self.raw.spec_device_ref()
                })
                &&& r.1.raw.spec_device_ref() == (DeviceBuffer {
                    offset: (self.raw.spec_device_ref().offset + mid * T::spec_st().spec_size())
                        as usize,
                    len: (self.raw.spec_device_ref().len - mid * T::spec_st().spec_size())
                        as usize,
                    ..self.raw.spec_device_ref()
                })
            },
    {
        let (a, b) = self.raw.split_at(mid);
        (Slice { raw: a, _marker: PhantomData }, Slice { raw: b, _marker: PhantomData })
    }
}

impl<T: Scalar> SliceMut<T> {
    /// Invariant: the raw slice is well-formed and records exactly this
    /// element type.
    pub open spec fn wf(&self) -> bool {
        &&& self.raw.wf()
        &&& self.raw.scalar_type == T::spec_st()
    }

    /// The identity of the device the elements live on.
    pub open spec fn spec_device(&self) -> DeviceId {
        self.raw.device
    }

    /// The length in elements.
    pub open spec fn spec_len(&self) -> nat {
        self.raw.spec_len()
    }

    /// The identity of the device the elements live on.
    pub fn device(&self) -> (r: DeviceId)
        ensures
            r == self.spec_device(),
    {
        self.raw.device()
    }

    /// The length in elements.
    pub fn len(&self) -> (r: usize)
        requires
            self.wf(),
        ensures
            r == self.spec_len(),
    {
        self.raw.len()
    }

    /// Divide this mutable slice at element index `mid` into two mutable
    /// views covering disjoint element ranges.
    pub fn split_at_mut(&mut self, mid: usize) -> (r: (SliceMut<T>, SliceMut<T>))
        requires
            old(self).wf(),
            mid <= old(self).spec_len(),
        ensures
            *final(self) == *old(self),
            r.0.wf(),
            r.1.wf(),
            r.0.raw.device == old(self).spec_device(),
            r.1.raw.device == old(self).spec_device(),
            r.0.spec_len() == mid,
            r.1.spec_len() == old(self).spec_len() - mid,
            !old(self).raw.is_host_spec() ==> {
                &&& r.0.raw.spec_device_ref() == (DeviceBuffer {
                    len: (mid * T::spec_st().spec_size()) as usize,
                    ..old(self).raw.spec_device_ref()
                })
                &&& r.1.raw.spec_device_ref() == (DeviceBuffer {
                    offset: (old(self).raw.spec_device_ref().offset + mid
                        * T::spec_st().spec_size()) as usize,
                    len: (old(self).raw.spec_device_ref().len - mid * T::spec_st().spec_size())
                        as usize,
                    ..old(self).raw.spec_device_ref()
                })
            },
    {
        let (a, b) = self.raw.split_at(mid);
        (SliceMut { raw: a, _marker: PhantomData }, SliceMut { raw: b, _marker: PhantomData })
    }
}

impl<T: Scalar> Slice<T> {
    /// Copy this slice's elements into an owned buffer on `device`: a
    /// host slice stays on the host or is uploaded; a slice already on
    /// `device` is copied there by a device-to-device transfer. The
    /// device argument must be this slice's own device, or the target of
    /// an upload from the host.
    pub fn to_device(&self, device: &mut Device) -> (r: Result<Buffer<T>, DeviceLost>)
        requires
            self.wf(),
            old(device).wf(),
            self.spec_device() == old(device).spec_id() || self.spec_device() == DeviceId::Host,
            !self.raw.is_host_spec() ==> self.raw.spec_device_ref().valid(
                old(device).spec_engine().unwrap(),
            ),
        ensures
            final(device).wf(),
            final(device).spec_id() == old(device).spec_id(),
            match r {
                Ok(buf) => {
                    &&& buf.wf()
                    &&& buf.spec_device() == old(device).spec_id()
                    &&& buf.spec_len() == self.spec_len()
                    &&& buf.valid_in(*final(device))
                    &&& (self.raw.is_host_spec() ==> buf.spec_bytes_in(*final(device))
                        == self.raw.spec_host_bytes())
                    &&& (!self.raw.is_host_spec() ==> buf.spec_bytes_in(*final(device))
                        == self.raw.spec_device_ref().spec_bytes(
                        old(device).spec_engine().unwrap(),
                    ))
                    &&& match old(device).spec_engine() {
                        None => *final(device) == *old(device),
                        Some(e) => {
                            let e2 = final(device).spec_engine().unwrap();
                            &&& e2 == (Engine { allocs: e2.allocs, ops: e2.ops, ..e })
                            &&& e2.allocs@.len() == e.allocs@.len() + 1
                            &&& forall|i: int|
                                0 <= i < e.allocs@.len() ==> e2.allocs@[i] == e.allocs@[i]
                            &&& e2.ops@ == (if self.raw.spec_len_bytes() == 0 {
                                e.ops@
                            } else {
                                e.ops@.push(
                                    if self.raw.is_host_spec() {
                                        OpKind::Upload
                                    } else {
                                        OpKind::Transfer
                                    },
                                )
                            })
                        },
                    }
                },
                Err(err) => {
                    &&& old(device).spec_engine() is Some
                    &&& old(device).spec_engine().unwrap().lost
                    &&& err == old(device).spec_engine().unwrap().lost_id()
                    &&& *final(device) == *old(device)
                },
            },
    {
        match &mut device.inner {
            DeviceInner::Host => {
                match &self.raw.inner {
                    RawSliceInner::Host(b) => {
                        let copy = crate::bytes::read_range(b, 0, b.len());
                        proof {
                            assert(copy@ =~= b@);
                        }
                        Ok(
                            Buffer {
                                raw: RawBuffer::from_bytes(self.raw.scalar_type, copy),
                                _marker: PhantomData,
                            },
                        )
                    },
                    RawSliceInner::Device(_) => {
                        proof {
                            assert(false);
                        }
                        Err(DeviceLost { index: 0, handle: 0 })
                    },
                }
            },
            DeviceInner::Device(engine) => {
                let engine_id = engine.device_id();
                match &self.raw.inner {
                    RawSliceInner::Host(b) => {
                        let ghost e0 = *engine;
                        let nbytes = b.len();
                        let dbuf = match engine.allocate(nbytes) {
                            Ok(dbuf) => dbuf,
                            Err(e) => {
                                return Err(e);
                            },
                        };
                        let ghost e1 = *engine;
                        if nbytes > 0 {
                            match engine.upload(&dbuf, b) {
                                Ok(_) => {},
                                Err(e) => {
                                    proof {
                                        assert(false);
                                    }
                                    return Err(e);
                                },
                            }
                            proof {
                                assert forall|i: int|
                                    0 <= i < e0.allocs@.len() implies engine.allocs@[i]
                                    == e0.allocs@[i] by {
                                    assert(dbuf.alloc_id == e0.allocs@.len());
                                    assert(0 <= i < e1.allocs@.len() && i != dbuf.alloc_id as int);
                                    assert(engine.allocs@[i] == e1.allocs@[i]);
                                    assert(e1.allocs@[i] == e0.allocs@[i]);
                                }
                            }
                        } else {
                            proof {
                                assert(dbuf.spec_bytes(*engine) =~= b@);
                            }
                        }
                        Ok(
                            Buffer {
                                raw: RawBuffer {
                                    slice: RawSlice {
                                        device: engine_id,
                                        scalar_type: self.raw.scalar_type,
                                        inner: RawSliceInner::Device(dbuf),
                                    },
                                },
                                _marker: PhantomData,
                            },
                        )
                    },
                    RawSliceInner::Device(d) => {
                        let ghost e0 = *engine;
                        let dbuf = match engine.allocate(d.len) {
                            Ok(dbuf) => dbuf,
                            Err(e) => {
                                return Err(e);
                            },
                        };
                        let ghost e1 = *engine;
                        if d.len > 0 {
                            match engine.transfer(d, &dbuf) {
                                Ok(_) => {},
                                Err(e) => {
                                    proof {
                                        assert(false);
                                    }
                                    return Err(e);
                                },
                            }
                            proof {
                                assert forall|i: int|
                                    0 <= i < e0.allocs@.len() implies engine.allocs@[i]
                                    == e0.allocs@[i] by {
                                    assert(dbuf.alloc_id == e0.allocs@.len());
                                    assert(0 <= i < e1.allocs@.len() && i != dbuf.alloc_id as int);
                                    assert(engine.allocs@[i] == e1.allocs@[i]);
                                    assert(e1.allocs@[i] == e0.allocs@[i]);
                                }
                                assert(d.spec_bytes(e1) =~= d.spec_bytes(e0));
                                assert(dbuf.spec_bytes(*engine) =~= d.spec_bytes(e0));
                            }
                        } else {
                            proof {
                                assert(dbuf.spec_bytes(*engine) =~= d.spec_bytes(e0));
                            }
                        }
                        Ok(
                            Buffer {
                                raw: RawBuffer {
                                    slice: RawSlice {
                                        device: engine_id,
                                        scalar_type: self.raw.scalar_type,
                                        inner: RawSliceInner::Device(dbuf),
                                    },
                                },
                                _marker: PhantomData,
                            },
                        )
                    },
                }
            },
        }
    }
}

impl<T: Scalar> Buffer<T> {
    /// Move this buffer to `device` in place; see [`Buffer::into_device`].
    /// A lost device fails fast and leaves the buffer unchanged.
    pub fn to_device_mut(&mut self, device: &mut Device) -> (r: Result<(), DeviceLost>)
        requires
            old(self).wf(),
            old(device).wf(),
            old(self).valid_in(*old(device)),
            old(self).spec_device() == old(device).spec_id() || old(self).spec_device()
                == DeviceId::Host,
        ensures
            final(self).wf(),
            final(device).wf(),
            final(device).spec_id() == old(device).spec_id(),
            match r {
                Ok(_) => {
                    &&& final(self).spec_device() == old(device).spec_id()
                    &&& final(self).spec_len() == old(self).spec_len()
                    &&& final(self).valid_in(*final(device))
                    &&& (old(self).spec_device() == old(device).spec_id()
                        ==> *final(self) == *old(self) && *final(device) == *old(device))
                    &&& (old(self).spec_device() != old(device).spec_id()
                        ==> final(self).spec_bytes_in(*final(device))
                        == old(self).spec_host_bytes())
                },
                Err(err) => {
                    &&& old(device).spec_engine() is Some
                    &&& old(device).spec_engine().unwrap().lost
                    &&& err == old(device).spec_engine().unwrap().lost_id()
                    &&& *final(self) == *old(self)
                    &&& *final(device) == *old(device)
                },
            },
    {
        let already_there = match &device.inner {
            DeviceInner::Host => self.raw.slice.device().is_host(),
            DeviceInner::Device(engine) => {
                if engine.lost && self.raw.slice.device() != engine.device_id() {
                    return Err(engine.lost_error());
                }
                self.raw.slice.device() == engine.device_id()
            },
        };
        if already_there {
            return Ok(());
        }
        let mut taken = Buffer::from_vec(Vec::new());
        core::mem::swap(self, &mut taken);
        match taken.into_device(device) {
            Ok(moved) => {
                let mut moved = moved;
                core::mem::swap(self, &mut moved);
                Ok(())
            },
            Err(e) => {
                proof {
                    assert(false);
                }
                Err(e)
            },
        }
    }
}

impl<T: Scalar> Buffer<T> {
    /// An owned copy of this buffer on its own device: host bytes are
    /// copied on the host, device bytes by a device-to-device transfer.
    pub fn to_buffer(&self, device: &mut Device) -> (r: Result<Buffer<T>, DeviceLost>)
        requires
            self.wf(),
            old(device).wf(),
            self.spec_device() == old(device).spec_id(),
            self.valid_in(*old(device)),
        ensures
            final(device).wf(),
            final(device).spec_id() == old(device).spec_id(),
            match r {
                Ok(buf) => {
                    &&& buf.wf()
                    &&& buf.spec_device() == old(device).spec_id()
                    &&& buf.spec_len() == self.spec_len()
                    &&& buf.valid_in(*final(device))
                    &&& buf.spec_bytes_in(*final(device)) == self.spec_bytes_in(*old(device))
                },
                Err(err) => {
                    &&& old(device).spec_engine() is Some
                    &&& old(device).spec_engine().unwrap().lost
                    &&& err == old(device).spec_engine().unwrap().lost_id()
                    &&& *final(device) == *old(device)
                },
            },
    {
        let view = self.as_slice();
        view.to_device(device)
    }
}

impl<T: Scalar> Buffer<T> {
    /// Move this buffer's elements back to the host: a device buffer is
    /// downloaded (and the download awaited), a host buffer is returned
    /// as it is. This is the device-to-host direction of moving a buffer
    /// between devices; the device argument is the one the buffer lives
    /// on.
    pub fn into_host(self, device: &mut Device) -> (r: Result<Buffer<T>, DeviceLost>)
        requires
            self.wf(),
            old(device).wf(),
            self.spec_device() == old(device).spec_id(),
            self.valid_in(*old(device)),
        ensures
            final(device).wf(),
            final(device).spec_id() == old(device).spec_id(),
            match r {
                Ok(buf) => {
                    &&& buf.wf()
                    &&& buf.spec_device() == DeviceId::Host
                    &&& buf.raw.slice.is_host_spec()
                    &&& buf.spec_len() == self.spec_len()
                    &&& buf.spec_host_bytes() == self.spec_bytes_in(*old(device))
                },
                Err(err) => {
                    &&& old(device).spec_engine() is Some
                    &&& old(device).spec_engine().unwrap().lost
                    &&& err == old(device).spec_engine().unwrap().lost_id()
                    &&& *final(device) == *old(device)
                },
            },
    {
        let width = T::scalar_type().size();
        let elems = match self.to_vec(device) {
            Ok(elems) => elems,
            Err(e) => {
                return Err(e);
            },
        };
        let buf = Buffer::from_vec(elems);
        proof {
            lemma_elems_len(buf.spec_len() as int, width as int);
        }
        Ok(buf)
    }
}

/// A shared buffer handle. Device sharing would be reference counting
/// on one allocation, which owned values cannot express; here every
/// handle owns its copy, so the holder count is always one and
/// extracting the buffer never clones.
#[derive(Debug)]
pub struct ArcBuffer<T: Scalar> {
    pub buffer: Buffer<T>,
}

impl<T: Scalar> ArcBuffer<T> {
    /// Invariant: the underlying buffer is well-formed.
    pub open spec fn wf(&self) -> bool {
        self.buffer.wf()
    }

    /// The identity of the device the elements live on.
    pub fn device(&self) -> (r: DeviceId)
        ensures
            r == self.buffer.spec_device(),
    {
        self.buffer.device()
    }

    /// The length in elements.
    pub fn len(&self) -> (r: usize)
        requires
            self.wf(),
        ensures
            r == self.buffer.spec_len(),
    {
        self.buffer.len()
    }

    /// Extract the owned buffer. The holder count is one here, so this
    /// never clones.
    pub fn into_buffer(self) -> (r: Buffer<T>)
        ensures
            r == self.buffer,
    {
        self.buffer
    }

    /// An owned copy of the shared elements on their own device.
    pub fn to_buffer(&self, device: &mut Device) -> (r: Result<Buffer<T>, DeviceLost>)
        requires
            self.wf(),
            old(device).wf(),
            self.buffer.spec_device() == old(device).spec_id(),
            self.buffer.valid_in(*old(device)),
        ensures
            final(device).wf(),
            final(device).spec_id() == old(device).spec_id(),
            match r {
                Ok(buf) => {
                    &&& buf.wf()
                    &&& buf.spec_device() == old(device).spec_id()
                    &&& buf.spec_len() == self.buffer.spec_len()
                    &&& buf.valid_in(*final(device))
                    &&& buf.spec_bytes_in(*final(device)) == self.buffer.spec_bytes_in(
                        *old(device),
                    )
                },
                Err(err) => {
                    &&& old(device).spec_engine() is Some
                    &&& old(device).spec_engine().unwrap().lost
                    &&& err == old(device).spec_engine().unwrap().lost_id()
                    &&& *final(device) == *old(device)
                },
            },
    {
        self.buffer.to_buffer(device)
    }
}

impl<T: Scalar> Buffer<T> {
    /// Wrap this buffer in a shared handle.
    pub fn into_arc_buffer(self) -> (r: ArcBuffer<T>)
        ensures
            r.buffer == self,
    {
        ArcBuffer { buffer: self }
    }

    /// A shared handle over a copy of this buffer, on its own device.
    pub fn to_arc_buffer(&self, device: &mut Device) -> (r: Result<ArcBuffer<T>, DeviceLost>)
        requires
            self.wf(),
            old(device).wf(),
            self.spec_device() == old(device).spec_id(),
            self.valid_in(*old(device)),
        ensures
            final(device).wf(),
            final(device).spec_id() == old(device).spec_id(),
            match r {
                Ok(shared) => {
                    &&& shared.wf()
                    &&& shared.buffer.spec_device() == old(device).spec_id()
                    &&& shared.buffer.spec_len() == self.spec_len()
                    &&& shared.buffer.valid_in(*final(device))
                    &&& shared.buffer.spec_bytes_in(*final(device)) == self.spec_bytes_in(
                        *old(device),
                    )
                },
                Err(err) => {
                    &&& old(device).spec_engine() is Some
                    &&& old(device).spec_engine().unwrap().lost
                    &&& err == old(device).spec_engine().unwrap().lost_id()
                    &&& *final(device) == *old(device)
                },
            },
    {
        match self.to_buffer(device) {
            Ok(buffer) => Ok(ArcBuffer { buffer }),
            Err(e) => Err(e),
        }
    }
}

/// A clone-on-write buffer: an owned buffer, or a borrowed view that is
/// copied the first time ownership is needed.
#[derive(Debug)]
pub enum CowBuffer<T: Scalar> {
    Owned(Buffer<T>),
    Borrowed(Slice<T>),
}

impl<T: Scalar> CowBuffer<T> {
    /// Invariant: whichever side is held is well-formed.
    pub open spec fn wf(&self) -> bool {
        match self {
            CowBuffer::Owned(b) => b.wf(),
            CowBuffer::Borrowed(s) => s.wf(),
        }
    }

    /// The identity of the device the elements live on.
    pub open spec fn spec_device(&self) -> DeviceId {
        match self {
            CowBuffer::Owned(b) => b.spec_device(),
            CowBuffer::Borrowed(s) => s.spec_device(),
        }
    }

    /// The length in elements.
    pub open spec fn spec_len(&self) -> nat {
        match self {
            CowBuffer::Owned(b) => b.spec_len(),
            CowBuffer::Borrowed(s) => s.raw.spec_len(),
        }
    }

    /// The byte encoding of the elements, wherever they live.
    pub open spec fn spec_bytes_in(&self, device: Device) -> Seq<u8> {
        match self {
            CowBuffer::Owned(b) => b.spec_bytes_in(device),
            CowBuffer::Borrowed(s) => if s.raw.is_host_spec() {
                s.raw.spec_host_bytes()
            } else {
                s.raw.spec_device_ref().spec_bytes(device.spec_engine().unwrap())
            },
        }
    }

    /// The length in elements.
    pub fn len(&self) -> (r: usize)
        requires
            self.wf(),
        ensures
            r == self.spec_len(),
    {
        match self {
            CowBuffer::Owned(b) => b.len(),
            CowBuffer::Borrowed(s) => s.len(),
        }
    }

    /// Take ownership: an owned buffer moves out without a copy; a
    /// borrowed view is copied onto its own device.
    pub fn into_buffer(self, device: &mut Device) -> (r: Result<Buffer<T>, DeviceLost>)
        requires
            self.wf(),
            old(device).wf(),
            self.spec_device() == old(device).spec_id(),
            self matches CowBuffer::Borrowed(s) ==> (s.raw.is_host_spec()
                || s.raw.spec_device_ref().valid(old(device).spec_engine().unwrap())),
        ensures
            final(device).wf(),
            final(device).spec_id() == old(device).spec_id(),
            match r {
                Ok(buf) => {
                    &&& buf.wf()
                    &&& buf.spec_device() == old(device).spec_id()
                    &&& buf.spec_len() == self.spec_len()
                    &&& buf.spec_bytes_in(*final(device)) == self.spec_bytes_in(*old(device))
                    &&& (self matches CowBuffer::Owned(b) ==> buf == b && *final(device) == *old(
                        device,
                    ))
                },
                Err(err) => {
                    &&& old(device).spec_engine() is Some
                    &&& old(device).spec_engine().unwrap().lost
                    &&& err == old(device).spec_engine().unwrap().lost_id()
                    &&& *final(device) == *old(device)
                },
            },
    {
        match self {
            CowBuffer::Owned(b) => Ok(b),
            CowBuffer::Borrowed(s) => s.to_device(device),
        }
    }
}
} // verus!
