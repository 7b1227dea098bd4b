//! Kernels: building a cached compute pipeline from a descriptor blob,
//! resolving specialization, and validating and submitting dispatches.
//!
//! A builder decodes a blob, takes specialization values, and builds (or
//! fetches) the pipeline on one engine, keyed by the kernel's identity
//! and its specialization bytes. A kernel then dispatches against typed
//! slices: arguments are checked positionally for element type,
//! mutability and residence on the kernel's engine; "item" slices drive
//! an inferred one-dimensional thread count; push constants are packed
//! little-endian, padded to four bytes, and followed by two words per
//! slice carrying its element offset (shifted left one byte) and its
//! element count. A dispatch whose group count has a zero dimension is
//! elided: it succeeds and submits nothing.

use crate::buffer::{RawSlice, RawSliceInner, Slice, SliceMut};
use crate::desc::{dup_bytes, dup_words, spec_desc_bytes, KernelDesc, SliceDesc, SpecDesc};
use crate::device::{Device, DeviceId, DeviceInner, DeviceLost, Features};
use crate::engine::{find_key, DeviceBuffer, Dispatch, Engine, KernelKey, OpKind};
use crate::scalar::{
    scalar_elems_to_bytes, spec_scalar_elems_bytes, Scalar, ScalarElem, ScalarType,
};
use vstd::prelude::*;

verus! {

/// Specialization failure: a workgroup-dimension constant was zero. The
/// axis is the dimension index.
#[derive(Clone, Copy, Debug, PartialEq, Eq, Structural)]
pub enum SpecializationError {
    ZeroThreadDim { axis: usize },
}

impl SpecializationError {
    /// A short description naming the axis.
    pub fn message(&self) -> (r: &'static str)
        ensures
            match *self {
                SpecializationError::ZeroThreadDim { axis } => {
                    &&& (axis == 0 ==> r@ == "threads.x cannot be zero"@)
                    &&& (axis == 1 ==> r@ == "threads.y cannot be zero"@)
                    &&& (axis >= 2 ==> r@ == "threads.z cannot be zero"@)
                },
            },
    {
        match self {
            SpecializationError::ZeroThreadDim { axis } => {
                if *axis == 0 {
                    "threads.x cannot be zero"
                } else if *axis == 1 {
                    "threads.y cannot be zero"
                } else {
                    "threads.z cannot be zero"
                }
            },
        }
    }
}

/// The kernel requires capabilities the device was not opened with.
#[derive(Debug)]
pub struct KernelValidationError {
    pub kernel: Vec<u8>,
    pub device_index: usize,
    pub required: Features,
    pub enabled: Features,
}

/// Failure to build a kernel on a device.
#[derive(Debug)]
pub enum KernelError {
    ExpectedDevice { kernel: Vec<u8> },
    NotSpecialized { kernel: Vec<u8> },
    Validation(KernelValidationError),
    Lost(DeviceLost),
}

/// Failure to validate a dispatch. Validation happens before anything is
/// submitted; an erring dispatch leaves the engine untouched. Every
/// variant names the offending entity: the kernel, and the slice or
/// push constant it concerns, as the descriptor carries their names.
#[derive(Debug, PartialEq)]
pub enum DispatchError {
    Lost(DeviceLost),
    SliceCountMismatch { kernel: Vec<u8>, expected: usize, found: usize },
    WrongScalarType { kernel: Vec<u8>, slice: Vec<u8>, index: usize },
    WrongMutability { kernel: Vec<u8>, slice: Vec<u8>, index: usize },
    ExpectedDeviceSlice { kernel: Vec<u8>, slice: Vec<u8>, index: usize },
    WrongDevice {
        kernel: Vec<u8>,
        slice: Vec<u8>,
        index: usize,
        kernel_device: DeviceId,
        buffer_device: DeviceId,
    },
    SliceTooLong { kernel: Vec<u8>, slice: Vec<u8>, index: usize },
    OffsetTooWide { kernel: Vec<u8>, slice: Vec<u8>, index: usize },
    EmptySlice { kernel: Vec<u8>, slice: Vec<u8>, index: usize },
    PushCountMismatch { kernel: Vec<u8>, expected: usize, found: usize },
    WrongPushType { kernel: Vec<u8>, push: Vec<u8>, index: usize },
    InferNeedsLinearThreads { kernel: Vec<u8>, threads: Vec<u32> },
    TooManyItems { kernel: Vec<u8> },
    MissingDim { kernel: Vec<u8> },
    UnsafeKernel { kernel: Vec<u8> },
}

/// Sameness of two dispatch errors: the same variant, equal scalar
/// fields, and name fields holding the same bytes.
pub open spec fn dispatch_err_eqv(a: DispatchError, b: DispatchError) -> bool {
    match (a, b) {
        (DispatchError::Lost(x), DispatchError::Lost(y)) => x == y,
        (
            DispatchError::SliceCountMismatch { kernel: k1, expected: e1, found: f1 },
            DispatchError::SliceCountMismatch { kernel: k2, expected: e2, found: f2 },
        ) => k1@ == k2@ && e1 == e2 && f1 == f2,
        (
            DispatchError::WrongScalarType { kernel: k1, slice: s1, index: i1 },
            DispatchError::WrongScalarType { kernel: k2, slice: s2, index: i2 },
        ) => k1@ == k2@ && s1@ == s2@ && i1 == i2,
        (
            DispatchError::WrongMutability { kernel: k1, slice: s1, index: i1 },
            DispatchError::WrongMutability { kernel: k2, slice: s2, index: i2 },
        ) => k1@ == k2@ && s1@ == s2@ && i1 == i2,
        (
            DispatchError::ExpectedDeviceSlice { kernel: k1, slice: s1, index: i1 },
            DispatchError::ExpectedDeviceSlice { kernel: k2, slice: s2, index: i2 },
        ) => k1@ == k2@ && s1@ == s2@ && i1 == i2,
        (
            DispatchError::WrongDevice {
                kernel: k1,
                slice: s1,
                index: i1,
                kernel_device: kd1,
                buffer_device: bd1,
            },
            DispatchError::WrongDevice {
                kernel: k2,
                slice: s2,
                index: i2,
                kernel_device: kd2,
                buffer_device: bd2,
            },
        ) => k1@ == k2@ && s1@ == s2@ && i1 == i2 && kd1 == kd2 && bd1 == bd2,
        (
            DispatchError::SliceTooLong { kernel: k1, slice: s1, index: i1 },
            DispatchError::SliceTooLong { kernel: k2, slice: s2, index: i2 },
        ) => k1@ == k2@ && s1@ == s2@ && i1 == i2,
        (
            DispatchError::OffsetTooWide { kernel: k1, slice: s1, index: i1 },
            DispatchError::OffsetTooWide { kernel: k2, slice: s2, index: i2 },
        ) => k1@ == k2@ && s1@ == s2@ && i1 == i2,
        (
            DispatchError::EmptySlice { kernel: k1, slice: s1, index: i1 },
            DispatchError::EmptySlice { kernel: k2, slice: s2, index: i2 },
        ) => k1@ == k2@ && s1@ == s2@ && i1 == i2,
        (
            DispatchError::PushCountMismatch { kernel: k1, expected: e1, found: f1 },
            DispatchError::PushCountMismatch { kernel: k2, expected: e2, found: f2 },
        ) => k1@ == k2@ && e1 == e2 && f1 == f2,
        (
            DispatchError::WrongPushType { kernel: k1, push: p1, index: i1 },
            DispatchError::WrongPushType { kernel: k2, push: p2, index: i2 },
        ) => k1@ == k2@ && p1@ == p2@ && i1 == i2,
        (
            DispatchError::InferNeedsLinearThreads { kernel: k1, threads: t1 },
            DispatchError::InferNeedsLinearThreads { kernel: k2, threads: t2 },
        ) => k1@ == k2@ && t1@ == t2@,
        (
            DispatchError::TooManyItems { kernel: k1 },
            DispatchError::TooManyItems { kernel: k2 },
        ) => k1@ == k2@,
        (DispatchError::MissingDim { kernel: k1 }, DispatchError::MissingDim { kernel: k2 }) => k1@
            == k2@,
        (
            DispatchError::UnsafeKernel { kernel: k1 },
            DispatchError::UnsafeKernel { kernel: k2 },
        ) => k1@ == k2@,
        _ => false,
    }
}

/// A type-erased slice argument for a dispatch: an immutable or a
/// mutable view.
#[derive(Debug)]
pub enum KernelSliceArg {
    Slice(RawSlice),
    SliceMut(RawSlice),
}

impl KernelSliceArg {
    /// The raw slice under either variant.
    pub open spec fn spec_raw(&self) -> RawSlice {
        match self {
            KernelSliceArg::Slice(r) => *r,
            KernelSliceArg::SliceMut(r) => *r,
        }
    }

    /// Whether this argument permits writes.
    pub open spec fn spec_mutable(&self) -> bool {
        self is SliceMut
    }

    /// Whether the argument is device-resident.
    pub open spec fn spec_is_device(&self) -> bool {
        !self.spec_raw().is_host_spec()
    }

    /// The engine range of a device-resident argument.
    pub open spec fn spec_device_ref(&self) -> DeviceBuffer {
        self.spec_raw().spec_device_ref()
    }

    /// An immutable argument from a typed slice.
    pub fn from_slice<T: Scalar>(slice: Slice<T>) -> (r: KernelSliceArg)
        ensures
            r.spec_raw() == slice.raw,
            !r.spec_mutable(),
    {
        KernelSliceArg::Slice(slice.raw)
    }

    /// A mutable argument from a typed mutable slice.
    pub fn from_slice_mut<T: Scalar>(slice: SliceMut<T>) -> (r: KernelSliceArg)
        ensures
            r.spec_raw() == slice.raw,
            r.spec_mutable(),
    {
        KernelSliceArg::SliceMut(slice.raw)
    }

    /// The element type recorded for the argument.
    pub fn scalar_type(&self) -> (r: ScalarType)
        ensures
            r == self.spec_raw().scalar_type,
    {
        match self {
            KernelSliceArg::Slice(r) => r.scalar_type(),
            KernelSliceArg::SliceMut(r) => r.scalar_type(),
        }
    }

    /// Whether this argument permits writes.
    pub fn mutable(&self) -> (r: bool)
        ensures
            r == self.spec_mutable(),
    {
        match self {
            KernelSliceArg::Slice(_) => false,
            KernelSliceArg::SliceMut(_) => true,
        }
    }

    /// The length in elements.
    pub fn len(&self) -> (r: usize)
        requires
            self.spec_raw().wf(),
        ensures
            r == self.spec_raw().spec_len(),
    {
        match self {
            KernelSliceArg::Slice(r) => r.len(),
            KernelSliceArg::SliceMut(r) => r.len(),
        }
    }

    /// The identity of the device the argument lives on.
    pub fn device(&self) -> (r: DeviceId)
        ensures
            r == self.spec_raw().device,
    {
        match self {
            KernelSliceArg::Slice(r) => r.device(),
            KernelSliceArg::SliceMut(r) => r.device(),
        }
    }
}

/// Ceiling division: the least group count covering `gt` threads at `t`
/// per group.
pub open spec fn spec_ceil_div(gt: int, t: int) -> int {
    gt / t + if gt % t != 0 {
        1int
    } else {
        0int
    }
}

/// Convert global thread counts to group counts: each dimension divided
/// by its workgroup size, rounded up; dimensions beyond the given ones
/// are one.
pub fn global_threads_to_groups(global_threads: &Vec<u32>, threads: &Vec<u32>) -> (r: Vec<u32>)
    requires
        global_threads@.len() == threads@.len(),
        threads@.len() <= 3,
        forall|i: int| 0 <= i < threads@.len() ==> threads@[i] >= 1,
    ensures
        r@.len() == 3,
        forall|i: int|
            0 <= i < global_threads@.len() ==> r@[i] == spec_ceil_div(
                global_threads@[i] as int,
                threads@[i] as int,
            ),
        forall|i: int| global_threads@.len() <= i < 3 ==> r@[i] == 1,
{
    let mut groups: Vec<u32> = Vec::new();
    groups.push(1);
    groups.push(1);
    groups.push(1);
    let mut i: usize = 0;
    while i < global_threads.len()
        invariant
            0 <= i <= global_threads@.len(),
            global_threads@.len() == threads@.len() <= 3,
            forall|j: int| 0 <= j < threads@.len() ==> threads@[j] >= 1,
            groups@.len() == 3,
            forall|j: int|
                0 <= j < i ==> groups@[j] == spec_ceil_div(
                    global_threads@[j] as int,
                    threads@[j] as int,
                ),
            forall|j: int| i <= j < 3 ==> groups@[j] == 1,
        decreases global_threads@.len() - i,
    {
        let gt = global_threads[i];
        let t = threads[i];
        let g = if gt % t != 0 {
            proof {
                assert(t >= 2 ==> gt / t <= u32::MAX / 2) by (nonlinear_arith)
                    requires
                        gt <= u32::MAX,
                        t >= 1,
                ;
                assert(t == 1 ==> gt % t == 0);
            }
            gt / t + 1
        } else {
            gt / t
        };
        groups.set(i, g);
        i += 1;
    }
    groups
}

/// The least length of an "item" slice among the first `n` bindings, if
/// any binding is item-typed.
pub open spec fn spec_item_len(descs: Seq<SliceDesc>, slices: Seq<KernelSliceArg>, n: int) -> Option<
    int,
>
    decreases n,
{
    if n <= 0 {
        None
    } else {
        let rest = spec_item_len(descs, slices, n - 1);
        if descs[n - 1].item {
            let l = slices[n - 1].spec_raw().spec_len() as int;
            match rest {
                None => Some(l),
                Some(m) => Some(
                    if l < m {
                        l
                    } else {
                        m
                    },
                ),
            }
        } else {
            rest
        }
    }
}

/// Whether every slice argument matches its binding: right element type,
/// write access where the binding writes, device-resident on the
/// kernel's engine, and with an element offset and count that fit the
/// packed descriptor words.
pub open spec fn spec_args_valid(
    desc: KernelDesc,
    slices: Seq<KernelSliceArg>,
    device: DeviceId,
) -> bool {
    &&& slices.len() == desc.slice_descs@.len()
    &&& forall|i: int|
        0 <= i < slices.len() ==> {
            let sd = desc.slice_descs@[i];
            let a = #[trigger] slices[i];
            &&& a.spec_raw().scalar_type == sd.scalar_type
            &&& (sd.mutable ==> a.spec_mutable())
            &&& a.spec_is_device()
            &&& a.spec_raw().device == device
            &&& (a.spec_device_ref().offset as int) / (sd.scalar_type.spec_size() as int)
                < 0x0100_0000
            &&& a.spec_raw().spec_len() <= u32::MAX
        }
}

/// Whether every push constant matches its descriptor, positionally.
pub open spec fn spec_pushes_valid(desc: KernelDesc, pushes: Seq<ScalarElem>) -> bool {
    &&& pushes.len() == desc.push_descs@.len()
    &&& forall|i: int|
        0 <= i < pushes.len() ==> (#[trigger] pushes[i]).spec_scalar_type()
            == desc.push_descs@[i].scalar_type
}

/// Whether a group count can be resolved: one was given explicitly, or
/// an item length can be inferred under one-dimensional workgroups.
pub open spec fn spec_dims_valid(
    kernel: Kernel,
    desc: KernelDesc,
    slices: Seq<KernelSliceArg>,
) -> bool {
    match kernel.groups {
        Some(_) => true,
        None => {
            &&& spec_item_len(desc.slice_descs@, slices, slices.len() as int) is Some
            &&& spec_item_len(desc.slice_descs@, slices, slices.len() as int).unwrap() <= u32::MAX
            &&& forall|i: int| 1 <= i < kernel.threads@.len() ==> kernel.threads@[i] == 1
        },
    }
}

/// The resolved group counts of a dispatch: the explicit ones, or one
/// dimension inferred from the item length.
pub open spec fn spec_groups_of(
    kernel: Kernel,
    desc: KernelDesc,
    slices: Seq<KernelSliceArg>,
) -> Seq<u32> {
    match kernel.groups {
        Some(g) => g@,
        None => {
            let items = spec_item_len(desc.slice_descs@, slices, slices.len() as int).unwrap();
            seq![
                spec_ceil_div(items, kernel.threads@[0] as int) as u32,
                1u32,
                1u32,
            ]
        },
    }
}

/// Bytes of zero padding to bring `n` up to a multiple of four.
pub open spec fn spec_pad_len(n: int) -> int {
    (4 - n % 4) % 4
}

/// `s` padded with zero bytes to a multiple of four.
pub open spec fn spec_pad4(s: Seq<u8>) -> Seq<u8> {
    s + Seq::new(spec_pad_len(s.len() as int) as nat, |i: int| 0u8)
}

/// The packed offset word of one slice binding: the element offset
/// shifted left one byte; the low byte (the pad) is zero here, since
/// engine allocations are exact.
pub open spec fn spec_offset_word(a: KernelSliceArg, width: int) -> u32 {
    ((((a.spec_device_ref().offset as int) / width) as u32) << 8) as u32
}

/// The two descriptor words per slice binding, in binding order: the
/// packed offset word, then the element count.
pub open spec fn spec_slice_words(
    descs: Seq<SliceDesc>,
    slices: Seq<KernelSliceArg>,
    n: int,
) -> Seq<u8>
    decreases n,
{
    if n <= 0 {
        Seq::empty()
    } else {
        spec_slice_words(descs, slices, n - 1) + crate::desc::enc_u32(
            spec_offset_word(slices[n - 1], descs[n - 1].scalar_type.spec_size() as int),
        ) + crate::desc::enc_u32(slices[n - 1].spec_raw().spec_len() as u32)
    }
}

/// The whole push-constant block of a dispatch: the named push constants
/// packed little-endian in order, padded to a multiple of four, then the
/// two descriptor words of every slice binding.
pub open spec fn spec_push_block(
    desc: KernelDesc,
    slices: Seq<KernelSliceArg>,
    pushes: Seq<ScalarElem>,
) -> Seq<u8> {
    spec_pad4(spec_scalar_elems_bytes(pushes)) + spec_slice_words(
        desc.slice_descs@,
        slices,
        slices.len() as int,
    )
}

/// Whether a dispatch passes every validation: arguments, push
/// constants, and dimension resolution.
pub open spec fn spec_dispatch_accepts(
    kernel: Kernel,
    desc: KernelDesc,
    slices: Seq<KernelSliceArg>,
    pushes: Seq<ScalarElem>,
) -> bool {
    &&& spec_args_valid(desc, slices, kernel.device)
    &&& spec_pushes_valid(desc, pushes)
    &&& spec_dims_valid(kernel, desc, slices)
    &&& (spec_elided(spec_groups_of(kernel, desc, slices)) || forall|i: int|
        0 <= i < slices.len() ==> (#[trigger] slices[i]).spec_raw().spec_len() > 0)
}

/// Whether resolved group counts elide the dispatch: some dimension is
/// zero, so there is nothing to run.
pub open spec fn spec_elided(groups: Seq<u32>) -> bool {
    exists|i: int| 0 <= i < groups.len() && groups[i] == 0
}

/// The first dispatch error among the slice arguments from position
/// `i` on, with the checks of one position in submission order: element
/// type, write access, device residence, engine identity, then the
/// bounds that the packed descriptor words require.
pub open spec fn spec_arg_error(
    desc: KernelDesc,
    slices: Seq<KernelSliceArg>,
    dev: DeviceId,
    i: int,
) -> Option<DispatchError>
    decreases slices.len() - i,
{
    if !(0 <= i < slices.len()) {
        None
    } else {
        let sd = desc.slice_descs@[i];
        let a = slices[i];
        if a.spec_raw().scalar_type != sd.scalar_type {
            Some(
                DispatchError::WrongScalarType {
                    kernel: desc.name,
                    slice: sd.name,
                    index: i as usize,
                },
            )
        } else if sd.mutable && !a.spec_mutable() {
            Some(
                DispatchError::WrongMutability {
                    kernel: desc.name,
                    slice: sd.name,
                    index: i as usize,
                },
            )
        } else if !a.spec_is_device() {
            Some(
                DispatchError::ExpectedDeviceSlice {
                    kernel: desc.name,
                    slice: sd.name,
                    index: i as usize,
                },
            )
        } else if a.spec_raw().device != dev {
            Some(
                DispatchError::WrongDevice {
                    kernel: desc.name,
                    slice: sd.name,
                    index: i as usize,
                    kernel_device: dev,
                    buffer_device: a.spec_raw().device,
                },
            )
        } else if (a.spec_device_ref().offset as int) / (sd.scalar_type.spec_size() as int)
            >= 0x0100_0000 {
            Some(
                DispatchError::OffsetTooWide {
                    kernel: desc.name,
                    slice: sd.name,
                    index: i as usize,
                },
            )
        } else if a.spec_raw().spec_len() > u32::MAX {
            Some(
                DispatchError::SliceTooLong {
                    kernel: desc.name,
                    slice: sd.name,
                    index: i as usize,
                },
            )
        } else {
            spec_arg_error(desc, slices, dev, i + 1)
        }
    }
}

/// Every dispatch error carries enough context to identify the
/// offending entity without further inspection: the kernel's name, the
/// name of the slice or push constant at the reported position, and the
/// condition that raised it.
pub open spec fn spec_error_context(
    kernel: Kernel,
    desc: KernelDesc,
    slices: Seq<KernelSliceArg>,
    pushes: Seq<ScalarElem>,
    r: Result<(), DispatchError>,
) -> bool {
    match r {
        Ok(_) => true,
        Err(e) => match e {
            DispatchError::Lost(_) => true,
            DispatchError::SliceCountMismatch { kernel: k, expected, found } => {
                &&& k@ == desc.name@
                &&& expected == desc.slice_descs@.len()
                &&& found == slices.len()
                &&& expected != found
            },
            DispatchError::WrongScalarType { kernel: k, slice: sname, index } => {
                &&& k@ == desc.name@
                &&& index < slices.len() && index < desc.slice_descs@.len()
                &&& sname@ == desc.slice_descs@[index as int].name@
                &&& slices[index as int].spec_raw().scalar_type != desc.slice_descs@[
                    index as int
                ].scalar_type
            },
            DispatchError::WrongMutability { kernel: k, slice: sname, index } => {
                &&& k@ == desc.name@
                &&& index < slices.len() && index < desc.slice_descs@.len()
                &&& sname@ == desc.slice_descs@[index as int].name@
                &&& desc.slice_descs@[index as int].mutable && !slices[
                    index as int
                ].spec_mutable()
            },
            DispatchError::ExpectedDeviceSlice { kernel: k, slice: sname, index } => {
                &&& k@ == desc.name@
                &&& index < slices.len() && index < desc.slice_descs@.len()
                &&& sname@ == desc.slice_descs@[index as int].name@
                &&& !slices[index as int].spec_is_device()
            },
            DispatchError::WrongDevice { kernel: k, slice: sname, index, kernel_device, buffer_device } => {
                &&& k@ == desc.name@
                &&& index < slices.len() && index < desc.slice_descs@.len()
                &&& sname@ == desc.slice_descs@[index as int].name@
                &&& kernel_device == kernel.device
                &&& buffer_device == slices[index as int].spec_raw().device
                &&& buffer_device != kernel_device
            },
            DispatchError::SliceTooLong { kernel: k, slice: sname, index } => {
                &&& k@ == desc.name@
                &&& index < slices.len() && index < desc.slice_descs@.len()
                &&& sname@ == desc.slice_descs@[index as int].name@
                &&& slices[index as int].spec_raw().spec_len() > u32::MAX
            },
            DispatchError::OffsetTooWide { kernel: k, slice: sname, index } => {
                &&& k@ == desc.name@
                &&& index < slices.len() && index < desc.slice_descs@.len()
                &&& sname@ == desc.slice_descs@[index as int].name@
            },
            DispatchError::EmptySlice { kernel: k, slice: sname, index } => {
                &&& k@ == desc.name@
                &&& index < slices.len() && index < desc.slice_descs@.len()
                &&& sname@ == desc.slice_descs@[index as int].name@
                &&& slices[index as int].spec_raw().spec_len() == 0
                &&& !spec_elided(spec_groups_of(kernel, desc, slices))
            },
            DispatchError::PushCountMismatch { kernel: k, expected, found } => {
                &&& k@ == desc.name@
                &&& expected == desc.push_descs@.len()
                &&& found == pushes.len()
                &&& expected != found
            },
            DispatchError::WrongPushType { kernel: k, push: pname, index } => {
                &&& k@ == desc.name@
                &&& index < pushes.len() && index < desc.push_descs@.len()
                &&& pname@ == desc.push_descs@[index as int].name@
                &&& pushes[index as int].spec_scalar_type() != desc.push_descs@[
                    index as int
                ].scalar_type
            },
            DispatchError::InferNeedsLinearThreads { kernel: k, threads } => {
                &&& k@ == desc.name@
                &&& threads@ == kernel.threads@
                &&& kernel.groups is None
                &&& exists|m: int| 1 <= m < kernel.threads@.len() && kernel.threads@[m] != 1
            },
            DispatchError::TooManyItems { kernel: k } => k@ == desc.name@,
            DispatchError::MissingDim { kernel: k } => {
                &&& k@ == desc.name@
                &&& kernel.groups is None
                &&& spec_item_len(desc.slice_descs@, slices, slices.len() as int) is None
            },
            DispatchError::UnsafeKernel { kernel: k } => k@ == kernel.name@ && !kernel.safe,
        },
    }
}

/// How the engine and result relate across a dispatch on a live engine:
/// success exactly on acceptance; an elided or failed dispatch leaves
/// the engine untouched; a submitted one appends exactly one dispatch
/// record with the resolved groups, the bindings in order, and the
/// packed push-constant block, binding only in-bounds ranges.
pub open spec fn spec_dispatch_post(
    kernel: Kernel,
    pre: Engine,
    post: Engine,
    slices: Seq<KernelSliceArg>,
    pushes: Seq<ScalarElem>,
    r: Result<(), DispatchError>,
) -> bool {
    let desc = kernel.spec_desc_of(pre);
    &&& (r is Ok <==> spec_dispatch_accepts(kernel, desc, slices, pushes))
    &&& (r is Err ==> post == pre)
    &&& (r is Ok ==> {
        let groups = spec_groups_of(kernel, desc, slices);
        if spec_elided(groups) {
            post == pre
        } else {
            &&& post == (Engine { ops: post.ops, dispatches: post.dispatches, ..pre })
            &&& post.ops@ == pre.ops@.push(OpKind::Dispatch)
            &&& post.dispatches@.len() == pre.dispatches@.len() + 1
            &&& {
                let rec = post.dispatches@.last();
                &&& rec.pipeline == kernel.pipeline
                &&& rec.groups@ == groups
                &&& rec.buffers@ == Seq::new(slices.len(), |i: int| slices[i].spec_device_ref())
                &&& rec.push_bytes@ == spec_push_block(desc, slices, pushes)
                &&& forall|i: int|
                    0 <= i < rec.buffers@.len() ==> (#[trigger] rec.buffers@[i]).valid(post)
            }
        }
    })
}

/// A handle to one cached pipeline on one engine, with the resolved
/// workgroup dimensions and, optionally, an explicit group count.
#[derive(Debug)]
pub struct Kernel {
    pub device: DeviceId,
    pub pipeline: usize,
    pub name: Vec<u8>,
    pub threads: Vec<u32>,
    pub features: Features,
    pub safe: bool,
    pub groups: Option<Vec<u32>>,
}

impl Kernel {
    /// The specialized descriptor this kernel's pipeline was built from.
    pub open spec fn spec_desc_of(&self, e: Engine) -> KernelDesc {
        e.pipelines@[self.pipeline as int].desc
    }

    /// Whether this kernel is a handle into `e`'s pipeline cache, with
    /// dimensions matching the cached descriptor.
    pub open spec fn valid_in(&self, e: Engine) -> bool {
        &&& self.device == e.id()
        &&& (self.pipeline as int) < e.pipelines@.len()
        &&& self.spec_desc_of(e).threads@ == self.threads@
        &&& 1 <= self.threads@.len() <= 3
        &&& forall|i: int| 0 <= i < self.threads@.len() ==> self.threads@[i] >= 1
        &&& match self.groups {
            Some(g) => g@.len() == 3,
            None => true,
        }
    }

    /// The kernel's name, as the descriptor carried it.
    pub fn name(&self) -> (r: &Vec<u8>)
        ensures
            r@ == self.name@,
    {
        &self.name
    }

    /// The resolved workgroup dimensions.
    pub fn threads(&self) -> (r: &Vec<u32>)
        ensures
            r@ == self.threads@,
    {
        &self.threads
    }

    /// The features the kernel requires.
    pub fn features(&self) -> (r: Features)
        ensures
            r == self.features,
    {
        self.features
    }

    /// This kernel with its group count derived from global thread
    /// counts, one per workgroup dimension.
    pub fn global_threads(self, global_threads: &Vec<u32>) -> (r: Kernel)
        requires
            global_threads@.len() == self.threads@.len(),
            self.threads@.len() <= 3,
            forall|i: int| 0 <= i < self.threads@.len() ==> self.threads@[i] >= 1,
        ensures
            r == (Kernel { groups: r.groups, ..self }),
            r.groups is Some,
            r.groups.unwrap()@.len() == 3,
            forall|i: int|
                0 <= i < global_threads@.len() ==> r.groups.unwrap()@[i] == spec_ceil_div(
                    global_threads@[i] as int,
                    self.threads@[i] as int,
                ),
            forall|i: int| global_threads@.len() <= i < 3 ==> r.groups.unwrap()@[i] == 1,
    {
        let groups = global_threads_to_groups(global_threads, &self.threads);
        Kernel { groups: Some(groups), ..self }
    }

    /// This kernel with an explicit group count, one per workgroup
    /// dimension; dimensions beyond them are one.
    pub fn groups(self, groups: &Vec<u32>) -> (r: Kernel)
        requires
            groups@.len() == self.threads@.len(),
            self.threads@.len() <= 3,
        ensures
            r == (Kernel { groups: r.groups, ..self }),
            r.groups is Some,
            r.groups.unwrap()@.len() == 3,
            forall|i: int| 0 <= i < groups@.len() ==> r.groups.unwrap()@[i] == groups@[i],
            forall|i: int| groups@.len() <= i < 3 ==> r.groups.unwrap()@[i] == 1,
    {
        let mut padded: Vec<u32> = Vec::new();
        padded.push(1);
        padded.push(1);
        padded.push(1);
        let mut i: usize = 0;
        while i < groups.len()
            invariant
                0 <= i <= groups@.len(),
                groups@.len() <= 3,
                padded@.len() == 3,
                forall|j: int| 0 <= j < i ==> padded@[j] == groups@[j],
                forall|j: int| i <= j < 3 ==> padded@[j] == 1,
            decreases groups@.len() - i,
        {
            padded.set(i, groups[i]);
            i += 1;
        }
        Kernel { groups: Some(padded), ..self }
    }
}

/// The axis of the first specialization value that names a workgroup
/// dimension and is zero, scanning from position `i`.
pub open spec fn spec_first_zero_from(
    descs: Seq<SpecDesc>,
    values: Seq<ScalarElem>,
    i: int,
) -> Option<int>
    decreases descs.len() - i,
{
    if !(0 <= i < descs.len()) {
        None
    } else if descs[i].thread_dim is Some && values[i] == ScalarElem::U32(0u32) {
        Some(descs[i].thread_dim.unwrap() as int)
    } else {
        spec_first_zero_from(descs, values, i + 1)
    }
}

/// The workgroup dimensions after applying the first `n` specialization
/// values that name a dimension.
pub open spec fn spec_apply_dims(
    threads: Seq<u32>,
    descs: Seq<SpecDesc>,
    values: Seq<ScalarElem>,
    n: int,
) -> Seq<u32>
    decreases n,
{
    if n <= 0 {
        threads
    } else {
        let prev = spec_apply_dims(threads, descs, values, n - 1);
        match descs[n - 1].thread_dim {
            Some(d) => match values[n - 1] {
                ScalarElem::U32(x) => prev.update(d as int, x),
                _ => prev,
            },
            None => prev,
        }
    }
}

/// Decoding a blob failed: the bytes do not hold a descriptor.
#[derive(Clone, Copy, Debug, PartialEq, Eq, Structural)]
pub struct KernelDescError;

/// Builds a [`Kernel`] from a descriptor blob: decode, specialize, then
/// build on a device.
#[derive(Debug)]
pub struct KernelBuilder {
    pub id: u64,
    pub desc: KernelDesc,
    pub spec_consts: Vec<ScalarElem>,
    pub threads: Vec<u32>,
}

impl KernelBuilder {
    /// Builder invariant: a well-formed descriptor and three resolved,
    /// nonzero workgroup dimensions.
    pub open spec fn wf(&self) -> bool {
        &&& self.desc.wf()
        &&& self.threads@.len() == 3
        &&& forall|i: int| 0 <= i < 3 ==> self.threads@[i] >= 1
    }

    /// Decode a descriptor blob into a builder. The kernel's stable
    /// identity is the descriptor's hash; the declared workgroup
    /// dimensions are padded to three with ones. Decoding fails only
    /// when no well-formed descriptor has the blob as its wire form.
    pub fn from_bytes(bytes: &Vec<u8>) -> (r: Result<KernelBuilder, KernelDescError>)
        ensures
            match r {
                Ok(b) => {
                    &&& b.wf()
                    &&& spec_desc_bytes(b.desc) == bytes@
                    &&& b.id == b.desc.hash
                    &&& b.spec_consts@.len() == 0
                    &&& forall|i: int|
                        0 <= i < b.desc.threads@.len() ==> b.threads@[i] == b.desc.threads@[i]
                    &&& forall|i: int| b.desc.threads@.len() <= i < 3 ==> b.threads@[i] == 1
                },
                Err(_) => forall|d: KernelDesc| d.wf() ==> spec_desc_bytes(d) != bytes@,
            },
    {
        let desc = match KernelDesc::from_bytes(bytes) {
            Some(desc) => desc,
            None => {
                return Err(KernelDescError);
            },
        };
        let mut threads: Vec<u32> = Vec::new();
        threads.push(1);
        threads.push(1);
        threads.push(1);
        let mut i: usize = 0;
        while i < desc.threads.len()
            invariant
                0 <= i <= desc.threads@.len(),
                desc.threads@.len() <= 3,
                forall|j: int| 0 <= j < desc.threads@.len() ==> desc.threads@[j] >= 1,
                threads@.len() == 3,
                forall|j: int| 0 <= j < i ==> threads@[j] == desc.threads@[j],
                forall|j: int| i <= j < 3 ==> threads@[j] == 1,
            decreases desc.threads@.len() - i,
        {
            threads.set(i, desc.threads[i]);
            i += 1;
        }
        let id = desc.hash;
        Ok(KernelBuilder { id, desc, spec_consts: Vec::new(), threads })
    }

    /// The features the kernel requires.
    pub fn features(&self) -> (r: Features)
        ensures
            r == self.desc.features,
    {
        self.desc.features
    }

    /// The kernel's stable identity.
    pub fn hash(&self) -> (r: u64)
        ensures
            r == self.desc.hash,
    {
        self.desc.hash
    }

    /// Whether the kernel does only checked indexing.
    pub fn safe(&self) -> (r: bool)
        ensures
            r == self.desc.safe,
    {
        self.desc.safe
    }

    /// Bind the specialization values, one per declared constant and of
    /// its type. A value that names a workgroup dimension must be a
    /// nonzero `u32`: it becomes that dimension, and a zero fails with
    /// the error naming the axis.
    pub fn specialize(self, spec_consts: &Vec<ScalarElem>) -> (r: Result<
        KernelBuilder,
        SpecializationError,
    >)
        requires
            self.wf(),
            spec_consts@.len() == self.desc.spec_descs@.len(),
            forall|i: int|
                0 <= i < spec_consts@.len() ==> (#[trigger] spec_consts@[i]).spec_scalar_type()
                    == self.desc.spec_descs@[i].scalar_type,
            forall|i: int|
                0 <= i < self.desc.spec_descs@.len() ==> ((#[trigger] self.desc.spec_descs@[
                    i
                ]).thread_dim is Some ==> self.desc.spec_descs@[i].scalar_type == ScalarType::U32),
        ensures
            match r {
                Ok(b) => {
                    &&& spec_first_zero_from(self.desc.spec_descs@, spec_consts@, 0) is None
                    &&& b.wf()
                    &&& b.id == self.id
                    &&& b.desc == self.desc
                    &&& b.spec_consts@ == spec_consts@
                    &&& b.threads@ == spec_apply_dims(
                        self.threads@,
                        self.desc.spec_descs@,
                        spec_consts@,
                        spec_consts@.len() as int,
                    )
                },
                Err(e) => {
                    &&& e matches SpecializationError::ZeroThreadDim { axis }
                    &&& spec_first_zero_from(self.desc.spec_descs@, spec_consts@, 0) == Some(
                        e->ZeroThreadDim_axis as int,
                    )
                },
            },
    {
        let mut this = self;
        let ghost descs = this.desc.spec_descs@;
        let ghost values = spec_consts@;
        let ghost threads0 = this.threads@;
        let n = this.desc.spec_descs.len();
        let mut i: usize = 0;
        while i < n
            invariant
                0 <= i <= n,
                n == descs.len(),
                descs == this.desc.spec_descs@,
                values == spec_consts@,
                values.len() == descs.len(),
                forall|j: int|
                    0 <= j < descs.len() ==> (#[trigger] values[j]).spec_scalar_type() == descs[
                        j
                    ].scalar_type,
                forall|j: int|
                    0 <= j < descs.len() ==> ((#[trigger] descs[j]).thread_dim is Some ==> descs[
                        j
                    ].scalar_type == ScalarType::U32),
                spec_first_zero_from(descs, values, 0) == spec_first_zero_from(
                    descs,
                    values,
                    i as int,
                ),
                this.threads@ == spec_apply_dims(threads0, descs, values, i as int),
                this.threads@.len() == 3,
                forall|j: int| 0 <= j < 3 ==> threads0[j] >= 1,
                forall|j: int| 0 <= j < 3 ==> this.threads@[j] >= 1,
                this.desc == self.desc,
                this.id == self.id,
                this.desc.wf(),
            decreases n - i,
        {
            match &this.desc.spec_descs[i].thread_dim {
                Some(d) => {
                    let d = *d;
                    match &spec_consts[i] {
                        ScalarElem::U32(x) => {
                            if *x == 0 {
                                return Err(SpecializationError::ZeroThreadDim { axis: d });
                            }
                            this.threads.set(d, *x);
                        },
                        _ => {
                            proof {
                                assert(false);
                            }
                        },
                    }
                },
                None => {},
            };
            i += 1;
        }
        let mut copied: Vec<ScalarElem> = Vec::new();
        let mut j: usize = 0;
        while j < spec_consts.len()
            invariant
                0 <= j <= spec_consts@.len(),
                copied@ == spec_consts@.take(j as int),
                values == spec_consts@,
                descs == this.desc.spec_descs@,
                n == descs.len(),
                values.len() == descs.len(),
                spec_first_zero_from(descs, values, 0) is None,
                this.threads@ == spec_apply_dims(threads0, descs, values, n as int),
                this.threads@.len() == 3,
                forall|j2: int| 0 <= j2 < 3 ==> this.threads@[j2] >= 1,
                this.desc == self.desc,
                this.id == self.id,
                this.desc.wf(),
            decreases spec_consts@.len() - j,
        {
            copied.push(spec_consts[j]);
            proof {
                assert(copied@ =~= spec_consts@.take(j + 1));
            }
            j += 1;
        }
        proof {
            assert(spec_consts@.take(spec_consts@.len() as int) =~= spec_consts@);
        }
        this.spec_consts = copied;
        proof {
            lemma_apply_dims_bounds(threads0, descs, values, n as int);
        }
        Ok(this)
    }

    /// Build the kernel on `device`: reject the host and a device
    /// lacking the required features; require specialization where the
    /// descriptor declares constants; then fetch or build the pipeline
    /// under the key (kernel identity, specialization bytes).
    pub fn build(&self, device: &mut Device) -> (r: Result<Kernel, KernelError>)
        requires
            self.wf(),
            old(device).wf(),
        ensures
            final(device).wf(),
            final(device).spec_id() == old(device).spec_id(),
            match old(device).spec_engine() {
                None => {
                    &&& r matches Err(KernelError::ExpectedDevice { kernel })
                        && kernel@ == self.desc.name@
                    &&& final(device).spec_engine() is None
                },
                Some(e) => {
                    if !e.features.spec_contains(self.desc.features) {
                        &&& r matches Err(KernelError::Validation(v)) && v.kernel@
                            == self.desc.name@ && v.device_index == e.index && v.required
                            == self.desc.features && v.enabled == e.features
                        &&& final(device).spec_engine() == Some(e)
                    } else if self.desc.spec_descs@.len() > 0 && self.spec_consts@.len() == 0 {
                        &&& r matches Err(KernelError::NotSpecialized { kernel }) && kernel@
                            == self.desc.name@
                        &&& final(device).spec_engine() == Some(e)
                    } else if e.lost {
                        &&& r == Err::<Kernel, KernelError>(KernelError::Lost(e.lost_id()))
                        &&& final(device).spec_engine() == Some(e)
                    } else {
                        let e2 = final(device).spec_engine().unwrap();
                        let key_bytes = spec_scalar_elems_bytes(self.spec_consts@);
                        &&& r is Ok
                        &&& r.unwrap().valid_in(e2)
                        &&& r.unwrap().device == e.id()
                        &&& r.unwrap().groups is None
                        &&& r.unwrap().name@ == self.desc.name@
                        &&& r.unwrap().safe == self.desc.safe
                        &&& r.unwrap().features == self.desc.features
                        &&& e2 == (Engine { pipelines: e2.pipelines, ..e })
                        &&& e2.pipelines@.len() >= e.pipelines@.len()
                        &&& forall|i: int|
                            0 <= i < e.pipelines@.len() ==> e2.pipelines@[i] == e.pipelines@[i]
                        &&& {
                            let built = e2.pipelines@[r.unwrap().pipeline as int];
                            &&& built.key.id == self.id
                            &&& built.key.spec_bytes@ == key_bytes
                            &&& find_key(e2.pipelines@, built.key, 0) == Some(
                                r.unwrap().pipeline as int,
                            )
                            &&& r.unwrap().threads@ == built.desc.threads@
                        }
                    }
                },
            },
    {
        match &mut device.inner {
            DeviceInner::Host => Err(
                KernelError::ExpectedDevice { kernel: dup_bytes(&self.desc.name) },
            ),
            DeviceInner::Device(engine) => {
                if !engine.features.contains(&self.desc.features) {
                    return Err(
                        KernelError::Validation(
                            KernelValidationError {
                                kernel: dup_bytes(&self.desc.name),
                                device_index: engine.index,
                                required: self.desc.features,
                                enabled: engine.features,
                            },
                        ),
                    );
                }
                if self.desc.spec_descs.len() > 0 && self.spec_consts.len() == 0 {
                    return Err(
                        KernelError::NotSpecialized { kernel: dup_bytes(&self.desc.name) },
                    );
                }
                let spec_bytes = scalar_elems_to_bytes(&self.spec_consts);
                let key = KernelKey { id: self.id, spec_bytes };
                let mut resolved: Vec<u32> = Vec::new();
                let m = self.desc.threads.len();
                let mut i: usize = 0;
                while i < m
                    invariant
                        0 <= i <= m,
                        m == self.desc.threads@.len(),
                        self.wf(),
                        m <= 3,
                        resolved@ == self.threads@.take(i as int),
                    decreases m - i,
                {
                    resolved.push(self.threads[i]);
                    proof {
                        assert(resolved@ =~= self.threads@.take(i + 1));
                    }
                    i += 1;
                }
                let ghost key_snapshot = key;
                let pid = match engine.compile_or_fetch(key, &self.desc, resolved, &self.spec_consts)
                {
                    Ok(pid) => pid,
                    Err(e) => {
                        return Err(KernelError::Lost(e));
                    },
                };
                proof {
                    crate::engine::lemma_find_key_found(
                        engine.pipelines@,
                        key_snapshot,
                        0,
                        pid as int,
                    );
                    assert(engine.pipelines@[pid as int].desc.wf());
                    crate::engine::lemma_find_key_congruent(
                        engine.pipelines@,
                        engine.pipelines@[pid as int].key,
                        key_snapshot,
                        0,
                    );
                }
                let threads = dup_words(&engine.pipelines[pid].desc.threads);
                Ok(
                    Kernel {
                        device: engine.device_id(),
                        pipeline: pid,
                        name: dup_bytes(&self.desc.name),
                        threads,
                        features: self.desc.features,
                        safe: self.desc.safe,
                        groups: None,
                    },
                )
            },
        }
    }
}

/// Applying dimension updates keeps three nonzero dimensions, since each
/// applied value is checked nonzero.
proof fn lemma_apply_dims_bounds(
    threads: Seq<u32>,
    descs: Seq<SpecDesc>,
    values: Seq<ScalarElem>,
    n: int,
)
    requires
        n <= descs.len(),
        forall|i: int|
            0 <= i < descs.len() ==> ((#[trigger] descs[i]).thread_dim is Some
                ==> descs[i].thread_dim.unwrap() < threads.len()),
    ensures
        spec_apply_dims(threads, descs, values, n).len() == threads.len(),
    decreases n,
{
    if n > 0 {
        lemma_apply_dims_bounds(threads, descs, values, n - 1);
    }
}

impl Kernel {
    /// Validate and submit one dispatch of a kernel that does only
    /// checked indexing: a kernel marked unchecked is rejected here and
    /// must go through [`Kernel::dispatch_unchecked`], whose caller
    /// answers for its memory accesses. For a checked kernel this
    /// behaves exactly as [`Kernel::dispatch_unchecked`]: success iff
    /// validation accepts, elision on a zero group dimension, and an
    /// exact submission record otherwise.
    pub fn dispatch(
        &self,
        engine: &mut Engine,
        slices: &Vec<KernelSliceArg>,
        push_consts: &Vec<ScalarElem>,
    ) -> (r: Result<(), DispatchError>)
        requires
            old(engine).wf(),
            self.valid_in(*old(engine)),
            forall|i: int| 0 <= i < slices@.len() ==> (#[trigger] slices@[i]).spec_raw().wf(),
            forall|i: int|
                0 <= i < slices@.len() ==> ((#[trigger] slices@[i]).spec_is_device() && slices@[
                    i
                ].spec_raw().device == old(engine).id() ==> slices@[i].spec_device_ref().valid(
                    *old(engine),
                )),
        ensures
            final(engine).wf(),
            self.valid_in(*final(engine)),
            if old(engine).lost {
                &&& r == Err::<(), DispatchError>(DispatchError::Lost(old(engine).lost_id()))
                &&& *final(engine) == *old(engine)
            } else if !self.safe {
                &&& r matches Err(e) && e matches DispatchError::UnsafeKernel { kernel }
                    && kernel@ == self.name@
                &&& *final(engine) == *old(engine)
            } else {
                spec_dispatch_post(*self, *old(engine), *final(engine), slices@, push_consts@, r)
            },
            spec_error_context(
                *self,
                self.spec_desc_of(*old(engine)),
                slices@,
                push_consts@,
                r,
            ),
            (!old(engine).lost && self.safe && slices@.len() == self.spec_desc_of(
                *old(engine),
            ).slice_descs@.len()) ==> match spec_arg_error(
                self.spec_desc_of(*old(engine)),
                slices@,
                self.device,
                0,
            ) {
                Some(e) => r matches Err(re) && dispatch_err_eqv(re, e),
                None => true,
            },
    {
        if engine.lost {
            return Err(DispatchError::Lost(engine.lost_error()));
        }
        if !self.safe {
            return Err(DispatchError::UnsafeKernel { kernel: dup_bytes(&self.name) });
        }
        self.dispatch_unchecked(engine, slices, push_consts)
    }

    /// Validate and submit one dispatch of a kernel that may do
    /// unchecked indexing; the caller answers for the kernel's memory
    /// accesses beyond the bound ranges, as with the unchecked
    /// capability. Arguments are matched to slice bindings by position
    /// and checked for element type, write access, and residence on this
    /// kernel's engine; push constants are checked and packed; the group
    /// count is taken as given or inferred from the shortest "item"
    /// slice under one-dimensional workgroups. A group count with a zero
    /// dimension elides the dispatch: success, nothing submitted.
    /// Validation failures surface before anything is submitted and
    /// leave the engine untouched; an accepted dispatch binds only
    /// ranges that lie inside the engine's allocations.
    #[verifier::rlimit(100)]
    pub fn dispatch_unchecked(
        &self,
        engine: &mut Engine,
        slices: &Vec<KernelSliceArg>,
        push_consts: &Vec<ScalarElem>,
    ) -> (r: Result<(), DispatchError>)
        requires
            old(engine).wf(),
            self.valid_in(*old(engine)),
            forall|i: int| 0 <= i < slices@.len() ==> (#[trigger] slices@[i]).spec_raw().wf(),
            forall|i: int|
                0 <= i < slices@.len() ==> ((#[trigger] slices@[i]).spec_is_device() && slices@[
                    i
                ].spec_raw().device == old(engine).id() ==> slices@[i].spec_device_ref().valid(
                    *old(engine),
                )),
        ensures
            final(engine).wf(),
            self.valid_in(*final(engine)),
            if old(engine).lost {
                &&& r == Err::<(), DispatchError>(DispatchError::Lost(old(engine).lost_id()))
                &&& *final(engine) == *old(engine)
            } else {
                spec_dispatch_post(*self, *old(engine), *final(engine), slices@, push_consts@, r)
            },
            spec_error_context(
                *self,
                self.spec_desc_of(*old(engine)),
                slices@,
                push_consts@,
                r,
            ),
            (!old(engine).lost && slices@.len() == self.spec_desc_of(
                *old(engine),
            ).slice_descs@.len()) ==> match spec_arg_error(
                self.spec_desc_of(*old(engine)),
                slices@,
                self.device,
                0,
            ) {
                Some(e) => r matches Err(re) && dispatch_err_eqv(re, e),
                None => true,
            },
    {
        let ghost desc = self.spec_desc_of(*engine);
        let ghost dev = self.device;
        if engine.lost {
            return Err(DispatchError::Lost(engine.lost_error()));
        }
        let pid = self.pipeline;
        let n = engine.pipelines[pid].desc.slice_descs.len();
        if slices.len() != n {
            return Err(
                DispatchError::SliceCountMismatch {
                    kernel: dup_bytes(&engine.pipelines[pid].desc.name),
                    expected: n,
                    found: slices.len(),
                },
            );
        }
        let mut buffers: Vec<DeviceBuffer> = Vec::new();
        let mut items: Option<usize> = None;
        let mut i: usize = 0;
        while i < n
            invariant
                0 <= i <= n,
                *engine == *old(engine),
                old(engine).wf(),
                !old(engine).lost,
                self.valid_in(*old(engine)),
                desc == self.spec_desc_of(*old(engine)),
                dev == self.device,
                pid == self.pipeline,
                n == desc.slice_descs@.len(),
                slices@.len() == n,
                forall|j: int| 0 <= j < slices@.len() ==> (#[trigger] slices@[j]).spec_raw().wf(),
                buffers@.len() == i,
                forall|j: int| 0 <= j < i ==> buffers@[j] == (#[trigger] slices@[j]).spec_device_ref(),
                forall|j: int|
                    0 <= j < i ==> {
                        let sd = desc.slice_descs@[j];
                        let a = #[trigger] slices@[j];
                        &&& a.spec_raw().scalar_type == sd.scalar_type
                        &&& (sd.mutable ==> a.spec_mutable())
                        &&& a.spec_is_device()
                        &&& a.spec_raw().device == dev
                        &&& (a.spec_device_ref().offset as int) / (
                        sd.scalar_type.spec_size() as int) < 0x0100_0000
                        &&& a.spec_raw().spec_len() <= u32::MAX
                    },
                spec_arg_error(desc, slices@, dev, 0) == spec_arg_error(
                    desc,
                    slices@,
                    dev,
                    i as int,
                ),
                match items {
                    None => spec_item_len(desc.slice_descs@, slices@, i as int) is None,
                    Some(v) => spec_item_len(desc.slice_descs@, slices@, i as int) == Some(
                        v as int,
                    ),
                },
            decreases n - i,
        {
            let sd_type = engine.pipelines[pid].desc.slice_descs[i].scalar_type;
            let sd_mutable = engine.pipelines[pid].desc.slice_descs[i].mutable;
            let sd_item = engine.pipelines[pid].desc.slice_descs[i].item;
            let a = &slices[i];
            if a.scalar_type() != sd_type {
                return Err(
                    DispatchError::WrongScalarType {
                        kernel: dup_bytes(&engine.pipelines[pid].desc.name),
                        slice: dup_bytes(&engine.pipelines[pid].desc.slice_descs[i].name),
                        index: i,
                    },
                );
            }
            if sd_mutable && !a.mutable() {
                return Err(
                    DispatchError::WrongMutability {
                        kernel: dup_bytes(&engine.pipelines[pid].desc.name),
                        slice: dup_bytes(&engine.pipelines[pid].desc.slice_descs[i].name),
                        index: i,
                    },
                );
            }
            let raw: &RawSlice = match a {
                KernelSliceArg::Slice(r) => r,
                KernelSliceArg::SliceMut(r) => r,
            };
            match &raw.inner {
                RawSliceInner::Host(_) => {
                    return Err(
                        DispatchError::ExpectedDeviceSlice {
                            kernel: dup_bytes(&engine.pipelines[pid].desc.name),
                            slice: dup_bytes(&engine.pipelines[pid].desc.slice_descs[i].name),
                            index: i,
                        },
                    );
                },
                RawSliceInner::Device(d) => {
                    if raw.device != self.device {
                        return Err(
                            DispatchError::WrongDevice {
                                kernel: dup_bytes(&engine.pipelines[pid].desc.name),
                                slice: dup_bytes(&engine.pipelines[pid].desc.slice_descs[i].name),
                                index: i,
                                kernel_device: self.device,
                                buffer_device: raw.device,
                            },
                        );
                    }
                    let width = sd_type.size();
                    let offset_elems = d.offset / width;
                    if offset_elems >= 0x0100_0000 {
                        return Err(
                            DispatchError::OffsetTooWide {
                                kernel: dup_bytes(&engine.pipelines[pid].desc.name),
                                slice: dup_bytes(&engine.pipelines[pid].desc.slice_descs[i].name),
                                index: i,
                            },
                        );
                    }
                    let len_elems = a.len();
                    if len_elems > u32::MAX as usize {
                        return Err(
                            DispatchError::SliceTooLong {
                                kernel: dup_bytes(&engine.pipelines[pid].desc.name),
                                slice: dup_bytes(&engine.pipelines[pid].desc.slice_descs[i].name),
                                index: i,
                            },
                        );
                    }
                    buffers.push(*d);
                    if sd_item {
                        items = match items {
                            Some(m) => {
                                if len_elems < m {
                                    Some(len_elems)
                                } else {
                                    Some(m)
                                }
                            },
                            None => Some(len_elems),
                        };
                    }
                },
            }
            i += 1;
        }
        let n_push = engine.pipelines[pid].desc.push_descs.len();
        if push_consts.len() != n_push {
            return Err(
                DispatchError::PushCountMismatch {
                    kernel: dup_bytes(&engine.pipelines[pid].desc.name),
                    expected: n_push,
                    found: push_consts.len(),
                },
            );
        }
        let mut j: usize = 0;
        while j < n_push
            invariant
                0 <= j <= n_push,
                *engine == *old(engine),
                old(engine).wf(),
                !old(engine).lost,
                self.valid_in(*old(engine)),
                desc == self.spec_desc_of(*old(engine)),
                pid == self.pipeline,
                n_push == desc.push_descs@.len(),
                push_consts@.len() == n_push,
                dev == self.device,
                spec_arg_error(desc, slices@, dev, 0) is None,
                forall|k: int|
                    0 <= k < j ==> (#[trigger] push_consts@[k]).spec_scalar_type()
                        == desc.push_descs@[k].scalar_type,
            decreases n_push - j,
        {
            if push_consts[j].scalar_type() != engine.pipelines[pid].desc.push_descs[j].scalar_type
            {
                return Err(
                    DispatchError::WrongPushType {
                        kernel: dup_bytes(&engine.pipelines[pid].desc.name),
                        push: dup_bytes(&engine.pipelines[pid].desc.push_descs[j].name),
                        index: j,
                    },
                );
            }
            j += 1;
        }
        let groups_vec: Vec<u32> = match &self.groups {
            Some(g) => dup_words(g),
            None => {
                let it = match items {
                    Some(it) => it,
                    None => {
                        return Err(
                            DispatchError::MissingDim {
                                kernel: dup_bytes(&engine.pipelines[pid].desc.name),
                            },
                        );
                    },
                };
                let mut k: usize = 1;
                while k < self.threads.len()
                    invariant
                        1 <= k <= self.threads@.len(),
                        *engine == *old(engine),
                        old(engine).wf(),
                        !old(engine).lost,
                        self.valid_in(*old(engine)),
                        desc == self.spec_desc_of(*old(engine)),
                        pid == self.pipeline,
                        self.groups is None,
                        slices@.len() == desc.slice_descs@.len(),
                        spec_arg_error(desc, slices@, self.device, 0) is None,
                        spec_item_len(desc.slice_descs@, slices@, slices@.len() as int) == Some(
                            it as int,
                        ),
                        forall|m: int| 1 <= m < k ==> self.threads@[m] == 1,
                    decreases self.threads@.len() - k,
                {
                    if self.threads[k] != 1 {
                        return Err(
                            DispatchError::InferNeedsLinearThreads {
                                kernel: dup_bytes(&engine.pipelines[pid].desc.name),
                                threads: dup_words(&self.threads),
                            },
                        );
                    }
                    k += 1;
                }
                if it > u32::MAX as usize {
                    return Err(
                        DispatchError::TooManyItems {
                            kernel: dup_bytes(&engine.pipelines[pid].desc.name),
                        },
                    );
                }
                let gt = it as u32;
                let t = self.threads[0];
                let g = if gt % t != 0 {
                    proof {
                        assert(t >= 2 ==> gt / t <= u32::MAX / 2) by (nonlinear_arith)
                            requires
                                gt <= u32::MAX,
                                t >= 1,
                        ;
                        assert(t == 1 ==> gt % t == 0);
                    }
                    gt / t + 1
                } else {
                    gt / t
                };
                let mut gv: Vec<u32> = Vec::new();
                gv.push(g);
                gv.push(1);
                gv.push(1);
                proof {
                    assert(gv@ =~= spec_groups_of(*self, desc, slices@));
                }
                gv
            },
        };
        proof {
            assert(spec_args_valid(desc, slices@, dev));
            assert(spec_pushes_valid(desc, push_consts@));
            assert(spec_dims_valid(*self, desc, slices@));
            assert(groups_vec@ == spec_groups_of(*self, desc, slices@));
        }
        let mut any_zero = false;
        let mut z: usize = 0;
        while z < groups_vec.len()
            invariant
                0 <= z <= groups_vec@.len(),
                *engine == *old(engine),
                old(engine).wf(),
                !old(engine).lost,
                self.valid_in(*old(engine)),
                desc == self.spec_desc_of(*old(engine)),
                dev == self.device,
                pid == self.pipeline,
                slices@.len() == desc.slice_descs@.len(),
                spec_args_valid(desc, slices@, dev),
                spec_pushes_valid(desc, push_consts@),
                spec_dims_valid(*self, desc, slices@),
                spec_arg_error(desc, slices@, dev, 0) is None,
                groups_vec@ == spec_groups_of(*self, desc, slices@),
                buffers@.len() == slices@.len(),
                forall|m: int|
                    0 <= m < slices@.len() ==> buffers@[m] == (#[trigger] slices@[
                        m
                    ]).spec_device_ref(),
                forall|m: int| 0 <= m < slices@.len() ==> (#[trigger] slices@[m]).spec_raw().wf(),
                any_zero == exists|m: int| 0 <= m < z && groups_vec@[m] == 0,
            decreases groups_vec@.len() - z,
        {
            if groups_vec[z] == 0 {
                any_zero = true;
            }
            z += 1;
        }
        if any_zero {
            proof {
                assert(spec_elided(groups_vec@));
                assert(spec_dispatch_accepts(*self, desc, slices@, push_consts@));
            }
            return Ok(());
        }
        let mut es: usize = 0;
        while es < n
            invariant
                0 <= es <= n,
                *engine == *old(engine),
                old(engine).wf(),
                !old(engine).lost,
                self.valid_in(*old(engine)),
                desc == self.spec_desc_of(*old(engine)),
                dev == self.device,
                pid == self.pipeline,
                n == desc.slice_descs@.len(),
                slices@.len() == n,
                spec_args_valid(desc, slices@, dev),
                spec_pushes_valid(desc, push_consts@),
                spec_dims_valid(*self, desc, slices@),
                spec_arg_error(desc, slices@, dev, 0) is None,
                groups_vec@ == spec_groups_of(*self, desc, slices@),
                !spec_elided(groups_vec@),
                forall|m: int| 0 <= m < slices@.len() ==> (#[trigger] slices@[m]).spec_raw().wf(),
                forall|m: int| 0 <= m < es ==> (#[trigger] slices@[m]).spec_raw().spec_len() > 0,
                buffers@.len() == n,
                forall|m: int|
                    0 <= m < n ==> buffers@[m] == (#[trigger] slices@[m]).spec_device_ref(),
            decreases n - es,
        {
            if slices[es].len() == 0 {
                return Err(
                    DispatchError::EmptySlice {
                        kernel: dup_bytes(&engine.pipelines[pid].desc.name),
                        slice: dup_bytes(&engine.pipelines[pid].desc.slice_descs[es].name),
                        index: es,
                    },
                );
            }
            es += 1;
        }
        proof {
            assert(spec_dispatch_accepts(*self, desc, slices@, push_consts@));
        }
        let mut push_bytes = scalar_elems_to_bytes(push_consts);
        let ghost push_data = push_bytes@;
        let rem = push_bytes.len() % 4;
        let pad = (4 - rem) % 4;
        let mut p: usize = 0;
        while p < pad
            invariant
                0 <= p <= pad,
                pad < 4,
                pad == spec_pad_len(push_data.len() as int),
                push_data == spec_scalar_elems_bytes(push_consts@),
                *engine == *old(engine),
                old(engine).wf(),
                !old(engine).lost,
                self.valid_in(*old(engine)),
                desc == self.spec_desc_of(*old(engine)),
                dev == self.device,
                pid == self.pipeline,
                slices@.len() == desc.slice_descs@.len(),
                spec_dispatch_accepts(*self, desc, slices@, push_consts@),
                spec_arg_error(desc, slices@, dev, 0) is None,
                groups_vec@ == spec_groups_of(*self, desc, slices@),
                !spec_elided(groups_vec@),
                buffers@.len() == slices@.len(),
                forall|m: int|
                    0 <= m < slices@.len() ==> buffers@[m] == (#[trigger] slices@[
                        m
                    ]).spec_device_ref(),
                forall|m: int| 0 <= m < slices@.len() ==> (#[trigger] slices@[m]).spec_raw().wf(),
                push_bytes@ == push_data + Seq::new(p as nat, |q: int| 0u8),
            decreases pad - p,
        {
            push_bytes.push(0);
            proof {
                assert(push_bytes@ =~= push_data + Seq::new((p + 1) as nat, |q: int| 0u8));
            }
            p += 1;
        }
        proof {
            assert(push_bytes@ =~= spec_pad4(push_data));
        }
        let ghost padded = push_bytes@;
        let mut w: usize = 0;
        while w < n
            invariant
                0 <= w <= n,
                *engine == *old(engine),
                old(engine).wf(),
                !old(engine).lost,
                self.valid_in(*old(engine)),
                desc == self.spec_desc_of(*old(engine)),
                dev == self.device,
                pid == self.pipeline,
                padded == spec_pad4(spec_scalar_elems_bytes(push_consts@)),
                spec_dispatch_accepts(*self, desc, slices@, push_consts@),
                spec_arg_error(desc, slices@, dev, 0) is None,
                groups_vec@ == spec_groups_of(*self, desc, slices@),
                !spec_elided(groups_vec@),
                n == desc.slice_descs@.len(),
                slices@.len() == n,
                spec_args_valid(desc, slices@, dev),
                buffers@.len() == n,
                forall|m: int|
                    0 <= m < n ==> buffers@[m] == (#[trigger] slices@[m]).spec_device_ref(),
                forall|m: int| 0 <= m < slices@.len() ==> (#[trigger] slices@[m]).spec_raw().wf(),
                push_bytes@ == padded + spec_slice_words(desc.slice_descs@, slices@, w as int),
            decreases n - w,
        {
            let width = engine.pipelines[pid].desc.slice_descs[w].scalar_type.size();
            let d = buffers[w];
            let offset_elems = d.offset / width;
            proof {
                assert((slices@[w as int].spec_device_ref().offset as int) / (
                desc.slice_descs@[w as int].scalar_type.spec_size() as int) < 0x0100_0000);
            }
            let word0 = (offset_elems as u32) << 8u32;
            let word1 = (d.len / width) as u32;
            let ghost pre = push_bytes@;
            let mut piece0 = vstd::bytes::u32_to_le_bytes(word0);
            push_bytes.append(&mut piece0);
            let mut piece1 = vstd::bytes::u32_to_le_bytes(word1);
            push_bytes.append(&mut piece1);
            proof {
                let a = slices@[w as int];
                assert(a.spec_raw().spec_len() == a.spec_device_ref().len as int
                    / desc.slice_descs@[w as int].scalar_type.spec_size() as int);
                assert(word1 == a.spec_raw().spec_len() as u32);
                assert(push_bytes@ =~= padded + spec_slice_words(
                    desc.slice_descs@,
                    slices@,
                    w + 1,
                ));
            }
            w += 1;
        }
        proof {
            assert(push_bytes@ =~= spec_push_block(desc, slices@, push_consts@));
        }
        let record = Dispatch { pipeline: pid, groups: groups_vec, buffers, push_bytes };
        match engine.submit_dispatch(record) {
            Ok(_) => {
                proof {
                    assert(engine.dispatches@.last().buffers@ =~= Seq::new(
                        slices@.len(),
                        |i: int| slices@[i].spec_device_ref(),
                    ));
                    assert(spec_dispatch_post(
                        *self,
                        *old(engine),
                        *engine,
                        slices@,
                        push_consts@,
                        Ok(()),
                    ));
                }
                Ok(())
            },
            Err(e) => {
                proof {
                    assert(false);
                }
                Err(DispatchError::Lost(e))
            },
        }
    }
}
} // verus!
