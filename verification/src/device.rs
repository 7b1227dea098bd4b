//! Devices: the host sentinel, modeled accelerators, and their identities.
//!
//! A [`Device`] is either the host or an opened engine. Engine state itself
//! lives in [`crate::engine`]; a [`DeviceId`] is the lightweight identity
//! (index and unique handle) that buffers and kernels carry, and by which
//! devices compare equal.

use crate::engine::Engine;
use vstd::prelude::*;

verus! {

/// The capability bits a device may support and a kernel may require.
#[derive(Clone, Copy, Debug, PartialEq, Eq, Hash, Structural)]
pub struct Features {
    pub shader_int8: bool,
    pub shader_int16: bool,
    pub shader_int64: bool,
    pub shader_float16: bool,
    pub shader_float64: bool,
}

impl Features {
    /// No capabilities.
    pub fn empty() -> (r: Features)
        ensures
            r == (Features {
                shader_int8: false,
                shader_int16: false,
                shader_int64: false,
                shader_float16: false,
                shader_float64: false,
            }),
    {
        Features {
            shader_int8: false,
            shader_int16: false,
            shader_int64: false,
            shader_float16: false,
            shader_float64: false,
        }
    }

    /// Whether 8-bit integer shader arithmetic is available.
    pub fn shader_int8(&self) -> (r: bool)
        ensures
            r == self.shader_int8,
    {
        self.shader_int8
    }

    /// This set of features with `shader_int8` replaced.
    pub fn with_shader_int8(self, shader_int8: bool) -> (r: Features)
        ensures
            r == (Features { shader_int8, ..self }),
    {
        Features { shader_int8, ..self }
    }

    /// Whether 16-bit integer shader arithmetic is available.
    pub fn shader_int16(&self) -> (r: bool)
        ensures
            r == self.shader_int16,
    {
        self.shader_int16
    }

    /// This set of features with `shader_int16` replaced.
    pub fn with_shader_int16(self, shader_int16: bool) -> (r: Features)
        ensures
            r == (Features { shader_int16, ..self }),
    {
        Features { shader_int16, ..self }
    }

    /// Whether 64-bit integer shader arithmetic is available.
    pub fn shader_int64(&self) -> (r: bool)
        ensures
            r == self.shader_int64,
    {
        self.shader_int64
    }

    /// This set of features with `shader_int64` replaced.
    pub fn with_shader_int64(self, shader_int64: bool) -> (r: Features)
        ensures
            r == (Features { shader_int64, ..self }),
    {
        Features { shader_int64, ..self }
    }

    /// Whether 16-bit float shader arithmetic is available.
    pub fn shader_float16(&self) -> (r: bool)
        ensures
            r == self.shader_float16,
    {
        self.shader_float16
    }

    /// This set of features with `shader_float16` replaced.
    pub fn with_shader_float16(self, shader_float16: bool) -> (r: Features)
        ensures
            r == (Features { shader_float16, ..self }),
    {
        Features { shader_float16, ..self }
    }

    /// Whether 64-bit float shader arithmetic is available.
    pub fn shader_float64(&self) -> (r: bool)
        ensures
            r == self.shader_float64,
    {
        self.shader_float64
    }

    /// This set of features with `shader_float64` replaced.
    pub fn with_shader_float64(self, shader_float64: bool) -> (r: Features)
        ensures
            r == (Features { shader_float64, ..self }),
    {
        Features { shader_float64, ..self }
    }

    /// Whether every capability of `other` is also in `self`.
    pub open spec fn spec_contains(self, other: Features) -> bool {
        &&& (self.shader_int8 || !other.shader_int8)
        &&& (self.shader_int16 || !other.shader_int16)
        &&& (self.shader_int64 || !other.shader_int64)
        &&& (self.shader_float16 || !other.shader_float16)
        &&& (self.shader_float64 || !other.shader_float64)
    }

    /// Whether every capability of `other` is also in `self`.
    pub fn contains(&self, other: &Features) -> (r: bool)
        ensures
            r == self.spec_contains(*other),
    {
        (self.shader_int8 || !other.shader_int8) && (self.shader_int16 || !other.shader_int16)
            && (self.shader_int64 || !other.shader_int64) && (self.shader_float16
            || !other.shader_float16) && (self.shader_float64 || !other.shader_float64)
    }

    /// The capability-wise union of the two sets.
    pub fn union(self, other: &Features) -> (r: Features)
        ensures
            r.shader_int8 == (self.shader_int8 || other.shader_int8),
            r.shader_int16 == (self.shader_int16 || other.shader_int16),
            r.shader_int64 == (self.shader_int64 || other.shader_int64),
            r.shader_float16 == (self.shader_float16 || other.shader_float16),
            r.shader_float64 == (self.shader_float64 || other.shader_float64),
    {
        Features {
            shader_int8: self.shader_int8 || other.shader_int8,
            shader_int16: self.shader_int16 || other.shader_int16,
            shader_int64: self.shader_int64 || other.shader_int64,
            shader_float16: self.shader_float16 || other.shader_float16,
            shader_float64: self.shader_float64 || other.shader_float64,
        }
    }

    /// The capability-wise intersection of the two sets.
    pub open spec fn spec_intersection(self, other: Features) -> Features {
        Features {
            shader_int8: self.shader_int8 && other.shader_int8,
            shader_int16: self.shader_int16 && other.shader_int16,
            shader_int64: self.shader_int64 && other.shader_int64,
            shader_float16: self.shader_float16 && other.shader_float16,
            shader_float64: self.shader_float64 && other.shader_float64,
        }
    }

    /// The capability-wise intersection of the two sets.
    pub fn intersection(self, other: &Features) -> (r: Features)
        ensures
            r == self.spec_intersection(*other),
    {
        Features {
            shader_int8: self.shader_int8 && other.shader_int8,
            shader_int16: self.shader_int16 && other.shader_int16,
            shader_int64: self.shader_int64 && other.shader_int64,
            shader_float16: self.shader_float16 && other.shader_float16,
            shader_float64: self.shader_float64 && other.shader_float64,
        }
    }
}

/// The identity of a device: the host, or an engine named by its physical
/// index and the unique handle it was opened with. Two device-backed values
/// belong together exactly when their handles agree.
#[derive(Clone, Copy, Debug, PartialEq, Eq, Hash, Structural)]
pub enum DeviceId {
    Host,
    Device { index: usize, handle: u64 },
}

impl DeviceId {
    /// Whether this is the host identity.
    pub fn is_host(&self) -> (r: bool)
        ensures
            r == (*self == DeviceId::Host),
    {
        match self {
            DeviceId::Host => true,
            DeviceId::Device { .. } => false,
        }
    }
}

/// The terminal failure of an engine: the device was lost. All later
/// submissions on that engine fail fast with this error.
#[derive(Clone, Copy, Debug, PartialEq, Eq, Structural)]
pub struct DeviceLost {
    pub index: usize,
    pub handle: u64,
}

impl DeviceLost {
    /// The physical index of the lost device.
    pub fn index(&self) -> (r: usize)
        ensures
            r == self.index,
    {
        self.index
    }
}

/// Selection failure at construction: no physical device has this index.
#[derive(Clone, Copy, Debug, PartialEq, Eq, Structural)]
pub struct DeviceIndexOutOfRange {
    pub index: usize,
    pub devices: usize,
}

/// The modeled machine: the table of physical devices that enumeration
/// sees, and the source of unique engine handles.
#[derive(Debug)]
pub struct Instance {
    pub physical: Vec<Features>,
    pub next_handle: u64,
}

impl Instance {
    /// A machine whose enumerated physical devices support the given features.
    pub fn new(physical: Vec<Features>) -> (r: Instance)
        ensures
            r.physical@ == physical@,
            r.next_handle == 1,
    {
        Instance { physical, next_handle: 1 }
    }

    /// How many physical devices enumeration finds.
    pub fn device_count(&self) -> (r: usize)
        ensures
            r == self.physical@.len(),
    {
        self.physical.len()
    }
}

/// Options accumulated by [`DeviceBuilder`].
#[derive(Clone, Copy, Debug)]
pub struct DeviceOptions {
    pub index: usize,
    pub optimal_features: Features,
}

/// Builder for opening a device.
#[derive(Debug)]
pub struct DeviceBuilder {
    pub options: DeviceOptions,
}

impl DeviceBuilder {
    /// Select which enumerated physical device to open.
    pub fn index(self, index: usize) -> (r: DeviceBuilder)
        ensures
            r.options.index == index,
            r.options.optimal_features == self.options.optimal_features,
    {
        let mut this = self;
        this.options.index = index;
        this
    }

    /// Open the selected device on `instance`, enabling the supported subset
    /// of the requested optimal features.
    pub fn build(self, instance: &mut Instance) -> (r: Result<Device, DeviceIndexOutOfRange>)
        requires
            old(instance).next_handle < u64::MAX,
        ensures
            final(instance).physical@ == old(instance).physical@,
            match r {
                Ok(device) => {
                    &&& self.options.index < old(instance).physical@.len()
                    &&& final(instance).next_handle == old(instance).next_handle + 1
                    &&& device.spec_id() == (DeviceId::Device {
                        index: self.options.index,
                        handle: old(instance).next_handle,
                    })
                    &&& device.spec_engine() is Some
                    &&& device.spec_engine().unwrap().wf()
                    &&& device.spec_engine().unwrap().lost == false
                    &&& device.spec_engine().unwrap().features
                        == self.options.optimal_features.spec_intersection(
                        old(instance).physical@[self.options.index as int],
                    )
                    &&& device.spec_engine().unwrap().allocs@.len() == 0
                    &&& device.spec_engine().unwrap().ops@.len() == 0
                    &&& device.spec_engine().unwrap().completed == 0
                    &&& device.spec_engine().unwrap().pipelines@.len() == 0
                    &&& device.spec_engine().unwrap().info.compute_queues == 1
                    &&& device.spec_engine().unwrap().info.transfer_queues == 1
                },
                Err(e) => {
                    &&& self.options.index >= old(instance).physical@.len()
                    &&& e == (DeviceIndexOutOfRange {
                        index: self.options.index,
                        devices: old(instance).physical@.len() as usize,
                    })
                    &&& final(instance).next_handle == old(instance).next_handle
                },
            },
    {
        let index = self.options.index;
        let devices = instance.device_count();
        if index >= devices {
            return Err(DeviceIndexOutOfRange { index, devices });
        }
        let supported = instance.physical[index];
        let features = self.options.optimal_features.intersection(&supported);
        let handle = instance.next_handle;
        instance.next_handle = handle + 1;
        let engine = Engine::open(index, handle, features);
        Ok(Device { inner: DeviceInner::Device(engine) })
    }
}

/// What a [`Device`] holds: nothing for the host, or an owned engine.
#[derive(Debug)]
pub enum DeviceInner {
    Host,
    Device(Engine),
}

impl DeviceInner {
    /// Whether this is the host.
    pub fn is_host(&self) -> (r: bool)
        ensures
            r == (*self is Host),
    {
        match self {
            DeviceInner::Host => true,
            DeviceInner::Device(_) => false,
        }
    }

    /// Whether this is an opened engine.
    pub fn is_device(&self) -> (r: bool)
        ensures
            r == (*self is Device),
    {
        !self.is_host()
    }
}

/// A compute device: the host, or one opened engine with its queues,
/// memory and caches. The engine is owned by this value; operations that
/// submit work take the device by `&mut`.
#[derive(Debug)]
pub struct Device {
    pub inner: DeviceInner,
}

impl Device {
    /// The identity this device presents to buffers and kernels.
    pub open spec fn spec_id(&self) -> DeviceId {
        match self.inner {
            DeviceInner::Host => DeviceId::Host,
            DeviceInner::Device(engine) => engine.id(),
        }
    }

    /// The engine, if this is not the host.
    pub open spec fn spec_engine(&self) -> Option<Engine> {
        match self.inner {
            DeviceInner::Host => None,
            DeviceInner::Device(engine) => Some(engine),
        }
    }

    /// A device is well-formed when its engine is.
    pub open spec fn wf(&self) -> bool {
        match self.inner {
            DeviceInner::Host => true,
            DeviceInner::Device(engine) => engine.wf(),
        }
    }

    /// The host device: a sentinel carrying no engine.
    pub fn host() -> (r: Device)
        ensures
            r.spec_id() == DeviceId::Host,
            r.wf(),
    {
        Device { inner: DeviceInner::Host }
    }

    /// A builder that by default opens physical device 0 with every optimal
    /// feature requested.
    pub fn builder() -> (r: DeviceBuilder)
        ensures
            r.options.index == 0,
            r.options.optimal_features == (Features {
                shader_int8: true,
                shader_int16: true,
                shader_int64: true,
                shader_float16: true,
                shader_float64: true,
            }),
    {
        DeviceBuilder {
            options: DeviceOptions {
                index: 0,
                optimal_features: Features::empty()
                    .with_shader_int8(true)
                    .with_shader_int16(true)
                    .with_shader_int64(true)
                    .with_shader_float16(true)
                    .with_shader_float64(true),
            },
        }
    }

    /// Whether this device is the host.
    pub fn is_host(&self) -> (r: bool)
        ensures
            r == (self.spec_id() == DeviceId::Host),
    {
        self.inner.is_host()
    }

    /// Whether this device is an opened engine.
    pub fn is_device(&self) -> (r: bool)
        ensures
            r == (self.spec_id() != DeviceId::Host),
    {
        self.inner.is_device()
    }

    /// The identity this device presents to buffers and kernels.
    pub fn id(&self) -> (r: DeviceId)
        ensures
            r == self.spec_id(),
    {
        match &self.inner {
            DeviceInner::Host => DeviceId::Host,
            DeviceInner::Device(engine) => engine.device_id(),
        }
    }

    /// The engine's description, or `None` on the host.
    pub fn info(&self) -> (r: Option<&DeviceInfo>)
        ensures
            match r {
                Some(info) => {
                    &&& self.spec_engine() is Some
                    &&& *info == self.spec_engine().unwrap().info
                },
                None => self.spec_id() == DeviceId::Host,
            },
    {
        match &self.inner {
            DeviceInner::Host => None,
            DeviceInner::Device(engine) => Some(engine.info()),
        }
    }

    /// Block until every previously submitted operation on this device has
    /// completed. A full barrier: on success every completion handle handed
    /// out before this call reports complete.
    pub fn wait(&mut self) -> (r: Result<(), DeviceLost>)
        requires
            old(self).wf(),
        ensures
            final(self).wf(),
            final(self).spec_id() == old(self).spec_id(),
            match old(self).spec_engine() {
                None => {
                    &&& r is Ok
                    &&& final(self).spec_engine() is None
                },
                Some(e) => {
                    &&& final(self).spec_engine() is Some
                    &&& e.wait_spec(final(self).spec_engine().unwrap(), r)
                },
            },
    {
        match &mut self.inner {
            DeviceInner::Host => Ok(()),
            DeviceInner::Device(engine) => engine.wait(),
        }
    }
}

impl Device {
    /// Mark the device lost, as a fault injected between operations; a
    /// no-op on the host. Every later submission and wait on a lost
    /// device fails fast.
    pub fn inject_device_loss(&mut self)
        requires
            old(self).wf(),
        ensures
            final(self).wf(),
            final(self).spec_id() == old(self).spec_id(),
            match old(self).spec_engine() {
                None => *final(self) == *old(self),
                Some(e) => final(self).spec_engine() == Some(Engine { lost: true, ..e }),
            },
    {
        match &mut self.inner {
            DeviceInner::Host => {},
            DeviceInner::Device(engine) => engine.inject_device_loss(),
        }
    }
}

/// What `info()` reports of an opened device.
#[derive(Clone, Debug)]
pub struct DeviceInfo {
    pub index: usize,
    pub name: String,
    pub compute_queues: usize,
    pub transfer_queues: usize,
    pub features: Features,
}

impl DeviceInfo {
    /// The features the engine was opened with.
    pub fn features(&self) -> (r: Features)
        ensures
            r == self.features,
    {
        self.features
    }
}

} // verus!
