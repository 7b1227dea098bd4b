//! Portable compute-runtime core: typed buffers on a modeled accelerator,
//! kernel descriptors, a SPIR-V specializer, and an engine that schedules
//! transfers and dispatches with fence-based completion.

pub mod buffer;
pub mod bytes;
pub mod desc;
pub mod device;
pub mod engine;
pub mod kernel;
pub mod scalar;
pub mod spirv;
