//! The device engine: one opened logical device with its memory
//! allocations, an ordered command stream with fence-based completion, and
//! the pipeline cache keyed by kernel identity plus specialization bytes.
//!
//! Submissions append to the command stream; each is identified by its
//! fence value, the stream length right after the append. A fence is
//! complete when it is at most the engine's completed counter; `wait` is a
//! full barrier that completes everything. Once the device is lost the
//! engine is poisoned: every later submission and wait fails fast.

use crate::bytes::{read_range, spec_splice, write_range, zero_bytes};
use crate::desc::{push_descs_eqv, slice_descs_eqv, KernelDesc};
use crate::scalar::ScalarElem;
use crate::spirv::spec_specialize;
use crate::device::{DeviceId, DeviceInfo, DeviceLost, Features};
use vstd::prelude::*;

verus! {

/// What kind of work one submission queued.
#[derive(Clone, Copy, Debug, PartialEq, Eq, Structural)]
pub enum OpKind {
    Upload,
    Download,
    Transfer,
    Dispatch,
}

/// A reference to a range of one device allocation: the engine it lives
/// on, the allocation it is part of, and a byte range within it.
#[derive(Clone, Copy, Debug, PartialEq, Eq, Structural)]
pub struct DeviceBuffer {
    pub device: DeviceId,
    pub alloc_id: usize,
    pub offset: usize,
    pub len: usize,
}

impl DeviceBuffer {
    /// Whether this reference points into `engine`'s memory.
    pub open spec fn valid(self, engine: Engine) -> bool {
        &&& self.device == engine.id()
        &&& self.alloc_id < engine.allocs@.len()
        &&& self.offset + self.len <= engine.mem(self.alloc_id as int).len()
    }

    /// The bytes this reference denotes in `engine`'s memory.
    pub open spec fn spec_bytes(self, engine: Engine) -> Seq<u8> {
        engine.mem(self.alloc_id as int).subrange(self.offset as int, self.offset + self.len)
    }

    /// The byte offset of this range within its allocation.
    pub fn offset(&self) -> (r: usize)
        ensures
            r == self.offset,
    {
        self.offset
    }

    /// The byte length of this range.
    pub fn len(&self) -> (r: usize)
        ensures
            r == self.len,
    {
        self.len
    }

    /// The identity of the engine this range lives on.
    pub fn device(&self) -> (r: DeviceId)
        ensures
            r == self.device,
    {
        self.device
    }

    /// The sub-range `[start, end)` of this range, in bytes, or `None`
    /// when the bounds are out of order or past the end.
    pub fn slice(&self, start: usize, end: usize) -> (r: Option<DeviceBuffer>)
        requires
            self.offset + self.len <= usize::MAX,
        ensures
            match r {
                Some(b) => {
                    &&& start <= end <= self.len
                    &&& b == (DeviceBuffer {
                        offset: (self.offset + start) as usize,
                        len: (end - start) as usize,
                        ..*self
                    })
                },
                None => !(start <= end <= self.len),
            },
    {
        if start <= end && end <= self.len {
            Some(
                DeviceBuffer {
                    device: self.device,
                    alloc_id: self.alloc_id,
                    offset: self.offset + start,
                    len: end - start,
                },
            )
        } else {
            None
        }
    }
}

/// Key of the pipeline cache: the kernel's stable identity (its descriptor
/// hash) together with the specialization bytes it was built with.
#[derive(Clone, Debug)]
pub struct KernelKey {
    pub id: u64,
    pub spec_bytes: Vec<u8>,
}

impl KernelKey {
    /// Key equality: same kernel identity, same specialization bytes.
    pub open spec fn spec_eq_key(self, other: KernelKey) -> bool {
        self.id == other.id && self.spec_bytes@ == other.spec_bytes@
    }

    /// Key equality: same kernel identity, same specialization bytes.
    pub fn eq_key(&self, other: &KernelKey) -> (r: bool)
        ensures
            r == self.spec_eq_key(*other),
    {
        self.id == other.id && crate::bytes::bytes_eq(&self.spec_bytes, &other.spec_bytes)
    }
}

/// One cached compute pipeline: its key, its handle (the position it was
/// inserted at, unique within the engine), and the specialized descriptor
/// it was built from.
#[derive(Debug)]
pub struct Pipeline {
    pub key: KernelKey,
    pub id: u64,
    pub desc: KernelDesc,
}

/// What one dispatch submission recorded: the pipeline it ran, the group
/// counts, the bound buffer ranges in binding order, and the packed
/// push-constant block.
#[derive(Debug)]
pub struct Dispatch {
    pub pipeline: usize,
    pub groups: Vec<u32>,
    pub buffers: Vec<DeviceBuffer>,
    pub push_bytes: Vec<u8>,
}

/// A completion handle: the queue-stream fence value one submission was
/// tagged with. Complete once the engine's completed counter reaches it.
#[derive(Clone, Copy, Debug, PartialEq, Eq, Structural)]
pub struct Completion {
    pub device: DeviceId,
    pub fence: usize,
}

impl Completion {
    /// Whether the submission this handle tags has completed on `engine`.
    pub fn is_complete(&self, engine: &Engine) -> (r: bool)
        ensures
            r == (self.fence <= engine.completed),
    {
        self.fence <= engine.completed
    }

    /// Block until the submission this handle tags has completed, or
    /// report the device lost.
    pub fn block(&self, engine: &mut Engine) -> (r: Result<(), DeviceLost>)
        requires
            old(engine).wf(),
            self.device == old(engine).id(),
            self.fence <= old(engine).ops@.len(),
        ensures
            final(engine).wf(),
            if old(engine).lost {
                &&& r == Err::<(), DeviceLost>(old(engine).lost_id())
                &&& *final(engine) == *old(engine)
            } else {
                &&& r is Ok
                &&& *final(engine) == (Engine { completed: final(engine).completed, ..*old(engine) })
                &&& final(engine).completed == if self.fence >= old(engine).completed {
                    self.fence as int
                } else {
                    old(engine).completed as int
                }
                &&& self.fence <= final(engine).completed
            },
    {
        if engine.lost {
            return Err(engine.lost_error());
        }
        if self.fence > engine.completed {
            engine.completed = self.fence;
        }
        Ok(())
    }
}

/// A pending download: the fence of the copy and the bytes it produces.
/// Blocking on it yields the bytes once the fence completes.
#[derive(Debug)]
pub struct DownloadFuture {
    pub device: DeviceId,
    pub fence: usize,
    pub bytes: Vec<u8>,
}

impl DownloadFuture {
    /// Block until the download's fence completes and yield its bytes, or
    /// report the device lost.
    pub fn block(self, engine: &mut Engine) -> (r: Result<Vec<u8>, DeviceLost>)
        requires
            old(engine).wf(),
            self.device == old(engine).id(),
            self.fence <= old(engine).ops@.len(),
        ensures
            final(engine).wf(),
            if old(engine).lost {
                &&& r == Err::<Vec<u8>, DeviceLost>(old(engine).lost_id())
                &&& *final(engine) == *old(engine)
            } else {
                &&& r is Ok
                &&& r.unwrap()@ == self.bytes@
                &&& *final(engine) == (Engine { completed: final(engine).completed, ..*old(engine) })
                &&& self.fence <= final(engine).completed
            },
    {
        if engine.lost {
            return Err(engine.lost_error());
        }
        if self.fence > engine.completed {
            engine.completed = self.fence;
        }
        Ok(self.bytes)
    }
}

/// One opened logical device: its identity and features, its memory
/// allocations, its command stream with the completion counter, and its
/// pipeline cache.
#[derive(Debug)]
pub struct Engine {
    pub index: usize,
    pub handle: u64,
    pub features: Features,
    pub info: DeviceInfo,
    pub lost: bool,
    pub allocs: Vec<Vec<u8>>,
    pub ops: Vec<OpKind>,
    pub completed: usize,
    pub pipelines: Vec<Pipeline>,
    pub dispatches: Vec<Dispatch>,
}

/// The position of the first cache entry from `i` on whose key equals
/// `key`.
pub open spec fn find_key(pipelines: Seq<Pipeline>, key: KernelKey, i: int) -> Option<int>
    decreases pipelines.len() - i,
{
    if !(0 <= i < pipelines.len()) {
        None
    } else if pipelines[i].key.spec_eq_key(key) {
        Some(i)
    } else {
        find_key(pipelines, key, i + 1)
    }
}

/// `find_key` does not distinguish equal keys.
pub proof fn lemma_find_key_congruent(pipelines: Seq<Pipeline>, k1: KernelKey, k2: KernelKey, i: int)
    requires
        k1.spec_eq_key(k2),
    ensures
        find_key(pipelines, k1, i) == find_key(pipelines, k2, i),
    decreases pipelines.len() - i,
{
    if 0 <= i < pipelines.len() {
        lemma_find_key_congruent(pipelines, k1, k2, i + 1);
    }
}

/// Pipeline-cache determinism: fetching the same key twice in a row
/// returns identical pipeline handles. The first fetch leaves the key
/// cached at its result; the second, looking the key up in that cache,
/// must return the cached position — whether its own lookup hits (it
/// returns the found position) or would insert (impossible, since the key
/// is present).
pub proof fn lemma_cache_deterministic(
    cache: Seq<Pipeline>,
    k1: KernelKey,
    k2: KernelKey,
    p1: int,
    p2: int,
)
    requires
        k1.spec_eq_key(k2),
        find_key(cache, k1, 0) == Some(p1),
        match find_key(cache, k2, 0) {
            Some(p) => p2 == p,
            None => p2 == cache.len(),
        },
    ensures
        p2 == p1,
{
    lemma_find_key_congruent(cache, k1, k2, 0);
}

impl Engine {
    /// The identity this engine presents.
    pub open spec fn id(self) -> DeviceId {
        DeviceId::Device { index: self.index, handle: self.handle }
    }

    /// The bytes of allocation `i`.
    pub open spec fn mem(self, i: int) -> Seq<u8> {
        self.allocs@[i]@
    }

    /// The error every operation fails with once the device is lost.
    pub open spec fn lost_id(self) -> DeviceLost {
        DeviceLost { index: self.index, handle: self.handle }
    }

    /// Engine invariant: the completion counter never runs ahead of the
    /// command stream; the published info matches the engine; pipeline
    /// handles are the cache positions, and no two cached keys are equal.
    pub open spec fn wf(self) -> bool {
        &&& self.completed <= self.ops@.len()
        &&& self.info.index == self.index
        &&& self.info.features == self.features
        &&& forall|i: int|
            0 <= i < self.pipelines@.len() ==> (#[trigger] self.pipelines@[i].id) == i
        &&& forall|i: int, j: int|
            0 <= i < j < self.pipelines@.len() ==> !self.pipelines@[i].key.spec_eq_key(
                self.pipelines@[j].key,
            )
        &&& forall|i: int|
            0 <= i < self.pipelines@.len() ==> (#[trigger] self.pipelines@[i].desc).wf()
    }

    /// Open an engine on physical device `index` with a unique `handle`,
    /// exposing one compute queue and one transfer queue, recorded in
    /// its published info.
    pub fn open(index: usize, handle: u64, features: Features) -> (r: Engine)
        ensures
            r.wf(),
            r.index == index,
            r.handle == handle,
            r.features == features,
            r.info.index == index,
            r.info.features == features,
            r.info.compute_queues == 1,
            r.info.transfer_queues == 1,
            !r.lost,
            r.allocs@.len() == 0,
            r.ops@.len() == 0,
            r.completed == 0,
            r.pipelines@.len() == 0,
            r.dispatches@.len() == 0,
    {
        Engine {
            index,
            handle,
            features,
            info: DeviceInfo {
                index,
                name: String::new(),
                compute_queues: 1,
                transfer_queues: 1,
                features,
            },
            lost: false,
            allocs: Vec::new(),
            ops: Vec::new(),
            completed: 0,
            pipelines: Vec::new(),
            dispatches: Vec::new(),
        }
    }

    /// The identity this engine presents.
    pub fn device_id(&self) -> (r: DeviceId)
        ensures
            r == self.id(),
    {
        DeviceId::Device { index: self.index, handle: self.handle }
    }

    /// The published description of this device.
    pub fn info(&self) -> (r: &DeviceInfo)
        ensures
            *r == self.info,
    {
        &self.info
    }

    /// The error every operation fails with once the device is lost.
    pub fn lost_error(&self) -> (r: DeviceLost)
        ensures
            r == self.lost_id(),
    {
        DeviceLost { index: self.index, handle: self.handle }
    }

    /// Mark the device lost, as a fault injected between operations.
    /// Every later submission and wait on this engine fails fast.
    pub fn inject_device_loss(&mut self)
        requires
            old(self).wf(),
        ensures
            final(self).wf(),
            *final(self) == (Engine { lost: true, ..*old(self) }),
    {
        self.lost = true;
    }

    /// Allocate `nbytes` of zero-initialized device memory and return the
    /// buffer covering it.
    pub fn allocate(&mut self, nbytes: usize) -> (r: Result<DeviceBuffer, DeviceLost>)
        requires
            old(self).wf(),
        ensures
            final(self).wf(),
            if old(self).lost {
                &&& r == Err::<DeviceBuffer, DeviceLost>(old(self).lost_id())
                &&& *final(self) == *old(self)
            } else {
                &&& r is Ok
                &&& *final(self) == (Engine { allocs: final(self).allocs, ..*old(self) })
                &&& final(self).allocs@.len() == old(self).allocs@.len() + 1
                &&& final(self).mem(old(self).allocs@.len() as int) == Seq::new(
                    nbytes as nat,
                    |i: int| 0u8,
                )
                &&& forall|i: int|
                    0 <= i < old(self).allocs@.len() ==> final(self).allocs@[i]
                        == old(self).allocs@[i]
                &&& r.unwrap().device == old(self).id()
                &&& r.unwrap().alloc_id == old(self).allocs@.len()
                &&& r.unwrap().offset == 0
                &&& r.unwrap().len == nbytes
                &&& r.unwrap().valid(*final(self))
            },
    {
        if self.lost {
            return Err(self.lost_error());
        }
        let slot = self.allocs.len();
        let memory = zero_bytes(nbytes);
        self.allocs.push(memory);
        Ok(DeviceBuffer { device: self.device_id(), alloc_id: slot, offset: 0, len: nbytes })
    }

    /// Queue a host-to-device copy of `data` into `dst`. The copy is
    /// tagged with the returned fence.
    pub fn upload(&mut self, dst: &DeviceBuffer, data: &Vec<u8>) -> (r: Result<
        Completion,
        DeviceLost,
    >)
        requires
            old(self).wf(),
            dst.valid(*old(self)),
            data@.len() == dst.len,
        ensures
            final(self).wf(),
            if old(self).lost {
                &&& r == Err::<Completion, DeviceLost>(old(self).lost_id())
                &&& *final(self) == *old(self)
            } else {
                &&& r is Ok
                &&& *final(self) == (Engine {
                    allocs: final(self).allocs,
                    ops: final(self).ops,
                    ..*old(self)
                })
                &&& final(self).ops@ == old(self).ops@.push(OpKind::Upload)
                &&& final(self).allocs@.len() == old(self).allocs@.len()
                &&& final(self).mem(dst.alloc_id as int) == spec_splice(
                    old(self).mem(dst.alloc_id as int),
                    dst.offset as int,
                    data@,
                )
                &&& forall|i: int|
                    0 <= i < old(self).allocs@.len() && i != dst.alloc_id
                        ==> final(self).allocs@[i] == old(self).allocs@[i]
                &&& dst.spec_bytes(*final(self)) == data@
                &&& r.unwrap() == (Completion {
                    device: old(self).id(),
                    fence: (old(self).ops@.len() + 1) as usize,
                })
            },
    {
        if self.lost {
            return Err(self.lost_error());
        }
        let target = vstd::std_specs::vec::vec_index_mut(&mut self.allocs, dst.alloc_id);
        write_range(target, dst.offset, data);
        self.ops.push(OpKind::Upload);
        let fence = self.ops.len();
        proof {
            assert(dst.spec_bytes(*self) =~= data@);
        }
        Ok(Completion { device: self.device_id(), fence })
    }

    /// Queue a device-to-host copy of `src`. The returned future holds the
    /// fence of the copy and yields the bytes when blocked on.
    pub fn download(&mut self, src: &DeviceBuffer) -> (r: Result<DownloadFuture, DeviceLost>)
        requires
            old(self).wf(),
            src.valid(*old(self)),
        ensures
            final(self).wf(),
            if old(self).lost {
                &&& r == Err::<DownloadFuture, DeviceLost>(old(self).lost_id())
                &&& *final(self) == *old(self)
            } else {
                &&& r is Ok
                &&& *final(self) == (Engine { ops: final(self).ops, ..*old(self) })
                &&& final(self).ops@ == old(self).ops@.push(OpKind::Download)
                &&& r.unwrap().bytes@ == src.spec_bytes(*old(self))
                &&& r.unwrap().device == old(self).id()
                &&& r.unwrap().fence == old(self).ops@.len() + 1
            },
    {
        if self.lost {
            return Err(self.lost_error());
        }
        let source = &self.allocs[src.alloc_id];
        let bytes = read_range(source, src.offset, src.len);
        self.ops.push(OpKind::Download);
        let fence = self.ops.len();
        Ok(DownloadFuture { device: self.device_id(), fence, bytes })
    }

    /// Queue a device-to-device copy from `src` to `dst`, two equal-length
    /// ranges on this engine.
    pub fn transfer(&mut self, src: &DeviceBuffer, dst: &DeviceBuffer) -> (r: Result<
        Completion,
        DeviceLost,
    >)
        requires
            old(self).wf(),
            src.valid(*old(self)),
            dst.valid(*old(self)),
            src.len == dst.len,
        ensures
            final(self).wf(),
            if old(self).lost {
                &&& r == Err::<Completion, DeviceLost>(old(self).lost_id())
                &&& *final(self) == *old(self)
            } else {
                &&& r is Ok
                &&& *final(self) == (Engine {
                    allocs: final(self).allocs,
                    ops: final(self).ops,
                    ..*old(self)
                })
                &&& final(self).ops@ == old(self).ops@.push(OpKind::Transfer)
                &&& final(self).allocs@.len() == old(self).allocs@.len()
                &&& final(self).mem(dst.alloc_id as int) == spec_splice(
                    old(self).mem(dst.alloc_id as int),
                    dst.offset as int,
                    src.spec_bytes(*old(self)),
                )
                &&& forall|i: int|
                    0 <= i < old(self).allocs@.len() && i != dst.alloc_id
                        ==> final(self).allocs@[i] == old(self).allocs@[i]
                &&& r.unwrap() == (Completion {
                    device: old(self).id(),
                    fence: (old(self).ops@.len() + 1) as usize,
                })
            },
    {
        if self.lost {
            return Err(self.lost_error());
        }
        let data = read_range(&self.allocs[src.alloc_id], src.offset, src.len);
        let target = vstd::std_specs::vec::vec_index_mut(&mut self.allocs, dst.alloc_id);
        write_range(target, dst.offset, &data);
        self.ops.push(OpKind::Transfer);
        let fence = self.ops.len();
        Ok(Completion { device: self.device_id(), fence })
    }

    /// How the engine and result relate across a `wait` call: on a lost
    /// device the wait fails fast and changes nothing; otherwise it
    /// completes every fence issued so far.
    pub open spec fn wait_spec(self, post: Engine, r: Result<(), DeviceLost>) -> bool {
        if self.lost {
            &&& r == Err::<(), DeviceLost>(self.lost_id())
            &&& post == self
        } else {
            &&& r is Ok
            &&& post == (Engine { completed: post.completed, ..self })
            &&& post.completed == self.ops@.len()
        }
    }

    /// Full barrier: block until every submitted operation has completed,
    /// or report the device lost.
    pub fn wait(&mut self) -> (r: Result<(), DeviceLost>)
        requires
            old(self).wf(),
        ensures
            final(self).wf(),
            old(self).wait_spec(*final(self), r),
    {
        if self.lost {
            return Err(self.lost_error());
        }
        self.completed = self.ops.len();
        Ok(())
    }

    /// After a successful `wait`, every completion handle returned before
    /// the wait — any handle whose fence was issued on this engine — reports
    /// complete.
    pub proof fn lemma_wait_completes_all(
        pre: Engine,
        post: Engine,
        r: Result<(), DeviceLost>,
        c: Completion,
    )
        requires
            pre.wait_spec(post, r),
            r is Ok,
            c.fence <= pre.ops@.len(),
        ensures
            c.fence <= post.completed,
    {
    }

    /// Return the cached pipeline for `key`, or build one: specialize the
    /// descriptor's SPIR-V with the given values and resolved workgroup
    /// dimensions, insert it at the end of the cache, and return its
    /// position. Fetching an already-cached key changes nothing and
    /// returns the cached position.
    pub fn compile_or_fetch(
        &mut self,
        key: KernelKey,
        desc: &KernelDesc,
        threads: Vec<u32>,
        spec_consts: &Vec<ScalarElem>,
    ) -> (r: Result<usize, DeviceLost>)
        requires
            old(self).wf(),
            desc.wf(),
            1 <= threads@.len() <= 3,
            forall|i: int| 0 <= i < threads@.len() ==> threads@[i] >= 1,
        ensures
            final(self).wf(),
            if old(self).lost {
                &&& r == Err::<usize, DeviceLost>(old(self).lost_id())
                &&& *final(self) == *old(self)
            } else {
                &&& r is Ok
                &&& find_key(final(self).pipelines@, key, 0) == Some(r.unwrap() as int)
                &&& match find_key(old(self).pipelines@, key, 0) {
                    Some(p) => {
                        &&& r.unwrap() == p
                        &&& *final(self) == *old(self)
                    },
                    None => {
                        &&& r.unwrap() == old(self).pipelines@.len()
                        &&& *final(self) == (Engine {
                            pipelines: final(self).pipelines,
                            ..*old(self)
                        })
                        &&& final(self).pipelines@.len() == old(self).pipelines@.len() + 1
                        &&& forall|i: int|
                            0 <= i < old(self).pipelines@.len() ==> final(self).pipelines@[i]
                                == old(self).pipelines@[i]
                        &&& {
                            let built = final(self).pipelines@[r.unwrap() as int];
                            &&& built.key.spec_eq_key(key)
                            &&& built.id == r.unwrap()
                            &&& built.desc.name@ == desc.name@
                            &&& built.desc.hash == desc.hash
                            &&& built.desc.features == desc.features
                            &&& built.desc.safe == desc.safe
                            &&& built.desc.threads@ == threads@
                            &&& built.desc.spec_descs@.len() == 0
                            &&& slice_descs_eqv(built.desc.slice_descs@, desc.slice_descs@)
                            &&& push_descs_eqv(built.desc.push_descs@, desc.push_descs@)
                            &&& built.desc.spirv@ == spec_specialize(desc.spirv@, spec_consts@)
                        }
                    },
                }
            },
    {
        if self.lost {
            return Err(self.lost_error());
        }
        let n = self.pipelines.len();
        let mut i: usize = 0;
        while i < n
            invariant
                0 <= i <= n,
                *self == *old(self),
                old(self).wf(),
                !old(self).lost,
                n == self.pipelines@.len(),
                find_key(self.pipelines@, key, 0) == find_key(self.pipelines@, key, i as int),
            decreases n - i,
        {
            if self.pipelines[i].key.eq_key(&key) {
                return Ok(i);
            }
            i += 1;
        }
        let built = desc.specialize(threads, spec_consts);
        let pid = self.pipelines.len();
        let ghost pre = self.pipelines@;
        let entry = Pipeline { key, id: pid as u64, desc: built };
        let ghost entry_snapshot = entry;
        self.pipelines.push(entry);
        proof {
            assert(self.pipelines@ =~= pre.push(entry_snapshot));
            lemma_find_key_none(pre, entry_snapshot.key, 0);
            lemma_find_key_push(pre, entry_snapshot, 0);
        }
        Ok(pid)
    }

    /// Queue one compute dispatch, recording the pipeline, group counts,
    /// buffer bindings and packed push constants. The lengths of all
    /// existing allocations are preserved; what a dispatch writes into
    /// its bound ranges is outside this model's contract.
    pub fn submit_dispatch(&mut self, record: Dispatch) -> (r: Result<Completion, DeviceLost>)
        requires
            old(self).wf(),
        ensures
            final(self).wf(),
            if old(self).lost {
                &&& r == Err::<Completion, DeviceLost>(old(self).lost_id())
                &&& *final(self) == *old(self)
            } else {
                &&& r is Ok
                &&& *final(self) == (Engine {
                    ops: final(self).ops,
                    dispatches: final(self).dispatches,
                    ..*old(self)
                })
                &&& final(self).ops@ == old(self).ops@.push(OpKind::Dispatch)
                &&& final(self).dispatches@ == old(self).dispatches@.push(record)
                &&& r.unwrap() == (Completion {
                    device: old(self).id(),
                    fence: (old(self).ops@.len() + 1) as usize,
                })
            },
    {
        if self.lost {
            return Err(self.lost_error());
        }
        self.dispatches.push(record);
        self.ops.push(OpKind::Dispatch);
        let fence = self.ops.len();
        Ok(Completion { device: self.device_id(), fence })
    }

    /// Completion respects submission order: when a fence reports
    /// complete, every fence issued before it on the same engine reports
    /// complete as well.
    pub proof fn lemma_fifo_completion(e: Engine, earlier: Completion, later: Completion)
        requires
            earlier.fence <= later.fence,
            later.fence <= e.completed,
        ensures
            earlier.fence <= e.completed,
    {
    }

    /// How many operations have been submitted to this engine.
    pub fn submission_count(&self) -> (r: usize)
        ensures
            r == self.ops@.len(),
    {
        self.ops.len()
    }

    /// How many pipelines the cache holds.
    pub fn pipeline_count(&self) -> (r: usize)
        ensures
            r == self.pipelines@.len(),
    {
        self.pipelines.len()
    }
}

/// A successful lookup names a real cache position holding the key.
pub proof fn lemma_find_key_found(pipelines: Seq<Pipeline>, key: KernelKey, i: int, p: int)
    requires
        0 <= i,
        find_key(pipelines, key, i) == Some(p),
    ensures
        i <= p < pipelines.len(),
        pipelines[p].key.spec_eq_key(key),
    decreases pipelines.len() - i,
{
    if 0 <= i < pipelines.len() && !pipelines[i].key.spec_eq_key(key) {
        lemma_find_key_found(pipelines, key, i + 1, p);
    }
}

/// A missed lookup means no entry from `i` on matches the key.
proof fn lemma_find_key_none(pipelines: Seq<Pipeline>, key: KernelKey, i: int)
    requires
        0 <= i,
        find_key(pipelines, key, i) is None,
    ensures
        forall|j: int|
            i <= j < pipelines.len() ==> !(#[trigger] pipelines[j].key).spec_eq_key(key),
    decreases pipelines.len() - i,
{
    if i < pipelines.len() {
        lemma_find_key_none(pipelines, key, i + 1);
    }
}

/// Looking a key up in a cache that missed it and then gained a matching
/// entry at the end finds exactly that entry.
proof fn lemma_find_key_push(pipelines: Seq<Pipeline>, p: Pipeline, i: int)
    requires
        0 <= i <= pipelines.len(),
        find_key(pipelines, p.key, i) is None,
        p.key.spec_eq_key(p.key),
    ensures
        find_key(pipelines.push(p), p.key, i) == Some(pipelines.len() as int),
    decreases pipelines.len() - i,
{
    let s = pipelines.push(p);
    if i < pipelines.len() {
        assert(s[i] == pipelines[i]);
        lemma_find_key_push(pipelines, p, i + 1);
    } else {
        assert(s[i] == p);
    }
}
} // verus!
