use krnl::buffer::Buffer;
use krnl::device::{Device, DeviceId, DeviceInner, Features, Instance};
use krnl::engine::Engine;

fn one_device_instance() -> Instance {
    Instance::new(vec![Features::empty()])
}

fn open_device(inst: &mut Instance, index: usize) -> Device {
    Device::builder().index(index).build(inst).unwrap()
}

fn engine_of(device: &mut Device) -> &mut Engine {
    match &mut device.inner {
        DeviceInner::Device(engine) => engine,
        DeviceInner::Host => panic!("expected a device"),
    }
}

#[test]
fn buffer_from_vec() {
    let x_vec = vec![1u32, 2, 3, 4];
    let buffer = Buffer::from_vec(x_vec.clone());
    let mut host = Device::host();
    let y_vec = buffer.into_vec(&mut host).unwrap();
    assert_eq!(x_vec, y_vec);
}

#[test]
fn buffer_into_device() {
    let mut inst = one_device_instance();
    let mut device = open_device(&mut inst, 0);
    let x_vec = vec![1u32, 2, 3, 4];
    let buffer = Buffer::from_vec(x_vec.clone()).into_device(&mut device).unwrap();
    let y_vec = buffer.into_vec(&mut device).unwrap();
    assert_eq!(x_vec, y_vec);
}

#[test]
fn round_trip_each_integer_type() {
    let mut host = Device::host();
    assert_eq!(Buffer::from_vec(vec![1u8, 255]).into_vec(&mut host).unwrap(), vec![1u8, 255]);
    assert_eq!(Buffer::from_vec(vec![-1i8, 127]).into_vec(&mut host).unwrap(), vec![-1i8, 127]);
    assert_eq!(Buffer::from_vec(vec![1u16, 65535]).into_vec(&mut host).unwrap(), vec![1u16, 65535]);
    assert_eq!(Buffer::from_vec(vec![-2i16, 300]).into_vec(&mut host).unwrap(), vec![-2i16, 300]);
    assert_eq!(Buffer::from_vec(vec![7u32]).into_vec(&mut host).unwrap(), vec![7u32]);
    assert_eq!(Buffer::from_vec(vec![-7i32]).into_vec(&mut host).unwrap(), vec![-7i32]);
    assert_eq!(
        Buffer::from_vec(vec![u64::MAX, 0]).into_vec(&mut host).unwrap(),
        vec![u64::MAX, 0]
    );
    assert_eq!(
        Buffer::from_vec(vec![i64::MIN, i64::MAX]).into_vec(&mut host).unwrap(),
        vec![i64::MIN, i64::MAX]
    );
}

#[test]
fn device_round_trip_preserves_bytes() {
    let mut inst = one_device_instance();
    let mut device = open_device(&mut inst, 0);
    let x_vec = vec![0x0102_0304u32, 0xDEAD_BEEF, 0, u32::MAX];
    let buffer = Buffer::from_vec(x_vec.clone()).into_device(&mut device).unwrap();
    assert!(buffer.device() != DeviceId::Host);
    assert_eq!(buffer.len(), 4);
    let y_vec = buffer.to_vec(&mut device).unwrap();
    assert_eq!(x_vec, y_vec);
}

#[test]
fn as_host_slice_on_device_fails() {
    let mut inst = one_device_instance();
    let mut device = open_device(&mut inst, 0);
    let buffer = Buffer::from_vec(vec![1u32, 2]).into_device(&mut device).unwrap();
    let err = buffer.as_host_slice().unwrap_err();
    assert_eq!(err.index(), 0);
}

#[test]
fn as_host_slice_on_host_succeeds() {
    let buffer = Buffer::from_vec(vec![5u32, 6]);
    assert_eq!(buffer.as_host_slice().unwrap(), vec![5u32, 6]);
}

#[test]
fn split_at_lengths_sum_and_contents() {
    let buffer = Buffer::from_vec(vec![1u32, 2, 3, 4]);
    let (a, b) = buffer.split_at(2);
    assert_eq!(a.len() + b.len(), buffer.len());
    assert_eq!(a.as_host_slice().unwrap(), vec![1u32, 2]);
    assert_eq!(b.as_host_slice().unwrap(), vec![3u32, 4]);
}

#[test]
fn split_at_bounds() {
    let buffer = Buffer::from_vec(vec![1u32, 2, 3, 4]);
    let (full, empty) = buffer.split_at(4);
    assert_eq!(full.as_host_slice().unwrap(), vec![1u32, 2, 3, 4]);
    assert_eq!(empty.len(), 0);
    let (empty2, full2) = buffer.split_at(0);
    assert_eq!(empty2.len(), 0);
    assert_eq!(full2.as_host_slice().unwrap(), vec![1u32, 2, 3, 4]);
}

#[test]
fn split_at_device_ranges_disjoint() {
    let mut inst = one_device_instance();
    let mut device = open_device(&mut inst, 0);
    let buffer = Buffer::from_vec(vec![1u32, 2, 3, 4]).into_device(&mut device).unwrap();
    let (a, b) = buffer.split_at(1);
    assert_eq!(a.len(), 1);
    assert_eq!(b.len(), 3);
    match (&a.raw.inner, &b.raw.inner) {
        (krnl::buffer::RawSliceInner::Device(da), krnl::buffer::RawSliceInner::Device(db)) => {
            assert_eq!(da.offset + da.len, db.offset);
            assert_eq!(da.len + db.len, 16);
        }
        _ => panic!("expected device ranges"),
    }
}

#[test]
fn wait_completes_all_handles() {
    let mut inst = one_device_instance();
    let mut device = open_device(&mut inst, 0);
    let engine = engine_of(&mut device);
    let dbuf = engine.allocate(8).unwrap();
    let data = vec![1u8, 2, 3, 4, 5, 6, 7, 8];
    let completion = engine.upload(&dbuf, &data).unwrap();
    assert!(!completion.is_complete(engine));
    engine.wait().unwrap();
    assert!(completion.is_complete(engine));
}

#[test]
fn transfer_copies_between_allocations() {
    let mut inst = one_device_instance();
    let mut device = open_device(&mut inst, 0);
    let engine = engine_of(&mut device);
    let src = engine.allocate(4).unwrap();
    let dst = engine.allocate(4).unwrap();
    engine.upload(&src, &vec![9u8, 8, 7, 6]).unwrap();
    engine.transfer(&src, &dst).unwrap();
    let fut = engine.download(&dst).unwrap();
    let bytes = fut.block(engine).unwrap();
    assert_eq!(bytes, vec![9u8, 8, 7, 6]);
}

#[test]
fn device_lost_poisons_engine() {
    let mut inst = one_device_instance();
    let mut device = open_device(&mut inst, 0);
    {
        let engine = engine_of(&mut device);
        let dbuf = engine.allocate(4).unwrap();
        let fut = engine.download(&dbuf).unwrap();
        engine.inject_device_loss();
        let err = fut.block(engine).unwrap_err();
        assert_eq!(err.index(), 0);
        assert!(engine.allocate(4).is_err());
        assert!(engine.wait().is_err());
    }
    assert!(device.wait().is_err());
    let host_buffer = Buffer::from_vec(vec![1u32]);
    assert!(host_buffer.into_device(&mut device).is_err());
}

#[test]
fn device_index_out_of_range() {
    let mut inst = one_device_instance();
    let err = Device::builder().index(3).build(&mut inst).unwrap_err();
    assert_eq!(err.index, 3);
    assert_eq!(err.devices, 1);
}

#[test]
fn device_identity_and_info() {
    let mut inst = Instance::new(vec![Features::empty(), Features::empty()]);
    let device_a = open_device(&mut inst, 0);
    let device_b = open_device(&mut inst, 1);
    assert!(device_a.id() != device_b.id());
    assert!(device_a.is_device());
    assert!(!device_a.is_host());
    let host = Device::host();
    assert!(host.is_host());
    assert!(host.info().is_none());
    let info = device_a.info().unwrap();
    assert_eq!(info.index, 0);
    assert_eq!(info.compute_queues, 1);
    assert_eq!(info.transfer_queues, 1);
}

#[test]
fn features_ops() {
    let none = Features::empty();
    let some = Features::empty().with_shader_int8(true).with_shader_float64(true);
    assert!(some.contains(&none));
    assert!(!none.contains(&some));
    assert!(some.shader_int8());
    assert!(!some.shader_int16());
    let all = some.union(&Features::empty().with_shader_int16(true));
    assert!(all.shader_int8() && all.shader_int16() && all.shader_float64());
    let meet = some.intersection(&Features::empty().with_shader_int8(true));
    assert!(meet.shader_int8() && !meet.shader_float64());
}

#[test]
fn builder_enables_supported_feature_subset() {
    let mut inst = Instance::new(vec![Features::empty().with_shader_int8(true)]);
    let device = open_device(&mut inst, 0);
    let features = device.info().unwrap().features();
    assert!(features.shader_int8());
    assert!(!features.shader_float64());
}

#[test]
fn slice_to_device_uploads_and_copies() {
    let mut inst = one_device_instance();
    let mut device = open_device(&mut inst, 0);
    let host_buffer = Buffer::from_vec(vec![1u32, 2, 3]);
    let uploaded = host_buffer.as_slice().to_device(&mut device).unwrap();
    assert_eq!(uploaded.to_vec(&mut device).unwrap(), vec![1u32, 2, 3]);
    // A device-to-device copy lands in a fresh allocation with the same
    // contents.
    let copied = uploaded.as_slice().to_device(&mut device).unwrap();
    assert_eq!(copied.to_vec(&mut device).unwrap(), vec![1u32, 2, 3]);
    // A host-to-host copy stays on the host.
    let mut host = Device::host();
    let host_copy = host_buffer.as_slice().to_device(&mut host).unwrap();
    assert_eq!(host_copy.as_host_slice().unwrap(), vec![1u32, 2, 3]);
}

#[test]
fn to_device_mut_moves_in_place() {
    let mut inst = one_device_instance();
    let mut device = open_device(&mut inst, 0);
    let mut buffer = Buffer::from_vec(vec![4u32, 5]);
    buffer.to_device_mut(&mut device).unwrap();
    assert!(buffer.device() != DeviceId::Host);
    // Already there: a second move changes nothing.
    buffer.to_device_mut(&mut device).unwrap();
    assert_eq!(buffer.to_vec(&mut device).unwrap(), vec![4u32, 5]);
}

#[test]
fn to_buffer_copies_on_device() {
    let mut inst = one_device_instance();
    let mut device = open_device(&mut inst, 0);
    let buffer = Buffer::from_vec(vec![1u32, 2]).into_device(&mut device).unwrap();
    let copy = buffer.to_buffer(&mut device).unwrap();
    assert_eq!(copy.to_vec(&mut device).unwrap(), vec![1u32, 2]);
    // The copy is an independent allocation.
    match (&buffer.raw.slice.inner, &copy.raw.slice.inner) {
        (krnl::buffer::RawSliceInner::Device(a), krnl::buffer::RawSliceInner::Device(b)) => {
            assert!(a.alloc_id != b.alloc_id);
        }
        _ => panic!("expected device buffers"),
    }
}

#[test]
fn completion_block_completes_single_fence() {
    let mut inst = one_device_instance();
    let mut device = open_device(&mut inst, 0);
    let engine = engine_of(&mut device);
    let dbuf = engine.allocate(2).unwrap();
    let c1 = engine.upload(&dbuf, &vec![1u8, 2]).unwrap();
    let c2 = engine.upload(&dbuf, &vec![3u8, 4]).unwrap();
    c1.block(engine).unwrap();
    assert!(c1.is_complete(engine));
    assert!(!c2.is_complete(engine));
    c2.block(engine).unwrap();
    assert!(c2.is_complete(engine));
}

#[test]
fn slice_from_vec_round_trips() {
    let slice = krnl::buffer::Slice::from_vec(vec![9u32, 8]);
    assert_eq!(slice.len(), 2);
    assert_eq!(slice.as_host_slice().unwrap(), vec![9u32, 8]);
}

#[test]
fn split_at_mut_device_ranges_disjoint() {
    let mut inst = one_device_instance();
    let mut device = open_device(&mut inst, 0);
    let mut buffer = Buffer::from_vec(vec![1u32, 2, 3, 4]).into_device(&mut device).unwrap();
    let (a, b) = buffer.split_at_mut(2);
    assert_eq!(a.len(), 2);
    assert_eq!(b.len(), 2);
    match (&a.raw.inner, &b.raw.inner) {
        (krnl::buffer::RawSliceInner::Device(da), krnl::buffer::RawSliceInner::Device(db)) => {
            assert_eq!(da.offset + da.len, db.offset);
        }
        _ => panic!("expected device ranges"),
    }
}

#[test]
fn into_host_brings_device_elements_back() {
    let mut inst = one_device_instance();
    let mut device = open_device(&mut inst, 0);
    let buffer = Buffer::from_vec(vec![11u32, 22]).into_device(&mut device).unwrap();
    let host_buffer = buffer.into_host(&mut device).unwrap();
    assert_eq!(host_buffer.device(), DeviceId::Host);
    assert_eq!(host_buffer.as_host_slice().unwrap(), vec![11u32, 22]);
}

#[test]
fn arc_buffer_wraps_and_extracts() {
    let mut inst = one_device_instance();
    let mut device = open_device(&mut inst, 0);
    let buffer = Buffer::from_vec(vec![3u32, 4]).into_device(&mut device).unwrap();
    let shared = buffer.into_arc_buffer();
    assert_eq!(shared.len(), 2);
    let copy = shared.to_buffer(&mut device).unwrap();
    let original = shared.into_buffer();
    assert_eq!(original.to_vec(&mut device).unwrap(), vec![3u32, 4]);
    assert_eq!(copy.to_vec(&mut device).unwrap(), vec![3u32, 4]);
}

#[test]
fn cow_buffer_owns_or_copies() {
    let mut host = Device::host();
    let owned = krnl::buffer::CowBuffer::Owned(Buffer::from_vec(vec![7u32]));
    assert_eq!(owned.len(), 1);
    let buffer = owned.into_buffer(&mut host).unwrap();
    assert_eq!(buffer.as_host_slice().unwrap(), vec![7u32]);
    let source = Buffer::from_vec(vec![8u32, 9]);
    let borrowed = krnl::buffer::CowBuffer::Borrowed(source.as_slice());
    let copy = borrowed.into_buffer(&mut host).unwrap();
    assert_eq!(copy.as_host_slice().unwrap(), vec![8u32, 9]);
    // The source is untouched by the copy.
    assert_eq!(source.as_host_slice().unwrap(), vec![8u32, 9]);
}

#[test]
fn empty_buffers_move_without_queueing() {
    let mut inst = one_device_instance();
    let mut device = open_device(&mut inst, 0);
    let buffer = Buffer::from_vec(Vec::<u32>::new()).into_device(&mut device).unwrap();
    assert_eq!(engine_of(&mut device).submission_count(), 0);
    let elems = buffer.to_vec(&mut device).unwrap();
    assert!(elems.is_empty());
    let slice_copy = buffer.as_slice().to_device(&mut device).unwrap();
    assert_eq!(slice_copy.len(), 0);
    assert_eq!(engine_of(&mut device).submission_count(), 0);
}

#[test]
fn is_empty_tracks_length() {
    let empty = Buffer::from_vec(Vec::<u32>::new());
    assert!(empty.is_empty());
    let full = Buffer::from_vec(vec![1u32]);
    assert!(!full.is_empty());
}
