use krnl::buffer::Buffer;
use krnl::desc::{KernelDesc, PushDesc, SliceDesc, SpecDesc};
use krnl::device::{Device, DeviceInner, Features, Instance};
use krnl::engine::Engine;
use krnl::kernel::{DispatchError, KernelBuilder, KernelError, KernelSliceArg, SpecializationError};
use krnl::scalar::{ScalarElem, ScalarType};
use krnl::spirv::specialize_module;

fn engine_of(device: &mut Device) -> &mut Engine {
    match &mut device.inner {
        DeviceInner::Device(engine) => engine,
        DeviceInner::Host => panic!("expected a device"),
    }
}

/// A minimal module: header, one `SpecId 0` decoration on id 1, and one
/// `OpSpecConstant` with result id 1 and literal 256.
fn sample_spirv() -> Vec<u32> {
    vec![
        0x0723_0203,
        0x0001_0300,
        0,
        100,
        0,
        71 | (4 << 16),
        1,
        1,
        0,
        50 | (4 << 16),
        2,
        1,
        256,
    ]
}

/// An elementwise kernel: immutable item slice `x`, mutable item slice
/// `y`, push constant `alpha`, one spec constant driving `threads.x`.
fn saxpy_like_desc() -> KernelDesc {
    KernelDesc {
        name: b"saxpy_u32".to_vec(),
        hash: 0x1234_5678_9ABC_DEF0,
        spirv: sample_spirv(),
        features: Features::empty(),
        threads: vec![256],
        safe: true,
        spec_descs: vec![SpecDesc {
            name: b"threads_x".to_vec(),
            scalar_type: ScalarType::U32,
            thread_dim: Some(0),
        }],
        slice_descs: vec![
            SliceDesc {
                name: b"x".to_vec(),
                scalar_type: ScalarType::U32,
                mutable: false,
                item: true,
            },
            SliceDesc {
                name: b"y".to_vec(),
                scalar_type: ScalarType::U32,
                mutable: true,
                item: true,
            },
        ],
        push_descs: vec![PushDesc { name: b"alpha".to_vec(), scalar_type: ScalarType::U32 }],
    }
}

fn plain_desc() -> KernelDesc {
    KernelDesc {
        name: b"plain".to_vec(),
        hash: 42,
        spirv: vec![0x0723_0203, 0x0001_0300, 0, 10, 0],
        features: Features::empty(),
        threads: vec![64],
        safe: true,
        spec_descs: vec![],
        slice_descs: vec![],
        push_descs: vec![],
    }
}

#[test]
fn desc_codec_round_trip() {
    let desc = saxpy_like_desc();
    let bytes = desc.to_bytes();
    let decoded = KernelDesc::from_bytes(&bytes).unwrap();
    assert_eq!(decoded.to_bytes(), bytes);
    assert_eq!(decoded.name, desc.name);
    assert_eq!(decoded.hash, desc.hash);
    assert_eq!(decoded.spirv, desc.spirv);
    assert_eq!(decoded.threads, desc.threads);
    assert_eq!(decoded.safe, desc.safe);
    assert_eq!(decoded.slice_descs.len(), 2);
    assert_eq!(decoded.push_descs.len(), 1);
}

#[test]
fn desc_decode_rejects_truncation_and_trailing() {
    let bytes = saxpy_like_desc().to_bytes();
    let mut truncated = bytes.clone();
    truncated.pop();
    assert!(KernelDesc::from_bytes(&truncated).is_none());
    let mut trailing = bytes.clone();
    trailing.push(0);
    assert!(KernelDesc::from_bytes(&trailing).is_none());
    assert!(KernelDesc::from_bytes(&vec![]).is_none());
}

#[test]
fn desc_decode_rejects_zero_thread_dim() {
    let mut desc = plain_desc();
    desc.threads = vec![0];
    let bytes = desc.to_bytes();
    assert!(KernelDesc::from_bytes(&bytes).is_none());
}

#[test]
fn push_consts_range_formula() {
    let mut desc = saxpy_like_desc();
    desc.push_descs = vec![
        PushDesc { name: b"a".to_vec(), scalar_type: ScalarType::U32 },
        PushDesc { name: b"b".to_vec(), scalar_type: ScalarType::U16 },
    ];
    // 6 bytes of pushes round to 8; two slices add 16.
    assert_eq!(desc.push_consts_range(), 24);
}

#[test]
fn specializer_patches_decorated_literal() {
    let words = sample_spirv();
    let values = vec![ScalarElem::U32(64)];
    let patched = specialize_module(&words, &values);
    assert_eq!(patched.len(), words.len());
    assert_eq!(patched[12], 64);
    let mut expected = words.clone();
    expected[12] = 64;
    assert_eq!(patched, expected);
}

#[test]
fn specializer_is_deterministic() {
    let words = sample_spirv();
    let values = vec![ScalarElem::U32(7)];
    let once = specialize_module(&words, &values);
    let twice = specialize_module(&words, &values);
    assert_eq!(once, twice);
}

#[test]
fn specializer_leaves_unrelated_words() {
    let words = sample_spirv();
    let patched = specialize_module(&words, &vec![ScalarElem::U32(64)]);
    for i in 0..words.len() {
        if i != 12 {
            assert_eq!(patched[i], words[i]);
        }
    }
}

#[test]
fn zero_thread_dim_spec_constant_fails_naming_axis() {
    let bytes = saxpy_like_desc().to_bytes();
    let builder = KernelBuilder::from_bytes(&bytes).unwrap();
    let err = builder.specialize(&vec![ScalarElem::U32(0)]).unwrap_err();
    assert_eq!(err, SpecializationError::ZeroThreadDim { axis: 0 });
    assert_eq!(err.message(), "threads.x cannot be zero");
}

#[test]
fn specialize_sets_thread_dim() {
    let bytes = saxpy_like_desc().to_bytes();
    let builder = KernelBuilder::from_bytes(&bytes).unwrap();
    assert_eq!(builder.hash(), 0x1234_5678_9ABC_DEF0);
    assert!(builder.safe());
    let builder = builder.specialize(&vec![ScalarElem::U32(64)]).unwrap();
    assert_eq!(builder.threads, vec![64, 1, 1]);
}

#[test]
fn build_on_host_is_rejected() {
    let bytes = plain_desc().to_bytes();
    let builder = KernelBuilder::from_bytes(&bytes).unwrap();
    let mut host = Device::host();
    match builder.build(&mut host) {
        Err(KernelError::ExpectedDevice { kernel }) => assert_eq!(kernel, b"plain".to_vec()),
        _ => panic!("expected ExpectedDevice"),
    }
}

#[test]
fn build_requires_specialization() {
    let bytes = saxpy_like_desc().to_bytes();
    let builder = KernelBuilder::from_bytes(&bytes).unwrap();
    let mut inst = Instance::new(vec![Features::empty()]);
    let mut device = Device::builder().build(&mut inst).unwrap();
    match builder.build(&mut device) {
        Err(KernelError::NotSpecialized { kernel }) => assert_eq!(kernel, b"saxpy_u32".to_vec()),
        _ => panic!("expected NotSpecialized"),
    }
}

#[test]
fn build_checks_device_features() {
    let mut desc = plain_desc();
    desc.features = Features::empty().with_shader_float64(true);
    let bytes = desc.to_bytes();
    let builder = KernelBuilder::from_bytes(&bytes).unwrap();
    let mut inst = Instance::new(vec![Features::empty()]);
    let mut device = Device::builder().build(&mut inst).unwrap();
    match builder.build(&mut device) {
        Err(KernelError::Validation(v)) => {
            assert_eq!(v.kernel, b"plain".to_vec());
            assert_eq!(v.device_index, 0);
            assert!(v.required.shader_float64());
            assert!(!v.enabled.shader_float64());
        }
        _ => panic!("expected Validation"),
    }
}

#[test]
fn specialization_determinism_hits_pipeline_cache() {
    let bytes = saxpy_like_desc().to_bytes();
    let mut inst = Instance::new(vec![Features::empty()]);
    let mut device = Device::builder().build(&mut inst).unwrap();
    let kernel1 = KernelBuilder::from_bytes(&bytes)
        .unwrap()
        .specialize(&vec![ScalarElem::U32(64)])
        .unwrap()
        .build(&mut device)
        .unwrap();
    let kernel2 = KernelBuilder::from_bytes(&bytes)
        .unwrap()
        .specialize(&vec![ScalarElem::U32(64)])
        .unwrap()
        .build(&mut device)
        .unwrap();
    assert_eq!(kernel1.pipeline, kernel2.pipeline);
    assert_eq!(engine_of(&mut device).pipeline_count(), 1);
    // A different specialization builds a second pipeline.
    let kernel3 = KernelBuilder::from_bytes(&bytes)
        .unwrap()
        .specialize(&vec![ScalarElem::U32(128)])
        .unwrap()
        .build(&mut device)
        .unwrap();
    assert!(kernel3.pipeline != kernel1.pipeline);
    assert_eq!(engine_of(&mut device).pipeline_count(), 2);
}

#[test]
fn build_specializes_cached_spirv() {
    let bytes = saxpy_like_desc().to_bytes();
    let mut inst = Instance::new(vec![Features::empty()]);
    let mut device = Device::builder().build(&mut inst).unwrap();
    let kernel = KernelBuilder::from_bytes(&bytes)
        .unwrap()
        .specialize(&vec![ScalarElem::U32(64)])
        .unwrap()
        .build(&mut device)
        .unwrap();
    assert_eq!(kernel.threads(), &vec![64]);
    let engine = engine_of(&mut device);
    let cached = &engine.pipelines[kernel.pipeline];
    assert_eq!(cached.desc.spirv[12], 64);
    assert_eq!(cached.desc.threads, vec![64]);
    assert!(cached.desc.spec_descs.is_empty());
}

fn built_saxpy(device: &mut Device) -> krnl::kernel::Kernel {
    let bytes = saxpy_like_desc().to_bytes();
    KernelBuilder::from_bytes(&bytes)
        .unwrap()
        .specialize(&vec![ScalarElem::U32(256)])
        .unwrap()
        .build(device)
        .unwrap()
}

#[test]
fn dispatch_records_packed_push_constants() {
    let mut inst = Instance::new(vec![Features::empty()]);
    let mut device = Device::builder().build(&mut inst).unwrap();
    let kernel = built_saxpy(&mut device);
    let x = Buffer::from_vec(vec![1u32, 2, 3, 4]).into_device(&mut device).unwrap();
    let mut y = Buffer::from_vec(vec![10u32, 20, 30, 40]).into_device(&mut device).unwrap();
    let args = vec![
        KernelSliceArg::from_slice(x.as_slice()),
        KernelSliceArg::from_slice_mut(y.as_slice_mut()),
    ];
    let engine = engine_of(&mut device);
    kernel.dispatch(engine, &args, &vec![ScalarElem::U32(2)]).unwrap();
    assert_eq!(engine.dispatches.len(), 1);
    let record = &engine.dispatches[0];
    assert_eq!(record.pipeline, kernel.pipeline);
    // Item length 4 at 256 threads: one group.
    assert_eq!(record.groups, vec![1, 1, 1]);
    assert_eq!(record.buffers.len(), 2);
    // alpha, then per slice: packed offset word and element count.
    assert_eq!(
        record.push_bytes,
        vec![2, 0, 0, 0, 0, 0, 0, 0, 4, 0, 0, 0, 0, 0, 0, 0, 4, 0, 0, 0]
    );
}

#[test]
fn dispatch_infers_items_from_shortest_slice() {
    let mut inst = Instance::new(vec![Features::empty()]);
    let mut device = Device::builder().build(&mut inst).unwrap();
    let bytes = saxpy_like_desc().to_bytes();
    let kernel = KernelBuilder::from_bytes(&bytes)
        .unwrap()
        .specialize(&vec![ScalarElem::U32(2)])
        .unwrap()
        .build(&mut device)
        .unwrap();
    let x = Buffer::from_vec(vec![1u32, 2, 3, 4, 5]).into_device(&mut device).unwrap();
    let mut y = Buffer::from_vec(vec![1u32, 2, 3]).into_device(&mut device).unwrap();
    let args = vec![
        KernelSliceArg::from_slice(x.as_slice()),
        KernelSliceArg::from_slice_mut(y.as_slice_mut()),
    ];
    let engine = engine_of(&mut device);
    kernel.dispatch(engine, &args, &vec![ScalarElem::U32(1)]).unwrap();
    // min(5, 3) items at 2 threads each: ceil(3 / 2) groups.
    assert_eq!(engine.dispatches[0].groups, vec![2, 1, 1]);
}

#[test]
fn wrong_device_is_rejected_naming_both() {
    let mut inst = Instance::new(vec![Features::empty(), Features::empty()]);
    let mut device_a = Device::builder().index(0).build(&mut inst).unwrap();
    let mut device_b = Device::builder().index(1).build(&mut inst).unwrap();
    let kernel = built_saxpy(&mut device_b);
    let x = Buffer::from_vec(vec![1u32]).into_device(&mut device_a).unwrap();
    let mut y = Buffer::from_vec(vec![1u32]).into_device(&mut device_a).unwrap();
    let a_id = device_a.id();
    let b_id = device_b.id();
    let args = vec![
        KernelSliceArg::from_slice(x.as_slice()),
        KernelSliceArg::from_slice_mut(y.as_slice_mut()),
    ];
    let engine_b = engine_of(&mut device_b);
    let submissions_before = engine_b.submission_count();
    let err = kernel.dispatch(engine_b, &args, &vec![ScalarElem::U32(1)]).unwrap_err();
    match &err {
        DispatchError::WrongDevice { kernel, slice, index, kernel_device, buffer_device } => {
            assert_eq!(kernel, &b"saxpy_u32".to_vec());
            assert_eq!(slice, &b"x".to_vec());
            assert_eq!(*index, 0);
            assert_eq!(*kernel_device, b_id);
            assert_eq!(*buffer_device, a_id);
        }
        _ => panic!("expected WrongDevice"),
    }
    assert_eq!(engine_b.submission_count(), submissions_before);
}

#[test]
fn zero_length_elementwise_dispatch_is_elided() {
    let mut inst = Instance::new(vec![Features::empty()]);
    let mut device = Device::builder().build(&mut inst).unwrap();
    let kernel = built_saxpy(&mut device);
    let x = Buffer::from_vec(Vec::<u32>::new()).into_device(&mut device).unwrap();
    let mut y = Buffer::from_vec(Vec::<u32>::new()).into_device(&mut device).unwrap();
    let args = vec![
        KernelSliceArg::from_slice(x.as_slice()),
        KernelSliceArg::from_slice_mut(y.as_slice_mut()),
    ];
    let engine = engine_of(&mut device);
    let submissions_before = engine.submission_count();
    kernel.dispatch(engine, &args, &vec![ScalarElem::U32(2)]).unwrap();
    assert_eq!(engine.submission_count(), submissions_before);
    assert_eq!(engine.dispatches.len(), 0);
}

#[test]
fn zero_group_dispatch_is_elided() {
    let mut inst = Instance::new(vec![Features::empty()]);
    let mut device = Device::builder().build(&mut inst).unwrap();
    let kernel = built_saxpy(&mut device).groups(&vec![0]);
    let x = Buffer::from_vec(vec![1u32]).into_device(&mut device).unwrap();
    let mut y = Buffer::from_vec(vec![1u32]).into_device(&mut device).unwrap();
    let args = vec![
        KernelSliceArg::from_slice(x.as_slice()),
        KernelSliceArg::from_slice_mut(y.as_slice_mut()),
    ];
    let engine = engine_of(&mut device);
    let submissions_before = engine.submission_count();
    kernel.dispatch(engine, &args, &vec![ScalarElem::U32(2)]).unwrap();
    assert_eq!(engine.submission_count(), submissions_before);
}

#[test]
fn dispatch_validation_errors() {
    let mut inst = Instance::new(vec![Features::empty()]);
    let mut device = Device::builder().build(&mut inst).unwrap();
    let kernel = built_saxpy(&mut device);
    let x = Buffer::from_vec(vec![1u32]).into_device(&mut device).unwrap();
    let mut y = Buffer::from_vec(vec![1u32]).into_device(&mut device).unwrap();
    let wrong_type = Buffer::from_vec(vec![1i32]).into_device(&mut device).unwrap();
    let host_x = Buffer::from_vec(vec![1u32]);
    let engine = engine_of(&mut device);
    // Too few slices.
    let err = kernel
        .dispatch(engine, &vec![KernelSliceArg::from_slice(x.as_slice())], &vec![
            ScalarElem::U32(2),
        ])
        .unwrap_err();
    match &err {
        DispatchError::SliceCountMismatch { kernel, expected: 2, found: 1 } => {
            assert_eq!(kernel, &b"saxpy_u32".to_vec());
        }
        _ => panic!("expected SliceCountMismatch"),
    }
    // Wrong element type in slot 0.
    let err = kernel
        .dispatch(
            engine,
            &vec![
                KernelSliceArg::from_slice(wrong_type.as_slice()),
                KernelSliceArg::from_slice_mut(y.as_slice_mut()),
            ],
            &vec![ScalarElem::U32(2)],
        )
        .unwrap_err();
    match &err {
        DispatchError::WrongScalarType { kernel, slice, index: 0 } => {
            assert_eq!(kernel, &b"saxpy_u32".to_vec());
            assert_eq!(slice, &b"x".to_vec());
        }
        _ => panic!("expected WrongScalarType"),
    }
    // Immutable view where the binding writes.
    let err = kernel
        .dispatch(
            engine,
            &vec![
                KernelSliceArg::from_slice(x.as_slice()),
                KernelSliceArg::from_slice(y.as_slice()),
            ],
            &vec![ScalarElem::U32(2)],
        )
        .unwrap_err();
    match &err {
        DispatchError::WrongMutability { kernel, slice, index: 1 } => {
            assert_eq!(kernel, &b"saxpy_u32".to_vec());
            assert_eq!(slice, &b"y".to_vec());
        }
        _ => panic!("expected WrongMutability"),
    }
    // Host slice for a device kernel.
    let err = kernel
        .dispatch(
            engine,
            &vec![
                KernelSliceArg::from_slice(host_x.as_slice()),
                KernelSliceArg::from_slice_mut(y.as_slice_mut()),
            ],
            &vec![ScalarElem::U32(2)],
        )
        .unwrap_err();
    match &err {
        DispatchError::ExpectedDeviceSlice { kernel, slice, index: 0 } => {
            assert_eq!(kernel, &b"saxpy_u32".to_vec());
            assert_eq!(slice, &b"x".to_vec());
        }
        _ => panic!("expected ExpectedDeviceSlice"),
    }
    // Missing push constant.
    let err = kernel
        .dispatch(
            engine,
            &vec![
                KernelSliceArg::from_slice(x.as_slice()),
                KernelSliceArg::from_slice_mut(y.as_slice_mut()),
            ],
            &vec![],
        )
        .unwrap_err();
    assert!(matches!(err, DispatchError::PushCountMismatch { expected: 1, found: 0, .. }));
    // Wrong push type.
    let err = kernel
        .dispatch(
            engine,
            &vec![
                KernelSliceArg::from_slice(x.as_slice()),
                KernelSliceArg::from_slice_mut(y.as_slice_mut()),
            ],
            &vec![ScalarElem::F32(0)],
        )
        .unwrap_err();
    match &err {
        DispatchError::WrongPushType { kernel, push, index: 0 } => {
            assert_eq!(kernel, &b"saxpy_u32".to_vec());
            assert_eq!(push, &b"alpha".to_vec());
        }
        _ => panic!("expected WrongPushType"),
    }
}

#[test]
fn non_item_kernel_needs_dims() {
    let mut desc = plain_desc();
    desc.slice_descs = vec![SliceDesc {
        name: b"data".to_vec(),
        scalar_type: ScalarType::U32,
        mutable: true,
        item: false,
    }];
    let bytes = desc.to_bytes();
    let mut inst = Instance::new(vec![Features::empty()]);
    let mut device = Device::builder().build(&mut inst).unwrap();
    let builder = KernelBuilder::from_bytes(&bytes).unwrap();
    let kernel = builder.build(&mut device).unwrap();
    let mut data = Buffer::from_vec(vec![1u32, 2]).into_device(&mut device).unwrap();
    let engine = engine_of(&mut device);
    let args = vec![KernelSliceArg::from_slice_mut(data.as_slice_mut())];
    let err = kernel.dispatch(engine, &args, &vec![]).unwrap_err();
    match &err {
        DispatchError::MissingDim { kernel } => assert_eq!(kernel, &b"plain".to_vec()),
        _ => panic!("expected MissingDim"),
    }
    // With an explicit group count the same dispatch succeeds.
    let kernel = kernel.groups(&vec![2]);
    kernel.dispatch(engine, &args, &vec![]).unwrap();
    assert_eq!(engine.dispatches.len(), 1);
    assert_eq!(engine.dispatches[0].groups, vec![2, 1, 1]);
}

#[test]
fn global_threads_round_up() {
    let mut inst = Instance::new(vec![Features::empty()]);
    let mut device = Device::builder().build(&mut inst).unwrap();
    let bytes = saxpy_like_desc().to_bytes();
    let kernel = KernelBuilder::from_bytes(&bytes)
        .unwrap()
        .specialize(&vec![ScalarElem::U32(256)])
        .unwrap()
        .build(&mut device)
        .unwrap()
        .global_threads(&vec![300]);
    let x = Buffer::from_vec(vec![1u32]).into_device(&mut device).unwrap();
    let mut y = Buffer::from_vec(vec![1u32]).into_device(&mut device).unwrap();
    let args = vec![
        KernelSliceArg::from_slice(x.as_slice()),
        KernelSliceArg::from_slice_mut(y.as_slice_mut()),
    ];
    let engine = engine_of(&mut device);
    kernel.dispatch(engine, &args, &vec![ScalarElem::U32(2)]).unwrap();
    assert_eq!(engine.dispatches[0].groups, vec![2, 1, 1]);
}

#[test]
fn dispatch_on_lost_device_fails_fast() {
    let mut inst = Instance::new(vec![Features::empty()]);
    let mut device = Device::builder().build(&mut inst).unwrap();
    let kernel = built_saxpy(&mut device);
    let x = Buffer::from_vec(vec![1u32]).into_device(&mut device).unwrap();
    let mut y = Buffer::from_vec(vec![1u32]).into_device(&mut device).unwrap();
    let args = vec![
        KernelSliceArg::from_slice(x.as_slice()),
        KernelSliceArg::from_slice_mut(y.as_slice_mut()),
    ];
    device.inject_device_loss();
    let engine = engine_of(&mut device);
    let err = kernel.dispatch(engine, &args, &vec![ScalarElem::U32(2)]).unwrap_err();
    assert!(matches!(err, DispatchError::Lost(_)));
}

#[test]
fn unsafe_kernel_needs_unchecked_dispatch() {
    let mut desc = saxpy_like_desc();
    desc.safe = false;
    let bytes = desc.to_bytes();
    let mut inst = Instance::new(vec![Features::empty()]);
    let mut device = Device::builder().build(&mut inst).unwrap();
    let kernel = KernelBuilder::from_bytes(&bytes)
        .unwrap()
        .specialize(&vec![ScalarElem::U32(256)])
        .unwrap()
        .build(&mut device)
        .unwrap();
    assert_eq!(kernel.name(), &b"saxpy_u32".to_vec());
    let x = Buffer::from_vec(vec![1u32]).into_device(&mut device).unwrap();
    let mut y = Buffer::from_vec(vec![1u32]).into_device(&mut device).unwrap();
    let args = vec![
        KernelSliceArg::from_slice(x.as_slice()),
        KernelSliceArg::from_slice_mut(y.as_slice_mut()),
    ];
    let engine = engine_of(&mut device);
    // The checked entry rejects an unchecked kernel and submits nothing.
    let err = kernel.dispatch(engine, &args, &vec![ScalarElem::U32(2)]).unwrap_err();
    match &err {
        DispatchError::UnsafeKernel { kernel: name } => {
            assert_eq!(name, &b"saxpy_u32".to_vec());
        }
        _ => panic!("expected UnsafeKernel"),
    }
    assert_eq!(engine.dispatches.len(), 0);
    // The unchecked entry submits it.
    kernel.dispatch_unchecked(engine, &args, &vec![ScalarElem::U32(2)]).unwrap();
    assert_eq!(engine.dispatches.len(), 1);
}

#[test]
fn specialization_error_messages_name_each_axis() {
    assert_eq!(
        krnl::kernel::SpecializationError::ZeroThreadDim { axis: 0 }.message(),
        "threads.x cannot be zero"
    );
    assert_eq!(
        krnl::kernel::SpecializationError::ZeroThreadDim { axis: 1 }.message(),
        "threads.y cannot be zero"
    );
    assert_eq!(
        krnl::kernel::SpecializationError::ZeroThreadDim { axis: 2 }.message(),
        "threads.z cannot be zero"
    );
}

#[test]
fn empty_bound_slice_with_nonzero_groups_is_rejected() {
    let mut inst = Instance::new(vec![Features::empty()]);
    let mut device = Device::builder().build(&mut inst).unwrap();
    let kernel = built_saxpy(&mut device).groups(&vec![1]);
    let x = Buffer::from_vec(Vec::<u32>::new()).into_device(&mut device).unwrap();
    let mut y = Buffer::from_vec(vec![1u32]).into_device(&mut device).unwrap();
    let args = vec![
        KernelSliceArg::from_slice(x.as_slice()),
        KernelSliceArg::from_slice_mut(y.as_slice_mut()),
    ];
    let engine = engine_of(&mut device);
    let submissions_before = engine.submission_count();
    let err = kernel.dispatch(engine, &args, &vec![ScalarElem::U32(2)]).unwrap_err();
    match &err {
        DispatchError::EmptySlice { kernel: name, slice, index } => {
            assert_eq!(name, &b"saxpy_u32".to_vec());
            assert_eq!(slice, &b"x".to_vec());
            assert_eq!(*index, 0);
        }
        _ => panic!("expected EmptySlice"),
    }
    assert_eq!(engine.submission_count(), submissions_before);
}

#[test]
fn infer_error_names_kernel_and_threads() {
    let mut desc = saxpy_like_desc();
    desc.threads = vec![4, 2];
    desc.spec_descs = vec![];
    let bytes = desc.to_bytes();
    let mut inst = Instance::new(vec![Features::empty()]);
    let mut device = Device::builder().build(&mut inst).unwrap();
    let kernel = KernelBuilder::from_bytes(&bytes).unwrap().build(&mut device).unwrap();
    let x = Buffer::from_vec(vec![1u32]).into_device(&mut device).unwrap();
    let mut y = Buffer::from_vec(vec![1u32]).into_device(&mut device).unwrap();
    let args = vec![
        KernelSliceArg::from_slice(x.as_slice()),
        KernelSliceArg::from_slice_mut(y.as_slice_mut()),
    ];
    let engine = engine_of(&mut device);
    let err = kernel.dispatch(engine, &args, &vec![ScalarElem::U32(2)]).unwrap_err();
    match &err {
        DispatchError::InferNeedsLinearThreads { kernel: name, threads } => {
            assert_eq!(name, &b"saxpy_u32".to_vec());
            assert_eq!(threads, &vec![4, 2]);
        }
        _ => panic!("expected InferNeedsLinearThreads"),
    }
}
