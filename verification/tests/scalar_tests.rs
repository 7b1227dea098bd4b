use krnl::buffer::Buffer;
use krnl::device::Device;
use krnl::scalar::{BF16Bits, F16Bits, F32Bits, F64Bits, ScalarElem, ScalarType};

#[test]
fn sizes_and_alignment() {
    assert_eq!(ScalarType::U8.size(), 1);
    assert_eq!(ScalarType::I8.size(), 1);
    assert_eq!(ScalarType::U16.size(), 2);
    assert_eq!(ScalarType::F16.size(), 2);
    assert_eq!(ScalarType::BF16.size(), 2);
    assert_eq!(ScalarType::U32.size(), 4);
    assert_eq!(ScalarType::F32.size(), 4);
    assert_eq!(ScalarType::U64.size(), 8);
    assert_eq!(ScalarType::F64.size(), 8);
    assert_eq!(ScalarType::F64.alignment(), 8);
}

#[test]
fn tag_round_trip() {
    let all = [
        ScalarType::U8,
        ScalarType::I8,
        ScalarType::U16,
        ScalarType::I16,
        ScalarType::F16,
        ScalarType::BF16,
        ScalarType::U32,
        ScalarType::I32,
        ScalarType::F32,
        ScalarType::U64,
        ScalarType::I64,
        ScalarType::F64,
    ];
    for (i, st) in all.iter().enumerate() {
        assert_eq!(st.tag() as usize, i);
        assert_eq!(ScalarType::from_tag(st.tag()), Some(*st));
    }
    assert_eq!(ScalarType::from_tag(12), None);
}

#[test]
fn elem_types_and_bytes() {
    assert_eq!(ScalarElem::U32(7).scalar_type(), ScalarType::U32);
    assert_eq!(ScalarElem::I64(-1).scalar_type(), ScalarType::I64);
    assert_eq!(ScalarElem::U32(0x0102_0304).to_le_bytes(), vec![4, 3, 2, 1]);
    assert_eq!(ScalarElem::U16(0x0102).to_le_bytes(), vec![2, 1]);
    assert_eq!(ScalarElem::I8(-1).to_le_bytes(), vec![255]);
    assert_eq!(ScalarElem::U64(1).to_le_bytes(), vec![1, 0, 0, 0, 0, 0, 0, 0]);
}

#[test]
fn float_elems_carry_bit_patterns() {
    let bits = 1.5f32.to_bits();
    let elem = ScalarElem::F32(bits);
    assert_eq!(elem.scalar_type(), ScalarType::F32);
    assert_eq!(elem.to_le_bytes(), 1.5f32.to_le_bytes().to_vec());
    let dbits = 2.5f64.to_bits();
    assert_eq!(ScalarElem::F64(dbits).to_le_bytes(), 2.5f64.to_le_bytes().to_vec());
    // Bitwise equality distinguishes the two zero signs, as cache keying
    // requires.
    assert!(ScalarElem::F32(0.0f32.to_bits()) != ScalarElem::F32((-0.0f32).to_bits()));
}

#[test]
fn float_bit_pattern_buffers_round_trip() {
    let mut host = Device::host();
    let xs = vec![F32Bits(1.5f32.to_bits()), F32Bits((-0.0f32).to_bits())];
    assert_eq!(Buffer::from_vec(xs.clone()).into_vec(&mut host).unwrap(), xs);
    let ds = vec![F64Bits(2.5f64.to_bits())];
    assert_eq!(Buffer::from_vec(ds.clone()).into_vec(&mut host).unwrap(), ds);
    assert_eq!(
        Buffer::from_vec(vec![F16Bits(0x3C00)]).into_vec(&mut host).unwrap(),
        vec![F16Bits(0x3C00)]
    );
    assert_eq!(
        Buffer::from_vec(vec![BF16Bits(0x3F80)]).into_vec(&mut host).unwrap(),
        vec![BF16Bits(0x3F80)]
    );
}
