use columnar::array::frame_of_reference::{decode_value, FoRArray};
use columnar::array::primitive::PrimitiveArray;
use columnar::array::struct_::StructArray;
use columnar::array::utf8::Utf8Array;
use columnar::array::{Array, Canonical};
use columnar::dtype::{DType, PType};
use columnar::error::EncError;
use columnar::scalar::Scalar;
use columnar::validity::LogicalValidity;

fn offsets(ptype: PType, values: &[u64]) -> Array {
    let values: Vec<i128> = values.iter().map(|v| *v as i128).collect();
    Array::Primitive(PrimitiveArray::try_new(ptype, values, None).unwrap())
}

fn reference(ptype: PType, value: i128) -> Scalar {
    Scalar::primitive(ptype, value, false).unwrap()
}

fn decoded(array: &FoRArray) -> Vec<Option<i128>> {
    (0..array.len()).map(|i| array.scalar_at(i).unwrap().as_i128()).collect()
}

#[test]
fn decodes_shifted_offsets_plus_reference() {
    let array =
        FoRArray::try_new(offsets(PType::U32, &[0, 1, 2, 3]), reference(PType::I32, -5), 2).unwrap();
    assert_eq!(array.len(), 4);
    assert_eq!(decoded(&array), vec![Some(-5), Some(-1), Some(3), Some(7)]);
    assert_eq!(array.ptype(), PType::I32);
    assert_eq!(array.shift(), 2);
    assert_eq!(array.reference().as_i128(), Some(-5));
    assert_eq!(array.metadata().shift(), 2);
    assert_eq!(array.metadata().reference().as_i128(), Some(-5));
    assert!(matches!(array.dtype(), DType::Primitive(PType::I32, false)));
}

#[test]
fn decode_wraps_in_the_target_width() {
    assert_eq!(decode_value(PType::U8, 255, 10, 1), 8);
    assert_eq!(decode_value(PType::I8, 200, 100, 0), 44);
    assert_eq!(decode_value(PType::I8, 100, 100, 0), -56);
    assert_eq!(decode_value(PType::I8, 3, -128, 0), -125);
    assert_eq!(decode_value(PType::U16, 0xffff, 1, 0), 0);
    assert_eq!(decode_value(PType::U64, u64::MAX as i128, 2, 0), 1);
    assert_eq!(decode_value(PType::I64, 1, i64::MAX as i128, 0), i64::MIN as i128);
    assert_eq!(decode_value(PType::U64, 3, 5, 63), (1i128 << 63) + 5);
    assert_eq!(decode_value(PType::I32, 1, 0, 31), i32::MIN as i128);
}

#[test]
fn shift_of_the_whole_width_leaves_the_reference() {
    assert_eq!(decode_value(PType::U8, 3, 7, 8), 7);
    assert_eq!(decode_value(PType::U8, 3, 7, 255), 7);
    assert_eq!(decode_value(PType::I64, 12345, -9, 64), -9);
    assert_eq!(decode_value(PType::U16, 1, 7, 15), 0x8007);
    assert_eq!(decode_value(PType::U16, 1, 7, 16), 7);
}

#[test]
fn round_trip_of_encoded_values() {
    let decoded_values: Vec<i64> = vec![-1000, -996, -992, 24, 1048];
    let reference_value = -1000i64;
    let shift = 2u8;
    let child: Vec<u64> = decoded_values
        .iter()
        .map(|v| (v.wrapping_sub(reference_value) as u64) >> shift)
        .collect();
    let array = FoRArray::try_new(
        offsets(PType::U64, &child),
        reference(PType::I64, reference_value as i128),
        shift,
    )
    .unwrap();
    let expected: Vec<Option<i128>> = decoded_values.iter().map(|v| Some(*v as i128)).collect();
    assert_eq!(decoded(&array), expected);
}

#[test]
fn null_reference_is_refused() {
    let r = FoRArray::try_new(offsets(PType::U32, &[1]), Scalar::null(PType::I32), 0);
    assert_eq!(r.unwrap_err(), EncError::NullReference);
    let r = FoRArray::try_new(
        offsets(PType::U32, &[1]),
        Scalar::Utf8 { nullable: true, text: None },
        0,
    );
    assert_eq!(r.unwrap_err(), EncError::NullReference);
}

#[test]
fn mismatched_child_or_reference_is_refused() {
    let r = FoRArray::try_new(offsets(PType::U16, &[1]), reference(PType::I32, 0), 0);
    assert_eq!(r.unwrap_err(), EncError::MismatchedTypes);
    let signed = Array::Primitive(PrimitiveArray::try_new(PType::I32, vec![1], None).unwrap());
    let r = FoRArray::try_new(signed, reference(PType::I32, 0), 0);
    assert_eq!(r.unwrap_err(), EncError::MismatchedTypes);
    let text = Array::Utf8(Utf8Array::try_new(vec!["a".to_string()], None).unwrap());
    let r = FoRArray::try_new(text, reference(PType::I32, 0), 0);
    assert_eq!(r.unwrap_err(), EncError::MismatchedTypes);
    let r = FoRArray::try_new(
        offsets(PType::U32, &[1]),
        Scalar::Utf8 { nullable: false, text: Some("a".to_string()) },
        0,
    );
    assert_eq!(r.unwrap_err(), EncError::MismatchedTypes);
    let rows = Array::Struct(StructArray::new(vec![], vec![]));
    let r = FoRArray::try_new(rows, reference(PType::I32, 0), 0);
    assert_eq!(r.unwrap_err(), EncError::MismatchedTypes);
}

#[test]
fn reference_outside_its_type_is_refused() {
    let bad = Scalar::Primitive { ptype: PType::U8, nullable: false, value: Some(256) };
    let r = FoRArray::try_new(offsets(PType::U8, &[1]), bad, 0);
    assert_eq!(r.unwrap_err(), EncError::ValueOutOfRange);
    assert_eq!(
        Scalar::primitive(PType::U8, 256, false).unwrap_err(),
        EncError::ValueOutOfRange
    );
    assert_eq!(
        Scalar::primitive(PType::I8, -129, false).unwrap_err(),
        EncError::ValueOutOfRange
    );
}

#[test]
fn reference_takes_the_nullability_of_the_child() {
    let child = Array::Primitive(
        PrimitiveArray::try_new(PType::U8, vec![1, 2, 3], Some(vec![true, false, true])).unwrap(),
    );
    let array = FoRArray::try_new(child, reference(PType::I8, -3), 1).unwrap();
    assert!(matches!(array.dtype(), DType::Primitive(PType::I8, true)));
    assert!(matches!(
        array.reference(),
        Scalar::Primitive { ptype: PType::I8, nullable: true, value: Some(-3) }
    ));
    assert_eq!(decoded(&array), vec![Some(-1), None, Some(3)]);
    assert!(array.is_valid(0));
    assert!(!array.is_valid(1));
    match array.logical_validity() {
        LogicalValidity::Mask(flags) => assert_eq!(flags, vec![true, false, true]),
        other => panic!("unexpected validity {:?}", other),
    }
    assert!(array.scalar_at(1).unwrap().is_null());
}

#[test]
fn encoded_is_the_unsigned_child() {
    let array =
        FoRArray::try_new(offsets(PType::U16, &[4, 5]), reference(PType::I16, 9), 0).unwrap();
    let child = array.encoded();
    assert_eq!(child.len(), 2);
    assert!(matches!(child.dtype(), DType::Primitive(PType::U16, false)));
    assert_eq!(child.scalar_at(1).unwrap().as_i128(), Some(5));
    let array =
        FoRArray::try_new(offsets(PType::U16, &[4, 5]), reference(PType::U16, 9), 0).unwrap();
    assert!(matches!(array.encoded().dtype(), DType::Primitive(PType::U16, false)));
}

#[test]
fn into_canonical_decodes_every_element() {
    let array =
        FoRArray::try_new(offsets(PType::U8, &[0, 1, 127, 128, 255]), reference(PType::I8, 1), 0)
            .unwrap();
    match array.into_canonical().unwrap() {
        Canonical::Primitive(values) => {
            assert_eq!(values.ptype(), PType::I8);
            let got: Vec<Option<i128>> = (0..values.len()).map(|i| values.get(i)).collect();
            assert_eq!(got, vec![Some(1), Some(2), Some(-128), Some(-127), Some(0)]);
        }
        other => panic!("unexpected canonical form {:?}", other),
    }
}

#[test]
fn slice_keeps_reference_and_shift() {
    let array = Array::FoR(
        FoRArray::try_new(offsets(PType::U32, &[0, 1, 2, 3]), reference(PType::U32, 100), 1)
            .unwrap(),
    );
    let sliced = array.slice(1, 3).unwrap();
    assert!(matches!(sliced, Array::FoR(_)));
    assert_eq!(sliced.len(), 2);
    assert_eq!(sliced.scalar_at(0).unwrap().as_i128(), Some(102));
    assert_eq!(sliced.scalar_at(1).unwrap().as_i128(), Some(104));
    assert_eq!(
        array.slice(3, 5).unwrap_err(),
        EncError::OutOfBounds { start: 3, stop: 5, len: 4 }
    );
}

#[test]
fn frame_of_reference_over_frame_of_reference() {
    let inner = Array::FoR(
        FoRArray::try_new(offsets(PType::U8, &[1, 2]), reference(PType::U8, 10), 0).unwrap(),
    );
    let outer = FoRArray::try_new(inner, reference(PType::I8, -20), 1).unwrap();
    assert_eq!(decoded(&outer), vec![Some(2), Some(4)]);
}

#[test]
fn footprint_is_that_of_the_child() {
    let child = offsets(PType::U8, &[1, 2, 3]);
    let child_bytes = child.nbytes();
    assert_eq!(child_bytes, 3);
    let array = FoRArray::try_new(child, reference(PType::I8, 1), 0).unwrap();
    assert_eq!(array.nbytes(), child_bytes);
    assert_eq!(Array::FoR(array).nbytes(), child_bytes);
}
