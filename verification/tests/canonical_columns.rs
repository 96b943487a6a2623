use columnar::array::primitive::PrimitiveArray;
use columnar::array::utf8::Utf8Array;
use columnar::array::{check_slice_bounds, Array, Canonical};
use columnar::dtype::{clone_names, DType, PType};
use columnar::error::EncError;
use columnar::scalar::Scalar;
use columnar::validity::LogicalValidity;

#[test]
fn primitive_column_reads_back() {
    let array = PrimitiveArray::try_new(PType::I16, vec![-3, 0, 32767], None).unwrap();
    assert_eq!(array.len(), 3);
    assert!(!array.is_empty());
    assert_eq!(array.get(0), Some(-3));
    assert_eq!(array.get(2), Some(32767));
    assert!(matches!(array.dtype(), DType::Primitive(PType::I16, false)));
    assert!(matches!(
        array.scalar_at(0),
        Scalar::Primitive { ptype: PType::I16, nullable: false, value: Some(-3) }
    ));
    assert!(matches!(array.logical_validity(), LogicalValidity::AllValid(3)));
}

#[test]
fn primitive_column_with_nulls() {
    let array =
        PrimitiveArray::try_new(PType::U8, vec![1, 2, 3], Some(vec![true, false, true])).unwrap();
    assert!(matches!(array.dtype(), DType::Primitive(PType::U8, true)));
    assert_eq!(array.get(1), None);
    assert!(array.scalar_at(1).is_null());
    assert!(array.is_valid(0));
    assert!(!array.is_valid(1));
    let sliced = array.slice(1, 3);
    assert_eq!(sliced.len(), 2);
    assert_eq!(sliced.get(0), None);
    assert_eq!(sliced.get(1), Some(3));
}

#[test]
fn primitive_column_refuses_bad_input() {
    assert_eq!(
        PrimitiveArray::try_new(PType::U8, vec![1, 256], None).unwrap_err(),
        EncError::ValueOutOfRange
    );
    assert_eq!(
        PrimitiveArray::try_new(PType::U8, vec![-1], None).unwrap_err(),
        EncError::ValueOutOfRange
    );
    assert_eq!(
        PrimitiveArray::try_new(PType::U8, vec![1, 2], Some(vec![true])).unwrap_err(),
        EncError::MismatchedLengths
    );
    assert_eq!(
        PrimitiveArray::try_new(PType::U8, vec![1, 256], Some(vec![true])).unwrap_err(),
        EncError::MismatchedLengths
    );
    assert_eq!(
        Utf8Array::try_new(vec!["a".to_string()], Some(vec![])).unwrap_err(),
        EncError::MismatchedLengths
    );
}

#[test]
fn ptype_ranges_and_widths() {
    assert_eq!(PType::I8.min_i128(), -128);
    assert_eq!(PType::I8.max_i128(), 127);
    assert_eq!(PType::U64.max_i128(), u64::MAX as i128);
    assert_eq!(PType::I64.min_i128(), i64::MIN as i128);
    assert_eq!(PType::U16.modulus_i128(), 65536);
    assert_eq!(PType::I32.bit_width(), 32);
    assert_eq!(PType::U64.byte_width(), 8);
    assert!(PType::I16.is_signed_int());
    assert!(!PType::U16.is_signed_int());
    assert_eq!(PType::I64.to_unsigned(), PType::U64);
    assert_eq!(PType::U8.to_unsigned(), PType::U8);
    assert!(PType::U32.contains(u32::MAX as i128));
    assert!(!PType::U32.contains(u32::MAX as i128 + 1));
    assert!(!PType::I32.contains(i32::MIN as i128 - 1));
}

#[test]
fn text_column_reads_back() {
    let array = Utf8Array::try_new(
        vec!["a".to_string(), "".to_string(), "c".to_string()],
        Some(vec![true, false, true]),
    )
    .unwrap();
    assert_eq!(array.len(), 3);
    assert!(matches!(array.dtype(), DType::Utf8(true)));
    assert_eq!(array.get(0).map(|s| s.as_str()), Some("a"));
    assert_eq!(array.get(1), None);
    assert!(array.scalar_at(1).is_null());
    let sliced = array.slice(2, 3);
    assert_eq!(sliced.get(0).map(|s| s.as_str()), Some("c"));
    match array.logical_validity() {
        LogicalValidity::Mask(flags) => assert_eq!(flags, vec![true, false, true]),
        other => panic!("unexpected validity {:?}", other),
    }
}

#[test]
fn slice_bounds() {
    assert!(check_slice_bounds(3, 0, 3).is_ok());
    assert!(check_slice_bounds(3, 3, 3).is_ok());
    assert!(check_slice_bounds(0, 0, 0).is_ok());
    assert_eq!(
        check_slice_bounds(3, 2, 1).unwrap_err(),
        EncError::OutOfBounds { start: 2, stop: 1, len: 3 }
    );
    assert_eq!(
        check_slice_bounds(3, 0, 4).unwrap_err(),
        EncError::OutOfBounds { start: 0, stop: 4, len: 3 }
    );
}

#[test]
fn array_slice_of_slice_is_the_slice() {
    let array = Array::Primitive(
        PrimitiveArray::try_new(PType::I32, vec![5, -6, 7, -8, 9], None).unwrap(),
    );
    let once = array.slice(1, 4).unwrap();
    let twice = once.slice(0, 3).unwrap();
    let values = |a: &Array| -> Vec<Option<i128>> {
        (0..a.len()).map(|i| a.scalar_at(i).unwrap().as_i128()).collect()
    };
    assert_eq!(values(&once), vec![Some(-6), Some(7), Some(-8)]);
    assert_eq!(values(&once), values(&twice));
    let empty = array.slice(2, 2).unwrap();
    assert!(empty.is_empty());
    assert!(empty.slice(0, 0).unwrap().is_empty());
}

#[test]
fn canonical_array_stays_as_it_is() {
    let array =
        Array::Primitive(PrimitiveArray::try_new(PType::U32, vec![1, 2], None).unwrap());
    let batches = array.iter_arrow();
    assert_eq!(batches.len(), 1);
    assert_eq!(batches[0].len(), 2);
    match array.into_canonical().unwrap() {
        Canonical::Primitive(values) => assert_eq!(values.get(1), Some(2)),
        other => panic!("unexpected canonical form {:?}", other),
    }
    let text = Array::Utf8(Utf8Array::try_new(vec!["x".to_string()], None).unwrap());
    match text.into_canonical().unwrap().into_array() {
        Array::Utf8(values) => assert_eq!(values.get(0).map(|s| s.as_str()), Some("x")),
        other => panic!("unexpected array {:?}", other),
    }
}

#[test]
fn scalar_nullability_cast() {
    let s = Scalar::primitive(PType::U8, 5, false).unwrap();
    assert!(!s.nullability());
    let s = s.cast_nullability(true).unwrap();
    assert!(s.nullability());
    assert_eq!(s.as_i128(), Some(5));
    assert_eq!(s.ptype(), Some(PType::U8));
    let null = Scalar::null(PType::U8);
    assert!(null.is_null());
    assert_eq!(null.cast_nullability(false).unwrap_err(), EncError::UnexpectedNull);
    let text = Scalar::Utf8 { nullable: true, text: None };
    assert_eq!(text.cast_nullability(false).unwrap_err(), EncError::UnexpectedNull);
    let rows = Scalar::Struct { names: vec![], fields: vec![] };
    assert!(!rows.is_null());
    assert!(rows.cast_nullability(true).is_ok());
}

#[test]
fn dtype_nullability() {
    assert!(DType::Primitive(PType::U8, true).nullability());
    assert!(!DType::Utf8(false).nullability());
    assert!(!DType::Struct(vec![], vec![]).nullability());
    assert!(matches!(
        DType::Primitive(PType::U8, true).with_nullability(false),
        DType::Primitive(PType::U8, false)
    ));
    assert!(matches!(DType::Utf8(false).with_nullability(true), DType::Utf8(true)));
    let names = vec!["a".to_string(), "b".to_string()];
    assert_eq!(clone_names(&names), names);
}

#[test]
fn byte_footprints() {
    let column = PrimitiveArray::try_new(PType::I32, vec![1, 2, 3], None).unwrap();
    assert_eq!(column.nbytes(), 12);
    assert_eq!(PrimitiveArray::empty(PType::U64).nbytes(), 0);
    let texts = Utf8Array::try_new(vec!["ab".to_string(), "é".to_string()], None).unwrap();
    assert_eq!(texts.nbytes(), 4);
    assert_eq!(columnar::array::add_capped(usize::MAX, 1), usize::MAX);
    assert_eq!(columnar::array::add_capped(2, 3), 5);
    assert_eq!(columnar::array::mul_capped(usize::MAX, 2), usize::MAX);
    assert_eq!(columnar::array::mul_capped(4, 3), 12);
}

#[test]
fn scalar_carries_its_type() {
    let s = Scalar::primitive(PType::I16, -7, true).unwrap();
    assert!(matches!(s.dtype(), DType::Primitive(PType::I16, true)));
    let rows = Scalar::Struct {
        names: vec!["a".to_string()],
        fields: vec![Scalar::Utf8 { nullable: false, text: Some("x".to_string()) }],
    };
    match rows.dtype() {
        DType::Struct(names, fields) => {
            assert_eq!(names, vec!["a".to_string()]);
            assert!(matches!(fields[0], DType::Utf8(false)));
        }
        other => panic!("unexpected type {:?}", other),
    }
}
