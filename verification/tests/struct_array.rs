use columnar::array::primitive::PrimitiveArray;
use columnar::array::struct_::StructArray;
use columnar::array::utf8::Utf8Array;
use columnar::array::Array;
use columnar::dtype::{DType, PType};
use columnar::error::EncError;
use columnar::scalar::Scalar;

fn u64_column(values: &[u64]) -> Array {
    let values: Vec<i128> = values.iter().map(|v| *v as i128).collect();
    Array::Primitive(PrimitiveArray::try_new(PType::U64, values, None).unwrap())
}

fn text_column(values: &[&str]) -> Array {
    let values: Vec<String> = values.iter().map(|v| v.to_string()).collect();
    Array::Utf8(Utf8Array::try_new(values, None).unwrap())
}

fn names(names: &[&str]) -> Vec<String> {
    names.iter().map(|n| n.to_string()).collect()
}

#[test]
fn struct_len_is_common_field_length() {
    let array = StructArray::new(
        names(&["a", "b"]),
        vec![u64_column(&[1, 2, 3]), text_column(&["a", "b", "c"])],
    );
    assert_eq!(array.len(), 3);
    assert!(!array.is_empty());
}

#[test]
fn struct_without_fields_is_empty() {
    let array = StructArray::new(vec![], vec![]);
    assert_eq!(array.len(), 0);
    assert!(array.is_empty());
    assert!(array.iter_arrow().is_empty());
}

#[test]
fn mismatched_field_lengths_fail_the_check() {
    let fields = vec![u64_column(&[1, 2, 3]), text_column(&["a", "b"])];
    assert!(!StructArray::can_hold(&names(&["a", "b"]), &fields));
    let fields = vec![u64_column(&[1, 2, 3]), text_column(&["a", "b", "c"])];
    assert!(StructArray::can_hold(&names(&["a", "b"]), &fields));
    assert!(!StructArray::can_hold(&names(&["a"]), &fields));
}

#[test]
fn struct_scalar_is_tuple_of_field_scalars() {
    let fields = vec![u64_column(&[1, 2, 3]), text_column(&["a", "b", "c"])];
    let expected: Vec<Scalar> = fields.iter().map(|f| f.scalar_at(1).unwrap()).collect();
    let array = StructArray::new(names(&["a", "b"]), fields);
    match array.scalar_at(1).unwrap() {
        Scalar::Struct { names, fields } => {
            assert_eq!(names, vec!["a".to_string(), "b".to_string()]);
            assert_eq!(fields.len(), 2);
            assert_eq!(format!("{:?}", fields), format!("{:?}", expected));
            assert_eq!(fields[0].as_i128(), Some(2));
            match &fields[1] {
                Scalar::Utf8 { text, nullable } => {
                    assert_eq!(text.as_deref(), Some("b"));
                    assert!(!nullable);
                }
                other => panic!("unexpected scalar {:?}", other),
            }
        }
        other => panic!("unexpected scalar {:?}", other),
    }
}

#[test]
fn struct_dtype_lists_names_and_field_types() {
    let array = StructArray::new(
        names(&["a", "b"]),
        vec![u64_column(&[1, 2, 3]), text_column(&["a", "b", "c"])],
    );
    match array.dtype() {
        DType::Struct(names, fields) => {
            assert_eq!(names, vec!["a".to_string(), "b".to_string()]);
            assert!(matches!(fields[0], DType::Primitive(PType::U64, false)));
            assert!(matches!(fields[1], DType::Utf8(false)));
        }
        other => panic!("unexpected type {:?}", other),
    }
}

#[test]
fn struct_slice_checks_bounds_once() {
    let array = StructArray::new(
        names(&["a", "b"]),
        vec![u64_column(&[1, 2, 3]), text_column(&["a", "b", "c"])],
    );
    assert_eq!(
        array.slice(2, 1).unwrap_err(),
        EncError::OutOfBounds { start: 2, stop: 1, len: 3 }
    );
    assert_eq!(
        array.slice(0, 4).unwrap_err(),
        EncError::OutOfBounds { start: 0, stop: 4, len: 3 }
    );
    let sliced = array.slice(1, 3).unwrap();
    assert_eq!(sliced.len(), 2);
    match sliced.scalar_at(0).unwrap() {
        Scalar::Struct { fields, .. } => assert_eq!(fields[0].as_i128(), Some(2)),
        other => panic!("unexpected scalar {:?}", other),
    }
}

fn chunks_of(values: &[u64], size: usize) -> Vec<Array> {
    values.chunks(size).map(u64_column).collect()
}

fn batch_lengths(batches: &[Array]) -> Vec<usize> {
    batches.iter().map(|b| b.len()).collect()
}

fn column_values(array: &Array) -> Vec<i128> {
    (0..array.len()).map(|i| array.scalar_at(i).unwrap().as_i128().unwrap()).collect()
}

#[test]
fn aligned_batches_cut_at_every_chunk_end() {
    let a = chunks_of(&[1, 2, 3, 4, 5, 6], 2);
    let b = chunks_of(&[10, 20, 30, 40, 50, 60], 3);
    let batches = StructArray::align(&names(&["a", "b"]), vec![a, b]);
    assert_eq!(batch_lengths(&batches), vec![2, 1, 1, 2]);
    let mut rows_a = Vec::new();
    let mut rows_b = Vec::new();
    for batch in &batches {
        match batch {
            Array::Struct(rows) => {
                let fields = rows.fields();
                assert_eq!(fields.len(), 2);
                assert_eq!(fields[0].len(), batch.len());
                assert_eq!(fields[1].len(), batch.len());
                rows_a.extend(column_values(&fields[0]));
                rows_b.extend(column_values(&fields[1]));
            }
            other => panic!("unexpected batch {:?}", other),
        }
    }
    assert_eq!(rows_a, vec![1, 2, 3, 4, 5, 6]);
    assert_eq!(rows_b, vec![10, 20, 30, 40, 50, 60]);
}

#[test]
fn aligned_batches_of_equal_chunks_keep_them() {
    let a = chunks_of(&[1, 2, 3, 4], 2);
    let b = chunks_of(&[5, 6, 7, 8], 2);
    let batches = StructArray::align(&names(&["a", "b"]), vec![a, b]);
    assert_eq!(batch_lengths(&batches), vec![2, 2]);
}

#[test]
fn aligned_batches_skip_empty_chunks() {
    let a = vec![u64_column(&[]), u64_column(&[1, 2, 3]), u64_column(&[])];
    let b = vec![u64_column(&[4]), u64_column(&[]), u64_column(&[5, 6])];
    let batches = StructArray::align(&names(&["a", "b"]), vec![a, b]);
    assert_eq!(batch_lengths(&batches), vec![1, 2]);
}

#[test]
fn aligned_iterator_hands_out_one_slice_per_column() {
    let a = chunks_of(&[1, 2, 3, 4, 5, 6], 2);
    let b = chunks_of(&[10, 20, 30, 40, 50, 60], 3);
    let mut it = columnar::aligned::AlignedIterator::new(vec![a, b]);
    let first = it.next().unwrap();
    assert_eq!(first.len(), 2);
    assert_eq!(column_values(&first[0]), vec![1, 2]);
    assert_eq!(column_values(&first[1]), vec![10, 20]);
    let second = it.next().unwrap();
    assert_eq!(column_values(&second[0]), vec![3]);
    assert_eq!(column_values(&second[1]), vec![30]);
    let third = it.next().unwrap();
    assert_eq!(column_values(&third[0]), vec![4]);
    assert_eq!(column_values(&third[1]), vec![40]);
    let fourth = it.next().unwrap();
    assert_eq!(column_values(&fourth[0]), vec![5, 6]);
    assert_eq!(column_values(&fourth[1]), vec![50, 60]);
    assert!(it.next().is_none());
    assert!(it.next().is_none());
}

#[test]
fn aligned_iterator_without_columns_is_exhausted() {
    let mut it = columnar::aligned::AlignedIterator::new(vec![]);
    assert!(it.next().is_none());
}

#[test]
fn struct_iter_arrow_yields_one_batch_of_canonical_columns() {
    let bitmap = columnar::array::roaring::RoaringIntArray::from_values(&vec![3, 5, 9], PType::U32)
        .unwrap();
    let array = StructArray::new(
        names(&["a", "b"]),
        vec![u64_column(&[1, 2, 3]), Array::RoaringInt(bitmap)],
    );
    let batches = array.iter_arrow();
    assert_eq!(batch_lengths(&batches), vec![3]);
    match &batches[0] {
        Array::Struct(rows) => {
            assert!(matches!(rows.fields()[0], Array::Primitive(_)));
            assert!(matches!(rows.fields()[1], Array::Primitive(_)));
            assert_eq!(column_values(&rows.fields()[1]), vec![3, 5, 9]);
        }
        other => panic!("unexpected batch {:?}", other),
    }
}

#[test]
fn nested_struct_canonicalizes_its_columns() {
    let bitmap = columnar::array::roaring::RoaringIntArray::from_values(&vec![3, 5, 9], PType::U32)
        .unwrap();
    let inner = StructArray::new(names(&["x"]), vec![Array::RoaringInt(bitmap)]);
    let outer = Array::Struct(StructArray::new(
        names(&["inner", "n"]),
        vec![Array::Struct(inner), u64_column(&[7, 8, 9])],
    ));
    match outer.into_canonical().unwrap() {
        columnar::array::Canonical::Struct(rows) => match &rows.fields()[0] {
            Array::Struct(inner) => {
                assert!(matches!(inner.fields()[0], Array::Primitive(_)));
                assert_eq!(column_values(&inner.fields()[0]), vec![3, 5, 9]);
            }
            other => panic!("unexpected column {:?}", other),
        },
        other => panic!("unexpected canonical form {:?}", other),
    }
}

#[test]
fn struct_is_valid_everywhere() {
    let nullable = PrimitiveArray::try_new(PType::U8, vec![1, 2], Some(vec![false, true])).unwrap();
    let array = Array::Struct(StructArray::new(names(&["a"]), vec![Array::Primitive(nullable)]));
    assert!(array.is_valid(0));
    assert!(array.is_valid(1));
    match array.logical_validity() {
        columnar::validity::LogicalValidity::AllValid(n) => assert_eq!(n, 2),
        other => panic!("unexpected validity {:?}", other),
    }
    match array.scalar_at(0).unwrap() {
        Scalar::Struct { fields, .. } => assert!(fields[0].is_null()),
        other => panic!("unexpected scalar {:?}", other),
    }
}

#[test]
fn struct_footprint_is_the_sum_of_its_columns() {
    let array = Array::Struct(StructArray::new(
        names(&["a", "b"]),
        vec![u64_column(&[1, 2, 3]), text_column(&["a", "b", "c"])],
    ));
    assert_eq!(array.nbytes(), 24 + 3);
    assert_eq!(Array::Struct(StructArray::new(vec![], vec![])).nbytes(), 0);
}

fn bitmap_column(values: &[u32]) -> Array {
    Array::RoaringInt(
        columnar::array::roaring::RoaringIntArray::from_values(&values.to_vec(), PType::U32)
            .unwrap(),
    )
}

#[test]
fn struct_of_differently_chunked_columns_yields_aligned_batches() {
    let a = bitmap_column(&[1, 2, 0x1_0001, 0x1_0002, 0x2_0001, 0x2_0002]);
    let b = bitmap_column(&[1, 2, 3, 0x1_0001, 0x1_0002, 0x1_0003]);
    assert_eq!(batch_lengths(&a.iter_arrow()), vec![2, 2, 2]);
    assert_eq!(batch_lengths(&b.iter_arrow()), vec![3, 3]);
    let array = StructArray::new(names(&["a", "b"]), vec![a, b]);
    let batches = array.iter_arrow();
    assert_eq!(batch_lengths(&batches), vec![2, 1, 1, 2]);
    let mut rows_a = Vec::new();
    let mut rows_b = Vec::new();
    for batch in &batches {
        match batch {
            Array::Struct(rows) => {
                assert_eq!(rows.fields()[0].len(), batch.len());
                assert_eq!(rows.fields()[1].len(), batch.len());
                rows_a.extend(column_values(&rows.fields()[0]));
                rows_b.extend(column_values(&rows.fields()[1]));
            }
            other => panic!("unexpected batch {:?}", other),
        }
    }
    assert_eq!(rows_a, vec![1, 2, 0x1_0001, 0x1_0002, 0x2_0001, 0x2_0002]);
    assert_eq!(rows_b, vec![1, 2, 3, 0x1_0001, 0x1_0002, 0x1_0003]);
}

#[test]
fn struct_of_a_chunked_and_a_whole_column() {
    let a = bitmap_column(&[5, 0x1_0000, 0x1_0001, 0x3_0000]);
    let b = u64_column(&[1, 2, 3, 4]);
    let array = StructArray::new(names(&["a", "b"]), vec![a, b]);
    assert_eq!(batch_lengths(&array.iter_arrow()), vec![1, 2, 1]);
}
