use std::sync::Arc;

use arrow::array::types::UInt64Type;
use arrow::array::PrimitiveArray as ArrowPrimitiveArray;
use arrow::array::StructArray as ArrowStructArray;
use arrow::array::{Array as ArrowArray, ArrayRef, GenericStringArray as ArrowStringArray};
use arrow::datatypes::{DataType, Field, Fields};

use columnar::array::primitive::PrimitiveArray;
use columnar::array::struct_::StructArray;
use columnar::array::utf8::Utf8Array;
use columnar::array::Array;
use columnar::dtype::{DType, PType};

fn from_arrow_u64(array: &ArrowPrimitiveArray<UInt64Type>) -> Array {
    let values: Vec<i128> = array.values().iter().map(|v| *v as i128).collect();
    Array::Primitive(PrimitiveArray::try_new(PType::U64, values, None).unwrap())
}

fn from_arrow_utf8(array: &ArrowStringArray<i32>) -> Array {
    let values: Vec<String> = (0..array.len()).map(|i| array.value(i).to_string()).collect();
    Array::Utf8(Utf8Array::try_new(values, None).unwrap())
}

fn arrow_type(dtype: &DType) -> (DataType, bool) {
    match dtype {
        DType::Primitive(PType::U64, nullable) => (DataType::UInt64, *nullable),
        DType::Utf8(nullable) => (DataType::Utf8, *nullable),
        DType::Struct(names, fields) => (DataType::Struct(arrow_fields(names, fields)), false),
        other => panic!("no arrow type chosen for {:?}", other),
    }
}

fn arrow_fields(names: &[String], fields: &[DType]) -> Fields {
    let fields: Vec<Field> = names
        .iter()
        .zip(fields.iter())
        .map(|(name, dtype)| {
            let (data_type, nullable) = arrow_type(dtype);
            Field::new(name.as_str(), data_type, nullable)
        })
        .collect();
    Fields::from(fields)
}

fn to_arrow(array: &Array) -> ArrayRef {
    match array {
        Array::Primitive(a) => {
            let values: Vec<u64> = (0..a.len()).map(|i| a.get(i).unwrap() as u64).collect();
            Arc::new(ArrowPrimitiveArray::<UInt64Type>::from(values))
        }
        Array::Utf8(a) => {
            let values: Vec<&str> = (0..a.len()).map(|i| a.get(i).unwrap().as_str()).collect();
            Arc::new(ArrowStringArray::<i32>::from(values))
        }
        Array::Struct(a) => {
            let fields = match a.dtype() {
                DType::Struct(names, fields) => arrow_fields(&names, &fields),
                other => panic!("unexpected type {:?}", other),
            };
            let columns: Vec<ArrayRef> = a.fields().iter().map(to_arrow).collect();
            Arc::new(ArrowStructArray::new(fields, columns, None))
        }
        other => panic!("not canonical: {:?}", other),
    }
}

#[test]
pub fn iter() {
    let arrow_aas = ArrowPrimitiveArray::<UInt64Type>::from(vec![1, 2, 3]);
    let arrow_bbs = ArrowStringArray::<i32>::from(vec!["a", "b", "c"]);

    let array = StructArray::new(
        vec!["a".into(), "b".into()],
        vec![from_arrow_u64(&arrow_aas), from_arrow_utf8(&arrow_bbs)],
    );
    let fields = match array.dtype() {
        DType::Struct(names, fields) => arrow_fields(&names, &fields),
        other => panic!("unexpected type {:?}", other),
    };
    let arrow_struct =
        ArrowStructArray::new(fields, vec![Arc::new(arrow_aas), Arc::new(arrow_bbs)], None);

    let first = to_arrow(&array.iter_arrow().into_iter().next().unwrap());
    assert_eq!(
        first.as_any().downcast_ref::<ArrowStructArray>().unwrap(),
        &arrow_struct
    );
}
