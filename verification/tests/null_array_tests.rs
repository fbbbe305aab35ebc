use lookup_index::null_array::{
    ArrayError, DataType, MutableNullArray, NullArray, PhysicalType,
};

#[test]
fn try_new_accepts_only_null_physical_type() {
    let a = NullArray::try_new(DataType::Null, 3).unwrap();
    assert_eq!(a.len(), 3);
    assert_eq!(NullArray::try_new(DataType::Boolean, 3), Err(ArrayError::OutOfSpec));
    assert_eq!(NullArray::try_new(DataType::Int64, 0), Err(ArrayError::OutOfSpec));
    assert_eq!(NullArray::try_new(DataType::Utf8, 1), Err(ArrayError::OutOfSpec));
}

#[test]
fn physical_types() {
    assert_eq!(DataType::Null.to_physical_type(), PhysicalType::Null);
    assert_eq!(DataType::Boolean.to_physical_type(), PhysicalType::Boolean);
    assert_eq!(DataType::Int64.to_physical_type(), PhysicalType::Primitive);
    assert_eq!(DataType::Utf8.to_physical_type(), PhysicalType::Utf8);
}

#[test]
fn constructors_and_len() {
    assert_eq!(NullArray::new(DataType::Null, 5).len(), 5);
    assert_eq!(NullArray::new_empty(DataType::Null).len(), 0);
    assert_eq!(NullArray::new_null(DataType::Null, 9).len(), 9);
}

#[test]
fn slice_shrinks_length() {
    let mut a = NullArray::new(DataType::Null, 10);
    a.slice(2, 5);
    assert_eq!(a.len(), 5);
    a.slice(0, 0);
    assert_eq!(a.len(), 0);
}

#[test]
fn mutable_null_array_grows_and_freezes() {
    let mut m = MutableNullArray::new(DataType::Null, 2);
    assert_eq!(m.len(), 2);
    assert_eq!(m.data_type(), DataType::Null);
    m.push_null();
    m.push_null();
    assert_eq!(m.len(), 4);
    m.reserve(100);
    m.shrink_to_fit();
    assert_eq!(m.len(), 4);
    let frozen: NullArray = m.into();
    assert_eq!(frozen.len(), 4);
}

#[test]
fn from_interchange_data() {
    let data = arrow_data::ArrayData::new_null(&arrow_schema::DataType::Null, 7);
    let a = NullArray::from_data(&data);
    assert_eq!(a.len(), 7);
    assert_eq!(a.data_type, DataType::Null);
    let empty = arrow_data::ArrayData::new_empty(&arrow_schema::DataType::Null);
    assert_eq!(NullArray::from_data(&empty).len(), 0);
}
