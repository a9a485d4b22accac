use union_array_builder::BufferBuilder;
use union_array_builder::ChildArray;
use union_array_builder::DataType;
use union_array_builder::NullBufferBuilder;
use union_array_builder::UnionArray;
use union_array_builder::UnionBuilder;
use union_array_builder::UnionError;

#[test]
fn dense_scenario() {
    let mut b = UnionBuilder::new_dense();
    b.append("a", DataType::Int32, &1i32.to_le_bytes()).unwrap();
    b.append("b", DataType::Float64, &3.0f64.to_le_bytes()).unwrap();
    b.append("a", DataType::Int32, &4i32.to_le_bytes()).unwrap();
    let u = b.build().unwrap();

    assert_eq!(u.len(), 3);
    assert_eq!(u.num_children(), 2);

    assert_eq!(u.type_id(0), 0i8);
    assert_eq!(u.type_id(1), 1i8);
    assert_eq!(u.type_id(2), 0i8);

    assert_eq!(u.value_offset(0), 0i32);
    assert_eq!(u.value_offset(1), 0i32);
    assert_eq!(u.value_offset(2), 1i32);
}

#[test]
fn dense_round_trip_values() {
    let mut b = UnionBuilder::new_dense();
    b.append("a", DataType::Int32, &1i32.to_le_bytes()).unwrap();
    b.append("b", DataType::Float64, &3.0f64.to_le_bytes()).unwrap();
    b.append("a", DataType::Int32, &4i32.to_le_bytes()).unwrap();
    let u = b.build().unwrap();

    // row 0: field "a", slot 0
    let t0 = u.type_id(0) as usize;
    let s0 = u.value_offset(0) as usize;
    assert_eq!(u.children[t0].name, "a".to_string());
    assert!(u.children[t0].is_valid(s0));
    assert_eq!(u.children[t0].value_bytes(s0), 1i32.to_le_bytes().to_vec());

    // row 1: field "b", slot 0
    let t1 = u.type_id(1) as usize;
    let s1 = u.value_offset(1) as usize;
    assert_eq!(u.children[t1].name, "b".to_string());
    assert_eq!(u.children[t1].data_type, DataType::Float64);
    assert_eq!(u.children[t1].value_bytes(s1), 3.0f64.to_le_bytes().to_vec());

    // row 2: field "a", slot 1
    let t2 = u.type_id(2) as usize;
    let s2 = u.value_offset(2) as usize;
    assert_eq!(u.children[t2].value_bytes(s2), 4i32.to_le_bytes().to_vec());

    // dense children are compacted: two slots for "a", one for "b"
    assert_eq!(u.children[0].len, 2);
    assert_eq!(u.children[1].len, 1);
}

#[test]
fn sparse_scenario() {
    let mut b = UnionBuilder::new_sparse();
    b.append("a", DataType::Int32, &1i32.to_le_bytes()).unwrap();
    b.append("b", DataType::Float64, &3.0f64.to_le_bytes()).unwrap();
    b.append("a", DataType::Int32, &4i32.to_le_bytes()).unwrap();
    let u = b.build().unwrap();

    assert_eq!(u.len(), 3);
    assert_eq!(u.num_children(), 2);

    assert_eq!(u.type_id(0), 0i8);
    assert_eq!(u.type_id(1), 1i8);
    assert_eq!(u.type_id(2), 0i8);

    // sparse: the physical offset is the row index itself
    assert_eq!(u.value_offset(0), 0i32);
    assert_eq!(u.value_offset(1), 1i32);
    assert_eq!(u.value_offset(2), 2i32);

    // every child is padded to the full row count
    assert_eq!(u.children[0].len, 3);
    assert_eq!(u.children[1].len, 3);

    // values sit at their row index; padded slots are invalid
    assert!(u.children[0].is_valid(0));
    assert!(!u.children[0].is_valid(1));
    assert!(u.children[0].is_valid(2));
    assert!(!u.children[1].is_valid(0));
    assert!(u.children[1].is_valid(1));
    assert!(!u.children[1].is_valid(2));

    assert_eq!(u.children[0].value_bytes(0), 1i32.to_le_bytes().to_vec());
    assert_eq!(u.children[1].value_bytes(1), 3.0f64.to_le_bytes().to_vec());
    assert_eq!(u.children[0].value_bytes(2), 4i32.to_le_bytes().to_vec());
}

#[test]
fn null_round_trip_dense() {
    let mut b = UnionBuilder::new_dense();
    b.append("a", DataType::Int32, &7i32.to_le_bytes()).unwrap();
    b.append_null("a", DataType::Int32).unwrap();
    let u = b.build().unwrap();

    assert_eq!(u.len(), 2);
    let t = u.type_id(1) as usize;
    let s = u.value_offset(1) as usize;
    assert!(!u.children[t].is_valid(s));
    assert!(u.children[u.type_id(0) as usize].is_valid(u.value_offset(0) as usize));
}

#[test]
fn null_round_trip_sparse() {
    let mut b = UnionBuilder::new_sparse();
    b.append_null("a", DataType::UInt16).unwrap();
    b.append("a", DataType::UInt16, &9u16.to_le_bytes()).unwrap();
    let u = b.build().unwrap();

    assert!(!u.children[0].is_valid(0));
    assert!(u.children[0].is_valid(1));
    assert_eq!(u.children[0].value_bytes(1), 9u16.to_le_bytes().to_vec());
}

#[test]
fn type_conflict_is_rejected_and_harmless() {
    let mut b = UnionBuilder::new_dense();
    b.append("a", DataType::Int32, &1i32.to_le_bytes()).unwrap();

    let e = b.append("a", DataType::Float64, &2.0f64.to_le_bytes()).unwrap_err();
    match e {
        UnionError::TypeConflict { field, existing, requested } => {
            assert_eq!(field, "a".to_string());
            assert_eq!(existing, DataType::Int32);
            assert_eq!(requested, DataType::Float64);
        },
        _ => panic!("expected a type conflict"),
    }

    // the rejected call mutated nothing: the builder goes on as before
    b.append("a", DataType::Int32, &4i32.to_le_bytes()).unwrap();
    let u = b.build().unwrap();
    assert_eq!(u.len(), 2);
    assert_eq!(u.num_children(), 1);
    assert_eq!(u.type_id(0), 0i8);
    assert_eq!(u.type_id(1), 0i8);
    assert_eq!(u.value_offset(0), 0i32);
    assert_eq!(u.value_offset(1), 1i32);
    assert_eq!(u.children[0].value_bytes(1), 4i32.to_le_bytes().to_vec());
}

#[test]
fn empty_build_dense() {
    let b = UnionBuilder::new_dense();
    let u = b.build().unwrap();
    assert_eq!(u.len(), 0);
    assert_eq!(u.num_children(), 0);
}

#[test]
fn empty_build_sparse() {
    let b = UnionBuilder::with_capacity_sparse(16);
    let u = b.build().unwrap();
    assert_eq!(u.len(), 0);
    assert_eq!(u.num_children(), 0);
}

#[test]
fn append_option_matches_append_and_append_null() {
    let mut b = UnionBuilder::with_capacity_dense(4);
    b.append_option("a", DataType::Int64, Some(&5i64.to_le_bytes())).unwrap();
    b.append_option("a", DataType::Int64, None).unwrap();
    let u = b.build().unwrap();
    assert!(u.children[0].is_valid(0));
    assert!(!u.children[0].is_valid(1));
    assert_eq!(u.children[0].value_bytes(0), 5i64.to_le_bytes().to_vec());
}

#[test]
fn tags_follow_first_reference_order() {
    let mut b = UnionBuilder::new_sparse();
    b.append("c", DataType::Int8, &1i8.to_le_bytes()).unwrap();
    b.append("a", DataType::Int8, &2i8.to_le_bytes()).unwrap();
    b.append("b", DataType::Int8, &3i8.to_le_bytes()).unwrap();
    b.append("a", DataType::Int8, &4i8.to_le_bytes()).unwrap();
    let u = b.build().unwrap();

    // tags were assigned in first-reference order, and children stand in
    // tag order
    assert_eq!(u.children[0].name, "c".to_string());
    assert_eq!(u.children[1].name, "a".to_string());
    assert_eq!(u.children[2].name, "b".to_string());
    assert_eq!(u.type_id(0), 0i8);
    assert_eq!(u.type_id(1), 1i8);
    assert_eq!(u.type_id(2), 2i8);
    assert_eq!(u.type_id(3), 1i8);
}

#[test]
fn dense_offsets_count_per_field() {
    let mut b = UnionBuilder::new_dense();
    b.append("a", DataType::UInt8, &[1u8]).unwrap();
    b.append("a", DataType::UInt8, &[2u8]).unwrap();
    b.append("b", DataType::UInt8, &[3u8]).unwrap();
    b.append("a", DataType::UInt8, &[4u8]).unwrap();
    b.append("b", DataType::UInt8, &[5u8]).unwrap();
    let u = b.build().unwrap();
    assert_eq!(u.value_offset(0), 0i32);
    assert_eq!(u.value_offset(1), 1i32);
    assert_eq!(u.value_offset(2), 0i32);
    assert_eq!(u.value_offset(3), 2i32);
    assert_eq!(u.value_offset(4), 1i32);
}

#[test]
fn widths_of_data_types() {
    assert_eq!(DataType::Int8.width(), 1);
    assert_eq!(DataType::Int16.width(), 2);
    assert_eq!(DataType::Int32.width(), 4);
    assert_eq!(DataType::Int64.width(), 8);
    assert_eq!(DataType::UInt8.width(), 1);
    assert_eq!(DataType::UInt16.width(), 2);
    assert_eq!(DataType::UInt32.width(), 4);
    assert_eq!(DataType::UInt64.width(), 8);
    assert_eq!(DataType::Float32.width(), 4);
    assert_eq!(DataType::Float64.width(), 8);
}

#[test]
fn buffer_builder_accumulates_bytes() {
    let mut bb = BufferBuilder::new(2);
    bb.append(&7u16.to_le_bytes());
    bb.append_null();
    bb.append(&9u16.to_le_bytes());
    let out = bb.finish();
    let mut expected = 7u16.to_le_bytes().to_vec();
    expected.extend_from_slice(&[0u8, 0u8]);
    expected.extend_from_slice(&9u16.to_le_bytes());
    assert_eq!(out, expected);
}

#[test]
fn null_bitmap_sentinel_when_all_valid() {
    let mut nb = NullBufferBuilder::new();
    nb.append(true);
    nb.append(true);
    assert!(nb.finish().is_none());

    let mut nb2 = NullBufferBuilder::new();
    nb2.append(true);
    nb2.append(false);
    assert_eq!(nb2.finish(), Some(vec![true, false]));
}

#[test]
fn try_new_rejects_bad_type_id() {
    let r = UnionArray::try_new(vec![0i8], None, Vec::new());
    assert!(matches!(r, Err(UnionError::InvalidTypeId { row: 0 })));
}

#[test]
fn try_new_rejects_offset_out_of_bounds() {
    let child = ChildArray {
        name: "a".to_string(),
        data_type: DataType::UInt8,
        len: 1,
        values: vec![5u8],
        nulls: None,
    };
    let r = UnionArray::try_new(vec![0i8], Some(vec![1i32]), vec![child]);
    assert!(matches!(r, Err(UnionError::InvalidOffset { row: 0 })));
}

#[test]
fn try_new_rejects_offset_length_mismatch() {
    let child = ChildArray {
        name: "a".to_string(),
        data_type: DataType::UInt8,
        len: 1,
        values: vec![5u8],
        nulls: None,
    };
    let r = UnionArray::try_new(vec![0i8], Some(Vec::new()), vec![child]);
    assert!(matches!(r, Err(UnionError::OffsetLengthMismatch)));
}

#[test]
fn try_new_rejects_sparse_child_length_mismatch() {
    let child = ChildArray {
        name: "a".to_string(),
        data_type: DataType::UInt8,
        len: 2,
        values: vec![5u8, 6u8],
        nulls: None,
    };
    let r = UnionArray::try_new(vec![0i8], None, vec![child]);
    assert!(matches!(r, Err(UnionError::ChildLengthMismatch { child: 0 })));
}

#[test]
fn try_new_accepts_valid_parts() {
    let child = ChildArray {
        name: "a".to_string(),
        data_type: DataType::UInt8,
        len: 1,
        values: vec![5u8],
        nulls: None,
    };
    let u = UnionArray::try_new(vec![0i8], None, vec![child]).unwrap();
    assert_eq!(u.len(), 1);
    assert_eq!(u.value_offset(0), 0i32);
    assert_eq!(u.children[0].value_bytes(0), vec![5u8]);
}
