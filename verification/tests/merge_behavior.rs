use ncmerge::errors::MergeError;
use ncmerge::merge::merge_containers;
use ncmerge::model::Attr;
use ncmerge::model::Chunking;
use ncmerge::model::Compression;
use ncmerge::model::Container;
use ncmerge::model::ElemType;
use ncmerge::model::Format;

fn text_attr(name: &str, value: &str) -> Attr {
    Attr {
        name: name.to_string(),
        ty: ElemType::Char,
        nelems: value.len(),
        bytes: value.as_bytes().to_vec(),
    }
}

fn f32_bytes(values: &[f32]) -> Vec<u8> {
    let mut out = Vec::new();
    for v in values {
        out.extend_from_slice(&v.to_le_bytes());
    }
    out
}

fn i32_bytes(values: &[i32]) -> Vec<u8> {
    let mut out = Vec::new();
    for v in values {
        out.extend_from_slice(&v.to_le_bytes());
    }
    out
}

/// Part A carries a dimension and a variable with data; part B only a global
/// attribute. The merge holds all of it.
#[test]
fn merge_data_part_with_attr_only_part() {
    let mut a = Container::new(Format::Enhanced);
    let t = a.define_dim("time".to_string(), 3, false).unwrap();
    let temp = a
        .define_var("temp".to_string(), ElemType::Float, vec![t])
        .unwrap();
    a.enddef();
    a.put_var_data(temp, f32_bytes(&[1.0, 2.0, 3.0]));

    let mut b = Container::new(Format::Enhanced);
    b.put_attr_global(text_attr("source", "sensor-2"));
    b.enddef();

    let out = merge_containers(&a, &b).unwrap();
    let m = out.container;
    assert!(!out.format_mismatch);
    assert_eq!(m.dims.len(), 1);
    assert_eq!(m.dims[0].name, "time");
    assert_eq!(m.dims[0].len, 3);
    assert!(!m.dims[0].unlimited);
    assert_eq!(m.vars.len(), 1);
    assert_eq!(m.vars[0].name, "temp");
    assert_eq!(m.vars[0].ty, ElemType::Float);
    assert_eq!(m.vars[0].dim_refs, vec![0]);
    assert_eq!(m.vars[0].data, f32_bytes(&[1.0, 2.0, 3.0]));
    assert_eq!(m.gattrs.len(), 1);
    assert_eq!(m.gattrs[0].name, "source");
    assert_eq!(m.gattrs[0].bytes, b"sensor-2".to_vec());
}

/// Both parts define the same dimension and variable; the merged container
/// keeps one of each, B's attribute value and B's payload.
#[test]
fn merge_shared_variable_b_wins_values() {
    let mut a = Container::new(Format::Enhanced);
    let x = a.define_dim("x".to_string(), 5, false).unwrap();
    let v = a
        .define_var("v".to_string(), ElemType::Int, vec![x])
        .unwrap();
    a.put_attr_var(v, text_attr("units", "m"));
    a.enddef();
    a.put_var_data(v, i32_bytes(&[1, 2, 3, 4, 5]));

    let mut b = Container::new(Format::Enhanced);
    let xb = b.define_dim("x".to_string(), 5, false).unwrap();
    let vb = b
        .define_var("v".to_string(), ElemType::Int, vec![xb])
        .unwrap();
    b.put_attr_var(vb, text_attr("units", "cm"));
    b.enddef();
    b.put_var_data(vb, i32_bytes(&[6, 7, 8, 9, 10]));

    let m = merge_containers(&a, &b).unwrap().container;
    assert_eq!(m.dims.len(), 1);
    assert_eq!(m.dims[0].name, "x");
    assert_eq!(m.dims[0].len, 5);
    assert_eq!(m.vars.len(), 1);
    assert_eq!(m.vars[0].name, "v");
    assert_eq!(m.vars[0].attrs.len(), 1);
    assert_eq!(m.vars[0].attrs[0].name, "units");
    assert_eq!(m.vars[0].attrs[0].bytes, b"cm".to_vec());
    assert_eq!(m.vars[0].data, i32_bytes(&[6, 7, 8, 9, 10]));
}

fn sample_container() -> Container {
    let mut c = Container::new(Format::Classic);
    let d0 = c.define_dim("lat".to_string(), 2, false).unwrap();
    let d1 = c.define_dim("lon".to_string(), 4, false).unwrap();
    let v = c
        .define_var("height".to_string(), ElemType::Short, vec![d0, d1])
        .unwrap();
    c.put_attr_var(v, text_attr("units", "m"));
    c.put_attr_global(text_attr("title", "sample"));
    c.enddef();
    c.put_var_data(v, vec![0u8; 16]);
    c
}

/// Merging a container with a byte-identical copy of itself reproduces its
/// dimensions, variables, attributes and payloads.
#[test]
fn merge_with_itself_changes_nothing() {
    let a = sample_container();
    let b = sample_container();
    let m = merge_containers(&a, &b).unwrap().container;
    assert_eq!(m.dims.len(), 2);
    assert_eq!(m.dims[0].name, "lat");
    assert_eq!(m.dims[0].len, 2);
    assert_eq!(m.dims[1].name, "lon");
    assert_eq!(m.dims[1].len, 4);
    assert_eq!(m.vars.len(), 1);
    assert_eq!(m.vars[0].name, "height");
    assert_eq!(m.vars[0].dim_refs, vec![0, 1]);
    assert_eq!(m.vars[0].attrs.len(), 1);
    assert_eq!(m.vars[0].attrs[0].bytes, b"m".to_vec());
    assert_eq!(m.vars[0].data, vec![0u8; 16]);
    assert_eq!(m.gattrs.len(), 1);
    assert_eq!(m.gattrs[0].name, "title");
    assert_eq!(m.gattrs[0].bytes, b"sample".to_vec());
}

/// Disjoint inputs lose nothing: the merged container holds the dimensions
/// and variables of both.
#[test]
fn merge_disjoint_inputs_keeps_everything() {
    let mut a = Container::new(Format::Cdf5);
    let da = a.define_dim("x".to_string(), 3, false).unwrap();
    a.define_var("u".to_string(), ElemType::Double, vec![da])
        .unwrap();
    a.enddef();

    let mut b = Container::new(Format::Cdf5);
    let db = b.define_dim("y".to_string(), 7, false).unwrap();
    b.define_var("w".to_string(), ElemType::Byte, vec![db])
        .unwrap();
    b.enddef();

    let m = merge_containers(&a, &b).unwrap().container;
    assert_eq!(m.dims.len(), 2);
    assert_eq!(m.vars.len(), 2);
    assert_eq!(m.dims[0].name, "x");
    assert_eq!(m.dims[1].name, "y");
    assert_eq!(m.vars[0].name, "u");
    assert_eq!(m.vars[1].name, "w");
    // B's variable references B's dimension, re-resolved in the destination.
    assert_eq!(m.vars[1].dim_refs, vec![1]);
}

/// A dimension name shared by both inputs appears exactly once.
#[test]
fn merge_shared_dimension_dedups() {
    let mut a = Container::new(Format::Classic);
    a.define_dim("x".to_string(), 5, false).unwrap();
    a.enddef();
    let mut b = Container::new(Format::Classic);
    b.define_dim("x".to_string(), 5, false).unwrap();
    b.define_dim("y".to_string(), 2, false).unwrap();
    b.enddef();

    let m = merge_containers(&a, &b).unwrap().container;
    assert_eq!(m.dims.len(), 2);
    let named_x: Vec<_> = m.dims.iter().filter(|d| d.name == "x").collect();
    assert_eq!(named_x.len(), 1);
    assert_eq!(named_x[0].len, 5);
}

/// For a shared variable, attribute values merge with B winning on
/// collisions, while chunking and compression stay A's.
#[test]
fn merge_shared_variable_attrs_union_layout_first_writer() {
    let mut a = Container::new(Format::Enhanced);
    let xa = a.define_dim("x".to_string(), 2, false).unwrap();
    let va = a
        .define_var("v".to_string(), ElemType::UInt, vec![xa])
        .unwrap();
    a.put_attr_var(va, text_attr("units", "m"));
    a.put_attr_var(va, text_attr("long_name", "speed"));
    a.set_chunking(va, Chunking { contiguous: false, shape: vec![2] });
    a.set_compression(va, Compression { shuffle: true, deflate: true, level: 4 });
    a.enddef();
    a.put_var_data(va, vec![1u8; 8]);

    let mut b = Container::new(Format::Enhanced);
    let xb = b.define_dim("x".to_string(), 2, false).unwrap();
    let vb = b
        .define_var("v".to_string(), ElemType::UInt, vec![xb])
        .unwrap();
    b.put_attr_var(vb, text_attr("units", "cm"));
    b.put_attr_var(vb, text_attr("comment", "from b"));
    b.set_chunking(vb, Chunking { contiguous: true, shape: vec![1] });
    b.set_compression(vb, Compression { shuffle: false, deflate: false, level: 0 });
    b.enddef();
    b.put_var_data(vb, vec![2u8; 8]);

    let m = merge_containers(&a, &b).unwrap().container;
    assert_eq!(m.vars.len(), 1);
    let v = &m.vars[0];
    // Union of attribute names, with B's value winning on the collision.
    assert_eq!(v.attrs.len(), 3);
    let units = v.attrs.iter().find(|at| at.name == "units").unwrap();
    assert_eq!(units.bytes, b"cm".to_vec());
    assert!(v.attrs.iter().any(|at| at.name == "long_name"));
    assert!(v.attrs.iter().any(|at| at.name == "comment"));
    // First writer's layout wins.
    let ch = v.chunking.as_ref().unwrap();
    assert!(!ch.contiguous);
    assert_eq!(ch.shape, vec![2]);
    let cp = v.compression.unwrap();
    assert!(cp.shuffle && cp.deflate);
    assert_eq!(cp.level, 4);
    // Last writer's payload wins.
    assert_eq!(v.data, vec![2u8; 8]);
}

/// Two different unlimited dimension names cannot be merged: the engine
/// reports a definition conflict and no container.
#[test]
fn merge_two_unlimited_dimensions_conflicts() {
    let mut a = Container::new(Format::Enhanced);
    a.define_dim("t".to_string(), 2, true).unwrap();
    a.enddef();
    let mut b = Container::new(Format::Enhanced);
    b.define_dim("u".to_string(), 3, true).unwrap();
    b.enddef();
    let r = merge_containers(&a, &b);
    assert_eq!(r.err(), Some(MergeError::DefinitionConflict));
}

/// Differing storage formats are reported but do not block the merge, and
/// A's format wins.
#[test]
fn merge_format_mismatch_is_soft() {
    let mut a = Container::new(Format::Classic);
    a.enddef();
    let mut b = Container::new(Format::Cdf5);
    b.enddef();
    let out = merge_containers(&a, &b).unwrap();
    assert!(out.format_mismatch);
    assert_eq!(out.container.format, Format::Classic);
}

/// An unlimited dimension is defined with extent zero and recovers its
/// current extent from the payload writes.
#[test]
fn merge_unlimited_dimension_extent_recovered() {
    let mut a = Container::new(Format::Enhanced);
    let t = a.define_dim("time".to_string(), 2, true).unwrap();
    let v = a
        .define_var("level".to_string(), ElemType::UShort, vec![t])
        .unwrap();
    a.enddef();
    a.put_var_data(v, vec![0u8, 1, 2, 3]);

    let mut b = Container::new(Format::Enhanced);
    b.put_attr_global(text_attr("note", "extra"));
    b.enddef();

    let m = merge_containers(&a, &b).unwrap().container;
    assert_eq!(m.dims.len(), 1);
    assert!(m.dims[0].unlimited);
    assert_eq!(m.dims[0].len, 2);
    assert_eq!(m.vars[0].data, vec![0u8, 1, 2, 3]);
}

/// Merging two empty containers yields an empty container.
#[test]
fn merge_empty_inputs() {
    let mut a = Container::new(Format::Offset64);
    a.enddef();
    let mut b = Container::new(Format::Offset64);
    b.enddef();
    let out = merge_containers(&a, &b).unwrap();
    assert!(!out.format_mismatch);
    assert_eq!(out.container.dims.len(), 0);
    assert_eq!(out.container.vars.len(), 0);
    assert_eq!(out.container.gattrs.len(), 0);
}

/// Element sizes of the container's scalar types.
#[test]
fn element_sizes() {
    assert_eq!(ElemType::Byte.size_bytes(), 1);
    assert_eq!(ElemType::UByte.size_bytes(), 1);
    assert_eq!(ElemType::Short.size_bytes(), 2);
    assert_eq!(ElemType::UShort.size_bytes(), 2);
    assert_eq!(ElemType::Int.size_bytes(), 4);
    assert_eq!(ElemType::UInt.size_bytes(), 4);
    assert_eq!(ElemType::Int64.size_bytes(), 8);
    assert_eq!(ElemType::UInt64.size_bytes(), 8);
    assert_eq!(ElemType::Float.size_bytes(), 4);
    assert_eq!(ElemType::Double.size_bytes(), 8);
    assert_eq!(ElemType::Char.size_bytes(), 1);
}

/// Writing an attribute twice overwrites in place instead of appending.
#[test]
fn attribute_overwrite_in_place() {
    let mut c = Container::new(Format::Classic);
    c.put_attr_global(text_attr("title", "one"));
    c.put_attr_global(text_attr("institution", "lab"));
    c.put_attr_global(text_attr("title", "two"));
    assert_eq!(c.gattrs.len(), 2);
    assert_eq!(c.gattrs[0].name, "title");
    assert_eq!(c.gattrs[0].bytes, b"two".to_vec());
    assert_eq!(c.gattrs[1].name, "institution");
}

/// Defining a second dimension of an already-taken kind of axis: a second
/// unlimited dimension is refused by the model itself.
#[test]
fn define_second_unlimited_refused() {
    let mut c = Container::new(Format::Enhanced);
    c.define_dim("t".to_string(), 0, true).unwrap();
    let r = c.define_dim("u".to_string(), 0, true);
    assert_eq!(r.err(), Some(MergeError::DefinitionConflict));
}

/// Name lookups find what was defined.
#[test]
fn find_definitions_by_name() {
    let mut c = Container::new(Format::Classic);
    let d = c.define_dim("x".to_string(), 1, false).unwrap();
    let v = c
        .define_var("v".to_string(), ElemType::Char, vec![d])
        .unwrap();
    assert_eq!(c.find_dim(&"x".to_string()), Some(d));
    assert_eq!(c.find_var(&"v".to_string()), Some(v));
    assert_eq!(c.find_dim(&"missing".to_string()), None);
    assert_eq!(c.find_var(&"missing".to_string()), None);
}
