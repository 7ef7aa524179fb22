use cluster_core::flatten::{flatten_objects_for_count, CountObject};
use cluster_core::timepath::time_from_path;

fn obj(fields: &[(&str, u64)]) -> CountObject {
    CountObject { fields: fields.iter().map(|(k, v)| (k.to_string(), *v)).collect() }
}

fn fields_of(objects: &[CountObject]) -> Vec<Vec<(String, u64)>> {
    objects.iter().map(|o| o.fields.clone()).collect()
}

#[test]
fn test_time_from_parquet_path() {
    let path = "date=2022-01-01.hour=00.minute=00.hostname.data.parquet";
    let time = time_from_path(path);
    assert_eq!(time.unwrap(), 1640995200);
}

#[test]
fn test_flat_simple() {
    let val = vec![obj(&[("COUNT(*)", 1)]), obj(&[("COUNT(*)", 2)]), obj(&[("COUNT(*)", 3)])];
    let out = flatten_objects_for_count(val);
    assert_eq!(fields_of(&out), fields_of(&[obj(&[("COUNT(*)", 6)])]));
}

#[test]
fn test_flat_empty() {
    let val: Vec<CountObject> = vec![];
    let out = flatten_objects_for_count(val);
    assert_eq!(fields_of(&out), fields_of(&[]));
}

#[test]
fn test_flat_same_multi() {
    let val = vec![obj(&[("COUNT(ALPHA)", 1)]), obj(&[("COUNT(ALPHA)", 2)])];
    let out = flatten_objects_for_count(val);
    assert_eq!(fields_of(&[obj(&[("COUNT(ALPHA)", 3)])]), fields_of(&out));
}

#[test]
fn test_flat_diff_multi() {
    let val = vec![obj(&[("COUNT(ALPHA)", 1)]), obj(&[("COUNT(BETA)", 2)])];
    let expected = fields_of(&val);
    let out = flatten_objects_for_count(val);
    assert_eq!(fields_of(&out), expected);
}

#[test]
fn test_flat_fail() {
    let val = vec![obj(&[("Num", 1)]), obj(&[("Num", 2)]), obj(&[("Num", 3)])];
    let expected = fields_of(&val);
    let out = flatten_objects_for_count(val);
    assert_eq!(expected, fields_of(&out));
}

#[test]
fn test_flat_multi_key() {
    let val = vec![
        obj(&[("Num", 1), ("COUNT(*)", 1)]),
        obj(&[("Num", 2), ("COUNT(*)", 2)]),
        obj(&[("Num", 3), ("COUNT(*)", 3)]),
    ];
    let expected = fields_of(&val);
    let out = flatten_objects_for_count(val);
    assert_eq!(expected, fields_of(&out));
}
