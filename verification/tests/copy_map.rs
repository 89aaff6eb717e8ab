use wb_switch_core::copy_map::{copy_map_file, empty_map, find_copy, record_copy, record_copy_at, remove_copies_for_target, root_cid};
use wb_switch_core::json::Json;
use wb_switch_core::paths::FsPath;

#[test]
fn record_and_find_roundtrip() {
    let mut map = empty_map();
    record_copy(&mut map, "uid-a", "cid-1", "uid-b", "cid-2");
    assert_eq!(find_copy(&map, "uid-a", "cid-1", "uid-b"), Some("cid-2".to_string()));
    assert_eq!(find_copy(&map, "uid-a", "cid-1", "uid-c"), None);
    remove_copies_for_target(&mut map, &vec!["cid-2".to_string()]);
}

#[test]
fn copy_back_is_found_as_a_duplicate() {
    let mut map = empty_map();
    assert!(record_copy(&mut map, "uid-a", "cid-1", "uid-b", "cid-2"));
    assert_eq!(find_copy(&map, "uid-b", "cid-2", "uid-a"), Some("cid-1".to_string()));
    assert_eq!(find_copy(&map, "uid-b", "cid-9", "uid-a"), None);
    assert_eq!(find_copy(&map, "uid-c", "cid-2", "uid-a"), None);
}

#[test]
fn chained_copy_resolves_to_root() {
    let mut map = empty_map();
    record_copy(&mut map, "uid-a", "cid-1", "uid-b", "cid-2");
    assert_eq!(find_copy(&map, "uid-a", "cid-1", "uid-b"), Some("cid-2".to_string()));
    remove_copies_for_target(&mut map, &vec!["cid-2".to_string()]);
    assert_eq!(find_copy(&map, "uid-a", "cid-1", "uid-b"), None);
}

#[test]
fn copy_of_a_copy_is_found_through_its_root() {
    let mut map = empty_map();
    record_copy_at(&mut map, "uid-a", "cid-1", "uid-b", "cid-2", 1);
    record_copy_at(&mut map, "uid-b", "cid-2", "uid-c", "cid-3", 2);
    assert_eq!(root_cid(&map, "cid-3"), "cid-1");
    assert_eq!(root_cid(&map, "cid-9"), "cid-9");
    // A copy from uid-a of the root conversation reaches uid-c through cid-2.
    record_copy_at(&mut map, "uid-a", "cid-2", "uid-c", "cid-4", 3);
    assert_eq!(find_copy(&map, "uid-a", "cid-1", "uid-c"), Some("cid-4".to_string()));
}

#[test]
fn recording_the_same_path_replaces_the_older_record() {
    let mut map = empty_map();
    record_copy_at(&mut map, "uid-a", "cid-1", "uid-b", "cid-2", 1);
    record_copy_at(&mut map, "uid-a", "cid-1", "uid-b", "cid-5", 2);
    assert_eq!(find_copy(&map, "uid-a", "cid-1", "uid-b"), Some("cid-5".to_string()));
    match &map {
        Json::Obj(entries) => {
            let copies = entries.iter().find(|(k, _)| k == "copies").map(|(_, v)| v).unwrap();
            match copies {
                Json::Arr(a) => assert_eq!(a.len(), 1),
                _ => panic!("copies is not an array"),
            }
        }
        _ => panic!("map is not an object"),
    }
}

#[test]
fn table_without_copies_list_records_nothing() {
    let mut map = Json::Obj(vec![("version".to_string(), Json::Int(1))]);
    record_copy_at(&mut map, "a", "b", "c", "d", 1);
    assert_eq!(find_copy(&map, "a", "b", "c"), None);
    let mut null = Json::Null;
    remove_copies_for_target(&mut null, &vec![]);
    assert!(matches!(null, Json::Null));
    let file = copy_map_file(&FsPath::new("/store"));
    assert_eq!(file.parts, vec!["/store".to_string(), "copy-map.json".to_string()]);
}
