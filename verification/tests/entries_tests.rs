use cache_sweep::entries::list_cache_entries;
use cache_sweep::entries::make_cache_entry;
use cache_sweep::entries::sort_entries_by_size_desc;
use cache_sweep::entries::RawEntry;
use cache_sweep::paths::categories_with_root;
use cache_sweep::paths::Platform;

fn raw(name: &str, is_file: bool, size: u64) -> RawEntry {
    RawEntry { name: name.to_string(), is_file, size, modified: None }
}

#[test]
fn entries_come_back_largest_first() {
    let cats = categories_with_root(Platform::MacOs, "/h", "Chrome", "Default");
    let raws = vec![raw("a", true, 500), raw("b", true, 10), raw("c", true, 9999)];
    let entries = list_cache_entries("HTTP Cache", &cats, &raws).unwrap();
    let sizes: Vec<u64> = entries.iter().map(|e| e.size).collect();
    assert_eq!(sizes, vec![9999, 500, 10]);
    assert_eq!(entries[0].name, "c");
    assert_eq!(entries[1].name, "a");
    assert_eq!(entries[2].name, "b");
}

#[test]
fn unknown_category_is_an_error_with_no_partial_results() {
    let cats = categories_with_root(Platform::MacOs, "/h", "Chrome", "Default");
    let raws = vec![raw("a", true, 500)];
    let r = list_cache_entries("Nonexistent Cache", &cats, &raws);
    match r {
        Err(m) => assert_eq!(m, "Unknown cache type: Nonexistent Cache"),
        Ok(_) => panic!("an unknown category must be rejected"),
    }
}

#[test]
fn directories_are_not_listed() {
    let cats = categories_with_root(Platform::MacOs, "/h", "Chrome", "Default");
    let raws = vec![raw("sub", false, 4096), raw("f", true, 7)];
    let entries = list_cache_entries("Code Cache", &cats, &raws).unwrap();
    assert_eq!(entries.len(), 1);
    assert_eq!(entries[0].name, "f");
}

#[test]
fn empty_directory_lists_nothing() {
    let cats = categories_with_root(Platform::MacOs, "/h", "Chrome", "Default");
    let entries = list_cache_entries("GPU Cache", &cats, &Vec::new()).unwrap();
    assert!(entries.is_empty());
}

#[test]
fn modification_time_is_rendered_as_rfc3339_utc() {
    let e = make_cache_entry("f".to_string(), 1, Some((0, 0)));
    assert_eq!(e.modified, "1970-01-01T00:00:00+00:00");
    let e2 = make_cache_entry("g".to_string(), 1, Some((1431648000, 0)));
    assert_eq!(e2.modified, "2015-05-15T00:00:00+00:00");
}

#[test]
fn missing_modification_time_stays_empty() {
    let e = make_cache_entry("f".to_string(), 1, None);
    assert_eq!(e.modified, "");
}

#[test]
fn sorting_keeps_every_entry() {
    let v = vec![
        make_cache_entry("a".to_string(), 3, None),
        make_cache_entry("b".to_string(), 11, None),
        make_cache_entry("c".to_string(), 7, None),
        make_cache_entry("d".to_string(), 11, None),
    ];
    let sorted = sort_entries_by_size_desc(v);
    let sizes: Vec<u64> = sorted.iter().map(|e| e.size).collect();
    assert_eq!(sizes, vec![11, 11, 7, 3]);
    let mut names: Vec<&str> = sorted.iter().map(|e| e.name.as_str()).collect();
    names.sort();
    assert_eq!(names, vec!["a", "b", "c", "d"]);
}
