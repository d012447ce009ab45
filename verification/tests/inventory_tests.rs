use cache_sweep::inventory::calculate_dir_size;
use cache_sweep::inventory::get_cache_info;
use cache_sweep::inventory::Measurement;
use cache_sweep::inventory::WalkedEntry;

fn three_categories() -> Vec<(String, String)> {
    vec![
        ("HTTP Cache".to_string(), "/c/http".to_string()),
        ("Code Cache".to_string(), "/c/code".to_string()),
        ("GPU Cache".to_string(), "/c/gpu".to_string()),
    ]
}

#[test]
fn totals_are_sums_of_categories() {
    let cats = three_categories();
    let ms = vec![
        Measurement::Present { size: 100, files: 2 },
        Measurement::Present { size: 250, files: 5 },
        Measurement::Present { size: 7, files: 1 },
    ];
    let info = get_cache_info("Default", &cats, &ms);
    assert_eq!(info.total_size, 357);
    assert_eq!(info.total_files, 8);
    let size_sum: u64 = info.categories.iter().map(|c| c.size).sum();
    let file_sum: u64 = info.categories.iter().map(|c| c.file_count).sum();
    assert_eq!(info.total_size, size_sum);
    assert_eq!(info.total_files, file_sum);
}

#[test]
fn absent_category_is_zeroed() {
    let cats = three_categories();
    let ms = vec![
        Measurement::Present { size: 100, files: 2 },
        Measurement::Absent,
        Measurement::Present { size: 7, files: 1 },
    ];
    let info = get_cache_info("Default", &cats, &ms);
    let c = &info.categories[1];
    assert!(!c.exists);
    assert_eq!(c.size, 0);
    assert_eq!(c.file_count, 0);
    assert_eq!(info.total_size, 107);
    assert_eq!(info.total_files, 3);
}

#[test]
fn categories_keep_definition_order() {
    let cats = three_categories();
    let ms = vec![
        Measurement::Present { size: 1, files: 1 },
        Measurement::Present { size: 999, files: 9 },
        Measurement::Present { size: 5, files: 2 },
    ];
    let info = get_cache_info("Default", &cats, &ms);
    let names: Vec<&str> = info.categories.iter().map(|c| c.name.as_str()).collect();
    assert_eq!(names, vec!["HTTP Cache", "Code Cache", "GPU Cache"]);
    assert_eq!(info.categories[0].path, "/c/http");
    assert_eq!(info.profile, "Default");
}

#[test]
fn repeated_inventory_is_identical() {
    let cats = three_categories();
    let ms = vec![
        Measurement::Present { size: 42, files: 3 },
        Measurement::Absent,
        Measurement::Present { size: 0, files: 0 },
    ];
    let a = get_cache_info("Default", &cats, &ms);
    let b = get_cache_info("Default", &cats, &ms);
    assert_eq!(a.profile, b.profile);
    assert_eq!(a.total_size, b.total_size);
    assert_eq!(a.total_files, b.total_files);
    assert_eq!(a.categories.len(), b.categories.len());
    for (x, y) in a.categories.iter().zip(b.categories.iter()) {
        assert_eq!(x.name, y.name);
        assert_eq!(x.path, y.path);
        assert_eq!(x.size, y.size);
        assert_eq!(x.file_count, y.file_count);
        assert_eq!(x.exists, y.exists);
    }
}

#[test]
fn dir_size_counts_only_files() {
    let entries = vec![
        WalkedEntry { is_file: true, size: 500 },
        WalkedEntry { is_file: false, size: 4096 },
        WalkedEntry { is_file: true, size: 10 },
        WalkedEntry { is_file: true, size: 9999 },
    ];
    let (bytes, count) = calculate_dir_size(&entries);
    assert_eq!(bytes, 10509);
    assert_eq!(count, 3);
}

#[test]
fn dir_size_of_nothing_is_zero() {
    let entries: Vec<WalkedEntry> = Vec::new();
    assert_eq!(calculate_dir_size(&entries), (0, 0));
}
