use cache_sweep::cleanup::clean_cache;
use cache_sweep::cleanup::clean_targets;
use cache_sweep::cleanup::CleanOutcome;
use cache_sweep::inventory::get_cache_info;
use cache_sweep::inventory::Measurement;
use cache_sweep::paths::categories_with_root;
use cache_sweep::paths::Platform;

#[test]
fn clean_all_removable() {
    let outcomes = vec![
        CleanOutcome::Removed { size: 100 },
        CleanOutcome::Removed { size: 200 },
        CleanOutcome::Removed { size: 300 },
    ];
    let r = clean_cache(&outcomes);
    assert_eq!(r.deleted_files, 3);
    assert_eq!(r.freed_bytes, 600);
    assert!(r.errors.is_empty());

    // Afterwards the same category shows up either empty or gone.
    let cats = vec![("HTTP Cache".to_string(), "/c/http".to_string())];
    let emptied = get_cache_info("Default", &cats, &vec![Measurement::Present {
        size: 0,
        files: 0,
    }]);
    assert!(emptied.categories[0].exists);
    assert_eq!(emptied.categories[0].size, 0);
    assert_eq!(emptied.categories[0].file_count, 0);
    let gone = get_cache_info("Default", &cats, &vec![Measurement::Absent]);
    assert!(!gone.categories[0].exists);
    assert_eq!(gone.total_size, 0);
    assert_eq!(gone.total_files, 0);
}

#[test]
fn clean_with_one_unremovable_entry() {
    let outcomes = vec![
        CleanOutcome::Removed { size: 100 },
        CleanOutcome::Failed { message: "/c/http/f_0001: held open by another process".to_string() },
        CleanOutcome::Removed { size: 300 },
    ];
    let r = clean_cache(&outcomes);
    assert_eq!(r.deleted_files, 2);
    assert_eq!(r.freed_bytes, 400);
    assert_eq!(
        r.errors,
        vec!["/c/http/f_0001: held open by another process".to_string()]
    );
}

#[test]
fn clean_aggregates_ignore_processing_order() {
    let a = vec![
        CleanOutcome::Removed { size: 100 },
        CleanOutcome::Failed { message: "x: denied".to_string() },
        CleanOutcome::Removed { size: 300 },
        CleanOutcome::Failed { message: "y: vanished".to_string() },
    ];
    let b = vec![
        CleanOutcome::Failed { message: "y: vanished".to_string() },
        CleanOutcome::Removed { size: 300 },
        CleanOutcome::Failed { message: "x: denied".to_string() },
        CleanOutcome::Removed { size: 100 },
    ];
    let ra = clean_cache(&a);
    let rb = clean_cache(&b);
    assert_eq!(ra.deleted_files, rb.deleted_files);
    assert_eq!(ra.freed_bytes, rb.freed_bytes);
    let mut ea = ra.errors.clone();
    let mut eb = rb.errors.clone();
    ea.sort();
    eb.sort();
    assert_eq!(ea, eb);
}

#[test]
fn empty_run_reports_nothing() {
    let r = clean_cache(&Vec::new());
    assert_eq!(r.deleted_files, 0);
    assert_eq!(r.freed_bytes, 0);
    assert!(r.errors.is_empty());
}

#[test]
fn clean_targets_skips_unknown_names_silently() {
    let cats = categories_with_root(Platform::MacOs, "/h", "Chrome", "Default");
    let requested = vec![
        "GPU Cache".to_string(),
        "Nonexistent Cache".to_string(),
        "HTTP Cache".to_string(),
    ];
    let targets = clean_targets(&requested, &cats);
    assert_eq!(
        targets,
        vec![
            "/h/Library/Application Support/Google/Chrome/Default/GPUCache".to_string(),
            "/h/Library/Caches/Google/Chrome/Default/Cache/Cache_Data".to_string(),
        ]
    );
}
