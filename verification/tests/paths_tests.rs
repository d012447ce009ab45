use cache_sweep::paths::base_dir_with_root;
use cache_sweep::paths::categories_with_root;
use cache_sweep::paths::detect_browsers;
use cache_sweep::paths::detect_installed_browsers;
use cache_sweep::paths::find_category_path;
use cache_sweep::paths::Platform;

fn pairs(v: &[(String, String)]) -> Vec<(&str, &str)> {
    v.iter().map(|(a, b)| (a.as_str(), b.as_str())).collect()
}

#[test]
fn macos_chrome_categories() {
    let cats = categories_with_root(Platform::MacOs, "/Users/u", "Chrome", "Default");
    assert_eq!(
        pairs(&cats),
        vec![
            (
                "HTTP Cache",
                "/Users/u/Library/Caches/Google/Chrome/Default/Cache/Cache_Data"
            ),
            (
                "Code Cache",
                "/Users/u/Library/Caches/Google/Chrome/Default/Code Cache"
            ),
            (
                "GPU Cache",
                "/Users/u/Library/Application Support/Google/Chrome/Default/GPUCache"
            ),
        ]
    );
}

#[test]
fn macos_canary_categories() {
    let cats = categories_with_root(Platform::MacOs, "/Users/u", "Chrome Canary", "Profile 1");
    assert_eq!(
        cats[0].1,
        "/Users/u/Library/Caches/Google/Chrome Canary/Profile 1/Cache/Cache_Data"
    );
}

#[test]
fn windows_chrome_categories() {
    let cats = categories_with_root(
        Platform::Windows,
        "C:\\Users\\u\\AppData\\Local",
        "Chrome",
        "Default",
    );
    assert_eq!(
        pairs(&cats),
        vec![
            (
                "HTTP Cache",
                "C:\\Users\\u\\AppData\\Local\\Google\\Chrome\\User Data\\Default\\Cache\\Cache_Data"
            ),
            (
                "Code Cache",
                "C:\\Users\\u\\AppData\\Local\\Google\\Chrome\\User Data\\Default\\Code Cache"
            ),
            (
                "GPU Cache",
                "C:\\Users\\u\\AppData\\Local\\Google\\Chrome\\User Data\\Default\\GPUCache"
            ),
        ]
    );
}

#[test]
fn unknown_browser_falls_back_to_default_variant() {
    let known = categories_with_root(Platform::MacOs, "/h", "Chrome", "Default");
    let unknown = categories_with_root(Platform::MacOs, "/h", "Chromium Fork", "Default");
    assert_eq!(pairs(&known), pairs(&unknown));
}

#[test]
fn base_dirs_per_platform() {
    assert_eq!(
        base_dir_with_root(Platform::MacOs, "/Users/u", "Chrome"),
        "/Users/u/Library/Caches/Google/Chrome"
    );
    assert_eq!(
        base_dir_with_root(Platform::MacOs, "/Users/u", "Chrome Canary"),
        "/Users/u/Library/Caches/Google/Chrome Canary"
    );
    assert_eq!(
        base_dir_with_root(Platform::Windows, "C:\\AppData", "Chrome Canary"),
        "C:\\AppData\\Google\\Chrome SxS\\User Data"
    );
}

#[test]
fn empty_root_keeps_paths_relative() {
    assert_eq!(
        base_dir_with_root(Platform::MacOs, "", "Chrome"),
        "Library/Caches/Google/Chrome"
    );
}

#[test]
fn detect_installed_browsers_reports_both_variants() {
    let b = detect_installed_browsers(true, false);
    assert_eq!(
        b,
        vec![
            ("Chrome".to_string(), true),
            ("Chrome Canary".to_string(), false)
        ]
    );
}

#[test]
fn detect_browsers_shapes_the_report() {
    let b = detect_browsers(false, true);
    assert_eq!(b.len(), 2);
    assert_eq!(b[0].name, "Chrome");
    assert!(!b[0].installed);
    assert_eq!(b[1].name, "Chrome Canary");
    assert!(b[1].installed);
}

#[test]
fn find_category_path_hits_and_misses() {
    let cats = categories_with_root(Platform::MacOs, "/h", "Chrome", "Default");
    let p = find_category_path("Code Cache", &cats);
    assert_eq!(
        p,
        Some("/h/Library/Caches/Google/Chrome/Default/Code Cache".to_string())
    );
    assert_eq!(find_category_path("Nonexistent Cache", &cats), None);
}
