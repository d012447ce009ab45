use cache_sweep::profiles::get_chrome_profiles;
use cache_sweep::profiles::is_profile_dir_name;
use cache_sweep::profiles::sort_profile_names;

fn names(v: &[&str]) -> Vec<String> {
    v.iter().map(|s| s.to_string()).collect()
}

#[test]
fn profiles_are_filtered_and_sorted() {
    let children = names(&[
        "Profile 2",
        "Crashpad",
        "Default",
        "Profile 10",
        "GrShaderCache",
        "Profile 1",
    ]);
    let profiles = get_chrome_profiles(&children);
    assert_eq!(profiles, names(&["Default", "Profile 1", "Profile 10", "Profile 2"]));
}

#[test]
fn missing_base_dir_gives_no_profiles() {
    let profiles = get_chrome_profiles(&Vec::new());
    assert!(profiles.is_empty());
}

#[test]
fn profile_name_rules() {
    assert!(is_profile_dir_name("Default"));
    assert!(is_profile_dir_name("Profile 1"));
    assert!(is_profile_dir_name("Profile X"));
    assert!(!is_profile_dir_name("Profile"));
    assert!(!is_profile_dir_name("default"));
    assert!(!is_profile_dir_name("Crashpad"));
}

#[test]
fn sorting_names_is_lexicographic() {
    let sorted = sort_profile_names(names(&["b", "a", "ab", ""]));
    assert_eq!(sorted, names(&["", "a", "ab", "b"]));
}
