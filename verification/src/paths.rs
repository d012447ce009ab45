//! Cache-location resolution: pure path construction per platform and
//! browser variant, plus browser discovery.  Nothing here touches the
//! filesystem; the caller reports which base directories exist.

use vstd::prelude::*;
use vstd::string::StringExecFns;

use crate::text::str_eq;

verus! {

/// The operating systems whose cache layouts are known.  The choice is made
/// once by the caller; no other part of the library is platform-aware.
#[derive(Clone, Copy, Debug, PartialEq, Eq, Structural)]
pub enum Platform {
    MacOs,
    Windows,
}

/// A browser variant and whether its base directory was found on disk.
#[derive(Clone, Debug)]
pub struct BrowserInfo {
    pub name: String,
    pub installed: bool,
}

/// Appending `rel` under `base`: empty bases stay out of the way, as when a
/// home directory could not be determined.
pub open spec fn spec_join(base: Seq<char>, sep: Seq<char>, rel: Seq<char>) -> Seq<char> {
    if base.len() == 0 {
        rel
    } else {
        base + sep + rel
    }
}

/// The variant-specific directory name under the macOS caches roots.
pub open spec fn spec_mac_variant(browser: Seq<char>) -> Seq<char> {
    if browser == "Chrome Canary"@ {
        "Google/Chrome Canary"@
    } else {
        "Google/Chrome"@
    }
}

/// The variant-specific user-data directory name on Windows.
pub open spec fn spec_win_variant(browser: Seq<char>) -> Seq<char> {
    if browser == "Chrome Canary"@ {
        "Google\\Chrome SxS\\User Data"@
    } else {
        "Google\\Chrome\\User Data"@
    }
}

/// The directory whose children are candidate profiles.
pub open spec fn spec_base_dir(platform: Platform, root: Seq<char>, browser: Seq<char>) -> Seq<
    char,
> {
    match platform {
        Platform::MacOs => spec_join(
            spec_join(root, "/"@, "Library/Caches"@),
            "/"@,
            spec_mac_variant(browser),
        ),
        Platform::Windows => spec_join(root, "\\"@, spec_win_variant(browser)),
    }
}

/// The fixed categories, in definition order: name paired with the absolute
/// path it resolves to for the given platform root, browser and profile.
pub open spec fn spec_categories(
    platform: Platform,
    root: Seq<char>,
    browser: Seq<char>,
    profile: Seq<char>,
) -> Seq<(Seq<char>, Seq<char>)> {
    match platform {
        Platform::MacOs => {
            let variant = spec_mac_variant(browser);
            let caches = spec_join(
                spec_join(spec_join(root, "/"@, "Library/Caches"@), "/"@, variant),
                "/"@,
                profile,
            );
            let app_support = spec_join(
                spec_join(spec_join(root, "/"@, "Library/Application Support"@), "/"@, variant),
                "/"@,
                profile,
            );
            seq![
                ("HTTP Cache"@, spec_join(caches, "/"@, "Cache/Cache_Data"@)),
                ("Code Cache"@, spec_join(caches, "/"@, "Code Cache"@)),
                ("GPU Cache"@, spec_join(app_support, "/"@, "GPUCache"@)),
            ]
        },
        Platform::Windows => {
            let user_data = spec_join(
                spec_join(root, "\\"@, spec_win_variant(browser)),
                "\\"@,
                profile,
            );
            seq![
                ("HTTP Cache"@, spec_join(user_data, "\\"@, "Cache\\Cache_Data"@)),
                ("Code Cache"@, spec_join(user_data, "\\"@, "Code Cache"@)),
                ("GPU Cache"@, spec_join(user_data, "\\"@, "GPUCache"@)),
            ]
        },
    }
}

/// The views of a sequence of (name, path) pairs.
pub open spec fn pair_views(s: Seq<(String, String)>) -> Seq<(Seq<char>, Seq<char>)> {
    s.map_values(|p: (String, String)| (p.0@, p.1@))
}

/// The path of the first category whose name is `name`, if any.
pub open spec fn spec_find_path(cats: Seq<(Seq<char>, Seq<char>)>, name: Seq<char>) -> Option<
    Seq<char>,
>
    decreases cats.len(),
{
    if cats.len() == 0 {
        None
    } else if cats[0].0 == name {
        Some(cats[0].1)
    } else {
        spec_find_path(cats.drop_first(), name)
    }
}

/// Looks a category name up in the resolved set and hands back its path.
pub fn find_category_path(cache_type: &str, categories: &Vec<(String, String)>) -> (r: Option<
    String,
>)
    ensures
        match r {
            Some(p) => spec_find_path(pair_views(categories@), cache_type@) == Some(p@),
            None => spec_find_path(pair_views(categories@), cache_type@) is None,
        },
{
    let ghost pv = pair_views(categories@);
    let mut i: usize = 0;
    proof {
        assert(pv.skip(0) =~= pv);
    }
    while i < categories.len()
        invariant
            pv == pair_views(categories@),
            i <= categories@.len(),
            spec_find_path(pv, cache_type@) == spec_find_path(pv.skip(i as int), cache_type@),
        decreases categories@.len() - i,
    {
        proof {
            assert(pv.skip(i as int)[0] == (categories@[i as int].0@, categories@[i as int].1@));
            assert(pv.skip(i as int).drop_first() =~= pv.skip(i as int + 1));
        }
        if str_eq(categories[i].0.as_str(), cache_type) {
            return Some(categories[i].1.clone());
        }
        i = i + 1;
    }
    proof {
        assert(pv.skip(i as int).len() == 0);
    }
    None
}

/// Joins one path segment under a base directory.
pub fn join_path(base: &str, sep: &str, rel: &str) -> (r: String)
    ensures
        r@ == spec_join(base@, sep@, rel@),
{
    if base.is_empty() {
        String::from_str(rel)
    } else {
        String::from_str(base).concat(sep).concat(rel)
    }
}

fn mac_variant(browser: &str) -> (r: &'static str)
    ensures
        r@ == spec_mac_variant(browser@),
{
    if str_eq(browser, "Chrome Canary") {
        "Google/Chrome Canary"
    } else {
        "Google/Chrome"
    }
}

fn win_variant(browser: &str) -> (r: &'static str)
    ensures
        r@ == spec_win_variant(browser@),
{
    if str_eq(browser, "Chrome Canary") {
        "Google\\Chrome SxS\\User Data"
    } else {
        "Google\\Chrome\\User Data"
    }
}

/// Resolves the fixed cache categories against an explicitly given platform
/// root directory.  Pure construction; unknown browser names fall back to
/// the default variant.
pub fn categories_with_root(platform: Platform, root: &str, browser: &str, profile: &str) -> (r:
    Vec<(String, String)>)
    ensures
        pair_views(r@) == spec_categories(platform, root@, browser@, profile@),
{
    let mut r: Vec<(String, String)> = Vec::new();
    match platform {
        Platform::MacOs => {
            let variant = mac_variant(browser);
            let caches = join_path(
                join_path(join_path(root, "/", "Library/Caches").as_str(), "/", variant).as_str(),
                "/",
                profile,
            );
            let app_support = join_path(
                join_path(
                    join_path(root, "/", "Library/Application Support").as_str(),
                    "/",
                    variant,
                ).as_str(),
                "/",
                profile,
            );
            r.push(
                (String::from_str("HTTP Cache"), join_path(caches.as_str(), "/", "Cache/Cache_Data")),
            );
            r.push((String::from_str("Code Cache"), join_path(caches.as_str(), "/", "Code Cache")));
            r.push((String::from_str("GPU Cache"), join_path(app_support.as_str(), "/", "GPUCache")));
        },
        Platform::Windows => {
            let variant = win_variant(browser);
            let user_data = join_path(
                join_path(root, "\\", variant).as_str(),
                "\\",
                profile,
            );
            r.push(
                (
                    String::from_str("HTTP Cache"),
                    join_path(user_data.as_str(), "\\", "Cache\\Cache_Data"),
                ),
            );
            r.push(
                (String::from_str("Code Cache"), join_path(user_data.as_str(), "\\", "Code Cache")),
            );
            r.push((String::from_str("GPU Cache"), join_path(user_data.as_str(), "\\", "GPUCache")));
        },
    }
    proof {
        assert(pair_views(r@) =~= spec_categories(platform, root@, browser@, profile@));
    }
    r
}

/// Resolves the profile base directory against an explicitly given platform
/// root directory.
pub fn base_dir_with_root(platform: Platform, root: &str, browser: &str) -> (r: String)
    ensures
        r@ == spec_base_dir(platform, root@, browser@),
{
    match platform {
        Platform::MacOs => {
            let variant = mac_variant(browser);
            join_path(join_path(root, "/", "Library/Caches").as_str(), "/", variant)
        },
        Platform::Windows => {
            let variant = win_variant(browser);
            join_path(root, "\\", variant)
        },
    }
}

/// Relies on dirs::home_dir: the user's home directory as the platform
/// reports it, if any.  The value depends on the environment, so nothing is
/// promised of it; callers state their results relative to whatever came back.
#[verifier::external_body]
fn home_dir_string() -> (r: Option<String>) {
    dirs::home_dir().map(|p| p.to_string_lossy().to_string())
}

/// Relies on dirs::data_local_dir: the local application data directory as
/// the platform reports it, if any.  As with the home directory, nothing is
/// promised of the value.
#[verifier::external_body]
fn data_local_dir_string() -> (r: Option<String>) {
    dirs::data_local_dir().map(|p| p.to_string_lossy().to_string())
}

/// The platform root under which browser data lives: the home directory on
/// macOS, the local application data directory on Windows; empty when the
/// platform reports none.
fn platform_root(platform: Platform) -> String {
    let root = match platform {
        Platform::MacOs => home_dir_string(),
        Platform::Windows => data_local_dir_string(),
    };
    match root {
        Some(s) => s,
        None => String::new(),
    }
}

/// Resolves the fixed cache categories for a browser and profile, relative
/// to the platform-reported root directory.
pub fn get_cache_categories_for_browser(platform: Platform, browser: &str, profile: &str) -> (r:
    Vec<(String, String)>)
    ensures
        exists|root: Seq<char>|
            pair_views(r@) == spec_categories(platform, root, browser@, profile@),
{
    let root = platform_root(platform);
    let r = categories_with_root(platform, root.as_str(), browser, profile);
    proof {
        assert(pair_views(r@) == spec_categories(platform, root@, browser@, profile@));
    }
    r
}

/// Resolves the profile base directory for a browser, relative to the
/// platform-reported root directory.
pub fn get_browser_base_dir(platform: Platform, browser: &str) -> (r: String)
    ensures
        exists|root: Seq<char>| r@ == spec_base_dir(platform, root, browser@),
{
    let root = platform_root(platform);
    let r = base_dir_with_root(platform, root.as_str(), browser);
    proof {
        assert(r@ == spec_base_dir(platform, root@, browser@));
    }
    r
}

/// The fixed set of known browser variants, each paired with the reported
/// installation state of its base directory.
pub fn detect_installed_browsers(chrome_installed: bool, canary_installed: bool) -> (r: Vec<
    (String, bool),
>)
    ensures
        r@.len() == 2,
        r@[0].0@ == "Chrome"@,
        r@[0].1 == chrome_installed,
        r@[1].0@ == "Chrome Canary"@,
        r@[1].1 == canary_installed,
{
    let mut r: Vec<(String, bool)> = Vec::new();
    r.push((String::from_str("Chrome"), chrome_installed));
    r.push((String::from_str("Chrome Canary"), canary_installed));
    r
}

/// The same discovery report, shaped for presentation.
pub fn detect_browsers(chrome_installed: bool, canary_installed: bool) -> (r: Vec<BrowserInfo>)
    ensures
        r@.len() == 2,
        r@[0].name@ == "Chrome"@,
        r@[0].installed == chrome_installed,
        r@[1].name@ == "Chrome Canary"@,
        r@[1].installed == canary_installed,
{
    let mut r: Vec<BrowserInfo> = Vec::new();
    r.push(BrowserInfo { name: String::from_str("Chrome"), installed: chrome_installed });
    r.push(
        BrowserInfo { name: String::from_str("Chrome Canary"), installed: canary_installed },
    );
    r
}

} // verus!
