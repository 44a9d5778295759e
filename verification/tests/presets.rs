use synthesis::path::{normalize_path, paths_equal};
use synthesis::engine::synth_voice::OscModMode;
use synthesis::modules::FilterMode;
use synthesis::preset::browser::{builtin_preset_infos, sanitize_filename, PresetBrowser, PresetInfo, ScannedDir};
use synthesis::preset::preset::{default_version, FilterModePreset, OscModModePreset, PresetError, PRESET_VERSION};

fn user_preset(name: &str, category: Option<&str>, path: &str) -> PresetInfo {
    PresetInfo::from_preset(name.to_string(), None, category.map(|c| c.to_string()), Some(path.to_string()))
}

#[test]
fn test_browser_new_loads_builtins() {
    let browser = PresetBrowser::new();
    assert!(browser.count() >= 5);
    assert!(!browser.builtins().is_empty());
}

#[test]
fn test_browser_search() {
    let browser = PresetBrowser::new();
    let results = browser.search("bass");
    assert!(!results.is_empty());
    assert!(results[0].name.to_lowercase().contains("bass"));
}

#[test]
fn test_browser_search_case_insensitive() {
    let browser = PresetBrowser::new();
    let results_lower = browser.search("bass");
    let results_upper = browser.search("BASS");
    assert_eq!(results_lower.len(), results_upper.len());
}

#[test]
fn test_browser_by_category() {
    let browser = PresetBrowser::new();
    let categories = browser.categories();
    assert!(categories.contains(&"Bass"));
    let bass_presets = browser.by_category("Bass");
    assert!(!bass_presets.is_empty());
}

#[test]
fn test_browser_by_author() {
    let browser = PresetBrowser::new();
    let authors = browser.authors();
    assert!(authors.contains(&"Katie"));
    let katie_presets = browser.by_author("Katie");
    assert!(!katie_presets.is_empty());
}

#[test]
fn test_sanitize_filename() {
    assert_eq!(sanitize_filename("My Preset"), "My_Preset");
    assert_eq!(sanitize_filename("Test/Bad:Name"), "Test_Bad_Name");
    assert_eq!(sanitize_filename("Normal-Name_123"), "Normal-Name_123");
}

#[test]
fn test_osc_mod_mode_conversion() {
    let preset = OscModModePreset::Fm;
    let mode: OscModMode = preset.into();
    assert_eq!(mode, OscModMode::Fm);
}

#[test]
fn test_browser_cannot_delete_builtin() {
    let mut browser = PresetBrowser::new();
    let info = browser.builtins()[0].clone();
    let result = browser.delete(&info, Ok(()));
    assert!(result.is_err());
    assert_eq!(browser.count(), 6);
}

#[test]
fn test_preset_info_from_preset() {
    let info = PresetInfo::from_preset("Init".to_string(), None, None, None);
    assert_eq!(info.name, "Init");
    assert!(info.builtin);
    assert!(info.path.is_none());
    let info = PresetInfo::from_preset("Init".to_string(), None, None, Some("/test/path.json".to_string()));
    assert!(!info.builtin);
    assert_eq!(info.path, Some("/test/path.json".to_string()));
}

#[test]
fn test_browser_user_presets() {
    let mut browser = PresetBrowser::new();
    browser.add_search_path(ScannedDir { path: "/presets".to_string(), presets: Vec::new() });
    let added = browser.record_saved("/presets", user_preset("User Sound", None, "/presets/User_Sound.json"));
    assert!(added);
    let user_presets = browser.user_presets();
    assert_eq!(user_presets.len(), 1);
    assert!(!user_presets[0].builtin);
}

#[test]
fn test_browser_delete() {
    let mut browser = PresetBrowser::new();
    browser.add_search_path(ScannedDir { path: "/presets".to_string(), presets: Vec::new() });
    browser.record_saved("/presets", user_preset("To Delete", None, "/presets/To_Delete.json"));
    assert_eq!(browser.search("To Delete").len(), 1);
    let info = browser.search("To Delete")[0].clone();
    browser.delete(&info, Ok(())).unwrap();
    assert_eq!(browser.search("To Delete").len(), 0);
}

#[test]
fn test_browser_refresh() {
    let mut browser = PresetBrowser::new();
    browser.add_search_path(ScannedDir { path: "/presets".to_string(), presets: Vec::new() });
    let initial_count = browser.count();
    browser.refresh(vec![user_preset("Init", None, "/presets/direct.json")]);
    assert_eq!(browser.count(), initial_count + 1);
}

#[test]
fn builtin_catalogue_contents() {
    let infos = builtin_preset_infos();
    let names: Vec<&str> = infos.iter().map(|p| p.name.as_str()).collect();
    assert_eq!(names, vec!["Init", "Classic Bass", "Soft Pad", "FM Bell", "Sync Lead", "Pluck"]);
    assert!(infos.iter().all(|p| p.builtin && p.path.is_none()));
    let browser = PresetBrowser::new();
    assert_eq!(browser.categories(), vec!["Bass", "Pad", "Bell", "Lead", "Pluck"]);
    assert_eq!(browser.authors(), vec!["Katie"]);
    assert_eq!(browser.by_author("Katie").len(), 5);
    assert!(browser.by_category("Strings").is_empty());
    assert_eq!(browser.find_by_name("Classic Bass").map(|p| p.category.clone()), Some(Some("Bass".to_string())));
    assert!(browser.find_by_name("classic bass").is_none());
}

#[test]
fn search_paths_and_indices_follow_scans() {
    let dir = ScannedDir {
        path: "/a".to_string(),
        presets: vec![user_preset("Deep Bass", Some("Bass"), "/a/deep.json"), user_preset("Glass", Some("Keys"), "/a/glass.json")],
    };
    let mut browser = PresetBrowser::with_paths(vec![dir]);
    assert_eq!(browser.count(), 8);
    assert_eq!(browser.by_category("Bass").iter().map(|p| p.name.as_str()).collect::<Vec<_>>(), vec!["Classic Bass", "Deep Bass"]);
    assert_eq!(browser.categories(), vec!["Bass", "Pad", "Bell", "Lead", "Pluck", "Keys"]);
    browser.add_search_path(ScannedDir { path: "/a".to_string(), presets: vec![user_preset("Again", None, "/a/again.json")] });
    assert_eq!(browser.count(), 8);
    assert!(!browser.record_saved("/elsewhere", user_preset("Lost", None, "/elsewhere/lost.json")));
    let glass = browser.search("GLASS")[0].clone();
    assert!(matches!(browser.delete(&glass, Err("denied".to_string())), Err(PresetError::Io(m)) if m == "denied"));
    assert_eq!(browser.count(), 8);
    browser.delete(&glass, Ok(())).unwrap();
    assert_eq!(browser.categories(), vec!["Bass", "Pad", "Bell", "Lead", "Pluck"]);
    assert_eq!(browser.search_paths(), &["/a".to_string()]);
}

#[test]
fn mode_conversions_and_versions() {
    let mode: FilterMode = FilterModePreset::Notch.into();
    assert_eq!(mode, FilterMode::Notch);
    let back: FilterModePreset = FilterMode::HighShelf.into();
    assert_eq!(back, FilterModePreset::HighShelf);
    let stored: OscModModePreset = OscModMode::Ring.into();
    assert_eq!(stored, OscModModePreset::Ring);
    assert_eq!(OscModModePreset::default(), OscModModePreset::Off);
    assert_eq!(default_version(), PRESET_VERSION);
    assert_eq!(PresetError::Io("gone".to_string()).message(), "IO error: gone");
    assert_eq!(PresetError::Parse("bad".to_string()).message(), "Parse error: bad");
}

#[test]
fn one_directory_under_two_spellings_is_searched_once() {
    let scan = |path: &str| ScannedDir {
        path: path.to_string(),
        presets: vec![user_preset("Deep Bass", Some("Bass"), "presets/deep.json")],
    };
    let browser = PresetBrowser::with_paths(vec![scan("presets"), scan("presets/"), scan("./presets/.")]);
    assert_eq!(browser.search_paths().len(), 2);
    let mut browser = PresetBrowser::with_paths(vec![scan("presets"), scan("presets//")]);
    assert_eq!(browser.search_paths(), &["presets".to_string()]);
    assert_eq!(browser.count(), 7);
    browser.add_search_path(scan("presets/./"));
    assert_eq!(browser.count(), 7);
    assert!(browser.record_saved("presets/", user_preset("Saved", None, "presets/Saved.json")));
    let saved = user_preset("Saved", None, "presets//./Saved.json");
    browser.delete(&saved, Ok(())).unwrap();
    assert!(browser.search("Saved").is_empty());
}

#[test]
fn path_normal_forms() {
    assert_eq!(normalize_path("presets/"), "presets");
    assert_eq!(normalize_path("/a//b/./c/"), "/a/b/c");
    assert_eq!(normalize_path("./a/."), "./a");
    assert_eq!(normalize_path("//"), "/");
    assert_eq!(normalize_path(""), "");
    assert!(paths_equal("a/b", "a//b/"));
    assert!(!paths_equal("a", "./a"));
    assert!(!paths_equal("/a", "a"));
}

#[test]
fn search_ignores_ascii_case_and_empty_query_finds_all() {
    let browser = PresetBrowser::new();
    let lower: Vec<String> = browser.search("soft pad").iter().map(|p| p.name.clone()).collect();
    let upper: Vec<String> = browser.search("SOFT PAD").iter().map(|p| p.name.clone()).collect();
    let mixed: Vec<String> = browser.search("sOfT pAd").iter().map(|p| p.name.clone()).collect();
    assert_eq!(lower, vec!["Soft Pad".to_string()]);
    assert_eq!(upper, lower);
    assert_eq!(mixed, lower);
    assert_eq!(browser.search("").len(), browser.count());
}

#[test]
fn builtins_come_first_and_user_presets_have_paths() {
    let dir = ScannedDir { path: "/p".to_string(), presets: vec![user_preset("Mine", None, "/p/mine.json")] };
    let mut browser = PresetBrowser::with_paths(vec![dir]);
    browser.refresh(vec![user_preset("Other", None, "/p/other.json")]);
    let names: Vec<&str> = browser.builtins().iter().map(|p| p.name.as_str()).collect();
    assert_eq!(names, vec!["Init", "Classic Bass", "Soft Pad", "FM Bell", "Sync Lead", "Pluck"]);
    assert!(browser.user_presets().iter().all(|p| !p.builtin && p.path.is_some()));
    assert_eq!(browser.builtins().len() + browser.user_presets().len(), browser.count());
}
