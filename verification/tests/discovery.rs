use header_translator::config::{load_configs, Config, ConfigSource, LoadOutcome};
use header_translator::sdk::{
    discover, is_canonical_platform, llvm_targets, select_sdk, Platform, SdkCandidate, SdkError,
};
use header_translator::session::{entry_header, parse_options, parser_arguments};

fn candidate(platform: Platform, is_symlink: bool, path: &str) -> SdkCandidate {
    SdkCandidate { platform, is_symlink, path: path.to_string() }
}

#[test]
fn exactly_one_eligible_sdk_succeeds() {
    let candidates = vec![
        candidate(Platform::MacOsX, true, "/sdks/MacOSX.sdk"),
        candidate(Platform::MacOsX, false, "/sdks/MacOSX13.sdk"),
        candidate(Platform::IPhoneOs, false, "/sdks/iPhoneOS.sdk"),
    ];
    let s = select_sdk(Platform::MacOsX, &candidates).expect("one SDK");
    assert_eq!(s.platform, Platform::MacOsX);
    assert_eq!(s.path, "/sdks/MacOSX13.sdk");
}

#[test]
fn zero_candidates_fail_naming_the_platform() {
    let candidates = vec![candidate(Platform::MacOsX, true, "/sdks/MacOSX.sdk")];
    match select_sdk(Platform::MacOsX, &candidates) {
        Err(SdkError::WrongCount { platform, count }) => {
            assert_eq!(platform, Platform::MacOsX);
            assert_eq!(count, 0);
        }
        _ => panic!("expected a wrong-count error"),
    }
}

#[test]
fn two_candidates_fail_naming_the_platform() {
    let candidates = vec![
        candidate(Platform::WatchOs, false, "/sdks/WatchOS.sdk"),
        candidate(Platform::WatchOs, false, "/sdks/WatchOS9.sdk"),
    ];
    match select_sdk(Platform::WatchOs, &candidates) {
        Err(SdkError::WrongCount { platform, count }) => {
            assert_eq!(platform, Platform::WatchOs);
            assert_eq!(count, 2);
        }
        _ => panic!("expected a wrong-count error"),
    }
}

#[test]
fn mismatched_platform_is_filtered_out() {
    let candidates = vec![
        candidate(Platform::IPhoneOs, false, "/sdks/iPhoneOS.sdk"),
        candidate(Platform::MacOsX, false, "/sdks/MacOSX.sdk"),
    ];
    let s = select_sdk(Platform::IPhoneOs, &candidates).expect("one SDK");
    assert_eq!(s.path, "/sdks/iPhoneOS.sdk");
}

#[test]
fn discover_selects_one_sdk_per_platform() {
    let per_platform = vec![
        (Platform::MacOsX, vec![candidate(Platform::MacOsX, false, "/sdks/MacOSX.sdk")]),
        (Platform::IPhoneOs, vec![candidate(Platform::IPhoneOs, false, "/sdks/iPhoneOS.sdk")]),
    ];
    let sdks = discover(&per_platform).expect("all platforms");
    assert_eq!(sdks.len(), 2);
    assert_eq!(sdks[0].path, "/sdks/MacOSX.sdk");
    assert_eq!(sdks[1].path, "/sdks/iPhoneOS.sdk");
}

#[test]
fn discover_fails_on_the_first_bad_platform() {
    let per_platform = vec![
        (Platform::MacOsX, vec![candidate(Platform::MacOsX, false, "/sdks/MacOSX.sdk")]),
        (Platform::IPhoneOs, vec![]),
    ];
    match discover(&per_platform) {
        Err(SdkError::WrongCount { platform, count }) => {
            assert_eq!(platform, Platform::IPhoneOs);
            assert_eq!(count, 0);
        }
        _ => panic!("expected a wrong-count error"),
    }
}

#[test]
fn target_table_matches_the_enabled_set() {
    let mac = llvm_targets(&Platform::MacOsX).expect("desktop parses");
    assert_eq!(mac, vec!["x86_64-apple-macosx10.7.0".to_string()]);
    let phone = llvm_targets(&Platform::IPhoneOs).expect("mobile is listed");
    assert!(phone.is_empty());
    assert!(llvm_targets(&Platform::WatchOs).is_none());
    assert!(llvm_targets(&Platform::AppleTvOs).is_none());
    assert!(llvm_targets(&Platform::DriverKit).is_none());
}

#[test]
fn canonical_platform_is_the_desktop() {
    assert!(is_canonical_platform(&Platform::MacOsX));
    assert!(!is_canonical_platform(&Platform::IPhoneOs));
}

#[test]
fn parser_arguments_are_fixed_and_ordered() {
    let args = parser_arguments("x86_64-apple-macosx10.7.0", "/sdks/MacOSX.sdk");
    assert_eq!(
        args,
        vec![
            "-x".to_string(),
            "objective-c".to_string(),
            "--target=x86_64-apple-macosx10.7.0".to_string(),
            "-Wall".to_string(),
            "-Wextra".to_string(),
            "-fobjc-arc".to_string(),
            "-fobjc-arc-exceptions".to_string(),
            "-fobjc-abi-version=2".to_string(),
            "-fapinotes".to_string(),
            "-isysroot".to_string(),
            "/sdks/MacOSX.sdk".to_string(),
        ]
    );
}

#[test]
fn parse_options_retain_everything() {
    let o = parse_options();
    assert!(o.detailed_preprocessing_record);
    assert!(o.incomplete);
    assert!(o.skip_function_bodies);
    assert!(o.keep_going);
    assert!(o.include_attributed_types);
    assert!(o.visit_implicit_attributes);
    assert!(o.retain_excluded_conditional_blocks);
}

#[test]
fn entry_header_name() {
    assert_eq!(entry_header(), "framework-includes.h");
}

fn source(name: &str, is_dir: bool, outcome: LoadOutcome) -> ConfigSource {
    ConfigSource { name: name.to_string(), is_dir, outcome }
}

#[test]
fn load_configs_keeps_loaded_directories_only() {
    let entries = vec![
        source("Foo", true, LoadOutcome::Loaded(Config::new("rules-foo".to_string()))),
        source("Bar", true, LoadOutcome::NotFound),
        source("notes.txt", false, LoadOutcome::NotFound),
        source("Baz", true, LoadOutcome::Loaded(Config::new("rules-baz".to_string()))),
    ];
    let configs = load_configs(entries).expect("no failures");
    assert_eq!(configs.len(), 2);
    assert_eq!(configs.get("Foo").unwrap().raw, "rules-foo");
    assert!(configs.get("Bar").is_none());
    assert_eq!(configs.get("Baz").unwrap().raw, "rules-baz");
}

#[test]
fn load_configs_reports_the_first_failure() {
    let entries = vec![
        source("Foo", true, LoadOutcome::Loaded(Config::new(String::new()))),
        source("Bad", true, LoadOutcome::Failed("bad syntax".to_string())),
        source("Worse", true, LoadOutcome::Failed("also bad".to_string())),
    ];
    let err = load_configs(entries).expect_err("a failure");
    assert_eq!(err.name, "Bad");
    assert_eq!(err.message, "bad syntax");
}

#[test]
fn load_configs_ignores_failures_outside_directories() {
    let entries = vec![source("stray", false, LoadOutcome::Failed("ignored".to_string()))];
    let configs = load_configs(entries).expect("no directory failed");
    assert_eq!(configs.len(), 0);
}
