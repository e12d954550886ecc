use devapack::kebab::to_kebab_case;
use devapack::logger::{get_signature, LogLevel, Logger};
use devapack::manage::{analyze_manifest, format_addon_line};
use devapack::paths::{
    is_ignored_component, normalize_path, path_relative_to, resolve_relative_path, to_unix_string,
};

#[test]
fn backslashes_become_slashes() {
    assert_eq!(to_unix_string("a\\b\\c.wav"), "a/b/c.wav");
    assert_eq!(to_unix_string("a/b"), "a/b");
}

#[test]
fn ignored_components_are_exactly_the_known_set() {
    for n in ["node_modules", ".git", "target", "dist", "build", "out"] {
        assert!(is_ignored_component(n));
    }
    assert!(!is_ignored_component("audio"));
    assert!(!is_ignored_component("Target"));
}

#[test]
fn normalization_collapses_redundant_components() {
    assert_eq!(normalize_path("a//b/./c"), "a/b/c");
    assert_eq!(normalize_path("./a/b"), "./a/b");
    assert_eq!(normalize_path("/a//b/"), "/a/b");
    assert_eq!(normalize_path("a/../b"), "a/../b");
    assert_eq!(normalize_path("."), ".");
}

#[test]
fn relative_imports_resolve_against_the_base_directory() {
    assert_eq!(resolve_relative_path("src/main.deva", "lib/util.deva"), "src/lib/util.deva");
    assert_eq!(resolve_relative_path("main.deva", "util.deva"), "util.deva");
    assert_eq!(resolve_relative_path("a/b.deva", "/abs.deva"), "/abs.deva");
}

#[test]
fn relative_paths_strip_the_base_prefix() {
    assert_eq!(path_relative_to("root/audio/kick.wav", "root/audio"), Some("kick.wav".to_string()));
    assert_eq!(path_relative_to("root/audio/a/b.wav", "root/audio"), Some("a/b.wav".to_string()));
    assert_eq!(path_relative_to("other/kick.wav", "root"), None);
    assert_eq!(path_relative_to("rooted/kick.wav", "root"), None);
}

#[test]
fn stripping_is_component_wise() {
    // a path equal to its base leaves the empty remainder
    assert_eq!(path_relative_to("root/audio", "root/audio"), Some("".to_string()));
    // trailing and doubled separators do not count as components
    assert_eq!(path_relative_to("a/b", "a/"), Some("b".to_string()));
    assert_eq!(path_relative_to("a//b", "a"), Some("b".to_string()));
    assert_eq!(path_relative_to("anything", ""), Some("anything".to_string()));
}

#[test]
fn kebab_case_dashes_before_uppercase() {
    assert_eq!(to_kebab_case("FooBar"), "foo-bar");
    assert_eq!(to_kebab_case("already-kebab"), "already-kebab");
    assert_eq!(to_kebab_case("X"), "x");
}

#[test]
fn log_lines_carry_the_tag_and_status() {
    let logger = Logger::new();
    assert_eq!(
        logger.log_message(LogLevel::Success, "built"),
        "\u{2692}\u{fe0f}  [Devapack] [SUCCESS] built"
    );
    let traced = logger.log_message_with_trace(
        LogLevel::Info,
        "details:",
        &vec!["one".to_string(), "two".to_string()],
    );
    assert_eq!(
        traced,
        "\u{2692}\u{fe0f}  [Devapack] [INFO] details:\n     \u{21b3} one\n     \u{21b3} two"
    );
    assert_eq!(
        logger.log_error_with_stacktrace("boom", "at line 3"),
        "\u{2692}\u{fe0f}  [Devapack] [ERROR] boom\n     \u{21b3} at line 3"
    );
}

#[test]
fn banner_carries_the_version() {
    let b = get_signature("1.2.3");
    assert!(b.contains("v1.2.3"));
    assert!(b.contains("Devapack"));
}

#[test]
fn analysis_reads_identity_with_defaults() {
    let m = analyze_manifest("[bank]\nname = \"drums\"\npublisher = \"alice\"\n", "bank");
    assert_eq!(m.name, "drums");
    assert_eq!(m.publisher, "alice");
    assert_eq!(m.version, "unknown");
    assert_eq!(m.access, "public");
}

#[test]
fn listing_lines_are_formatted() {
    assert_eq!(
        format_addon_line("alice", "drums", "1.0.0", "public", "Booms."),
        "- alice.drums  v1.0.0  [public]  Booms."
    );
}
