use devapack::manage::bump_manifest_version;
use devapack::patch::{
    parse_tables_in_manifest, read_scalar_in_manifest, replace_tables_in_manifest,
    set_scalar_in_manifest, write_version_in_bank_toml, write_version_in_plugin_toml,
};

const BANK: &str = "# my bank\n[bank]\nname = \"drums\"\npublisher = \"alice\"\nversion = \"1.2.3\"\n\n[other]\nkey = \"v\"\n";

#[test]
fn version_replace_keeps_every_other_byte() {
    let out = write_version_in_bank_toml(BANK, "1.3.0").unwrap();
    assert_eq!(
        out,
        "# my bank\n[bank]\nname = \"drums\"\npublisher = \"alice\"\nversion = \"1.3.0\"\n\n[other]\nkey = \"v\"\n"
    );
}

#[test]
fn version_reparses_to_exactly_what_was_written() {
    let out = write_version_in_bank_toml(BANK, "9.9.9").unwrap();
    let v = read_scalar_in_manifest(&out, "bank", "version").unwrap();
    assert_eq!(v, "9.9.9");
}

#[test]
fn version_insert_goes_before_first_blank_line() {
    let src = "[bank]\nname = \"x\"\npublisher = \"p\"\n\n[other]\nk = \"v\"\n";
    let out = write_version_in_bank_toml(src, "0.1.0").unwrap();
    assert_eq!(
        out,
        "[bank]\nname = \"x\"\npublisher = \"p\"\nversion = \"0.1.0\"\n\n[other]\nk = \"v\"\n"
    );
}

#[test]
fn version_replace_preserves_indentation() {
    let src = "[bank]\n  version = \"0.0.1\"\n";
    let out = write_version_in_bank_toml(src, "0.0.2").unwrap();
    assert_eq!(out, "[bank]\n  version = \"0.0.2\"\n");
}

#[test]
fn missing_section_is_fatal() {
    let err = write_version_in_bank_toml("[plugin]\nname = \"x\"\n", "1.0.0").unwrap_err();
    assert_eq!(err, "[bank] section not found");
}

#[test]
fn plugin_version_editor_targets_plugin_section() {
    let src = "[plugin]\nname = \"synth\"\nversion = \"0.1.0\"\n";
    let out = write_version_in_plugin_toml(src, "0.2.0").unwrap();
    assert_eq!(out, "[plugin]\nname = \"synth\"\nversion = \"0.2.0\"\n");
}

#[test]
fn scalar_editor_adds_trailing_newline() {
    let src = "[bank]\nname = \"x\"";
    let out = set_scalar_in_manifest(src, "bank", "version", "1.0.0").unwrap();
    assert_eq!(out, "[bank]\nname = \"x\"\nversion = \"1.0.0\"\n");
}

#[test]
fn tables_are_replaced_and_parse_back() {
    let src = "[bank]\nname = \"b\"\n\n[[triggers]]\nname = \"old\"\npath = \"./gone.wav\"\n";
    let recs = vec![
        ("kick".to_string(), "./kick.wav".to_string()),
        ("snare".to_string(), "./snare.wav".to_string()),
    ];
    let out = replace_tables_in_manifest(src, "bank", "triggers", "name", "path", &recs).unwrap();
    assert_eq!(
        out,
        "[bank]\nname = \"b\"\n\n[[triggers]]\nname = \"kick\"\npath = \"./kick.wav\"\n\n[[triggers]]\nname = \"snare\"\npath = \"./snare.wav\"\n"
    );
    let back = parse_tables_in_manifest(&out, "triggers", "name", "path");
    assert_eq!(back, recs);
}

#[test]
fn empty_record_list_emits_no_table() {
    let src = "[bank]\nname = \"b\"\n\n[[triggers]]\nname = \"old\"\npath = \"./gone.wav\"\n";
    let out =
        replace_tables_in_manifest(src, "bank", "triggers", "name", "path", &Vec::new()).unwrap();
    assert_eq!(out, "[bank]\nname = \"b\"\n");
}

#[test]
fn table_replacement_is_idempotent() {
    let src = "[bank]\nname = \"b\"\npublisher = \"p\"\n\n[settings]\nloud = \"yes\"\n";
    let recs = vec![("kick".to_string(), "./kick.wav".to_string())];
    let once = replace_tables_in_manifest(src, "bank", "triggers", "name", "path", &recs).unwrap();
    let twice =
        replace_tables_in_manifest(&once, "bank", "triggers", "name", "path", &recs).unwrap();
    assert_eq!(once, twice);
}

#[test]
fn bump_rewrites_only_the_version_line() {
    let (cur, next, out) = bump_manifest_version(BANK, "bank", "minor").unwrap();
    assert_eq!(cur, "1.2.3");
    assert_eq!(next, "1.3.0");
    assert!(out.contains("version = \"1.3.0\""));
    assert!(out.contains("# my bank"));
}

#[test]
fn bump_defaults_missing_version() {
    let src = "[bank]\nname = \"x\"\n";
    let (cur, next, _) = bump_manifest_version(src, "bank", "patch").unwrap();
    assert_eq!(cur, "0.0.1");
    assert_eq!(next, "0.0.2");
}

#[test]
fn unknown_bump_token_leaves_manifest_alone() {
    let err = bump_manifest_version(BANK, "bank", "huge").unwrap_err();
    assert_eq!(err, "Unknown bump type: huge (expected: major|minor|patch)");
}

#[test]
fn comments_survive_table_replacement() {
    let src = "# heading\n[bank]\nname = \"b\"\n# trailing comment in bank\n\n[[triggers]]\nname = \"a\"\npath = \"./a.wav\"\n";
    let recs = vec![("a".to_string(), "./a.wav".to_string())];
    let out = replace_tables_in_manifest(src, "bank", "triggers", "name", "path", &recs).unwrap();
    assert!(out.starts_with("# heading\n[bank]\nname = \"b\"\n# trailing comment in bank\n"));
}

#[test]
fn bump_with_valid_token_but_no_section_names_the_section() {
    let err = bump_manifest_version("[other]\nk = \"v\"\n", "bank", "patch").unwrap_err();
    assert_eq!(err, "[bank] section not found");
}
