use devapack::builder::{
    archive_file_name, bank_archive_members, build_archive, default_mit_license,
    default_readme_bank, gunzip_bytes, gzip_bytes, identity_present, plugin_archive_members,
    resync_bank_triggers, resync_plugin_exports,
};
use std::io::Read;

fn read_tar_gz(bytes: &[u8]) -> Vec<(String, Vec<u8>)> {
    let dec = flate2::read::GzDecoder::new(bytes);
    let mut ar = tar::Archive::new(dec);
    let mut out = Vec::new();
    for entry in ar.entries().unwrap() {
        let mut entry = entry.unwrap();
        let name = entry.path().unwrap().to_string_lossy().to_string();
        let mut data = Vec::new();
        entry.read_to_end(&mut data).unwrap();
        out.push((name, data));
    }
    out
}

#[test]
fn bank_archive_holds_exactly_the_expected_members() {
    let audio = vec![
        ("kick.wav".to_string(), vec![1u8, 2, 3]),
        ("hats/closed.wav".to_string(), vec![4u8]),
    ];
    let members = bank_archive_members(
        b"manifest".to_vec(),
        b"readme".to_vec(),
        b"license".to_vec(),
        audio,
    );
    let bytes = build_archive(&members).unwrap();
    let entries = read_tar_gz(&bytes);
    let names: Vec<&str> = entries.iter().map(|e| e.0.as_str()).collect();
    assert_eq!(
        names,
        vec!["bank.toml", "README.md", "LICENSE", "audio/kick.wav", "audio/hats/closed.wav"]
    );
    assert_eq!(entries[0].1, b"manifest");
    assert_eq!(entries[3].1, vec![1u8, 2, 3]);
}

#[test]
fn plugin_archive_holds_manifest_license_and_module() {
    let members = plugin_archive_members(
        b"m".to_vec(),
        b"l".to_vec(),
        &"synth.wasm".to_string(),
        vec![0u8, 97],
    );
    let bytes = build_archive(&members).unwrap();
    let entries = read_tar_gz(&bytes);
    let names: Vec<&str> = entries.iter().map(|e| e.0.as_str()).collect();
    assert_eq!(names, vec!["plugin.toml", "LICENSE", "synth.wasm"]);
}

#[test]
fn archive_name_is_publisher_dot_name() {
    assert_eq!(archive_file_name("alice", "drums"), "alice.drums.tar.gz");
}

#[test]
fn blank_identity_is_rejected() {
    assert!(identity_present("alice", "drums"));
    assert!(!identity_present("  ", "drums"));
    assert!(!identity_present("alice", ""));
}

#[test]
fn default_license_names_the_publisher() {
    let lic = default_mit_license("alice");
    assert!(lic.starts_with("MIT License\n\nCopyright (c) alice\n"));
}

#[test]
fn default_readme_uses_the_description_when_given() {
    let r = default_readme_bank("alice", "drums", &Some("Big booms.".to_string()));
    assert!(r.starts_with("# alice.drums Bank\n\nBig booms.\n"));
    let d = default_readme_bank("alice", "drums", &None);
    assert!(d.contains("Sample bank for Devalang."));
}

#[test]
fn gzip_round_trips() {
    let data = b"some raw archive bytes".to_vec();
    let gz = gzip_bytes(&data).unwrap();
    assert_ne!(gz, data);
    assert_eq!(gunzip_bytes(&gz).unwrap(), data);
}

#[test]
fn end_to_end_bank_build() {
    // bank alice.drums with audio/kick.wav and audio/hats/closed.wav
    let manifest = "[bank]\nname = \"drums\"\npublisher = \"alice\"\nversion = \"0.0.1\"\n";
    let paths = vec!["kick.wav".to_string(), "hats/closed.wav".to_string()];
    let (text, triggers) = resync_bank_triggers(manifest, &paths).unwrap();
    let got: Vec<(String, String)> =
        triggers.iter().map(|t| (t.name.clone(), t.path.clone())).collect();
    assert_eq!(
        got,
        vec![
            ("closed".to_string(), "./hats/closed.wav".to_string()),
            ("kick".to_string(), "./kick.wav".to_string()),
        ]
    );
    assert!(text.contains("name = \"kick\"\npath = \"./kick.wav\""));
    assert!(text.contains("name = \"closed\"\npath = \"./hats/closed.wav\""));
    assert_eq!(archive_file_name("alice", "drums"), "alice.drums.tar.gz");

    // building again with no changes yields byte-identical manifest text
    let (text2, _) = resync_bank_triggers(&text, &paths).unwrap();
    assert_eq!(text, text2);
}

#[test]
fn plugin_export_resync_regenerates_the_table() {
    // a minimal empty module has no exports
    let empty_wasm = vec![0x00u8, 0x61, 0x73, 0x6d, 0x01, 0x00, 0x00, 0x00];
    let manifest = "[plugin]\nname = \"synth\"\npublisher = \"alice\"\n\n[[exports]]\nname = \"stale\"\nkind = \"func\"\n";
    let declared = vec!["osc".to_string()];
    let (text, names) = resync_plugin_exports(manifest, &empty_wasm, &declared).unwrap();
    assert!(names.is_empty());
    assert_eq!(text, "[plugin]\nname = \"synth\"\npublisher = \"alice\"\n");
}

#[test]
fn member_names_that_cannot_fit_a_header_are_refused() {
    let long_name: String = std::iter::repeat('a').take(300).collect();
    let members = vec![devapack::builder::ArchiveMember { name: long_name, data: vec![1u8] }];
    assert!(build_archive(&members).is_err());
}

#[test]
fn absolute_member_names_are_refused() {
    let members = vec![devapack::builder::ArchiveMember {
        name: "/etc/x".to_string(),
        data: vec![1u8],
    }];
    assert!(build_archive(&members).is_err());
}

#[test]
fn scaffolded_manifests_carry_the_identity() {
    let bank = devapack::builder::scaffold_bank_manifest("drums", "alice", "Booms.", "audio/", "public");
    assert_eq!(
        bank,
        "[bank]\nname = \"drums\"\npublisher = \"alice\"\naudio_path = \"audio/\"\ndescription = \"Booms.\"\nversion = \"0.0.1\"\naccess = \"public\"\n"
    );
    let plugin = devapack::builder::scaffold_plugin_manifest("synth", "alice", "Waves.", "public");
    assert_eq!(
        plugin,
        "[plugin]\nname = \"synth\"\npublisher = \"alice\"\ndescription = \"Waves.\"\nversion = \"0.0.1\"\naccess = \"public\"\n\n[[exports]]\nname = \"process\"\nkind = \"func\"\n"
    );
    // a scaffolded manifest resynchronizes without touching its identity lines
    let (text, _) = resync_bank_triggers(&bank, &vec!["kick.wav".to_string()]).unwrap();
    assert!(text.starts_with("[bank]\nname = \"drums\"\npublisher = \"alice\""));
    assert!(text.contains("[[triggers]]\nname = \"kick\"\npath = \"./kick.wav\""));
}
