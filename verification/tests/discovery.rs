use devapack::discover::{discover_triggers, disambiguate_name, merge_triggers, TriggerEntry};

fn trig(name: &str, path: &str) -> TriggerEntry {
    TriggerEntry { name: name.to_string(), path: path.to_string() }
}

fn pairs(v: &[TriggerEntry]) -> Vec<(String, String)> {
    v.iter().map(|t| (t.name.clone(), t.path.clone())).collect()
}

#[test]
fn discovery_keeps_audio_files_sorted_by_path() {
    let paths = vec![
        "kick.wav".to_string(),
        "hats/closed.ogg".to_string(),
        "notes.txt".to_string(),
        "loop.FLAC".to_string(),
    ];
    let out = discover_triggers(&paths);
    assert_eq!(
        pairs(&out),
        vec![
            ("closed".to_string(), "./hats/closed.ogg".to_string()),
            ("kick".to_string(), "./kick.wav".to_string()),
            ("loop".to_string(), "./loop.FLAC".to_string()),
        ]
    );
}

#[test]
fn discovery_twice_yields_the_identical_list() {
    let paths = vec!["b/two.wav".to_string(), "a/one.wav".to_string()];
    let first = discover_triggers(&paths);
    let second = discover_triggers(&paths);
    assert_eq!(pairs(&first), pairs(&second));
}

#[test]
fn hidden_files_have_no_extension() {
    let paths = vec![".wav".to_string(), "dir/.flac".to_string()];
    assert_eq!(discover_triggers(&paths).len(), 0);
}

#[test]
fn name_collision_prefers_directory_prefix() {
    // kick.wav then drums/kick.wav: the second gets drums.kick, not a number
    let discovered = vec![trig("kick", "./kick.wav"), trig("kick", "./drums/kick.wav")];
    let merged = merge_triggers(Vec::new(), discovered);
    assert_eq!(
        pairs(&merged),
        vec![
            ("drums.kick".to_string(), "./drums/kick.wav".to_string()),
            ("kick".to_string(), "./kick.wav".to_string()),
        ]
    );
}

#[test]
fn known_paths_keep_their_curated_names() {
    let existing = vec![trig("boom", "./kick.wav")];
    let discovered = vec![trig("kick", "./kick.wav")];
    let merged = merge_triggers(existing, discovered);
    assert_eq!(pairs(&merged), vec![("boom".to_string(), "./kick.wav".to_string())]);
}

#[test]
fn renamed_path_gets_a_fresh_name() {
    // the file moved: its curated name stays reserved, the new path gets a new name
    let existing = vec![trig("kick", "./old/kick.wav")];
    let discovered = vec![trig("kick", "./new_kick.wav")];
    let merged = merge_triggers(existing, discovered);
    assert_eq!(merged.len(), 1);
    assert_eq!(merged[0].path, "./new_kick.wav");
    assert_ne!(merged[0].name, "kick");
    assert_eq!(merged[0].name, "kick_2");
}

#[test]
fn merge_twice_is_identical() {
    let existing = vec![trig("boom", "./kick.wav")];
    let discovered = vec![trig("kick", "./kick.wav"), trig("kick", "./drums/kick.wav")];
    let once = merge_triggers(existing, discovered.clone());
    let twice = merge_triggers(once.clone(), discovered);
    assert_eq!(pairs(&once), pairs(&twice));
}

#[test]
fn numeric_suffixes_start_at_two_and_advance() {
    let mut used = vec!["kick".to_string(), "kick_2".to_string()];
    let fresh = disambiguate_name("kick", "./kick.wav", &mut used);
    assert_eq!(fresh, "kick_3");
    assert!(used.contains(&"kick_3".to_string()));
}

#[test]
fn nearest_directory_is_tried_first() {
    let mut used = vec!["kick".to_string(), "a.b.kick".to_string()];
    let fresh = disambiguate_name("kick", "./a/b/kick.wav", &mut used);
    assert_eq!(fresh, "b.kick");
}

#[test]
fn empty_base_goes_numeric() {
    let mut used = Vec::new();
    let fresh = disambiguate_name("", "flat", &mut used);
    assert_eq!(fresh, "_2");
}
