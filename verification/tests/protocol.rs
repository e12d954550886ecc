use devapack::client::{
    build_submission_form, extract_addon_id, format_error_body, next_stage,
    prepare_archive_attachment, signature_registration_fields, JsonNode, Stage, StepOutcome,
};
use devapack::exports::{scan_export_markers, select_exports, wasm_func_export_names};
use devapack::types::AddonSubmissionData;

fn obj(fields: Vec<(&str, JsonNode)>) -> JsonNode {
    JsonNode::Obj(fields.into_iter().map(|(k, v)| (k.to_string(), v)).collect())
}

fn s(v: &str) -> JsonNode {
    JsonNode::Str(v.to_string())
}

#[test]
fn addon_id_is_read_under_payload_first() {
    let n = obj(vec![("payload", obj(vec![("id", s("abc"))]))]);
    assert_eq!(extract_addon_id(&n).unwrap(), "abc");
}

#[test]
fn addon_id_aliases_are_accepted() {
    let n = obj(vec![("addon_id", JsonNode::Num("42".to_string()))]);
    assert_eq!(extract_addon_id(&n).unwrap(), "42");
    let n2 = obj(vec![("addonId", s("x-1"))]);
    assert_eq!(extract_addon_id(&n2).unwrap(), "x-1");
}

#[test]
fn missing_addon_id_is_an_error() {
    let n = obj(vec![("payload", obj(vec![("name", s("d"))]))]);
    assert_eq!(extract_addon_id(&n).unwrap_err(), "Addon ID not found in response payload");
}

#[test]
fn structured_errors_are_joined() {
    let n = obj(vec![
        ("message", s("rejected")),
        (
            "payload",
            obj(vec![(
                "errors",
                JsonNode::Arr(vec![
                    obj(vec![("code", s("E1")), ("message", s("too big"))]),
                    obj(vec![("message", s("no name"))]),
                ]),
            )]),
        ),
    ]);
    let out = format_error_body(&n, &"raw".to_string());
    assert_eq!(out, "rejected\n-> E1 : too big\n-> UNKNOWN : no name");
}

#[test]
fn unparsable_bodies_are_surfaced_verbatim() {
    let n = obj(vec![("unrelated", s("x"))]);
    assert_eq!(format_error_body(&n, &"the raw body".to_string()), "the raw body");
}

#[test]
fn submission_form_carries_metadata_and_files() {
    let data = AddonSubmissionData {
        id: None,
        name: "drums".to_string(),
        addon_type: "bank".to_string(),
        publisher: "alice".to_string(),
        path: "generated/banks/alice/drums".to_string(),
        version: "0.0.1".to_string(),
        access: "public".to_string(),
        files: Vec::new(),
    };
    let raw = b"raw archive".to_vec();
    let gz = devapack::builder::gzip_bytes(&raw).unwrap();
    let key = devapack::signer::generate_keypair_bytes().unwrap();
    let attach = prepare_archive_attachment(&raw, gz, &Some(key)).unwrap();
    assert_eq!(attach.sha_raw_hex.len(), 64);
    assert_eq!(attach.sha_gz_hex.len(), 64);
    assert!(attach.signature.is_some());
    let form = build_submission_form(&data, "tok", b"src".to_vec(), Some(attach));
    let names: Vec<&str> = form.fields.iter().map(|f| f.name.as_str()).collect();
    assert_eq!(
        names,
        vec![
            "name",
            "type",
            "publisher",
            "version",
            "access",
            "user_session",
            "signature",
            "signature_gzip",
            "public_key",
            "archive_sha256",
            "archive_gzip_sha256"
        ]
    );
    assert_eq!(form.fields[5].value, "tok");
    let files: Vec<&str> = form.files.iter().map(|f| f.file_name.as_str()).collect();
    assert_eq!(files, vec!["source.tar.gz", "archive.tar.gz"]);
}

#[test]
fn registration_fields_are_ordered() {
    let f = signature_registration_fields("sigb64", "pkb64", "deadbeef");
    let got: Vec<(&str, &str)> = f.iter().map(|x| (x.name.as_str(), x.value.as_str())).collect();
    assert_eq!(
        got,
        vec![("public_key", "pkb64"), ("signature", "sigb64"), ("archive_sha256", "deadbeef")]
    );
}

#[test]
fn pipeline_stages_run_in_order_and_abort_on_failure() {
    let s0 = Stage::Build;
    let s1 = next_stage(s0, StepOutcome::Success, true, true);
    assert!(s1 == Stage::Digest);
    let s2 = next_stage(s1, StepOutcome::Success, true, true);
    assert!(s2 == Stage::Sign);
    let s3 = next_stage(s2, StepOutcome::Success, true, true);
    assert!(s3 == Stage::Submit);
    let s4 = next_stage(s3, StepOutcome::Success, true, true);
    assert!(s4 == Stage::RegisterSignature);
    let s5 = next_stage(s4, StepOutcome::Success, true, true);
    assert!(s5 == Stage::Publish);
    let s6 = next_stage(s5, StepOutcome::Success, true, true);
    assert!(s6 == Stage::Done);
    // unsigned submissions skip registration; unconfirmed runs skip publish
    assert!(next_stage(Stage::Submit, StepOutcome::Success, false, false) == Stage::Done);
    assert!(next_stage(Stage::Submit, StepOutcome::Success, false, true) == Stage::Publish);
    // the first failure aborts everything
    assert!(next_stage(Stage::Digest, StepOutcome::Failure, true, true) == Stage::Failed);
}

#[test]
fn export_markers_are_scanned_with_variants() {
    let src = "export_plugin!(osc, body); export_plugin_ext!( filt , x); export_plugin_with_state!(env, s); export_plugins!(nope, x)";
    assert_eq!(scan_export_markers(src), vec!["osc", "filt", "env"]);
}

#[test]
fn marker_without_arguments_is_skipped() {
    assert_eq!(scan_export_markers("export_plugin!()").len(), 0);
    assert_eq!(scan_export_markers("fn export_plugin_thing() {}").len(), 0);
}

#[test]
fn export_selection_intersects_and_sorts() {
    let names = vec![
        "zeta".to_string(),
        "set_gain".to_string(),
        "alpha".to_string(),
        "set_gain".to_string(),
    ];
    let declared = vec!["alpha".to_string()];
    assert_eq!(select_exports(&names, &declared), vec!["alpha", "set_gain"]);
}

#[test]
fn empty_module_has_no_exports() {
    let empty_wasm = vec![0x00u8, 0x61, 0x73, 0x6d, 0x01, 0x00, 0x00, 0x00];
    assert!(wasm_func_export_names(&empty_wasm).is_empty());
}

#[test]
fn signing_summary_renders_the_known_fields() {
    let n = obj(vec![
        ("message", s("signed")),
        (
            "meta",
            obj(vec![
                ("signer", s("alice")),
                ("archive_name", s("alice.drums.tar.gz")),
                ("checksums", obj(vec![("sha256", s("deadbeef"))])),
                ("signature", obj(vec![("status", s("valid")), ("signed_at", s("today"))])),
            ]),
        ),
        ("warnings", JsonNode::Arr(vec![s("late upload")])),
    ]);
    let lines = devapack::client::print_addon_summary(&n, "/k/ed25519.key");
    assert_eq!(lines.len(), 8);
    assert!(lines[0].contains("Using key : /k/ed25519.key"));
    assert!(lines[1].contains("Message : signed"));
    assert!(lines[2].contains("Signer    : alice"));
    assert!(lines[3].contains("Archive"));
    assert!(lines[3].contains("Tarball : alice.drums.tar.gz"));
    assert!(lines[4].contains("SHA256 : deadbeef"));
    assert!(lines[5].contains("Status: valid"));
    assert!(lines[6].contains("Signed at: today"));
    assert!(lines[7].contains("Warnings"));
    assert!(lines[7].contains("late upload"));
}

#[test]
fn signing_summary_echoes_the_manifest() {
    let n = obj(vec![(
        "manifest",
        obj(vec![("name", s("drums")), ("version", s("1.0.0"))]),
    )]);
    let lines = devapack::client::print_addon_summary(&n, "k");
    assert_eq!(lines.len(), 2);
    assert!(lines[1].contains("Manifest (plugin.toml)"));
    assert!(lines[1].contains("name         : \"drums\""));
    assert!(lines[1].contains("version      : \"1.0.0\""));
}

#[test]
fn publisher_listing_is_parsed_with_defaults() {
    let n = obj(vec![(
        "payload",
        obj(vec![(
            "publishers",
            JsonNode::Arr(vec![
                obj(vec![
                    ("identifier", s("alice")),
                    ("display_name", s("Alice")),
                    ("tags", JsonNode::Arr(vec![s("drums"), JsonNode::Num("3".to_string()), s("lofi")])),
                ]),
                obj(vec![("display_name", s("no identifier, skipped"))]),
            ]),
        )]),
    )]);
    let pubs = devapack::client::extract_publishers(&n).unwrap();
    assert_eq!(pubs.len(), 1);
    assert_eq!(pubs[0].identifier, "alice");
    assert_eq!(pubs[0].display_name, "Alice");
    assert_eq!(pubs[0].description, "");
    assert_eq!(pubs[0].logo_url, Some("".to_string()));
    assert_eq!(pubs[0].tags, vec!["drums".to_string(), "lofi".to_string()]);
}

#[test]
fn publisher_listing_shape_errors_are_named() {
    let no_payload = obj(vec![("x", s("y"))]);
    assert_eq!(
        devapack::client::extract_publishers(&no_payload).unwrap_err(),
        "Payload field not found in response"
    );
    let no_publishers = obj(vec![("payload", obj(vec![("x", s("y"))]))]);
    assert_eq!(
        devapack::client::extract_publishers(&no_publishers).unwrap_err(),
        "Publishers field not found in response"
    );
    let not_array = obj(vec![("payload", obj(vec![("publishers", s("nope"))]))]);
    assert_eq!(
        devapack::client::extract_publishers(&not_array).unwrap_err(),
        "Publishers field is not an array"
    );
}
