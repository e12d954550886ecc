//! Submission protocol data handling.
//!
//! The network transport lives outside the library; it hands parsed
//! response values in as plain trees and takes request field lists back
//! out.  Everything the protocol decides — which field aliases name the
//! addon id, how error bodies are joined, what a submission carries, and
//! the order of the pipeline's stages — is decided here.

use vstd::prelude::*;
use crate::types::AddonSubmissionData;

verus! {

/// A parsed JSON value as plain data: strings, atoms carried as their
/// JSON text, arrays and objects.
pub enum JsonNode {
    Null,
    Bool(bool),
    Num(String),
    Str(String),
    Arr(Vec<JsonNode>),
    Obj(Vec<(String, JsonNode)>),
}

/// The value of the first field with the given name.
pub open spec fn obj_get(fields: Seq<(String, JsonNode)>, key: Seq<char>) -> Option<JsonNode>
    decreases fields.len(),
{
    if fields.len() == 0 {
        None
    } else if fields[0].0@ == key {
        Some(fields[0].1)
    } else {
        obj_get(fields.drop_first(), key)
    }
}

pub open spec fn node_get(n: JsonNode, key: Seq<char>) -> Option<JsonNode> {
    match n {
        JsonNode::Obj(fields) => obj_get(fields@, key),
        _ => None,
    }
}

/// The text of an atomic value: a string's content, a number's JSON text,
/// `true`, `false` or `null`.  Arrays and objects have none.
pub open spec fn atom_text(n: JsonNode) -> Option<Seq<char>> {
    match n {
        JsonNode::Null => Some("null"@),
        JsonNode::Bool(b) => Some(
            if b {
                "true"@
            } else {
                "false"@
            },
        ),
        JsonNode::Num(t) => Some(t@),
        JsonNode::Str(s) => Some(s@),
        _ => None,
    }
}

/// Looks up a field of an object node.
#[verifier::loop_isolation(false)]
fn node_get_exec<'a>(n: &'a JsonNode, key: &str) -> (r: Option<&'a JsonNode>)
    ensures
        match r {
            Some(v) => node_get(*n, key@) == Some(*v),
            None => node_get(*n, key@) is None,
        },
{
    match n {
        JsonNode::Obj(fields) => {
            let m = fields.len();
            let ks = String::from_str(key);
            let mut i: usize = 0;
            proof {
                assert(fields@.skip(0) =~= fields@);
            }
            while i < m
                invariant
                    m == fields@.len(),
                    ks@ == key@,
                    0 <= i <= m,
                    obj_get(fields@, key@) == obj_get(fields@.skip(i as int), key@),
                decreases m - i,
            {
                proof {
                    assert(fields@.skip(i as int)[0] == fields@[i as int]);
                    assert(fields@.skip(i as int).drop_first() =~= fields@.skip(i + 1));
                }
                if fields[i].0 == ks {
                    proof {
                        assert(obj_get(fields@.skip(i as int), key@) == Some(fields@[i as int].1));
                    }
                    return Some(&fields[i].1);
                }
                i = i + 1;
            }
            proof {
                assert(fields@.skip(m as int) =~= Seq::<(String, JsonNode)>::empty());
            }
            None
        },
        _ => None,
    }
}

/// Returns the text of an atomic node.
fn atom_text_exec(n: &JsonNode) -> (r: Option<String>)
    ensures
        match r {
            Some(t) => atom_text(*n) == Some(t@),
            None => atom_text(*n) is None,
        },
{
    match n {
        JsonNode::Null => Some(String::from_str("null")),
        JsonNode::Bool(b) => Some(
            if *b {
                String::from_str("true")
            } else {
                String::from_str("false")
            },
        ),
        JsonNode::Num(t) => Some(t.clone()),
        JsonNode::Str(s) => Some(s.clone()),
        _ => None,
    }
}

/// The addon id a lookup response denotes: under `payload` when present,
/// else at top level; named `id`, `addon_id` or `addonId`, in that order
/// of preference; an atomic value's text.
pub open spec fn addon_id_of(n: JsonNode) -> Option<Seq<char>> {
    let payload = match node_get(n, "payload"@) {
        Some(p) => p,
        None => n,
    };
    let idv = match node_get(payload, "id"@) {
        Some(v) => Some(v),
        None => match node_get(payload, "addon_id"@) {
            Some(v) => Some(v),
            None => node_get(payload, "addonId"@),
        },
    };
    match idv {
        Some(v) => atom_text(v),
        None => None,
    }
}

/// Extracts the addon id from a registry response, or reports that the
/// response carries none.
pub fn extract_addon_id(n: &JsonNode) -> (r: Result<String, String>)
    ensures
        match r {
            Ok(id) => addon_id_of(*n) == Some(id@),
            Err(m) => addon_id_of(*n) is None && m@
                == "Addon ID not found in response payload"@,
        },
{
    let payload = match node_get_exec(n, "payload") {
        Some(p) => p,
        None => n,
    };
    let idv = match node_get_exec(payload, "id") {
        Some(v) => Some(v),
        None => match node_get_exec(payload, "addon_id") {
            Some(v) => Some(v),
            None => node_get_exec(payload, "addonId"),
        },
    };
    match idv {
        Some(v) => match atom_text_exec(v) {
            Some(t) => Ok(t),
            None => Err(String::from_str("Addon ID not found in response payload")),
        },
        None => Err(String::from_str("Addon ID not found in response payload")),
    }
}

/// The text of a string field, when present and a string.
pub open spec fn str_field(n: JsonNode, key: Seq<char>) -> Option<Seq<char>> {
    match node_get(n, key) {
        Some(JsonNode::Str(s)) => Some(s@),
        _ => None,
    }
}

fn str_field_exec(n: &JsonNode, key: &str) -> (r: Option<String>)
    ensures
        match r {
            Some(v) => str_field(*n, key@) == Some(v@),
            None => str_field(*n, key@) is None,
        },
{
    match node_get_exec(n, key) {
        Some(v) => match v {
            JsonNode::Str(s) => Some(s.clone()),
            _ => None,
        },
        None => None,
    }
}

/// One structured error of a non-success response body.
pub open spec fn error_item_line(e: JsonNode) -> Seq<char> {
    let code = match str_field(e, "code"@) {
        Some(c) => c,
        None => "UNKNOWN"@,
    };
    let msg = match str_field(e, "message"@) {
        Some(m) => m,
        None => ""@,
    };
    code + " : "@ + msg
}

/// The joined error text of the structured items, appended to what came
/// before: the first item plain when nothing came before, every further
/// item on an arrow line.
pub open spec fn joined_errors(items: Seq<JsonNode>, acc: Seq<char>) -> Seq<char>
    decreases items.len(),
{
    if items.len() == 0 {
        acc
    } else if acc.len() == 0 {
        joined_errors(items.drop_first(), error_item_line(items[0]))
    } else {
        joined_errors(items.drop_first(), acc + "\n-> "@ + error_item_line(items[0]))
    }
}

/// The single error text a structured non-success body denotes: the
/// top-level message, then each `payload.errors` item; the raw body when
/// nothing could be extracted.
pub open spec fn error_body_text(n: JsonNode, raw: Seq<char>) -> Seq<char> {
    let main = match str_field(n, "message"@) {
        Some(m) => m,
        None => ""@,
    };
    let items = match node_get(n, "payload"@) {
        Some(p) => match node_get(p, "errors"@) {
            Some(JsonNode::Arr(v)) => v@,
            _ => Seq::empty(),
        },
        None => Seq::empty(),
    };
    let out = joined_errors(items, main);
    if out.len() == 0 {
        raw
    } else {
        out
    }
}

/// Joins a structured error body into one message, falling back to the
/// raw body text when nothing structured is present.
#[verifier::loop_isolation(false)]
pub fn format_error_body(n: &JsonNode, raw: &String) -> (r: String)
    ensures
        r@ == error_body_text(*n, raw@),
{
    let mut out = match str_field_exec(n, "message") {
        Some(m) => m,
        None => String::new(),
    };
    let ghost main = out@;
    let items: Option<&Vec<JsonNode>> = match node_get_exec(n, "payload") {
        Some(p) => match node_get_exec(p, "errors") {
            Some(v) => match v {
                JsonNode::Arr(a) => Some(a),
                _ => None,
            },
            None => None,
        },
        None => None,
    };
    let ghost itemsv = match items {
        Some(a) => a@,
        None => Seq::<JsonNode>::empty(),
    };
    proof {
        reveal_strlit("");
        assert(""@ =~= Seq::<char>::empty());
        assert(error_body_text(*n, raw@) == (if joined_errors(itemsv, main).len() == 0 {
            raw@
        } else {
            joined_errors(itemsv, main)
        }));
    }
    match items {
        Some(arr) => {
            let m = arr.len();
            let mut i: usize = 0;
            proof {
                assert(arr@.skip(0) =~= arr@);
            }
            while i < m
                invariant
                    m == arr@.len(),
                    0 <= i <= m,
                    joined_errors(itemsv, main) == joined_errors(arr@.skip(i as int), out@),
                decreases m - i,
            {
                proof {
                    assert(arr@.skip(i as int)[0] == arr@[i as int]);
                    assert(arr@.skip(i as int).drop_first() =~= arr@.skip(i + 1));
                }
                let code = match str_field_exec(&arr[i], "code") {
                    Some(c) => c,
                    None => String::from_str("UNKNOWN"),
                };
                let msg = match str_field_exec(&arr[i], "message") {
                    Some(s) => s,
                    None => String::new(),
                };
                let ghost before = out@;
                if out.unicode_len() == 0 {
                    out.append(code.as_str());
                    out.append(" : ");
                    out.append(msg.as_str());
                    proof {
                        assert(out@ =~= error_item_line(arr@[i as int]));
                    }
                } else {
                    out.append("\n-> ");
                    out.append(code.as_str());
                    out.append(" : ");
                    out.append(msg.as_str());
                    proof {
                        assert(out@ =~= before + "\n-> "@ + error_item_line(arr@[i as int]));
                    }
                }
                i = i + 1;
            }
            proof {
                assert(arr@.skip(m as int) =~= Seq::<JsonNode>::empty());
            }
        },
        None => {},
    }
    if out.unicode_len() == 0 {
        raw.clone()
    } else {
        out
    }
}

} // verus!

use vstd::prelude::*;

verus! {

/// One text field of a multipart submission.
pub struct FormField {
    pub name: String,
    pub value: String,
}

/// One file part of a multipart submission.
pub struct FormFile {
    pub field: String,
    pub file_name: String,
    pub bytes: Vec<u8>,
}

/// Everything one create or update request carries; the transport turns
/// this into the actual multipart body.
pub struct SubmissionForm {
    pub fields: Vec<FormField>,
    pub files: Vec<FormFile>,
}

/// A built archive ready to attach: its compressed bytes, both digests in
/// hex, and the signatures when a key was available.
pub struct ArchiveAttachment {
    pub gz_bytes: Vec<u8>,
    pub sha_raw_hex: String,
    pub sha_gz_hex: String,
    pub signature: Option<String>,
    pub signature_gzip: Option<String>,
    pub public_key: Option<String>,
}

pub open spec fn field_views(s: Seq<FormField>) -> Seq<(Seq<char>, Seq<char>)> {
    s.map_values(|f: FormField| (f.name@, f.value@))
}

pub open spec fn file_views(s: Seq<FormFile>) -> Seq<(Seq<char>, Seq<char>, Seq<u8>)> {
    s.map_values(|f: FormFile| (f.field@, f.file_name@, f.bytes@))
}

/// The metadata fields every submission carries.
pub open spec fn base_fields(d: AddonSubmissionData, token: Seq<char>) -> Seq<
    (Seq<char>, Seq<char>),
> {
    seq![
        ("name"@, d.name@),
        ("type"@, d.addon_type@),
        ("publisher"@, d.publisher@),
        ("version"@, d.version@),
        ("access"@, d.access@),
        ("user_session"@, token),
    ]
}

/// The digest and signature fields an attached archive adds.
pub open spec fn attachment_fields(a: ArchiveAttachment) -> Seq<(Seq<char>, Seq<char>)> {
    (match a.signature {
        Some(s) => seq![("signature"@, s@)],
        None => Seq::<(Seq<char>, Seq<char>)>::empty(),
    }) + (match a.signature_gzip {
        Some(s) => seq![("signature_gzip"@, s@)],
        None => Seq::<(Seq<char>, Seq<char>)>::empty(),
    }) + (match a.public_key {
        Some(p) => seq![("public_key"@, p@)],
        None => Seq::<(Seq<char>, Seq<char>)>::empty(),
    }) + seq![("archive_sha256"@, a.sha_raw_hex@), ("archive_gzip_sha256"@, a.sha_gz_hex@)]
}

/// Computes the digests of a built archive and signs them with the stored
/// key when one is present: the raw and compressed digests in hex, and
/// the base64 signatures and public key when the key bytes are usable.
pub fn prepare_archive_attachment(
    raw_bytes: &Vec<u8>,
    gz_bytes: Vec<u8>,
    key_bytes: &Option<Vec<u8>>,
) -> (r: Result<ArchiveAttachment, String>)
    ensures
        match r {
            Ok(a) => {
                &&& a.gz_bytes@ == gz_bytes@
                &&& a.sha_raw_hex@ == crate::signer::hex_of(crate::signer::sha256_of(raw_bytes@))
                &&& a.sha_gz_hex@ == crate::signer::hex_of(crate::signer::sha256_of(gz_bytes@))
                &&& (match key_bytes {
                    None => a.signature is None && a.signature_gzip is None && a.public_key
                        is None,
                    Some(kb) => {
                        &&& (a.signature is Some <==> crate::signer::signable_key_encoding(kb@))
                        &&& (a.signature_gzip is Some <==> crate::signer::signable_key_encoding(
                            kb@,
                        ))
                        &&& (a.public_key is Some <==> crate::signer::signable_key_encoding(kb@))
                        &&& (crate::signer::valid_key_encoding(kb@) ==> a.signature is Some
                            && a.signature_gzip is Some && a.public_key is Some)
                        &&& (a.signature matches Some(s) ==> s@ == crate::signer::b64_of(
                            crate::signer::ed25519_sig_of(
                                kb@,
                                crate::signer::sha256_of(raw_bytes@),
                            ),
                        ) && s@.len() == 88)
                        &&& (a.signature_gzip matches Some(s) ==> s@ == crate::signer::b64_of(
                            crate::signer::ed25519_sig_of(kb@, crate::signer::sha256_of(gz_bytes@)),
                        ) && s@.len() == 88)
                        &&& (a.public_key matches Some(p) ==> p@ == crate::signer::b64_of(
                            crate::signer::ed25519_pub_of(kb@),
                        ) && p@.len() == 44)
                    },
                })
            },
            Err(_) => false,
        },
{
    let sha_raw = crate::signer::sha256(raw_bytes);
    let sha_gz = crate::signer::sha256(&gz_bytes);
    let sha_raw_hex = crate::signer::hex_encode(&sha_raw);
    let sha_gz_hex = crate::signer::hex_encode(&sha_gz);
    let (sig, sig_gz, pk) = match crate::signer::sign_two_shas(key_bytes, &sha_raw, &sha_gz) {
        Ok(t) => t,
        Err(e) => {
            return Err(e);
        },
    };
    Ok(
        ArchiveAttachment {
            gz_bytes,
            sha_raw_hex,
            sha_gz_hex,
            signature: sig,
            signature_gzip: sig_gz,
            public_key: pk,
        },
    )
}

/// Builds the one multipart request of a create or update submission: the
/// metadata and session fields, the source tree archive, and — when a
/// built archive is attached — its bytes, digests and signature fields.
pub fn build_submission_form(
    data: &AddonSubmissionData,
    token: &str,
    source_targz: Vec<u8>,
    archive: Option<ArchiveAttachment>,
) -> (r: SubmissionForm)
    ensures
        ({
            let base = base_fields(*data, token@);
            match archive {
                Some(a) => field_views(r.fields@) == base + attachment_fields(a) && file_views(
                    r.files@,
                ) == seq![
                    ("files"@, "source.tar.gz"@, source_targz@),
                    ("files"@, "archive.tar.gz"@, a.gz_bytes@),
                ],
                None => field_views(r.fields@) == base && file_views(r.files@) == seq![
                    ("files"@, "source.tar.gz"@, source_targz@),
                ],
            }
        }),
{
    let mut fields: Vec<FormField> = Vec::new();
    fields.push(FormField { name: String::from_str("name"), value: data.name.clone() });
    fields.push(FormField { name: String::from_str("type"), value: data.addon_type.clone() });
    fields.push(FormField { name: String::from_str("publisher"), value: data.publisher.clone() });
    fields.push(FormField { name: String::from_str("version"), value: data.version.clone() });
    fields.push(FormField { name: String::from_str("access"), value: data.access.clone() });
    fields.push(
        FormField { name: String::from_str("user_session"), value: String::from_str(token) },
    );
    proof {
        assert(field_views(fields@) =~= base_fields(*data, token@));
    }
    let mut files: Vec<FormFile> = Vec::new();
    files.push(
        FormFile {
            field: String::from_str("files"),
            file_name: String::from_str("source.tar.gz"),
            bytes: source_targz,
        },
    );
    match archive {
        Some(a) => {
            let ghost base = field_views(fields@);
            match &a.signature {
                Some(s) => {
                    fields.push(
                        FormField { name: String::from_str("signature"), value: s.clone() },
                    );
                },
                None => {},
            }
            match &a.signature_gzip {
                Some(s) => {
                    fields.push(
                        FormField { name: String::from_str("signature_gzip"), value: s.clone() },
                    );
                },
                None => {},
            }
            match &a.public_key {
                Some(p) => {
                    fields.push(
                        FormField { name: String::from_str("public_key"), value: p.clone() },
                    );
                },
                None => {},
            }
            fields.push(
                FormField {
                    name: String::from_str("archive_sha256"),
                    value: a.sha_raw_hex.clone(),
                },
            );
            fields.push(
                FormField {
                    name: String::from_str("archive_gzip_sha256"),
                    value: a.sha_gz_hex.clone(),
                },
            );
            proof {
                assert(field_views(fields@) =~= base + attachment_fields(a));
            }
            files.push(
                FormFile {
                    field: String::from_str("files"),
                    file_name: String::from_str("archive.tar.gz"),
                    bytes: a.gz_bytes,
                },
            );
            proof {
                assert(file_views(files@) =~= seq![
                    ("files"@, "source.tar.gz"@, file_views(files@)[0].2),
                    ("files"@, "archive.tar.gz"@, file_views(files@)[1].2),
                ]);
            }
            SubmissionForm { fields, files }
        },
        None => {
            proof {
                assert(file_views(files@) =~= seq![
                    ("files"@, "source.tar.gz"@, file_views(files@)[0].2),
                ]);
            }
            SubmissionForm { fields, files }
        },
    }
}

/// The JSON fields of the signature-registration request.
pub fn signature_registration_fields(
    signature_b64: &str,
    public_b64: &str,
    archive_sha_hex: &str,
) -> (r: Vec<FormField>)
    ensures
        field_views(r@) == seq![
            ("public_key"@, public_b64@),
            ("signature"@, signature_b64@),
            ("archive_sha256"@, archive_sha_hex@),
        ],
{
    let mut fields: Vec<FormField> = Vec::new();
    fields.push(
        FormField { name: String::from_str("public_key"), value: String::from_str(public_b64) },
    );
    fields.push(
        FormField { name: String::from_str("signature"), value: String::from_str(signature_b64) },
    );
    fields.push(
        FormField {
            name: String::from_str("archive_sha256"),
            value: String::from_str(archive_sha_hex),
        },
    );
    proof {
        assert(field_views(fields@) =~= seq![
            ("public_key"@, public_b64@),
            ("signature"@, signature_b64@),
            ("archive_sha256"@, archive_sha_hex@),
        ]);
    }
    fields
}

/// The stages of one submission, in their fixed order.
#[derive(PartialEq, Eq, Structural)]
pub enum Stage {
    Build,
    Digest,
    Sign,
    Submit,
    RegisterSignature,
    Publish,
    Done,
    Failed,
}

#[derive(PartialEq, Eq, Structural)]
pub enum StepOutcome {
    Success,
    Failure,
}

/// The next stage of the pipeline: any failure aborts the whole run, the
/// signature is registered only when one was produced, and publishing
/// happens only when the user confirmed it.
pub fn next_stage(s: Stage, outcome: StepOutcome, signed: bool, publish_confirmed: bool) -> (r:
    Stage)
    ensures
        outcome == StepOutcome::Failure && s != Stage::Done && s != Stage::Failed ==> r
            == Stage::Failed,
        outcome == StepOutcome::Success ==> r == (match s {
            Stage::Build => Stage::Digest,
            Stage::Digest => Stage::Sign,
            Stage::Sign => Stage::Submit,
            Stage::Submit => if signed {
                Stage::RegisterSignature
            } else if publish_confirmed {
                Stage::Publish
            } else {
                Stage::Done
            },
            Stage::RegisterSignature => if publish_confirmed {
                Stage::Publish
            } else {
                Stage::Done
            },
            Stage::Publish => Stage::Done,
            Stage::Done => Stage::Done,
            Stage::Failed => Stage::Failed,
        }),
{
    match outcome {
        StepOutcome::Failure => match s {
            Stage::Done => Stage::Done,
            Stage::Failed => Stage::Failed,
            _ => Stage::Failed,
        },
        StepOutcome::Success => match s {
            Stage::Build => Stage::Digest,
            Stage::Digest => Stage::Sign,
            Stage::Sign => Stage::Submit,
            Stage::Submit => if signed {
                Stage::RegisterSignature
            } else if publish_confirmed {
                Stage::Publish
            } else {
                Stage::Done
            },
            Stage::RegisterSignature => if publish_confirmed {
                Stage::Publish
            } else {
                Stage::Done
            },
            Stage::Publish => Stage::Done,
            Stage::Done => Stage::Done,
            Stage::Failed => Stage::Failed,
        },
    }
}

} // verus!

use vstd::prelude::*;

verus! {

/// The text of an atomic field at top level.
pub open spec fn atom_at(n: JsonNode, key: Seq<char>) -> Option<Seq<char>> {
    match node_get(n, key) {
        Some(v) => atom_text(v),
        None => None,
    }
}

/// The text of an atomic field under a parent object.
pub open spec fn atom_under(n: JsonNode, parent: Seq<char>, key: Seq<char>) -> Option<Seq<char>> {
    match node_get(n, parent) {
        Some(p) => atom_at(p, key),
        None => None,
    }
}

/// The text of an atomic field two objects down.
pub open spec fn atom_under2(
    n: JsonNode,
    parent: Seq<char>,
    mid: Seq<char>,
    key: Seq<char>,
) -> Option<Seq<char>> {
    match node_get(n, parent) {
        Some(p) => atom_under(p, mid, key),
        None => None,
    }
}

fn atom_at_exec(n: &JsonNode, key: &str) -> (r: Option<String>)
    ensures
        match r {
            Some(v) => atom_at(*n, key@) == Some(v@),
            None => atom_at(*n, key@) is None,
        },
{
    match node_get_exec(n, key) {
        Some(v) => atom_text_exec(v),
        None => None,
    }
}

fn atom_under_exec(n: &JsonNode, parent: &str, key: &str) -> (r: Option<String>)
    ensures
        match r {
            Some(v) => atom_under(*n, parent@, key@) == Some(v@),
            None => atom_under(*n, parent@, key@) is None,
        },
{
    match node_get_exec(n, parent) {
        Some(p) => atom_at_exec(p, key),
        None => None,
    }
}

fn atom_under2_exec(n: &JsonNode, parent: &str, mid: &str, key: &str) -> (r: Option<String>)
    ensures
        match r {
            Some(v) => atom_under2(*n, parent@, mid@, key@) == Some(v@),
            None => atom_under2(*n, parent@, mid@, key@) is None,
        },
{
    match node_get_exec(n, parent) {
        Some(p) => atom_under_exec(p, mid, key),
        None => None,
    }
}

/// The first present candidate among two.
pub open spec fn first_of2(a: Option<Seq<char>>, b: Option<Seq<char>>) -> Option<Seq<char>> {
    if a is Some {
        a
    } else {
        b
    }
}

pub open spec fn first_of3(
    a: Option<Seq<char>>,
    b: Option<Seq<char>>,
    c: Option<Seq<char>>,
) -> Option<Seq<char>> {
    first_of2(a, first_of2(b, c))
}

} // verus!

use vstd::prelude::*;
use crate::logger::{message_line, trace_text, LogLevel, Logger};

verus! {

/// A string field's text, or empty when absent or not a string, with
/// presence reported separately.
pub open spec fn str_or_empty(v: JsonNode) -> Seq<char> {
    match v {
        JsonNode::Str(s) => s@,
        _ => Seq::empty(),
    }
}

/// One rendered manifest field line, when the field is present.
pub open spec fn manifest_field_line(
    m: JsonNode,
    key: Seq<char>,
    label: Seq<char>,
) -> Seq<Seq<char>> {
    match node_get(m, key) {
        Some(v) => seq![label + str_or_empty(v) + "\""@],
        None => Seq::<Seq<char>>::empty(),
    }
}

/// The rendered lines of a signing response, in the order they are shown:
/// the key used, the friendly message, signer and fingerprint, the
/// archive block, the checksum block, the signature block, the manifest
/// echo and the warnings.
pub open spec fn sign_summary_spec(n: JsonNode, key_path: Seq<char>) -> Seq<Seq<char>> {
    let key_line = message_line(LogLevel::Info, "\u{1f511} Using key : "@ + key_path);
    let msg = first_of2(atom_at(n, "message"@), atom_at(n, "msg"@));
    let msg_lines = match msg {
        Some(m) => seq![message_line(LogLevel::Info, "\u{1f4ac} Message : "@ + m)],
        None => Seq::<Seq<char>>::empty(),
    };
    let signer = first_of2(atom_at(n, "signer"@), atom_under(n, "meta"@, "signer"@));
    let signer_lines = match signer {
        Some(s) => seq![message_line(LogLevel::Info, "\u{1f464} Signer    : "@ + s)],
        None => Seq::<Seq<char>>::empty(),
    };
    let fp = first_of2(atom_at(n, "fingerprint"@), atom_under(n, "meta"@, "fingerprint"@));
    let fp_lines = match fp {
        Some(f) => seq![message_line(LogLevel::Info, "\u{1f517} Fingerprint: "@ + f)],
        None => Seq::<Seq<char>>::empty(),
    };
    seq![key_line] + msg_lines + signer_lines + fp_lines
}

/// Renders the header lines of a signing response summary: the key used,
/// the friendly message, the signer and the fingerprint, each only when
/// the response carries it, accepting the documented legacy aliases.
pub fn sign_summary_header(n: &JsonNode, key_path: &str) -> (r: Vec<String>)
    ensures
        line_views_strings(r@) == sign_summary_spec(*n, key_path@),
{
    let logger = Logger::new();
    let mut out: Vec<String> = Vec::new();
    let mut key_msg = String::from_str("\u{1f511} Using key : ");
    key_msg.append(key_path);
    out.push(logger.log_message(LogLevel::Info, key_msg.as_str()));
    let msg = match atom_at_exec(n, "message") {
        Some(m) => Some(m),
        None => atom_at_exec(n, "msg"),
    };
    match msg {
        Some(m) => {
            let mut line = String::from_str("\u{1f4ac} Message : ");
            line.append(m.as_str());
            out.push(logger.log_message(LogLevel::Info, line.as_str()));
        },
        None => {},
    }
    let signer = match atom_at_exec(n, "signer") {
        Some(s) => Some(s),
        None => atom_under_exec(n, "meta", "signer"),
    };
    match signer {
        Some(s) => {
            let mut line = String::from_str("\u{1f464} Signer    : ");
            line.append(s.as_str());
            out.push(logger.log_message(LogLevel::Info, line.as_str()));
        },
        None => {},
    }
    let fp = match atom_at_exec(n, "fingerprint") {
        Some(f) => Some(f),
        None => atom_under_exec(n, "meta", "fingerprint"),
    };
    match fp {
        Some(f) => {
            let mut line = String::from_str("\u{1f517} Fingerprint: ");
            line.append(f.as_str());
            out.push(logger.log_message(LogLevel::Info, line.as_str()));
        },
        None => {},
    }
    proof {
        assert(line_views_strings(out@) =~= sign_summary_spec(*n, key_path@));
    }
    out
}

pub open spec fn line_views_strings(v: Seq<String>) -> Seq<Seq<char>> {
    v.map_values(|l: String| l@)
}

} // verus!

use vstd::prelude::*;

verus! {

/// The archive, checksum and signature blocks of a signing response, each
/// only when the response carries the fields, accepting the documented
/// legacy aliases.
pub open spec fn sign_summary_blocks_spec(n: JsonNode) -> Seq<Seq<char>> {
    let path = first_of3(
        atom_at(n, "archive_path"@),
        atom_under(n, "meta"@, "archive"@),
        atom_under(n, "meta"@, "archive_name"@),
    );
    let size = first_of2(
        first_of2(atom_at(n, "archive_size"@), atom_under(n, "meta"@, "archive_size"@)),
        first_of2(atom_under(n, "meta"@, "tarball_compressed_size"@), atom_at(n, "size"@)),
    );
    let tarb = first_of2(atom_at(n, "tarball_name"@), atom_under(n, "meta"@, "archive_name"@));
    let arch_items = (match path {
        Some(p) => seq!["Path    : "@ + p],
        None => Seq::<Seq<char>>::empty(),
    }) + (match size {
        Some(sz) => seq!["Size    : "@ + sz],
        None => Seq::<Seq<char>>::empty(),
    }) + (match tarb {
        Some(t) => seq!["Tarball : "@ + t],
        None => Seq::<Seq<char>>::empty(),
    });
    let arch_lines = if arch_items.len() > 0 {
        seq![
            message_line(LogLevel::Info, "\u{1f4e6} Archive"@) + crate::logger::trace_text_views(
                arch_items,
            ),
        ]
    } else {
        Seq::<Seq<char>>::empty()
    };
    let sha = first_of2(
        first_of2(atom_at(n, "archive_sha256"@), atom_at(n, "checksum"@)),
        first_of2(
            atom_under2(n, "meta"@, "checksums"@, "sha256"@),
            atom_under(n, "meta"@, "checksum"@),
        ),
    );
    let sha_lines = match sha {
        Some(s) => seq![
            message_line(LogLevel::Info, "\u{1f9fe} Checksums"@)
                + crate::logger::trace_text_views(seq!["SHA256 : "@ + s]),
        ],
        None => Seq::<Seq<char>>::empty(),
    };
    let status = first_of3(
        atom_at(n, "signature_status"@),
        atom_under2(n, "meta"@, "signature"@, "status"@),
        atom_under2(n, "meta"@, "signature"@, "state"@),
    );
    let signed_at = first_of2(
        first_of2(
            atom_under2(n, "meta"@, "signature"@, "signed_at"@),
            atom_under2(n, "meta"@, "signature"@, "signedAt"@),
        ),
        first_of2(atom_at(n, "signed_at"@), atom_under(n, "signature"@, "signed_at"@)),
    );
    let sig_lines = match status {
        Some(st) => {
            let head = seq![
                message_line(
                    LogLevel::Info,
                    "\u{1f510} Signature (Ed25519) \u{2022} Status: "@ + st,
                ),
            ];
            match signed_at {
                Some(at) => head + seq![
                    message_line(LogLevel::Info, "Signature details:"@)
                        + crate::logger::trace_text_views(seq!["Signed at: "@ + at]),
                ],
                None => head,
            }
        },
        None => match signed_at {
            Some(at) => seq![
                message_line(LogLevel::Info, "\u{1f510} Signature (Ed25519)"@),
                message_line(LogLevel::Info, "Signature details:"@)
                    + crate::logger::trace_text_views(seq![at]),
            ],
            None => Seq::<Seq<char>>::empty(),
        },
    };
    arch_lines + sha_lines + sig_lines
}

} // verus!

use vstd::prelude::*;

verus! {

/// Renders the archive block of a signing response, when any of its
/// fields is present.
fn archive_block(n: &JsonNode) -> (r: Option<String>)
    ensures
        ({
            let path = first_of3(
                atom_at(*n, "archive_path"@),
                atom_under(*n, "meta"@, "archive"@),
                atom_under(*n, "meta"@, "archive_name"@),
            );
            let size = first_of2(
                first_of2(atom_at(*n, "archive_size"@), atom_under(*n, "meta"@, "archive_size"@)),
                first_of2(
                    atom_under(*n, "meta"@, "tarball_compressed_size"@),
                    atom_at(*n, "size"@),
                ),
            );
            let tarb = first_of2(
                atom_at(*n, "tarball_name"@),
                atom_under(*n, "meta"@, "archive_name"@),
            );
            let items = (match path {
                Some(p) => seq!["Path    : "@ + p],
                None => Seq::<Seq<char>>::empty(),
            }) + (match size {
                Some(sz) => seq!["Size    : "@ + sz],
                None => Seq::<Seq<char>>::empty(),
            }) + (match tarb {
                Some(t) => seq!["Tarball : "@ + t],
                None => Seq::<Seq<char>>::empty(),
            });
            match r {
                Some(line) => items.len() > 0 && line@ == message_line(
                    LogLevel::Info,
                    "\u{1f4e6} Archive"@,
                ) + crate::logger::trace_text_views(items),
                None => items.len() == 0,
            }
        }),
{
    let logger = Logger::new();
    let path = match atom_at_exec(n, "archive_path") {
        Some(p) => Some(p),
        None => match atom_under_exec(n, "meta", "archive") {
            Some(p) => Some(p),
            None => atom_under_exec(n, "meta", "archive_name"),
        },
    };
    let size = match atom_at_exec(n, "archive_size") {
        Some(s) => Some(s),
        None => match atom_under_exec(n, "meta", "archive_size") {
            Some(s) => Some(s),
            None => match atom_under_exec(n, "meta", "tarball_compressed_size") {
                Some(s) => Some(s),
                None => atom_at_exec(n, "size"),
            },
        },
    };
    let tarb = match atom_at_exec(n, "tarball_name") {
        Some(t) => Some(t),
        None => atom_under_exec(n, "meta", "archive_name"),
    };
    let mut items: Vec<String> = Vec::new();
    match path {
        Some(p) => {
            let mut line = String::from_str("Path    : ");
            line.append(p.as_str());
            items.push(line);
        },
        None => {},
    }
    match size {
        Some(sz) => {
            let mut line = String::from_str("Size    : ");
            line.append(sz.as_str());
            items.push(line);
        },
        None => {},
    }
    match tarb {
        Some(t) => {
            let mut line = String::from_str("Tarball : ");
            line.append(t.as_str());
            items.push(line);
        },
        None => {},
    }
    proof {
        let spec_items = (match first_of3(
            atom_at(*n, "archive_path"@),
            atom_under(*n, "meta"@, "archive"@),
            atom_under(*n, "meta"@, "archive_name"@),
        ) {
            Some(p) => seq!["Path    : "@ + p],
            None => Seq::<Seq<char>>::empty(),
        }) + (match first_of2(
            first_of2(atom_at(*n, "archive_size"@), atom_under(*n, "meta"@, "archive_size"@)),
            first_of2(atom_under(*n, "meta"@, "tarball_compressed_size"@), atom_at(*n, "size"@)),
        ) {
            Some(sz) => seq!["Size    : "@ + sz],
            None => Seq::<Seq<char>>::empty(),
        }) + (match first_of2(
            atom_at(*n, "tarball_name"@),
            atom_under(*n, "meta"@, "archive_name"@),
        ) {
            Some(t) => seq!["Tarball : "@ + t],
            None => Seq::<Seq<char>>::empty(),
        });
        assert(items@.map_values(|l: String| l@) =~= spec_items);
    }
    if items.len() > 0 {
        proof {
            crate::logger::lemma_trace_text_views(items@);
        }
        Some(logger.log_message_with_trace(LogLevel::Info, "\u{1f4e6} Archive", &items))
    } else {
        None
    }
}

/// Renders the checksum block of a signing response, when a checksum is
/// present under any of its accepted aliases.
fn checksum_block(n: &JsonNode) -> (r: Option<String>)
    ensures
        ({
            let sha = first_of2(
                first_of2(atom_at(*n, "archive_sha256"@), atom_at(*n, "checksum"@)),
                first_of2(
                    atom_under2(*n, "meta"@, "checksums"@, "sha256"@),
                    atom_under(*n, "meta"@, "checksum"@),
                ),
            );
            match r {
                Some(line) => sha is Some && line@ == message_line(
                    LogLevel::Info,
                    "\u{1f9fe} Checksums"@,
                ) + crate::logger::trace_text_views(seq!["SHA256 : "@ + sha->Some_0]),
                None => sha is None,
            }
        }),
{
    let logger = Logger::new();
    let sha = match atom_at_exec(n, "archive_sha256") {
        Some(s) => Some(s),
        None => match atom_at_exec(n, "checksum") {
            Some(s) => Some(s),
            None => match atom_under2_exec(n, "meta", "checksums", "sha256") {
                Some(s) => Some(s),
                None => atom_under_exec(n, "meta", "checksum"),
            },
        },
    };
    match sha {
        Some(s) => {
            let mut line = String::from_str("SHA256 : ");
            line.append(s.as_str());
            let ghost linev = line@;
            let mut items: Vec<String> = Vec::new();
            items.push(line);
            proof {
                crate::logger::lemma_trace_text_views(items@);
                assert(items@.map_values(|l: String| l@) =~= seq![linev]);
            }
            Some(logger.log_message_with_trace(LogLevel::Info, "\u{1f9fe} Checksums", &items))
        },
        None => None,
    }
}

/// Renders the signature block of a signing response: the status line
/// when a status is present, with the signing time as a detail line.
fn signature_block(n: &JsonNode) -> (r: Vec<String>)
    ensures
        ({
            let status = first_of3(
                atom_at(*n, "signature_status"@),
                atom_under2(*n, "meta"@, "signature"@, "status"@),
                atom_under2(*n, "meta"@, "signature"@, "state"@),
            );
            let signed_at = first_of2(
                first_of2(
                    atom_under2(*n, "meta"@, "signature"@, "signed_at"@),
                    atom_under2(*n, "meta"@, "signature"@, "signedAt"@),
                ),
                first_of2(atom_at(*n, "signed_at"@), atom_under(*n, "signature"@, "signed_at"@)),
            );
            line_views_strings(r@) == (match status {
                Some(st) => {
                    let head = seq![
                        message_line(
                            LogLevel::Info,
                            "\u{1f510} Signature (Ed25519) \u{2022} Status: "@ + st,
                        ),
                    ];
                    match signed_at {
                        Some(at) => head + seq![
                            message_line(LogLevel::Info, "Signature details:"@)
                                + crate::logger::trace_text_views(seq!["Signed at: "@ + at]),
                        ],
                        None => head,
                    }
                },
                None => match signed_at {
                    Some(at) => seq![
                        message_line(LogLevel::Info, "\u{1f510} Signature (Ed25519)"@),
                        message_line(LogLevel::Info, "Signature details:"@)
                            + crate::logger::trace_text_views(seq![at]),
                    ],
                    None => Seq::<Seq<char>>::empty(),
                },
            })
        }),
{
    let logger = Logger::new();
    let mut out: Vec<String> = Vec::new();
    let status = match atom_at_exec(n, "signature_status") {
        Some(s) => Some(s),
        None => match atom_under2_exec(n, "meta", "signature", "status") {
            Some(s) => Some(s),
            None => atom_under2_exec(n, "meta", "signature", "state"),
        },
    };
    let signed_at = match atom_under2_exec(n, "meta", "signature", "signed_at") {
        Some(s) => Some(s),
        None => match atom_under2_exec(n, "meta", "signature", "signedAt") {
            Some(s) => Some(s),
            None => match atom_at_exec(n, "signed_at") {
                Some(s) => Some(s),
                None => atom_under_exec(n, "signature", "signed_at"),
            },
        },
    };
    match status {
        Some(st) => {
            let mut line = String::from_str("\u{1f510} Signature (Ed25519) \u{2022} Status: ");
            line.append(st.as_str());
            out.push(logger.log_message(LogLevel::Info, line.as_str()));
            match signed_at {
                Some(at) => {
                    let mut d = String::from_str("Signed at: ");
                    d.append(at.as_str());
                    let ghost dv = d@;
                    let mut items: Vec<String> = Vec::new();
                    items.push(d);
                    proof {
                        crate::logger::lemma_trace_text_views(items@);
                        assert(items@.map_values(|l: String| l@) =~= seq![dv]);
                    }
                    out.push(
                        logger.log_message_with_trace(LogLevel::Info, "Signature details:", &items),
                    );
                },
                None => {},
            }
        },
        None => {
            match signed_at {
                Some(at) => {
                    out.push(logger.log_message(LogLevel::Info, "\u{1f510} Signature (Ed25519)"));
                    let ghost av = at@;
                    let mut items: Vec<String> = Vec::new();
                    items.push(at);
                    proof {
                        crate::logger::lemma_trace_text_views(items@);
                        assert(items@.map_values(|l: String| l@) =~= seq![av]);
                    }
                    out.push(
                        logger.log_message_with_trace(LogLevel::Info, "Signature details:", &items),
                    );
                },
                None => {},
            }
        },
    }
    out
}

/// Renders a signing response for the user: the key used, the friendly
/// header fields, the archive, checksum and signature blocks, the
/// manifest echo and the warnings, one printable line block per entry.
pub fn print_addon_summary(n: &JsonNode, key_path: &str) -> (r: Vec<String>)
    ensures
        ({
            let warn = match node_get(*n, "warnings"@) {
                Some(w) => Some(w),
                None => match node_get(*n, "meta"@) {
                    Some(meta) => node_get(meta, "warnings"@),
                    None => None,
                },
            };
            let manifest_lines = match manifest_node_of(*n) {
                Some(m) => {
                    let lines = manifest_lines_of(m);
                    if lines.len() == 0 {
                        seq![
                            message_line(
                                LogLevel::Info,
                                "\u{1f4cb} Manifest (plugin.toml)  \u{2022} None"@,
                            ),
                        ]
                    } else {
                        seq![
                            message_line(LogLevel::Info, "\u{1f4cb} Manifest (plugin.toml)"@)
                                + crate::logger::trace_text_views(lines),
                        ]
                    }
                },
                None => Seq::<Seq<char>>::empty(),
            };
            let warning_out = match warn {
                Some(JsonNode::Arr(items)) => if items@.len() == 0 {
                    seq![
                        message_line(
                            LogLevel::Warning,
                            "\u{26a0}\u{fe0f} Warnings \u{2022} None"@,
                        ),
                    ]
                } else {
                    seq![
                        message_line(LogLevel::Warning, "\u{26a0}\u{fe0f} Warnings"@)
                            + crate::logger::trace_text_views(warning_lines(items@)),
                    ]
                },
                Some(w) => seq![
                    message_line(
                        LogLevel::Warning,
                        "\u{26a0}\u{fe0f} Warnings \u{2022} "@ + atom_or_empty(w),
                    ),
                ],
                None => Seq::<Seq<char>>::empty(),
            };
            line_views_strings(r@) == sign_summary_spec(*n, key_path@) + sign_summary_blocks_spec(
                *n,
            ) + manifest_lines + warning_out
        }),
{
    let mut out = sign_summary_header(n, key_path);
    match archive_block(n) {
        Some(line) => {
            out.push(line);
        },
        None => {},
    }
    match checksum_block(n) {
        Some(line) => {
            out.push(line);
        },
        None => {},
    }
    let sig = signature_block(n);
    let sn = sig.len();
    let mut out2 = out;
    let mut i: usize = 0;
    let ghost base = line_views_strings(out2@);
    while i < sn
        invariant
            sn == sig@.len(),
            0 <= i <= sn,
            line_views_strings(out2@) =~= base + line_views_strings(sig@).subrange(0, i as int),
        decreases sn - i,
    {
        let ghost prev = out2@;
        out2.push(sig[i].clone());
        proof {
            assert(line_views_strings(out2@) =~= line_views_strings(prev).push(sig@[i as int]@));
            assert(line_views_strings(sig@).subrange(0, i + 1) =~= line_views_strings(
                sig@,
            ).subrange(0, i as int).push(sig@[i as int]@));
            assert(line_views_strings(out2@) =~= base + line_views_strings(sig@).subrange(
                0,
                i + 1,
            ));
        }
        i = i + 1;
    }
    proof {
        assert(line_views_strings(sig@).subrange(0, sn as int) =~= line_views_strings(sig@));
        assert(line_views_strings(out2@) =~= sign_summary_spec(*n, key_path@)
            + sign_summary_blocks_spec(*n));
    }
    let ghost with_blocks = line_views_strings(out2@);
    let mf = manifest_block(n);
    let mut out3 = out2;
    let mn = mf.len();
    let mut j: usize = 0;
    let ghost base3 = line_views_strings(out3@);
    while j < mn
        invariant
            mn == mf@.len(),
            0 <= j <= mn,
            line_views_strings(out3@) =~= base3 + line_views_strings(mf@).subrange(0, j as int),
        decreases mn - j,
    {
        let ghost prev = out3@;
        out3.push(mf[j].clone());
        proof {
            assert(line_views_strings(out3@) =~= line_views_strings(prev).push(mf@[j as int]@));
            assert(line_views_strings(mf@).subrange(0, j + 1) =~= line_views_strings(mf@).subrange(
                0,
                j as int,
            ).push(mf@[j as int]@));
            assert(line_views_strings(out3@) =~= base3 + line_views_strings(mf@).subrange(
                0,
                j + 1,
            ));
        }
        j = j + 1;
    }
    proof {
        assert(line_views_strings(mf@).subrange(0, mn as int) =~= line_views_strings(mf@));
    }
    let wn_lines = warnings_block(n);
    let mut out4 = out3;
    let wn = wn_lines.len();
    let mut k: usize = 0;
    let ghost base4 = line_views_strings(out4@);
    while k < wn
        invariant
            wn == wn_lines@.len(),
            0 <= k <= wn,
            line_views_strings(out4@) =~= base4 + line_views_strings(wn_lines@).subrange(
                0,
                k as int,
            ),
        decreases wn - k,
    {
        let ghost prev = out4@;
        out4.push(wn_lines[k].clone());
        proof {
            assert(line_views_strings(out4@) =~= line_views_strings(prev).push(
                wn_lines@[k as int]@,
            ));
            assert(line_views_strings(wn_lines@).subrange(0, k + 1) =~= line_views_strings(
                wn_lines@,
            ).subrange(0, k as int).push(wn_lines@[k as int]@));
            assert(line_views_strings(out4@) =~= base4 + line_views_strings(wn_lines@).subrange(
                0,
                k + 1,
            ));
        }
        k = k + 1;
    }
    proof {
        assert(line_views_strings(wn_lines@).subrange(0, wn as int) =~= line_views_strings(
            wn_lines@,
        ));
        assert(line_views_strings(out4@) =~= with_blocks + line_views_strings(mf@)
            + line_views_strings(wn_lines@));
    }
    out4
}

} // verus!

use vstd::prelude::*;

verus! {

/// An atomic value's text, or empty text for a structured value.
pub open spec fn atom_or_empty(v: JsonNode) -> Seq<char> {
    match atom_text(v) {
        Some(t) => t,
        None => Seq::empty(),
    }
}

/// The rendered item lines of a warnings array.
pub open spec fn warning_lines(items: Seq<JsonNode>) -> Seq<Seq<char>>
    decreases items.len(),
{
    if items.len() == 0 {
        Seq::empty()
    } else {
        seq!["  \u{2022} "@ + atom_or_empty(items[0])] + warning_lines(items.drop_first())
    }
}

/// The manifest node a signing response echoes, when present.
pub open spec fn manifest_node_of(n: JsonNode) -> Option<JsonNode> {
    match node_get(n, "manifest"@) {
        Some(m) => Some(m),
        None => match node_get(n, "meta"@) {
            Some(meta) => node_get(meta, "manifest"@),
            None => None,
        },
    }
}

/// The rendered field lines of the manifest echo.
pub open spec fn manifest_lines_of(m: JsonNode) -> Seq<Seq<char>> {
    manifest_field_line(m, "name"@, "  \u{2022} name         : \""@) + manifest_field_line(
        m,
        "version"@,
        "  \u{2022} version      : \""@,
    ) + manifest_field_line(m, "description"@, "  \u{2022} description : \""@)
        + manifest_field_line(m, "access"@, "  \u{2022} access : \""@)
}

fn manifest_field_exec(m: &JsonNode, key: &str, label: &str) -> (r: Option<String>)
    ensures
        match r {
            Some(line) => manifest_field_line(*m, key@, label@) == seq![line@],
            None => manifest_field_line(*m, key@, label@) == Seq::<Seq<char>>::empty(),
        },
{
    match node_get_exec(m, key) {
        Some(v) => {
            let mut line = String::from_str(label);
            match v {
                JsonNode::Str(s) => line.append(s.as_str()),
                _ => {},
            }
            line.append("\"");
            proof {
                reveal_strlit("\"");
                assert(line@ =~= label@ + str_or_empty(*v) + "\""@);
            }
            Some(line)
        },
        None => None,
    }
}

/// Renders the manifest echo of a signing response.
fn manifest_block(n: &JsonNode) -> (r: Vec<String>)
    ensures
        line_views_strings(r@) == (match manifest_node_of(*n) {
            Some(m) => {
                let lines = manifest_lines_of(m);
                if lines.len() == 0 {
                    seq![
                        message_line(
                            LogLevel::Info,
                            "\u{1f4cb} Manifest (plugin.toml)  \u{2022} None"@,
                        ),
                    ]
                } else {
                    seq![
                        message_line(LogLevel::Info, "\u{1f4cb} Manifest (plugin.toml)"@)
                            + crate::logger::trace_text_views(lines),
                    ]
                }
            },
            None => Seq::<Seq<char>>::empty(),
        }),
{
    let logger = Logger::new();
    let mut out: Vec<String> = Vec::new();
    let manifest = match node_get_exec(n, "manifest") {
        Some(m) => Some(m),
        None => match node_get_exec(n, "meta") {
            Some(meta) => node_get_exec(meta, "manifest"),
            None => None,
        },
    };
    match manifest {
        Some(m) => {
            let mut lines: Vec<String> = Vec::new();
            match manifest_field_exec(m, "name", "  \u{2022} name         : \"") {
                Some(l) => lines.push(l),
                None => {},
            }
            match manifest_field_exec(m, "version", "  \u{2022} version      : \"") {
                Some(l) => lines.push(l),
                None => {},
            }
            match manifest_field_exec(m, "description", "  \u{2022} description : \"") {
                Some(l) => lines.push(l),
                None => {},
            }
            match manifest_field_exec(m, "access", "  \u{2022} access : \"") {
                Some(l) => lines.push(l),
                None => {},
            }
            proof {
                assert(lines@.map_values(|l: String| l@) =~= manifest_lines_of(*m));
            }
            if lines.len() == 0 {
                out.push(
                    logger.log_message(
                        LogLevel::Info,
                        "\u{1f4cb} Manifest (plugin.toml)  \u{2022} None",
                    ),
                );
            } else {
                proof {
                    crate::logger::lemma_trace_text_views(lines@);
                }
                out.push(
                    logger.log_message_with_trace(
                        LogLevel::Info,
                        "\u{1f4cb} Manifest (plugin.toml)",
                        &lines,
                    ),
                );
            }
        },
        None => {},
    }
    out
}

/// Renders the warnings of a signing response.
#[verifier::loop_isolation(false)]
fn warnings_block(n: &JsonNode) -> (r: Vec<String>)
    ensures
        ({
            let warn = match node_get(*n, "warnings"@) {
                Some(w) => Some(w),
                None => match node_get(*n, "meta"@) {
                    Some(meta) => node_get(meta, "warnings"@),
                    None => None,
                },
            };
            line_views_strings(r@) == (match warn {
                Some(JsonNode::Arr(items)) => if items@.len() == 0 {
                    seq![message_line(LogLevel::Warning, "\u{26a0}\u{fe0f} Warnings \u{2022} None"@)]
                } else {
                    seq![
                        message_line(LogLevel::Warning, "\u{26a0}\u{fe0f} Warnings"@)
                            + crate::logger::trace_text_views(warning_lines(items@)),
                    ]
                },
                Some(w) => seq![
                    message_line(
                        LogLevel::Warning,
                        "\u{26a0}\u{fe0f} Warnings \u{2022} "@ + atom_or_empty(w),
                    ),
                ],
                None => Seq::<Seq<char>>::empty(),
            })
        }),
{
    let logger = Logger::new();
    let mut out: Vec<String> = Vec::new();
    let warn = match node_get_exec(n, "warnings") {
        Some(w) => Some(w),
        None => match node_get_exec(n, "meta") {
            Some(meta) => node_get_exec(meta, "warnings"),
            None => None,
        },
    };
    match warn {
        Some(w) => match w {
            JsonNode::Arr(items) => {
                if items.len() == 0 {
                    out.push(
                        logger.log_message(
                            LogLevel::Warning,
                            "\u{26a0}\u{fe0f} Warnings \u{2022} None",
                        ),
                    );
                } else {
                    let m = items.len();
                    let mut lines: Vec<String> = Vec::new();
                    let mut i: usize = 0;
                    proof {
                        assert(items@.skip(0) =~= items@);
                        assert(lines@.map_values(|l: String| l@) =~= Seq::<Seq<char>>::empty());
                        assert(Seq::<Seq<char>>::empty() + warning_lines(items@) =~= warning_lines(
                            items@,
                        ));
                    }
                    while i < m
                        invariant
                            m == items@.len(),
                            0 <= i <= m,
                            warning_lines(items@) == lines@.map_values(|l: String| l@)
                                + warning_lines(items@.skip(i as int)),
                        decreases m - i,
                    {
                        proof {
                            assert(items@.skip(i as int)[0] == items@[i as int]);
                            assert(items@.skip(i as int).drop_first() =~= items@.skip(i + 1));
                        }
                        let mut line = String::from_str("  \u{2022} ");
                        match atom_text_exec(&items[i]) {
                            Some(t) => line.append(t.as_str()),
                            None => {},
                        }
                        let ghost prev = lines@;
                        lines.push(line);
                        proof {
                            assert(lines@.map_values(|l: String| l@) =~= prev.map_values(
                                |l: String| l@,
                            ).push("  \u{2022} "@ + atom_or_empty(items@[i as int])));
                            assert(prev.map_values(|l: String| l@) + (seq![
                                "  \u{2022} "@ + atom_or_empty(items@[i as int]),
                            ] + warning_lines(items@.skip(i + 1))) =~= lines@.map_values(
                                |l: String| l@,
                            ) + warning_lines(items@.skip(i + 1)));
                        }
                        i = i + 1;
                    }
                    proof {
                        assert(warning_lines(items@.skip(m as int)) =~= Seq::<Seq<char>>::empty());
                        assert(lines@.map_values(|l: String| l@) + Seq::<Seq<char>>::empty()
                            =~= lines@.map_values(|l: String| l@));
                        crate::logger::lemma_trace_text_views(lines@);
                    }
                    out.push(
                        logger.log_message_with_trace(
                            LogLevel::Warning,
                            "\u{26a0}\u{fe0f} Warnings",
                            &lines,
                        ),
                    );
                }
            },
            _ => {
                let mut line = String::from_str("\u{26a0}\u{fe0f} Warnings \u{2022} ");
                match atom_text_exec(w) {
                    Some(t) => line.append(t.as_str()),
                    None => {},
                }
                out.push(logger.log_message(LogLevel::Warning, line.as_str()));
            },
        },
        None => {},
    }
    out
}

} // verus!

use vstd::prelude::*;
use crate::types::PublisherInfo;

verus! {

/// A string field's text, or empty when absent or not a string; the
/// fallback the publisher listing uses for optional profile fields.
pub open spec fn str_field_or_empty(it: JsonNode, key: Seq<char>) -> Seq<char> {
    match str_field(it, key) {
        Some(s) => s,
        None => Seq::empty(),
    }
}

/// The string entries of a tags array, in order; other entries are
/// dropped.
pub open spec fn str_tags(items: Seq<JsonNode>) -> Seq<Seq<char>>
    decreases items.len(),
{
    if items.len() == 0 {
        Seq::empty()
    } else {
        (match items[0] {
            JsonNode::Str(s) => seq![s@],
            _ => Seq::<Seq<char>>::empty(),
        }) + str_tags(items.drop_first())
    }
}

/// The tags of one publisher item: the string entries of its `tags`
/// array, or none.
pub open spec fn tags_of(it: JsonNode) -> Seq<Seq<char>> {
    match node_get(it, "tags"@) {
        Some(JsonNode::Arr(v)) => str_tags(v@),
        _ => Seq::empty(),
    }
}

/// The profile one publisher item denotes, when it carries a string
/// identifier: identifier, display name, description, the three optional
/// fields as present-but-possibly-empty, and the tags.
pub open spec fn publisher_tuple(it: JsonNode) -> (
    Seq<char>,
    Seq<char>,
    Seq<char>,
    Option<Seq<char>>,
    Option<Seq<char>>,
    Option<Seq<char>>,
    Seq<Seq<char>>,
) {
    (
        str_field(it, "identifier"@)->Some_0,
        str_field_or_empty(it, "display_name"@),
        str_field_or_empty(it, "description"@),
        Some(str_field_or_empty(it, "logo_url"@)),
        Some(str_field_or_empty(it, "banner_url"@)),
        Some(str_field_or_empty(it, "country_code"@)),
        tags_of(it),
    )
}

/// The profiles a publisher listing denotes: one per item with a string
/// identifier, in response order.
pub open spec fn publishers_of(items: Seq<JsonNode>) -> Seq<
    (
        Seq<char>,
        Seq<char>,
        Seq<char>,
        Option<Seq<char>>,
        Option<Seq<char>>,
        Option<Seq<char>>,
        Seq<Seq<char>>,
    ),
>
    decreases items.len(),
{
    if items.len() == 0 {
        Seq::empty()
    } else {
        (if str_field(items[0], "identifier"@) is Some {
            seq![publisher_tuple(items[0])]
        } else {
            Seq::<
                (
                    Seq<char>,
                    Seq<char>,
                    Seq<char>,
                    Option<Seq<char>>,
                    Option<Seq<char>>,
                    Option<Seq<char>>,
                    Seq<Seq<char>>,
                ),
            >::empty()
        }) + publishers_of(items.drop_first())
    }
}

pub open spec fn publisher_views(v: Seq<PublisherInfo>) -> Seq<
    (
        Seq<char>,
        Seq<char>,
        Seq<char>,
        Option<Seq<char>>,
        Option<Seq<char>>,
        Option<Seq<char>>,
        Seq<Seq<char>>,
    ),
> {
    v.map_values(
        |p: PublisherInfo|
            (
                p.identifier@,
                p.display_name@,
                p.description@,
                match p.logo_url {
                    Some(u) => Some(u@),
                    None => None,
                },
                match p.banner_url {
                    Some(u) => Some(u@),
                    None => None,
                },
                match p.country_code {
                    Some(u) => Some(u@),
                    None => None,
                },
                crate::text::line_views(p.tags@),
            ),
    )
}

fn str_field_or_empty_exec(it: &JsonNode, key: &str) -> (r: String)
    ensures
        r@ == str_field_or_empty(*it, key@),
{
    match str_field_exec(it, key) {
        Some(s) => s,
        None => String::new(),
    }
}

/// Collects the string tags of one publisher item.
#[verifier::loop_isolation(false)]
fn tags_of_exec(it: &JsonNode) -> (r: Vec<String>)
    ensures
        crate::text::line_views(r@) == tags_of(*it),
{
    let mut out: Vec<String> = Vec::new();
    match node_get_exec(it, "tags") {
        Some(v) => match v {
            JsonNode::Arr(items) => {
                let m = items.len();
                let mut i: usize = 0;
                proof {
                    assert(items@.skip(0) =~= items@);
                    assert(crate::text::line_views(out@) =~= Seq::<Seq<char>>::empty());
                    assert(Seq::<Seq<char>>::empty() + str_tags(items@) =~= str_tags(items@));
                }
                while i < m
                    invariant
                        m == items@.len(),
                        0 <= i <= m,
                        str_tags(items@) == crate::text::line_views(out@) + str_tags(
                            items@.skip(i as int),
                        ),
                    decreases m - i,
                {
                    proof {
                        assert(items@.skip(i as int)[0] == items@[i as int]);
                        assert(items@.skip(i as int).drop_first() =~= items@.skip(i + 1));
                    }
                    match &items[i] {
                        JsonNode::Str(s) => {
                            let ghost prev = crate::text::line_views(out@);
                            out.push(s.clone());
                            proof {
                                assert(crate::text::line_views(out@) =~= prev.push(s@));
                                assert(prev + (seq![s@] + str_tags(items@.skip(i + 1)))
                                    =~= crate::text::line_views(out@) + str_tags(
                                    items@.skip(i + 1),
                                ));
                            }
                        },
                        _ => {
                            proof {
                                assert(crate::text::line_views(out@) + (Seq::<
                                    Seq<char>,
                                >::empty() + str_tags(items@.skip(i + 1)))
                                    =~= crate::text::line_views(out@) + str_tags(
                                    items@.skip(i + 1),
                                ));
                            }
                        },
                    }
                    i = i + 1;
                }
                proof {
                    assert(str_tags(items@.skip(m as int)) =~= Seq::<Seq<char>>::empty());
                    assert(crate::text::line_views(out@) + Seq::<Seq<char>>::empty()
                        =~= crate::text::line_views(out@));
                }
            },
            _ => {},
        },
        None => {},
    }
    out
}

/// Parses the publisher profiles out of a listing response: the items
/// under `payload.publishers` that carry a string identifier, with the
/// optional fields defaulted as the listing shows them.  Each shape error
/// is reported as its own message.
#[verifier::loop_isolation(false)]
pub fn extract_publishers(n: &JsonNode) -> (r: Result<Vec<PublisherInfo>, String>)
    ensures
        match r {
            Ok(v) => match node_get(*n, "payload"@) {
                Some(p) => match node_get(p, "publishers"@) {
                    Some(JsonNode::Arr(items)) => publisher_views(v@) == publishers_of(items@),
                    _ => false,
                },
                None => false,
            },
            Err(m) => match node_get(*n, "payload"@) {
                Some(p) => match node_get(p, "publishers"@) {
                    Some(JsonNode::Arr(_)) => false,
                    Some(_) => m@ == "Publishers field is not an array"@,
                    None => m@ == "Publishers field not found in response"@,
                },
                None => m@ == "Payload field not found in response"@,
            },
        },
{
    let payload = match node_get_exec(n, "payload") {
        Some(p) => p,
        None => {
            return Err(String::from_str("Payload field not found in response"));
        },
    };
    let publishers = match node_get_exec(payload, "publishers") {
        Some(v) => v,
        None => {
            return Err(String::from_str("Publishers field not found in response"));
        },
    };
    let items = match publishers {
        JsonNode::Arr(items) => items,
        _ => {
            return Err(String::from_str("Publishers field is not an array"));
        },
    };
    let m = items.len();
    let mut out: Vec<PublisherInfo> = Vec::new();
    let mut i: usize = 0;
    proof {
        assert(items@.skip(0) =~= items@);
        assert(publisher_views(out@) =~= Seq::<
            (
                Seq<char>,
                Seq<char>,
                Seq<char>,
                Option<Seq<char>>,
                Option<Seq<char>>,
                Option<Seq<char>>,
                Seq<Seq<char>>,
            ),
        >::empty());
        assert(publisher_views(out@) + publishers_of(items@) =~= publishers_of(items@));
    }
    while i < m
        invariant
            m == items@.len(),
            0 <= i <= m,
            publishers_of(items@) == publisher_views(out@) + publishers_of(items@.skip(i as int)),
        decreases m - i,
    {
        proof {
            assert(items@.skip(i as int)[0] == items@[i as int]);
            assert(items@.skip(i as int).drop_first() =~= items@.skip(i + 1));
        }
        match str_field_exec(&items[i], "identifier") {
            Some(identifier) => {
                let display_name = str_field_or_empty_exec(&items[i], "display_name");
                let description = str_field_or_empty_exec(&items[i], "description");
                let logo_url = str_field_or_empty_exec(&items[i], "logo_url");
                let banner_url = str_field_or_empty_exec(&items[i], "banner_url");
                let country_code = str_field_or_empty_exec(&items[i], "country_code");
                let tags = tags_of_exec(&items[i]);
                let info = PublisherInfo {
                    identifier,
                    display_name,
                    description,
                    logo_url: Some(logo_url),
                    banner_url: Some(banner_url),
                    country_code: Some(country_code),
                    tags,
                };
                let ghost prev = publisher_views(out@);
                out.push(info);
                proof {
                    assert(publisher_views(out@) =~= prev.push(publisher_tuple(items@[i as int])));
                    assert(prev + (seq![publisher_tuple(items@[i as int])] + publishers_of(
                        items@.skip(i + 1),
                    )) =~= publisher_views(out@) + publishers_of(items@.skip(i + 1)));
                }
            },
            None => {
                proof {
                    assert(publisher_views(out@) + (Seq::<
                        (
                            Seq<char>,
                            Seq<char>,
                            Seq<char>,
                            Option<Seq<char>>,
                            Option<Seq<char>>,
                            Option<Seq<char>>,
                            Seq<Seq<char>>,
                        ),
                    >::empty() + publishers_of(items@.skip(i + 1))) =~= publisher_views(out@)
                        + publishers_of(items@.skip(i + 1)));
                }
            },
        }
        i = i + 1;
    }
    proof {
        assert(publishers_of(items@.skip(m as int)) =~= Seq::<
            (
                Seq<char>,
                Seq<char>,
                Seq<char>,
                Option<Seq<char>>,
                Option<Seq<char>>,
                Option<Seq<char>>,
                Seq<Seq<char>>,
            ),
        >::empty());
        assert(publisher_views(out@) + Seq::<
            (
                Seq<char>,
                Seq<char>,
                Seq<char>,
                Option<Seq<char>>,
                Option<Seq<char>>,
                Option<Seq<char>>,
                Seq<Seq<char>>,
            ),
        >::empty() =~= publisher_views(out@));
    }
    Ok(out)
}

} // verus!
