//! The data carried between discovery, analysis and submission.

use vstd::prelude::*;

verus! {

/// One addon found under the generated tree.
#[derive(Debug)]
pub struct AddonInfo {
    pub addon_type: String,
    pub name: String,
    pub path: String,
    pub files: Vec<String>,
}

/// The identity and access fields read from an addon manifest.
#[derive(Debug)]
pub struct AddonMetadata {
    pub name: String,
    pub version: String,
    pub access: String,
    pub publisher: String,
}

/// Everything one create or update submission carries.
#[derive(Debug)]
pub struct AddonSubmissionData {
    pub id: Option<String>,
    pub name: String,
    pub addon_type: String,
    pub publisher: String,
    pub path: String,
    pub version: String,
    pub access: String,
    pub files: Vec<String>,
}

/// A publisher profile as the registry returns it.
#[derive(Debug)]
pub struct PublisherInfo {
    pub identifier: String,
    pub display_name: String,
    pub description: String,
    pub logo_url: Option<String>,
    pub banner_url: Option<String>,
    pub country_code: Option<String>,
    pub tags: Vec<String>,
}

/// The editable fields of a publisher profile.
#[derive(Debug)]
pub struct PublisherInfoUpdate {
    pub display_name: String,
    pub description: String,
    pub logo_url: Option<String>,
    pub banner_url: Option<String>,
    pub country_code: Option<String>,
    pub tags: Vec<String>,
}

} // verus!
