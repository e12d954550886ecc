//! Manifest management: version bumps, metadata analysis and listings.

use vstd::prelude::*;
use crate::builder::name_key;
use crate::patch::{
    bracketed, doc_lacks_section, doc_scalar_read, read_scalar_in_manifest, scalar_doc_patched,
    set_scalar_in_manifest, version_key,
};
use crate::semver::{ascii_lower, compute_bump, render_triple, sat_inc, version_triple};
use crate::types::AddonMetadata;

verus! {

pub open spec fn access_key() -> Seq<char> {
    seq!['a', 'c', 'c', 'e', 's', 's']
}

pub open spec fn publisher_key() -> Seq<char> {
    seq!['p', 'u', 'b', 'l', 'i', 's', 'h', 'e', 'r']
}

/// Bumps the version scalar of a manifest in place: reads the current
/// version (a missing one counts as `0.0.1`), computes the bumped one,
/// and patches exactly that line.  An unknown bump token is rejected with
/// an error naming it, and the manifest text is not produced at all.
pub fn bump_manifest_version(text: &str, section: &str, bump: &str) -> (r: Result<
    (String, String, String),
    String,
>)
    ensures
        match r {
            Ok(t) => {
                &&& (doc_scalar_read(text@, section@, version_key(), Some(t.0@))
                    || (doc_scalar_read(text@, section@, version_key(), None) && t.0@
                    == "0.0.1"@))
                &&& ({
                    let lb = ascii_lower(bump@);
                    let tr = version_triple(t.0@);
                    (lb == "major"@ && t.1@ == render_triple(sat_inc(tr.0), 0, 0)) || (lb
                        == "minor"@ && t.1@ == render_triple(tr.0, sat_inc(tr.1), 0)) || (lb
                        == "patch"@ && t.1@ == render_triple(tr.0, tr.1, sat_inc(tr.2)))
                })
                &&& scalar_doc_patched(text@, section@, version_key(), t.1@, t.2@)
            },
            Err(m) => ({
                let lb = ascii_lower(bump@);
                (lb != "major"@ && lb != "minor"@ && lb != "patch"@ && m@
                    == "Unknown bump type: "@ + lb + " (expected: major|minor|patch)"@) || ((lb
                    == "major"@ || lb == "minor"@ || lb == "patch"@) && doc_lacks_section(
                    text@,
                    section@,
                ) && m@ == bracketed(section@) + " section not found"@)
            }),
        },
{
    proof {
        reveal_strlit("version");
        assert("version"@ =~= version_key());
    }
    let current = match read_scalar_in_manifest(text, section, "version") {
        Some(v) => v,
        None => String::from_str("0.0.1"),
    };
    let next = match compute_bump(current.as_str(), bump) {
        Ok(v) => v,
        Err(e) => {
            return Err(e);
        },
    };
    match set_scalar_in_manifest(text, section, "version", next.as_str()) {
        Ok(out) => Ok((current, next, out)),
        Err(m) => Err(m),
    }
}

/// Reads an addon's identity fields from its manifest section, with the
/// defaults the submission flow uses for missing ones.
pub fn analyze_manifest(text: &str, section: &str) -> (r: AddonMetadata)
    ensures
        doc_scalar_read(text@, section@, name_key(), Some(r.name@)) || (doc_scalar_read(
            text@,
            section@,
            name_key(),
            None,
        ) && r.name@ == "unknown"@),
        doc_scalar_read(text@, section@, version_key(), Some(r.version@)) || (doc_scalar_read(
            text@,
            section@,
            version_key(),
            None,
        ) && r.version@ == "unknown"@),
        doc_scalar_read(text@, section@, access_key(), Some(r.access@)) || (doc_scalar_read(
            text@,
            section@,
            access_key(),
            None,
        ) && r.access@ == "public"@),
        doc_scalar_read(text@, section@, publisher_key(), Some(r.publisher@)) || (doc_scalar_read(
            text@,
            section@,
            publisher_key(),
            None,
        ) && r.publisher@ == "unknown"@),
{
    proof {
        reveal_strlit("name");
        reveal_strlit("version");
        reveal_strlit("access");
        reveal_strlit("publisher");
        assert("name"@ =~= name_key());
        assert("version"@ =~= version_key());
        assert("access"@ =~= access_key());
        assert("publisher"@ =~= publisher_key());
    }
    let name = match read_scalar_in_manifest(text, section, "name") {
        Some(v) => v,
        None => String::from_str("unknown"),
    };
    let version = match read_scalar_in_manifest(text, section, "version") {
        Some(v) => v,
        None => String::from_str("unknown"),
    };
    let access = match read_scalar_in_manifest(text, section, "access") {
        Some(v) => v,
        None => String::from_str("public"),
    };
    let publisher = match read_scalar_in_manifest(text, section, "publisher") {
        Some(v) => v,
        None => String::from_str("unknown"),
    };
    AddonMetadata { name, version, access, publisher }
}

/// One line of an addon listing.
pub fn format_addon_line(
    publisher: &str,
    name: &str,
    version: &str,
    access: &str,
    description: &str,
) -> (r: String)
    ensures
        r@ == "- "@ + publisher@ + "."@ + name@ + "  v"@ + version@ + "  ["@ + access@ + "]  "@
            + description@,
{
    let mut s = String::from_str("- ");
    s.append(publisher);
    s.append(".");
    s.append(name);
    s.append("  v");
    s.append(version);
    s.append("  [");
    s.append(access);
    s.append("]  ");
    s.append(description);
    s
}

} // verus!
