//! Archive assembly: the canonical compressed archive of an addon.
//!
//! An archive is an ordered set of named byte members — manifest, readme,
//! license, payload — written as one gzip-compressed tar.  The member list
//! is assembled by verified code; tar and gzip do the writing behind
//! trusted wrappers whose result is a function of the members alone.

use vstd::prelude::*;
use crate::discover::{discover_spec, discover_triggers, merge_spec, merge_triggers, trig_views,
    TriggerEntry};
use crate::patch::{doc_tables_read, parse_tables_in_manifest, rec_views,
    replace_tables_in_manifest, tables_doc_patched, bank_section, parse_tables_from,
    replace_tables_spec};
use crate::text::{join_lines, line_views, trim_of};

verus! {

/// An in-memory gzip-compressed tar being written.  The writer itself is
/// opaque; the contracts speak of the members appended so far.
#[verifier::external_body]
pub struct ArchiveSink {
    inner: tar::Builder<flate2::write::GzEncoder<Vec<u8>>>,
}

/// The members so far appended to an in-memory compressed archive, in
/// order: each member's name and bytes.
pub uninterp spec fn tar_members(b: ArchiveSink) -> Seq<(Seq<char>, Seq<u8>)>;

/// The bytes the archive writer produces for a member list; with the
/// default pure-Rust gzip backend and a fixed header they are a function
/// of the members alone.  Tar stores member names as given only where the
/// platform's path separator is the slash; the library never emits a
/// member name carrying a backslash, since asset paths are slash-converted
/// before they reach the member list.
pub uninterp spec fn targz_of(members: Seq<(Seq<char>, Seq<u8>)>) -> Seq<u8>;

/// Whether tar's GNU header takes the member name: relative, without `..`,
/// and short enough for the name field; a function of the name alone, with
/// the same slash-separator proviso as `targz_of`.
pub uninterp spec fn tar_name_ok(name: Seq<char>) -> bool;

/// Relies on flate2's GzEncoder::new and tar's Builder::new: starts an
/// empty compressed archive in memory.
#[verifier::external_body]
fn archive_start() -> (b: ArchiveSink)
    ensures
        tar_members(b) == Seq::<(Seq<char>, Seq<u8>)>::empty(),
{
    ArchiveSink {
        inner: tar::Builder::new(
            flate2::write::GzEncoder::new(Vec::new(), flate2::Compression::default()),
        ),
    }
}

/// Relies on tar's Header::new_gnu, Header::set_path and Builder::append:
/// adds one named member with the given bytes and mode 644.  Whether
/// set_path takes the name is decided by the name alone, and the writes
/// go into the in-memory buffer, which cannot fail, so appending succeeds
/// exactly when the name fits.
#[verifier::external_body]
fn archive_append(b: &mut ArchiveSink, name: &String, data: &Vec<u8>) -> (r: Result<(), String>)
    ensures
        match r {
            Ok(_) => tar_name_ok(name@) && tar_members(*final (b)) == tar_members(*old(b)).push(
                (name@, data@),
            ),
            Err(_) => !tar_name_ok(name@) && tar_members(*final (b)) == tar_members(*old(b)),
        },
{
    let mut header = tar::Header::new_gnu();
    if let Err(e) = header.set_path(name.as_str()) {
        return Err(format!("Failed to set header path: {}", e));
    }
    header.set_size(data.len() as u64);
    header.set_mode(0o644);
    header.set_cksum();
    match b.inner.append(&header, data.as_slice()) {
        Ok(()) => Ok(()),
        Err(e) => Err(format!("Failed to append to tar: {}", e)),
    }
}

/// Relies on tar's Builder::into_inner and flate2's GzEncoder::finish:
/// closes the archive and returns the compressed bytes.  Both only write
/// into the in-memory buffer, which cannot fail.
#[verifier::external_body]
fn archive_finish(b: ArchiveSink) -> (r: Result<Vec<u8>, String>)
    ensures
        r is Ok,
        r matches Ok(bytes) ==> bytes@ == targz_of(tar_members(b)),
{
    let enc = match b.inner.into_inner() {
        Ok(e) => e,
        Err(e) => {
            return Err(format!("Failed to finish tar builder: {}", e));
        },
    };
    match enc.finish() {
        Ok(v) => Ok(v),
        Err(e) => Err(format!("Failed to finish gzip encoder: {}", e)),
    }
}

/// The compression flate2 applies with a fixed zero timestamp; a function
/// of the bytes alone.
pub uninterp spec fn gzip_of(b: Seq<u8>) -> Seq<u8>;

/// What flate2 decompresses the bytes to; a function of the bytes alone.
pub uninterp spec fn gunzip_of(b: Seq<u8>) -> Seq<u8>;

/// Relies on flate2's GzBuilder with a zero timestamp: deterministic
/// compression of a byte buffer.  All writes go into the in-memory
/// buffer, which cannot fail.
#[verifier::external_body]
pub fn gzip_bytes(data: &Vec<u8>) -> (r: Result<Vec<u8>, String>)
    ensures
        r is Ok,
        r matches Ok(out) ==> out@ == gzip_of(data@),
{
    let mut out: Vec<u8> = Vec::new();
    let mut enc = flate2::GzBuilder::new().mtime(0).write(&mut out, flate2::Compression::default());
    if let Err(e) = std::io::Write::write_all(&mut enc, data.as_slice()) {
        return Err(format!("Failed to compress: {}", e));
    }
    if let Err(e) = enc.finish() {
        return Err(format!("Failed to finish gzip: {}", e));
    }
    Ok(out)
}

/// Relies on flate2's read::GzDecoder: decompresses a gzip buffer, and
/// fails on bytes that are not a well-formed gzip stream.
#[verifier::external_body]
pub fn gunzip_bytes(data: &Vec<u8>) -> (r: Result<Vec<u8>, String>)
    ensures
        match r {
            Ok(out) => out@ == gunzip_of(data@),
            Err(_) => true,
        },
{
    let mut dec = flate2::read::GzDecoder::new(data.as_slice());
    let mut out: Vec<u8> = Vec::new();
    match std::io::Read::read_to_end(&mut dec, &mut out) {
        Ok(_) => Ok(out),
        Err(e) => Err(format!("Failed to decompress: {}", e)),
    }
}

/// One named member of an archive.
pub struct ArchiveMember {
    pub name: String,
    pub data: Vec<u8>,
}

pub open spec fn member_views(s: Seq<ArchiveMember>) -> Seq<(Seq<char>, Seq<u8>)> {
    s.map_values(|m: ArchiveMember| (m.name@, m.data@))
}

/// Writes the members, in order, as one gzip-compressed tar in memory.
/// The build succeeds whenever every member name fits a tar header, and
/// an error names a member that does not.
#[verifier::loop_isolation(false)]
pub fn build_archive(members: &Vec<ArchiveMember>) -> (r: Result<Vec<u8>, String>)
    ensures
        match r {
            Ok(bytes) => bytes@ == targz_of(member_views(members@)),
            Err(_) => exists|i: int|
                0 <= i < members@.len() && !tar_name_ok(#[trigger] member_views(members@)[i].0),
        },
        (forall|i: int|
            0 <= i < members@.len() ==> tar_name_ok(#[trigger] member_views(members@)[i].0)) ==> r
            is Ok,
{
    let ghost mv = member_views(members@);
    let mut b = archive_start();
    let n = members.len();
    let mut i: usize = 0;
    proof {
        assert(tar_members(b) =~= mv.take(0));
    }
    while i < n
        invariant
            n == mv.len(),
            0 <= i <= n,
            tar_members(b) == mv.take(i as int),
        decreases n - i,
    {
        match archive_append(&mut b, &members[i].name, &members[i].data) {
            Ok(_) => {},
            Err(e) => {
                proof {
                    assert(!tar_name_ok(member_views(members@)[i as int].0));
                }
                return Err(e);
            },
        }
        proof {
            assert(mv.take(i + 1) =~= mv.take(i as int).push(mv[i as int]));
        }
        i = i + 1;
    }
    proof {
        assert(mv.take(n as int) =~= mv);
    }
    archive_finish(b)
}

} // verus!

use vstd::prelude::*;

verus! {

/// `triggers`, the repeated table of a bank manifest.
pub open spec fn triggers_table() -> Seq<char> {
    seq!['t', 'r', 'i', 'g', 'g', 'e', 'r', 's']
}

/// `name`, the first field of a trigger or export record.
pub open spec fn name_key() -> Seq<char> {
    seq!['n', 'a', 'm', 'e']
}

/// `path`, the second field of a trigger record.
pub open spec fn path_key() -> Seq<char> {
    seq!['p', 'a', 't', 'h']
}

/// The archive file name of an addon, `publisher.name.tar.gz`.
pub fn archive_file_name(publisher: &str, name: &str) -> (r: String)
    ensures
        r@ == publisher@ + "."@ + name@ + ".tar.gz"@,
{
    let mut s = String::from_str(publisher);
    s.append(".");
    s.append(name);
    s.append(".tar.gz");
    s
}

/// Whether the identity fields of a manifest are usable: neither the
/// publisher nor the name is blank.
pub fn identity_present(publisher: &str, name: &str) -> (r: bool)
    ensures
        r == (trim_of(publisher@).len() > 0 && trim_of(name@).len() > 0),
{
    let p = crate::text::trim_line(publisher);
    let n = crate::text::trim_line(name);
    p.unicode_len() > 0 && n.unicode_len() > 0
}

/// The generated MIT-style license naming the publisher.
pub fn default_mit_license(publisher: &str) -> (r: String)
    ensures
        r@ == "MIT License\n\nCopyright (c) "@ + publisher@
            + "\n\nPermission is hereby granted, free of charge, to any person obtaining a copy\n of this software and associated documentation files (the \"Software\"), to deal\n in the Software without restriction, including without limitation the rights\n to use, copy, modify, merge, publish, distribute, sublicense, and/or sell\n copies of the Software, and to permit persons to whom the Software is\n furnished to do so, subject to the following conditions:\n\nThe above copyright notice and this permission notice shall be included in all\n copies or substantial portions of the Software.\n\nTHE SOFTWARE IS PROVIDED \"AS IS\", WITHOUT WARRANTY OF ANY KIND, EXPRESS OR\n IMPLIED, INCLUDING BUT NOT LIMITED TO THE WARRANTIES OF MERCHANTABILITY,\n FITNESS FOR A PARTICULAR PURPOSE AND NONINFRINGEMENT. IN NO EVENT SHALL THE\n AUTHORS OR COPYRIGHT HOLDERS BE LIABLE FOR ANY CLAIM, DAMAGES OR OTHER\n LIABILITY, WHETHER IN AN ACTION OF CONTRACT, TORT OR OTHERWISE, ARISING FROM,\n OUT OF OR IN CONNECTION WITH THE SOFTWARE OR THE USE OR OTHER DEALINGS IN THE\n SOFTWARE.\n"@,
{
    let mut s = String::from_str("MIT License\n\nCopyright (c) ");
    s.append(publisher);
    s.append(
        "\n\nPermission is hereby granted, free of charge, to any person obtaining a copy\n of this software and associated documentation files (the \"Software\"), to deal\n in the Software without restriction, including without limitation the rights\n to use, copy, modify, merge, publish, distribute, sublicense, and/or sell\n copies of the Software, and to permit persons to whom the Software is\n furnished to do so, subject to the following conditions:\n\nThe above copyright notice and this permission notice shall be included in all\n copies or substantial portions of the Software.\n\nTHE SOFTWARE IS PROVIDED \"AS IS\", WITHOUT WARRANTY OF ANY KIND, EXPRESS OR\n IMPLIED, INCLUDING BUT NOT LIMITED TO THE WARRANTIES OF MERCHANTABILITY,\n FITNESS FOR A PARTICULAR PURPOSE AND NONINFRINGEMENT. IN NO EVENT SHALL THE\n AUTHORS OR COPYRIGHT HOLDERS BE LIABLE FOR ANY CLAIM, DAMAGES OR OTHER\n LIABILITY, WHETHER IN AN ACTION OF CONTRACT, TORT OR OTHERWISE, ARISING FROM,\n OUT OF OR IN CONNECTION WITH THE SOFTWARE OR THE USE OR OTHER DEALINGS IN THE\n SOFTWARE.\n",
    );
    s
}

/// The generated default readme of a bank.
pub fn default_readme_bank(publisher: &str, name: &str, description: &Option<String>) -> (r:
    String)
    ensures
        r@ == "# "@ + publisher@ + "."@ + name@ + " Bank\n\n"@ + (match description {
            Some(d) => d@,
            None => "Sample bank for Devalang."@,
        }) + "\n\nContents:\n- bank.toml\n- audio/ (assets)\n- LICENSE\n\nBuilt with devapack.\n"@,
{
    let mut s = String::from_str("# ");
    s.append(publisher);
    s.append(".");
    s.append(name);
    s.append(" Bank\n\n");
    match description {
        Some(d) => s.append(d.as_str()),
        None => s.append("Sample bank for Devalang."),
    }
    s.append("\n\nContents:\n- bank.toml\n- audio/ (assets)\n- LICENSE\n\nBuilt with devapack.\n");
    s
}

/// The generated default readme of a plugin.
pub fn default_readme_plugin(publisher: &str, name: &str, description: &Option<String>) -> (r:
    String)
    ensures
        r@ == "# "@ + publisher@ + "."@ + name@ + " Plugin\n\n"@ + (match description {
            Some(d) => d@,
            None => "Plugin for Devalang."@,
        })
            + "\n\nContents:\n- plugin.toml\n- sources (placed at archive root, e.g. src/..., Cargo.toml)\n- LICENSE\n\nBuilt with devapack.\n"@,
{
    let mut s = String::from_str("# ");
    s.append(publisher);
    s.append(".");
    s.append(name);
    s.append(" Plugin\n\n");
    match description {
        Some(d) => s.append(d.as_str()),
        None => s.append("Plugin for Devalang."),
    }
    s.append(
        "\n\nContents:\n- plugin.toml\n- sources (placed at archive root, e.g. src/..., Cargo.toml)\n- LICENSE\n\nBuilt with devapack.\n",
    );
    s
}

/// The members of a bank archive: manifest, readme, license, and every
/// audio file under `audio/`, in order.
#[verifier::loop_isolation(false)]
pub fn bank_archive_members(
    manifest: Vec<u8>,
    readme: Vec<u8>,
    license: Vec<u8>,
    audio: Vec<(String, Vec<u8>)>,
) -> (r: Vec<ArchiveMember>)
    ensures
        member_views(r@) == seq![
            ("bank.toml"@, manifest@),
            ("README.md"@, readme@),
            ("LICENSE"@, license@),
        ] + audio@.map_values(|f: (String, Vec<u8>)| ("audio/"@ + f.0@, f.1@)),
{
    let ghost av = audio@.map_values(|f: (String, Vec<u8>)| ("audio/"@ + f.0@, f.1@));
    let mut out: Vec<ArchiveMember> = Vec::new();
    out.push(ArchiveMember { name: String::from_str("bank.toml"), data: manifest });
    out.push(ArchiveMember { name: String::from_str("README.md"), data: readme });
    out.push(ArchiveMember { name: String::from_str("LICENSE"), data: license });
    let ghost head = member_views(out@);
    proof {
        assert(head =~= seq![("bank.toml"@, manifest@), ("README.md"@, readme@), ("LICENSE"@, license@)]);
    }
    let n = audio.len();
    let mut i: usize = 0;
    let mut it = audio;
    while i < n
        invariant
            n == av.len(),
            0 <= i <= n,
            it@.map_values(|f: (String, Vec<u8>)| ("audio/"@ + f.0@, f.1@)) == av,
            n == it@.len(),
            member_views(out@) == head + av.take(i as int),
        decreases n - i,
    {
        let mut nm = String::from_str("audio/");
        nm.append(it[i].0.as_str());
        let data = it[i].1.clone();
        proof {
            assert(nm@ =~= "audio/"@ + it@[i as int].0@);
            assert(data@ == it@[i as int].1@);
        }
        let ghost prev = member_views(out@);
        out.push(ArchiveMember { name: nm, data });
        proof {
            assert(member_views(out@) =~= prev.push(av[i as int]));
            assert(head + av.take(i + 1) =~= (head + av.take(i as int)).push(av[i as int]));
        }
        i = i + 1;
    }
    proof {
        assert(av.take(n as int) =~= av);
    }
    out
}

/// The members of a plugin archive: manifest, license, and the compiled
/// module under the plugin's own name.
pub fn plugin_archive_members(
    manifest: Vec<u8>,
    license: Vec<u8>,
    module_name: &String,
    module: Vec<u8>,
) -> (r: Vec<ArchiveMember>)
    ensures
        member_views(r@) == seq![
            ("plugin.toml"@, manifest@),
            ("LICENSE"@, license@),
            (module_name@, module@),
        ],
{
    let mut out: Vec<ArchiveMember> = Vec::new();
    out.push(ArchiveMember { name: String::from_str("plugin.toml"), data: manifest });
    out.push(ArchiveMember { name: String::from_str("LICENSE"), data: license });
    out.push(ArchiveMember { name: module_name.clone(), data: module });
    proof {
        assert(member_views(out@) =~= seq![
            ("plugin.toml"@, manifest@),
            ("LICENSE"@, license@),
            (module_name@, module@),
        ]);
    }
    out
}

} // verus!

use vstd::prelude::*;

verus! {

proof fn lemma_join_lines_len(ls: Seq<Seq<char>>)
    ensures
        join_lines(ls).len() + 1 >= ls.len(),
    decreases ls.len(),
{
    if ls.len() > 1 {
        lemma_join_lines_len(ls.drop_first());
    }
}

proof fn lemma_parse_tables_len(
    lv: Seq<Seq<char>>,
    table: Seq<char>,
    k1: Seq<char>,
    k2: Seq<char>,
    i: int,
)
    requires
        0 <= i <= lv.len(),
    ensures
        parse_tables_from(lv, table, k1, k2, i).len() <= lv.len() - i,
    decreases lv.len() - i,
{
    if i < lv.len() {
        if crate::patch::is_table_line(lv[i], table) {
            let e = crate::patch::find_from(lv, i + 1, |l: Seq<char>| crate::patch::is_header(l));
            crate::patch::lemma_find_from_bounds(lv, i + 1, |l: Seq<char>|
                crate::patch::is_header(l));
            lemma_parse_tables_len(lv, table, k1, k2, e);
        } else {
            lemma_parse_tables_len(lv, table, k1, k2, i + 1);
        }
    }
}

proof fn lemma_candidates_len(paths: Seq<Seq<char>>)
    ensures
        crate::discover::candidates_of(paths).len() <= paths.len(),
    decreases paths.len(),
{
    if paths.len() > 0 {
        lemma_candidates_len(paths.drop_first());
    }
}

proof fn lemma_insert_by_path_len(x: (Seq<char>, Seq<char>), s: Seq<(Seq<char>, Seq<char>)>)
    ensures
        crate::discover::insert_by_path(x, s).len() == s.len() + 1,
    decreases s.len(),
{
    if s.len() > 0 && !crate::discover::lex_lt(x.1, s[0].1) {
        lemma_insert_by_path_len(x, s.drop_first());
    }
}

proof fn lemma_sort_len(s: Seq<(Seq<char>, Seq<char>)>)
    ensures
        crate::discover::sort_by_path(s).len() == s.len(),
    decreases s.len(),
{
    if s.len() > 0 {
        lemma_sort_len(s.drop_last());
        lemma_insert_by_path_len(s.last(), crate::discover::sort_by_path(s.drop_last()));
    }
}

/// Converts parsed (name, path) records into triggers.
#[verifier::loop_isolation(false)]
pub fn triggers_from_records(recs: &Vec<(String, String)>) -> (r: Vec<TriggerEntry>)
    ensures
        trig_views(r@) == rec_views(recs@),
{
    let n = recs.len();
    let mut out: Vec<TriggerEntry> = Vec::new();
    let mut i: usize = 0;
    proof {
        assert(trig_views(out@) =~= rec_views(recs@).take(0));
    }
    while i < n
        invariant
            n == recs@.len(),
            0 <= i <= n,
            trig_views(out@) =~= rec_views(recs@).take(i as int),
        decreases n - i,
    {
        out.push(TriggerEntry { name: recs[i].0.clone(), path: recs[i].1.clone() });
        proof {
            assert(trig_views(out@) =~= rec_views(recs@).take(i + 1));
        }
        i = i + 1;
    }
    proof {
        assert(rec_views(recs@).take(n as int) =~= rec_views(recs@));
    }
    out
}

/// Converts triggers into (name, path) records for serialization.
#[verifier::loop_isolation(false)]
pub fn triggers_to_records(trigs: &Vec<TriggerEntry>) -> (r: Vec<(String, String)>)
    ensures
        rec_views(r@) == trig_views(trigs@),
{
    let n = trigs.len();
    let mut out: Vec<(String, String)> = Vec::new();
    let mut i: usize = 0;
    proof {
        assert(rec_views(out@) =~= trig_views(trigs@).take(0));
    }
    while i < n
        invariant
            n == trigs@.len(),
            0 <= i <= n,
            rec_views(out@) =~= trig_views(trigs@).take(i as int),
        decreases n - i,
    {
        out.push((trigs[i].name.clone(), trigs[i].path.clone()));
        proof {
            assert(rec_views(out@) =~= trig_views(trigs@).take(i + 1));
        }
        i = i + 1;
    }
    proof {
        assert(trig_views(trigs@).take(n as int) =~= trig_views(trigs@));
    }
    out
}

/// Resynchronizes a bank manifest with its asset tree: the triggers the
/// manifest already carries are merged with the discovered audio paths,
/// and the manifest's trigger blocks are replaced with the merged list,
/// touching no other line.  Returns the patched manifest text and the
/// merged triggers.
pub fn resync_bank_triggers(manifest_text: &str, rel_audio_paths: &Vec<String>) -> (r: Result<
    (String, Vec<TriggerEntry>),
    String,
>)
    requires
        manifest_text@.len() + rel_audio_paths@.len() + 4 < usize::MAX,
    ensures
        match r {
            Ok(p) => exists|prev: Seq<(Seq<char>, Seq<char>)>|
                #![trigger merge_spec(prev, discover_spec(line_views(rel_audio_paths@)))]
                doc_tables_read(manifest_text@, triggers_table(), name_key(), path_key(), prev)
                    && trig_views(p.1@) == merge_spec(
                    prev,
                    discover_spec(line_views(rel_audio_paths@)),
                ) && tables_doc_patched(
                    manifest_text@,
                    bank_section(),
                    triggers_table(),
                    name_key(),
                    path_key(),
                    trig_views(p.1@),
                    p.0@,
                ),
            Err(m) => crate::patch::doc_lacks_section_for_tables(
                manifest_text@,
                bank_section(),
                triggers_table(),
            ) && m@ == crate::patch::bracketed(bank_section()) + " section not found"@,
        },
{
    proof {
        reveal_strlit("triggers");
        reveal_strlit("name");
        reveal_strlit("path");
        reveal_strlit("bank");
        assert("triggers"@ =~= triggers_table());
        assert("name"@ =~= name_key());
        assert("path"@ =~= path_key());
        assert("bank"@ =~= bank_section());
    }
    let existing_recs = parse_tables_in_manifest(manifest_text, "triggers", "name", "path");
    let ghost prev = rec_views(existing_recs@);
    proof {
        let lv = choose|lv: Seq<Seq<char>>|
            #![trigger join_lines(lv)]
            crate::text::all_no_newline(lv) && join_lines(lv) == manifest_text@
                && parse_tables_from(lv, triggers_table(), name_key(), path_key(), 0) == prev;
        lemma_join_lines_len(lv);
        lemma_parse_tables_len(lv, triggers_table(), name_key(), path_key(), 0);
        assert(prev.len() <= manifest_text@.len() + 1);
        lemma_candidates_len(line_views(rel_audio_paths@));
        lemma_sort_len(crate::discover::candidates_of(line_views(rel_audio_paths@)));
    }
    let existing = triggers_from_records(&existing_recs);
    let discovered = discover_triggers(rel_audio_paths);
    let merged = merge_triggers(existing, discovered);
    let recs = triggers_to_records(&merged);
    match replace_tables_in_manifest(manifest_text, "bank", "triggers", "name", "path", &recs) {
        Ok(text) => Ok((text, merged)),
        Err(m) => Err(m),
    }
}

} // verus!

use vstd::prelude::*;

verus! {

/// `exports`, the repeated table of a plugin manifest.
pub open spec fn exports_table() -> Seq<char> {
    seq!['e', 'x', 'p', 'o', 'r', 't', 's']
}

/// `kind`, the second field of an export record.
pub open spec fn kind_key() -> Seq<char> {
    seq!['k', 'i', 'n', 'd']
}

/// Export names as (name, `func`) records.
pub open spec fn export_records(names: Seq<Seq<char>>) -> Seq<(Seq<char>, Seq<char>)> {
    names.map_values(|n: Seq<char>| (n, seq!['f', 'u', 'n', 'c']))
}

/// Resynchronizes a plugin manifest with its compiled module: the export
/// table is fully regenerated from the module's function exports that
/// follow the setter convention or were declared in source, and the
/// manifest's export blocks are replaced with that list, touching no
/// other line.  Returns the patched manifest text and the export names.
#[verifier::loop_isolation(false)]
pub fn resync_plugin_exports(
    manifest_text: &str,
    wasm_bytes: &Vec<u8>,
    declared: &Vec<String>,
) -> (r: Result<(String, Vec<String>), String>)
    ensures
        match r {
            Ok(p) => line_views(p.1@) == crate::exports::select_spec(
                crate::exports::wasm_func_exports(wasm_bytes@),
                line_views(declared@),
            ) && tables_doc_patched(
                manifest_text@,
                crate::patch::plugin_section(),
                exports_table(),
                name_key(),
                kind_key(),
                export_records(line_views(p.1@)),
                p.0@,
            ),
            Err(m) => crate::patch::doc_lacks_section_for_tables(
                manifest_text@,
                crate::patch::plugin_section(),
                exports_table(),
            ) && m@ == crate::patch::bracketed(crate::patch::plugin_section())
                + " section not found"@,
        },
{
    proof {
        reveal_strlit("exports");
        reveal_strlit("name");
        reveal_strlit("kind");
        reveal_strlit("plugin");
        reveal_strlit("func");
        assert("exports"@ =~= exports_table());
        assert("name"@ =~= name_key());
        assert("kind"@ =~= kind_key());
        assert("plugin"@ =~= crate::patch::plugin_section());
    }
    let names = crate::exports::wasm_func_export_names(wasm_bytes);
    let selected = crate::exports::select_exports(&names, declared);
    let mut recs: Vec<(String, String)> = Vec::new();
    let n = selected.len();
    let mut i: usize = 0;
    proof {
        assert(rec_views(recs@) =~= export_records(line_views(selected@)).take(0));
    }
    while i < n
        invariant
            n == selected@.len(),
            0 <= i <= n,
            rec_views(recs@) =~= export_records(line_views(selected@)).take(i as int),
        decreases n - i,
    {
        let ghost prevr = rec_views(recs@);
        recs.push((selected[i].clone(), String::from_str("func")));
        proof {
            assert("func"@ =~= seq!['f', 'u', 'n', 'c']);
            assert(rec_views(recs@) =~= prevr.push((line_views(selected@)[i as int], seq![
                'f',
                'u',
                'n',
                'c',
            ])));
            assert(export_records(line_views(selected@)).take(i + 1) =~= export_records(
                line_views(selected@),
            ).take(i as int).push((line_views(selected@)[i as int], seq!['f', 'u', 'n', 'c'])));
        }
        i = i + 1;
    }
    proof {
        assert(export_records(line_views(selected@)).take(n as int) =~= export_records(
            line_views(selected@),
        ));
    }
    match replace_tables_in_manifest(manifest_text, "plugin", "exports", "name", "kind", &recs) {
        Ok(text) => Ok((text, selected)),
        Err(m) => Err(m),
    }
}

} // verus!

use vstd::prelude::*;

verus! {

/// Law: a rebuild against an unchanged asset tree reproduces the manifest
/// byte for byte.  The first resynchronization writes the merged trigger
/// list into the manifest; reading that manifest back yields the same
/// list, merging it with the unchanged discovered triggers changes
/// nothing, and writing it again leaves every line as it is.
pub proof fn lemma_resync_idempotent(lv: Seq<Seq<char>>, discovered: Seq<(Seq<char>, Seq<char>)>)
    requires
        forall|i: int, j: int|
            0 <= i < j < discovered.len() ==> (#[trigger] discovered[i]).1 != (
            #[trigger] discovered[j]).1,
        replace_tables_spec(
            lv,
            bank_section(),
            triggers_table(),
            name_key(),
            path_key(),
            merge_spec(
                parse_tables_from(lv, triggers_table(), name_key(), path_key(), 0),
                discovered,
            ),
        ) is Some,
    ensures
        ({
            let first = merge_spec(
                parse_tables_from(lv, triggers_table(), name_key(), path_key(), 0),
                discovered,
            );
            let out = replace_tables_spec(
                lv,
                bank_section(),
                triggers_table(),
                name_key(),
                path_key(),
                first,
            )->Some_0;
            let second = merge_spec(
                parse_tables_from(out, triggers_table(), name_key(), path_key(), 0),
                discovered,
            );
            second == first && replace_tables_spec(
                out,
                bank_section(),
                triggers_table(),
                name_key(),
                path_key(),
                second,
            ) == Some(out)
        }),
{
    let nk = name_key();
    let pk = path_key();
    assert(nk[0] == 'n');
    assert(pk[0] == 'p');
    assert(forall|i: int| 0 <= i < nk.len() ==> nk[i] != '=') by {
        assert(nk[0] == 'n' && nk[1] == 'a' && nk[2] == 'm' && nk[3] == 'e');
    }
    assert(forall|i: int| 0 <= i < pk.len() ==> pk[i] != '=') by {
        assert(pk[0] == 'p' && pk[1] == 'a' && pk[2] == 't' && pk[3] == 'h');
    }
    let prev = parse_tables_from(lv, triggers_table(), nk, pk, 0);
    let first = merge_spec(prev, discovered);
    crate::patch::lemma_replace_tables_parse_back(
        lv,
        bank_section(),
        triggers_table(),
        nk,
        pk,
        first,
    );
    crate::discover::lemma_merge_idempotent(prev, discovered);
    crate::patch::lemma_replace_tables_idempotent(
        lv,
        bank_section(),
        triggers_table(),
        nk,
        pk,
        first,
    );
}

} // verus!

use vstd::prelude::*;

verus! {

/// The manifest a freshly scaffolded bank starts with.
pub fn scaffold_bank_manifest(
    name: &str,
    publisher: &str,
    description: &str,
    audio_path: &str,
    access: &str,
) -> (r: String)
    ensures
        r@ == "[bank]\nname = \""@ + name@ + "\"\npublisher = \""@ + publisher@
            + "\"\naudio_path = \""@ + audio_path@ + "\"\ndescription = \""@ + description@
            + "\"\nversion = \"0.0.1\"\naccess = \""@ + access@ + "\"\n"@,
{
    let mut s = String::from_str("[bank]\nname = \"");
    s.append(name);
    s.append("\"\npublisher = \"");
    s.append(publisher);
    s.append("\"\naudio_path = \"");
    s.append(audio_path);
    s.append("\"\ndescription = \"");
    s.append(description);
    s.append("\"\nversion = \"0.0.1\"\naccess = \"");
    s.append(access);
    s.append("\"\n");
    s
}

/// The manifest a freshly scaffolded plugin starts with: identity fields
/// and one placeholder export.
pub fn scaffold_plugin_manifest(
    name: &str,
    publisher: &str,
    description: &str,
    access: &str,
) -> (r: String)
    ensures
        r@ == "[plugin]\nname = \""@ + name@ + "\"\npublisher = \""@ + publisher@
            + "\"\ndescription = \""@ + description@
            + "\"\nversion = \"0.0.1\"\naccess = \""@ + access@
            + "\"\n\n[[exports]]\nname = \"process\"\nkind = \"func\"\n"@,
{
    let mut s = String::from_str("[plugin]\nname = \"");
    s.append(name);
    s.append("\"\npublisher = \"");
    s.append(publisher);
    s.append("\"\ndescription = \"");
    s.append(description);
    s.append("\"\nversion = \"0.0.1\"\naccess = \"");
    s.append(access);
    s.append("\"\n\n[[exports]]\nname = \"process\"\nkind = \"func\"\n");
    s
}

} // verus!
