//! The archive builder: selects the files of one package subtree out of a
//! tagged tree's blobs and streams them into a gzip-compressed tar archive
//! and a deflate-compressed zip archive holding the same entries.

use std::io::Write;
use vstd::prelude::*;
use vstd::string::*;

use crate::errors::ReleaseError;
use crate::plan::path_has_prefix;
use crate::text::{str_eq, u64_to_string, spec_dec};
use crate::version::{spec_version_str, version_string, Version};

verus! {

// ---------------------------------------------------------------------------
// Path handling.
// ---------------------------------------------------------------------------

/// An empty relative root stands for the whole tree.
pub open spec fn spec_normalize_relative(s: Seq<char>) -> Seq<char> {
    if s == "."@ {
        Seq::empty()
    } else {
        s
    }
}

/// Turns the `.` relative root into the empty root.
pub fn normalize_relative(path: &str) -> (r: String)
    ensures
        r@ == spec_normalize_relative(path@),
{
    if str_eq(path, ".") {
        String::new()
    } else {
        path.to_owned()
    }
}

/// The `/`-separated components of a path; empty components are kept.
pub open spec fn spec_split_slash(s: Seq<char>) -> Seq<Seq<char>>
    decreases s.len(),
{
    if s.len() == 0 {
        seq![Seq::<char>::empty()]
    } else {
        let rest = spec_split_slash(s.drop_last());
        if s.last() == '/' {
            rest.push(Seq::empty())
        } else {
            rest.update(rest.len() - 1, rest.last().push(s.last()))
        }
    }
}

pub proof fn lemma_split_nonempty(s: Seq<char>)
    ensures
        spec_split_slash(s).len() >= 1,
    decreases s.len(),
{
    if s.len() > 0 {
        lemma_split_nonempty(s.drop_last());
    }
}

pub open spec fn str_views(s: Seq<String>) -> Seq<Seq<char>> {
    s.map_values(|x: String| x@)
}

/// Splits a path on `/`.
pub fn split_slash(s: &str) -> (r: Vec<String>)
    ensures
        str_views(r@) == spec_split_slash(s@),
{
    let mut r: Vec<String> = Vec::new();
    let mut cur = String::new();
    let n = s.unicode_len();
    let mut i: usize = 0;
    proof {
        assert(s@.subrange(0, 0) =~= Seq::<char>::empty());
        assert(str_views(r@).push(cur@) =~= spec_split_slash(s@.subrange(0, 0)));
    }
    while i < n
        invariant
            0 <= i <= n,
            n == s@.len(),
            str_views(r@).push(cur@) == spec_split_slash(s@.subrange(0, i as int)),
        decreases n - i,
    {
        let ghost pre = s@.subrange(0, i as int);
        let ghost pre1 = s@.subrange(0, i + 1);
        proof {
            assert(pre1.drop_last() =~= pre);
            assert(pre1.last() == s@[i as int]);
            lemma_split_nonempty(pre);
        }
        let ghost oc = cur@;
        let ghost old_r = r@;
        let c = s.get_char(i);
        if c == '/' {
            r.push(cur);
            cur = String::new();
            proof {
                let sp = spec_split_slash(pre);
                assert(sp == str_views(old_r).push(oc));
                assert(str_views(r@) =~= str_views(old_r).push(oc));
                assert(spec_split_slash(pre1) == sp.push(Seq::<char>::empty()));
                assert(str_views(r@).push(cur@) =~= spec_split_slash(pre1));
            }
        } else {
            let piece = s.substring_char(i, i + 1);
            proof {
                assert(piece@ =~= seq![s@[i as int]]);
            }
            cur.append(piece);
            proof {
                let sp = spec_split_slash(pre);
                assert(sp == str_views(old_r).push(oc));
                assert(sp.last() == oc);
                assert(cur@ =~= oc.push(s@[i as int]));
                assert(spec_split_slash(pre1) == sp.update(sp.len() - 1, sp.last().push(
                    s@[i as int],
                )));
                assert(sp.update(sp.len() - 1, oc.push(s@[i as int])) =~= str_views(old_r).push(
                    oc.push(s@[i as int]),
                ));
                assert(str_views(r@).push(cur@) =~= spec_split_slash(pre1));
            }
        }
        i = i + 1;
    }
    proof {
        assert(s@.subrange(0, n as int) =~= s@);
    }
    r.push(cur);
    proof {
        assert(str_views(r@) =~= spec_split_slash(s@));
    }
    r
}

/// A path is skipped when any of its components is version-control metadata
/// or build output.
pub open spec fn spec_skip_component(c: Seq<char>) -> bool {
    c == ".git"@ || c == ".github"@ || c == "target"@
}

pub open spec fn spec_should_skip(path: Seq<char>) -> bool {
    exists|k: int|
        0 <= k < spec_split_slash(path).len() && spec_skip_component(
            #[trigger] spec_split_slash(path)[k],
        )
}

/// Whether a path must stay out of the artifacts: version-control metadata
/// and build-output directories.
pub fn should_skip_artifact_path(path: &str) -> (r: bool)
    ensures
        r == spec_should_skip(path@),
{
    let comps = split_slash(path);
    let mut k: usize = 0;
    while k < comps.len()
        invariant
            0 <= k <= comps@.len(),
            str_views(comps@) == spec_split_slash(path@),
            forall|t: int|
                0 <= t < k ==> !spec_skip_component(#[trigger] spec_split_slash(path@)[t]),
        decreases comps@.len() - k,
    {
        let c = comps[k].as_str();
        proof {
            assert(spec_split_slash(path@)[k as int] == comps@[k as int]@);
        }
        if str_eq(c, ".git") || str_eq(c, ".github") || str_eq(c, "target") {
            return true;
        }
        k = k + 1;
    }
    false
}

/// The components joined back with `/`.
pub open spec fn spec_join_slash(parts: Seq<Seq<char>>) -> Seq<char>
    decreases parts.len(),
{
    if parts.len() == 0 {
        Seq::empty()
    } else if parts.len() == 1 {
        parts[0]
    } else {
        spec_join_slash(parts.drop_last()) + seq!['/'] + parts.last()
    }
}

/// Renders a path with `/` between its components.
#[verifier::loop_isolation(false)]
pub fn to_unix_path(path: &str) -> (r: String)
    ensures
        r@ == spec_join_slash(spec_split_slash(path@)),
{
    proof {
        reveal_strlit("/");
    }
    let comps = split_slash(path);
    let ghost parts = spec_split_slash(path@);
    let mut r = String::new();
    let mut k: usize = 0;
    proof {
        lemma_split_nonempty(path@);
        assert(parts.subrange(0, 0) =~= Seq::<Seq<char>>::empty());
    }
    while k < comps.len()
        invariant
            0 <= k <= comps@.len(),
            str_views(comps@) == parts,
            r@ == spec_join_slash(parts.subrange(0, k as int)),
        decreases comps@.len() - k,
    {
        let ghost pre = parts.subrange(0, k as int);
        let ghost pre1 = parts.subrange(0, k + 1);
        proof {
            assert(pre1.drop_last() =~= pre);
            assert(pre1.last() == parts[k as int]);
            assert(parts[k as int] == comps@[k as int]@);
        }
        if k > 0 {
            r.append("/");
        }
        r.append(comps[k].as_str());
        proof {
            assert(r@ =~= spec_join_slash(pre1));
        }
        k = k + 1;
    }
    proof {
        assert(parts.subrange(0, parts.len() as int) =~= parts);
    }
    r
}

/// A path rendered for humans; paths are already plain strings here.
pub fn display_path(path: &str) -> (r: String)
    ensures
        r@ == path@,
{
    path.to_owned()
}

// ---------------------------------------------------------------------------
// The two archive sinks, behind the tar, flate2 and zip crates.
// ---------------------------------------------------------------------------

/// A gzip-compressed tar archive under construction, in memory.
#[verifier::external_body]
pub struct TarGzSink {
    inner: tar::Builder<flate2::write::GzEncoder<Vec<u8>>>,
}

/// The entries appended to a tar sink so far, in order.
pub uninterp spec fn tar_entries(s: TarGzSink) -> Seq<(Seq<char>, Seq<u8>)>;

/// The gzip-compressed tar encoding of an entry sequence; the result
/// depends on the entries alone.
pub uninterp spec fn targz_bytes(entries: Seq<(Seq<char>, Seq<u8>)>) -> Seq<u8>;

/// A deflate-compressed zip archive under construction, in memory.
#[verifier::external_body]
pub struct ZipSink {
    inner: zip::ZipWriter<std::io::Cursor<Vec<u8>>>,
}

/// The entries appended to a zip sink so far, in order.
pub uninterp spec fn zip_entries(s: ZipSink) -> Seq<(Seq<char>, Seq<u8>)>;

/// The zip encoding of an entry sequence; the result depends on the
/// entries alone.
pub uninterp spec fn zip_bytes(entries: Seq<(Seq<char>, Seq<u8>)>) -> Seq<u8>;

/// Whether tar's header accepts a path; acceptance depends on the path
/// alone.
pub uninterp spec fn tar_path_ok(path: Seq<char>) -> bool;

/// Whether zip accepts a path as an entry name; acceptance depends on the
/// path alone (a clash with an already-appended name is a separate,
/// history-dependent failure).
pub uninterp spec fn zip_path_ok(path: Seq<char>) -> bool;

/// Relies on tar::Builder::new and flate2's GzEncoder::new: a fresh archive
/// with no entries.
#[verifier::external_body]
pub fn tar_gz_new() -> (r: TarGzSink)
    ensures
        tar_entries(r) == Seq::<(Seq<char>, Seq<u8>)>::empty(),
{
    let enc = flate2::write::GzEncoder::new(Vec::new(), flate2::Compression::default());
    TarGzSink { inner: tar::Builder::new(enc) }
}

/// Relies on tar::Header and tar::Builder::append: the append succeeds
/// exactly when the header accepts the path — a property of the path alone,
/// since writes into the in-memory sink cannot fail — and on success the
/// archive gains exactly one entry with this path, these bytes, and mode
/// 644.
#[verifier::external_body]
pub fn tar_gz_append(sink: &mut TarGzSink, path: &str, data: &[u8]) -> (r: bool)
    ensures
        r == tar_path_ok(path@),
        r ==> tar_entries(*final (sink)) == tar_entries(*old(sink)).push((path@, data@)),
{
    let mut header = tar::Header::new_gnu();
    if header.set_path(path).is_err() {
        return false;
    }
    header.set_size(data.len() as u64);
    header.set_mode(0o644);
    header.set_cksum();
    sink.inner.append(&header, data).is_ok()
}

/// Relies on tar::Builder::into_inner and GzEncoder::finish: the compressed
/// bytes encoding exactly the appended entries. Finishing into the
/// in-memory sink cannot fail.
#[verifier::external_body]
pub fn tar_gz_finish(sink: TarGzSink) -> (r: Option<Vec<u8>>)
    ensures
        r is Some,
        match r {
            Some(bytes) => bytes@ == targz_bytes(tar_entries(sink)),
            None => true,
        },
{
    match sink.inner.into_inner() {
        Ok(enc) => enc.finish().ok(),
        Err(_) => None,
    }
}

/// Relies on zip::ZipWriter::new: a fresh archive with no entries.
#[verifier::external_body]
pub fn zip_new() -> (r: ZipSink)
    ensures
        zip_entries(r) == Seq::<(Seq<char>, Seq<u8>)>::empty(),
{
    ZipSink { inner: zip::ZipWriter::new(std::io::Cursor::new(Vec::new())) }
}

/// Relies on zip::ZipWriter::start_file and write_all: the append succeeds
/// exactly when zip accepts the path and no appended entry already carries
/// this name (zip rejects duplicate names; writes into the in-memory sink
/// cannot fail), and on success the archive gains exactly one
/// deflate-compressed entry with this path, these bytes, and mode 644.
#[verifier::external_body]
pub fn zip_append(sink: &mut ZipSink, path: &str, data: &[u8]) -> (r: bool)
    ensures
        r == (zip_path_ok(path@) && forall|t: int|
            0 <= t < zip_entries(*old(sink)).len() ==> (#[trigger] zip_entries(*old(sink))[t]).0
                != path@),
        r ==> zip_entries(*final (sink)) == zip_entries(*old(sink)).push((path@, data@)),
{
    let opts = zip::write::SimpleFileOptions::default().compression_method(
        zip::CompressionMethod::Deflated,
    ).unix_permissions(0o644);
    if sink.inner.start_file(path, opts).is_err() {
        return false;
    }
    sink.inner.write_all(data).is_ok()
}

/// Relies on zip::ZipWriter::finish: the zip bytes encoding exactly the
/// appended entries. Finishing into the in-memory sink cannot fail.
#[verifier::external_body]
pub fn zip_finish(sink: ZipSink) -> (r: Option<Vec<u8>>)
    ensures
        r is Some,
        match r {
            Some(bytes) => bytes@ == zip_bytes(zip_entries(sink)),
            None => true,
        },
{
    match sink.inner.finish() {
        Ok(cur) => Some(cur.into_inner()),
        Err(_) => None,
    }
}

// ---------------------------------------------------------------------------
// Packaging one package subtree.
// ---------------------------------------------------------------------------

/// One blob of the tagged commit's tree: its repository-relative path and
/// its content.
pub struct TreeEntry {
    pub path: String,
    pub data: Vec<u8>,
}

/// A tree entry belongs in the package archive when it lies under the
/// package root (an empty root takes everything) and is not skipped.
pub open spec fn spec_entry_included(path: Seq<char>, crate_rel: Seq<char>) -> bool {
    &&& crate_rel.len() == 0 || path_has_prefix(path, crate_rel)
    &&& !spec_should_skip(path)
}

/// The archive entries of one package, in tree order: the included paths
/// with their content.
pub open spec fn spec_selected(entries: Seq<TreeEntry>, crate_rel: Seq<char>) -> Seq<
    (Seq<char>, Seq<u8>),
>
    decreases entries.len(),
{
    if entries.len() == 0 {
        Seq::empty()
    } else {
        let init = spec_selected(entries.drop_last(), crate_rel);
        let e = entries.last();
        if spec_entry_included(e.path@, crate_rel) {
            init.push((e.path@, e.data@))
        } else {
            init
        }
    }
}

/// Some entry of the selection carries this name.
spec fn sel_contains_name(sel: Seq<(Seq<char>, Seq<u8>)>, name: Seq<char>) -> bool {
    exists|t: int| 0 <= t < sel.len() && (#[trigger] sel[t]).0 == name
}

/// Some included entry among the first `hi` carries this name.
spec fn included_entry_named(
    entries: Seq<TreeEntry>,
    crate_rel: Seq<char>,
    hi: int,
    name: Seq<char>,
) -> bool {
    exists|k: int|
        0 <= k < hi && spec_entry_included((#[trigger] entries[k]).path@, crate_rel)
            && entries[k].path@ == name
}

/// Every included path is accepted by both archive formats, and no two
/// included entries share a path (zip admits each name once).
pub open spec fn spec_entries_packageable(entries: Seq<TreeEntry>, crate_rel: Seq<char>) -> bool {
    &&& forall|k: int|
        0 <= k < entries.len() && spec_entry_included((#[trigger] entries[k]).path@, crate_rel)
            ==> tar_path_ok(entries[k].path@) && zip_path_ok(entries[k].path@)
    &&& forall|k1: int, k2: int|
        0 <= k1 < k2 < entries.len() && spec_entry_included(
            (#[trigger] entries[k1]).path@,
            crate_rel,
        ) && spec_entry_included((#[trigger] entries[k2]).path@, crate_rel) ==> entries[k1].path@
            != entries[k2].path@
}

/// Packages one package subtree out of the tagged tree's blobs into both
/// archive formats.
///
/// It succeeds exactly when both formats accept every included path and no
/// two included entries share one. Both archives then encode exactly the
/// same selected entry sequence — the same relative paths with the same
/// content bytes, in the same order — so the two formats carry identical
/// file sets.
#[verifier::rlimit(60)]
pub fn package_crate(entries: &Vec<TreeEntry>, crate_rel: &str) -> (r: Result<
    (Vec<u8>, Vec<u8>),
    ReleaseError,
>)
    ensures
        r is Ok <==> spec_entries_packageable(entries@, spec_normalize_relative(crate_rel@)),
        match r {
            Ok(p) => {
                let sel = spec_selected(entries@, spec_normalize_relative(crate_rel@));
                p.0@ == targz_bytes(sel) && p.1@ == zip_bytes(sel)
            },
            Err(e) => e == ReleaseError::PackagingFailed,
        },
{
    let norm = normalize_relative(crate_rel);
    let ghost nv = spec_normalize_relative(crate_rel@);
    let norm_empty = norm.as_str().unicode_len() == 0;
    let mut tar = tar_gz_new();
    let mut zip = zip_new();
    let mut j: usize = 0;
    proof {
        assert(spec_selected(entries@.subrange(0, 0), nv) =~= Seq::<(Seq<char>, Seq<u8>)>::empty());
    }
    while j < entries.len()
        invariant
            0 <= j <= entries@.len(),
            norm@ == nv,
            nv == spec_normalize_relative(crate_rel@),
            norm_empty == (nv.len() == 0),
            tar_entries(tar) == spec_selected(entries@.subrange(0, j as int), nv),
            zip_entries(zip) == spec_selected(entries@.subrange(0, j as int), nv),
            forall|k: int|
                0 <= k < j && spec_entry_included((#[trigger] entries@[k]).path@, nv)
                    ==> tar_path_ok(entries@[k].path@) && zip_path_ok(entries@[k].path@),
            forall|k1: int, k2: int|
                0 <= k1 < k2 < j && spec_entry_included((#[trigger] entries@[k1]).path@, nv)
                    && spec_entry_included((#[trigger] entries@[k2]).path@, nv)
                    ==> entries@[k1].path@ != entries@[k2].path@,
            forall|t: int|
                0 <= t < spec_selected(entries@.subrange(0, j as int), nv).len()
                    ==> included_entry_named(
                    entries@,
                    nv,
                    j as int,
                    (#[trigger] spec_selected(entries@.subrange(0, j as int), nv)[t]).0,
                ),
            forall|k: int|
                0 <= k < j && spec_entry_included((#[trigger] entries@[k]).path@, nv)
                    ==> sel_contains_name(
                    spec_selected(entries@.subrange(0, j as int), nv),
                    entries@[k].path@,
                ),
        decreases entries@.len() - j,
    {
        let ghost pre = entries@.subrange(0, j as int);
        let ghost pre1 = entries@.subrange(0, j + 1);
        let ghost sel_pre = spec_selected(pre, nv);
        let ghost sel_pre1 = spec_selected(pre1, nv);
        proof {
            assert(pre1.drop_last() =~= pre);
            assert(pre1.last() == entries@[j as int]);
        }
        let e = &entries[j];
        let under_root = norm_empty || crate::plan::path_has_prefix_exec(
            e.path.as_str(),
            norm.as_str(),
        );
        if under_root && !should_skip_artifact_path(e.path.as_str()) {
            let ghost pj = entries@[j as int].path@;
            if !tar_gz_append(&mut tar, e.path.as_str(), e.data.as_slice()) {
                proof {
                    assert(!tar_path_ok(pj));
                    assert(spec_entry_included(pj, nv));
                    assert(!spec_entries_packageable(entries@, nv));
                }
                return Err(ReleaseError::PackagingFailed);
            }
            let ghost old_zip_entries = zip_entries(zip);
            if !zip_append(&mut zip, e.path.as_str(), e.data.as_slice()) {
                proof {
                    assert(old_zip_entries == sel_pre);
                    if zip_path_ok(pj) {
                        let t = choose|t: int| 0 <= t < sel_pre.len() && (#[trigger] sel_pre[t]).0
                            == pj;
                        assert(included_entry_named(entries@, nv, j as int, pj));
                        let k = choose|k: int|
                            0 <= k < j && spec_entry_included(
                                (#[trigger] entries@[k]).path@,
                                nv,
                            ) && entries@[k].path@ == pj;
                        assert(!spec_entries_packageable(entries@, nv)) by {
                            if spec_entries_packageable(entries@, nv) {
                                assert(entries@[k].path@ != entries@[j as int].path@);
                            }
                        }
                    } else {
                        assert(!spec_entries_packageable(entries@, nv));
                    }
                }
                return Err(ReleaseError::PackagingFailed);
            }
            proof {
                assert(sel_pre1 == sel_pre.push((pj, entries@[j as int].data@)));
                assert forall|t: int| 0 <= t < sel_pre1.len() implies included_entry_named(
                    entries@,
                    nv,
                    j + 1,
                    (#[trigger] sel_pre1[t]).0,
                ) by {
                    if t < sel_pre.len() {
                        assert(sel_pre1[t] == sel_pre[t]);
                        let k = choose|k: int|
                            0 <= k < j && spec_entry_included(
                                (#[trigger] entries@[k]).path@,
                                nv,
                            ) && entries@[k].path@ == sel_pre[t].0;
                        assert(0 <= k < j + 1 && spec_entry_included(entries@[k].path@, nv)
                            && entries@[k].path@ == sel_pre1[t].0);
                    } else {
                        assert(sel_pre1[t].0 == pj);
                        assert(spec_entry_included(entries@[j as int].path@, nv));
                    }
                }
                assert forall|k: int|
                    0 <= k < j + 1 && spec_entry_included((#[trigger] entries@[k]).path@, nv)
                        implies sel_contains_name(sel_pre1, entries@[k].path@) by {
                    if k < j {
                        let t = choose|t: int|
                            0 <= t < sel_pre.len() && (#[trigger] sel_pre[t]).0
                                == entries@[k].path@;
                        assert(sel_pre1[t].0 == entries@[k].path@);
                    } else {
                        assert(sel_pre1[sel_pre.len() as int].0 == pj);
                    }
                }
                assert forall|k1: int, k2: int|
                    0 <= k1 < k2 < j + 1 && spec_entry_included(
                        (#[trigger] entries@[k1]).path@,
                        nv,
                    ) && spec_entry_included((#[trigger] entries@[k2]).path@, nv)
                        implies entries@[k1].path@ != entries@[k2].path@ by {
                    if k2 == j {
                        let t = choose|t: int|
                            0 <= t < sel_pre.len() && (#[trigger] sel_pre[t]).0
                                == entries@[k1].path@;
                        assert(sel_pre[t].0 != pj);
                    }
                }
            }
        } else {
            proof {
                assert(sel_pre1 == sel_pre);
                assert forall|t: int| 0 <= t < sel_pre1.len() implies included_entry_named(
                    entries@,
                    nv,
                    j + 1,
                    (#[trigger] sel_pre1[t]).0,
                ) by {
                    let k = choose|k: int|
                        0 <= k < j && spec_entry_included((#[trigger] entries@[k]).path@, nv)
                            && entries@[k].path@ == sel_pre[t].0;
                    assert(0 <= k < j + 1 && spec_entry_included(entries@[k].path@, nv)
                        && entries@[k].path@ == sel_pre1[t].0);
                }
            }
        }
        j = j + 1;
    }
    proof {
        assert(entries@.subrange(0, entries@.len() as int) =~= entries@);
        assert(spec_entries_packageable(entries@, nv));
    }
    let tar_bytes = match tar_gz_finish(tar) {
        Some(b) => b,
        None => {
            proof {
                assert(false);
            }
            return Err(ReleaseError::PackagingFailed);
        },
    };
    let zip_bytes_out = match zip_finish(zip) {
        Some(b) => b,
        None => {
            proof {
                assert(false);
            }
            return Err(ReleaseError::PackagingFailed);
        },
    };
    Ok((tar_bytes, zip_bytes_out))
}

// ---------------------------------------------------------------------------
// Artifact naming.
// ---------------------------------------------------------------------------

/// The base name of one package's artifacts: repository name, the package
/// name unless it is the primary package, the new version, and the
/// candidate number.
pub open spec fn spec_artifact_base(
    repo: Seq<char>,
    crate_name: Seq<char>,
    main: Seq<char>,
    v: Version,
    rc_n: nat,
) -> Seq<char> {
    if crate_name == main {
        "apache-"@ + repo + "-"@ + spec_version_str(v) + "-rc"@ + spec_dec(rc_n) + "-src"@
    } else {
        "apache-"@ + repo + "-"@ + crate_name + "-"@ + spec_version_str(v) + "-rc"@ + spec_dec(
            rc_n,
        ) + "-src"@
    }
}

/// Renders one package's artifact base name.
pub fn artifact_base_name(
    repo_name: &str,
    crate_name: &str,
    main_crate: &str,
    version: &Version,
    rc_n: u64,
) -> (r: String)
    ensures
        r@ == spec_artifact_base(repo_name@, crate_name@, main_crate@, *version, rc_n as nat),
{
    let mut r = String::from_str("apache-");
    r.append(repo_name);
    r.append("-");
    if !str_eq(crate_name, main_crate) {
        r.append(crate_name);
        r.append("-");
    }
    let ver = version_string(version);
    r.append(ver.as_str());
    r.append("-rc");
    let num = u64_to_string(rc_n);
    r.append(num.as_str());
    r.append("-src");
    proof {
        assert(r@ =~= spec_artifact_base(repo_name@, crate_name@, main_crate@, *version,
            rc_n as nat));
    }
    r
}

} // verus!
