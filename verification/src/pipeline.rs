//! The pipeline's decision core: the planning gate that aborts before any
//! mutation when the primary package has no changes, the computation of
//! every file write that applying a plan entails, and the release commit
//! message.

use vstd::prelude::*;
use vstd::string::*;

use crate::changelog::{spec_changelog_section, update_changelog};
use crate::errors::ReleaseError;
use crate::manifest::{
    apply_manifest, spec_apply_sections, spec_versioned_text, toml_has_package, toml_parse_ok,
};
use crate::plan::{
    compute_plan, crate_names_distinct, plan_has_name, plan_matches, versions_bounded, CommitRecord,
    CrateInfo, Plan, PlanEntryView,
};
use crate::version::{spec_version_str, version_string, Version};

verus! {

/// The message of the release-preparation commit.
pub open spec fn spec_release_commit_message(v: Version) -> Seq<char> {
    "chore(release): prepare v"@ + spec_version_str(v)
}

pub fn release_commit_message(v: &Version) -> (r: String)
    ensures
        r@ == spec_release_commit_message(*v),
{
    let mut r = String::from_str("chore(release): prepare v");
    let ver = version_string(v);
    r.append(ver.as_str());
    r
}

/// The planning gate: builds the change plan and aborts — before anything
/// is mutated — when the primary package has no attributed changes.
pub fn plan_prerelease(
    crates: &Vec<CrateInfo>,
    repo_root: &str,
    commits: &Vec<CommitRecord>,
    main_crate: &str,
) -> (r: Result<Plan, ReleaseError>)
    requires
        crate_names_distinct(crates@),
        versions_bounded(crates@),
    ensures
        match r {
            Ok(plan) => plan_matches(crates@, repo_root@, commits@, plan@) && plan_has_name(
                plan@,
                main_crate@,
            ),
            Err(e) => {
                &&& e == ReleaseError::MainCrateUnchanged
                &&& forall|ci: int|
                    0 <= ci < crates@.len() && (#[trigger] crates@[ci].name@) == main_crate@
                        ==> crate::plan::spec_crate_changes(crates@, repo_root@, commits@, ci).len()
                        == 0
            },
        },
{
    let plan = compute_plan(crates, repo_root, commits);
    match plan.crate_plan(main_crate) {
        Some(_) => Ok(plan),
        None => {
            proof {
                assert forall|ci: int|
                    0 <= ci < crates@.len() && (#[trigger] crates@[ci].name@) == main_crate@
                        implies crate::plan::spec_crate_changes(
                    crates@,
                    repo_root@,
                    commits@,
                    ci,
                ).len() == 0 by {
                    if crate::plan::spec_crate_changes(crates@, repo_root@, commits@, ci).len()
                        > 0 {
                        assert(plan@.contains(crate::plan::spec_expected_entry(
                            crates@,
                            repo_root@,
                            commits@,
                            ci,
                        )));
                        let t = choose|t: int|
                            0 <= t < plan@.len() && plan@[t] == crate::plan::spec_expected_entry(
                                crates@,
                                repo_root@,
                                commits@,
                                ci,
                            );
                        assert(plan@[t].name == main_crate@);
                    }
                }
            }
            Err(ReleaseError::MainCrateUnchanged)
        },
    }
}

/// The file writes that applying the plan produces for one package: the
/// mutated manifest, written only when something in it changed, and the
/// new changelog for planned packages.
pub struct CrateWrite {
    pub manifest: Option<String>,
    pub changelog: Option<String>,
}

/// What `apply_changes` owes for the `i`-th package.
pub open spec fn spec_crate_write_ok(
    crates: Seq<CrateInfo>,
    manifest_texts: Seq<String>,
    changelog_texts: Seq<String>,
    pv: Seq<PlanEntryView>,
    changed: Seq<(String, Version)>,
    date: Seq<char>,
    i: int,
    w: CrateWrite,
) -> bool {
    let name = crates[i].name@;
    let text = manifest_texts[i]@;
    let planned = plan_has_name(pv, name);
    &&& (w.changelog is Some <==> planned)
    &&& match w.changelog {
        Some(c) => exists|t: int|
            0 <= t < pv.len() && (#[trigger] pv[t]).name == name && c@ == spec_changelog_section(
                name,
                pv[t].new_version,
                date,
                pv[t].changes,
            ) + changelog_texts[i]@,
        None => true,
    }
    &&& {
        let deps = spec_apply_sections(spec_versioned_text_for(text, pv, name), changed);
        &&& (w.manifest is Some <==> ((planned && toml_has_package(text)) || deps.1))
        &&& match w.manifest {
            Some(m) => m@ == deps.0,
            None => true,
        }
    }
}

/// The version-stage text of one manifest: the new version is written in
/// when the package is planned.
pub open spec fn spec_versioned_text_for(
    text: Seq<char>,
    pv: Seq<PlanEntryView>,
    name: Seq<char>,
) -> Seq<char> {
    if exists|t: int| 0 <= t < pv.len() && (#[trigger] pv[t]).name == name {
        let t = choose|t: int| 0 <= t < pv.len() && (#[trigger] pv[t]).name == name;
        spec_versioned_text(text, Some(pv[t].new_version))
    } else {
        spec_versioned_text(text, None)
    }
}

/// The plan's (name, new version) pairs, in plan order.
pub open spec fn spec_changed_list(changed: Seq<(String, Version)>, pv: Seq<PlanEntryView>) -> bool {
    &&& changed.len() == pv.len()
    &&& forall|t: int|
        0 <= t < pv.len() ==> (#[trigger] changed[t].0@) == pv[t].name && changed[t].1
            == pv[t].new_version
}

fn collect_changed(plan: &Plan) -> (r: Vec<(String, Version)>)
    ensures
        spec_changed_list(r@, plan@),
{
    let mut r: Vec<(String, Version)> = Vec::new();
    let mut t: usize = 0;
    while t < plan.changed_count()
        invariant
            0 <= t <= plan@.len(),
            r@.len() == t,
            forall|q: int|
                0 <= q < t ==> (#[trigger] r@[q].0@) == plan@[q].name && r@[q].1
                    == plan@[q].new_version,
        decreases plan@.len() - t,
    {
        let name = plan.name_at(t).to_owned();
        let ver = *plan.plan_at(t).new_version();
        r.push((name, ver));
        t = t + 1;
    }
    r
}

/// Applies the plan to every package: computes the mutated manifest text of
/// every workspace manifest (written back only when something changed), the
/// prepended changelog of every planned package, and the release commit
/// message naming the primary package's new version.
///
/// Nothing here touches a file: the caller performs exactly the writes
/// described by the result, so a failure returns before any mutation.
pub fn apply_changes(
    crates: &Vec<CrateInfo>,
    manifest_texts: &Vec<String>,
    changelog_texts: &Vec<String>,
    plan: &Plan,
    date: &str,
    main_crate: &str,
) -> (r: Result<(Vec<CrateWrite>, String), ReleaseError>)
    requires
        manifest_texts@.len() == crates@.len(),
        changelog_texts@.len() == crates@.len(),
        plan_sorted_names(plan@),
    ensures
        match r {
            Ok(p) => {
                &&& p.0@.len() == crates@.len()
                &&& exists|changed: Seq<(String, Version)>|
                    #[trigger] spec_changed_list(changed, plan@) && forall|i: int|
                        0 <= i < crates@.len() ==> spec_crate_write_ok(
                            crates@,
                            manifest_texts@,
                            changelog_texts@,
                            plan@,
                            changed,
                            date@,
                            i,
                            #[trigger] p.0@[i],
                        )
                &&& exists|t: int|
                    0 <= t < plan@.len() && (#[trigger] plan@[t]).name == main_crate@ && p.1@
                        == spec_release_commit_message(plan@[t].new_version)
            },
            Err(e) => {
                ||| (e == ReleaseError::MainCrateUnchanged && !plan_has_name(plan@, main_crate@))
                ||| (e == ReleaseError::ManifestUnparsable && exists|i: int|
                    0 <= i < crates@.len() && !toml_parse_ok(#[trigger] manifest_texts@[i]@))
            },
        },
{
    let changed = collect_changed(plan);
    let main_version = match plan.crate_plan(main_crate) {
        Some(cp) => *cp.new_version(),
        None => {
            return Err(ReleaseError::MainCrateUnchanged);
        },
    };
    let message = release_commit_message(&main_version);
    let mut writes: Vec<CrateWrite> = Vec::new();
    let mut i: usize = 0;
    while i < crates.len()
        invariant
            0 <= i <= crates@.len(),
            manifest_texts@.len() == crates@.len(),
            changelog_texts@.len() == crates@.len(),
            plan_sorted_names(plan@),
            spec_changed_list(changed@, plan@),
            writes@.len() == i,
            forall|q: int|
                0 <= q < i ==> spec_crate_write_ok(
                    crates@,
                    manifest_texts@,
                    changelog_texts@,
                    plan@,
                    changed@,
                    date@,
                    q,
                    #[trigger] writes@[q],
                ),
        decreases crates@.len() - i,
    {
        let name = crates[i].name.as_str();
        let mut changelog: Option<String> = None;
        let mut pver: Option<Version> = None;
        match plan.crate_plan(name) {
            Some(cp) => {
                let c = update_changelog(
                    name,
                    cp.new_version(),
                    cp.changes(),
                    date,
                    changelog_texts[i].as_str(),
                );
                changelog = Some(c);
                pver = Some(*cp.new_version());
            },
            None => {},
        }
        let pref: Option<&Version> = match &pver {
            Some(v) => Some(v),
            None => None,
        };
        let m = match apply_manifest(manifest_texts[i].as_str(), pref, &changed) {
            Some(p) => p,
            None => {
                return Err(ReleaseError::ManifestUnparsable);
            },
        };
        let manifest: Option<String> = if m.2 || m.1 {
            Some(m.0)
        } else {
            None
        };
        let w = CrateWrite { manifest, changelog };
        proof {
            let namev = crates@[i as int].name@;
            if plan_has_name(plan@, namev) {
                let t = choose|t: int|
                    0 <= t < plan@.len() && (#[trigger] plan@[t]).name == namev;
                lemma_unique_plan_name(plan@, namev);
                assert(spec_versioned_text_for(manifest_texts@[i as int]@, plan@, namev)
                    == spec_versioned_text(
                    manifest_texts@[i as int]@,
                    Some(plan@[t].new_version),
                ));
            }
            assert(spec_crate_write_ok(
                crates@,
                manifest_texts@,
                changelog_texts@,
                plan@,
                changed@,
                date@,
                i as int,
                w,
            ));
        }
        writes.push(w);
        i = i + 1;
    }
    Ok((writes, message))
}

/// Plan entry names are pairwise distinct (they ascend strictly).
pub open spec fn plan_sorted_names(pv: Seq<PlanEntryView>) -> bool {
    crate::plan::plan_sorted(pv)
}

/// In a name-sorted plan, at most one entry carries a given name.
proof fn lemma_unique_plan_name(pv: Seq<PlanEntryView>, name: Seq<char>)
    requires
        plan_sorted_names(pv),
    ensures
        forall|t1: int, t2: int|
            0 <= t1 < pv.len() && 0 <= t2 < pv.len() && (#[trigger] pv[t1]).name == name && (
            #[trigger] pv[t2]).name == name ==> t1 == t2,
{
    assert forall|t1: int, t2: int|
        0 <= t1 < pv.len() && 0 <= t2 < pv.len() && (#[trigger] pv[t1]).name == name && (
        #[trigger] pv[t2]).name == name implies t1 == t2 by {
        if t1 < t2 {
            assert(crate::text::lex_lt(pv[t1].name, pv[t2].name));
        }
        if t2 < t1 {
            assert(crate::text::lex_lt(pv[t2].name, pv[t1].name));
        }
    }
}

} // verus!
