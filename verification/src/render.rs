//! The fixed texts the pipeline publishes: the kickoff discussion body, the
//! vote discussion body, and the release announcement body, with their
//! titles.

use vstd::prelude::*;
use vstd::string::*;

use crate::assets::{VoteArtifact, VoteArtifactView};
use crate::plan::{Plan, CrateInfo};
use crate::version::{spec_version_str, version_string};

verus! {

// ---------------------------------------------------------------------------
// Kickoff.
// ---------------------------------------------------------------------------

/// The kickoff discussion title.
pub fn start_title(repo_name: &str) -> (r: String)
    ensures
        r@ == repo_name@ + " Release Kickoff"@,
{
    let mut r = repo_name.to_owned();
    r.append(" Release Kickoff");
    r
}

/// One workspace row of the kickoff body.
pub open spec fn spec_start_row(c: CrateInfo) -> Seq<char> {
    "- "@ + c.name@ + " "@ + spec_version_str(c.version) + "\n"@
}

pub open spec fn spec_start_rows(cs: Seq<CrateInfo>) -> Seq<char>
    decreases cs.len(),
{
    if cs.len() == 0 {
        Seq::empty()
    } else {
        spec_start_rows(cs.drop_last()) + spec_start_row(cs.last())
    }
}

/// The kickoff discussion body.
pub open spec fn spec_start_body(
    repo_name: Seq<char>,
    main_crate: Seq<char>,
    base_tag: Option<Seq<char>>,
    crates: Seq<CrateInfo>,
) -> Seq<char> {
    "# "@ + repo_name + " Release Kickoff\n\n- Base tag: "@ + (match base_tag {
        Some(t) => t,
        None => "<none>"@,
    }) + "\n- Main crate: "@ + main_crate + "\n- Proposed release date: TBD\n\nWorkspace crates:\n"@
        + spec_start_rows(crates)
        + "\n\nPlease add agenda items, blockers, and verification tasks below. Once scope is agreed, run `asfship prerelease` to prepare the first release candidate.\n"@
}

/// Renders the kickoff discussion body.
pub fn render_body(
    repo_name: &str,
    main_crate: &str,
    base_tag: Option<&String>,
    crates: &Vec<CrateInfo>,
) -> (r: String)
    ensures
        r@ == spec_start_body(
            repo_name@,
            main_crate@,
            match base_tag {
                Some(t) => Some(t@),
                None => None,
            },
            crates@,
        ),
{
    let mut out = String::from_str("# ");
    out.append(repo_name);
    out.append(" Release Kickoff\n\n- Base tag: ");
    match base_tag {
        Some(t) => out.append(t.as_str()),
        None => out.append("<none>"),
    }
    out.append("\n- Main crate: ");
    out.append(main_crate);
    out.append("\n- Proposed release date: TBD\n\nWorkspace crates:\n");
    let ghost head = out@;
    let mut i: usize = 0;
    while i < crates.len()
        invariant
            0 <= i <= crates@.len(),
            out@ == head + spec_start_rows(crates@.subrange(0, i as int)),
        decreases crates@.len() - i,
    {
        let ghost pre = crates@.subrange(0, i as int);
        let ghost pre1 = crates@.subrange(0, i + 1);
        proof {
            assert(pre1.drop_last() =~= pre);
            assert(pre1.last() == crates@[i as int]);
        }
        out.append("- ");
        out.append(crates[i].name.as_str());
        out.append(" ");
        let ver = version_string(&crates[i].version);
        out.append(ver.as_str());
        out.append("\n");
        proof {
            assert(out@ =~= head + spec_start_rows(pre1));
        }
        i = i + 1;
    }
    proof {
        assert(crates@.subrange(0, crates@.len() as int) =~= crates@);
    }
    out.append(
        "\n\nPlease add agenda items, blockers, and verification tasks below. Once scope is agreed, run `asfship prerelease` to prepare the first release candidate.\n",
    );
    proof {
        assert(out@ =~= spec_start_body(
            repo_name@,
            main_crate@,
            match base_tag {
                Some(t) => Some(t@),
                None => None,
            },
            crates@,
        ));
    }
    out
}

// ---------------------------------------------------------------------------
// Vote.
// ---------------------------------------------------------------------------

/// The vote discussion title: `[VOTE] <repo> <version><rc suffix>`.
pub fn vote_title(repo_name: &str, base_version: &str, rc_suffix: &str) -> (r: String)
    ensures
        r@ == "[VOTE] "@ + repo_name@ + " "@ + base_version@ + rc_suffix@,
{
    let mut r = String::from_str("[VOTE] ");
    r.append(repo_name);
    r.append(" ");
    r.append(base_version);
    r.append(rc_suffix);
    r
}

/// One artifact row of the vote body.
pub open spec fn spec_vote_row(a: VoteArtifactView) -> Seq<char> {
    "- "@ + a.name + ": "@ + a.url + (match a.sha512 {
        Some(s) => " (sha512="@ + s + ")"@,
        None => Seq::empty(),
    }) + "\n"@
}

pub open spec fn spec_vote_rows(rows: Seq<VoteArtifactView>) -> Seq<char>
    decreases rows.len(),
{
    if rows.len() == 0 {
        Seq::empty()
    } else {
        spec_vote_rows(rows.drop_last()) + spec_vote_row(rows.last())
    }
}

/// The vote discussion body.
pub open spec fn spec_vote_body(
    repo_name: Seq<char>,
    base_version: Seq<char>,
    rc_suffix: Seq<char>,
    svn_url: Seq<char>,
    rows: Seq<VoteArtifactView>,
    vote_close_date: Seq<char>,
) -> Seq<char> {
    "# [VOTE] "@ + repo_name + " "@ + base_version + rc_suffix
        + "\n\nThe release candidate is staged at:\n"@ + svn_url + "\n\nArtifacts:\n"@
        + spec_vote_rows(rows) + "\nThe vote closes on "@ + vote_close_date
        + ". Please verify the artifacts and reply with your vote.\n"@
}

/// Renders the vote discussion body.
pub fn render_vote_body(
    repo_name: &str,
    base_version: &str,
    rc_suffix: &str,
    svn_url: &str,
    artifacts: &Vec<VoteArtifact>,
    vote_close_date: &str,
) -> (r: String)
    ensures
        r@ == spec_vote_body(
            repo_name@,
            base_version@,
            rc_suffix@,
            svn_url@,
            artifacts@.map_values(|a: VoteArtifact| a@),
            vote_close_date@,
        ),
{
    let ghost rows = artifacts@.map_values(|a: VoteArtifact| a@);
    let mut out = String::from_str("# [VOTE] ");
    out.append(repo_name);
    out.append(" ");
    out.append(base_version);
    out.append(rc_suffix);
    out.append("\n\nThe release candidate is staged at:\n");
    out.append(svn_url);
    out.append("\n\nArtifacts:\n");
    let ghost head = out@;
    let mut i: usize = 0;
    proof {
        assert(rows.subrange(0, 0) =~= Seq::<VoteArtifactView>::empty());
    }
    while i < artifacts.len()
        invariant
            0 <= i <= artifacts@.len(),
            rows == artifacts@.map_values(|a: VoteArtifact| a@),
            out@ == head + spec_vote_rows(rows.subrange(0, i as int)),
        decreases artifacts@.len() - i,
    {
        let ghost pre = rows.subrange(0, i as int);
        let ghost pre1 = rows.subrange(0, i + 1);
        proof {
            assert(pre1.drop_last() =~= pre);
            assert(pre1.last() == rows[i as int]);
            assert(rows[i as int] == artifacts@[i as int]@);
        }
        let a = &artifacts[i];
        out.append("- ");
        out.append(a.name.as_str());
        out.append(": ");
        out.append(a.url.as_str());
        match &a.sha512 {
            Some(s) => {
                out.append(" (sha512=");
                out.append(s.as_str());
                out.append(")");
            },
            None => {},
        }
        out.append("\n");
        proof {
            assert(out@ =~= head + spec_vote_rows(pre1));
        }
        i = i + 1;
    }
    proof {
        assert(rows.subrange(0, rows.len() as int) =~= rows);
    }
    out.append("\nThe vote closes on ");
    out.append(vote_close_date);
    out.append(". Please verify the artifacts and reply with your vote.\n");
    proof {
        assert(out@ =~= spec_vote_body(
            repo_name@,
            base_version@,
            rc_suffix@,
            svn_url@,
            rows,
            vote_close_date@,
        ));
    }
    out
}

// ---------------------------------------------------------------------------
// Release announcement.
// ---------------------------------------------------------------------------

/// One package's line of the release announcement.
pub struct ReleaseCrateSummary {
    pub name: String,
    pub old_version: String,
    pub new_version: String,
}

/// Collects one summary row per planned package, in plan order.
pub fn collect_summaries(plan: &Plan) -> (r: Vec<ReleaseCrateSummary>)
    ensures
        r@.len() == plan@.len(),
        forall|t: int|
            0 <= t < plan@.len() ==> {
                &&& (#[trigger] r@[t]).name@ == plan@[t].name
                &&& r@[t].old_version@ == spec_version_str(plan@[t].previous)
                &&& r@[t].new_version@ == spec_version_str(plan@[t].new_version)
            },
{
    let mut r: Vec<ReleaseCrateSummary> = Vec::new();
    let mut t: usize = 0;
    while t < plan.changed_count()
        invariant
            0 <= t <= plan@.len(),
            r@.len() == t,
            forall|q: int|
                0 <= q < t ==> {
                    &&& (#[trigger] r@[q]).name@ == plan@[q].name
                    &&& r@[q].old_version@ == spec_version_str(plan@[q].previous)
                    &&& r@[q].new_version@ == spec_version_str(plan@[q].new_version)
                },
        decreases plan@.len() - t,
    {
        let name = plan.name_at(t).to_owned();
        let cp = plan.plan_at(t);
        let old_version = version_string(cp.previous_version());
        let new_version = version_string(cp.new_version());
        r.push(ReleaseCrateSummary { name, old_version, new_version });
        t = t + 1;
    }
    r
}

/// One package row of the release announcement.
pub open spec fn spec_release_row(c: ReleaseCrateSummary) -> Seq<char> {
    "- "@ + c.name@ + ": "@ + c.old_version@ + " → "@ + c.new_version@ + "\n"@
}

pub open spec fn spec_release_rows(cs: Seq<ReleaseCrateSummary>) -> Seq<char>
    decreases cs.len(),
{
    if cs.len() == 0 {
        Seq::empty()
    } else {
        spec_release_rows(cs.drop_last()) + spec_release_row(cs.last())
    }
}

/// The release announcement body.
pub open spec fn spec_release_body(
    repo_name: Seq<char>,
    base_version: Seq<char>,
    stable_tag: Seq<char>,
    rc_tag: Seq<char>,
    crates: Seq<ReleaseCrateSummary>,
) -> Seq<char> {
    "# "@ + repo_name + " "@ + base_version + " released\n\nThe tag "@ + stable_tag
        + " was cut from the candidate "@ + rc_tag + ".\n\nReleased crates:\n"@
        + spec_release_rows(crates) + "\nThanks to everyone who contributed to this release.\n"@
}

/// Renders the release announcement body.
pub fn render_release_body(
    repo_name: &str,
    base_version: &str,
    stable_tag: &str,
    rc_tag: &str,
    crates: &Vec<ReleaseCrateSummary>,
) -> (r: String)
    ensures
        r@ == spec_release_body(repo_name@, base_version@, stable_tag@, rc_tag@, crates@),
{
    let mut out = String::from_str("# ");
    out.append(repo_name);
    out.append(" ");
    out.append(base_version);
    out.append(" released\n\nThe tag ");
    out.append(stable_tag);
    out.append(" was cut from the candidate ");
    out.append(rc_tag);
    out.append(".\n\nReleased crates:\n");
    let ghost head = out@;
    let mut i: usize = 0;
    while i < crates.len()
        invariant
            0 <= i <= crates@.len(),
            out@ == head + spec_release_rows(crates@.subrange(0, i as int)),
        decreases crates@.len() - i,
    {
        let ghost pre = crates@.subrange(0, i as int);
        let ghost pre1 = crates@.subrange(0, i + 1);
        proof {
            assert(pre1.drop_last() =~= pre);
            assert(pre1.last() == crates@[i as int]);
        }
        let c = &crates[i];
        out.append("- ");
        out.append(c.name.as_str());
        out.append(": ");
        out.append(c.old_version.as_str());
        out.append(" → ");
        out.append(c.new_version.as_str());
        out.append("\n");
        proof {
            assert(out@ =~= head + spec_release_rows(pre1));
        }
        i = i + 1;
    }
    proof {
        assert(crates@.subrange(0, crates@.len() as int) =~= crates@);
    }
    out.append("\nThanks to everyone who contributed to this release.\n");
    proof {
        assert(out@ =~= spec_release_body(repo_name@, base_version@, stable_tag@, rc_tag@, crates@));
    }
    out
}

} // verus!
