//! The prerelease report: a plain-text summary of what the run decided and
//! did, with the changed packages grouped the same way as the changelog.

use vstd::prelude::*;
use vstd::string::*;

use crate::changelog::{entries_with_label, filter_label, views_of_refs};
use crate::commits::{ChangeEntry, ChangeView};
use crate::plan::{views_of, Plan};
use crate::version::{spec_version_str, version_string, Version};

verus! {

/// The spec-level value of one report entry.
pub ghost struct ReportCrateView {
    pub name: Seq<char>,
    pub old_version: Version,
    pub new_version: Version,
    pub changes: Seq<ChangeView>,
}

/// One changed package in the report.
pub struct ReportCrate {
    name: String,
    old_version: Version,
    new_version: Version,
    changes: Vec<ChangeEntry>,
}

impl View for ReportCrate {
    type V = ReportCrateView;

    closed spec fn view(&self) -> ReportCrateView {
        ReportCrateView {
            name: self.name@,
            old_version: self.old_version,
            new_version: self.new_version,
            changes: views_of(self.changes@),
        }
    }
}

/// The spec-level value of the report.
pub ghost struct ReportView {
    pub base_tag: Option<Seq<char>>,
    pub main_crate: Seq<char>,
    pub dry_run: bool,
    pub crates: Seq<ReportCrateView>,
    pub rc_tag: Option<Seq<char>>,
}

/// What one prerelease run decided and did.
pub struct PrereleaseReport {
    base_tag: Option<String>,
    main_crate: String,
    dry_run: bool,
    changed_crates: Vec<ReportCrate>,
    rc_tag: Option<String>,
}

impl View for PrereleaseReport {
    type V = ReportView;

    closed spec fn view(&self) -> ReportView {
        ReportView {
            base_tag: match self.base_tag {
                Some(t) => Some(t@),
                None => None,
            },
            main_crate: self.main_crate@,
            dry_run: self.dry_run,
            crates: self.changed_crates@.map_values(|c: ReportCrate| c@),
            rc_tag: match self.rc_tag {
                Some(t) => Some(t@),
                None => None,
            },
        }
    }
}

// ---------------------------------------------------------------------------
// Rendering.
// ---------------------------------------------------------------------------

/// One indented report line per change.
pub open spec fn spec_report_lines(cs: Seq<ChangeView>) -> Seq<char>
    decreases cs.len(),
{
    if cs.len() == 0 {
        Seq::empty()
    } else {
        spec_report_lines(cs.drop_last()) + "    - "@ + cs.last().subject + "\n"@
    }
}

/// One report group: its label line and its change lines, or nothing when
/// the group is empty.
pub open spec fn spec_report_group(cs: Seq<ChangeView>, label: Seq<char>) -> Seq<char> {
    let sel = filter_label(cs, label);
    if sel.len() == 0 {
        Seq::empty()
    } else {
        "  "@ + label + ":\n"@ + spec_report_lines(sel)
    }
}

/// One changed package's report section: its version move and its five
/// groups in fixed order.
pub open spec fn spec_report_crate(c: ReportCrateView) -> Seq<char> {
    "* "@ + c.name + " "@ + spec_version_str(c.old_version) + " -> "@ + spec_version_str(
        c.new_version,
    ) + "\n"@ + spec_report_group(c.changes, "Breaking Changes"@) + spec_report_group(
        c.changes,
        "Features"@,
    ) + spec_report_group(c.changes, "Fixes"@) + spec_report_group(c.changes, "Refactor/Perf"@)
        + spec_report_group(c.changes, "Others"@)
}

pub open spec fn spec_report_crates(cs: Seq<ReportCrateView>) -> Seq<char>
    decreases cs.len(),
{
    if cs.len() == 0 {
        Seq::empty()
    } else {
        spec_report_crates(cs.drop_last()) + spec_report_crate(cs.last())
    }
}

/// The whole report text.
pub open spec fn spec_report_text(rv: ReportView) -> Seq<char> {
    "prerelease summary\n"@ + "mode: "@ + (if rv.dry_run {
        "dry-run"@
    } else {
        "applied"@
    }) + "\n"@ + "base tag: "@ + (match rv.base_tag {
        Some(t) => t,
        None => "<none>"@,
    }) + "\n"@ + "main crate: "@ + rv.main_crate + "\n"@ + "rc tag: "@ + (if rv.dry_run {
        "<pending>"@
    } else {
        match rv.rc_tag {
            Some(t) => t,
            None => "<skipped>"@,
        }
    }) + "\n"@ + (if rv.crates.len() == 0 {
        "changed crates: <none>\n"@
    } else {
        "changed crates:\n"@ + spec_report_crates(rv.crates)
    })
}

fn append_report_group(out: &mut String, changes: &Vec<ChangeEntry>, label: &str)
    ensures
        final (out)@ == old(out)@ + spec_report_group(views_of(changes@), label@),
{
    let ghost sel = filter_label(views_of(changes@), label@);
    let entries = entries_with_label(changes, label);
    if entries.len() == 0 {
        proof {
            assert(old(out)@ + spec_report_group(views_of(changes@), label@) =~= old(out)@);
        }
        return ;
    }
    out.append("  ");
    out.append(label);
    out.append(":\n");
    let ghost head = old(out)@ + "  "@ + label@ + ":\n"@;
    let mut i: usize = 0;
    while i < entries.len()
        invariant
            0 <= i <= entries@.len(),
            sel == views_of_refs(entries@),
            out@ == head + spec_report_lines(sel.subrange(0, i as int)),
        decreases entries@.len() - i,
    {
        let ghost pre = sel.subrange(0, i as int);
        let ghost pre1 = sel.subrange(0, i + 1);
        proof {
            assert(pre1.drop_last() =~= pre);
            assert(pre1.last() == sel[i as int]);
            assert(sel[i as int] == entries@[i as int]@);
        }
        out.append("    - ");
        out.append(entries[i].subject());
        out.append("\n");
        proof {
            assert(out@ =~= head + spec_report_lines(pre1));
        }
        i = i + 1;
    }
    proof {
        assert(sel.subrange(0, sel.len() as int) =~= sel);
        assert(out@ =~= old(out)@ + spec_report_group(views_of(changes@), label@));
    }
}

impl PrereleaseReport {
    /// Renders the report.
    #[verifier::rlimit(60)]
    pub fn render_text(&self) -> (r: String)
        ensures
            r@ == spec_report_text(self@),
    {
        let mut out = String::from_str("prerelease summary\n");
        out.append("mode: ");
        if self.dry_run {
            out.append("dry-run");
        } else {
            out.append("applied");
        }
        out.append("\n");
        out.append("base tag: ");
        match &self.base_tag {
            Some(t) => out.append(t.as_str()),
            None => out.append("<none>"),
        }
        out.append("\n");
        out.append("main crate: ");
        out.append(self.main_crate.as_str());
        out.append("\n");
        out.append("rc tag: ");
        if self.dry_run {
            out.append("<pending>");
        } else {
            match &self.rc_tag {
                Some(t) => out.append(t.as_str()),
                None => out.append("<skipped>"),
            }
        }
        out.append("\n");
        if self.changed_crates.len() == 0 {
            out.append("changed crates: <none>\n");
            proof {
                assert(out@ =~= spec_report_text(self@));
            }
            return out;
        }
        out.append("changed crates:\n");
        let ghost crates = self@.crates;
        let ghost head = out@;
        let mut k: usize = 0;
        while k < self.changed_crates.len()
            invariant
                0 <= k <= self.changed_crates@.len(),
                crates == self@.crates,
                crates.len() == self.changed_crates@.len(),
                out@ == head + spec_report_crates(crates.subrange(0, k as int)),
            decreases self.changed_crates@.len() - k,
        {
            let ghost pre = crates.subrange(0, k as int);
            let ghost pre1 = crates.subrange(0, k + 1);
            proof {
                assert(pre1.drop_last() =~= pre);
                assert(pre1.last() == crates[k as int]);
                assert(crates[k as int] == self.changed_crates@[k as int]@);
            }
            let c = &self.changed_crates[k];
            out.append("* ");
            out.append(c.name.as_str());
            out.append(" ");
            let old_v = version_string(&c.old_version);
            out.append(old_v.as_str());
            out.append(" -> ");
            let new_v = version_string(&c.new_version);
            out.append(new_v.as_str());
            out.append("\n");
            append_report_group(&mut out, &c.changes, "Breaking Changes");
            append_report_group(&mut out, &c.changes, "Features");
            append_report_group(&mut out, &c.changes, "Fixes");
            append_report_group(&mut out, &c.changes, "Refactor/Perf");
            append_report_group(&mut out, &c.changes, "Others");
            proof {
                assert(out@ =~= head + spec_report_crates(pre1));
            }
            k = k + 1;
        }
        proof {
            assert(crates.subrange(0, crates.len() as int) =~= crates);
            assert(out@ =~= spec_report_text(self@));
        }
        out
    }

    /// Records that the mutation phase ran: the report is no longer a dry
    /// run.
    pub fn mark_applied(&mut self)
        ensures
            final (self)@ == (ReportView { dry_run: false, ..old(self)@ }),
    {
        self.dry_run = false;
    }

    /// Records the candidate tag the run created, if any.
    pub fn set_rc_tag(&mut self, tag: Option<String>)
        ensures
            final (self)@ == (ReportView {
                rc_tag: match tag {
                    Some(t) => Some(t@),
                    None => None,
                },
                ..old(self)@
            }),
    {
        self.rc_tag = tag;
    }
}

/// Builds the report from the run's inputs and its plan: one entry per
/// planned package, in plan order, carrying its version move and changes.
pub fn build_report(
    base_tag: Option<String>,
    main_crate: String,
    plan: &Plan,
    dry_run: bool,
) -> (r: PrereleaseReport)
    ensures
        r@.base_tag == (match base_tag {
            Some(t) => Some(t@),
            None => None::<Seq<char>>,
        }),
        r@.main_crate == main_crate@,
        r@.dry_run == dry_run,
        r@.rc_tag is None,
        r@.crates.len() == plan@.len(),
        forall|t: int|
            0 <= t < plan@.len() ==> {
                &&& (#[trigger] r@.crates[t]).name == plan@[t].name
                &&& r@.crates[t].old_version == plan@[t].previous
                &&& r@.crates[t].new_version == plan@[t].new_version
                &&& r@.crates[t].changes == plan@[t].changes
            },
{
    let mut changed_crates: Vec<ReportCrate> = Vec::new();
    let mut t: usize = 0;
    while t < plan.changed_count()
        invariant
            0 <= t <= plan@.len(),
            changed_crates@.len() == t,
            forall|q: int|
                0 <= q < t ==> {
                    &&& (#[trigger] changed_crates@[q]@).name == plan@[q].name
                    &&& changed_crates@[q]@.old_version == plan@[q].previous
                    &&& changed_crates@[q]@.new_version == plan@[q].new_version
                    &&& changed_crates@[q]@.changes == plan@[q].changes
                },
        decreases plan@.len() - t,
    {
        let name = plan.name_at(t).to_owned();
        let cp = plan.plan_at(t);
        let src_changes = cp.changes();
        let mut changes: Vec<ChangeEntry> = Vec::new();
        let mut j: usize = 0;
        proof {
            assert(views_of(changes@) =~= views_of(src_changes@).subrange(0, 0));
        }
        while j < src_changes.len()
            invariant
                0 <= j <= src_changes@.len(),
                views_of(src_changes@) == plan@[t as int].changes,
                t < plan@.len(),
                views_of(changes@) == views_of(src_changes@).subrange(0, j as int),
            decreases src_changes@.len() - j,
        {
            let ghost old_c = changes@;
            changes.push(src_changes[j].duplicate());
            proof {
                assert(views_of(changes@) =~= views_of(old_c).push(src_changes@[j as int]@));
                assert(views_of(src_changes@).subrange(0, j + 1) =~= views_of(
                    src_changes@,
                ).subrange(0, j as int).push(views_of(src_changes@)[j as int]));
            }
            j = j + 1;
        }
        proof {
            assert(views_of(src_changes@).subrange(0, src_changes@.len() as int) =~= views_of(
                src_changes@,
            ));
        }
        let rc = ReportCrate {
            name,
            old_version: *cp.previous_version(),
            new_version: *cp.new_version(),
            changes,
        };
        changed_crates.push(rc);
        t = t + 1;
    }
    PrereleaseReport { base_tag, main_crate, dry_run, changed_crates, rc_tag: None }
}

} // verus!
