//! The changelog writer: renders one dated section per package, grouped
//! under fixed headers in fixed order, and prepends it to the previous
//! changelog content.

use vstd::prelude::*;
use vstd::string::*;

use crate::commits::{group_label, spec_group_label, ChangeEntry, ChangeView};
use crate::plan::views_of;
use crate::text::str_eq;
use crate::version::{spec_version_str, version_string, Version};

verus! {

/// One rendered changelog line: `- <subject> (<short id>)`.
pub open spec fn spec_entry_line(c: ChangeView) -> Seq<char> {
    "- "@ + c.subject + " ("@ + c.sha + ")\n"@
}

/// The rendered lines of a change list, in order.
pub open spec fn spec_entry_lines(cs: Seq<ChangeView>) -> Seq<char>
    decreases cs.len(),
{
    if cs.len() == 0 {
        Seq::empty()
    } else {
        spec_entry_lines(cs.drop_last()) + spec_entry_line(cs.last())
    }
}

/// One rendered group: its header and its lines, or nothing when the group
/// is empty.
pub open spec fn spec_group_text(title: Seq<char>, cs: Seq<ChangeView>) -> Seq<char> {
    if cs.len() == 0 {
        Seq::empty()
    } else {
        "### "@ + title + "\n"@ + spec_entry_lines(cs) + "\n"@
    }
}

/// The changes whose group label is `label`, in order.
pub open spec fn filter_label(cs: Seq<ChangeView>, label: Seq<char>) -> Seq<ChangeView>
    decreases cs.len(),
{
    if cs.len() == 0 {
        Seq::empty()
    } else {
        let init = filter_label(cs.drop_last(), label);
        if spec_group_label(cs.last().kind) == label {
            init.push(cs.last())
        } else {
            init
        }
    }
}

pub open spec fn views_of_refs(s: Seq<&ChangeEntry>) -> Seq<ChangeView> {
    s.map_values(|e: &ChangeEntry| e@)
}

/// Collects the changes whose group label is `label`, in order.
pub fn entries_with_label<'a>(changes: &'a Vec<ChangeEntry>, label: &str) -> (r: Vec<&'a ChangeEntry>)
    ensures
        views_of_refs(r@) == filter_label(views_of(changes@), label@),
{
    let mut r: Vec<&'a ChangeEntry> = Vec::new();
    proof {
        assert(views_of(changes@.subrange(0, 0)) =~= Seq::<ChangeView>::empty());
        assert(views_of_refs(r@) =~= filter_label(views_of(changes@.subrange(0, 0)), label@));
    }
    let mut i: usize = 0;
    while i < changes.len()
        invariant
            0 <= i <= changes@.len(),
            views_of_refs(r@) == filter_label(views_of(changes@.subrange(0, i as int)), label@),
        decreases changes@.len() - i,
    {
        let ghost pre = views_of(changes@.subrange(0, i as int));
        let ghost pre1 = views_of(changes@.subrange(0, i + 1));
        proof {
            assert(changes@.subrange(0, i + 1).drop_last() =~= changes@.subrange(0, i as int));
            assert(pre1.drop_last() =~= pre);
            assert(pre1.last() == changes@[i as int]@);
        }
        let e = &changes[i];
        if str_eq(group_label(e.kind()), label) {
            let ghost old_r = r@;
            r.push(e);
            proof {
                assert(views_of_refs(r@) =~= views_of_refs(old_r).push(e@));
            }
        }
        i = i + 1;
    }
    proof {
        assert(changes@.subrange(0, changes@.len() as int) =~= changes@);
    }
    r
}

/// Appends one group to `out`: header plus one line per change, nothing when
/// the group is empty.
pub fn write_group(out: &mut String, title: &str, entries: &Vec<&ChangeEntry>)
    ensures
        final (out)@ == old(out)@ + spec_group_text(title@, views_of_refs(entries@)),
{
    let ghost cs = views_of_refs(entries@);
    if entries.len() == 0 {
        proof {
            assert(old(out)@ + spec_group_text(title@, cs) =~= old(out)@);
        }
        return ;
    }
    out.append("### ");
    out.append(title);
    out.append("\n");
    let ghost head = old(out)@ + "### "@ + title@ + "\n"@;
    let mut i: usize = 0;
    while i < entries.len()
        invariant
            0 <= i <= entries@.len(),
            cs == views_of_refs(entries@),
            out@ == head + spec_entry_lines(cs.subrange(0, i as int)),
        decreases entries@.len() - i,
    {
        let ghost pre = cs.subrange(0, i as int);
        let ghost pre1 = cs.subrange(0, i + 1);
        proof {
            assert(pre1.drop_last() =~= pre);
            assert(pre1.last() == cs[i as int]);
            assert(cs[i as int] == entries@[i as int]@);
        }
        let e = entries[i];
        out.append("- ");
        out.append(e.subject());
        out.append(" (");
        out.append(e.sha());
        out.append(")\n");
        proof {
            assert(out@ =~= head + spec_entry_lines(pre1));
        }
        i = i + 1;
    }
    proof {
        assert(cs.subrange(0, cs.len() as int) =~= cs);
    }
    out.append("\n");
    proof {
        assert(cs.len() > 0);
        assert(out@ =~= old(out)@ + spec_group_text(title@, cs));
    }
}

/// The new changelog section for one package: a dated header and the five
/// fixed groups in order, empty groups omitted, followed by a blank line.
pub open spec fn spec_changelog_section(
    name: Seq<char>,
    v: Version,
    date: Seq<char>,
    cs: Seq<ChangeView>,
) -> Seq<char> {
    "## "@ + name + " v"@ + spec_version_str(v) + " - "@ + date + "\n\n"@ + spec_group_text(
        "Breaking Changes"@,
        filter_label(cs, "Breaking Changes"@),
    ) + spec_group_text("Features"@, filter_label(cs, "Features"@)) + spec_group_text(
        "Fixes"@,
        filter_label(cs, "Fixes"@),
    ) + spec_group_text("Refactor/Perf"@, filter_label(cs, "Refactor/Perf"@)) + spec_group_text(
        "Others"@,
        filter_label(cs, "Others"@),
    ) + "\n"@
}

/// Renders the updated changelog for one package: the new dated section for
/// its changes, with the previous content preserved below it.
pub fn update_changelog(
    crate_name: &str,
    new_version: &Version,
    changes: &Vec<ChangeEntry>,
    date: &str,
    old_content: &str,
) -> (r: String)
    ensures
        r@ == spec_changelog_section(crate_name@, *new_version, date@, views_of(changes@))
            + old_content@,
{
    let ghost cs = views_of(changes@);
    let mut out = String::new();
    out.append("## ");
    out.append(crate_name);
    out.append(" v");
    let ver = version_string(new_version);
    out.append(ver.as_str());
    out.append(" - ");
    out.append(date);
    out.append("\n\n");
    let breaking = entries_with_label(changes, "Breaking Changes");
    write_group(&mut out, "Breaking Changes", &breaking);
    let features = entries_with_label(changes, "Features");
    write_group(&mut out, "Features", &features);
    let fixes = entries_with_label(changes, "Fixes");
    write_group(&mut out, "Fixes", &fixes);
    let refactor = entries_with_label(changes, "Refactor/Perf");
    write_group(&mut out, "Refactor/Perf", &refactor);
    let others = entries_with_label(changes, "Others");
    write_group(&mut out, "Others", &others);
    out.append("\n");
    out.append(old_content);
    proof {
        assert(out@ =~= spec_changelog_section(crate_name@, *new_version, date@, cs)
            + old_content@);
    }
    out
}

} // verus!
