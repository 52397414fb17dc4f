//! The release planner: attributes commits to owning packages by
//! longest-prefix path matching, decides each package's version bump, and
//! builds the ordered change plan.

use vstd::prelude::*;
use vstd::string::*;

use crate::commits::{
    spec_breaking, spec_classify, wf_change, ChangeEntry, ChangeView, CommitKind, detect_breaking,
};
use crate::text::{
    lemma_lex_total, lemma_lex_trans, lex_le, lex_lt, match_at, starts_with_str, str_eq, str_le,
};
use crate::version::{apply_bump, spec_bump_version, BumpKind, Version};

verus! {

/// One workspace package: name, current version, manifest location, package
/// subtree root, and the count of in-workspace packages depending on it.
pub struct CrateInfo {
    pub name: String,
    pub version: Version,
    pub manifest_path: String,
    pub package_root: String,
    pub internal_dep_count: usize,
}

/// One commit in the analysed range: subject line, full message, commit id,
/// and the repository-relative paths it touched.
pub struct CommitRecord {
    pub subject: String,
    pub message: String,
    pub sha: String,
    pub touched_paths: Vec<String>,
}

// ---------------------------------------------------------------------------
// Path attribution.
// ---------------------------------------------------------------------------

/// `root` is a whole-component prefix of path `p`.
pub open spec fn path_has_prefix(p: Seq<char>, root: Seq<char>) -> bool {
    &&& match_at(p, root, 0)
    &&& (p.len() == root.len() || p[root.len() as int] == '/')
}

pub fn path_has_prefix_exec(p: &str, root: &str) -> (r: bool)
    ensures
        r == path_has_prefix(p@, root@),
{
    let np = p.unicode_len();
    let nr = root.unicode_len();
    if !starts_with_str(p, root) {
        return false;
    }
    if np == nr {
        true
    } else {
        p.get_char(nr) == '/'
    }
}

/// `root` and `rel` joined with a single separator.
pub open spec fn spec_join_path(root: Seq<char>, rel: Seq<char>) -> Seq<char> {
    if root.len() > 0 && root.last() == '/' {
        root + rel
    } else {
        root + seq!['/'] + rel
    }
}

pub fn join_path(root: &str, rel: &str) -> (r: String)
    ensures
        r@ == spec_join_path(root@, rel@),
{
    proof {
        reveal_strlit("/");
    }
    let nr = root.unicode_len();
    let mut r = String::from_str(root);
    if !(nr > 0 && root.get_char(nr - 1) == '/') {
        r.append("/");
    }
    r.append(rel);
    assert(r@ =~= spec_join_path(root@, rel@));
    r
}

/// The owning package of the absolute path `abs` among the first `n`
/// packages: the matching package subtree root with the greatest length,
/// earliest such package on ties.
pub open spec fn best_owner_upto(crates: Seq<CrateInfo>, abs: Seq<char>, n: int) -> Option<int>
    decreases n,
{
    if n <= 0 {
        None
    } else {
        let prev = best_owner_upto(crates, abs, n - 1);
        if path_has_prefix(abs, crates[n - 1].package_root@) {
            match prev {
                None => Some(n - 1),
                Some(j) => if crates[n - 1].package_root@.len() > crates[j].package_root@.len() {
                    Some(n - 1)
                } else {
                    Some(j)
                },
            }
        } else {
            prev
        }
    }
}

/// The owning package of the repository-relative path `rel`.
pub open spec fn spec_owner(crates: Seq<CrateInfo>, repo_root: Seq<char>, rel: Seq<char>) -> Option<
    int,
> {
    best_owner_upto(crates, spec_join_path(repo_root, rel), crates.len() as int)
}

/// Resolves the owning package of a touched path by longest-prefix match
/// against the package subtree roots.
pub fn crate_for_path(crates: &Vec<CrateInfo>, repo_root: &str, rel: &str) -> (r: Option<usize>)
    ensures
        match r {
            Some(i) => i < crates@.len() && spec_owner(crates@, repo_root@, rel@) == Some(i as int),
            None => spec_owner(crates@, repo_root@, rel@) is None,
        },
{
    let abs = join_path(repo_root, rel);
    let ghost absv = spec_join_path(repo_root@, rel@);
    let mut best: Option<usize> = None;
    let mut i: usize = 0;
    while i < crates.len()
        invariant
            0 <= i <= crates@.len(),
            abs@ == absv,
            match best {
                Some(j) => j < i && best_owner_upto(crates@, absv, i as int) == Some(j as int),
                None => best_owner_upto(crates@, absv, i as int) is None,
            },
        decreases crates@.len() - i,
    {
        if path_has_prefix_exec(abs.as_str(), crates[i].package_root.as_str()) {
            match best {
                None => {
                    best = Some(i);
                },
                Some(j) => {
                    let li = crates[i].package_root.as_str().unicode_len();
                    let lj = crates[j].package_root.as_str().unicode_len();
                    if li > lj {
                        best = Some(i);
                    }
                },
            }
        }
        i = i + 1;
    }
    best
}

// ---------------------------------------------------------------------------
// Per-package change lists.
// ---------------------------------------------------------------------------

/// Whether a commit touched the subtree of package `ci`.
pub open spec fn spec_touches(
    crates: Seq<CrateInfo>,
    repo_root: Seq<char>,
    cm: CommitRecord,
    ci: int,
) -> bool {
    exists|q: int|
        0 <= q < cm.touched_paths@.len() && spec_owner(
            crates,
            repo_root,
            #[trigger] cm.touched_paths@[q]@,
        ) == Some(ci)
}

fn touches_exec(crates: &Vec<CrateInfo>, repo_root: &str, cm: &CommitRecord, ci: usize) -> (r:
    bool)
    ensures
        r == spec_touches(crates@, repo_root@, *cm, ci as int),
{
    let mut q: usize = 0;
    while q < cm.touched_paths.len()
        invariant
            0 <= q <= cm.touched_paths@.len(),
            forall|t: int|
                0 <= t < q ==> spec_owner(crates@, repo_root@, #[trigger] cm.touched_paths@[t]@)
                    != Some(ci as int),
        decreases cm.touched_paths@.len() - q,
    {
        match crate_for_path(crates, repo_root, cm.touched_paths[q].as_str()) {
            Some(i) => {
                if i == ci {
                    return true;
                }
            },
            None => {},
        }
        q = q + 1;
    }
    false
}

/// The first seven characters of a commit id (the whole id if shorter).
pub open spec fn spec_short_sha(s: Seq<char>) -> Seq<char> {
    if s.len() <= 7 {
        s
    } else {
        s.subrange(0, 7)
    }
}

pub fn short_sha(s: &str) -> (r: String)
    ensures
        r@ == spec_short_sha(s@),
{
    let n = s.unicode_len();
    if n <= 7 {
        s.to_owned()
    } else {
        s.substring_char(0, 7).to_owned()
    }
}

/// The change a commit contributes to any package it touched.
pub open spec fn spec_entry_of(cm: CommitRecord) -> ChangeView {
    let breaking = spec_breaking(cm.subject@, cm.message@);
    ChangeView {
        kind: spec_classify(cm.subject@, breaking),
        subject: cm.subject@,
        sha: spec_short_sha(cm.sha@),
        breaking,
    }
}

/// The ordered changes attributed to package `ci`: one entry per commit that
/// touched its subtree, oldest first.
pub open spec fn spec_crate_changes(
    crates: Seq<CrateInfo>,
    repo_root: Seq<char>,
    commits: Seq<CommitRecord>,
    ci: int,
) -> Seq<ChangeView>
    decreases commits.len(),
{
    if commits.len() == 0 {
        Seq::empty()
    } else {
        let init = spec_crate_changes(crates, repo_root, commits.drop_last(), ci);
        if spec_touches(crates, repo_root, commits.last(), ci) {
            init.push(spec_entry_of(commits.last()))
        } else {
            init
        }
    }
}

/// Every attributed change is well formed: its kind is the classification of
/// its subject and breaking flag.
pub proof fn lemma_crate_changes_wf(
    crates: Seq<CrateInfo>,
    repo_root: Seq<char>,
    commits: Seq<CommitRecord>,
    ci: int,
)
    ensures
        forall|t: int|
            0 <= t < spec_crate_changes(crates, repo_root, commits, ci).len() ==> wf_change(
                #[trigger] spec_crate_changes(crates, repo_root, commits, ci)[t],
            ),
    decreases commits.len(),
{
    if commits.len() > 0 {
        lemma_crate_changes_wf(crates, repo_root, commits.drop_last(), ci);
        let full = spec_crate_changes(crates, repo_root, commits, ci);
        let init = spec_crate_changes(crates, repo_root, commits.drop_last(), ci);
        if spec_touches(crates, repo_root, commits.last(), ci) {
            assert(full == init.push(spec_entry_of(commits.last())));
            assert(wf_change(spec_entry_of(commits.last())));
            assert forall|t: int| 0 <= t < full.len() implies wf_change(full[t]) by {
                if t < init.len() {
                    assert(full[t] == init[t]);
                } else {
                    assert(full[t] == spec_entry_of(commits.last()));
                }
            }
        }
    }
}

pub open spec fn views_of(s: Seq<ChangeEntry>) -> Seq<ChangeView> {
    s.map_values(|e: ChangeEntry| e@)
}

/// Collects the ordered changes attributed to package `ci`.
pub fn changes_for_crate(
    crates: &Vec<CrateInfo>,
    repo_root: &str,
    commits: &Vec<CommitRecord>,
    ci: usize,
) -> (r: Vec<ChangeEntry>)
    ensures
        views_of(r@) == spec_crate_changes(crates@, repo_root@, commits@, ci as int),
{
    let mut r: Vec<ChangeEntry> = Vec::new();
    proof {
        assert(commits@.subrange(0, 0) =~= Seq::<CommitRecord>::empty());
        assert(views_of(r@) =~= spec_crate_changes(crates@, repo_root@, commits@.subrange(0, 0), ci as int));
    }
    let mut k: usize = 0;
    while k < commits.len()
        invariant
            0 <= k <= commits@.len(),
            views_of(r@) == spec_crate_changes(
                crates@,
                repo_root@,
                commits@.subrange(0, k as int),
                ci as int,
            ),
        decreases commits@.len() - k,
    {
        let ghost pre = commits@.subrange(0, k as int);
        let ghost pre1 = commits@.subrange(0, k + 1);
        proof {
            assert(pre1.drop_last() =~= pre);
            assert(pre1.last() == commits@[k as int]);
        }
        let cm = &commits[k];
        if touches_exec(crates, repo_root, cm, ci) {
            let breaking = detect_breaking(cm.subject.as_str(), cm.message.as_str());
            let sh = short_sha(cm.sha.as_str());
            let e = ChangeEntry::make(cm.subject.clone(), sh, breaking);
            let ghost old_r = r@;
            r.push(e);
            proof {
                assert(e@ == spec_entry_of(commits@[k as int]));
                assert(views_of(r@) =~= views_of(old_r).push(e@));
            }
        }
        k = k + 1;
    }
    proof {
        assert(commits@.subrange(0, commits@.len() as int) =~= commits@);
    }
    r
}

// ---------------------------------------------------------------------------
// Bump decision.
// ---------------------------------------------------------------------------

pub open spec fn spec_has_breaking(cs: Seq<ChangeView>) -> bool {
    exists|i: int| 0 <= i < cs.len() && (#[trigger] cs[i]).breaking
}

pub open spec fn spec_has_feat(cs: Seq<ChangeView>) -> bool {
    exists|i: int| 0 <= i < cs.len() && (#[trigger] cs[i]).kind == CommitKind::Feat
}

/// The bump a change set forces. Post-1.0: breaking is major, features are
/// minor, the rest is patch. Pre-1.0: breaking is minor, the rest is patch.
pub open spec fn spec_decide_bump(major: u64, cs: Seq<ChangeView>) -> BumpKind {
    if major >= 1 {
        if spec_has_breaking(cs) {
            BumpKind::Major
        } else if spec_has_feat(cs) {
            BumpKind::Minor
        } else {
            BumpKind::Patch
        }
    } else {
        if spec_has_breaking(cs) {
            BumpKind::Minor
        } else {
            BumpKind::Patch
        }
    }
}

fn any_breaking(changes: &Vec<ChangeEntry>) -> (r: bool)
    ensures
        r == spec_has_breaking(views_of(changes@)),
{
    let mut i: usize = 0;
    while i < changes.len()
        invariant
            0 <= i <= changes@.len(),
            forall|t: int| 0 <= t < i ==> !(#[trigger] views_of(changes@)[t]).breaking,
        decreases changes@.len() - i,
    {
        if changes[i].is_breaking() {
            assert(views_of(changes@)[i as int].breaking);
            return true;
        }
        i = i + 1;
    }
    false
}

fn any_feat(changes: &Vec<ChangeEntry>) -> (r: bool)
    ensures
        r == spec_has_feat(views_of(changes@)),
{
    let mut i: usize = 0;
    while i < changes.len()
        invariant
            0 <= i <= changes@.len(),
            forall|t: int| 0 <= t < i ==> (#[trigger] views_of(changes@)[t]).kind != CommitKind::Feat,
        decreases changes@.len() - i,
    {
        if matches!(changes[i].kind(), CommitKind::Feat) {
            assert(views_of(changes@)[i as int].kind == CommitKind::Feat);
            return true;
        }
        i = i + 1;
    }
    false
}

/// Decides the bump for one package from its current version and changes.
pub fn decide_bump(current: &Version, changes: &Vec<ChangeEntry>) -> (r: BumpKind)
    ensures
        r == spec_decide_bump(current.major, views_of(changes@)),
{
    let breaking = any_breaking(changes);
    if current.major >= 1 {
        if breaking {
            return BumpKind::Major;
        }
        if any_feat(changes) {
            return BumpKind::Minor;
        }
        return BumpKind::Patch;
    }
    if breaking {
        BumpKind::Minor
    } else {
        BumpKind::Patch
    }
}

/// Pre-1.0 policy law: a change set of only feature commits yields a patch
/// bump, and any breaking-marked change yields a minor bump.
pub proof fn lemma_pre_stable_policy(v: Version, cs: Seq<ChangeView>)
    requires
        v.major == 0,
        forall|i: int| 0 <= i < cs.len() ==> wf_change(#[trigger] cs[i]),
    ensures
        (forall|i: int| 0 <= i < cs.len() ==> (#[trigger] cs[i]).kind == CommitKind::Feat)
            ==> spec_decide_bump(v.major, cs) == BumpKind::Patch,
        spec_has_breaking(cs) ==> spec_decide_bump(v.major, cs) == BumpKind::Minor,
{
    if forall|i: int| 0 <= i < cs.len() ==> (#[trigger] cs[i]).kind == CommitKind::Feat {
        if spec_has_breaking(cs) {
            let i = choose|i: int| 0 <= i < cs.len() && (#[trigger] cs[i]).breaking;
            assert(cs[i].kind == spec_classify(cs[i].subject, cs[i].breaking));
            assert(cs[i].kind == CommitKind::Breaking);
        }
    }
}

/// Post-1.0 policy law: any breaking change yields a major bump with minor
/// and patch reset to zero; otherwise a feature yields a minor bump with
/// patch reset; otherwise the bump is patch.
pub proof fn lemma_post_stable_policy(v: Version, cs: Seq<ChangeView>)
    requires
        v.major >= 1,
        v.major < u64::MAX,
        v.minor < u64::MAX,
        v.patch < u64::MAX,
    ensures
        spec_has_breaking(cs) ==> spec_decide_bump(v.major, cs) == BumpKind::Major
            && spec_bump_version(v, spec_decide_bump(v.major, cs)) == (Version {
            major: (v.major + 1) as u64,
            minor: 0,
            patch: 0,
        }),
        !spec_has_breaking(cs) && spec_has_feat(cs) ==> spec_decide_bump(v.major, cs)
            == BumpKind::Minor && spec_bump_version(v, spec_decide_bump(v.major, cs)) == (Version {
            major: v.major,
            minor: (v.minor + 1) as u64,
            patch: 0,
        }),
        !spec_has_breaking(cs) && !spec_has_feat(cs) ==> spec_decide_bump(v.major, cs)
            == BumpKind::Patch && spec_bump_version(v, spec_decide_bump(v.major, cs)) == (Version {
            major: v.major,
            minor: v.minor,
            patch: (v.patch + 1) as u64,
        }),
{
}

// ---------------------------------------------------------------------------
// The plan.
// ---------------------------------------------------------------------------

/// The spec-level value of one package's plan.
pub ghost struct CratePlanView {
    pub previous: Version,
    pub new_version: Version,
    pub changes: Seq<ChangeView>,
}

/// The plan for one package: its previous and new version and its ordered
/// changes.
pub struct CratePlan {
    previous_version: Version,
    new_version: Version,
    changes: Vec<ChangeEntry>,
}

impl View for CratePlan {
    type V = CratePlanView;

    closed spec fn view(&self) -> CratePlanView {
        CratePlanView {
            previous: self.previous_version,
            new_version: self.new_version,
            changes: views_of(self.changes@),
        }
    }
}

impl CratePlan {
    pub fn new_version(&self) -> (r: &Version)
        ensures
            *r == self@.new_version,
    {
        &self.new_version
    }

    pub fn previous_version(&self) -> (r: &Version)
        ensures
            *r == self@.previous,
    {
        &self.previous_version
    }

    pub fn changes(&self) -> (r: &Vec<ChangeEntry>)
        ensures
            views_of(r@) == self@.changes,
    {
        &self.changes
    }
}

/// The spec-level value of one plan entry.
pub ghost struct PlanEntryView {
    pub name: Seq<char>,
    pub previous: Version,
    pub new_version: Version,
    pub changes: Seq<ChangeView>,
}

pub open spec fn entry_view_of(it: (String, CratePlan)) -> PlanEntryView {
    PlanEntryView {
        name: it.0@,
        previous: it.1@.previous,
        new_version: it.1@.new_version,
        changes: it.1@.changes,
    }
}

pub open spec fn plan_view_of(s: Seq<(String, CratePlan)>) -> Seq<PlanEntryView> {
    s.map_values(|it: (String, CratePlan)| entry_view_of(it))
}

/// Entry names strictly ascend in code-point order.
pub open spec fn plan_sorted(pv: Seq<PlanEntryView>) -> bool {
    forall|i: int, j: int| 0 <= i < j < pv.len() ==> lex_lt(#[trigger] pv[i].name, #[trigger] pv[j].name)
}

pub open spec fn plan_has_name(pv: Seq<PlanEntryView>, name: Seq<char>) -> bool {
    exists|t: int| 0 <= t < pv.len() && (#[trigger] pv[t]).name == name
}

/// The change plan: one entry per package with at least one attributed
/// change, ordered by package name.
pub struct Plan {
    items: Vec<(String, CratePlan)>,
}

impl View for Plan {
    type V = Seq<PlanEntryView>;

    closed spec fn view(&self) -> Seq<PlanEntryView> {
        plan_view_of(self.items@)
    }
}

impl Plan {
    /// The number of packages with changes.
    pub fn changed_count(&self) -> (r: usize)
        ensures
            r == self@.len(),
    {
        self.items.len()
    }

    /// The name of the `i`-th plan entry.
    pub fn name_at(&self, i: usize) -> (r: &str)
        requires
            i < self@.len(),
        ensures
            r@ == self@[i as int].name,
    {
        self.items[i].0.as_str()
    }

    /// The `i`-th package plan.
    pub fn plan_at(&self, i: usize) -> (r: &CratePlan)
        requires
            i < self@.len(),
        ensures
            r@.previous == self@[i as int].previous,
            r@.new_version == self@[i as int].new_version,
            r@.changes == self@[i as int].changes,
    {
        &self.items[i].1
    }

    /// Looks a package up by name.
    pub fn crate_plan(&self, name: &str) -> (r: Option<&CratePlan>)
        ensures
            match r {
                Some(cp) => exists|t: int|
                    0 <= t < self@.len() && (#[trigger] self@[t]).name == name@ && cp@.previous
                        == self@[t].previous && cp@.new_version == self@[t].new_version
                        && cp@.changes == self@[t].changes,
                None => !plan_has_name(self@, name@),
            },
    {
        let mut i: usize = 0;
        while i < self.items.len()
            invariant
                0 <= i <= self.items@.len(),
                self@ == plan_view_of(self.items@),
                forall|t: int| 0 <= t < i ==> (#[trigger] self@[t]).name != name@,
            decreases self.items@.len() - i,
        {
            if str_eq(self.items[i].0.as_str(), name) {
                assert(self@[i as int].name == name@);
                return Some(&self.items[i].1);
            }
            i = i + 1;
        }
        None
    }

    /// The planned new version of the named package, if it has changes.
    pub fn main_crate_version(&self, main: &str) -> (r: Option<&Version>)
        ensures
            match r {
                Some(v) => exists|t: int|
                    0 <= t < self@.len() && (#[trigger] self@[t]).name == main@ && *v
                        == self@[t].new_version,
                None => !plan_has_name(self@, main@),
            },
    {
        match self.crate_plan(main) {
            Some(cp) => Some(cp.new_version()),
            None => None,
        }
    }
}

// ---------------------------------------------------------------------------
// Plan construction.
// ---------------------------------------------------------------------------

/// The plan entry a package with changes must get.
pub open spec fn spec_expected_entry(
    crates: Seq<CrateInfo>,
    repo_root: Seq<char>,
    commits: Seq<CommitRecord>,
    ci: int,
) -> PlanEntryView {
    let cs = spec_crate_changes(crates, repo_root, commits, ci);
    let v = crates[ci].version;
    PlanEntryView {
        name: crates[ci].name@,
        previous: v,
        new_version: spec_bump_version(v, spec_decide_bump(v.major, cs)),
        changes: cs,
    }
}

/// Checks the planner's preconditions: package names pairwise distinct and
/// every version component below the representable maximum.
pub fn crates_well_formed(crates: &Vec<CrateInfo>) -> (r: bool)
    ensures
        r == (crate_names_distinct(crates@) && versions_bounded(crates@)),
{
    let mut i: usize = 0;
    while i < crates.len()
        invariant
            0 <= i <= crates@.len(),
            forall|p: int, q: int|
                0 <= p < q < i ==> (#[trigger] crates@[p].name@) != (#[trigger] crates@[q].name@),
            forall|p: int|
                0 <= p < i ==> (#[trigger] crates@[p].version).major < u64::MAX
                    && crates@[p].version.minor < u64::MAX && crates@[p].version.patch < u64::MAX,
        decreases crates@.len() - i,
    {
        let v = &crates[i].version;
        if v.major == u64::MAX || v.minor == u64::MAX || v.patch == u64::MAX {
            return false;
        }
        let mut j: usize = 0;
        while j < i
            invariant
                0 <= j <= i < crates@.len(),
                forall|p: int| 0 <= p < j ==> (#[trigger] crates@[p].name@) != crates@[i as int].name@,
            decreases i - j,
        {
            if str_eq(crates[j].name.as_str(), crates[i].name.as_str()) {
                return false;
            }
            j = j + 1;
        }
        i = i + 1;
    }
    true
}

proof fn lemma_adjacent_sorted(pv: Seq<PlanEntryView>, j: int)
    requires
        forall|t: int| 0 <= t < pv.len() - 1 ==> lex_lt(#[trigger] pv[t].name, pv[t + 1].name),
        0 <= j < pv.len(),
    ensures
        forall|i: int| 0 <= i < j ==> lex_lt(#[trigger] pv[i].name, pv[j].name),
    decreases j,
{
    if j > 0 {
        lemma_adjacent_sorted(pv, j - 1);
        assert forall|i: int| 0 <= i < j implies lex_lt(#[trigger] pv[i].name, pv[j].name) by {
            assert(lex_lt(pv[j - 1].name, pv[j].name));
            if i < j - 1 {
                assert(lex_lt(pv[i].name, pv[j - 1].name));
                crate::text::lemma_lex_lt_trans(pv[i].name, pv[j - 1].name, pv[j].name);
            }
        }
    }
}

impl Plan {
    /// Checks that the plan's entry names strictly ascend, as every plan
    /// this module builds does.
    pub fn names_sorted(&self) -> (r: bool)
        ensures
            r == plan_sorted(self@),
    {
        let n = self.changed_count();
        if n == 0 {
            return true;
        }
        let mut i: usize = 1;
        while i < n
            invariant
                1 <= i <= n,
                n == self@.len(),
                forall|t: int| 0 <= t < i - 1 ==> lex_lt(#[trigger] self@[t].name, self@[t + 1].name),
            decreases n - i,
        {
            let prev = self.name_at(i - 1);
            let cur = self.name_at(i);
            if !str_le(prev, cur) || str_eq(prev, cur) {
                assert(!lex_lt(self@[i - 1].name, self@[i as int].name));
                return false;
            }
            i = i + 1;
        }
        proof {
            assert forall|p: int, q: int| 0 <= p < q < self@.len() implies lex_lt(
                #[trigger] self@[p].name,
                #[trigger] self@[q].name,
            ) by {
                lemma_adjacent_sorted(self@, q);
            }
        }
        true
    }
}

/// `e` is the expected entry of some package among the first `hi` that has
/// at least one attributed change.
pub open spec fn entry_is_expected(
    crates: Seq<CrateInfo>,
    repo_root: Seq<char>,
    commits: Seq<CommitRecord>,
    e: PlanEntryView,
    hi: int,
) -> bool {
    exists|d: int|
        0 <= d < hi && spec_crate_changes(crates, repo_root, commits, d).len() > 0 && e
            == #[trigger] spec_expected_entry(crates, repo_root, commits, d)
}

proof fn lemma_expected_mono(
    crates: Seq<CrateInfo>,
    repo_root: Seq<char>,
    commits: Seq<CommitRecord>,
    e: PlanEntryView,
    hi: int,
    hi2: int,
)
    requires
        entry_is_expected(crates, repo_root, commits, e, hi),
        hi <= hi2,
    ensures
        entry_is_expected(crates, repo_root, commits, e, hi2),
{
    let d = choose|d: int|
        0 <= d < hi && spec_crate_changes(crates, repo_root, commits, d).len() > 0 && e
            == #[trigger] spec_expected_entry(crates, repo_root, commits, d);
    assert(0 <= d < hi2 && spec_crate_changes(crates, repo_root, commits, d).len() > 0 && e
        == spec_expected_entry(crates, repo_root, commits, d));
}

pub open spec fn crate_names_distinct(crates: Seq<CrateInfo>) -> bool {
    forall|i: int, j: int|
        0 <= i < j < crates.len() ==> (#[trigger] crates[i].name@) != (#[trigger] crates[j].name@)
}

pub open spec fn versions_bounded(crates: Seq<CrateInfo>) -> bool {
    forall|i: int|
        0 <= i < crates.len() ==> (#[trigger] crates[i].version).major < u64::MAX
            && crates[i].version.minor < u64::MAX && crates[i].version.patch < u64::MAX
}

proof fn lemma_insert_view(s: Seq<(String, CratePlan)>, p: int, it: (String, CratePlan))
    requires
        0 <= p <= s.len(),
    ensures
        plan_view_of(s.insert(p, it)) =~= plan_view_of(s).insert(p, entry_view_of(it)),
{
    s.insert_ensures(p, it);
    plan_view_of(s).insert_ensures(p, entry_view_of(it));
}

/// Inserts one entry into a name-sorted list, keeping it sorted; the new
/// name must not already occur.
#[verifier::loop_isolation(false)]
fn insert_sorted(items: &mut Vec<(String, CratePlan)>, it: (String, CratePlan))
    requires
        plan_sorted(plan_view_of(old(items)@)),
        forall|t: int| 0 <= t < old(items)@.len() ==> (#[trigger] old(items)@[t].0@) != it.0@,
    ensures
        exists|p: int|
            0 <= p <= old(items)@.len() && final(items)@ == old(items)@.insert(p, it),
        plan_sorted(plan_view_of(final(items)@)),
{
    let n = items.len();
    let mut p: usize = 0;
    let mut scanning = true;
    while scanning
        invariant
            0 <= p <= n,
            forall|t: int| 0 <= t < p ==> lex_lt(#[trigger] items@[t].0@, it.0@),
            !scanning ==> p == n || !lex_le(items@[p as int].0@, it.0@),
        decreases n - p + (if scanning { 1int } else { 0int }),
    {
        if p == n {
            scanning = false;
        } else if !str_le(items[p].0.as_str(), &it.0) {
            scanning = false;
        } else {
            proof {
                assert(items@[p as int].0@ != it.0@);
            }
            p = p + 1;
        }
    }
    let ghost olds = items@;
    proof {
        if (p as int) < olds.len() {
            lemma_lex_total(olds[p as int].0@, it.0@);
            assert(lex_lt(it.0@, olds[p as int].0@));
        }
    }
    items.insert(p, it);
    proof {
        olds.insert_ensures(p as int, it);
        lemma_insert_view(olds, p as int, it);
        let newv = plan_view_of(items@);
        let oldv = plan_view_of(olds);
        assert(newv.len() == oldv.len() + 1);
        assert forall|i: int, j: int| 0 <= i < j < newv.len() implies lex_lt(
            #[trigger] newv[i].name,
            #[trigger] newv[j].name,
        ) by {
            let pi = p as int;
            if i < pi && j < pi {
                assert(newv[i] == oldv[i] && newv[j] == oldv[j]);
            } else if i < pi && j == pi {
                assert(newv[i] == oldv[i]);
                assert(oldv[i].name == olds[i].0@);
                assert(newv[j].name == it.0@);
            } else if i < pi && j > pi {
                assert(newv[i] == oldv[i] && newv[j] == oldv[j - 1]);
                assert(lex_lt(oldv[i].name, oldv[j - 1].name));
            } else if i == pi {
                assert(newv[i].name == it.0@);
                assert(newv[j] == oldv[j - 1]);
                assert(j - 1 >= pi);
                if j - 1 == pi {
                    assert(lex_lt(it.0@, olds[pi].0@));
                    assert(oldv[pi].name == olds[pi].0@);
                } else {
                    assert(lex_lt(it.0@, olds[pi].0@));
                    assert(lex_lt(oldv[pi].name, oldv[j - 1].name));
                    lemma_lex_trans(it.0@, oldv[pi].name, oldv[j - 1].name);
                    assert(it.0@ != oldv[j - 1].name);
                }
            } else {
                assert(newv[i] == oldv[i - 1] && newv[j] == oldv[j - 1]);
                assert(lex_lt(oldv[i - 1].name, oldv[j - 1].name));
            }
        }
    }
}

/// The whole contract of plan construction: entries are name-ordered; every
/// package with at least one attributed change has exactly its expected
/// entry; every entry is the expected entry of such a package; and a
/// package with no attributed changes never appears.
pub open spec fn plan_matches(
    crates: Seq<CrateInfo>,
    repo_root: Seq<char>,
    commits: Seq<CommitRecord>,
    pv: Seq<PlanEntryView>,
) -> bool {
    &&& plan_sorted(pv)
    &&& forall|ci: int|
        0 <= ci < crates.len() && spec_crate_changes(crates, repo_root, commits, ci).len() > 0
            ==> pv.contains(#[trigger] spec_expected_entry(crates, repo_root, commits, ci))
    &&& forall|t: int|
        0 <= t < pv.len() ==> entry_is_expected(
            crates,
            repo_root,
            commits,
            #[trigger] pv[t],
            crates.len() as int,
        )
    &&& forall|ci: int|
        0 <= ci < crates.len() && spec_crate_changes(crates, repo_root, commits, ci).len() == 0
            ==> !plan_has_name(pv, crates[ci].name@)
}

/// Builds the change plan from the package list, the repository root, and
/// the analysed commits (oldest first).
///
/// A package appears in the result exactly when it has at least one
/// attributed change; its entry carries its previous version, its new
/// version decided by the bump policy, and its ordered changes. Entries are
/// ordered by package name.
pub fn compute_plan(crates: &Vec<CrateInfo>, repo_root: &str, commits: &Vec<CommitRecord>) -> (r:
    Plan)
    requires
        crate_names_distinct(crates@),
        versions_bounded(crates@),
    ensures
        plan_matches(crates@, repo_root@, commits@, r@),
{
    let ghost rrv = repo_root@;
    let mut items: Vec<(String, CratePlan)> = Vec::new();
    let mut ci: usize = 0;
    proof {
        assert(plan_view_of(items@) =~= Seq::<PlanEntryView>::empty());
    }
    while ci < crates.len()
        invariant
            crate_names_distinct(crates@),
            versions_bounded(crates@),
            rrv == repo_root@,
            0 <= ci <= crates@.len(),
            plan_sorted(plan_view_of(items@)),
            forall|d: int|
                0 <= d < ci && spec_crate_changes(crates@, rrv, commits@, d).len() > 0
                    ==> plan_view_of(items@).contains(
                    #[trigger] spec_expected_entry(crates@, rrv, commits@, d),
                ),
            forall|t: int|
                0 <= t < items@.len() ==> entry_is_expected(
                    crates@,
                    rrv,
                    commits@,
                    #[trigger] plan_view_of(items@)[t],
                    ci as int,
                ),
        decreases crates@.len() - ci,
    {
        let changes = changes_for_crate(crates, repo_root, commits, ci);
        let ghost cs = spec_crate_changes(crates@, rrv, commits@, ci as int);
        proof {
            assert(views_of(changes@).len() == changes@.len());
            assert(cs.len() == changes@.len());
        }
        if changes.len() > 0 {
            let c = &crates[ci];
            let kind = decide_bump(&c.version, &changes);
            let nv = apply_bump(&c.version, kind);
            let cp = CratePlan { previous_version: c.version, new_version: nv, changes };
            let it = (c.name.clone(), cp);
            let ghost iv = entry_view_of(it);
            proof {
                assert(iv == spec_expected_entry(crates@, rrv, commits@, ci as int));
                assert forall|t: int| 0 <= t < items@.len() implies (#[trigger] items@[t].0@)
                    != it.0@ by {
                    assert(plan_view_of(items@)[t] == entry_view_of(items@[t]));
                    let d = choose|d: int|
                        0 <= d < ci && spec_crate_changes(crates@, rrv, commits@, d).len() > 0 && (
                        plan_view_of(items@)[t]) == #[trigger] spec_expected_entry(
                            crates@,
                            rrv,
                            commits@,
                            d,
                        );
                    assert(items@[t].0@ == crates@[d].name@);
                }
            }
            let ghost olds = items@;
            insert_sorted(&mut items, it);
            proof {
                let p = choose|p: int| 0 <= p <= olds.len() && items@ == olds.insert(p, it);
                olds.insert_ensures(p, it);
                lemma_insert_view(olds, p, it);
                let newv = plan_view_of(items@);
                let oldv = plan_view_of(olds);
                assert(newv =~= oldv.insert(p, iv));
                oldv.insert_ensures(p, iv);
                assert(newv[p] == iv);
                assert forall|d: int|
                    0 <= d < ci + 1 && spec_crate_changes(crates@, rrv, commits@, d).len() > 0
                        implies newv.contains(
                    #[trigger] spec_expected_entry(crates@, rrv, commits@, d),
                ) by {
                    if d == ci {
                        assert(newv[p] == spec_expected_entry(crates@, rrv, commits@, d));
                    } else {
                        let e = spec_expected_entry(crates@, rrv, commits@, d);
                        assert(oldv.contains(e));
                        let t = choose|t: int| 0 <= t < oldv.len() && oldv[t] == e;
                        if t < p {
                            assert(newv[t] == e);
                        } else {
                            assert(newv[t + 1] == e);
                        }
                    }
                }
                assert forall|t: int| 0 <= t < newv.len() implies entry_is_expected(
                    crates@,
                    rrv,
                    commits@,
                    #[trigger] newv[t],
                    ci + 1,
                ) by {
                    if t == p {
                        assert(newv[t] == iv);
                        assert(0 <= (ci as int) < ci + 1 && spec_crate_changes(
                            crates@,
                            rrv,
                            commits@,
                            ci as int,
                        ).len() > 0 && newv[t] == spec_expected_entry(
                            crates@,
                            rrv,
                            commits@,
                            ci as int,
                        ));
                    } else {
                        let t0 = if t < p {
                            t
                        } else {
                            t - 1
                        };
                        assert(newv[t] == oldv[t0]);
                        assert(entry_is_expected(crates@, rrv, commits@, oldv[t0], ci as int));
                        lemma_expected_mono(crates@, rrv, commits@, oldv[t0], ci as int, ci + 1);
                    }
                }
            }
        } else {
            proof {
                assert forall|t: int| 0 <= t < items@.len() implies entry_is_expected(
                    crates@,
                    rrv,
                    commits@,
                    #[trigger] plan_view_of(items@)[t],
                    ci + 1,
                ) by {
                    lemma_expected_mono(
                        crates@,
                        rrv,
                        commits@,
                        plan_view_of(items@)[t],
                        ci as int,
                        ci + 1,
                    );
                }
            }
        }
        ci = ci + 1;
    }
    let r = Plan { items };
    proof {
        assert forall|ci0: int|
            0 <= ci0 < crates@.len() && spec_crate_changes(crates@, rrv, commits@, ci0).len() == 0
                implies !plan_has_name(r@, crates@[ci0].name@) by {
            if plan_has_name(r@, crates@[ci0].name@) {
                let t = choose|t: int| 0 <= t < r@.len() && (#[trigger] r@[t]).name == crates@[ci0].name@;
                assert(entry_is_expected(crates@, rrv, commits@, r@[t], crates@.len() as int));
                let d = choose|d: int|
                    0 <= d < crates@.len() && spec_crate_changes(crates@, rrv, commits@, d).len() > 0
                        && r@[t] == #[trigger] spec_expected_entry(crates@, rrv, commits@, d);
                assert(crates@[d].name@ == crates@[ci0].name@);
                if d != ci0 {
                    if d < ci0 {
                        assert(crates@[d].name@ != crates@[ci0].name@);
                    } else {
                        assert(crates@[ci0].name@ != crates@[d].name@);
                    }
                }
            }
        }
    }
    r
}

} // verus!
