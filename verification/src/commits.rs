//! Commit classification: breaking-change detection from the subject and
//! message, the conventional-commit kind, and the grouping labels used by
//! changelogs and reports.

use vstd::prelude::*;
use vstd::string::*;

use crate::text::{
    find_char, first_idx, lemma_first_idx, prefix_lower_exec, spec_contains, spec_contains_upper,
    spec_prefix_lower, contains_str, contains_upper_str,
};

verus! {

/// Whether a character counts as alphabetic.
pub uninterp spec fn char_alphabetic(c: char) -> bool;

/// Relies on char::is_alphabetic: whether the character is in an alphabetic
/// Unicode category; the result depends on the character alone.
pub assume_specification[ char::is_alphabetic ](c: char) -> (r: bool)
    ensures
        r == char_alphabetic(c),
;

/// The classification of one commit.
#[derive(Clone, Copy, PartialEq, Eq, Structural, Debug)]
pub enum CommitKind {
    Breaking,
    Feat,
    Fix,
    Perf,
    Refactor,
    Docs,
    Build,
    Chore,
    Other,
}

/// The commit-type prefix of a subject: everything before the first colon,
/// or the whole subject if it has none.
pub open spec fn spec_type_prefix(subject: Seq<char>) -> Seq<char> {
    subject.subrange(0, first_idx(subject, ':'))
}

/// A breaking marker in the subject line: a `!:` or `(!):` sequence, or an
/// alphabetic start with a type prefix that ends in `!`.
pub open spec fn spec_breaking_header(subject: Seq<char>) -> bool {
    ||| spec_contains(subject, "!:"@)
    ||| spec_contains(subject, "(!):"@)
    ||| {
        &&& subject.len() > 0
        &&& char_alphabetic(subject[0])
        &&& spec_type_prefix(subject).len() > 0
        &&& spec_type_prefix(subject).last() == '!'
    }
}

/// A breaking change: marked in the subject, or announced by a
/// `BREAKING CHANGE:` marker anywhere in the message, case-insensitively.
pub open spec fn spec_breaking(subject: Seq<char>, message: Seq<char>) -> bool {
    spec_breaking_header(subject) || spec_contains_upper(message, "BREAKING CHANGE:"@)
}

/// Detects the breaking-change marker in a commit subject and message.
pub fn detect_breaking(subject: &str, message: &str) -> (r: bool)
    ensures
        r == spec_breaking(subject@, message@),
{
    if contains_str(subject, "!:") {
        return true;
    }
    if contains_str(subject, "(!):") {
        return true;
    }
    if contains_upper_str(message, "BREAKING CHANGE:") {
        return true;
    }
    let ns = subject.unicode_len();
    if ns == 0 {
        return false;
    }
    if !subject.get_char(0).is_alphabetic() {
        return false;
    }
    let i = find_char(subject, ':');
    proof {
        lemma_first_idx(subject@, ':');
    }
    if i == 0 {
        return false;
    }
    let last = subject.get_char(i - 1);
    proof {
        assert(spec_type_prefix(subject@).len() == i);
        assert(spec_type_prefix(subject@).last() == subject@[i - 1]);
    }
    last == '!'
}

/// The kind of a commit: breaking overrides everything; otherwise the
/// ASCII-lowercased type prefix decides.
pub open spec fn spec_classify(subject: Seq<char>, breaking: bool) -> CommitKind {
    if breaking {
        CommitKind::Breaking
    } else {
        let end = first_idx(subject, ':');
        if spec_prefix_lower(subject, end, "feat"@) {
            CommitKind::Feat
        } else if spec_prefix_lower(subject, end, "fix"@) {
            CommitKind::Fix
        } else if spec_prefix_lower(subject, end, "perf"@) {
            CommitKind::Perf
        } else if spec_prefix_lower(subject, end, "refactor"@) {
            CommitKind::Refactor
        } else if spec_prefix_lower(subject, end, "docs"@) {
            CommitKind::Docs
        } else if spec_prefix_lower(subject, end, "build"@) {
            CommitKind::Build
        } else if spec_prefix_lower(subject, end, "chore"@) {
            CommitKind::Chore
        } else {
            CommitKind::Other
        }
    }
}

/// Classifies a commit from its subject and its breaking flag.
pub fn classify_commit(subject: &str, breaking: bool) -> (r: CommitKind)
    ensures
        r == spec_classify(subject@, breaking),
{
    if breaking {
        return CommitKind::Breaking;
    }
    let end = find_char(subject, ':');
    proof {
        lemma_first_idx(subject@, ':');
    }
    if prefix_lower_exec(subject, end, "feat") {
        CommitKind::Feat
    } else if prefix_lower_exec(subject, end, "fix") {
        CommitKind::Fix
    } else if prefix_lower_exec(subject, end, "perf") {
        CommitKind::Perf
    } else if prefix_lower_exec(subject, end, "refactor") {
        CommitKind::Refactor
    } else if prefix_lower_exec(subject, end, "docs") {
        CommitKind::Docs
    } else if prefix_lower_exec(subject, end, "build") {
        CommitKind::Build
    } else if prefix_lower_exec(subject, end, "chore") {
        CommitKind::Chore
    } else {
        CommitKind::Other
    }
}

/// The spec-level value of one attributed change.
pub ghost struct ChangeView {
    pub kind: CommitKind,
    pub subject: Seq<char>,
    pub sha: Seq<char>,
    pub breaking: bool,
}

/// One classified change attributed to a package: kind, subject line, short
/// commit id, and the breaking flag.
#[derive(Clone, Debug)]
pub struct ChangeEntry {
    kind: CommitKind,
    subject: String,
    sha: String,
    breaking: bool,
}

impl View for ChangeEntry {
    type V = ChangeView;

    closed spec fn view(&self) -> ChangeView {
        ChangeView {
            kind: self.kind,
            subject: self.subject@,
            sha: self.sha@,
            breaking: self.breaking,
        }
    }
}

/// A well-formed change: its kind is what classification yields from its
/// subject and breaking flag, so `Breaking` and the flag coincide.
pub open spec fn wf_change(c: ChangeView) -> bool {
    c.kind == spec_classify(c.subject, c.breaking)
}

pub proof fn lemma_wf_change_breaking(c: ChangeView)
    requires
        wf_change(c),
    ensures
        c.breaking <==> c.kind == CommitKind::Breaking,
{
}

impl ChangeEntry {
    /// Builds a change from a commit's subject, short id, and breaking flag,
    /// classifying it on the way.
    pub fn make(subject: String, sha: String, breaking: bool) -> (r: ChangeEntry)
        ensures
            r@.subject == subject@,
            r@.sha == sha@,
            r@.breaking == breaking,
            r@.kind == spec_classify(subject@, breaking),
            wf_change(r@),
    {
        let kind = classify_commit(subject.as_str(), breaking);
        ChangeEntry { kind, subject, sha, breaking }
    }

    /// A copy with the same view.
    pub fn duplicate(&self) -> (r: ChangeEntry)
        ensures
            r@ == self@,
    {
        ChangeEntry {
            kind: self.kind,
            subject: self.subject.clone(),
            sha: self.sha.clone(),
            breaking: self.breaking,
        }
    }

    pub fn kind(&self) -> (r: CommitKind)
        ensures
            r == self@.kind,
    {
        self.kind
    }

    pub fn subject(&self) -> (r: &str)
        ensures
            r@ == self@.subject,
    {
        self.subject.as_str()
    }

    pub fn sha(&self) -> (r: &str)
        ensures
            r@ == self@.sha,
    {
        self.sha.as_str()
    }

    pub fn is_breaking(&self) -> (r: bool)
        ensures
            r == self@.breaking,
    {
        self.breaking
    }
}

/// The changelog group label of a commit kind.
pub open spec fn spec_group_label(kind: CommitKind) -> Seq<char> {
    match kind {
        CommitKind::Breaking => "Breaking Changes"@,
        CommitKind::Feat => "Features"@,
        CommitKind::Fix => "Fixes"@,
        CommitKind::Perf | CommitKind::Refactor => "Refactor/Perf"@,
        CommitKind::Docs | CommitKind::Build | CommitKind::Chore | CommitKind::Other => "Others"@,
    }
}

/// Maps a commit kind to its changelog group label.
pub fn group_label(kind: CommitKind) -> (r: &'static str)
    ensures
        r@ == spec_group_label(kind),
{
    match kind {
        CommitKind::Breaking => "Breaking Changes",
        CommitKind::Feat => "Features",
        CommitKind::Fix => "Fixes",
        CommitKind::Perf | CommitKind::Refactor => "Refactor/Perf",
        CommitKind::Docs | CommitKind::Build | CommitKind::Chore | CommitKind::Other => "Others",
    }
}

/// The fixed order of changelog groups, breaking first.
pub fn group_order() -> (r: Vec<&'static str>)
    ensures
        r@.len() == 5,
        r@[0]@ == "Breaking Changes"@,
        r@[1]@ == "Features"@,
        r@[2]@ == "Fixes"@,
        r@[3]@ == "Refactor/Perf"@,
        r@[4]@ == "Others"@,
        forall|k: CommitKind| exists|i: int|
            0 <= i < r@.len() && (#[trigger] spec_group_label(k)) == r@[i]@,
{
    let mut r: Vec<&'static str> = Vec::new();
    r.push("Breaking Changes");
    r.push("Features");
    r.push("Fixes");
    r.push("Refactor/Perf");
    r.push("Others");
    proof {
        assert forall|k: CommitKind| exists|i: int|
            0 <= i < r@.len() && (#[trigger] spec_group_label(k)) == r@[i]@ by {
            match k {
                CommitKind::Breaking => {
                    assert(spec_group_label(k) == r@[0]@);
                },
                CommitKind::Feat => {
                    assert(spec_group_label(k) == r@[1]@);
                },
                CommitKind::Fix => {
                    assert(spec_group_label(k) == r@[2]@);
                },
                CommitKind::Perf | CommitKind::Refactor => {
                    assert(spec_group_label(k) == r@[3]@);
                },
                CommitKind::Docs | CommitKind::Build | CommitKind::Chore | CommitKind::Other => {
                    assert(spec_group_label(k) == r@[4]@);
                },
            }
        }
    }
    r
}

} // verus!
