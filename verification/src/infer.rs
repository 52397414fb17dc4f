//! The decision logic of environment discovery: picking the remote, parsing
//! a GitHub remote URL, judging a dirty working tree, choosing the primary
//! package, the newest stable tag, and the discussion category.

use vstd::prelude::*;
use vstd::string::*;

use crate::plan::CrateInfo;
use crate::text::{
    ends_with_str, find_char, first_idx, lemma_first_idx, lemma_lex_refl, lemma_lex_total,
    lemma_lex_trans, lex_le, spec_eq_ignore_case, spec_ends_with, spec_starts_with,
    starts_with_str, str_eq, str_eq_ignore_case, str_le,
};
use crate::version::{parse_version, spec_parse_version, Version};

verus! {

/// The optional repository-local configuration: a pinned primary package.
pub struct MinimalConfig {
    pub main_crate: Option<String>,
}

/// One discussion category of the release host.
pub struct DiscussionCategory {
    pub id: u64,
    pub name: String,
}

impl DiscussionCategory {
    /// A copy with the same fields.
    pub fn duplicate(&self) -> (r: DiscussionCategory)
        ensures
            r.id == self.id,
            r.name@ == self.name@,
    {
        DiscussionCategory { id: self.id, name: self.name.clone() }
    }
}

/// The discussion created on the release host.
pub struct DiscussionResponse {
    pub html_url: String,
}

/// The payload for creating a discussion.
pub struct CreateDiscussionPayload {
    pub title: String,
    pub body: String,
    pub category_id: u64,
}

/// What the kickoff step produced.
pub struct StartResult {
    pub title: String,
    pub body: String,
    pub category: String,
    pub discussion_url: Option<String>,
}

// ---------------------------------------------------------------------------
// Remote selection and URL parsing.
// ---------------------------------------------------------------------------

/// The remote to use: `origin` when present, else the first one.
pub fn pick_remote(names: &Vec<String>) -> (r: Option<usize>)
    ensures
        match r {
            Some(i) => i < names@.len() && (names@[i as int]@ == "origin"@ || (i == 0 && forall|
                k: int,
            |
                0 <= k < names@.len() ==> (#[trigger] names@[k]@) != "origin"@)),
            None => names@.len() == 0,
        },
{
    let mut i: usize = 0;
    while i < names.len()
        invariant
            0 <= i <= names@.len(),
            forall|k: int| 0 <= k < i ==> (#[trigger] names@[k]@) != "origin"@,
        decreases names@.len() - i,
    {
        if str_eq(names[i].as_str(), "origin") {
            return Some(i);
        }
        i = i + 1;
    }
    if names.len() > 0 {
        Some(0)
    } else {
        None
    }
}

/// A well-formed owner or repository segment: nonempty, without `/`.
pub open spec fn spec_segment_ok(s: Seq<char>) -> bool {
    s.len() > 0 && forall|i: int| 0 <= i < s.len() ==> (#[trigger] s[i]) != '/'
}

/// The repository name denoted by a path segment: the segment with one
/// trailing `.git` removed, when removing it leaves something.
pub open spec fn spec_repo_of_segment(s: Seq<char>) -> Seq<char> {
    if spec_ends_with(s, ".git"@) && s.len() > ".git"@.len() {
        s.subrange(0, s.len() - ".git"@.len())
    } else {
        s
    }
}

/// The shape a remote path part must have: a nonempty owner, one `/`, and
/// a nonempty repository segment without a further `/`.
pub open spec fn owner_repo_shape(rest: Seq<char>) -> bool {
    let i = first_idx(rest, '/');
    &&& 0 < i
    &&& i + 1 < rest.len()
    &&& forall|k: int| i + 1 <= k < rest.len() ==> (#[trigger] rest[k]) != '/'
}

/// Splits the `owner/repo(.git)` part of a GitHub remote URL; it yields a
/// value exactly when the part has the owner/repository shape.
fn parse_owner_repo(rest: &str) -> (r: Option<(String, String)>)
    ensures
        r is Some <==> owner_repo_shape(rest@),
        match r {
            Some(p) => {
                let i = first_idx(rest@, '/');
                &&& 0 < i < rest@.len()
                &&& p.0@ == rest@.subrange(0, i)
                &&& spec_segment_ok(p.0@)
                &&& spec_segment_ok(rest@.subrange(i + 1, rest@.len() as int))
                &&& p.1@ == spec_repo_of_segment(rest@.subrange(i + 1, rest@.len() as int))
            },
            None => true,
        },
{
    proof {
        reveal_strlit(".git");
    }
    let n = rest.unicode_len();
    let i = find_char(rest, '/');
    proof {
        lemma_first_idx(rest@, '/');
    }
    if i == 0 || i >= n {
        return None;
    }
    let owner = rest.substring_char(0, i).to_owned();
    let seg = rest.substring_char(i + 1, n);
    let ns = seg.unicode_len();
    if ns == 0 {
        return None;
    }
    let j = find_char(seg, '/');
    proof {
        lemma_first_idx(seg@, '/');
    }
    if j < ns {
        proof {
            assert(rest@[i + 1 + j] == seg@[j as int]);
            assert(!owner_repo_shape(rest@));
        }
        return None;
    }
    proof {
        assert forall|k: int| 0 <= k < rest@.subrange(0, i as int).len() implies (
        #[trigger] rest@.subrange(0, i as int)[k]) != '/' by {
            assert(rest@.subrange(0, i as int)[k] == rest@[k]);
        }
        assert forall|k: int| i + 1 <= k < rest@.len() implies (#[trigger] rest@[k]) != '/' by {
            assert(rest@[k] == seg@[k - i - 1]);
        }
        assert(owner_repo_shape(rest@));
    }
    let name: String = if ends_with_str(seg, ".git") && ns > 4 {
        seg.substring_char(0, ns - 4).to_owned()
    } else {
        seg.to_owned()
    };
    Some((owner, name))
}

/// Parses a GitHub remote URL in SSH form (`git@github.com:owner/repo`) or
/// HTTP form (`http(s)://github.com/owner/repo`), with an optional `.git`
/// suffix, into owner and repository name. It yields a value exactly when
/// the URL carries one of the three prefixes followed by an owner/repository
/// shaped part.
pub fn parse_github_remote(url: &str) -> (r: Option<(String, String)>)
    ensures
        r is Some <==> ({
            ||| (spec_starts_with(url@, "git@github.com:"@) && owner_repo_shape(
                url@.subrange("git@github.com:"@.len() as int, url@.len() as int),
            ))
            ||| (spec_starts_with(url@, "https://github.com/"@) && owner_repo_shape(
                url@.subrange("https://github.com/"@.len() as int, url@.len() as int),
            ))
            ||| (spec_starts_with(url@, "http://github.com/"@) && owner_repo_shape(
                url@.subrange("http://github.com/"@.len() as int, url@.len() as int),
            ))
        }),
        match r {
            Some(p) => {
                ||| {
                    &&& spec_starts_with(url@, "git@github.com:"@)
                    &&& parsed_owner_repo(
                        url@.subrange("git@github.com:"@.len() as int, url@.len() as int),
                        p.0@,
                        p.1@,
                    )
                }
                ||| {
                    &&& spec_starts_with(url@, "https://github.com/"@)
                    &&& parsed_owner_repo(
                        url@.subrange("https://github.com/"@.len() as int, url@.len() as int),
                        p.0@,
                        p.1@,
                    )
                }
                ||| {
                    &&& spec_starts_with(url@, "http://github.com/"@)
                    &&& parsed_owner_repo(
                        url@.subrange("http://github.com/"@.len() as int, url@.len() as int),
                        p.0@,
                        p.1@,
                    )
                }
            },
            None => true,
        },
{
    proof {
        reveal_strlit("git@github.com:");
        reveal_strlit("https://github.com/");
        reveal_strlit("http://github.com/");
    }
    let n = url.unicode_len();
    if starts_with_str(url, "git@github.com:") {
        let rest = url.substring_char(15, n);
        match parse_owner_repo(rest) {
            Some(p) => {
                return Some(p);
            },
            None => {},
        }
    }
    if starts_with_str(url, "https://github.com/") {
        let rest = url.substring_char(19, n);
        match parse_owner_repo(rest) {
            Some(p) => {
                return Some(p);
            },
            None => {},
        }
    }
    if starts_with_str(url, "http://github.com/") {
        let rest = url.substring_char(18, n);
        match parse_owner_repo(rest) {
            Some(p) => {
                return Some(p);
            },
            None => {},
        }
    }
    None
}

/// What `parse_owner_repo` guarantees, at the spec level.
pub open spec fn parsed_owner_repo(rest: Seq<char>, owner: Seq<char>, repo: Seq<char>) -> bool {
    let i = first_idx(rest, '/');
    &&& 0 < i < rest.len()
    &&& owner == rest.subrange(0, i)
    &&& spec_segment_ok(owner)
    &&& spec_segment_ok(rest.subrange(i + 1, rest.len() as int))
    &&& repo == spec_repo_of_segment(rest.subrange(i + 1, rest.len() as int))
}

// ---------------------------------------------------------------------------
// Working-tree cleanliness.
// ---------------------------------------------------------------------------

/// The status bits that make an entry dirty: staged or worktree additions,
/// modifications and deletions.
pub open spec fn spec_dirty_mask() -> u32 {
    0x307u32
}

/// Whether any status entry carries a dirty bit.
pub fn repo_is_dirty(status_bits: &Vec<u32>) -> (r: bool)
    ensures
        r == exists|i: int|
            0 <= i < status_bits@.len() && (#[trigger] status_bits@[i]) & spec_dirty_mask() != 0,
{
    let mut i: usize = 0;
    while i < status_bits.len()
        invariant
            0 <= i <= status_bits@.len(),
            forall|k: int|
                0 <= k < i ==> (#[trigger] status_bits@[k]) & spec_dirty_mask() == 0,
        decreases status_bits@.len() - i,
    {
        if status_bits[i] & 0x307u32 != 0 {
            return true;
        }
        i = i + 1;
    }
    false
}

// ---------------------------------------------------------------------------
// Stable-tag selection.
// ---------------------------------------------------------------------------

/// The version a stable tag `v<major>.<minor>.<patch>` denotes.
pub open spec fn spec_stable_tag_version(s: Seq<char>) -> Option<Version> {
    if s.len() > 0 && s[0] == 'v' {
        spec_parse_version(s.subrange(1, s.len() as int))
    } else {
        None
    }
}

fn parse_stable_tag(s: &str) -> (r: Option<Version>)
    ensures
        r == spec_stable_tag_version(s@),
{
    let n = s.unicode_len();
    if n == 0 {
        return None;
    }
    if s.get_char(0) != 'v' {
        return None;
    }
    let rest = s.substring_char(1, n);
    parse_version(rest)
}

/// `a` precedes `b` in version order.
pub open spec fn spec_version_lt(a: Version, b: Version) -> bool {
    ||| a.major < b.major
    ||| (a.major == b.major && a.minor < b.minor)
    ||| (a.major == b.major && a.minor == b.minor && a.patch < b.patch)
}

/// The newest stable tag among the repository's tags: the one denoting the
/// greatest version, earliest on ties.
pub fn find_last_stable_tag(tags: &Vec<String>) -> (r: Option<String>)
    ensures
        match r {
            Some(t) => exists|i: int|
                {
                    &&& 0 <= i < tags@.len()
                    &&& t@ == (#[trigger] tags@[i])@
                    &&& spec_stable_tag_version(tags@[i]@) is Some
                    &&& forall|k: int|
                        0 <= k < tags@.len() ==> match spec_stable_tag_version(
                            (#[trigger] tags@[k])@,
                        ) {
                            Some(v) => !spec_version_lt(
                                spec_stable_tag_version(tags@[i]@)->0,
                                v,
                            ),
                            None => true,
                        }
                },
            None => forall|k: int|
                0 <= k < tags@.len() ==> spec_stable_tag_version((#[trigger] tags@[k])@) is None,
        },
{
    let mut best: Option<usize> = None;
    let mut best_version = Version { major: 0, minor: 0, patch: 0 };
    let mut i: usize = 0;
    while i < tags.len()
        invariant
            0 <= i <= tags@.len(),
            match best {
                Some(b) => {
                    &&& b < i
                    &&& spec_stable_tag_version(tags@[b as int]@) == Some(best_version)
                    &&& forall|k: int|
                        0 <= k < i ==> match spec_stable_tag_version((#[trigger] tags@[k])@) {
                            Some(v) => !spec_version_lt(best_version, v),
                            None => true,
                        }
                },
                None => forall|k: int|
                    0 <= k < i ==> spec_stable_tag_version((#[trigger] tags@[k])@) is None,
            },
        decreases tags@.len() - i,
    {
        match parse_stable_tag(tags[i].as_str()) {
            Some(v) => {
                let better = match best {
                    Some(_) => {
                        let bv = &best_version;
                        bv.major < v.major || (bv.major == v.major && bv.minor < v.minor) || (
                        bv.major == v.major && bv.minor == v.minor && bv.patch < v.patch)
                    },
                    None => true,
                };
                if better {
                    best = Some(i);
                    best_version = v;
                }
            },
            None => {},
        }
        i = i + 1;
    }
    match best {
        Some(b) => Some(tags[b].clone()),
        None => None,
    }
}

// ---------------------------------------------------------------------------
// Primary-package inference.
// ---------------------------------------------------------------------------

pub open spec fn has_crate_named(crates: Seq<CrateInfo>, name: Seq<char>) -> bool {
    exists|i: int| 0 <= i < crates.len() && (#[trigger] crates[i].name@) == name
}

fn find_crate_named(crates: &Vec<CrateInfo>, name: &str) -> (r: bool)
    ensures
        r == has_crate_named(crates@, name@),
{
    let mut i: usize = 0;
    while i < crates.len()
        invariant
            0 <= i <= crates@.len(),
            forall|k: int| 0 <= k < i ==> (#[trigger] crates@[k].name@) != name@,
        decreases crates@.len() - i,
    {
        if str_eq(crates[i].name.as_str(), name) {
            return true;
        }
        i = i + 1;
    }
    false
}

/// The fallback choice of primary package: one that the most workspace
/// packages depend upon, with the least name among those.
pub open spec fn spec_fallback_choice(crates: Seq<CrateInfo>, name: Seq<char>) -> bool {
    exists|i: int|
        {
            &&& 0 <= i < crates.len()
            &&& (#[trigger] crates[i].name@) == name
            &&& forall|j: int|
                0 <= j < crates.len() ==> (#[trigger] crates[j].internal_dep_count)
                    <= crates[i].internal_dep_count
            &&& forall|j: int|
                0 <= j < crates.len() && (#[trigger] crates[j].internal_dep_count)
                    == crates[i].internal_dep_count ==> lex_le(crates[i].name@, crates[j].name@)
        }
}

/// The unconfigured precedence after the root package was considered: the
/// package named like the repository, else the fallback choice.
pub open spec fn spec_choice_after_root(
    crates: Seq<CrateInfo>,
    repo_name: Seq<char>,
    name: Seq<char>,
) -> bool {
    if has_crate_named(crates, repo_name) {
        name == repo_name
    } else {
        spec_fallback_choice(crates, name)
    }
}

/// The unconfigured precedence: the workspace root package when it is a
/// member, else the package named like the repository, else the fallback
/// choice.
pub open spec fn spec_inferred_choice(
    crates: Seq<CrateInfo>,
    root_package: Option<Seq<char>>,
    repo_name: Seq<char>,
    name: Seq<char>,
) -> bool {
    match root_package {
        Some(rp) => if has_crate_named(crates, rp) {
            name == rp
        } else {
            spec_choice_after_root(crates, repo_name, name)
        },
        None => spec_choice_after_root(crates, repo_name, name),
    }
}

/// Infers the primary package: a configured name must exist; else the
/// workspace root package when it is a workspace member; else the package
/// named like the repository; else, among the packages most depended upon
/// inside the workspace, the one with the least name.
pub fn infer_main_crate(
    crates: &Vec<CrateInfo>,
    configured: Option<&String>,
    root_package: Option<&String>,
    repo_name: &str,
) -> (r: Option<String>)
    ensures
        match configured {
            Some(c) => match r {
                Some(name) => name@ == c@ && has_crate_named(crates@, c@),
                None => !has_crate_named(crates@, c@),
            },
            None => match r {
                Some(name) => has_crate_named(crates@, name@) && spec_inferred_choice(
                    crates@,
                    match root_package {
                        Some(rp) => Some(rp@),
                        None => None,
                    },
                    repo_name@,
                    name@,
                ),
                None => crates@.len() == 0,
            },
        },
{
    match configured {
        Some(c) => {
            if find_crate_named(crates, c.as_str()) {
                return Some(c.clone());
            }
            return None;
        },
        None => {},
    }
    match root_package {
        Some(rp) => {
            if find_crate_named(crates, rp.as_str()) {
                return Some(rp.clone());
            }
        },
        None => {},
    }
    if find_crate_named(crates, repo_name) {
        return Some(repo_name.to_owned());
    }
    if crates.len() == 0 {
        return None;
    }
    let mut max_count: usize = crates[0].internal_dep_count;
    let mut i: usize = 1;
    while i < crates.len()
        invariant
            1 <= i <= crates@.len(),
            crates@.len() > 0,
            exists|k: int|
                0 <= k < i && (#[trigger] crates@[k].internal_dep_count) == max_count,
            forall|k: int| 0 <= k < i ==> (#[trigger] crates@[k].internal_dep_count) <= max_count,
        decreases crates@.len() - i,
    {
        if crates[i].internal_dep_count > max_count {
            max_count = crates[i].internal_dep_count;
        }
        i = i + 1;
    }
    let mut best: usize = 0;
    let mut found = false;
    let mut j: usize = 0;
    while j < crates.len()
        invariant
            0 <= j <= crates@.len(),
            found ==> best < j && crates@[best as int].internal_dep_count == max_count,
            found ==> forall|k: int|
                0 <= k < j && (#[trigger] crates@[k].internal_dep_count) == max_count ==> lex_le(
                    crates@[best as int].name@,
                    crates@[k].name@,
                ),
            !found ==> forall|k: int|
                0 <= k < j ==> (#[trigger] crates@[k].internal_dep_count) != max_count,
        decreases crates@.len() - j,
    {
        if crates[j].internal_dep_count == max_count {
            if !found {
                best = j;
                found = true;
                proof {
                    lemma_lex_refl(crates@[j as int].name@);
                }
            } else {
                let ghost old_best = best as int;
                if str_le(crates[j].name.as_str(), crates[best].name.as_str()) && !str_eq(
                    crates[j].name.as_str(),
                    crates[best].name.as_str(),
                ) {
                    best = j;
                    proof {
                        lemma_lex_refl(crates@[j as int].name@);
                        assert forall|k: int|
                            0 <= k < j + 1 && (#[trigger] crates@[k].internal_dep_count)
                                == max_count implies lex_le(
                            crates@[j as int].name@,
                            crates@[k].name@,
                        ) by {
                            if k < j {
                                lemma_lex_trans(
                                    crates@[j as int].name@,
                                    crates@[old_best].name@,
                                    crates@[k].name@,
                                );
                            }
                        }
                    }
                } else {
                    proof {
                        if crates@[j as int].name@ == crates@[old_best].name@ {
                            lemma_lex_refl(crates@[old_best].name@);
                        } else {
                            lemma_lex_total(
                                crates@[j as int].name@,
                                crates@[old_best].name@,
                            );
                        }
                    }
                }
            }
        }
        j = j + 1;
    }
    proof {
        assert(found);
    }
    Some(crates[best].name.clone())
}

// ---------------------------------------------------------------------------
// Discussion category choice.
// ---------------------------------------------------------------------------

/// Picks the discussion category: the first one named `Releases` up to
/// ASCII case, else the first category; none when the list is empty.
pub fn choose_category(categories: &Vec<DiscussionCategory>) -> (r: Option<DiscussionCategory>)
    ensures
        match r {
            Some(c) => exists|i: int|
                {
                    &&& 0 <= i < categories@.len()
                    &&& c.id == (#[trigger] categories@[i]).id
                    &&& c.name@ == categories@[i].name@
                    &&& ((spec_eq_ignore_case(categories@[i].name@, "Releases"@) && forall|k: int|
                        0 <= k < i ==> !spec_eq_ignore_case(
                            (#[trigger] categories@[k]).name@,
                            "Releases"@,
                        )) || (i == 0 && forall|k: int|
                        0 <= k < categories@.len() ==> !spec_eq_ignore_case(
                            (#[trigger] categories@[k]).name@,
                            "Releases"@,
                        )))
                },
            None => categories@.len() == 0,
        },
{
    let mut i: usize = 0;
    while i < categories.len()
        invariant
            0 <= i <= categories@.len(),
            forall|k: int|
                0 <= k < i ==> !spec_eq_ignore_case((#[trigger] categories@[k]).name@, "Releases"@),
        decreases categories@.len() - i,
    {
        if str_eq_ignore_case(categories[i].name.as_str(), "Releases") {
            return Some(categories[i].duplicate());
        }
        i = i + 1;
    }
    if categories.len() > 0 {
        Some(categories[0].duplicate())
    } else {
        None
    }
}

} // verus!
