//! Semantic versions as plain integer triples: rendering, parsing, and the
//! bump arithmetic used by the release planner.

use vstd::prelude::*;
use vstd::string::*;

use crate::text::{
    all_digits, digits_val, find_char, first_idx, is_digit, lemma_first_idx, parse_u64_range,
    spec_dec, u64_to_string,
};

verus! {

/// A semantic version `major.minor.patch`.
#[derive(Clone, Copy, PartialEq, Eq, Structural, Debug)]
pub struct Version {
    pub major: u64,
    pub minor: u64,
    pub patch: u64,
}

/// How far a version must move for one package.
#[derive(Clone, Copy, PartialEq, Eq, Structural, Debug)]
pub enum BumpKind {
    Major,
    Minor,
    Patch,
}

/// The rendering `major.minor.patch` of a version.
pub open spec fn spec_version_str(v: Version) -> Seq<char> {
    spec_dec(v.major as nat) + seq!['.'] + spec_dec(v.minor as nat) + seq!['.'] + spec_dec(
        v.patch as nat,
    )
}

/// Renders a version as `major.minor.patch`.
pub fn version_string(v: &Version) -> (r: String)
    ensures
        r@ == spec_version_str(*v),
{
    proof {
        reveal_strlit(".");
    }
    let mut r = u64_to_string(v.major);
    r.append(".");
    let minor = u64_to_string(v.minor);
    r.append(minor.as_str());
    r.append(".");
    let patch = u64_to_string(v.patch);
    r.append(patch.as_str());
    assert(r@ =~= spec_version_str(*v));
    r
}

/// A numeric component of a version string: nonempty digits, no leading
/// zero, and a value that fits in a `u64`.
pub open spec fn is_num_part(s: Seq<char>) -> bool {
    &&& s.len() > 0
    &&& all_digits(s)
    &&& (s.len() == 1 || s[0] != '0')
    &&& digits_val(s) <= u64::MAX
}

/// The version denoted by `s`, when `s` has the exact form
/// `major.minor.patch` with three valid numeric components.
pub open spec fn spec_parse_version(s: Seq<char>) -> Option<Version> {
    let i = first_idx(s, '.');
    if i >= s.len() {
        None
    } else {
        let p1 = s.subrange(0, i);
        let rest = s.subrange(i + 1, s.len() as int);
        let j = first_idx(rest, '.');
        if j >= rest.len() {
            None
        } else {
            let p2 = rest.subrange(0, j);
            let p3 = rest.subrange(j + 1, rest.len() as int);
            if is_num_part(p1) && is_num_part(p2) && is_num_part(p3) {
                Some(
                    Version {
                        major: digits_val(p1) as u64,
                        minor: digits_val(p2) as u64,
                        patch: digits_val(p3) as u64,
                    },
                )
            } else {
                None
            }
        }
    }
}

/// Parses a `major.minor.patch` version string.
pub fn parse_version(s: &str) -> (r: Option<Version>)
    ensures
        r == spec_parse_version(s@),
{
    let ns = s.unicode_len();
    let i = find_char(s, '.');
    proof {
        lemma_first_idx(s@, '.');
    }
    if i >= ns {
        return None;
    }
    let ghost p1 = s@.subrange(0, i as int);
    let rest = s.substring_char(i + 1, ns);
    let nr = rest.unicode_len();
    let j = find_char(rest, '.');
    proof {
        lemma_first_idx(rest@, '.');
    }
    if j >= nr {
        return None;
    }
    let ghost p2 = rest@.subrange(0, j as int);
    let ghost p3 = rest@.subrange(j + 1, nr as int);
    let major = match parse_u64_range(s, 0, i) {
        Some(v) => v,
        None => {
            return None;
        },
    };
    let minor = match parse_u64_range(rest, 0, j) {
        Some(v) => v,
        None => {
            return None;
        },
    };
    let patch = match parse_u64_range(rest, j + 1, nr) {
        Some(v) => v,
        None => {
            return None;
        },
    };
    if i > 1 && s.get_char(0) == '0' {
        return None;
    }
    if j > 1 && rest.get_char(0) == '0' {
        return None;
    }
    if nr - (j + 1) > 1 && rest.get_char(j + 1) == '0' {
        proof {
            assert(p3[0] == rest@[j + 1]);
        }
        return None;
    }
    proof {
        assert(is_num_part(p1));
        assert(is_num_part(p2));
        assert(p3[0] == rest@[j + 1]);
        assert(is_num_part(p3));
    }
    Some(Version { major, minor, patch })
}

/// Version strings parse back to the version they render.
pub proof fn lemma_parse_version_roundtrip(v: Version)
    ensures
        spec_parse_version(spec_version_str(v)) == Some(v),
{
    let s = spec_version_str(v);
    let d1 = spec_dec(v.major as nat);
    let d2 = spec_dec(v.minor as nat);
    let d3 = spec_dec(v.patch as nat);
    crate::text::lemma_dec_all_digits(v.major as nat);
    crate::text::lemma_dec_all_digits(v.minor as nat);
    crate::text::lemma_dec_all_digits(v.patch as nat);
    crate::text::lemma_dec_no_leading_zero(v.major as nat);
    crate::text::lemma_dec_no_leading_zero(v.minor as nat);
    crate::text::lemma_dec_no_leading_zero(v.patch as nat);
    crate::text::lemma_dec_val(v.major as nat);
    crate::text::lemma_dec_val(v.minor as nat);
    crate::text::lemma_dec_val(v.patch as nat);
    assert(s =~= d1 + seq!['.'] + d2 + seq!['.'] + d3);
    let n1 = d1.len() as int;
    assert(s[n1] == '.');
    assert forall|k: int| 0 <= k < n1 implies s[k] != '.' by {
        assert(s[k] == d1[k]);
        assert(all_digits(d1) && 0 <= k < d1.len());
        assert(is_digit(d1[k]));
    }
    crate::text::lemma_first_idx_at(s, '.', n1);
    let p1 = s.subrange(0, n1);
    assert(p1 =~= d1);
    assert(is_num_part(p1));
    let rest = s.subrange(n1 + 1, s.len() as int);
    assert(rest =~= d2 + seq!['.'] + d3);
    let n2 = d2.len() as int;
    assert(rest[n2] == '.');
    assert forall|k: int| 0 <= k < n2 implies rest[k] != '.' by {
        assert(rest[k] == d2[k]);
        assert(is_digit(d2[k]));
    }
    crate::text::lemma_first_idx_at(rest, '.', n2);
    let p2 = rest.subrange(0, n2);
    assert(p2 =~= d2);
    assert(is_num_part(p2));
    let p3 = rest.subrange(n2 + 1, rest.len() as int);
    assert(p3 =~= d3);
    assert(is_num_part(p3));
    assert(digits_val(p1) == v.major as nat);
    assert(digits_val(p2) == v.minor as nat);
    assert(digits_val(p3) == v.patch as nat);
}

/// The version after a bump: a major bump resets minor and patch, a minor
/// bump resets patch, a patch bump moves patch alone.
pub open spec fn spec_bump_version(v: Version, kind: BumpKind) -> Version {
    match kind {
        BumpKind::Major => Version { major: (v.major + 1) as u64, minor: 0, patch: 0 },
        BumpKind::Minor => Version { major: v.major, minor: (v.minor + 1) as u64, patch: 0 },
        BumpKind::Patch => Version { major: v.major, minor: v.minor, patch: (v.patch + 1) as u64 },
    }
}

/// Applies a bump to a version: a major bump resets minor and patch, a minor
/// bump resets patch, a patch bump moves patch alone.
pub fn apply_bump(v: &Version, kind: BumpKind) -> (r: Version)
    requires
        v.major < u64::MAX,
        v.minor < u64::MAX,
        v.patch < u64::MAX,
    ensures
        r == spec_bump_version(*v, kind),
        kind == BumpKind::Major ==> r.major == v.major + 1 && r.minor == 0 && r.patch == 0,
        kind == BumpKind::Minor ==> r.major == v.major && r.minor == v.minor + 1 && r.patch == 0,
        kind == BumpKind::Patch ==> r.major == v.major && r.minor == v.minor && r.patch == v.patch
            + 1,
{
    match kind {
        BumpKind::Major => Version { major: v.major + 1, minor: 0, patch: 0 },
        BumpKind::Minor => Version { major: v.major, minor: v.minor + 1, patch: 0 },
        BumpKind::Patch => Version { major: v.major, minor: v.minor, patch: v.patch + 1 },
    }
}

/// The stable tag `v<major>.<minor>.<patch>` of a version.
pub open spec fn spec_stable_tag(v: Version) -> Seq<char> {
    seq!['v'] + spec_version_str(v)
}

/// Renders the stable tag `v<major>.<minor>.<patch>`.
pub fn stable_tag_string(v: &Version) -> (r: String)
    ensures
        r@ == spec_stable_tag(*v),
{
    proof {
        reveal_strlit("v");
    }
    let mut r = String::from_str("v");
    let ver = version_string(v);
    r.append(ver.as_str());
    assert(r@ =~= spec_stable_tag(*v));
    r
}

} // verus!
