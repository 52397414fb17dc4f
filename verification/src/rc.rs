//! Candidate tags: parsing `v<major>.<minor>.<patch>-rc.<n>`, computing the
//! next candidate number from the existing tags, and the idempotency guard.

use vstd::prelude::*;
use vstd::string::*;

use crate::errors::ReleaseError;
use crate::text::{
    all_digits, digits_val, find_char, first_idx, is_digit, lemma_dec_all_digits, lemma_dec_val,
    lemma_first_idx, lemma_first_idx_at, parse_u64_range, spec_dec, str_eq, u64_to_string,
};
use crate::version::{
    lemma_parse_version_roundtrip, parse_version, spec_parse_version, spec_version_str,
    version_string, Version,
};

verus! {

/// The rendering `v<major>.<minor>.<patch>-rc.<n>` of a candidate tag.
pub open spec fn spec_rc_tag_str(v: Version, n: nat) -> Seq<char> {
    seq!['v'] + spec_version_str(v) + seq!['-', 'r', 'c', '.'] + spec_dec(n)
}

/// Renders a candidate tag.
pub fn rc_tag_string(base: &Version, n: u64) -> (r: String)
    ensures
        r@ == spec_rc_tag_str(*base, n as nat),
{
    proof {
        reveal_strlit("v");
        reveal_strlit("-rc.");
    }
    let mut r = String::from_str("v");
    let ver = version_string(base);
    r.append(ver.as_str());
    r.append("-rc.");
    let num = u64_to_string(n);
    r.append(num.as_str());
    assert(r@ =~= spec_rc_tag_str(*base, n as nat));
    r
}

/// The version and candidate number denoted by a tag of the exact form
/// `v<major>.<minor>.<patch>-rc.<n>`, with `n` at most `u32::MAX`.
pub open spec fn spec_parse_rc_tag(s: Seq<char>) -> Option<(Version, nat)> {
    if s.len() == 0 || s[0] != 'v' {
        None
    } else {
        let rest = s.subrange(1, s.len() as int);
        let i = first_idx(rest, '-');
        if i >= rest.len() {
            None
        } else {
            let verpart = rest.subrange(0, i);
            let tail = rest.subrange(i, rest.len() as int);
            if tail.len() < 5 || tail[1] != 'r' || tail[2] != 'c' || tail[3] != '.' {
                None
            } else {
                let digits = tail.subrange(4, tail.len() as int);
                match spec_parse_version(verpart) {
                    Some(v) => if all_digits(digits) && digits_val(digits) <= u32::MAX as nat {
                        Some((v, digits_val(digits)))
                    } else {
                        None
                    },
                    None => None,
                }
            }
        }
    }
}

/// Parses a candidate tag.
pub fn parse_rc_tag(s: &str) -> (r: Option<(Version, u64)>)
    ensures
        match r {
            Some(p) => spec_parse_rc_tag(s@) == Some((p.0, p.1 as nat)),
            None => spec_parse_rc_tag(s@) is None,
        },
{
    let n0 = s.unicode_len();
    if n0 == 0 {
        return None;
    }
    if s.get_char(0) != 'v' {
        return None;
    }
    let rest = s.substring_char(1, n0);
    let nr = rest.unicode_len();
    let i = find_char(rest, '-');
    proof {
        lemma_first_idx(rest@, '-');
    }
    if i >= nr {
        return None;
    }
    let ghost tail = rest@.subrange(i as int, nr as int);
    if nr - i < 5 {
        return None;
    }
    proof {
        assert(tail[1] == rest@[i + 1]);
        assert(tail[2] == rest@[i + 2]);
        assert(tail[3] == rest@[i + 3]);
    }
    if rest.get_char(i + 1) != 'r' || rest.get_char(i + 2) != 'c' || rest.get_char(i + 3) != '.' {
        return None;
    }
    let verpart = rest.substring_char(0, i);
    let v = match parse_version(verpart) {
        Some(v) => v,
        None => {
            return None;
        },
    };
    let ghost digits = tail.subrange(4, tail.len() as int);
    proof {
        assert(digits =~= rest@.subrange(i + 4, nr as int));
    }
    let n = match parse_u64_range(rest, i + 4, nr) {
        Some(n) => n,
        None => {
            return None;
        },
    };
    if n > u32::MAX as u64 {
        return None;
    }
    Some((v, n))
}

/// Candidate tags parse back to the version and number they render.
pub proof fn lemma_rc_tag_roundtrip(v: Version, n: nat)
    requires
        n <= u32::MAX,
    ensures
        spec_parse_rc_tag(spec_rc_tag_str(v, n)) == Some((v, n)),
{
    let s = spec_rc_tag_str(v, n);
    let ver = spec_version_str(v);
    let d = spec_dec(n);
    lemma_dec_all_digits(n);
    lemma_dec_val(n);
    lemma_dec_all_digits(v.major as nat);
    lemma_dec_all_digits(v.minor as nat);
    lemma_dec_all_digits(v.patch as nat);
    lemma_parse_version_roundtrip(v);
    assert(s.len() >= 1 && s[0] == 'v');
    let rest = s.subrange(1, s.len() as int);
    assert(rest =~= ver + seq!['-', 'r', 'c', '.'] + d);
    let nv = ver.len() as int;
    assert(rest[nv] == '-');
    assert forall|k: int| 0 <= k < nv implies rest[k] != '-' by {
        assert(rest[k] == ver[k]);
        let d1 = spec_dec(v.major as nat);
        let d2 = spec_dec(v.minor as nat);
        let d3 = spec_dec(v.patch as nat);
        assert(ver =~= d1 + seq!['.'] + d2 + seq!['.'] + d3);
        if k < d1.len() {
            assert(ver[k] == d1[k]);
            assert(is_digit(ver[k]));
        } else if k == d1.len() {
            assert(ver[k] == '.');
        } else if k < d1.len() + 1 + d2.len() {
            assert(ver[k] == d2[k - d1.len() - 1]);
            assert(is_digit(ver[k]));
        } else if k == d1.len() + 1 + d2.len() {
            assert(ver[k] == '.');
        } else {
            assert(ver[k] == d3[k - d1.len() - d2.len() - 2]);
            assert(is_digit(ver[k]));
        }
    }
    lemma_first_idx_at(rest, '-', nv);
    let verpart = rest.subrange(0, nv);
    assert(verpart =~= ver);
    let tail = rest.subrange(nv, rest.len() as int);
    assert(tail =~= seq!['-', 'r', 'c', '.'] + d);
    assert(tail.len() >= 5);
    assert(tail[1] == 'r' && tail[2] == 'c' && tail[3] == '.');
    let digits = tail.subrange(4, tail.len() as int);
    assert(digits =~= d);
    assert(spec_parse_version(verpart) == Some(v));
    assert(all_digits(digits) && digits_val(digits) == n);
}

/// The candidate number a tag contributes for a given base version.
pub open spec fn spec_rc_number(s: Seq<char>, base: Version) -> Option<nat> {
    match spec_parse_rc_tag(s) {
        Some(p) => if p.0 == base {
            Some(p.1)
        } else {
            None
        },
        None => None,
    }
}

/// The greatest candidate number among the first `k` tags for `base`, or
/// zero when none match.
pub open spec fn spec_max_rc(tags: Seq<String>, base: Version, k: int) -> nat
    decreases k,
{
    if k <= 0 {
        0
    } else {
        let prev = spec_max_rc(tags, base, k - 1);
        match spec_rc_number(tags[k - 1]@, base) {
            Some(n) => if n > prev {
                n
            } else {
                prev
            },
            None => prev,
        }
    }
}

proof fn lemma_max_rc_bound(tags: Seq<String>, base: Version, k: int)
    requires
        0 <= k <= tags.len(),
    ensures
        spec_max_rc(tags, base, k) <= u32::MAX,
    decreases k,
{
    if k > 0 {
        lemma_max_rc_bound(tags, base, k - 1);
    }
}

proof fn lemma_max_rc_ge(tags: Seq<String>, base: Version, k: int, i: int)
    requires
        0 <= i < k <= tags.len(),
    ensures
        match spec_rc_number(tags[i]@, base) {
            Some(m) => m <= spec_max_rc(tags, base, k),
            None => true,
        },
    decreases k,
{
    if i < k - 1 {
        lemma_max_rc_ge(tags, base, k - 1, i);
    }
}

/// Computes the next candidate tag for `base`: one more than the greatest
/// candidate number among the existing tags, and its rendered tag name.
pub fn next_rc_tag(tags: &Vec<String>, base: &Version) -> (r: (String, u64))
    ensures
        r.1 == spec_max_rc(tags@, *base, tags@.len() as int) + 1,
        r.0@ == spec_rc_tag_str(*base, r.1 as nat),
{
    let mut maxn: u64 = 0;
    let mut k: usize = 0;
    while k < tags.len()
        invariant
            0 <= k <= tags@.len(),
            maxn == spec_max_rc(tags@, *base, k as int),
            maxn <= u32::MAX,
        decreases tags@.len() - k,
    {
        match parse_rc_tag(tags[k].as_str()) {
            Some(p) => {
                if p.0 == *base {
                    if p.1 > maxn {
                        maxn = p.1;
                    }
                }
            },
            None => {},
        }
        k = k + 1;
    }
    let next = maxn + 1;
    let tag = rc_tag_string(base, next);
    (tag, next)
}

/// The idempotency guard: fails exactly when the tag already exists.
pub fn ensure_tag_absent(tags: &Vec<String>, tag: &str) -> (r: Result<(), ReleaseError>)
    ensures
        match r {
            Ok(()) => forall|i: int| 0 <= i < tags@.len() ==> (#[trigger] tags@[i]@) != tag@,
            Err(e) => e == ReleaseError::TagExists && exists|i: int|
                0 <= i < tags@.len() && (#[trigger] tags@[i]@) == tag@,
        },
{
    let mut i: usize = 0;
    while i < tags.len()
        invariant
            0 <= i <= tags@.len(),
            forall|t: int| 0 <= t < i ==> (#[trigger] tags@[t]@) != tag@,
        decreases tags@.len() - i,
    {
        if str_eq(tags[i].as_str(), tag) {
            return Err(ReleaseError::TagExists);
        }
        i = i + 1;
    }
    Ok(())
}

/// Candidate freshness law: the tag that `next_rc_tag` chooses never
/// already occurs among the tags it scanned, so the idempotency guard can
/// only fire when the tag store changed between the scan and the check.
pub proof fn lemma_candidate_tag_fresh(tags: Seq<String>, base: Version)
    requires
        spec_max_rc(tags, base, tags.len() as int) + 1 <= u32::MAX,
    ensures
        forall|i: int|
            0 <= i < tags.len() ==> (#[trigger] tags[i]@) != spec_rc_tag_str(
                base,
                spec_max_rc(tags, base, tags.len() as int) + 1,
            ),
{
    let n = spec_max_rc(tags, base, tags.len() as int) + 1;
    lemma_rc_tag_roundtrip(base, n);
    assert forall|i: int| 0 <= i < tags.len() implies (#[trigger] tags[i]@) != spec_rc_tag_str(
        base,
        n,
    ) by {
        if tags[i]@ == spec_rc_tag_str(base, n) {
            assert(spec_rc_number(tags[i]@, base) == Some(n));
            lemma_max_rc_ge(tags, base, tags.len() as int, i);
        }
    }
}

} // verus!
