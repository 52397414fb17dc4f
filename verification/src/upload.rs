//! The checksum-upload policy: bounded retries with a pure backoff formula,
//! the content type of each asset, the encoded upload URL, and the
//! deterministic upload order.

use vstd::prelude::*;
use vstd::string::*;

use vstd::seq_lib::group_to_multiset_ensures;

use crate::text::{
    ends_with_str, lemma_lex_total, lemma_lex_trans, lex_le, spec_ends_with, str_le,
};

verus! {

/// The fixed number of attempts each upload gets.
pub const UPLOAD_RETRIES: u64 = 3;

/// Backoff before the attempt after `attempt`: grows linearly.
pub open spec fn spec_backoff_millis(attempt: nat) -> nat {
    200 * attempt
}

pub fn backoff_millis(attempt: u64) -> (r: u64)
    requires
        attempt <= UPLOAD_RETRIES,
    ensures
        r == spec_backoff_millis(attempt as nat),
{
    200 * attempt
}

/// What one upload attempt came back with.
#[derive(Clone, Copy, PartialEq, Eq, Structural, Debug)]
pub enum UploadOutcome {
    /// The host answered with a success status.
    Success,
    /// The host answered with a non-success status.
    HttpFailure,
    /// The request itself failed.
    TransportError,
}

/// What the uploader must do after one attempt.
#[derive(Clone, Copy, PartialEq, Eq, Structural, Debug)]
pub enum RetryDecision {
    /// The asset is uploaded; move to the next one.
    Done,
    /// Retry the same asset after this many milliseconds.
    RetryAfter(u64),
    /// Give up: the whole upload step fails and no further asset is tried.
    Abort,
}

/// The retry policy: success ends the asset; a failure on the final allowed
/// attempt aborts; any earlier failure retries after the backoff.
pub open spec fn spec_retry_decision(attempt: nat, outcome: UploadOutcome) -> RetryDecision {
    if outcome == UploadOutcome::Success {
        RetryDecision::Done
    } else if attempt >= UPLOAD_RETRIES {
        RetryDecision::Abort
    } else {
        RetryDecision::RetryAfter(spec_backoff_millis(attempt) as u64)
    }
}

/// Decides what to do after attempt number `attempt` (counted from one).
pub fn retry_decision(attempt: u64, outcome: UploadOutcome) -> (r: RetryDecision)
    requires
        1 <= attempt <= UPLOAD_RETRIES,
    ensures
        r == spec_retry_decision(attempt as nat, outcome),
{
    match outcome {
        UploadOutcome::Success => RetryDecision::Done,
        _ => {
            if attempt >= UPLOAD_RETRIES {
                RetryDecision::Abort
            } else {
                RetryDecision::RetryAfter(backoff_millis(attempt))
            }
        },
    }
}

/// Bounded-retry law: on repeated failure the policy retries on every
/// attempt before the bound and aborts exactly at the bound, so an asset
/// gets exactly `UPLOAD_RETRIES` attempts before the step fails.
pub proof fn lemma_retry_bound(outcome: UploadOutcome)
    requires
        outcome != UploadOutcome::Success,
    ensures
        forall|a: nat|
            1 <= a < UPLOAD_RETRIES ==> #[trigger] spec_retry_decision(a, outcome)
                == RetryDecision::RetryAfter((200 * a) as u64),
        spec_retry_decision(UPLOAD_RETRIES as nat, outcome) == RetryDecision::Abort,
{
}

/// The uploader's position in the asset list: which asset is next and
/// which attempt it is on.
#[derive(Clone, Copy, PartialEq, Eq, Structural, Debug)]
pub struct UploadProgress {
    pub next_file: usize,
    pub attempt: u64,
    pub aborted: bool,
}

/// A fresh session: the first asset, the first attempt.
pub fn upload_start() -> (r: UploadProgress)
    ensures
        r == (UploadProgress { next_file: 0, attempt: 1, aborted: false }),
{
    UploadProgress { next_file: 0, attempt: 1, aborted: false }
}

/// One session step: the retry policy applied to the current position. A
/// success moves to the next asset at attempt one; an early failure stays on
/// the same asset one attempt later; a failure at the bound aborts with the
/// position unchanged.
pub open spec fn spec_upload_step(p: UploadProgress, outcome: UploadOutcome) -> UploadProgress {
    match spec_retry_decision(p.attempt as nat, outcome) {
        RetryDecision::Done => UploadProgress {
            next_file: (p.next_file + 1) as usize,
            attempt: 1,
            aborted: false,
        },
        RetryDecision::RetryAfter(_) => UploadProgress { attempt: (p.attempt + 1) as u64, ..p },
        RetryDecision::Abort => UploadProgress { aborted: true, ..p },
    }
}

/// Advances the session by one observed outcome. An aborted session admits
/// no further step (`requires`), so once one asset has failed its last
/// attempt, no later asset is ever attempted.
pub fn upload_step(p: UploadProgress, total_files: usize, outcome: UploadOutcome) -> (r: (
    UploadProgress,
    RetryDecision,
))
    requires
        !p.aborted,
        p.next_file < total_files,
        1 <= p.attempt <= UPLOAD_RETRIES,
    ensures
        r.0 == spec_upload_step(p, outcome),
        r.1 == spec_retry_decision(p.attempt as nat, outcome),
        r.0.aborted ==> r.0.next_file == p.next_file,
        !r.0.aborted ==> 1 <= r.0.attempt <= UPLOAD_RETRIES && r.0.next_file <= total_files,
{
    let decision = retry_decision(p.attempt, outcome);
    let q = match decision {
        RetryDecision::Done => UploadProgress {
            next_file: p.next_file + 1,
            attempt: 1,
            aborted: false,
        },
        RetryDecision::RetryAfter(_) => UploadProgress { attempt: p.attempt + 1, ..p },
        RetryDecision::Abort => UploadProgress { aborted: true, ..p },
    };
    (q, decision)
}

/// The session after `n` identical outcomes.
pub open spec fn spec_upload_run(p: UploadProgress, outcome: UploadOutcome, n: nat) -> UploadProgress
    decreases n,
{
    if n == 0 {
        p
    } else {
        spec_upload_run(spec_upload_step(p, outcome), outcome, (n - 1) as nat)
    }
}

/// Repeated-failure law for the whole step: from a fresh position on one
/// asset, a run of failing attempts makes exactly the allowed number of
/// attempts and then aborts with the position unchanged, so the assets after
/// the failing one are never reached.
pub proof fn lemma_upload_aborts_in_place(p0: UploadProgress, outcome: UploadOutcome)
    requires
        !p0.aborted,
        p0.attempt == 1,
        outcome != UploadOutcome::Success,
    ensures
        spec_upload_run(p0, outcome, UPLOAD_RETRIES as nat).aborted,
        spec_upload_run(p0, outcome, UPLOAD_RETRIES as nat).next_file == p0.next_file,
        forall|n: nat|
            n < UPLOAD_RETRIES ==> !(#[trigger] spec_upload_run(p0, outcome, n)).aborted,
{
    let p1 = spec_upload_step(p0, outcome);
    let p2 = spec_upload_step(p1, outcome);
    let p3 = spec_upload_step(p2, outcome);
    assert(p1 == (UploadProgress { attempt: 2, ..p0 }));
    assert(p2 == (UploadProgress { attempt: 3, ..p0 }));
    assert(p3 == (UploadProgress { aborted: true, ..p2 }));
    assert(spec_upload_run(p0, outcome, 3) == spec_upload_run(p1, outcome, 2));
    assert(spec_upload_run(p1, outcome, 2) == spec_upload_run(p2, outcome, 1));
    assert(spec_upload_run(p2, outcome, 1) == spec_upload_run(p3, outcome, 0));
    assert forall|n: nat| n < UPLOAD_RETRIES implies !(#[trigger] spec_upload_run(
        p0,
        outcome,
        n,
    )).aborted by {
        if n == 0 {
        } else if n == 1 {
            assert(spec_upload_run(p0, outcome, 1) == spec_upload_run(p1, outcome, 0));
        } else {
            assert(n == 2);
            assert(spec_upload_run(p0, outcome, 2) == spec_upload_run(p1, outcome, 1));
            assert(spec_upload_run(p1, outcome, 1) == spec_upload_run(p2, outcome, 0));
        }
    }
}

/// The content type served for an asset, by file-name suffix.
pub open spec fn spec_content_type(name: Seq<char>) -> Seq<char> {
    if spec_ends_with(name, ".gz"@) {
        "application/gzip"@
    } else if spec_ends_with(name, ".zip"@) {
        "application/zip"@
    } else if spec_ends_with(name, ".sha512"@) {
        "text/plain"@
    } else {
        "application/octet-stream"@
    }
}

pub fn content_type_for(name: &str) -> (r: &'static str)
    ensures
        r@ == spec_content_type(name@),
{
    if ends_with_str(name, ".gz") {
        "application/gzip"
    } else if ends_with_str(name, ".zip") {
        "application/zip"
    } else if ends_with_str(name, ".sha512") {
        "text/plain"
    } else {
        "application/octet-stream"
    }
}

/// What `urlencoding::encode` returns for a string; the result depends on
/// the characters alone.
pub uninterp spec fn url_encoded(s: Seq<char>) -> Seq<char>;

/// Relies on urlencoding::encode: the percent-encoded form of the string.
#[verifier::external_body]
fn url_encode(s: &str) -> (r: String)
    ensures
        r@ == url_encoded(s@),
{
    urlencoding::encode(s).into_owned()
}

/// The upload URL of one asset: the release's bare upload endpoint with the
/// percent-encoded asset name as its `name` query parameter.
pub fn asset_upload_url(base: &str, name: &str) -> (r: String)
    ensures
        r@ == base@ + "?name="@ + url_encoded(name@),
{
    let mut r = String::from_str(base);
    r.append("?name=");
    let enc = url_encode(name);
    r.append(enc.as_str());
    r
}

pub open spec fn strings_sorted(s: Seq<String>) -> bool {
    forall|i: int, j: int| 0 <= i < j < s.len() ==> lex_le(#[trigger] s[i]@, #[trigger] s[j]@)
}

pub open spec fn contains_string(s: Seq<String>, x: Seq<char>) -> bool {
    exists|i: int| 0 <= i < s.len() && (#[trigger] s[i]@) == x
}

proof fn lemma_insert_to_multiset(s: Seq<String>, p: int, x: String)
    requires
        0 <= p <= s.len(),
    ensures
        s.insert(p, x).to_multiset() == s.to_multiset().insert(x),
    decreases s.len(),
{
    broadcast use group_to_multiset_ensures;

    if p == s.len() {
        assert(s.insert(p, x) =~= s.push(x));
    } else {
        let init = s.drop_last();
        lemma_insert_to_multiset(init, p, x);
        assert(s.insert(p, x) =~= init.insert(p, x).push(s.last()));
        assert(s =~= init.push(s.last()));
        assert(s.insert(p, x).to_multiset() =~= init.insert(p, x).to_multiset().insert(s.last()));
        assert(s.to_multiset() =~= init.to_multiset().insert(s.last()));
        assert(init.to_multiset().insert(x).insert(s.last()) =~= init.to_multiset().insert(
            s.last(),
        ).insert(x));
    }
}

#[verifier::loop_isolation(false)]
#[verifier::rlimit(60)]
fn insert_string_sorted(out: &mut Vec<String>, x: String)
    requires
        strings_sorted(old(out)@),
    ensures
        strings_sorted(final (out)@),
        final (out)@.len() == old(out)@.len() + 1,
        final (out)@.to_multiset() == old(out)@.to_multiset().insert(x),
        forall|y: Seq<char>|
            #[trigger] contains_string(final (out)@, y) <==> contains_string(old(out)@, y) || y
                == x@,
{
    let n = out.len();
    let mut p: usize = 0;
    let mut scanning = true;
    while scanning
        invariant
            0 <= p <= n,
            forall|t: int| 0 <= t < p ==> lex_le(#[trigger] out@[t]@, x@),
            !scanning ==> p == n || !lex_le(out@[p as int]@, x@),
        decreases n - p + (if scanning {
            1int
        } else {
            0int
        }),
    {
        if p == n {
            scanning = false;
        } else if !str_le(out[p].as_str(), x.as_str()) {
            scanning = false;
        } else {
            p = p + 1;
        }
    }
    let ghost olds = out@;
    let ghost xv = x@;
    out.insert(p, x);
    proof {
        olds.insert_ensures(p as int, x);
        lemma_insert_to_multiset(olds, p as int, x);
        let newv = out@;
        assert forall|i: int, j: int| 0 <= i < j < newv.len() implies lex_le(
            #[trigger] newv[i]@,
            #[trigger] newv[j]@,
        ) by {
            let pi = p as int;
            if i < pi && j < pi {
                assert(newv[i] == olds[i] && newv[j] == olds[j]);
            } else if i < pi && j == pi {
                assert(newv[i] == olds[i]);
            } else if i < pi && j > pi {
                assert(newv[i] == olds[i] && newv[j] == olds[j - 1]);
            } else if i == pi {
                assert(newv[j] == olds[j - 1]);
                lemma_lex_total(olds[pi]@, xv);
                if j - 1 > pi {
                    lemma_lex_trans(xv, olds[pi]@, olds[j - 1]@);
                }
            } else {
                assert(newv[i] == olds[i - 1] && newv[j] == olds[j - 1]);
            }
        }
        assert forall|y: Seq<char>| #[trigger]
            contains_string(out@, y) <==> contains_string(olds, y) || y == xv by {
            let pi = p as int;
            if contains_string(out@, y) {
                let i = choose|i: int| 0 <= i < out@.len() && (#[trigger] out@[i]@) == y;
                if i < pi {
                    assert(olds[i]@ == y);
                } else if i == pi {
                } else {
                    assert(olds[i - 1]@ == y);
                }
            }
            if contains_string(olds, y) {
                let i = choose|i: int| 0 <= i < olds.len() && (#[trigger] olds[i]@) == y;
                if i < pi {
                    assert(out@[i]@ == y);
                } else {
                    assert(out@[i + 1]@ == y);
                }
            }
            if y == xv {
                assert(out@[pi]@ == y);
            }
        }
    }
}

/// Orders asset file names for upload: ascending code-point order, keeping
/// exactly the given names.
pub fn sort_file_names(files: Vec<String>) -> (r: Vec<String>)
    ensures
        strings_sorted(r@),
        r@.len() == files@.len(),
        r@.to_multiset() == files@.to_multiset(),
        forall|y: Seq<char>|
            #[trigger] contains_string(r@, y) <==> contains_string(files@, y),
{
    let ghost fv = files@;
    let mut rest = files;
    let mut out: Vec<String> = Vec::new();
    proof {
        assert(fv.subrange(0, 0) =~= Seq::<String>::empty());
        assert(out@.to_multiset() =~= fv.subrange(0, 0).to_multiset());
    }
    while rest.len() > 0
        invariant
            out@.len() + rest@.len() == fv.len(),
            strings_sorted(out@),
            out@.to_multiset() == fv.subrange(0, out@.len() as int).to_multiset(),
            rest@ =~= fv.subrange(out@.len() as int, fv.len() as int),
            forall|y: Seq<char>|
                #[trigger] contains_string(out@, y) <==> contains_string(
                    fv.subrange(0, out@.len() as int),
                    y,
                ),
        decreases rest@.len(),
    {
        let ghost taken = out@.len() as int;
        let ghost pre = fv.subrange(0, taken);
        let ghost pre1 = fv.subrange(0, taken + 1);
        let x = rest.remove(0);
        proof {
            assert(x == fv[taken]);
            assert(rest@ =~= fv.subrange(taken + 1, fv.len() as int));
        }
        let ghost old_out = out@;
        insert_string_sorted(&mut out, x);
        proof {
            assert(out@.len() == taken + 1);
            broadcast use group_to_multiset_ensures;

            assert(pre1 =~= pre.push(fv[taken]));
            assert(pre1.to_multiset() =~= pre.to_multiset().insert(fv[taken]));
            assert forall|y: Seq<char>| #[trigger]
                contains_string(out@, y) <==> contains_string(pre1, y) by {
                assert(contains_string(out@, y) <==> contains_string(old_out, y) || y
                    == fv[taken]@);
                if contains_string(pre1, y) {
                    let i = choose|i: int| 0 <= i < pre1.len() && (#[trigger] pre1[i]@) == y;
                    if i < taken {
                        assert(pre[i]@ == y);
                        assert(contains_string(pre, y));
                    } else {
                        assert(pre1[i] == fv[taken]);
                    }
                }
                if contains_string(pre, y) {
                    let i = choose|i: int| 0 <= i < pre.len() && (#[trigger] pre[i]@) == y;
                    assert(pre1[i]@ == y);
                }
                if y == fv[taken]@ {
                    assert(pre1[taken]@ == y);
                }
            }
        }
    }
    proof {
        assert(fv.subrange(0, fv.len() as int) =~= fv);
    }
    out
}

} // verus!
