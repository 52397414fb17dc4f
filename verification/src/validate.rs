//! The plan validator: before anything is uploaded, the packaged set must
//! carry exactly the planned package names, each with both archive kinds.

use vstd::prelude::*;
use vstd::string::*;

use crate::errors::ReleaseError;
use crate::plan::{plan_has_name, Plan, PlanEntryView};
use crate::text::{ends_with_str, spec_ends_with, str_eq};

verus! {

/// The artifacts produced for one package: its name and its files.
pub struct PackagedCrate {
    pub name: String,
    pub files: Vec<String>,
}

/// Some file name in the list ends with `suffix`.
pub open spec fn has_file_with_suffix(files: Seq<String>, suffix: Seq<char>) -> bool {
    exists|i: int| 0 <= i < files.len() && spec_ends_with(#[trigger] files[i]@, suffix)
}

fn find_suffix(files: &Vec<String>, suffix: &str) -> (r: bool)
    ensures
        r == has_file_with_suffix(files@, suffix@),
{
    let mut i: usize = 0;
    while i < files.len()
        invariant
            0 <= i <= files@.len(),
            forall|t: int| 0 <= t < i ==> !spec_ends_with(#[trigger] files@[t]@, suffix@),
        decreases files@.len() - i,
    {
        if ends_with_str(files[i].as_str(), suffix) {
            return true;
        }
        i = i + 1;
    }
    false
}

/// Some packaged package has this name.
pub open spec fn name_in_packaged(packaged: Seq<PackagedCrate>, name: Seq<char>) -> bool {
    exists|i: int| 0 <= i < packaged.len() && (#[trigger] packaged[i]).name@ == name
}

/// The packaged name set equals the plan's name set, with equal cardinality.
pub open spec fn packaged_names_match(pv: Seq<PlanEntryView>, packaged: Seq<PackagedCrate>) -> bool {
    &&& packaged.len() == pv.len()
    &&& forall|i: int| 0 <= i < packaged.len() ==> plan_has_name(pv, (#[trigger] packaged[i]).name@)
    &&& forall|t: int| 0 <= t < pv.len() ==> name_in_packaged(packaged, (#[trigger] pv[t]).name)
}

/// Every packaged package carries both archive kinds.
pub open spec fn packaged_kinds_complete(packaged: Seq<PackagedCrate>) -> bool {
    forall|i: int|
        0 <= i < packaged.len() ==> has_file_with_suffix((#[trigger] packaged[i]).files@, ".gz"@)
            && has_file_with_suffix(packaged[i].files@, ".zip"@)
}

/// Cross-checks the packaged artifact set against the plan: it succeeds
/// exactly when the packaged names are the plan's names (same cardinality)
/// and every package has both a tar-style and a zip-style archive.
pub fn validate_packaged(plan: &Plan, packaged: &Vec<PackagedCrate>) -> (r: Result<
    (),
    ReleaseError,
>)
    ensures
        r is Ok <==> packaged_names_match(plan@, packaged@) && packaged_kinds_complete(packaged@),
        r is Err ==> r->Err_0 == ReleaseError::ValidationMismatch,
{
    if packaged.len() != plan.changed_count() {
        return Err(ReleaseError::ValidationMismatch);
    }
    let mut i: usize = 0;
    while i < packaged.len()
        invariant
            0 <= i <= packaged@.len(),
            packaged@.len() == plan@.len(),
            forall|t: int| 0 <= t < i ==> plan_has_name(plan@, (#[trigger] packaged@[t]).name@),
        decreases packaged@.len() - i,
    {
        match plan.crate_plan(packaged[i].name.as_str()) {
            Some(_) => {},
            None => {
                return Err(ReleaseError::ValidationMismatch);
            },
        }
        i = i + 1;
    }
    let mut t: usize = 0;
    while t < plan.changed_count()
        invariant
            0 <= t <= plan@.len(),
            packaged@.len() == plan@.len(),
            forall|q: int| 0 <= q < t ==> name_in_packaged(packaged@, (#[trigger] plan@[q]).name),
        decreases plan@.len() - t,
    {
        let name = plan.name_at(t);
        let mut j: usize = 0;
        let mut found = false;
        while j < packaged.len()
            invariant
                0 <= j <= packaged@.len(),
                name@ == plan@[t as int].name,
                t < plan@.len(),
                found ==> name_in_packaged(packaged@, plan@[t as int].name),
                !found ==> forall|q: int|
                    0 <= q < j ==> (#[trigger] packaged@[q]).name@ != plan@[t as int].name,
            decreases packaged@.len() - j,
        {
            if str_eq(packaged[j].name.as_str(), name) {
                found = true;
            }
            j = j + 1;
        }
        if !found {
            proof {
                if name_in_packaged(packaged@, plan@[t as int].name) {
                    let q = choose|q: int|
                        0 <= q < packaged@.len() && (#[trigger] packaged@[q]).name@ == plan@[
                            t as int
                        ].name;
                }
            }
            return Err(ReleaseError::ValidationMismatch);
        }
        t = t + 1;
    }
    let mut k: usize = 0;
    while k < packaged.len()
        invariant
            0 <= k <= packaged@.len(),
            packaged@.len() == plan@.len(),
            forall|q: int|
                0 <= q < k ==> has_file_with_suffix((#[trigger] packaged@[q]).files@, ".gz"@)
                    && has_file_with_suffix(packaged@[q].files@, ".zip"@),
        decreases packaged@.len() - k,
    {
        let has_tar = find_suffix(&packaged[k].files, ".gz");
        let has_zip = find_suffix(&packaged[k].files, ".zip");
        if !has_tar || !has_zip {
            return Err(ReleaseError::ValidationMismatch);
        }
        k = k + 1;
    }
    proof {
        assert(packaged@.len() == plan@.len());
        assert(forall|i: int|
            0 <= i < packaged@.len() ==> plan_has_name(plan@, (#[trigger] packaged@[i]).name@));
        assert(forall|t0: int|
            0 <= t0 < plan@.len() ==> name_in_packaged(packaged@, (#[trigger] plan@[t0]).name));
        assert(packaged_names_match(plan@, packaged@));
        assert(packaged_kinds_complete(packaged@));
    }
    Ok(())
}

} // verus!
