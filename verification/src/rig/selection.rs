//! Selecting R against a release catalog: installations for a requirement
//! or a date, and the release a requirement or date resolves to.
use vstd::prelude::*;

use crate::rig::catalog::ReleaseCatalog;
use crate::rig::model::{
    candidate_of, candidate_versions, installed_matches_available, installed_versions,
    lemma_newest_kept_kept, matches_available_candidate, newest_kept, released_before_or_on,
    released_by, requirement_matches, stable_candidate, stable_installed,
    stable_installed_release_candidate, stable_release_candidate, step_newest_candidate,
    step_newest_installed, strings_view, has_text, AvailableCandidate, AvailableR, InstalledR,
    RequirementSpec, VersionRequirement, concrete_name,
};
use crate::rig::r_selection::{opt_str_view, unresolved_error, unresolved_message};
use crate::text::{chars_of, extend_chars, string_of};

verus! {

/// The candidates of a catalog.
pub open spec fn catalog_candidates(c: ReleaseCatalog) -> Seq<AvailableCandidate> {
    c.versions@.map_values(|v: AvailableR| candidate_of(v))
}

/// A bare requirement that names the installation or one of its aliases.
pub open spec fn requested_installed(req: RequirementSpec, i: InstalledR) -> bool {
    match req {
        RequirementSpec::Bare(r) => i.name@ == r || has_text(strings_view(i.aliases@), r),
        _ => false,
    }
}

/// A bare requirement naming this symbolic release.
pub open spec fn requested_symbolic(req: RequirementSpec, c: AvailableCandidate) -> bool {
    match req {
        RequirementSpec::Bare(r) => !concrete_name(c.name@) && r == c.name@,
        _ => false,
    }
}

pub open spec fn keep_for_requirement(req: RequirementSpec, v: Seq<InstalledR>) -> Seq<bool> {
    Seq::new(
        v.len(),
        |i: int|
            (stable_installed(v[i]) || requested_installed(req, v[i])) && requirement_matches(
                req,
                v[i].name@,
                v[i].version@,
                strings_view(v[i].aliases@),
                false,
            ),
    )
}

pub open spec fn opt_ref_index<T>(v: Seq<T>, r: Option<&T>, pick: Option<int>) -> bool {
    match pick {
        None => r is None,
        Some(m) => r == Some(&v[m]),
    }
}

/// The newest installation that meets the requirement, considering concrete
/// releases and installations the requirement names directly.
pub fn select_installed_for_requirement<'a>(
    installed: &'a [InstalledR],
    requirement: &VersionRequirement,
) -> (r: Option<&'a InstalledR>)
    ensures
        opt_ref_index(
            installed@,
            r,
            newest_kept(
                installed_versions(installed@),
                keep_for_requirement(requirement@, installed@),
                installed@.len() as int,
            ),
        ),
{
    let ghost keep = keep_for_requirement(requirement@, installed@);
    let mut best: Option<usize> = None;
    let mut i: usize = 0;
    while i < installed.len()
        invariant
            i <= installed@.len(),
            keep == keep_for_requirement(requirement@, installed@),
            best == match newest_kept(installed_versions(installed@), keep, i as int) {
                Some(m) => Some(m as usize),
                None => None::<usize>,
            },
        decreases installed@.len() - i,
    {
        proof {
            lemma_newest_kept_kept(installed_versions(installed@), keep, i as int);
        }
        let kept = (stable_installed_release_candidate(&installed[i])
            || requirement.matches_requested_installed_candidate(&installed[i]))
            && requirement.matches_installed(&installed[i]);
        best = step_newest_installed(installed, Ghost(keep), best, i, kept);
        i += 1;
    }
    proof {
        lemma_newest_kept_kept(installed_versions(installed@), keep, installed@.len() as int);
    }
    match best {
        Some(m) => Some(&installed[m]),
        None => None,
    }
}

/// Some concrete catalog release that the installation is, released by the
/// cutoff.
pub open spec fn installed_released_by(
    i: InstalledR,
    cands: Seq<AvailableCandidate>,
    exclude_newer: Seq<char>,
) -> bool {
    exists|k: int|
        0 <= k < cands.len() && stable_candidate(#[trigger] cands[k])
            && installed_matches_available(i, cands[k]) && released_by(
            cands[k],
            Some(exclude_newer),
        )
}

fn released_in(
    installed: &InstalledR,
    cands: &Vec<AvailableCandidate>,
    exclude_newer: &str,
) -> (r: bool)
    ensures
        r == installed_released_by(*installed, cands@, exclude_newer@),
{
    let mut k: usize = 0;
    while k < cands.len()
        invariant
            k <= cands@.len(),
            forall|j: int|
                0 <= j < k ==> !(stable_candidate(#[trigger] cands@[j])
                    && installed_matches_available(*installed, cands@[j]) && released_by(
                    cands@[j],
                    Some(exclude_newer@),
                )),
        decreases cands@.len() - k,
    {
        if stable_release_candidate(&cands[k]) && matches_available_candidate(installed, &cands[k])
            && released_before_or_on(&cands[k], Some(exclude_newer)) {
            return true;
        }
        k += 1;
    }
    false
}

/// Whether the installation is a concrete catalog release released on or
/// before `exclude_newer`.
pub fn installed_released_before_or_on(
    installed: &InstalledR,
    catalog: &ReleaseCatalog,
    exclude_newer: &str,
) -> (r: bool)
    ensures
        r == installed_released_by(*installed, catalog_candidates(*catalog), exclude_newer@),
{
    let cands = catalog.candidates();
    released_in(installed, &cands, exclude_newer)
}

pub open spec fn keep_for_date(
    v: Seq<InstalledR>,
    cands: Seq<AvailableCandidate>,
    exclude_newer: Seq<char>,
) -> Seq<bool> {
    Seq::new(
        v.len(),
        |i: int| stable_installed(v[i]) && installed_released_by(v[i], cands, exclude_newer),
    )
}

/// The newest concrete installation whose release came out on or before
/// `exclude_newer`.
pub fn select_installed_for_date<'a>(
    installed: &'a [InstalledR],
    catalog: &ReleaseCatalog,
    exclude_newer: &str,
) -> (r: Option<&'a InstalledR>)
    ensures
        opt_ref_index(
            installed@,
            r,
            newest_kept(
                installed_versions(installed@),
                keep_for_date(installed@, catalog_candidates(*catalog), exclude_newer@),
                installed@.len() as int,
            ),
        ),
{
    let cands = catalog.candidates();
    let ghost keep = keep_for_date(installed@, cands@, exclude_newer@);
    let mut best: Option<usize> = None;
    let mut i: usize = 0;
    while i < installed.len()
        invariant
            i <= installed@.len(),
            keep == keep_for_date(installed@, cands@, exclude_newer@),
            best == match newest_kept(installed_versions(installed@), keep, i as int) {
                Some(m) => Some(m as usize),
                None => None::<usize>,
            },
        decreases installed@.len() - i,
    {
        proof {
            lemma_newest_kept_kept(installed_versions(installed@), keep, i as int);
        }
        let kept = stable_installed_release_candidate(&installed[i]) && released_in(
            &installed[i],
            &cands,
            exclude_newer,
        );
        best = step_newest_installed(installed, Ghost(keep), best, i, kept);
        i += 1;
    }
    proof {
        lemma_newest_kept_kept(installed_versions(installed@), keep, installed@.len() as int);
    }
    match best {
        Some(m) => Some(&installed[m]),
        None => None,
    }
}

/// Some concrete installation is not a concrete release of the catalog.
pub open spec fn stable_outside(v: Seq<InstalledR>, cands: Seq<AvailableCandidate>) -> bool {
    exists|i: int|
        0 <= i < v.len() && stable_installed(#[trigger] v[i]) && !exists|k: int|
            0 <= k < cands.len() && stable_candidate(#[trigger] cands[k])
                && installed_matches_available(v[i], cands[k])
}

/// Whether some concrete installation matches no concrete catalog release.
pub fn has_stable_installed_outside_catalog(installed: &[InstalledR], catalog: &ReleaseCatalog) -> (r:
    bool)
    ensures
        r == stable_outside(installed@, catalog_candidates(*catalog)),
{
    let cands = catalog.candidates();
    let mut i: usize = 0;
    while i < installed.len()
        invariant
            i <= installed@.len(),
            cands@ == catalog_candidates(*catalog),
            forall|j: int|
                0 <= j < i ==> !(stable_installed(#[trigger] installed@[j]) && !exists|k: int|
                    0 <= k < cands@.len() && stable_candidate(#[trigger] cands@[k])
                        && installed_matches_available(installed@[j], cands@[k])),
        decreases installed@.len() - i,
    {
        if stable_installed_release_candidate(&installed[i]) {
            let mut found = false;
            let mut k: usize = 0;
            while k < cands.len()
                invariant
                    k <= cands@.len(),
                    i < installed@.len(),
                    found ==> exists|q: int|
                        0 <= q < cands@.len() && stable_candidate(#[trigger] cands@[q])
                            && installed_matches_available(installed@[i as int], cands@[q]),
                    !found ==> forall|q: int|
                        0 <= q < k ==> !(stable_candidate(#[trigger] cands@[q])
                            && installed_matches_available(installed@[i as int], cands@[q])),
                decreases cands@.len() - k,
            {
                if stable_release_candidate(&cands[k]) && matches_available_candidate(
                    &installed[i],
                    &cands[k],
                ) {
                    found = true;
                }
                k += 1;
            }
            if !found {
                return true;
            }
        }
        i += 1;
    }
    false
}

pub open spec fn keep_available(
    req: RequirementSpec,
    exclude_newer: Option<Seq<char>>,
    v: Seq<AvailableCandidate>,
) -> Seq<bool> {
    Seq::new(
        v.len(),
        |i: int|
            released_by(v[i], exclude_newer) && (stable_candidate(v[i]) || requested_symbolic(
                req,
                v[i],
            )) && requirement_matches(req, v[i].name@, v[i].version@, Seq::empty(), false),
    )
}

/// The newest catalog release, released by the cutoff, that is concrete or
/// named directly and meets the requirement; or the error naming `req`.
pub fn required_available_version(
    req: &str,
    requirement: &VersionRequirement,
    catalog: &ReleaseCatalog,
    exclude_newer: Option<&str>,
) -> (r: Result<AvailableR, String>)
    ensures
        match newest_kept(
            candidate_versions(catalog_candidates(*catalog)),
            keep_available(requirement@, opt_str_view(exclude_newer), catalog_candidates(*catalog)),
            catalog.versions@.len() as int,
        ) {
            None => r is Err && r->Err_0@ == unresolved_error(req@, opt_str_view(exclude_newer)),
            Some(m) => r is Ok && candidate_of(r->Ok_0) == catalog_candidates(*catalog)[m],
        },
{
    let cands = catalog.candidates();
    let ghost keep = keep_available(requirement@, opt_str_view(exclude_newer), cands@);
    let no_aliases: Vec<String> = Vec::new();
    let mut best: Option<usize> = None;
    let mut i: usize = 0;
    while i < cands.len()
        invariant
            i <= cands@.len(),
            no_aliases@.len() == 0,
            keep == keep_available(requirement@, opt_str_view(exclude_newer), cands@),
            best == match newest_kept(candidate_versions(cands@), keep, i as int) {
                Some(m) => Some(m as usize),
                None => None::<usize>,
            },
        decreases cands@.len() - i,
    {
        proof {
            lemma_newest_kept_kept(candidate_versions(cands@), keep, i as int);
            assert(strings_view(no_aliases@) =~= Seq::empty());
        }
        let e = match exclude_newer {
            Some(e) => Some(e),
            None => None,
        };
        let kept = released_before_or_on(&cands[i], e) && (stable_release_candidate(&cands[i])
            || requirement.matches_requested_symbolic_candidate(&cands[i]))
            && requirement.matches_candidate(
            cands[i].name.as_str(),
            cands[i].version.as_str(),
            no_aliases.as_slice(),
        );
        best = step_newest_candidate(cands.as_slice(), Ghost(keep), best, i, kept);
        i += 1;
    }
    proof {
        lemma_newest_kept_kept(candidate_versions(cands@), keep, cands@.len() as int);
    }
    match best {
        Some(m) => Ok(AvailableR::from_candidate(&cands[m])),
        None => Err(unresolved_message(req, exclude_newer)),
    }
}

pub open spec fn keep_for_date_available(
    exclude_newer: Seq<char>,
    v: Seq<AvailableCandidate>,
) -> Seq<bool> {
    Seq::new(v.len(), |i: int| released_by(v[i], Some(exclude_newer)) && stable_candidate(v[i]))
}

pub open spec fn no_release_error(exclude_newer: Seq<char>) -> Seq<char> {
    "could not resolve an R version available before or on "@ + exclude_newer
}

/// The newest concrete release that came out on or before `exclude_newer`.
pub fn required_available_version_for_date(catalog: &ReleaseCatalog, exclude_newer: &str) -> (r:
    Result<AvailableR, String>)
    ensures
        match newest_kept(
            candidate_versions(catalog_candidates(*catalog)),
            keep_for_date_available(exclude_newer@, catalog_candidates(*catalog)),
            catalog.versions@.len() as int,
        ) {
            None => r is Err && r->Err_0@ == no_release_error(exclude_newer@),
            Some(m) => r is Ok && candidate_of(r->Ok_0) == catalog_candidates(*catalog)[m],
        },
{
    let cands = catalog.candidates();
    let ghost keep = keep_for_date_available(exclude_newer@, cands@);
    let mut best: Option<usize> = None;
    let mut i: usize = 0;
    while i < cands.len()
        invariant
            i <= cands@.len(),
            keep == keep_for_date_available(exclude_newer@, cands@),
            best == match newest_kept(candidate_versions(cands@), keep, i as int) {
                Some(m) => Some(m as usize),
                None => None::<usize>,
            },
        decreases cands@.len() - i,
    {
        proof {
            lemma_newest_kept_kept(candidate_versions(cands@), keep, i as int);
        }
        let kept = released_before_or_on(&cands[i], Some(exclude_newer))
            && stable_release_candidate(&cands[i]);
        best = step_newest_candidate(cands.as_slice(), Ghost(keep), best, i, kept);
        i += 1;
    }
    proof {
        lemma_newest_kept_kept(candidate_versions(cands@), keep, cands@.len() as int);
    }
    match best {
        Some(m) => Ok(AvailableR::from_candidate(&cands[m])),
        None => {
            let mut msg = chars_of("could not resolve an R version available before or on ");
            extend_chars(&mut msg, &chars_of(exclude_newer));
            Err(string_of(&msg))
        },
    }
}

/// The newest candidate released by the cutoff that meets the
/// requirement, as a release; or the error naming `req`.
pub fn required_available_version_from_candidates(
    req: &str,
    requirement: &VersionRequirement,
    exclude_newer: Option<&str>,
    candidates: &[AvailableCandidate],
) -> (r: Result<AvailableR, String>)
    ensures
        match crate::rig::model::newest_kept(
            candidate_versions(candidates@),
            crate::rig::r_selection::candidate_keep(
                requirement@,
                opt_str_view(exclude_newer),
                candidates@,
            ),
            candidates@.len() as int,
        ) {
            None => r is Err && r->Err_0@ == unresolved_error(req@, opt_str_view(exclude_newer)),
            Some(m) => r is Ok && candidate_of(r->Ok_0) == candidates@[m],
        },
{
    match crate::rig::r_selection::select_available_candidate(
        req,
        requirement,
        exclude_newer,
        candidates,
    ) {
        Ok(c) => Ok(AvailableR::from_candidate(c)),
        Err(e) => Err(e),
    }
}

} // verus!
