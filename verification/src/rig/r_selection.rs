//! Selecting an installed or available R for an `r-version` requirement.
//! Here a requirement `== X.Y` (fewer than three pieces) accepts every
//! release of that minor series.
use vstd::prelude::*;

use crate::rig::model::{
    candidate_versions, installed_versions, lemma_newest_kept_kept, newest_kept,
    released_before_or_on, released_by, requirement_matches, requirement_matches_exec,
    step_newest_candidate, step_newest_installed, strings_view, AvailableCandidate, InstalledR,
    RequirementSpec, VersionOp, VersionRequirement,
};
use crate::text::{chars_of, extend_chars, string_of};

pub use crate::rig::model::{iso_date_prefix, parse_iso_date_field, parse_version_requirement};

verus! {

/// Whether the installation meets the requirement (minor-series `==`).
pub open spec fn installed_meets(req: RequirementSpec, i: InstalledR) -> bool {
    requirement_matches(req, i.name@, i.version@, strings_view(i.aliases@), true)
}

/// The installations that meet the requirement.
pub open spec fn installed_keep(req: RequirementSpec, v: Seq<InstalledR>) -> Seq<bool> {
    Seq::new(v.len(), |i: int| installed_meets(req, v[i]))
}

/// The newest installation meeting the requirement: `None` when none does;
/// among equally new ones the last.
pub fn select_installed_r<'a>(requirement: &VersionRequirement, installed: &'a [InstalledR]) -> (r:
    Option<&'a InstalledR>)
    ensures
        match newest_kept(
            installed_versions(installed@),
            installed_keep(requirement@, installed@),
            installed@.len() as int,
        ) {
            None => r is None,
            Some(m) => r == Some(&installed@[m]),
        },
        r is None <==> forall|j: int|
            0 <= j < installed@.len() ==> !installed_meets(requirement@, #[trigger] installed@[j]),
{
    let ghost keep = installed_keep(requirement@, installed@);
    let mut best: Option<usize> = None;
    let mut i: usize = 0;
    while i < installed.len()
        invariant
            i <= installed@.len(),
            keep == installed_keep(requirement@, installed@),
            best == match newest_kept(installed_versions(installed@), keep, i as int) {
                Some(m) => Some(m as usize),
                None => None::<usize>,
            },
        decreases installed@.len() - i,
    {
        proof {
            lemma_newest_kept_kept(installed_versions(installed@), keep, i as int);
        }
        let kept = requirement_matches_exec(
            requirement,
            installed[i].name.as_str(),
            installed[i].version.as_str(),
            installed[i].aliases.as_slice(),
            true,
        );
        best = step_newest_installed(installed, Ghost(keep), best, i, kept);
        i += 1;
    }
    proof {
        lemma_newest_kept_kept(installed_versions(installed@), keep, installed@.len() as int);
        if forall|j: int|
            0 <= j < installed@.len() ==> !installed_meets(requirement@, #[trigger] installed@[j]) {
            assert(forall|j: int| 0 <= j < installed@.len() ==> !keep[j]);
        }
        match newest_kept(installed_versions(installed@), keep, installed@.len() as int) {
            Some(m) => {
                assert(keep[m]);
                assert(installed_meets(requirement@, installed@[m]));
            },
            None => {},
        }
    }
    match best {
        Some(m) => {
            assert(keep[m as int]);
            assert(installed_meets(requirement@, installed@[m as int]));
            Some(&installed[m])
        },
        None => {
            assert forall|j: int| 0 <= j < installed@.len() implies !installed_meets(
                requirement@,
                #[trigger] installed@[j],
            ) by {
                assert(!keep[j]);
            }
            None
        },
    }
}

pub open spec fn opt_str_view(o: Option<&str>) -> Option<Seq<char>> {
    match o {
        Some(s) => Some(s@),
        None => None,
    }
}

/// A candidate released by the cutoff and meeting the requirement (matched
/// by name and version only).
pub open spec fn candidate_meets(
    req: RequirementSpec,
    exclude_newer: Option<Seq<char>>,
    c: AvailableCandidate,
) -> bool {
    released_by(c, exclude_newer) && requirement_matches(
        req,
        c.name@,
        c.version@,
        Seq::empty(),
        true,
    )
}

pub open spec fn candidate_keep(
    req: RequirementSpec,
    exclude_newer: Option<Seq<char>>,
    v: Seq<AvailableCandidate>,
) -> Seq<bool> {
    Seq::new(v.len(), |i: int| candidate_meets(req, exclude_newer, v[i]))
}

pub open spec fn unresolved_error(req: Seq<char>, exclude_newer: Option<Seq<char>>) -> Seq<char> {
    "could not resolve R version `"@ + req + "` with available R versions"@ + match exclude_newer {
        Some(d) => " before or on "@ + d,
        None => Seq::<char>::empty(),
    }
}

pub(crate) fn unresolved_message(req: &str, exclude_newer: Option<&str>) -> (m: String)
    ensures
        m@ == unresolved_error(req@, opt_str_view(exclude_newer)),
{
    let mut m = chars_of("could not resolve R version `");
    extend_chars(&mut m, &chars_of(req));
    extend_chars(&mut m, &chars_of("` with available R versions"));
    match exclude_newer {
        Some(d) => {
            extend_chars(&mut m, &chars_of(" before or on "));
            extend_chars(&mut m, &chars_of(d));
        },
        None => {
            assert(m@ =~= m@ + Seq::<char>::empty());
        },
    }
    string_of(&m)
}

/// The newest candidate released by `exclude_newer` that meets the
/// requirement, or the error naming `req` (and the cutoff).
pub fn select_available_candidate<'a>(
    req: &str,
    requirement: &VersionRequirement,
    exclude_newer: Option<&str>,
    candidates: &'a [AvailableCandidate],
) -> (r: Result<&'a AvailableCandidate, String>)
    ensures
        match newest_kept(
            candidate_versions(candidates@),
            candidate_keep(requirement@, opt_str_view(exclude_newer), candidates@),
            candidates@.len() as int,
        ) {
            None => r is Err && r->Err_0@ == unresolved_error(req@, opt_str_view(exclude_newer)),
            Some(m) => r == Ok::<&AvailableCandidate, String>(&candidates@[m]),
        },
{
    let ghost keep = candidate_keep(requirement@, opt_str_view(exclude_newer), candidates@);
    let no_aliases: Vec<String> = Vec::new();
    let mut best: Option<usize> = None;
    let mut i: usize = 0;
    while i < candidates.len()
        invariant
            i <= candidates@.len(),
            no_aliases@.len() == 0,
            keep == candidate_keep(requirement@, opt_str_view(exclude_newer), candidates@),
            best == match newest_kept(candidate_versions(candidates@), keep, i as int) {
                Some(m) => Some(m as usize),
                None => None::<usize>,
            },
        decreases candidates@.len() - i,
    {
        proof {
            lemma_newest_kept_kept(candidate_versions(candidates@), keep, i as int);
            assert(strings_view(no_aliases@) =~= Seq::empty());
        }
        let e = match exclude_newer {
            Some(e) => Some(e),
            None => None,
        };
        let kept = released_before_or_on(&candidates[i], e) && requirement_matches_exec(
            requirement,
            candidates[i].name.as_str(),
            candidates[i].version.as_str(),
            no_aliases.as_slice(),
            true,
        );
        best = step_newest_candidate(candidates, Ghost(keep), best, i, kept);
        i += 1;
    }
    proof {
        lemma_newest_kept_kept(candidate_versions(candidates@), keep, candidates@.len() as int);
    }
    match best {
        Some(m) => Ok(&candidates[m]),
        None => Err(unresolved_message(req, exclude_newer)),
    }
}

/// The version to suggest for `rig install`: a bare requirement as written,
/// or the version of an `==` requirement; no hint for other comparisons.
pub fn rig_install_hint(requirement: &VersionRequirement) -> (r: Option<&str>)
    ensures
        opt_str_view(r) == match requirement@ {
            RequirementSpec::Bare(req) => Some(req),
            RequirementSpec::Comparison(op, _, raw) => if op == VersionOp::Eq {
                Some(raw)
            } else {
                None
            },
        },
{
    match requirement {
        VersionRequirement::Bare(req) => Some(req.as_str()),
        VersionRequirement::Comparison { op, raw, .. } => {
            if *op == VersionOp::Eq {
                Some(raw.as_str())
            } else {
                None
            }
        },
    }
}

} // verus!
