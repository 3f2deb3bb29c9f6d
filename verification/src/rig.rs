//! R version selection through rig.
pub mod catalog;
pub mod command;
pub mod model;
pub mod r_selection;
pub mod release_metadata;
pub mod selection;

use vstd::prelude::*;

use crate::rig::catalog::ReleaseCatalog;
use crate::rig::model::{
    candidate_of, candidate_versions, date_field_error, installed_versions, iso_date,
    newest_kept, parse_iso_date_field, requirement_of, InstalledR, RequirementSpec, VersionOp,
};
use crate::rig::r_selection::{
    installed_keep, parse_version_requirement, rig_install_hint, select_installed_r,
};
use crate::rig::selection::{
    catalog_candidates, keep_for_date_available, no_release_error,
    required_available_version_for_date,
};
use crate::text::{chars_of, extend_chars, slice_vec, split_chars, split_on, string_of, trim};

verus! {

/// The version `rig install` should be told about, if the requirement names one.
pub open spec fn install_hint(req: RequirementSpec) -> Option<Seq<char>> {
    match req {
        RequirementSpec::Bare(x) => Some(x),
        RequirementSpec::Comparison(op, _, raw) => if op == VersionOp::Eq {
            Some(raw)
        } else {
            None
        },
    }
}

pub open spec fn missing_error(req: Seq<char>, requirement: RequirementSpec) -> Seq<char> {
    match install_hint(requirement) {
        Some(v) => "R "@ + v + " is required but is not installed. Run `rig install "@ + v
            + "`."@,
        None => "R "@ + req
            + " is required but no matching R is installed. Install a matching R with `rig install`, or specify a different `r-version` or `--r-version`."@,
    }
}

/// The message for a requirement that no installed R meets.
pub fn missing_r_version_error(req: &str, requirement: &crate::rig::model::VersionRequirement) -> (r:
    String)
    ensures
        r@ == missing_error(req@, requirement@),
{
    match rig_install_hint(requirement) {
        Some(version) => {
            let mut m = chars_of("R ");
            extend_chars(&mut m, &chars_of(version));
            extend_chars(&mut m, &chars_of(" is required but is not installed. Run `rig install "));
            extend_chars(&mut m, &chars_of(version));
            extend_chars(&mut m, &chars_of("`."));
            string_of(&m)
        },
        None => {
            let mut m = chars_of("R ");
            extend_chars(&mut m, &chars_of(req));
            extend_chars(
                &mut m,
                &chars_of(
                    " is required but no matching R is installed. Install a matching R with `rig install`, or specify a different `r-version` or `--r-version`.",
                ),
            );
            string_of(&m)
        },
    }
}

/// The installed R that `r-version: req` selects: the cutoff, when given,
/// must be a `YYYY-MM-DD` date; then the newest installation meeting the
/// requirement, or the message suggesting what to install.
pub fn resolve_rscript<'a>(req: &str, exclude_newer: Option<&str>, installed: &'a [InstalledR]) -> (r:
    Result<&'a InstalledR, String>)
    ensures
        (exclude_newer matches Some(e) && !iso_date(trim(e@))) ==> r is Err && r->Err_0@
            == date_field_error("exclude-newer"@),
        (exclude_newer matches Some(e) ==> iso_date(trim(e@))) ==> match requirement_of(req@) {
            Err(msg) => r is Err && r->Err_0@ == msg,
            Ok(rq) => match newest_kept(
                installed_versions(installed@),
                installed_keep(rq, installed@),
                installed@.len() as int,
            ) {
                Some(m) => r == Ok::<&InstalledR, String>(&installed@[m]),
                None => r is Err && r->Err_0@ == missing_error(req@, rq),
            },
        },
{
    if let Some(e) = exclude_newer {
        parse_iso_date_field("exclude-newer", e)?;
    }
    let requirement = parse_version_requirement(req)?;
    match select_installed_r(&requirement, installed) {
        Some(i) => Ok(i),
        None => Err(missing_r_version_error(req, &requirement)),
    }
}

/// `MAJOR.MINOR` of a version: its first two pieces, or the version itself
/// when it has fewer.
pub open spec fn minor_series(v: Seq<char>) -> Seq<char> {
    let p = split_on(v, '.');
    if p.len() >= 2 {
        p[0] + seq!['.'] + p[1]
    } else {
        v
    }
}

/// The minor series (`MAJOR.MINOR`) of the newest concrete release in the
/// catalog that came out on or before `exclude_newer`.
pub fn latest_minor_version_on(catalog: &ReleaseCatalog, exclude_newer: &str) -> (r: Result<
    String,
    String,
>)
    ensures
        match newest_kept(
            candidate_versions(catalog_candidates(*catalog)),
            keep_for_date_available(exclude_newer@, catalog_candidates(*catalog)),
            catalog.versions@.len() as int,
        ) {
            None => r is Err && r->Err_0@ == no_release_error(exclude_newer@),
            Some(m) => r is Ok && r->Ok_0@ == minor_series(catalog.versions@[m].version@),
        },
{
    let release = required_available_version_for_date(catalog, exclude_newer)?;
    proof {
        let m = newest_kept(
            candidate_versions(catalog_candidates(*catalog)),
            keep_for_date_available(exclude_newer@, catalog_candidates(*catalog)),
            catalog.versions@.len() as int,
        );
        if let Some(k) = m {
            crate::rig::model::lemma_newest_kept_kept(
                candidate_versions(catalog_candidates(*catalog)),
                keep_for_date_available(exclude_newer@, catalog_candidates(*catalog)),
                catalog.versions@.len() as int,
            );
            assert(candidate_of(release).version == candidate_of(catalog.versions@[k]).version);
        }
    }
    let v = chars_of(release.version.as_str());
    let p = split_chars(&v, '.');
    if p.len() >= 2 {
        let mut m = slice_vec(&p[0], 0, p[0].len());
        m.push('.');
        extend_chars(&mut m, &p[1]);
        assert(p@[0]@ == split_on(v@, '.')[0]);
        assert(p@[1]@ == split_on(v@, '.')[1]);
        assert(m@ =~= minor_series(v@));
        Ok(string_of(&m))
    } else {
        Ok(release.version)
    }
}

pub open spec fn date_implies_error(date: Seq<char>, req: Seq<char>) -> Seq<char> {
    "`exclude-newer` "@ + date + " implies `r-version: "@ + req + "` because R "@ + req
        + " was the latest R minor version available on that date, but no matching R is installed. Run `rig install "@
        + req
        + "`, set `IR_RSCRIPT`, pass `--rscript`, or specify `r-version` or `--r-version`."@
}

/// The installed R implied by a cutoff date alone: the newest installation
/// of the minor series that was current on that date.
pub fn resolve_rscript_for_exclude_newer<'a>(
    exclude_newer: &str,
    catalog: &ReleaseCatalog,
    installed: &'a [InstalledR],
) -> (r: Result<&'a InstalledR, String>)
    ensures
        !iso_date(trim(exclude_newer@)) ==> r is Err && r->Err_0@ == date_field_error(
            "exclude-newer"@,
        ),
        iso_date(trim(exclude_newer@)) ==> match newest_kept(
            candidate_versions(catalog_candidates(*catalog)),
            keep_for_date_available(trim(exclude_newer@), catalog_candidates(*catalog)),
            catalog.versions@.len() as int,
        ) {
            None => r is Err && r->Err_0@ == no_release_error(trim(exclude_newer@)),
            Some(k) => {
                let req = minor_series(catalog.versions@[k].version@);
                match requirement_of(req) {
                    Err(msg) => r is Err && r->Err_0@ == msg,
                    Ok(rq) => match newest_kept(
                        installed_versions(installed@),
                        installed_keep(rq, installed@),
                        installed@.len() as int,
                    ) {
                        Some(m) => r == Ok::<&InstalledR, String>(&installed@[m]),
                        None => r is Err && r->Err_0@ == date_implies_error(
                            trim(exclude_newer@),
                            req,
                        ),
                    },
                }
            },
        },
{
    let date = parse_iso_date_field("exclude-newer", exclude_newer)?;
    let req = latest_minor_version_on(catalog, date.as_str())?;
    let requirement = parse_version_requirement(req.as_str())?;
    match select_installed_r(&requirement, installed) {
        Some(i) => Ok(i),
        None => {
            let mut m = chars_of("`exclude-newer` ");
            extend_chars(&mut m, &chars_of(date.as_str()));
            extend_chars(&mut m, &chars_of(" implies `r-version: "));
            extend_chars(&mut m, &chars_of(req.as_str()));
            extend_chars(&mut m, &chars_of("` because R "));
            extend_chars(&mut m, &chars_of(req.as_str()));
            extend_chars(
                &mut m,
                &chars_of(
                    " was the latest R minor version available on that date, but no matching R is installed. Run `rig install ",
                ),
            );
            extend_chars(&mut m, &chars_of(req.as_str()));
            extend_chars(
                &mut m,
                &chars_of(
                    "`, set `IR_RSCRIPT`, pass `--rscript`, or specify `r-version` or `--r-version`.",
                ),
            );
            Err(string_of(&m))
        },
    }
}

} // verus!
