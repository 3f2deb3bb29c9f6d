//! R release metadata as rig's `available --json` reports it.
use vstd::prelude::*;

use crate::rig::model::{iso_prefix, iso_prefix_chars, opt_view};
use crate::text::{
    all_digits, char_is_digit, chars_eq, chars_of, extend_chars, split_chars, split_on,
    string_of,
};

verus! {

/// A release with a release version and a `YYYY-MM-DD` date.
pub struct ReleaseMetadata {
    pub name: String,
    pub version: String,
    pub date: String,
}

/// One record of the metadata, as read from JSON.
pub struct RVersionRelease {
    pub name: Option<String>,
    pub version: String,
    pub semver: Option<String>,
    pub date: Option<String>,
}

/// `MAJOR.MINOR.PATCH`: exactly three dot-separated pieces of digits.
pub open spec fn is_release_version(s: Seq<char>) -> bool {
    let p = split_on(s, '.');
    p.len() == 3 && forall|i: int| 0 <= i < 3 ==> p[i].len() > 0 && all_digits(#[trigger] p[i])
}

fn digits_only(s: &[char]) -> (r: bool)
    ensures
        r == (s@.len() > 0 && all_digits(s@)),
{
    if s.len() == 0 {
        return false;
    }
    let mut i: usize = 0;
    while i < s.len()
        invariant
            i <= s@.len(),
            all_digits(s@.take(i as int)),
        decreases s@.len() - i,
    {
        if !char_is_digit(s[i]) {
            assert(!crate::text::is_digit(s@[i as int]));
            return false;
        }
        assert(s@.take(i + 1) =~= s@.take(i as int).push(s@[i as int]));
        i += 1;
    }
    assert(s@.take(s@.len() as int) =~= s@);
    true
}

fn release_version_chars(v: &[char]) -> (r: bool)
    ensures
        r == is_release_version(v@),
{
    let p = split_chars(v, '.');
    if p.len() != 3 {
        return false;
    }
    let a = digits_only(&p[0]);
    let b = digits_only(&p[1]);
    let c = digits_only(&p[2]);
    assert(p@[0]@ == split_on(v@, '.')[0]);
    assert(p@[1]@ == split_on(v@, '.')[1]);
    assert(p@[2]@ == split_on(v@, '.')[2]);
    a && b && c
}

/// `semver` itself when it is a `MAJOR.MINOR.PATCH` version.
pub fn release_version(semver: &str) -> (r: Option<String>)
    ensures
        r is Some <==> is_release_version(semver@),
        r matches Some(v) ==> v@ == semver@,
{
    if release_version_chars(&chars_of(semver)) {
        Some(String::from_str(semver))
    } else {
        None
    }
}

pub open spec fn metadata_date_error(date: Seq<char>, version: Seq<char>) -> Seq<char> {
    "R version availability metadata returned invalid release date `"@ + date + "` for R "@
        + version
}

pub open spec fn metadata_empty_error(source: Seq<char>) -> Seq<char> {
    "R version availability metadata in "@ + source + " did not contain any R releases"@
}

/// The name a record goes by: its name, or its version when it has none.
pub open spec fn record_name(r: RVersionRelease) -> Seq<char> {
    match r.name {
        Some(n) => n@,
        None => r.version@,
    }
}

/// The version a record reports: its semantic version, or its version.
pub open spec fn record_version(r: RVersionRelease) -> Seq<char> {
    match r.semver {
        Some(s) => s@,
        None => r.version@,
    }
}

/// Whether a record describes a release: not `devel` or `next`, with a
/// release version and a date.
pub open spec fn record_kept(r: RVersionRelease) -> bool {
    record_name(r) != "devel"@ && record_name(r) != "next"@ && is_release_version(
        record_version(r),
    ) && r.date is Some
}

/// The releases that the first `n` records describe, in order, each as
/// (name, version, date); or the error for the first kept record whose date
/// does not begin with `YYYY-MM-DD`.
pub open spec fn metadata_of(recs: Seq<RVersionRelease>, n: int) -> Result<
    Seq<(Seq<char>, Seq<char>, Seq<char>)>,
    Seq<char>,
>
    decreases n,
{
    if n <= 0 {
        Ok(Seq::empty())
    } else {
        match metadata_of(recs, n - 1) {
            Err(e) => Err(e),
            Ok(done) => {
                let r = recs[n - 1];
                if !record_kept(r) {
                    Ok(done)
                } else {
                    match iso_prefix(r.date.unwrap()@) {
                        None => Err(metadata_date_error(r.date.unwrap()@, record_version(r))),
                        Some(d) => Ok(done.push((record_name(r), record_version(r), d))),
                    }
                }
            },
        }
    }
}

pub open spec fn metadata_view(v: Seq<ReleaseMetadata>) -> Seq<(Seq<char>, Seq<char>, Seq<char>)> {
    v.map_values(|m: ReleaseMetadata| (m.name@, m.version@, m.date@))
}

fn is_named(s: &[char], lit: &str) -> (r: bool)
    ensures
        r == (s@ == lit@),
{
    chars_eq(s, &chars_of(lit))
}

/// The releases the records describe, in order; an error for a malformed
/// date, or when no record describes a release (naming `source`).
pub fn release_metadata_from_records(records: &[RVersionRelease], source: &str) -> (r: Result<
    Vec<ReleaseMetadata>,
    String,
>)
    ensures
        match metadata_of(records@, records@.len() as int) {
            Err(e) => r is Err && r->Err_0@ == e,
            Ok(v) => if v.len() == 0 {
                r is Err && r->Err_0@ == metadata_empty_error(source@)
            } else {
                r is Ok && metadata_view(r->Ok_0@) == v
            },
        },
{
    let mut out: Vec<ReleaseMetadata> = Vec::new();
    let mut i: usize = 0;
    assert(metadata_view(out@) =~= Seq::empty());
    while i < records.len()
        invariant
            i <= records@.len(),
            metadata_of(records@, i as int) == Ok::<
                Seq<(Seq<char>, Seq<char>, Seq<char>)>,
                Seq<char>,
            >(metadata_view(out@)),
        decreases records@.len() - i,
    {
        let rec = &records[i];
        let name = match &rec.name {
            Some(n) => chars_of(n.as_str()),
            None => chars_of(rec.version.as_str()),
        };
        let raw = match &rec.semver {
            Some(s) => chars_of(s.as_str()),
            None => chars_of(rec.version.as_str()),
        };
        let skip = is_named(&name, "devel") || is_named(&name, "next")
            || !release_version_chars(&raw);
        assert(name@ == record_name(records@[i as int]));
        assert(raw@ == record_version(records@[i as int]));
        assert(skip ==> !record_kept(records@[i as int]));
        if !skip {
            match &rec.date {
                None => {},
                Some(date) => {
                    let dv = chars_of(date.as_str());
                    match iso_prefix_chars(&dv) {
                        None => {
                            let mut m = chars_of(
                                "R version availability metadata returned invalid release date `",
                            );
                            extend_chars(&mut m, &dv);
                            extend_chars(&mut m, &chars_of("` for R "));
                            extend_chars(&mut m, &raw);
                            proof {
                                lemma_metadata_err_stays(records@, i + 1, records@.len() as int);
                            }
                            return Err(string_of(&m));
                        },
                        Some(d) => {
                            let ghost prev = out@;
                            out.push(
                                ReleaseMetadata {
                                    name: string_of(&name),
                                    version: string_of(&raw),
                                    date: string_of(&d),
                                },
                            );
                            assert(metadata_view(out@) =~= metadata_view(prev).push(
                                (name@, raw@, d@),
                            ));
                            assert(record_kept(records@[i as int]));
                            assert(iso_prefix(records@[i as int].date.unwrap()@) == Some(d@));
                            assert(metadata_of(records@, i + 1) == Ok::<
                                Seq<(Seq<char>, Seq<char>, Seq<char>)>,
                                Seq<char>,
                            >(metadata_view(out@)));
                        },
                    }
                },
            }
        }
        i += 1;
    }
    if out.len() == 0 {
        let mut m = chars_of("R version availability metadata in ");
        extend_chars(&mut m, &chars_of(source));
        extend_chars(&mut m, &chars_of(" did not contain any R releases"));
        return Err(string_of(&m));
    }
    Ok(out)
}

/// Once an error is found, later records do not change it.
proof fn lemma_metadata_err_stays(recs: Seq<RVersionRelease>, n: int, m: int)
    requires
        0 < n <= m,
        metadata_of(recs, n) is Err,
    ensures
        metadata_of(recs, m) == metadata_of(recs, n),
    decreases m - n,
{
    if m > n {
        lemma_metadata_err_stays(recs, n, m - 1);
    }
}

} // verus!
