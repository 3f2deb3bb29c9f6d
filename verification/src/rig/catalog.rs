//! The catalog of R releases used to resolve requirements: the releases
//! known when this build was made, or a list that rig reported.
use vstd::prelude::*;

use crate::rig::model::{
    candidate_of, latest_available_release_date, normalize_available_release_dates,
    opt_view, parse_iso_date_field, latest_stable_date, date_field_error, iso_date, iso_prefix,
    release_date_error, date_normalized, is_latest_date, lemma_latest_date_unique, str_order, order_chars, stable_date, AvailableCandidate,
    AvailableR,
};
use crate::text::{chars_of, trim};

verus! {

/// The date through which the embedded release list is complete.
pub const EMBEDDED_AVAILABLE_BUILD_DATE: &'static str = "2026-06-03";

/// How long a list that rig reported counts as current: one day.
pub const RIG_AVAILABLE_MAX_AGE_SECONDS: u64 = 86400;

/// The embedded releases: name, version and release date of each.
pub open spec fn embedded_table() -> Seq<(Seq<char>, Seq<char>)> {
    seq![
        ("3.6.0"@, "2019-04-26"@),
        ("3.6.1"@, "2019-07-05"@),
        ("3.6.2"@, "2019-12-12"@),
        ("3.6.3"@, "2020-02-29"@),
        ("4.0.0"@, "2020-04-24"@),
        ("4.0.1"@, "2020-06-06"@),
        ("4.0.2"@, "2020-06-22"@),
        ("4.0.3"@, "2020-10-10"@),
        ("4.0.4"@, "2021-02-15"@),
        ("4.0.5"@, "2021-03-31"@),
        ("4.1.0"@, "2021-05-18"@),
        ("4.1.1"@, "2021-08-10"@),
        ("4.1.2"@, "2021-11-01"@),
        ("4.1.3"@, "2022-03-10"@),
        ("4.2.0"@, "2022-04-22"@),
        ("4.2.1"@, "2022-06-23"@),
        ("4.2.2"@, "2022-10-31"@),
        ("4.2.3"@, "2023-03-15"@),
        ("4.3.0"@, "2023-04-21"@),
        ("4.3.1"@, "2023-06-16"@),
        ("4.3.2"@, "2023-10-31"@),
        ("4.3.3"@, "2024-02-29"@),
        ("4.4.0"@, "2024-04-24"@),
        ("4.4.1"@, "2024-06-14"@),
        ("4.4.2"@, "2024-10-31"@),
        ("4.4.3"@, "2025-02-28"@),
        ("4.5.0"@, "2025-04-11"@),
        ("4.5.1"@, "2025-06-13"@),
        ("4.5.2"@, "2025-10-31"@),
        ("4.5.3"@, "2026-03-11"@),
        ("4.6.0"@, "2026-04-24"@),
    ]
}

/// A list of R releases.
pub struct ReleaseCatalog {
    pub versions: Vec<AvailableR>,
}

fn release(version: &str, date: &str) -> (r: AvailableR)
    ensures
        r.name@ == version@,
        r.version@ == version@,
        opt_view(r.date) == Some(date@),
{
    AvailableR {
        name: String::from_str(version),
        version: String::from_str(version),
        date: Some(String::from_str(date)),
    }
}

/// Whether `c` holds the embedded releases, in order: each release named
/// by its version, with its date.
pub open spec fn is_embedded(c: ReleaseCatalog) -> bool {
    &&& c.versions@.len() == embedded_table().len()
    &&& forall|i: int|
        0 <= i < c.versions@.len() ==> {
            &&& (#[trigger] c.versions@[i]).name@ == embedded_table()[i].0
            &&& c.versions@[i].version@ == embedded_table()[i].0
            &&& opt_view(c.versions@[i].date) == Some(embedded_table()[i].1)
        }
}

impl ReleaseCatalog {
    /// The releases known when this build was made; each is named by its
    /// version number.
    pub fn embedded() -> (r: ReleaseCatalog)
        ensures
            is_embedded(r),
    {
        let mut v: Vec<AvailableR> = Vec::new();
        v.push(release("3.6.0", "2019-04-26"));
        v.push(release("3.6.1", "2019-07-05"));
        v.push(release("3.6.2", "2019-12-12"));
        v.push(release("3.6.3", "2020-02-29"));
        v.push(release("4.0.0", "2020-04-24"));
        v.push(release("4.0.1", "2020-06-06"));
        v.push(release("4.0.2", "2020-06-22"));
        v.push(release("4.0.3", "2020-10-10"));
        v.push(release("4.0.4", "2021-02-15"));
        v.push(release("4.0.5", "2021-03-31"));
        v.push(release("4.1.0", "2021-05-18"));
        v.push(release("4.1.1", "2021-08-10"));
        v.push(release("4.1.2", "2021-11-01"));
        v.push(release("4.1.3", "2022-03-10"));
        v.push(release("4.2.0", "2022-04-22"));
        v.push(release("4.2.1", "2022-06-23"));
        v.push(release("4.2.2", "2022-10-31"));
        v.push(release("4.2.3", "2023-03-15"));
        v.push(release("4.3.0", "2023-04-21"));
        v.push(release("4.3.1", "2023-06-16"));
        v.push(release("4.3.2", "2023-10-31"));
        v.push(release("4.3.3", "2024-02-29"));
        v.push(release("4.4.0", "2024-04-24"));
        v.push(release("4.4.1", "2024-06-14"));
        v.push(release("4.4.2", "2024-10-31"));
        v.push(release("4.4.3", "2025-02-28"));
        v.push(release("4.5.0", "2025-04-11"));
        v.push(release("4.5.1", "2025-06-13"));
        v.push(release("4.5.2", "2025-10-31"));
        v.push(release("4.5.3", "2026-03-11"));
        v.push(release("4.6.0", "2026-04-24"));
        ReleaseCatalog { versions: v }
    }

    /// A catalog of the given releases.
    pub fn from_versions(versions: Vec<AvailableR>) -> (r: ReleaseCatalog)
        ensures
            r.versions == versions,
    {
        ReleaseCatalog { versions }
    }

    /// One candidate per release, in the catalog's order.
    pub fn candidates(&self) -> (r: Vec<AvailableCandidate>)
        ensures
            r@ == self.versions@.map_values(|v: AvailableR| candidate_of(v)),
    {
        let mut r: Vec<AvailableCandidate> = Vec::new();
        let mut i: usize = 0;
        while i < self.versions.len()
            invariant
                i <= self.versions@.len(),
                r@ == self.versions@.take(i as int).map_values(|v: AvailableR| candidate_of(v)),
            decreases self.versions@.len() - i,
        {
            r.push(AvailableCandidate::from(&self.versions[i]));
            assert(self.versions@.take(i + 1) =~= self.versions@.take(i as int).push(
                self.versions@[i as int],
            ));
            assert(r@ =~= self.versions@.take(i + 1).map_values(|v: AvailableR| candidate_of(v)));
            i += 1;
        }
        assert(self.versions@.take(self.versions@.len() as int) =~= self.versions@);
        r
    }
}

/// The embedded catalog when the cutoff is no later than the date it is
/// complete through; otherwise `None`, and the catalog must come from rig
/// (or its cached answer).
pub fn for_exclude_newer(exclude_newer: &str) -> (r: Option<ReleaseCatalog>)
    ensures
        r is Some <==> str_order(exclude_newer@, EMBEDDED_AVAILABLE_BUILD_DATE@) <= 0,
        r matches Some(c) ==> is_embedded(c),
{
    if order_chars(&chars_of(exclude_newer), &chars_of(EMBEDDED_AVAILABLE_BUILD_DATE)) <= 0 {
        Some(ReleaseCatalog::embedded())
    } else {
        None
    }
}

/// Whether a list checked at `checked_at` is at most a day old at `now`
/// (never, when it claims to be from the future).
pub fn checked_recently(checked_at: u64, now: u64) -> (r: bool)
    ensures
        r == (checked_at <= now && now - checked_at <= RIG_AVAILABLE_MAX_AGE_SECONDS),
{
    if checked_at > now {
        return false;
    }
    now - checked_at <= RIG_AVAILABLE_MAX_AGE_SECONDS
}

/// The cached answer of `rig available`, as stored.
pub struct AvailableRCache {
    pub known_through: String,
    pub checked_at: u64,
    pub versions: Vec<AvailableR>,
}

/// The date a list is complete through: its latest concrete release date,
/// or the embedded list's date when it has none.
pub open spec fn known_through_of(latest: Option<Seq<char>>) -> Seq<char> {
    match latest {
        Some(d) => d,
        None => EMBEDDED_AVAILABLE_BUILD_DATE@,
    }
}

impl AvailableRCache {
    /// The record to store for a list that rig reported at `checked_at`.
    pub fn new(versions: Vec<AvailableR>, checked_at: u64) -> (r: AvailableRCache)
        ensures
            r.versions == versions,
            r.checked_at == checked_at,
            r.known_through@ == known_through_of(latest_stable_date(versions@)),
    {
        let known_through = match latest_available_release_date(versions.as_slice()) {
            Some(d) => d,
            None => String::from_str(EMBEDDED_AVAILABLE_BUILD_DATE),
        };
        AvailableRCache { known_through, checked_at, versions }
    }
}


/// The earlier of two dates (the first when they are equal), as `str::min`.
pub open spec fn min_text(a: Seq<char>, b: Seq<char>) -> Seq<char> {
    if str_order(b, a) < 0 {
        b
    } else {
        a
    }
}

pub open spec fn has_bad_date(v: Seq<AvailableR>) -> bool {
    exists|i: int| 0 <= i < v.len() && v[i].date is Some && iso_prefix(v[i].date.unwrap()@) is None
}

/// The catalog that a cached `rig available` answer gives for the cutoff
/// `exclude_newer` at time `now`: its dates cut to `YYYY-MM-DD`; `None` when
/// the list is complete only through a date before the cutoff and was checked
/// more than a day ago (rig must then be asked again). A stored date that is
/// not `YYYY-MM-DD`, or a release date that does not begin with one, is an
/// error.
pub fn read_cached_rig_available(cache: AvailableRCache, exclude_newer: &str, now: u64) -> (r:
    Result<Option<ReleaseCatalog>, String>)
    ensures
        !iso_date(trim(cache.known_through@)) ==> r is Err && r->Err_0@ == date_field_error(
            "rig available cache known_through"@,
        ),
        iso_date(trim(cache.known_through@)) && has_bad_date(cache.versions@) ==> r is Err
            && exists|k: int|
            0 <= k < cache.versions@.len() && cache.versions@[k].date is Some && iso_prefix(
                cache.versions@[k].date.unwrap()@,
            ) is None && r->Err_0@ == release_date_error(
                cache.versions@[k].date.unwrap()@,
                cache.versions@[k].version@,
            ) && forall|j: int|
                0 <= j < k ==> !(cache.versions@[j].date is Some && iso_prefix(
                    #[trigger] cache.versions@[j].date.unwrap()@,
                ) is None),
        iso_date(trim(cache.known_through@)) && !has_bad_date(cache.versions@) ==> r is Ok,
        r matches Ok(o) ==> {
            &&& o matches Some(c) ==> {
                &&& c.versions@.len() == cache.versions@.len()
                &&& forall|i: int|
                    0 <= i < c.versions@.len() ==> date_normalized(
                        #[trigger] cache.versions@[i],
                        c.versions@[i],
                    )
            }
            &&& forall|normalized: Seq<AvailableR>|
                #![trigger latest_stable_date(normalized)]
                normalized.len() == cache.versions@.len() && (forall|i: int|
                    0 <= i < normalized.len() ==> date_normalized(
                        #[trigger] cache.versions@[i],
                        normalized[i],
                    )) ==> (o is Some <==> !(str_order(
                    min_text(
                        trim(cache.known_through@),
                        known_through_of(latest_stable_date(normalized)),
                    ),
                    exclude_newer@,
                ) < 0 && !(cache.checked_at <= now && now - cache.checked_at
                    <= RIG_AVAILABLE_MAX_AGE_SECONDS)))
        },
{
    let AvailableRCache { known_through, checked_at, versions } = cache;
    let ghost orig = versions@;
    let stored = parse_iso_date_field("rig available cache known_through", known_through.as_str())?;
    let mut versions = versions;
    match normalize_available_release_dates(&mut versions) {
        Ok(()) => {},
        Err(e) => {
            return Err(e);
        },
    }
    let release_known = match latest_available_release_date(versions.as_slice()) {
        Some(d) => d,
        None => String::from_str(EMBEDDED_AVAILABLE_BUILD_DATE),
    };
    let sv = chars_of(stored.as_str());
    let rv = chars_of(release_known.as_str());
    let known = if order_chars(&rv, &sv) < 0 {
        rv
    } else {
        sv
    };
    let stale = order_chars(&known, &chars_of(exclude_newer)) < 0 && !checked_recently(
        checked_at,
        now,
    );
    proof {
        assert forall|normalized: Seq<AvailableR>|
            #![trigger latest_stable_date(normalized)]
            normalized.len() == orig.len() && (forall|i: int|
                0 <= i < normalized.len() ==> date_normalized(#[trigger] orig[i], normalized[i]))
                implies latest_stable_date(normalized) == latest_stable_date(versions@) by {
            assert forall|i: int| 0 <= i < normalized.len() implies stable_date(normalized, i)
                == stable_date(versions@, i) by {
                assert(date_normalized(orig[i], normalized[i]));
                assert(date_normalized(orig[i], versions@[i]));
            }
            lemma_same_stable_dates(normalized, versions@, latest_stable_date(versions@));
        }
    }
    if stale {
        Ok(None)
    } else {
        Ok(Some(ReleaseCatalog::from_versions(versions)))
    }
}

/// Lists with the same concrete release dates have the same latest date.
proof fn lemma_same_stable_dates(a: Seq<AvailableR>, b: Seq<AvailableR>, latest: Option<Seq<char>>)
    requires
        a.len() == b.len(),
        forall|i: int| 0 <= i < a.len() ==> stable_date(a, i) == stable_date(b, i),
        match latest {
            Some(d) => is_latest_date(b, d),
            None => forall|i: int| 0 <= i < b.len() ==> stable_date(b, i) is None,
        },
    ensures
        latest_stable_date(a) == latest,
{
    match latest {
        Some(d) => {
            let i = choose|i: int| 0 <= i < b.len() && stable_date(b, i) == Some(d);
            assert(stable_date(a, i) == Some(d));
            assert(is_latest_date(a, d));
            lemma_latest_date_unique(a, d);
        },
        None => {
            assert(forall|i: int| 0 <= i < a.len() ==> !(stable_date(a, i) is Some));
        },
    }
}

} // verus!
