//! Warm resolution markers: whether a dependency list can be cached, the
//! key a resolved library is filed under, and whether a marker is current.
use vstd::prelude::*;

use crate::cli::{r_package_name, r_package_name_chars};
use crate::digest::{length_prefixed, sha256_hex, sha256_hex_of, sha256_length_prefixed};
use crate::rig::r_selection::opt_str_view;
use crate::text::{
    all_white, append_str, char_index, chars_of, decimal, decimal_text, eq_lit, find_char,
    int_parse_failure_message, int_parse_failure_text, is_digit, lemma_char_index, lit, lower,
    lowered, parse_u64_outcome, parse_u64_text, slice_vec, sort_texts, sorted_texts,
    starts_with, string_of, strip_lit, trim, trimmed, views, IntParseFailure,
};

verus! {

/// How long a marker written without a snapshot date stays current.
pub const DEFAULT_LATEST_MAX_AGE_SECONDS: u64 = 86400;

/// Which Quarto needs the resolution serves.
#[derive(Clone, Copy)]
pub struct QuartoCacheFlags {
    pub render: bool,
    pub reticulate: bool,
}

pub open spec fn is_version_sep(c: char) -> bool {
    c == '.' || c == '-'
}

/// Two or more runs of ASCII digits joined by single `.` or `-`.
pub open spec fn numeric_version(w: Seq<char>) -> bool {
    &&& w.len() > 0
    &&& !is_version_sep(w[0])
    &&& !is_version_sep(w.last())
    &&& forall|i: int| 0 <= i < w.len() ==> is_digit(#[trigger] w[i]) || is_version_sep(w[i])
    &&& forall|i: int|
        0 <= i < w.len() - 1 ==> !(is_version_sep(#[trigger] w[i]) && is_version_sep(w[i + 1]))
    &&& exists|i: int| 0 <= i < w.len() && is_version_sep(#[trigger] w[i])
}

/// A version without a leading `>=`.
pub open spec fn without_at_least(v: Seq<char>) -> Seq<char> {
    if starts_with(v, ">="@) {
        v.skip(">="@.len() as int)
    } else {
        v
    }
}

/// A version pin that the resolver treats as a standard release:
/// `current`, `last`, or a numeric version, each optionally after `>=`.
pub open spec fn standard_version(v: Seq<char>) -> bool {
    let w = without_at_least(v);
    w == "current"@ || w == "last"@ || numeric_version(w)
}

/// A dependency that names a CRAN-style package, optionally pinned
/// (`pkg`, `pkg@1.2.3`, `pkg@>=1.2`).
pub open spec fn standard_ref(dep: Seq<char>) -> bool {
    let d = trim(dep);
    let k = char_index(d, '@');
    if k == d.len() {
        r_package_name(d)
    } else {
        r_package_name(d.take(k as int)) && standard_version(d.skip(k as int + 1))
    }
}

fn numeric_version_chars(w: &[char]) -> (r: bool)
    ensures
        r == numeric_version(w@),
{
    if w.len() == 0 {
        return false;
    }
    let mut any_sep = false;
    let mut i: usize = 0;
    while i < w.len()
        invariant
            0 < w@.len(),
            i <= w@.len(),
            forall|k: int| 0 <= k < i ==> is_digit(#[trigger] w@[k]) || is_version_sep(w@[k]),
            forall|k: int|
                0 <= k < i - 1 ==> !(is_version_sep(#[trigger] w@[k]) && is_version_sep(
                    w@[k + 1],
                )),
            i > 0 ==> !is_version_sep(w@[0]),
            any_sep <==> exists|k: int| 0 <= k < i && is_version_sep(#[trigger] w@[k]),
        decreases w@.len() - i,
    {
        let c = w[i];
        let sep = c == '.' || c == '-';
        if !(('0' <= c && c <= '9') || sep) {
            assert(!(is_digit(w@[i as int]) || is_version_sep(w@[i as int])));
            return false;
        }
        if sep {
            if i == 0 {
                return false;
            }
            let p = w[i - 1];
            if p == '.' || p == '-' {
                assert(is_version_sep(w@[i - 1]) && is_version_sep(w@[(i - 1) + 1]));
                return false;
            }
            assert(is_version_sep(w@[i as int]));
            any_sep = true;
        }
        i += 1;
    }
    let last = w[w.len() - 1];
    if last == '.' || last == '-' {
        return false;
    }
    any_sep
}

/// Whether `version` is a standard release pin.
pub fn is_standard_version(version: &str) -> (r: bool)
    ensures
        r == standard_version(version@),
{
    let v = chars_of(version);
    let w = match strip_lit(v.as_slice(), ">=") {
        Some(rest) => rest,
        None => v,
    };
    if eq_lit(w.as_slice(), "current") || eq_lit(w.as_slice(), "last") {
        return true;
    }
    numeric_version_chars(w.as_slice())
}

fn standard_version_chars(v: &[char]) -> (r: bool)
    ensures
        r == standard_version(v@),
{
    let s = string_of(v);
    is_standard_version(s.as_str())
}

/// Whether `name` is an R package name: a letter, then letters, digits and
/// dots, not ending in a dot.
pub fn is_package_name(name: &str) -> (r: bool)
    ensures
        r == r_package_name(name@),
{
    let c = chars_of(name);
    r_package_name_chars(c.as_slice())
}

/// Whether `dependency` is a package reference whose resolution can be
/// cached.
pub fn is_standard_ref(dependency: &str) -> (r: bool)
    ensures
        r == standard_ref(dependency@),
{
    let d = trimmed(chars_of(dependency).as_slice());
    let k = find_char(d.as_slice(), '@');
    proof {
        lemma_char_index(d@, '@');
    }
    if k == d.len() {
        return r_package_name_chars(d.as_slice());
    }
    let package = slice_vec(d.as_slice(), 0, k);
    let version = slice_vec(d.as_slice(), k + 1, d.len());
    assert(package@ =~= d@.take(k as int));
    assert(version@ =~= d@.skip(k as int + 1));
    r_package_name_chars(package.as_slice()) && standard_version_chars(version.as_slice())
}

/// Whether every dependency can be cached.
pub fn all_standard_refs(dependencies: &[String]) -> (r: bool)
    ensures
        r == forall|i: int| 0 <= i < dependencies@.len() ==> standard_ref(#[trigger] dependencies@[i]@),
{
    let mut i: usize = 0;
    while i < dependencies.len()
        invariant
            i <= dependencies@.len(),
            forall|k: int| 0 <= k < i ==> standard_ref(#[trigger] dependencies@[k]@),
        decreases dependencies@.len() - i,
    {
        if !is_standard_ref(dependencies[i].as_str()) {
            return false;
        }
        i += 1;
    }
    true
}

/// What the source line of a marker says about the packages it used.
pub open spec fn source_key(exclude_newer: Option<Seq<char>>) -> Seq<char> {
    match exclude_newer {
        Some(date) => "exclude-newer: "@ + date,
        None => "latest"@,
    }
}

/// `"rscript-arg: "` before each argument.
pub open spec fn rscript_arg_fields(args: Seq<Seq<char>>) -> Seq<Seq<char>> {
    args.map_values(|a: Seq<char>| "rscript-arg: "@ + a)
}

/// The fields a resolution is keyed by: the dependencies in sorted order,
/// the package source, the Quarto needs, the Rscript identity and its
/// arguments, and the library root where there is one.
pub open spec fn resolution_fields(
    dependencies: Seq<Seq<char>>,
    exclude_newer: Option<Seq<char>>,
    quarto: QuartoCacheFlags,
    rscript_identity: Seq<char>,
    rscript_args: Seq<Seq<char>>,
    library_root: Option<Seq<char>>,
) -> Seq<Seq<char>> {
    sorted_texts(dependencies) + seq![source_key(exclude_newer)] + (if quarto.render {
        seq!["quarto"@]
    } else {
        Seq::empty()
    }) + (if quarto.reticulate {
        seq!["quarto-reticulate"@]
    } else {
        Seq::empty()
    }) + seq!["rscript: "@ + rscript_identity] + rscript_arg_fields(rscript_args) + (
    match library_root {
        Some(root) => seq!["library-root: "@ + root],
        None => Seq::empty(),
    })
}

/// The key a resolution is filed under: the hex SHA-256 of its fields.
pub open spec fn resolution_key(
    dependencies: Seq<Seq<char>>,
    exclude_newer: Option<Seq<char>>,
    quarto: QuartoCacheFlags,
    rscript_identity: Seq<char>,
    rscript_args: Seq<Seq<char>>,
    library_root: Option<Seq<char>>,
) -> Seq<char> {
    sha256_hex_of(
        length_prefixed(
            resolution_fields(
                dependencies,
                exclude_newer,
                quarto,
                rscript_identity,
                rscript_args,
                library_root,
            ),
        ),
    )
}

/// `prefix` followed by `s`.
pub fn prefixed(prefix: &str, s: &str) -> (r: String)
    ensures
        r@ == prefix@ + s@,
{
    let mut v: Vec<char> = Vec::new();
    append_str(&mut v, prefix);
    append_str(&mut v, s);
    string_of(v.as_slice())
}

fn push_text(parts: &mut Vec<String>, s: String)
    ensures
        views(final(parts)@) == views(old(parts)@).push(s@),
{
    let ghost before = parts@;
    parts.push(s);
    assert(views(parts@) =~= views(before).push(s@));
}

/// The key a resolution with these inputs is filed under.
pub fn resolution_cache_key(
    dependencies: &[String],
    exclude_newer: Option<&str>,
    quarto: QuartoCacheFlags,
    rscript_identity: &str,
    rscript_args: &[String],
    library_root: Option<&str>,
) -> (r: String)
    ensures
        r@ == resolution_key(
            views(dependencies@),
            opt_str_view(exclude_newer),
            quarto,
            rscript_identity@,
            views(rscript_args@),
            opt_str_view(library_root),
        ),
        r@.len() == 64,
{
    let mut parts = sort_texts(dependencies);
    let ghost f0 = views(parts@);
    let key = match exclude_newer {
        Some(date) => prefixed("exclude-newer: ", date),
        None => lit("latest"),
    };
    push_text(&mut parts, key);
    let ghost f1 = views(parts@);
    if quarto.render {
        push_text(&mut parts, lit("quarto"));
    }
    let ghost f2 = views(parts@);
    if quarto.reticulate {
        push_text(&mut parts, lit("quarto-reticulate"));
    }
    let ghost f3 = views(parts@);
    push_text(&mut parts, prefixed("rscript: ", rscript_identity));
    let ghost f4 = views(parts@);
    let mut i: usize = 0;
    while i < rscript_args.len()
        invariant
            i <= rscript_args@.len(),
            views(parts@) == f4 + rscript_arg_fields(views(rscript_args@.take(i as int))),
        decreases rscript_args@.len() - i,
    {
        push_text(&mut parts, prefixed("rscript-arg: ", rscript_args[i].as_str()));
        assert(rscript_arg_fields(views(rscript_args@.take(i + 1))) =~= rscript_arg_fields(
            views(rscript_args@.take(i as int)),
        ).push("rscript-arg: "@ + rscript_args@[i as int]@));
        i += 1;
    }
    assert(rscript_args@.take(rscript_args@.len() as int) =~= rscript_args@);
    let ghost f5 = views(parts@);
    if let Some(root) = library_root {
        push_text(&mut parts, prefixed("library-root: ", root));
    }
    assert(views(parts@) =~= resolution_fields(
        views(dependencies@),
        opt_str_view(exclude_newer),
        quarto,
        rscript_identity@,
        views(rscript_args@),
        opt_str_view(library_root),
    ));
    sha256_length_prefixed(parts.as_slice())
}

/// The first line of a marker: what the resolution was made from.
pub open spec fn cache_source_text(exclude_newer: Option<Seq<char>>, now: nat) -> Seq<char> {
    match exclude_newer {
        Some(date) => "exclude-newer: "@ + date,
        None => "latest: "@ + decimal(now),
    }
}

/// The source line for a marker written at `now` (seconds since the epoch).
pub fn resolution_cache_source(exclude_newer: Option<&str>, now: u64) -> (r: String)
    ensures
        r@ == cache_source_text(opt_str_view(exclude_newer), now as nat),
{
    match exclude_newer {
        Some(date) => prefixed("exclude-newer: ", date),
        None => {
            let mut v: Vec<char> = Vec::new();
            append_str(&mut v, "latest: ");
            let d = decimal_text(now as u128);
            let ghost before = v@;
            crate::text::extend_chars(&mut v, d.as_slice());
            string_of(v.as_slice())
        },
    }
}

/// Whether a marker whose source line is `source` may be used now: a dated
/// marker must name the same date; a latest marker must be at most
/// `max_age` seconds old and not from the future.
pub open spec fn source_current(
    source: Seq<char>,
    expected: Seq<char>,
    latest_max_age_seconds: Option<u64>,
    now: nat,
) -> bool {
    match latest_max_age_seconds {
        None => source == expected,
        Some(max_age) => starts_with(source, "latest: "@) && match parse_u64_outcome(
            source.skip("latest: "@.len() as int),
        ) {
            Ok(created_at) => created_at <= now && now - created_at <= max_age,
            Err(_) => false,
        },
    }
}

/// Whether the marker source line `source` is still current.
pub fn source_is_current(
    source: &str,
    expected: &str,
    latest_max_age_seconds: Option<u64>,
    now: u64,
) -> (r: bool)
    ensures
        r == source_current(source@, expected@, latest_max_age_seconds, now as nat),
{
    let s = chars_of(source);
    match latest_max_age_seconds {
        None => {
            let e = chars_of(expected);
            crate::text::chars_eq(s.as_slice(), e.as_slice())
        },
        Some(max_age) => {
            let rest = match strip_lit(s.as_slice(), "latest: ") {
                Some(rest) => rest,
                None => {
                    return false;
                },
            };
            match parse_u64_text(rest.as_slice()) {
                Ok(created_at) => {
                    if created_at > now {
                        return false;
                    }
                    now - created_at <= max_age
                },
                Err(_) => false,
            }
        },
    }
}

/// The environment variable that sets how long latest markers last.
pub const LATEST_MAX_AGE_SECONDS_ENV: &'static str = "IR_LATEST_RESOLUTION_MAX_AGE_SECONDS";

/// The maximum age of latest markers, from the setting `value` of
/// `IR_LATEST_RESOLUTION_MAX_AGE_SECONDS` (absent or empty: one day).
pub open spec fn max_age_outcome(value: Option<Seq<char>>) -> Result<nat, Seq<char>> {
    match value {
        None => Ok(DEFAULT_LATEST_MAX_AGE_SECONDS as nat),
        Some(v) => if v.len() == 0 {
            Ok(DEFAULT_LATEST_MAX_AGE_SECONDS as nat)
        } else {
            match parse_u64_outcome(v) {
                Ok(n) => Ok(n),
                Err(e) => Err(
                    "IR_LATEST_RESOLUTION_MAX_AGE_SECONDS must be an integer: "@
                        + int_parse_failure_text(e),
                ),
            }
        },
    }
}

/// The maximum age of latest markers given the setting `value`.
pub fn latest_max_age_seconds(value: Option<&str>) -> (r: Result<u64, String>)
    ensures
        match max_age_outcome(opt_str_view(value)) {
            Ok(n) => r matches Ok(m) && m == n,
            Err(e) => r matches Err(m) && m@ == e,
        },
{
    match value {
        None => Ok(DEFAULT_LATEST_MAX_AGE_SECONDS),
        Some(v) => {
            let c = chars_of(v);
            if c.len() == 0 {
                return Ok(DEFAULT_LATEST_MAX_AGE_SECONDS);
            }
            match parse_u64_text(c.as_slice()) {
                Ok(n) => Ok(n),
                Err(e) => Err(
                    prefixed(
                        "IR_LATEST_RESOLUTION_MAX_AGE_SECONDS must be an integer: ",
                        int_parse_failure_message(e),
                    ),
                ),
            }
        },
    }
}

/// Where a resolution's markers go and what makes them current: the marker
/// and primary-package marker file names (under `resolutions/` of the
/// cache directory), the source line, and the age limit of latest markers.
pub struct CachePaths {
    pub marker_name: String,
    pub package_marker_name: Option<String>,
    pub source: String,
    pub latest_max_age_seconds: Option<u64>,
}

/// The components, below the cache directory, of the marker file `name`:
/// markers sit in `resolutions/`.
pub open spec fn marker_parts(name: Seq<char>) -> Seq<Seq<char>> {
    seq!["resolutions"@, name]
}

/// Where under the cache directory the marker file `name` sits.
pub fn marker_location(name: &str) -> (r: Vec<String>)
    ensures
        views(r@) == marker_parts(name@),
{
    let mut v: Vec<String> = Vec::new();
    v.push(String::from_str("resolutions"));
    v.push(String::from_str(name));
    assert(views(v@) =~= marker_parts(name@));
    v
}

/// The primary-package marker name for the marker `key` and the first
/// dependency `primary_ref`.
pub open spec fn package_marker_text(key: Seq<char>, primary_ref: Seq<char>) -> Seq<char> {
    key + "-primary-"@ + sha256_hex_of(primary_ref)
}

/// The markers of a resolution, or none where it cannot be cached: a
/// dependency that is not a standard package reference, or an Rscript with
/// no stable identity. `max_age_setting` is the value of
/// `IR_LATEST_RESOLUTION_MAX_AGE_SECONDS`; it is read only for latest
/// resolutions, and a value that is not an integer is an error.
pub fn paths(
    dependencies: &[String],
    rscript_args: &[String],
    exclude_newer: Option<&str>,
    quarto: QuartoCacheFlags,
    rscript_identity: Option<&str>,
    library_root: Option<&str>,
    max_age_setting: Option<&str>,
    now: u64,
) -> (r: Result<Option<CachePaths>, String>)
    ensures
        !(forall|i: int| 0 <= i < dependencies@.len() ==> standard_ref(#[trigger] dependencies@[i]@))
            ==> r matches Ok(None),
        (forall|i: int| 0 <= i < dependencies@.len() ==> standard_ref(#[trigger] dependencies@[i]@))
            && rscript_identity is None ==> r matches Ok(None),
        (forall|i: int| 0 <= i < dependencies@.len() ==> standard_ref(#[trigger] dependencies@[i]@))
            && rscript_identity is Some ==> {
            let identity = rscript_identity->Some_0@;
            let key = resolution_key(
                views(dependencies@),
                opt_str_view(exclude_newer),
                quarto,
                identity,
                views(rscript_args@),
                opt_str_view(library_root),
            );
            match (exclude_newer, max_age_outcome(opt_str_view(max_age_setting))) {
                (None, Err(e)) => r matches Err(m) && m@ == e,
                _ => r matches Ok(Some(p)) && {
                    &&& p.marker_name@ == key
                    &&& p.source@ == cache_source_text(opt_str_view(exclude_newer), now as nat)
                    &&& p.latest_max_age_seconds == (match exclude_newer {
                        None => Some(max_age_outcome(opt_str_view(max_age_setting))->Ok_0 as u64),
                        Some(_) => None::<u64>,
                    })
                    &&& (p.package_marker_name is Some <==> dependencies@.len() > 0)
                    &&& (p.package_marker_name matches Some(n) ==> n@ == package_marker_text(
                        key,
                        dependencies@[0]@,
                    ))
                },
            }
        },
{
    if !all_standard_refs(dependencies) {
        return Ok(None);
    }
    let identity = match rscript_identity {
        Some(identity) => identity,
        None => {
            return Ok(None);
        },
    };
    let latest_max_age = match exclude_newer {
        None => match latest_max_age_seconds(max_age_setting) {
            Ok(n) => Some(n),
            Err(e) => {
                return Err(e);
            },
        },
        Some(_) => None,
    };
    let source = resolution_cache_source(exclude_newer, now);
    let key = resolution_cache_key(
        dependencies,
        exclude_newer,
        quarto,
        identity,
        rscript_args,
        library_root,
    );
    let package_marker_name = if dependencies.len() > 0 {
        let digest = sha256_hex(dependencies[0].as_str());
        let mut v: Vec<char> = chars_of(key.as_str());
        append_str(&mut v, "-primary-");
        append_str(&mut v, digest.as_str());
        Some(string_of(v.as_slice()))
    } else {
        None
    };
    Ok(
        Some(
            CachePaths {
                marker_name: key,
                package_marker_name,
                source,
                latest_max_age_seconds: latest_max_age,
            },
        ),
    )
}

/// The library a marker records, where the marker is current: the second
/// line of `marker`, trimmed, when its first line is a current source and
/// the second is not blank.
pub open spec fn marker_library(
    marker: Seq<char>,
    expected_source: Seq<char>,
    latest_max_age_seconds: Option<u64>,
    now: nat,
) -> Option<Seq<char>> {
    let library = trim(crate::text::first_line(crate::text::after_first_line(marker)));
    if !source_current(crate::text::first_line(marker), expected_source, latest_max_age_seconds, now) {
        None
    } else if library.len() == 0 {
        None
    } else {
        Some(library)
    }
}

/// The entry a marker records (its second line, trimmed), where the
/// marker's source line is current for `expected_source` at `now`.
pub fn marker_entry(
    marker: &str,
    expected_source: &str,
    latest_max_age_seconds: Option<u64>,
    now: u64,
) -> (r: Option<String>)
    ensures
        opt_view_string(r) == marker_library(
            marker@,
            expected_source@,
            latest_max_age_seconds,
            now as nat,
        ),
{
    let text = chars_of(marker);
    let (first, rest) = crate::text::split_first_line(text.as_slice());
    let first_s = string_of(first.as_slice());
    if !source_is_current(first_s.as_str(), expected_source, latest_max_age_seconds, now) {
        return None;
    }
    let (second, _) = crate::text::split_first_line(rest.as_slice());
    let library = trimmed(second.as_slice());
    if library.len() == 0 {
        return None;
    }
    Some(string_of(library.as_slice()))
}

/// The library path recorded by the marker text `marker`, if the marker is
/// current for `paths` at `now`. Whether that library still exists is the
/// caller's to check.
pub fn cached_library(marker: &str, paths: &CachePaths, now: u64) -> (r: Option<String>)
    ensures
        opt_view_string(r) == marker_library(
            marker@,
            paths.source@,
            paths.latest_max_age_seconds,
            now as nat,
        ),
{
    marker_entry(marker, paths.source.as_str(), paths.latest_max_age_seconds, now)
}

pub open spec fn opt_view_string(o: Option<String>) -> Option<Seq<char>> {
    match o {
        Some(s) => Some(s@),
        None => None,
    }
}

/// The primary package a package marker records: its first line, trimmed,
/// unless that is blank.
pub open spec fn marker_package(marker: Seq<char>) -> Option<Seq<char>> {
    let package = trim(crate::text::first_line(marker));
    if package.len() == 0 {
        None
    } else {
        Some(package)
    }
}

/// The primary package recorded by the package marker text `marker`.
pub fn cached_primary_package(marker: &str) -> (r: Option<String>)
    ensures
        opt_view_string(r) == marker_package(marker@),
{
    let text = chars_of(marker);
    let (first, _) = crate::text::split_first_line(text.as_slice());
    let package = trimmed(first.as_slice());
    if package.len() == 0 {
        return None;
    }
    Some(string_of(package.as_slice()))
}

/// `Rscript` or `Rscript.exe`, in any case.
pub open spec fn rscript_name(name: Seq<char>) -> bool {
    lower(name) == "rscript"@ || lower(name) == "rscript.exe"@
}

/// Whether the file name `name` is that of Rscript itself.
pub fn is_rscript_name(name: &str) -> (r: bool)
    ensures
        r == rscript_name(name@),
{
    let l = lowered(chars_of(name).as_slice());
    eq_lit(l.as_slice(), "rscript") || eq_lit(l.as_slice(), "rscript.exe")
}

/// An extension that marks a script wrapper rather than a binary.
pub open spec fn launcher_extension(ext: Seq<char>) -> bool {
    let l = lower(ext);
    l == "bat"@ || l == "cmd"@ || l == "ps1"@ || l == "sh"@
}

/// Whether a file is a script that launches R rather than R itself: its
/// extension says so, it could not be opened (`magic` is `None`), or its
/// first two bytes `magic` are `#!`.
pub fn is_script_launcher(extension: Option<&str>, magic: Option<&[u8]>) -> (r: bool)
    ensures
        r == ((extension matches Some(e) && launcher_extension(e@)) || magic is None || (
        magic matches Some(m) && m@ == seq![35u8, 33u8])),
{
    if let Some(ext) = extension {
        let l = lowered(chars_of(ext).as_slice());
        if eq_lit(l.as_slice(), "bat") || eq_lit(l.as_slice(), "cmd") || eq_lit(l.as_slice(), "ps1")
            || eq_lit(l.as_slice(), "sh") {
            return true;
        }
    }
    match magic {
        None => true,
        Some(m) => {
            if m.len() == 2 && m[0] == 35u8 && m[1] == 33u8 {
                assert(m@ =~= seq![35u8, 33u8]);
                true
            } else {
                false
            }
        },
    }
}

/// Whether a resolved Rscript path can key a cache: it is named Rscript
/// and is not a script launcher.
pub fn is_rscript_executable(file_name: Option<&str>, script_launcher: bool) -> (r: bool)
    ensures
        r == (file_name matches Some(n) && rscript_name(n@) && !script_launcher),
{
    match file_name {
        Some(name) => is_rscript_name(name) && !script_launcher,
        None => false,
    }
}

/// What identifies an Rscript for caching: its canonical path, length,
/// modification time and the `R_ARCH` and `R_HOME` it runs under.
pub open spec fn identity_text(
    path: Seq<char>,
    len: nat,
    mtime_nanos: Option<u128>,
    r_arch: Option<Seq<char>>,
    r_home: Option<Seq<char>>,
) -> Seq<char> {
    path + ";len="@ + decimal(len) + (match mtime_nanos {
        Some(n) => ";mtime="@ + decimal(n as nat),
        None => Seq::empty(),
    }) + (match r_arch {
        Some(v) => ";R_ARCH="@ + v,
        None => Seq::empty(),
    }) + (match r_home {
        Some(v) => ";R_HOME="@ + v,
        None => Seq::empty(),
    })
}

/// The identity string of an Rscript at `path`.
pub fn rscript_identity_text(
    path: &str,
    len: u64,
    mtime_nanos: Option<u128>,
    r_arch: Option<&str>,
    r_home: Option<&str>,
) -> (r: String)
    ensures
        r@ == identity_text(
            path@,
            len as nat,
            mtime_nanos,
            opt_str_view(r_arch),
            opt_str_view(r_home),
        ),
{
    let mut v: Vec<char> = chars_of(path);
    append_str(&mut v, ";len=");
    crate::text::extend_chars(&mut v, decimal_text(len as u128).as_slice());
    let ghost a = v@;
    if let Some(n) = mtime_nanos {
        append_str(&mut v, ";mtime=");
        crate::text::extend_chars(&mut v, decimal_text(n).as_slice());
    }
    let ghost b = v@;
    if let Some(arch) = r_arch {
        append_str(&mut v, ";R_ARCH=");
        append_str(&mut v, arch);
    }
    let ghost c = v@;
    if let Some(home) = r_home {
        append_str(&mut v, ";R_HOME=");
        append_str(&mut v, home);
    }
    assert(v@ =~= identity_text(
        path@,
        len as nat,
        mtime_nanos,
        opt_str_view(r_arch),
        opt_str_view(r_home),
    ));
    string_of(v.as_slice())
}

/// The order dependencies are listed in does not change the resolution key:
/// two lists holding the same dependencies are filed under one marker.
pub proof fn lemma_resolution_key_ignores_dependency_order(
    dependencies_a: Seq<Seq<char>>,
    dependencies_b: Seq<Seq<char>>,
    exclude_newer: Option<Seq<char>>,
    quarto: QuartoCacheFlags,
    rscript_identity: Seq<char>,
    rscript_args: Seq<Seq<char>>,
    library_root: Option<Seq<char>>,
)
    requires
        dependencies_a.to_multiset() == dependencies_b.to_multiset(),
    ensures
        resolution_key(
            dependencies_a,
            exclude_newer,
            quarto,
            rscript_identity,
            rscript_args,
            library_root,
        ) == resolution_key(
            dependencies_b,
            exclude_newer,
            quarto,
            rscript_identity,
            rscript_args,
            library_root,
        ),
{
    crate::text::lemma_sorted_texts_ignore_order(dependencies_a, dependencies_b);
}

/// The hex SHA-256 of `fields`, each written as `{len}:{field}\n`.
pub fn sha256_fields(fields: &[String]) -> (r: String)
    ensures
        r@ == sha256_hex_of(length_prefixed(views(fields@))),
        r@.len() == 64,
{
    sha256_length_prefixed(fields)
}

} // verus!
