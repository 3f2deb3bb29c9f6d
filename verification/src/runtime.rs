//! The decisions around a run: which R to use, which snapshot dates apply,
//! how dependencies are handed to the resolver, and how the resolver's
//! answers are read.
use vstd::prelude::*;

use crate::paths::{PathPlan, Platform};
use crate::python::PythonSpec;
use crate::rig::model::{clone_opt, opt_view};
use crate::rig::r_selection::opt_str_view;
use crate::spec::RuntimeSpec;
use crate::text::{
    append_str, chars_of, is_alnum, is_alpha, is_digit, lead_white, lead_white_len, lit,
    starts_with, string_of, trim, trimmed, views,
};

verus! {

/// How R was chosen explicitly: a version requirement or an Rscript.
pub enum RSelection {
    Version(String),
    Rscript(String),
}

/// A selection as plain values: whether it is a version, and its text.
pub open spec fn selection_view(s: RSelection) -> (bool, Seq<char>) {
    match s {
        RSelection::Version(v) => (true, v@),
        RSelection::Rscript(p) => (false, p@),
    }
}

pub open spec fn opt_selection_view(s: Option<RSelection>) -> Option<(bool, Seq<char>)> {
    match s {
        Some(x) => Some(selection_view(x)),
        None => None,
    }
}

/// `` `{name}` must not be empty ``.
pub open spec fn empty_value_error(name: Seq<char>) -> Seq<char> {
    "`"@ + name + "` must not be empty"@
}

/// The value of the command-line option `name`, which must not be empty.
pub fn nonempty_cli_value(name: &str, value: &str) -> (r: Result<String, String>)
    ensures
        value@.len() == 0 ==> (r matches Err(e) && e@ == empty_value_error(name@)),
        value@.len() > 0 ==> (r matches Ok(v) && v@ == value@),
{
    if chars_of(value).len() == 0 {
        let mut v: Vec<char> = Vec::new();
        append_str(&mut v, "`");
        append_str(&mut v, name);
        append_str(&mut v, "` must not be empty");
        return Err(string_of(v.as_slice()));
    }
    Ok(lit(value))
}

/// The selection made on the command line by `--r-version` and
/// `--rscript`.
pub open spec fn cli_selection_outcome(r_requirement: Option<Seq<char>>, rscript: Option<Seq<char>>) -> Result<
    Option<(bool, Seq<char>)>,
    Seq<char>,
> {
    match (r_requirement, rscript) {
        (Some(_), Some(_)) => Err("cannot set both `--r-version` and `--rscript`"@),
        (Some(req), None) => if req.len() == 0 {
            Err(empty_value_error("--r-version"@))
        } else {
            Ok(Some((true, req)))
        },
        (None, Some(p)) => if p.len() == 0 {
            Err(empty_value_error("--rscript"@))
        } else {
            Ok(Some((false, p)))
        },
        (None, None) => Ok(None),
    }
}

/// The R selection given on the command line.
pub fn cli_r_selection(r_requirement: Option<&str>, rscript: Option<&str>) -> (r: Result<
    Option<RSelection>,
    String,
>)
    ensures
        match cli_selection_outcome(opt_str_view(r_requirement), opt_str_view(rscript)) {
            Ok(s) => r matches Ok(x) && opt_selection_view(x) == s,
            Err(e) => r matches Err(m) && m@ == e,
        },
{
    match (r_requirement, rscript) {
        (Some(_), Some(_)) => Err(lit("cannot set both `--r-version` and `--rscript`")),
        (Some(req), None) => {
            let v = nonempty_cli_value("--r-version", req)?;
            Ok(Some(RSelection::Version(v)))
        },
        (None, Some(p)) => {
            let v = nonempty_cli_value("--rscript", p)?;
            Ok(Some(RSelection::Rscript(v)))
        },
        (None, None) => Ok(None),
    }
}

/// An environment value, trimmed; nothing where it is absent or blank.
pub open spec fn trimmed_value(value: Option<Seq<char>>) -> Option<Seq<char>> {
    match value {
        Some(v) => if trim(v).len() == 0 {
            None
        } else {
            Some(trim(v))
        },
        None => None,
    }
}

/// The trimmed value of an environment variable, if it is not blank.
pub fn env_optional_trimmed_string(value: Option<&str>) -> (r: Option<String>)
    ensures
        opt_view(r) == trimmed_value(opt_str_view(value)),
{
    match value {
        Some(v) => {
            let t = trimmed(chars_of(v).as_slice());
            if t.len() == 0 {
                None
            } else {
                Some(string_of(t.as_slice()))
            }
        },
        None => None,
    }
}

/// An environment value that counts only when not empty.
pub open spec fn nonempty_value(value: Option<Seq<char>>) -> Option<Seq<char>> {
    match value {
        Some(v) => if v.len() == 0 {
            None
        } else {
            Some(v)
        },
        None => None,
    }
}

/// The selection made by `IR_R_VERSION` (trimmed) and `IR_RSCRIPT`
/// (non-empty).
pub open spec fn env_selection_outcome(r_version: Option<Seq<char>>, rscript: Option<Seq<char>>) -> Result<
    Option<(bool, Seq<char>)>,
    Seq<char>,
> {
    match (trimmed_value(r_version), nonempty_value(rscript)) {
        (Some(_), Some(_)) => Err("cannot set both `IR_R_VERSION` and `IR_RSCRIPT`"@),
        (Some(req), None) => Ok(Some((true, req))),
        (None, Some(p)) => Ok(Some((false, p))),
        (None, None) => Ok(None),
    }
}

/// The R selection made by the environment, given the values of
/// `IR_R_VERSION` and `IR_RSCRIPT`.
pub fn env_r_selection(r_version: Option<&str>, rscript: Option<&str>) -> (r: Result<
    Option<RSelection>,
    String,
>)
    ensures
        match env_selection_outcome(opt_str_view(r_version), opt_str_view(rscript)) {
            Ok(s) => r matches Ok(x) && opt_selection_view(x) == s,
            Err(e) => r matches Err(m) && m@ == e,
        },
{
    let rscript = match rscript {
        Some(p) => if chars_of(p).len() == 0 {
            None
        } else {
            Some(lit(p))
        },
        None => None,
    };
    let r_version = env_optional_trimmed_string(r_version);
    match (r_version, rscript) {
        (Some(_), Some(_)) => Err(lit("cannot set both `IR_R_VERSION` and `IR_RSCRIPT`")),
        (Some(req), None) => Ok(Some(RSelection::Version(req))),
        (None, Some(p)) => Ok(Some(RSelection::Rscript(p))),
        (None, None) => Ok(None),
    }
}

/// The selection a document's frontmatter makes.
pub open spec fn frontmatter_selection_outcome(spec: RuntimeSpec) -> Result<
    Option<(bool, Seq<char>)>,
    Seq<char>,
> {
    match (opt_view(spec.r_requirement), opt_view(spec.rscript)) {
        (Some(_), Some(_)) => Err("frontmatter cannot set both `r-version` and `rscript`"@),
        (Some(req), None) => Ok(Some((true, req))),
        (None, Some(p)) => Ok(Some((false, p))),
        (None, None) => Ok(None),
    }
}

/// The R selection in a document's frontmatter.
pub fn frontmatter_r_selection(spec: &RuntimeSpec) -> (r: Result<Option<RSelection>, String>)
    ensures
        match frontmatter_selection_outcome(*spec) {
            Ok(s) => r matches Ok(x) && opt_selection_view(x) == s,
            Err(e) => r matches Err(m) && m@ == e,
        },
{
    match (&spec.r_requirement, &spec.rscript) {
        (Some(_), Some(_)) => Err(lit("frontmatter cannot set both `r-version` and `rscript`")),
        (Some(req), None) => Ok(Some(RSelection::Version(req.clone()))),
        (None, Some(p)) => Ok(Some(RSelection::Rscript(p.clone()))),
        (None, None) => Ok(None),
    }
}

/// Where the R for a run comes from.
pub enum RChoice {
    /// An explicit selection.
    Selected(RSelection),
    /// The newest R released by this snapshot date.
    ForDate(String),
    /// The `Rscript` found on `PATH`.
    Default,
}

pub open spec fn choice_view(c: RChoice) -> (int, Seq<char>, bool) {
    match c {
        RChoice::Selected(s) => (0, selection_view(s).1, selection_view(s).0),
        RChoice::ForDate(d) => (1, d@, false),
        RChoice::Default => (2, Seq::empty(), false),
    }
}

/// Where the R of a run comes from: the command line first, then the
/// environment, then the frontmatter, then the snapshot date; otherwise
/// the default `Rscript`. An inconsistent source is an error, checked in
/// that order.
pub open spec fn r_choice_outcome(
    spec: RuntimeSpec,
    cli_r: Option<Seq<char>>,
    cli_rscript: Option<Seq<char>>,
    env_r: Option<Seq<char>>,
    env_rscript: Option<Seq<char>>,
) -> Result<(int, Seq<char>, bool), Seq<char>> {
    match cli_selection_outcome(cli_r, cli_rscript) {
        Err(e) => Err(e),
        Ok(Some(s)) => Ok((0, s.1, s.0)),
        Ok(None) => match env_selection_outcome(env_r, env_rscript) {
            Err(e) => Err(e),
            Ok(Some(s)) => Ok((0, s.1, s.0)),
            Ok(None) => match frontmatter_selection_outcome(spec) {
                Err(e) => Err(e),
                Ok(Some(s)) => Ok((0, s.1, s.0)),
                Ok(None) => match opt_view(spec.exclude_newer) {
                    Some(d) => Ok((1, d, false)),
                    None => Ok((2, Seq::empty(), false)),
                },
            },
        },
    }
}

/// Decides where the R of a run comes from, given the command-line options
/// and the values of `IR_R_VERSION` and `IR_RSCRIPT`.
pub fn choose_r(
    spec: &RuntimeSpec,
    cli_r: Option<&str>,
    cli_rscript: Option<&str>,
    env_r: Option<&str>,
    env_rscript: Option<&str>,
) -> (r: Result<RChoice, String>)
    ensures
        match r_choice_outcome(
            *spec,
            opt_str_view(cli_r),
            opt_str_view(cli_rscript),
            opt_str_view(env_r),
            opt_str_view(env_rscript),
        ) {
            Ok(c) => r matches Ok(x) && choice_view(x) == c,
            Err(e) => r matches Err(m) && m@ == e,
        },
{
    if let Some(s) = cli_r_selection(cli_r, cli_rscript)? {
        return Ok(RChoice::Selected(s));
    }
    if let Some(s) = env_r_selection(env_r, env_rscript)? {
        return Ok(RChoice::Selected(s));
    }
    if let Some(s) = frontmatter_r_selection(spec)? {
        return Ok(RChoice::Selected(s));
    }
    match &spec.exclude_newer {
        Some(d) => Ok(RChoice::ForDate(d.clone())),
        None => Ok(RChoice::Default),
    }
}

/// The calendar date `time::Date::parse` reads from `text` with the format
/// description `[year]-[month]-[day]`, as (year, month, day).
pub uninterp spec fn iso_calendar_date(text: Seq<char>) -> Option<(i32, u8, u8)>;

/// `time::Date::parse` with the description `[year]-[month]-[day]`.
/// Trusted: the result is the date `iso_calendar_date` names for `value`,
/// or nothing where `time` rejects the text.
#[verifier::external_body]
fn parse_calendar_date(value: &str) -> (r: Option<(i32, u8, u8)>)
    ensures
        r == iso_calendar_date(value@),
{
    let format = time::format_description::parse_borrowed::<1>("[year]-[month]-[day]").ok()?;
    let date = time::Date::parse(value, &format).ok()?;
    Some((date.year(), u8::from(date.month()), date.day()))
}

/// Whether the date `a` comes after the date `b`.
pub open spec fn date_after(a: (i32, u8, u8), b: (i32, u8, u8)) -> bool {
    a.0 > b.0 || (a.0 == b.0 && (a.1 > b.1 || (a.1 == b.1 && a.2 > b.2)))
}

fn later_date(a: (i32, u8, u8), b: (i32, u8, u8)) -> (r: bool)
    ensures
        r == date_after(a, b),
{
    a.0 > b.0 || (a.0 == b.0 && (a.1 > b.1 || (a.1 == b.1 && a.2 > b.2)))
}

/// A snapshot date as given, trimmed; none where it is blank or a date
/// after `today` (such a snapshot means "latest").
pub open spec fn override_outcome(
    value: Seq<char>,
    parsed: Option<(i32, u8, u8)>,
    today: (i32, u8, u8),
) -> Option<Seq<char>> {
    let t = trim(value);
    if t.len() == 0 {
        None
    } else if parsed matches Some(d) && date_after(d, today) {
        None
    } else {
        Some(t)
    }
}

/// The snapshot date `value` once `parsed`, its calendar date (if it is
/// one), is known.
pub fn exclude_newer_override_from(
    value: &str,
    parsed: Option<(i32, u8, u8)>,
    today: (i32, u8, u8),
) -> (r: Option<String>)
    ensures
        opt_view(r) == override_outcome(value@, parsed, today),
{
    let t = trimmed(chars_of(value).as_slice());
    if t.len() == 0 {
        return None;
    }
    if let Some(d) = parsed {
        if later_date(d, today) {
            return None;
        }
    }
    Some(string_of(t.as_slice()))
}

/// The snapshot date `value` as an override: trimmed, and dropped where it
/// is blank or later than `today`.
pub fn normalize_exclude_newer_override(value: &str, today: (i32, u8, u8)) -> (r: Option<String>)
    ensures
        opt_view(r) == override_outcome(value@, iso_calendar_date(trim(value@)), today),
{
    let t = string_of(trimmed(chars_of(value).as_slice()).as_slice());
    let parsed = parse_calendar_date(t.as_str());
    exclude_newer_override_from(value, parsed, today)
}

/// The snapshot date that applies: `--exclude-newer` first, then
/// `IR_EXCLUDE_NEWER`, then the frontmatter; each normalised.
pub open spec fn selected_date(
    frontmatter: Option<Seq<char>>,
    cli: Option<Seq<char>>,
    env: Option<Seq<char>>,
    today: (i32, u8, u8),
) -> Option<Seq<char>> {
    match (cli, env, frontmatter) {
        (Some(c), _, _) => override_outcome(c, iso_calendar_date(trim(c)), today),
        (None, Some(e), _) => override_outcome(e, iso_calendar_date(trim(e)), today),
        (None, None, Some(f)) => override_outcome(f, iso_calendar_date(trim(f)), today),
        (None, None, None) => None,
    }
}

/// The snapshot date of a run given the frontmatter's, the command line's
/// and the value of `IR_EXCLUDE_NEWER`.
pub fn selected_exclude_newer(
    frontmatter: Option<&str>,
    cli: Option<&str>,
    env: Option<&str>,
    today: (i32, u8, u8),
) -> (r: Option<String>)
    ensures
        opt_view(r) == selected_date(
            opt_str_view(frontmatter),
            opt_str_view(cli),
            opt_str_view(env),
            today,
        ),
{
    if let Some(c) = cli {
        return normalize_exclude_newer_override(c, today);
    }
    if let Some(e) = env {
        return normalize_exclude_newer_override(e, today);
    }
    match frontmatter {
        Some(f) => normalize_exclude_newer_override(f, today),
        None => None,
    }
}

/// The Python snapshot date: `--python-exclude-newer` first, then one the
/// frontmatter set for Python, then the run's own date.
pub open spec fn python_date(
    python: PythonSpec,
    cli_python: Option<Seq<char>>,
    default: Option<Seq<char>>,
    today: (i32, u8, u8),
) -> Option<Seq<char>> {
    match cli_python {
        Some(c) => override_outcome(c, iso_calendar_date(trim(c)), today),
        None => if python.exclude_newer_explicit {
            let v = match opt_view(python.exclude_newer) {
                Some(x) => x,
                None => Seq::empty(),
            };
            override_outcome(v, iso_calendar_date(trim(v)), today)
        } else {
            default
        },
    }
}

/// `spec` and `other` agree on everything but their snapshot dates.
pub open spec fn same_but_dates(spec: RuntimeSpec, other: RuntimeSpec) -> bool {
    &&& spec.dependencies == other.dependencies
    &&& spec.isolated == other.isolated
    &&& spec.r_requirement == other.r_requirement
    &&& spec.rscript == other.rscript
    &&& spec.quarto_render == other.quarto_render
    &&& spec.quarto_reticulate == other.quarto_reticulate
    &&& (spec.python is Some <==> other.python is Some)
    &&& (spec.python matches Some(p) ==> {
        let q = other.python->Some_0;
        &&& p.packages == q.packages
        &&& p.python_version == q.python_version
        &&& p.exclude_newer_explicit == q.exclude_newer_explicit
    })
}

/// Sets the Python snapshot date of `spec`, where it has a Python section.
pub fn set_python_exclude_newer(
    spec: &mut RuntimeSpec,
    cli_python: Option<&str>,
    default: Option<&str>,
    today: (i32, u8, u8),
)
    ensures
        same_but_dates(*final(spec), *old(spec)),
        final(spec).exclude_newer == old(spec).exclude_newer,
        old(spec).python matches Some(p) ==> opt_view(final(spec).python->Some_0.exclude_newer)
            == python_date(p, opt_str_view(cli_python), opt_str_view(default), today),
{
    match spec.python.take() {
        None => {},
        Some(py) => {
            let date = match cli_python {
                Some(c) => normalize_exclude_newer_override(c, today),
                None => if py.exclude_newer_explicit {
                    let v = match &py.exclude_newer {
                        Some(x) => x.clone(),
                        None => String::new(),
                    };
                    normalize_exclude_newer_override(v.as_str(), today)
                } else {
                    match default {
                        Some(d) => Some(lit(d)),
                        None => None,
                    }
                },
            };
            let PythonSpec { packages, python_version, exclude_newer: _, exclude_newer_explicit } =
                py;
            spec.python = Some(
                PythonSpec { packages, python_version, exclude_newer: date, exclude_newer_explicit },
            );
        },
    }
}

fn as_str_opt(o: &Option<String>) -> (r: Option<&str>)
    ensures
        opt_str_view(r) == opt_view(*o),
{
    match o {
        Some(s) => Some(s.as_str()),
        None => None,
    }
}

/// Applies the snapshot overrides to `spec`: the run's date becomes the
/// selected one, and the Python date follows it unless set on its own.
pub fn apply_exclude_newer_overrides(
    spec: &mut RuntimeSpec,
    cli_exclude_newer: Option<&str>,
    cli_python_exclude_newer: Option<&str>,
    env_exclude_newer: Option<&str>,
    today: (i32, u8, u8),
)
    ensures
        same_but_dates(*final(spec), *old(spec)),
        opt_view(final(spec).exclude_newer) == selected_date(
            opt_view(old(spec).exclude_newer),
            opt_str_view(cli_exclude_newer),
            opt_str_view(env_exclude_newer),
            today,
        ),
        old(spec).python matches Some(p) ==> opt_view(final(spec).python->Some_0.exclude_newer)
            == python_date(
            p,
            opt_str_view(cli_python_exclude_newer),
            opt_view(final(spec).exclude_newer),
            today,
        ),
{
    let frontmatter = spec.exclude_newer.take();
    let selected = selected_exclude_newer(
        as_str_opt(&frontmatter),
        cli_exclude_newer,
        env_exclude_newer,
        today,
    );
    spec.exclude_newer = clone_opt(&selected);
    set_python_exclude_newer(spec, cli_python_exclude_newer, as_str_opt(&selected), today);
}

/// The version operators a simple dependency may use.
#[derive(PartialEq, Eq, Structural, Clone, Copy)]
pub enum VersionOperator {
    /// `>=`
    AtLeast,
    /// `==`
    Exactly,
}

pub open spec fn name_char(c: char) -> bool {
    is_alnum(c) || c == '.'
}

/// The length of the leading run of letters, digits and dots of `s`.
pub open spec fn name_run(s: Seq<char>) -> nat
    decreases s.len(),
{
    if s.len() == 0 || !name_char(s[0]) {
        0
    } else {
        1 + name_run(s.drop_first())
    }
}

proof fn lemma_name_run_at(s: Seq<char>, i: int)
    requires
        0 <= i <= s.len(),
        forall|k: int| 0 <= k < i ==> name_char(#[trigger] s[k]),
        i == s.len() || !name_char(s[i]),
    ensures
        name_run(s) == i,
    decreases i,
{
    if i > 0 {
        let t = s.drop_first();
        assert(name_char(s[0]));
        assert forall|k: int| 0 <= k < i - 1 implies name_char(#[trigger] t[k]) by {
            assert(t[k] == s[k + 1]);
        }
        if i < s.len() {
            assert(t[i - 1] == s[i]);
        }
        lemma_name_run_at(t, i - 1);
    }
}

pub open spec fn version_char(c: char) -> bool {
    is_digit(c) || c == '.' || c == '-'
}

/// A dependency of the form `pkg >= 1.2` or `pkg == 1.2`: a package name
/// (a letter, then letters, digits and dots, ending in a letter or digit,
/// two characters at least), optional blanks, the operator, optional
/// blanks, and a version of digits, dots and dashes that starts with a
/// digit. The parts are the name, the operator and the version.
pub open spec fn simple_version_ref(d: Seq<char>) -> Option<(Seq<char>, VersionOperator, Seq<char>)> {
    if d.len() == 0 || !is_alpha(d[0]) {
        None
    } else {
        let n = 1 + name_run(d.drop_first());
        if n < 2 || !is_alnum(d[n - 1]) {
            None
        } else {
            let op_start = n + lead_white(d.skip(n as int));
            let after = d.skip(op_start as int);
            let op = if starts_with(after, ">="@) {
                Some(VersionOperator::AtLeast)
            } else if starts_with(after, "=="@) {
                Some(VersionOperator::Exactly)
            } else {
                None
            };
            match op {
                None => None,
                Some(o) => {
                    let vs = op_start + 2;
                    let v = d.skip((vs + lead_white(d.skip(vs as int))) as int);
                    if v.len() == 0 || !is_digit(v[0]) || !(forall|i: int|
                        0 <= i < v.len() ==> version_char(#[trigger] v[i])) {
                        None
                    } else {
                        Some((d.take(n as int), o, v))
                    }
                },
            }
        }
    }
}

/// The package, operator and version of a simple versioned dependency.
pub fn parse_simple_version_ref(dependency: &str) -> (r: Option<(String, VersionOperator, String)>)
    ensures
        match simple_version_ref(dependency@) {
            Some((p, o, v)) => r matches Some(x) && x.0@ == p && x.1 == o && x.2@ == v,
            None => r is None,
        },
{
    proof {
        reveal_strlit(">=");
        reveal_strlit("==");
    }
    let d = chars_of(dependency);
    if d.len() == 0 || !crate::text::char_is_alpha(d[0]) {
        return None;
    }
    let mut n: usize = 1;
    while n < d.len()
        invariant
            1 <= n <= d@.len(),
            forall|k: int| 1 <= k < n ==> name_char(#[trigger] d@[k]),
        ensures
            1 <= n <= d@.len(),
            forall|k: int| 1 <= k < n ==> name_char(#[trigger] d@[k]),
            n == d@.len() || !name_char(d@[n as int]),
        decreases d@.len() - n,
    {
        let c = d[n];
        if !(crate::text::char_is_alnum(c) || c == '.') {
            break;
        }
        n += 1;
    }
    proof {
        let t = d@.drop_first();
        assert forall|k: int| 0 <= k < n - 1 implies name_char(#[trigger] t[k]) by {
            assert(t[k] == d@[k + 1]);
        }
        if n < d@.len() {
            assert(t[n - 1] == d@[n as int]);
        }
        lemma_name_run_at(t, n - 1);
    }
    if n < 2 || !crate::text::char_is_alnum(d[n - 1]) {
        return None;
    }
    let rest = crate::text::slice_vec(d.as_slice(), n, d.len());
    assert(rest@ =~= d@.skip(n as int));
    proof {
        crate::text::lemma_lead_white_bound(rest@);
    }
    let op_start = n + lead_white_len(rest.as_slice());
    let after = crate::text::slice_vec(d.as_slice(), op_start, d.len());
    assert(after@ =~= d@.skip(op_start as int));
    let op = if crate::text::starts_lit(after.as_slice(), ">=") {
        VersionOperator::AtLeast
    } else if crate::text::starts_lit(after.as_slice(), "==") {
        VersionOperator::Exactly
    } else {
        return None;
    };
    let vs = op_start + 2;
    let vrest = crate::text::slice_vec(d.as_slice(), vs, d.len());
    assert(vrest@ =~= d@.skip(vs as int));
    proof {
        crate::text::lemma_lead_white_bound(vrest@);
    }
    let vstart = vs + lead_white_len(vrest.as_slice());
    let v = crate::text::slice_vec(d.as_slice(), vstart, d.len());
    assert(v@ =~= d@.skip(vstart as int));
    if v.len() == 0 || !crate::text::char_is_digit(v[0]) {
        return None;
    }
    let mut i: usize = 0;
    let mut ok = true;
    while i < v.len()
        invariant
            i <= v@.len(),
            ok == forall|k: int| 0 <= k < i ==> version_char(#[trigger] v@[k]),
        decreases v@.len() - i,
    {
        let c = v[i];
        if !(crate::text::char_is_digit(c) || c == '.' || c == '-') {
            assert(!version_char(v@[i as int]));
            ok = false;
        }
        i += 1;
    }
    if !ok {
        return None;
    }
    let name = crate::text::slice_vec(d.as_slice(), 0, n);
    assert(name@ =~= d@.take(n as int));
    Some((string_of(name.as_slice()), op, string_of(v.as_slice())))
}

/// The resolver's spelling of a dependency: `pkg >= v` becomes
/// `pkg@>=v`, `pkg == v` becomes `pkg@v`; anything else is kept, trimmed.
pub open spec fn dependency_ref(dependency: Seq<char>) -> Seq<char> {
    let d = trim(dependency);
    match simple_version_ref(d) {
        Some((p, VersionOperator::AtLeast, v)) => p + "@>="@ + v,
        Some((p, VersionOperator::Exactly, v)) => p + "@"@ + v,
        None => d,
    }
}

/// The resolver's spelling of `dependency`.
pub fn dependency_to_ref(dependency: &str) -> (r: String)
    ensures
        r@ == dependency_ref(dependency@),
{
    let d = string_of(trimmed(chars_of(dependency).as_slice()).as_slice());
    match parse_simple_version_ref(d.as_str()) {
        None => d,
        Some((p, op, v)) => {
            let mut out: Vec<char> = chars_of(p.as_str());
            match op {
                VersionOperator::AtLeast => append_str(&mut out, "@>="),
                VersionOperator::Exactly => append_str(&mut out, "@"),
            }
            append_str(&mut out, v.as_str());
            string_of(out.as_slice())
        },
    }
}

/// Every dependency in the resolver's spelling.
pub fn normalized_dependencies(dependencies: &[String]) -> (r: Vec<String>)
    ensures
        views(r@) == views(dependencies@).map_values(|d: Seq<char>| dependency_ref(d)),
{
    let mut r: Vec<String> = Vec::new();
    let mut i: usize = 0;
    while i < dependencies.len()
        invariant
            i <= dependencies@.len(),
            views(r@) == views(dependencies@.take(i as int)).map_values(
                |d: Seq<char>| dependency_ref(d),
            ),
        decreases dependencies@.len() - i,
    {
        let x = dependency_to_ref(dependencies[i].as_str());
        let ghost before = r@;
        r.push(x);
        assert(views(r@) =~= views(before).push(x@));
        assert(views(dependencies@.take(i + 1)).map_values(|d: Seq<char>| dependency_ref(d))
            =~= views(dependencies@.take(i as int)).map_values(|d: Seq<char>| dependency_ref(d)).push(
            dependency_ref(dependencies@[i as int]@),
        ));
        i += 1;
    }
    assert(dependencies@.take(dependencies@.len() as int) =~= dependencies@);
    r
}

proof fn lemma_name_run_bound(s: Seq<char>)
    ensures
        name_run(s) <= s.len(),
        forall|k: int| 0 <= k < name_run(s) ==> name_char(#[trigger] s[k]),
    decreases s.len(),
{
    if s.len() > 0 && name_char(s[0]) {
        let t = s.drop_first();
        lemma_name_run_bound(t);
        assert forall|k: int| 0 <= k < name_run(s) implies name_char(#[trigger] s[k]) by {
            if k > 0 {
                assert(s[k] == t[k - 1]);
            }
        }
    }
}

/// Spelling a dependency for the resolver twice changes nothing: the
/// spelling of a spelled dependency is itself.
pub proof fn lemma_dependency_ref_idempotent(dependency: Seq<char>)
    ensures
        dependency_ref(dependency_ref(dependency)) == dependency_ref(dependency),
{
    reveal_strlit("@>=");
    reveal_strlit("@");
    reveal_strlit(">=");
    reveal_strlit("==");
    let d = trim(dependency);
    crate::text::lemma_trim_idempotent(dependency);
    match simple_version_ref(d) {
        None => {},
        Some((p, o, v)) => {
            let n = 1 + name_run(d.drop_first());
            lemma_name_run_bound(d.drop_first());
            assert(p == d.take(n as int));
            let sep = match o {
                VersionOperator::AtLeast => "@>="@,
                VersionOperator::Exactly => "@"@,
            };
            let r = p + sep + v;
            assert(r == dependency_ref(dependency));
            assert(r[0] == p[0]);
            assert(r.last() == v.last());
            assert(version_char(v[v.len() - 1]));
            crate::text::lemma_trim_plain(r);
            let t = r.drop_first();
            assert forall|k: int| 0 <= k < n - 1 implies name_char(#[trigger] t[k]) by {
                assert(t[k] == d.drop_first()[k]);
            }
            assert(t[n - 1] == '@');
            lemma_name_run_at(t, n - 1);
            assert(r[n - 1] == p[n - 1]);
            assert(r.skip(n as int)[0] == '@');
            assert(lead_white(r.skip(n as int)) == 0);
            assert(r.skip(n as int).subrange(0, 2)[0] == '@');
            assert(simple_version_ref(r) is None);
        },
    }
}

/// What to do about a resolution, given what the caches hold.
#[derive(PartialEq, Eq, Structural, Clone, Copy)]
pub enum ResolverPlan {
    /// The cached library (and Python, where asked for) serve as they are.
    UseCache,
    /// Run the resolver for R, for Python, or both.
    Resolve { r: bool, python: bool },
}

/// Whether the caches answer a request: the library must be cached, and
/// the Python environment too where one is asked for.
pub open spec fn plan_for(cached_library: bool, python_requested: bool, cached_python: bool) -> ResolverPlan {
    if cached_library && (!python_requested || cached_python) {
        ResolverPlan::UseCache
    } else {
        ResolverPlan::Resolve { r: !cached_library, python: python_requested && !cached_python }
    }
}

/// The plan for a resolution.
pub fn resolver_plan(cached_library: bool, python_requested: bool, cached_python: bool) -> (r:
    ResolverPlan)
    ensures
        r == plan_for(cached_library, python_requested, cached_python),
{
    if cached_library && (!python_requested || cached_python) {
        ResolverPlan::UseCache
    } else {
        ResolverPlan::Resolve { r: !cached_library, python: python_requested && !cached_python }
    }
}

/// Whether a plan runs the resolver for the R library.
pub open spec fn resolves_r(p: ResolverPlan) -> bool {
    p matches ResolverPlan::Resolve { r, .. } && r
}

/// Whether a plan runs the resolver for the Python environment.
pub open spec fn resolves_python(p: ResolverPlan) -> bool {
    p matches ResolverPlan::Resolve { python, .. } && python
}

/// The resolver does exactly the missing work: it resolves the R library
/// exactly when none is cached, the Python environment exactly when one is
/// asked for and none is cached (whatever the state of the R library), and
/// it runs at all only when one of them is missing; otherwise the caches
/// serve.
pub proof fn lemma_resolver_plan_does_missing_work(
    cached_library: bool,
    python_requested: bool,
    cached_python: bool,
)
    ensures
        resolves_r(plan_for(cached_library, python_requested, cached_python)) == !cached_library,
        resolves_python(plan_for(cached_library, python_requested, cached_python)) == (
        python_requested && !cached_python),
        (plan_for(cached_library, python_requested, cached_python) is UseCache) == (cached_library
            && !(python_requested && !cached_python)),
        plan_for(cached_library, python_requested, cached_python) is Resolve ==> (resolves_r(
            plan_for(cached_library, python_requested, cached_python),
        ) || resolves_python(plan_for(cached_library, python_requested, cached_python))),
{
}

/// The retries the resolver has had: one after a tooling restart request,
/// and one in safe mode after a crash.
pub struct ResolverRetries {
    pub retried_tooling_restart: bool,
    pub retried_safe_mode: bool,
    pub safe_mode: bool,
}

/// What follows one run of the resolver.
#[derive(PartialEq, Eq, Structural, Clone, Copy)]
pub enum ResolverStep {
    /// Run it again (with the retry state updated).
    Retry,
    /// It asked for a tooling restart a second time: an error.
    RepeatedRestart,
    /// Its exit status stands.
    Finished,
}

/// The retries still open.
pub open spec fn retries_left(s: ResolverRetries) -> int {
    (if s.retried_tooling_restart { 0int } else { 1int }) + (if s.retried_safe_mode
        || s.safe_mode {
        0int
    } else {
        1int
    })
}

/// The state before the first run.
pub fn first_attempt() -> (r: ResolverRetries)
    ensures
        !r.retried_tooling_restart && !r.retried_safe_mode && !r.safe_mode,
        retries_left(r) == 2,
{
    ResolverRetries { retried_tooling_restart: false, retried_safe_mode: false, safe_mode: false }
}

/// Decides what follows a resolver run that asked for a tooling restart
/// (`restart_requested`) or crashed: a first restart request is retried,
/// a second is an error; a first crash outside safe mode is retried in
/// safe mode; otherwise the run's status stands. Every retry uses up one of
/// the two retries, so the resolver runs at most three times.
pub fn resolver_step(state: &mut ResolverRetries, restart_requested: bool, crashed: bool) -> (r:
    ResolverStep)
    ensures
        restart_requested && !old(state).retried_tooling_restart ==> r == ResolverStep::Retry
            && final(state).retried_tooling_restart && final(state).retried_safe_mode == old(
            state,
        ).retried_safe_mode && final(state).safe_mode == old(state).safe_mode,
        restart_requested && old(state).retried_tooling_restart ==> r
            == ResolverStep::RepeatedRestart && *final(state) == *old(state),
        !restart_requested && crashed && !old(state).safe_mode && !old(state).retried_safe_mode
            ==> r == ResolverStep::Retry && final(state).safe_mode && final(state).retried_safe_mode
            && final(state).retried_tooling_restart == old(state).retried_tooling_restart,
        !restart_requested && !(crashed && !old(state).safe_mode && !old(state).retried_safe_mode)
            ==> r == ResolverStep::Finished && *final(state) == *old(state),
        r == ResolverStep::Retry ==> retries_left(*final(state)) == retries_left(*old(state)) - 1,
        0 <= retries_left(*final(state)),
{
    if restart_requested {
        if !state.retried_tooling_restart {
            state.retried_tooling_restart = true;
            return ResolverStep::Retry;
        }
        return ResolverStep::RepeatedRestart;
    }
    if crashed && !state.safe_mode && !state.retried_safe_mode {
        state.retried_safe_mode = true;
        state.safe_mode = true;
        return ResolverStep::Retry;
    }
    ResolverStep::Finished
}

/// The error for a resolver that asked for a tooling restart twice; the
/// restart file may name the packages it wanted.
pub open spec fn repeated_restart_text(context: Seq<char>, restart_file: Seq<char>) -> Seq<char> {
    let packages = trim(restart_file);
    if packages.len() == 0 {
        context + " repeatedly requested a tooling restart"@
    } else {
        context + " repeatedly requested a tooling restart for "@ + packages
    }
}

/// The error for a repeated tooling restart, given the restart file's text.
pub fn repeated_tooling_restart_error(context: &str, restart_file: &str) -> (r: String)
    ensures
        r@ == repeated_restart_text(context@, restart_file@),
{
    let packages = trimmed(chars_of(restart_file).as_slice());
    let mut v: Vec<char> = chars_of(context);
    if packages.len() == 0 {
        append_str(&mut v, " repeatedly requested a tooling restart");
    } else {
        append_str(&mut v, " repeatedly requested a tooling restart for ");
        crate::text::extend_chars(&mut v, packages.as_slice());
    }
    string_of(v.as_slice())
}

/// What the resolver reported: the library, the primary package and the
/// Python interpreter (a path whose existence is the caller's to check).
pub struct ResolverOutputs {
    pub library: Option<String>,
    pub primary_package: Option<String>,
    pub python: Option<String>,
}

/// A result file's text, trimmed; nothing where it is blank.
pub open spec fn reported(text: Seq<char>) -> Option<Seq<char>> {
    if trim(text).len() == 0 {
        None
    } else {
        Some(trim(text))
    }
}

fn reported_text(text: &str) -> (r: Option<String>)
    ensures
        opt_view(r) == reported(text@),
{
    let t = trimmed(chars_of(text).as_slice());
    if t.len() == 0 {
        None
    } else {
        Some(string_of(t.as_slice()))
    }
}

/// Reads the resolver's result files. Where R was resolved the library and
/// package come from `library_result` and `package_result`, else from the
/// cache; where Python was resolved its path must not be blank, else the
/// cached one stands.
pub fn resolver_outputs(
    resolved_r: bool,
    library_result: &str,
    package_result: &str,
    cached_library: Option<&str>,
    cached_package: Option<&str>,
    resolved_python: bool,
    python_result: &str,
    cached_python: Option<&str>,
) -> (r: Result<ResolverOutputs, String>)
    ensures
        resolved_python && reported(python_result@) is None ==> (r matches Err(e) && e@
            == "Python environment resolver did not return a Python path"@),
        !(resolved_python && reported(python_result@) is None) ==> (r matches Ok(o) && {
            &&& opt_view(o.library) == (if resolved_r {
                reported(library_result@)
            } else {
                opt_str_view(cached_library)
            })
            &&& opt_view(o.primary_package) == (if resolved_r {
                reported(package_result@)
            } else {
                opt_str_view(cached_package)
            })
            &&& opt_view(o.python) == (if resolved_python {
                reported(python_result@)
            } else {
                opt_str_view(cached_python)
            })
        }),
{
    let (library, primary_package) = if resolved_r {
        (reported_text(library_result), reported_text(package_result))
    } else {
        (
            match cached_library {
                Some(l) => Some(lit(l)),
                None => None,
            },
            match cached_package {
                Some(p) => Some(lit(p)),
                None => None,
            },
        )
    };
    let python = if resolved_python {
        match reported_text(python_result) {
            Some(p) => Some(p),
            None => {
                return Err(lit("Python environment resolver did not return a Python path"));
            },
        }
    } else {
        match cached_python {
            Some(p) => Some(lit(p)),
            None => None,
        }
    };
    Ok(ResolverOutputs { library, primary_package, python })
}

/// The error for a Python path the resolver reported that does not exist.
pub fn missing_python_path_error(path: &str) -> (r: String)
    ensures
        r@ == "Python environment resolver returned a missing path `"@ + path@ + "`"@,
{
    let mut v: Vec<char> = Vec::new();
    append_str(&mut v, "Python environment resolver returned a missing path `");
    append_str(&mut v, path);
    append_str(&mut v, "`");
    string_of(v.as_slice())
}

/// Whether the directory named `name` holding a Python interpreter is the
/// `bin` (or `Scripts`, in any case) directory of a virtual environment.
pub fn python_virtual_env(name: &str) -> (r: bool)
    ensures
        r == (name@ == "bin"@ || crate::text::lower(name@) == "scripts"@),
{
    let c = chars_of(name);
    crate::text::eq_lit(c.as_slice(), "bin") || crate::text::eq_lit(
        crate::text::lowered(c.as_slice()).as_slice(),
        "scripts",
    )
}

/// The message for an Rscript that could not be launched: a missing
/// program gets advice, anything else the system's error.
pub open spec fn spawn_error_text(rscript: Seq<char>, not_found: bool, error: Seq<char>) -> Seq<char> {
    if not_found {
        "could not find `"@ + rscript + "` on PATH. Install R, set IR_RSCRIPT, or pass --rscript."@
    } else {
        "failed to launch `"@ + rscript + "`: "@ + error
    }
}

/// The message for a failure to launch `rscript`.
pub fn spawn_error(rscript: &str, not_found: bool, error: &str) -> (r: String)
    ensures
        r@ == spawn_error_text(rscript@, not_found, error@),
{
    let mut v: Vec<char> = Vec::new();
    if not_found {
        append_str(&mut v, "could not find `");
        append_str(&mut v, rscript);
        append_str(&mut v, "` on PATH. Install R, set IR_RSCRIPT, or pass --rscript.");
    } else {
        append_str(&mut v, "failed to launch `");
        append_str(&mut v, rscript);
        append_str(&mut v, "`: ");
        append_str(&mut v, error);
    }
    string_of(v.as_slice())
}

/// Where R keeps per-user caches, given the non-empty values of
/// `R_USER_CACHE_DIR`, `XDG_CACHE_HOME`, `LOCALAPPDATA` and `USERPROFILE`
/// and the (canonical) home directory, as base path and components.
pub open spec fn user_cache_plan(
    platform: Platform,
    r_user_cache_dir: Option<Seq<char>>,
    xdg_cache_home: Option<Seq<char>>,
    local_app_data: Option<Seq<char>>,
    user_profile: Option<Seq<char>>,
    home: Option<Seq<char>>,
) -> Result<(Seq<char>, Seq<Seq<char>>), Seq<char>> {
    if r_user_cache_dir is Some {
        Ok((r_user_cache_dir->Some_0, Seq::empty()))
    } else if xdg_cache_home is Some {
        Ok((xdg_cache_home->Some_0, Seq::empty()))
    } else if platform == Platform::Windows {
        if local_app_data is Some {
            Ok((local_app_data->Some_0, seq!["R"@, "cache"@]))
        } else if user_profile is Some {
            Ok((user_profile->Some_0, seq!["AppData"@, "Local"@, "R"@, "cache"@]))
        } else {
            Err(
                "cannot determine Windows cache directory; set IR_CACHE_DIR, R_USER_CACHE_DIR, XDG_CACHE_HOME, LOCALAPPDATA, or USERPROFILE"@,
            )
        }
    } else if home is None {
        Err("cannot determine home directory"@)
    } else if platform == Platform::MacOs {
        Ok((home->Some_0, seq!["Library"@, "Caches"@, "org.R-project.R"@]))
    } else {
        Ok((home->Some_0, seq![".cache"@]))
    }
}

pub open spec fn plan_parts(p: PathPlan) -> (Seq<char>, Seq<Seq<char>>) {
    (p.base@, views(p.parts@))
}

fn make_plan(base: &str, parts: &[&str]) -> (r: PathPlan)
    ensures
        plan_parts(r) == (base@, parts@.map_values(|s: &str| s@)),
        !r.parent,
{
    let p = crate::paths::plan(base, false, parts);
    assert(views(p.parts@) =~= p.parts@.map_values(|s: String| s@));
    p
}

/// The per-user R cache directory.
pub fn r_user_cache_dir(
    platform: Platform,
    r_user_cache_env: Option<&str>,
    xdg_cache_home: Option<&str>,
    local_app_data: Option<&str>,
    user_profile: Option<&str>,
    home: Option<&str>,
) -> (r: Result<PathPlan, String>)
    ensures
        match user_cache_plan(
            platform,
            opt_str_view(r_user_cache_env),
            opt_str_view(xdg_cache_home),
            opt_str_view(local_app_data),
            opt_str_view(user_profile),
            opt_str_view(home),
        ) {
            Ok(p) => r matches Ok(x) && plan_parts(x) == p && !x.parent,
            Err(e) => r matches Err(m) && m@ == e,
        },
{
    proof {
        reveal_strlit("R");
        reveal_strlit("cache");
    }
    if let Some(d) = r_user_cache_env {
        let r = make_plan(d, &[]);
        assert(plan_parts(r).1 =~= Seq::<Seq<char>>::empty());
        return Ok(r);
    }
    if let Some(d) = xdg_cache_home {
        let r = make_plan(d, &[]);
        assert(plan_parts(r).1 =~= Seq::<Seq<char>>::empty());
        return Ok(r);
    }
    match platform {
        Platform::Windows => {
            if let Some(d) = local_app_data {
                let r = make_plan(d, &["R", "cache"]);
                assert(plan_parts(r).1 =~= seq!["R"@, "cache"@]);
                return Ok(r);
            }
            if let Some(d) = user_profile {
                let r = make_plan(d, &["AppData", "Local", "R", "cache"]);
                assert(plan_parts(r).1 =~= seq!["AppData"@, "Local"@, "R"@, "cache"@]);
                return Ok(r);
            }
            Err(
                lit(
                    "cannot determine Windows cache directory; set IR_CACHE_DIR, R_USER_CACHE_DIR, XDG_CACHE_HOME, LOCALAPPDATA, or USERPROFILE",
                ),
            )
        },
        Platform::MacOs => match home {
            Some(h) => {
                let r = make_plan(h, &["Library", "Caches", "org.R-project.R"]);
                assert(plan_parts(r).1 =~= seq!["Library"@, "Caches"@, "org.R-project.R"@]);
                Ok(r)
            },
            None => Err(lit("cannot determine home directory")),
        },
        Platform::Linux => match home {
            Some(h) => {
                let r = make_plan(h, &[".cache"]);
                assert(plan_parts(r).1 =~= seq![".cache"@]);
                Ok(r)
            },
            None => Err(lit("cannot determine home directory")),
        },
    }
}

/// The cache directory of this tool: `IR_CACHE_DIR` where set, else `R/ir`
/// under the per-user R cache directory.
pub fn ir_cache_dir(
    platform: Platform,
    ir_cache_env: Option<&str>,
    r_user_cache: Option<&str>,
    xdg_cache_home: Option<&str>,
    local_app_data: Option<&str>,
    user_profile: Option<&str>,
    home: Option<&str>,
) -> (r: Result<PathPlan, String>)
    ensures
        ir_cache_env is Some ==> (r matches Ok(x) && plan_parts(x) == (
            ir_cache_env->Some_0@,
            Seq::<Seq<char>>::empty(),
        ) && !x.parent),
        ir_cache_env is None ==> match user_cache_plan(
            platform,
            opt_str_view(r_user_cache),
            opt_str_view(xdg_cache_home),
            opt_str_view(local_app_data),
            opt_str_view(user_profile),
            opt_str_view(home),
        ) {
            Ok(p) => r matches Ok(x) && plan_parts(x) == (p.0, p.1 + seq!["R"@, "ir"@]) && !x.parent,
            Err(e) => r matches Err(m) && m@ == e,
        },
{
    if let Some(d) = ir_cache_env {
        let r = make_plan(d, &[]);
        assert(plan_parts(r).1 =~= Seq::<Seq<char>>::empty());
        return Ok(r);
    }
    let mut p = r_user_cache_dir(
        platform,
        r_user_cache,
        xdg_cache_home,
        local_app_data,
        user_profile,
        home,
    )?;
    let ghost before = views(p.parts@);
    p.parts.push(lit("R"));
    p.parts.push(lit("ir"));
    assert(views(p.parts@) =~= before + seq!["R"@, "ir"@]);
    Ok(p)
}


/// Whether the exit status `code` that Windows reported is the NTSTATUS of
/// a crash (read as an unsigned 32-bit value): an access violation
/// (`0xC0000005`), a stack overflow (`0xC00000FD`), an illegal instruction
/// (`0xC000001D`), heap corruption (`0xC0000374`) or a stack buffer overrun
/// (`0xC0000409`).
pub open spec fn windows_crash_code(code: i32) -> bool {
    let u: int = if code < 0 {
        code + 0x1_0000_0000
    } else {
        code as int
    };
    ||| u == 0xC0000005
    ||| u == 0xC00000FD
    ||| u == 0xC000001D
    ||| u == 0xC0000374
    ||| u == 0xC0000409
}

/// Whether a resolver process crashed rather than exited: on Unix a signal
/// ended it (`signaled`), on Windows its status is a crash status, and on
/// any platform it left no exit code.
pub fn resolver_process_crashed(platform: Platform, signaled: bool, code: Option<i32>) -> (r: bool)
    ensures
        r == ((platform != Platform::Windows && signaled) || (platform == Platform::Windows
            && (code matches Some(c) && windows_crash_code(c))) || code is None),
{
    if platform != Platform::Windows && signaled {
        return true;
    }
    if platform == Platform::Windows {
        if let Some(c) = code {
            let u: i64 = if c < 0 {
                c as i64 + 0x1_0000_0000i64
            } else {
                c as i64
            };
            if u == 0xC0000005i64 || u == 0xC00000FDi64 || u == 0xC000001Di64 || u
                == 0xC0000374i64 || u == 0xC0000409i64 {
                return true;
            }
        }
    }
    code.is_none()
}

/// The name of a file unique to this process and moment:
/// `{prefix}-{pid}-{nanos}.{ext}`.
pub fn unique_file_name(prefix: &str, pid: u32, nanos: u128, ext: &str) -> (r: String)
    ensures
        r@ == prefix@ + seq!['-'] + crate::text::decimal(pid as nat) + seq!['-']
            + crate::text::decimal(nanos as nat) + seq!['.'] + ext@,
{
    let mut v: Vec<char> = chars_of(prefix);
    v.push('-');
    crate::text::extend_chars(&mut v, crate::text::decimal_text(pid as u128).as_slice());
    v.push('-');
    crate::text::extend_chars(&mut v, crate::text::decimal_text(nanos).as_slice());
    v.push('.');
    append_str(&mut v, ext);
    string_of(v.as_slice())
}

/// Whether a line of a batch file says nothing: blank, a `::` comment or a
/// `rem ` remark (in any case), after leading blanks.
pub open spec fn batch_filler(line: Seq<char>) -> bool {
    let l = crate::text::trim_start(line);
    l.len() == 0 || starts_with(l, "::"@) || starts_with(crate::text::lower(l), "rem "@)
}

/// A batch line after its leading blanks, an optional `@` and the blanks
/// after that.
pub open spec fn batch_command(line: Seq<char>) -> Seq<char> {
    let l = crate::text::trim_start(line);
    crate::text::trim_start(
        if l.len() > 0 && l[0] == '@' {
            l.drop_first()
        } else {
            l
        },
    )
}

/// The program a Windows batch launcher for Rscript starts: on the first
/// line that says something and starts with a quote (after an optional
/// `@`), the text up to the next quote; nothing where that quote is
/// missing or no line starts with one.
pub open spec fn batch_target(ls: Seq<Seq<char>>) -> Option<Seq<char>>
    decreases ls.len(),
{
    if ls.len() == 0 {
        None
    } else if batch_filler(ls[0]) {
        batch_target(ls.drop_first())
    } else {
        let c = batch_command(ls[0]);
        if c.len() > 0 && c[0] == '"' {
            let rest = c.drop_first();
            let k = crate::text::char_index(rest, '"');
            if k < rest.len() {
                Some(rest.take(k as int))
            } else {
                None
            }
        } else {
            batch_target(ls.drop_first())
        }
    }
}

/// The program named by the batch file `contents`, as a Windows Rscript
/// launcher names it.
pub fn batch_launcher_target(contents: &str) -> (r: Option<String>)
    ensures
        crate::resolve_cache::opt_view_string(r) == batch_target(crate::text::lines(contents@)),
{
    proof {
        reveal_strlit("::");
        reveal_strlit("rem ");
    }
    let ls = crate::text::split_lines(chars_of(contents).as_slice());
    let ghost all = crate::text::lines(contents@);
    let mut i: usize = 0;
    assert(all.skip(0) =~= all);
    while i < ls.len()
        invariant
            all == crate::text::lines(contents@),
            ls@.len() == all.len(),
            forall|k: int| 0 <= k < ls@.len() ==> #[trigger] ls@[k]@ == all[k],
            i <= ls@.len(),
            batch_target(all) == batch_target(all.skip(i as int)),
        decreases ls@.len() - i,
    {
        let ghost tail = all.skip(i as int);
        assert(tail[0] == ls@[i as int]@);
        assert(tail.drop_first() =~= all.skip(i + 1));
        let l = crate::text::trimmed_start(ls[i].as_slice());
        let filler = l.len() == 0 || crate::text::starts_lit(l.as_slice(), "::")
            || crate::text::starts_lit(crate::text::lowered(l.as_slice()).as_slice(), "rem ");
        if !filler {
            let body = if l.len() > 0 && l[0] == '@' {
                crate::text::slice_vec(l.as_slice(), 1, l.len())
            } else {
                crate::text::slice_vec(l.as_slice(), 0, l.len())
            };
            proof {
                if l@.len() > 0 && l@[0] == '@' {
                    assert(body@ =~= l@.drop_first());
                } else {
                    assert(body@ =~= l@);
                }
            }
            let c = crate::text::trimmed_start(body.as_slice());
            assert(c@ == batch_command(ls@[i as int]@));
            if c.len() > 0 && c[0] == '"' {
                let rest = crate::text::slice_vec(c.as_slice(), 1, c.len());
                assert(rest@ =~= c@.drop_first());
                let k = crate::text::find_char(rest.as_slice(), '"');
                proof {
                    crate::text::lemma_char_index(rest@, '"');
                }
                if k < rest.len() {
                    let t = crate::text::slice_vec(rest.as_slice(), 0, k);
                    assert(t@ =~= rest@.take(k as int));
                    return Some(string_of(t.as_slice()));
                }
                return None;
            }
        }
        i += 1;
    }
    None
}


/// The exit status with which the resolver asks to be run again after it
/// updated its own tooling.
pub const TOOLING_RESTART_STATUS: i32 = 86;

/// Whether a resolver run asked for a tooling restart: it exited with
/// `TOOLING_RESTART_STATUS` and left the restart file behind.
pub fn tooling_restart_requested(code: Option<i32>, restart_file_exists: bool) -> (r: bool)
    ensures
        r == (code == Some(TOOLING_RESTART_STATUS) && restart_file_exists),
{
    match code {
        Some(c) => c == TOOLING_RESTART_STATUS && restart_file_exists,
        None => false,
    }
}

/// `-e` before each expression.
pub open spec fn expression_args(expressions: Seq<Seq<char>>) -> Seq<Seq<char>>
    decreases expressions.len(),
{
    if expressions.len() == 0 {
        Seq::empty()
    } else {
        expression_args(expressions.drop_last()) + seq!["-e"@, expressions.last()]
    }
}

/// The arguments Rscript gets for a run: the Rscript options, then the
/// program (a script path, `-e` before each expression, or `-` for
/// standard input), then the program's own arguments.
pub open spec fn run_command_args(
    source: crate::cli::RunSourceView,
    rscript_args: Seq<Seq<char>>,
    script_args: Seq<Seq<char>>,
) -> Seq<Seq<char>> {
    rscript_args + match source {
        crate::cli::RunSourceView::Script(p) => seq![p],
        crate::cli::RunSourceView::Expressions(es) => expression_args(es),
        crate::cli::RunSourceView::Stdin => seq!["-"@],
    } + script_args
}

fn push_text(v: &mut Vec<String>, t: &str)
    ensures
        views(final(v)@) == views(old(v)@).push(t@),
{
    let ghost before = views(v@);
    v.push(String::from_str(t));
    assert(views(v@) =~= before.push(t@));
}

fn push_all(v: &mut Vec<String>, more: &[String])
    ensures
        views(final(v)@) == views(old(v)@) + views(more@),
{
    let ghost start = views(v@);
    let mut i: usize = 0;
    while i < more.len()
        invariant
            i <= more@.len(),
            views(v@) == start + views(more@.take(i as int)),
        decreases more@.len() - i,
    {
        push_text(v, more[i].as_str());
        assert(views(more@.take(i + 1)) =~= views(more@.take(i as int)).push(more@[i as int]@));
        i += 1;
    }
    assert(more@.take(more@.len() as int) =~= more@);
}

/// The Rscript arguments that run `source`.
pub fn rscript_run_args(
    source: &crate::cli::RunSource,
    rscript_args: &[String],
    script_args: &[String],
) -> (r: Vec<String>)
    ensures
        views(r@) == run_command_args(source@, views(rscript_args@), views(script_args@)),
{
    let mut r: Vec<String> = Vec::new();
    assert(views(r@) =~= Seq::<Seq<char>>::empty());
    push_all(&mut r, rscript_args);
    let ghost head = views(r@);
    match source {
        crate::cli::RunSource::Script(p) => {
            push_text(&mut r, p.as_str());
        },
        crate::cli::RunSource::Expressions(es) => {
            let mut i: usize = 0;
            while i < es.len()
                invariant
                    i <= es@.len(),
                    views(r@) == head + expression_args(views(es@.take(i as int))),
                decreases es@.len() - i,
            {
                assert(views(es@.take(i + 1)).drop_last() =~= views(es@.take(i as int)));
                assert(views(es@.take(i + 1)).last() == es@[i as int]@);
                push_text(&mut r, "-e");
                push_text(&mut r, es[i].as_str());
                assert(views(r@) =~= head + expression_args(views(es@.take(i + 1))));
                i += 1;
            }
            assert(es@.take(es@.len() as int) =~= es@);
        },
        crate::cli::RunSource::Stdin => {
            push_text(&mut r, "-");
        },
    }
    push_all(&mut r, script_args);
    r
}

/// A change to the resolver's environment.
pub enum EnvChange {
    SetVar(String, String),
    RemoveVar(String),
}

pub open spec fn change_view(c: EnvChange) -> (bool, Seq<char>, Seq<char>) {
    match c {
        EnvChange::SetVar(n, v) => (true, n@, v@),
        EnvChange::RemoveVar(n) => (false, n@, Seq::empty()),
    }
}

pub open spec fn set_var(name: Seq<char>, value: Seq<char>) -> (bool, Seq<char>, Seq<char>) {
    (true, name, value)
}

pub open spec fn remove_var(name: Seq<char>) -> (bool, Seq<char>, Seq<char>) {
    (false, name, Seq::empty())
}

pub open spec fn set_some(name: Seq<char>, value: Option<Seq<char>>) -> Seq<(bool, Seq<char>, Seq<char>)> {
    match value {
        Some(v) => seq![set_var(name, v)],
        None => Seq::empty(),
    }
}

/// The files and settings of the Python half of a resolver run.
pub struct PythonRun {
    pub result_file: String,
    pub packages_file: String,
    pub python_version: Option<String>,
    pub exclude_newer: Option<String>,
}

/// The files and settings of a resolver run.
pub struct ResolverRun {
    pub cache_dir: String,
    pub restart_file: String,
    pub safe_mode: bool,
    /// Whether the R library is resolved (not served from the cache).
    pub resolve_r: bool,
    pub result_file: Option<String>,
    pub marker: Option<String>,
    pub package_result_file: Option<String>,
    pub package_marker: Option<String>,
    pub exclude_newer: Option<String>,
    pub quarto_render: bool,
    pub python: Option<PythonRun>,
}

/// The variables a resolver run must not inherit from the caller: the run
/// itself decides each of them.
pub open spec fn resolver_owned_vars() -> Seq<Seq<char>> {
    seq![
        "IR_RESOLVE_RESULT_FILE"@,
        "IR_RESOLVE_PACKAGE_RESULT_FILE"@,
        "IR_RESOLUTION_MARKER"@,
        "IR_PRIMARY_PACKAGE_MARKER"@,
        "IR_QUARTO_RENDER"@,
        "IR_EXCLUDE_NEWER"@,
        "IR_PYTHON_RESULT_FILE"@,
        "IR_PYTHON_PACKAGES_FILE"@,
        "IR_PYTHON_VERSION"@,
        "IR_PYTHON_EXCLUDE_NEWER"@,
        "IR_TOOLING_RESTART_FILE"@,
        "IR_TOOLING_SAFE_MODE"@,
    ]
}

/// What every resolver run is told: the cache directory and progress
/// output, the inherited settings cleared, the restart file, and safe mode
/// where it is on.
pub open spec fn base_changes(cache_dir: Seq<char>, restart_file: Seq<char>, safe_mode: bool) -> Seq<
    (bool, Seq<char>, Seq<char>),
> {
    seq![set_var("IR_CACHE_DIR"@, cache_dir), set_var("R_PKG_SHOW_PROGRESS"@, "true"@)]
        + resolver_owned_vars().map_values(|n: Seq<char>| remove_var(n)) + seq![
        set_var("IR_TOOLING_RESTART_FILE"@, restart_file),
    ] + (if safe_mode {
        seq![set_var("IR_TOOLING_SAFE_MODE"@, "1"@)]
    } else {
        Seq::empty()
    })
}

/// What an R resolution is told: its result files and markers, the
/// snapshot date and whether a Quarto render needs rmarkdown.
pub open spec fn r_changes(run: ResolverRun) -> Seq<(bool, Seq<char>, Seq<char>)> {
    if run.resolve_r {
        set_some("IR_RESOLVE_RESULT_FILE"@, opt_view(run.result_file)) + set_some(
            "IR_RESOLUTION_MARKER"@,
            opt_view(run.marker),
        ) + (match run.package_result_file {
            Some(f) => seq![set_var("IR_RESOLVE_PACKAGE_RESULT_FILE"@, f@)] + set_some(
                "IR_PRIMARY_PACKAGE_MARKER"@,
                opt_view(run.package_marker),
            ),
            None => Seq::empty(),
        }) + set_some("IR_EXCLUDE_NEWER"@, opt_view(run.exclude_newer)) + (if run.quarto_render {
            seq![set_var("IR_QUARTO_RENDER"@, "1"@)]
        } else {
            Seq::empty()
        })
    } else {
        Seq::empty()
    }
}

/// What a Python resolution is told: its files, version and date, without
/// `PYTHONHOME`.
pub open spec fn python_changes(python: Option<PythonRun>) -> Seq<(bool, Seq<char>, Seq<char>)> {
    match python {
        Some(p) => seq![
            remove_var("PYTHONHOME"@),
            set_var("IR_PYTHON_RESULT_FILE"@, p.result_file@),
            set_var("IR_PYTHON_PACKAGES_FILE"@, p.packages_file@),
        ] + set_some("IR_PYTHON_VERSION"@, opt_view(p.python_version)) + set_some(
            "IR_PYTHON_EXCLUDE_NEWER"@,
            opt_view(p.exclude_newer),
        ),
        None => Seq::empty(),
    }
}

/// The environment changes for a resolver run, in order.
pub open spec fn resolver_env_changes(run: ResolverRun) -> Seq<(bool, Seq<char>, Seq<char>)> {
    base_changes(run.cache_dir@, run.restart_file@, run.safe_mode) + r_changes(run)
        + python_changes(run.python)
}

pub open spec fn changes_view(v: Seq<EnvChange>) -> Seq<(bool, Seq<char>, Seq<char>)> {
    v.map_values(|c: EnvChange| change_view(c))
}

pub(crate) fn set_change(v: &mut Vec<EnvChange>, name: &str, value: &str)
    ensures
        changes_view(final(v)@) == changes_view(old(v)@).push(set_var(name@, value@)),
{
    let ghost before = changes_view(v@);
    v.push(EnvChange::SetVar(String::from_str(name), String::from_str(value)));
    assert(changes_view(v@) =~= before.push(set_var(name@, value@)));
}

pub(crate) fn set_opt_change(v: &mut Vec<EnvChange>, name: &str, value: &Option<String>)
    ensures
        changes_view(final(v)@) == changes_view(old(v)@) + set_some(name@, opt_view(*value)),
{
    let ghost before = changes_view(v@);
    match value {
        Some(x) => {
            set_change(v, name, x.as_str());
            assert(changes_view(v@) =~= before + set_some(name@, opt_view(*value)));
        },
        None => {
            assert(before + set_some(name@, opt_view(*value)) =~= before);
        },
    }
}

fn remove_change(v: &mut Vec<EnvChange>, name: &str)
    ensures
        changes_view(final(v)@) == changes_view(old(v)@).push(remove_var(name@)),
{
    let ghost before = changes_view(v@);
    v.push(EnvChange::RemoveVar(String::from_str(name)));
    assert(changes_view(v@) =~= before.push(remove_var(name@)));
}

fn base_env(cache_dir: &str, restart_file: &str, safe_mode: bool) -> (r: Vec<EnvChange>)
    ensures
        changes_view(r@) == base_changes(cache_dir@, restart_file@, safe_mode),
{
    let mut v: Vec<EnvChange> = Vec::new();
    set_change(&mut v, "IR_CACHE_DIR", cache_dir);
    set_change(&mut v, "R_PKG_SHOW_PROGRESS", "true");
    remove_change(&mut v, "IR_RESOLVE_RESULT_FILE");
    remove_change(&mut v, "IR_RESOLVE_PACKAGE_RESULT_FILE");
    remove_change(&mut v, "IR_RESOLUTION_MARKER");
    remove_change(&mut v, "IR_PRIMARY_PACKAGE_MARKER");
    remove_change(&mut v, "IR_QUARTO_RENDER");
    remove_change(&mut v, "IR_EXCLUDE_NEWER");
    remove_change(&mut v, "IR_PYTHON_RESULT_FILE");
    remove_change(&mut v, "IR_PYTHON_PACKAGES_FILE");
    remove_change(&mut v, "IR_PYTHON_VERSION");
    remove_change(&mut v, "IR_PYTHON_EXCLUDE_NEWER");
    remove_change(&mut v, "IR_TOOLING_RESTART_FILE");
    remove_change(&mut v, "IR_TOOLING_SAFE_MODE");
    set_change(&mut v, "IR_TOOLING_RESTART_FILE", restart_file);
    if safe_mode {
        set_change(&mut v, "IR_TOOLING_SAFE_MODE", "1");
    }
    assert(changes_view(v@) =~= base_changes(cache_dir@, restart_file@, safe_mode));
    v
}

fn r_env(run: &ResolverRun) -> (r: Vec<EnvChange>)
    ensures
        changes_view(r@) == r_changes(*run),
{
    let mut v: Vec<EnvChange> = Vec::new();
    if run.resolve_r {
        set_opt_change(&mut v, "IR_RESOLVE_RESULT_FILE", &run.result_file);
        set_opt_change(&mut v, "IR_RESOLUTION_MARKER", &run.marker);
        let ghost mid = changes_view(v@);
        if let Some(f) = &run.package_result_file {
            set_change(&mut v, "IR_RESOLVE_PACKAGE_RESULT_FILE", f.as_str());
            set_opt_change(&mut v, "IR_PRIMARY_PACKAGE_MARKER", &run.package_marker);
        }
        assert(changes_view(v@) =~= mid + match run.package_result_file {
            Some(f) => seq![set_var("IR_RESOLVE_PACKAGE_RESULT_FILE"@, f@)] + set_some(
                "IR_PRIMARY_PACKAGE_MARKER"@,
                opt_view(run.package_marker),
            ),
            None => Seq::empty(),
        });
        set_opt_change(&mut v, "IR_EXCLUDE_NEWER", &run.exclude_newer);
        if run.quarto_render {
            set_change(&mut v, "IR_QUARTO_RENDER", "1");
        }
    }
    assert(changes_view(v@) =~= r_changes(*run));
    v
}

fn python_env(python: &Option<PythonRun>) -> (r: Vec<EnvChange>)
    ensures
        changes_view(r@) == python_changes(*python),
{
    let mut v: Vec<EnvChange> = Vec::new();
    if let Some(p) = python {
        remove_change(&mut v, "PYTHONHOME");
        set_change(&mut v, "IR_PYTHON_RESULT_FILE", p.result_file.as_str());
        set_change(&mut v, "IR_PYTHON_PACKAGES_FILE", p.packages_file.as_str());
        set_opt_change(&mut v, "IR_PYTHON_VERSION", &p.python_version);
        set_opt_change(&mut v, "IR_PYTHON_EXCLUDE_NEWER", &p.exclude_newer);
    }
    assert(changes_view(v@) =~= python_changes(*python));
    v
}

fn append_changes(v: &mut Vec<EnvChange>, more: Vec<EnvChange>)
    ensures
        changes_view(final(v)@) == changes_view(old(v)@) + changes_view(more@),
{
    let ghost start = v@;
    let mut more = more;
    let ghost m = more@;
    v.append(&mut more);
    assert(v@ == start + m);
    assert(changes_view(start + m) =~= changes_view(start) + changes_view(m));
}

/// The environment changes for the resolver run `run`.
pub fn resolver_env(run: &ResolverRun) -> (r: Vec<EnvChange>)
    ensures
        changes_view(r@) == resolver_env_changes(*run),
{
    let mut v = base_env(run.cache_dir.as_str(), run.restart_file.as_str(), run.safe_mode);
    append_changes(&mut v, r_env(run));
    append_changes(&mut v, python_env(&run.python));
    v
}

} // verus!
