//! Python environments for documents that use reticulate: which packages
//! they get, whether their resolution can be cached, and under which key.
use vstd::prelude::*;

use crate::digest::{newline_terminated, sha256_bytes, sha256_hex_of};
use crate::resolve_cache::{
    cache_source_text, marker_entry, marker_library, prefixed, resolution_cache_source,
    source_current, source_is_current, source_key, DEFAULT_LATEST_MAX_AGE_SECONDS,
};
use crate::rig::model::{clone_opt, opt_view};
use crate::rig::r_selection::opt_str_view;
use crate::text::{
    all_white, append_str, chars_of, contains_char, contains_text, eq_lit, has_char,
    has_substring, is_alnum, lit, lower, lowered, parse_u64_outcome, parse_u64_text,
    slice_vec, sort_texts, sorted_texts, starts_lit, starts_with, string_of, trim, trimmed,
    views, single_line, lemma_first_line_of_joined, decimal, lemma_parse_decimal,
    lemma_decimal_digits, is_digit,
};

verus! {

/// The `python` section of a document's frontmatter.
pub struct PythonSpec {
    pub packages: Vec<String>,
    pub python_version: Option<String>,
    pub exclude_newer: Option<String>,
    /// Whether the frontmatter set `exclude-newer` for Python itself.
    pub exclude_newer_explicit: bool,
}

/// A characters that ends the distribution name in a requirement.
pub open spec fn name_stop(c: char) -> bool {
    c == '<' || c == '>' || c == '=' || c == '~' || c == '!' || c == '[' || c == '@' || c == ';'
        || c == ' ' || c == '\t'
}

/// The length of the leading run of `s` without a stop character.
pub open spec fn name_end(s: Seq<char>) -> nat
    decreases s.len(),
{
    if s.len() == 0 || name_stop(s[0]) {
        0
    } else {
        1 + name_end(s.drop_first())
    }
}

proof fn lemma_name_end_at(s: Seq<char>, i: int)
    requires
        0 <= i <= s.len(),
        forall|k: int| 0 <= k < i ==> !name_stop(#[trigger] s[k]),
        i == s.len() || name_stop(s[i]),
    ensures
        name_end(s) == i,
    decreases i,
{
    if i > 0 {
        let t = s.drop_first();
        assert(!name_stop(s[0]));
        assert forall|k: int| 0 <= k < i - 1 implies !name_stop(#[trigger] t[k]) by {
            assert(t[k] == s[k + 1]);
        }
        if i < s.len() {
            assert(t[i - 1] == s[i]);
        }
        lemma_name_end_at(t, i - 1);
    }
}

/// The distribution a requirement names: the trimmed requirement up to its
/// first version operator, extra, marker or blank.
pub open spec fn py_package_name(package: Seq<char>) -> Seq<char> {
    let t = trim(package);
    t.take(name_end(t) as int)
}

/// The distribution name in the requirement `package`.
pub fn python_package_name(package: &str) -> (r: String)
    ensures
        r@ == py_package_name(package@),
{
    let t = trimmed(chars_of(package).as_slice());
    let mut i: usize = 0;
    while i < t.len()
        invariant
            i <= t@.len(),
            forall|k: int| 0 <= k < i ==> !name_stop(#[trigger] t@[k]),
        ensures
            i <= t@.len(),
            forall|k: int| 0 <= k < i ==> !name_stop(#[trigger] t@[k]),
            i == t@.len() || name_stop(t@[i as int]),
        decreases t@.len() - i,
    {
        let c = t[i];
        if c == '<' || c == '>' || c == '=' || c == '~' || c == '!' || c == '[' || c == '@' || c
            == ';' || c == ' ' || c == '\t' {
            break;
        }
        i += 1;
    }
    proof {
        lemma_name_end_at(t@, i as int);
    }
    let name = slice_vec(t.as_slice(), 0, i);
    assert(name@ =~= t@.take(i as int));
    string_of(name.as_slice())
}

/// A distribution name as PyPI writes them: ASCII letters and digits, with
/// `-`, `_` and `.` inside.
pub open spec fn distribution_name(name: Seq<char>) -> bool {
    &&& name.len() > 0
    &&& is_alnum(name[0])
    &&& is_alnum(name.last())
    &&& forall|i: int|
        0 <= i < name.len() ==> is_alnum(#[trigger] name[i]) || name[i] == '-' || name[i] == '_'
            || name[i] == '.'
}

/// Whether `name` is a plain distribution name.
pub fn python_distribution_name(name: &str) -> (r: bool)
    ensures
        r == distribution_name(name@),
{
    let n = chars_of(name);
    if n.len() == 0 {
        return false;
    }
    let mut i: usize = 0;
    while i < n.len()
        invariant
            n@ == name@,
            i <= n@.len(),
            forall|k: int|
                0 <= k < i ==> is_alnum(#[trigger] n@[k]) || n@[k] == '-' || n@[k] == '_' || n@[k]
                    == '.',
        decreases n@.len() - i,
    {
        let c = n[i];
        if !(crate::text::char_is_alnum(c) || c == '-' || c == '_' || c == '.') {
            assert(!(is_alnum(n@[i as int]) || n@[i as int] == '-' || n@[i as int] == '_'
                || n@[i as int] == '.'));
            return false;
        }
        i += 1;
    }
    assert(n@.last() == n@[n@.len() - 1]);
    crate::text::char_is_alnum(n[0]) && crate::text::char_is_alnum(n[n.len() - 1])
}

/// A requirement that names a local path, a URL or an editable install.
pub open spec fn local_or_remote_spec(t: Seq<char>) -> bool {
    let l = lower(t);
    ||| t[0] == '.' || t[0] == '/' || t[0] == '~' || t[0] == '\\'
    ||| contains_char(t, '/')
    ||| contains_char(t, '\\')
    ||| contains_text(t, "://"@)
    ||| starts_with(l, "-e "@)
    ||| l == "-e"@
    ||| starts_with(l, "--editable"@)
    ||| starts_with(l, "file:"@)
    ||| starts_with(l, "git+"@)
    ||| starts_with(l, "hg+"@)
    ||| starts_with(l, "svn+"@)
    ||| starts_with(l, "bzr+"@)
}

/// A requirement whose resolution depends on the package index alone, so
/// that it can be cached.
pub open spec fn spec_cacheable(package: Seq<char>) -> bool {
    let t = trim(package);
    t.len() > 0 && !local_or_remote_spec(t) && distribution_name(py_package_name(t))
}

/// Whether the requirement `package` can take part in a cached resolution.
pub fn python_package_spec_cacheable(package: &str) -> (r: bool)
    ensures
        r == spec_cacheable(package@),
{
    let t = trimmed(chars_of(package).as_slice());
    if t.len() == 0 {
        return false;
    }
    let l = lowered(t.as_slice());
    let c = t[0];
    if c == '.' || c == '/' || c == '~' || c == '\\' || has_char(t.as_slice(), '/') || has_char(
        t.as_slice(),
        '\\',
    ) || has_substring(t.as_slice(), chars_of("://").as_slice()) || starts_lit(
        l.as_slice(),
        "-e ",
    ) || eq_lit(l.as_slice(), "-e") || starts_lit(l.as_slice(), "--editable") || starts_lit(
        l.as_slice(),
        "file:",
    ) || starts_lit(l.as_slice(), "git+") || starts_lit(l.as_slice(), "hg+") || starts_lit(
        l.as_slice(),
        "svn+",
    ) || starts_lit(l.as_slice(), "bzr+") {
        return false;
    }
    let ts = string_of(t.as_slice());
    let name = python_package_name(ts.as_str());
    python_distribution_name(name.as_str())
}

/// The packages of a Python environment: those asked for, and `jupyter`
/// for renders unless a requirement already names it.
pub open spec fn packages_with_jupyter(packages: Seq<Seq<char>>, include_jupyter: bool) -> Seq<
    Seq<char>,
> {
    if include_jupyter && !(exists|i: int|
        0 <= i < packages.len() && #[trigger] py_package_name(packages[i]) == "jupyter"@) {
        packages.push("jupyter"@)
    } else {
        packages
    }
}

/// The packages to install for `python`.
pub fn python_packages(python: &PythonSpec, include_jupyter: bool) -> (r: Vec<String>)
    ensures
        views(r@) == packages_with_jupyter(views(python.packages@), include_jupyter),
{
    let mut packages: Vec<String> = Vec::new();
    let mut named = false;
    let mut i: usize = 0;
    while i < python.packages.len()
        invariant
            i <= python.packages@.len(),
            views(packages@) == views(python.packages@.take(i as int)),
            named == exists|k: int|
                0 <= k < i && #[trigger] py_package_name(views(python.packages@)[k]) == "jupyter"@,
        decreases python.packages@.len() - i,
    {
        let p = python.packages[i].clone();
        assert(views(python.packages@)[i as int] == p@);
        let name = python_package_name(p.as_str());
        if eq_lit(chars_of(name.as_str()).as_slice(), "jupyter") {
            assert(py_package_name(views(python.packages@)[i as int]) == "jupyter"@);
            named = true;
        }
        let ghost before = packages@;
        packages.push(p);
        assert(views(packages@) =~= views(before).push(p@));
        assert(views(python.packages@.take(i + 1)) =~= views(python.packages@.take(i as int)).push(p@));
        i += 1;
    }
    assert(python.packages@.take(python.packages@.len() as int) =~= python.packages@);
    if include_jupyter && !named {
        let ghost before = packages@;
        let j = lit("jupyter");
        packages.push(j);
        assert(views(packages@) =~= views(before).push("jupyter"@));
    }
    packages
}

/// The line that records which Python the environment asks for.
pub open spec fn version_field(python_version: Option<Seq<char>>) -> Seq<char> {
    match python_version {
        Some(v) => "python-version: "@ + v,
        None => "python-version: default"@,
    }
}

/// The fields a Python environment is keyed by: its packages in sorted
/// order, the Python version, the package source and the uv settings.
pub open spec fn python_fields(
    packages: Seq<Seq<char>>,
    python_version: Option<Seq<char>>,
    exclude_newer: Option<Seq<char>>,
    uv_config_parts: Seq<Seq<char>>,
) -> Seq<Seq<char>> {
    sorted_texts(packages) + seq![version_field(python_version), source_key(exclude_newer)]
        + uv_config_parts
}

/// The key of a Python environment: the hex SHA-256 of its fields, one per
/// line.
pub open spec fn python_key(
    packages: Seq<Seq<char>>,
    python_version: Option<Seq<char>>,
    exclude_newer: Option<Seq<char>>,
    uv_config_parts: Seq<Seq<char>>,
) -> Seq<char> {
    sha256_hex_of(
        newline_terminated(python_fields(packages, python_version, exclude_newer, uv_config_parts)),
    )
}

/// The key a Python environment with these inputs is filed under.
pub fn cache_key(
    packages: &[String],
    python_version: Option<&str>,
    exclude_newer: Option<&str>,
    uv_config_parts: &[String],
) -> (r: String)
    ensures
        r@ == python_key(
            views(packages@),
            opt_str_view(python_version),
            opt_str_view(exclude_newer),
            views(uv_config_parts@),
        ),
        r@.len() == 64,
{
    let mut parts = sort_texts(packages);
    let ghost f0 = views(parts@);
    let version = match python_version {
        Some(v) => prefixed("python-version: ", v),
        None => lit("python-version: default"),
    };
    assert(version@ == version_field(opt_str_view(python_version)));
    let ghost p0 = parts@;
    parts.push(version);
    assert(views(parts@) =~= views(p0).push(version@));
    let source = match exclude_newer {
        Some(date) => prefixed("exclude-newer: ", date),
        None => lit("latest"),
    };
    assert(source@ == source_key(opt_str_view(exclude_newer)));
    let ghost p1 = parts@;
    parts.push(source);
    assert(views(parts@) =~= views(p1).push(source@));
    assert(views(parts@) =~= f0 + seq![
        version_field(opt_str_view(python_version)),
        source_key(opt_str_view(exclude_newer)),
    ]);
    let ghost f1 = views(parts@);
    let mut i: usize = 0;
    while i < uv_config_parts.len()
        invariant
            i <= uv_config_parts@.len(),
            views(parts@) == f1 + views(uv_config_parts@.take(i as int)),
        decreases uv_config_parts@.len() - i,
    {
        let c = uv_config_parts[i].clone();
        let ghost p2 = parts@;
        parts.push(c);
        assert(views(parts@) =~= views(p2).push(c@));
        assert(views(uv_config_parts@.take(i + 1)) =~= views(uv_config_parts@.take(i as int)).push(
            c@,
        ));
        assert(views(parts@) =~= f1 + views(uv_config_parts@.take(i + 1)));
        i += 1;
    }
    assert(uv_config_parts@.take(uv_config_parts@.len() as int) =~= uv_config_parts@);
    let text = crate::digest::newline_terminated_text(parts.as_slice());
    crate::digest::sha256_hex(text.as_str())
}

/// The source line for a Python marker written at `now`.
pub fn cache_source(exclude_newer: Option<&str>, now: u64) -> (r: String)
    ensures
        r@ == cache_source_text(opt_str_view(exclude_newer), now as nat),
{
    resolution_cache_source(exclude_newer, now)
}

/// The age limit of latest Python markers, from the setting `value` of
/// `IR_LATEST_RESOLUTION_MAX_AGE_SECONDS`, trimmed (absent or blank: one
/// day).
pub open spec fn python_max_age_outcome(value: Option<Seq<char>>) -> Result<nat, Seq<char>> {
    match value {
        None => Ok(DEFAULT_LATEST_MAX_AGE_SECONDS as nat),
        Some(v) => if trim(v).len() == 0 {
            Ok(DEFAULT_LATEST_MAX_AGE_SECONDS as nat)
        } else {
            match parse_u64_outcome(trim(v)) {
                Ok(n) => Ok(n),
                Err(_) => Err("IR_LATEST_RESOLUTION_MAX_AGE_SECONDS must be an integer"@),
            }
        },
    }
}

/// The age limit of latest Python markers given the setting `value`.
pub fn latest_max_age_seconds(value: Option<&str>) -> (r: Result<u64, String>)
    ensures
        match python_max_age_outcome(opt_str_view(value)) {
            Ok(n) => r matches Ok(m) && m == n,
            Err(e) => r matches Err(m) && m@ == e,
        },
{
    match value {
        None => Ok(DEFAULT_LATEST_MAX_AGE_SECONDS),
        Some(v) => {
            let t = trimmed(chars_of(v).as_slice());
            if t.len() == 0 {
                return Ok(DEFAULT_LATEST_MAX_AGE_SECONDS);
            }
            match parse_u64_text(t.as_slice()) {
                Ok(n) => Ok(n),
                Err(_) => Err(lit("IR_LATEST_RESOLUTION_MAX_AGE_SECONDS must be an integer")),
            }
        },
    }
}

/// Whether an environment variable steers uv or reticulate's use of it.
pub open spec fn resolver_env_name(name: Option<Seq<char>>) -> bool {
    name matches Some(n) && (starts_with(n, "UV_"@) || n == "RETICULATE_UV"@)
}

/// Whether the variable `name` (where it is valid UTF-8) steers the Python
/// resolver.
pub fn python_resolver_env_var(name: Option<&str>) -> (r: bool)
    ensures
        r == resolver_env_name(opt_str_view(name)),
{
    match name {
        Some(n) => {
            let c = chars_of(n);
            starts_lit(c.as_slice(), "UV_") || eq_lit(c.as_slice(), "RETICULATE_UV")
        },
        None => false,
    }
}

/// Whether a cached environment can be trusted under the environment
/// `vars`, each a name (where valid UTF-8) and whether its value is empty:
/// no variable that steers the resolver is set to a value.
pub fn python_resolver_env_cacheable(vars: &[(Option<String>, bool)]) -> (r: bool)
    ensures
        r == forall|i: int|
            0 <= i < vars@.len() ==> #[trigger] vars@[i].1 || !resolver_env_name(
                opt_view(vars@[i].0),
            ),
{
    let mut i: usize = 0;
    while i < vars.len()
        invariant
            i <= vars@.len(),
            forall|k: int|
                0 <= k < i ==> #[trigger] vars@[k].1 || !resolver_env_name(opt_view(vars@[k].0)),
        decreases vars@.len() - i,
    {
        let (name, empty) = &vars[i];
        let steers = match name {
            Some(n) => python_resolver_env_var(Some(n.as_str())),
            None => false,
        };
        if !*empty && steers {
            return false;
        }
        i += 1;
    }
    true
}

/// The two key fields a uv configuration file adds: its path and the
/// SHA-256 of its contents.
pub open spec fn uv_config_fields(scope: Seq<char>, path: Seq<char>, contents: Seq<u8>) -> Seq<
    Seq<char>,
> {
    seq![
        "uv-config-"@ + scope + "-path: "@ + path,
        "uv-config-"@ + scope + "-sha256: "@ + crate::digest::hex(crate::digest::sha256_of(contents)),
    ]
}

/// The key fields for the uv configuration file of `scope` at `path`.
pub fn uv_config_parts(scope: &str, path: &str, contents: &[u8]) -> (r: Vec<String>)
    ensures
        views(r@) == uv_config_fields(scope@, path@, contents@),
{
    let mut a: Vec<char> = Vec::new();
    append_str(&mut a, "uv-config-");
    append_str(&mut a, scope);
    append_str(&mut a, "-path: ");
    append_str(&mut a, path);
    let mut b: Vec<char> = Vec::new();
    append_str(&mut b, "uv-config-");
    append_str(&mut b, scope);
    append_str(&mut b, "-sha256: ");
    let digest = sha256_bytes(contents);
    append_str(&mut b, digest.as_str());
    let mut r: Vec<String> = Vec::new();
    r.push(string_of(a.as_slice()));
    r.push(string_of(b.as_slice()));
    assert(views(r@) =~= uv_config_fields(scope@, path@, contents@));
    r
}

/// What looking for one uv configuration file found.
pub enum UvConfigRead {
    /// No file there (nothing, or something that is not a file).
    Absent,
    /// A file that could not be inspected or read.
    Unreadable,
    /// The file of `scope` at `path`, and its bytes.
    Read { scope: String, path: String, contents: Vec<u8> },
}

/// The key fields of the uv configuration files found, in order; none
/// where one of them could not be read, which leaves the environment
/// uncached.
pub open spec fn uv_key_fields(files: Seq<UvConfigRead>) -> Option<Seq<Seq<char>>>
    decreases files.len(),
{
    if files.len() == 0 {
        Some(Seq::empty())
    } else {
        match uv_key_fields(files.drop_last()) {
            None => None,
            Some(p) => match files.last() {
                UvConfigRead::Absent => Some(p),
                UvConfigRead::Unreadable => None,
                UvConfigRead::Read { scope, path, contents } => Some(
                    p + uv_config_fields(scope@, path@, contents@),
                ),
            },
        }
    }
}

/// The key fields of the uv configuration files `files`.
pub fn uv_config_key_parts(files: &[UvConfigRead]) -> (r: Option<Vec<String>>)
    ensures
        match uv_key_fields(files@) {
            Some(p) => r matches Some(v) && views(v@) == p,
            None => r is None,
        },
{
    let mut parts: Vec<String> = Vec::new();
    let mut i: usize = 0;
    while i < files.len()
        invariant
            i <= files@.len(),
            uv_key_fields(files@.take(i as int)) == Some(views(parts@)),
        decreases files@.len() - i,
    {
        assert(files@.take(i + 1).drop_last() =~= files@.take(i as int));
        assert(files@.take(i + 1).last() == files@[i as int]);
        match &files[i] {
            UvConfigRead::Absent => {},
            UvConfigRead::Unreadable => {
                proof {
                    lemma_uv_key_fields_none(files@, i as int + 1);
                }
                return None;
            },
            UvConfigRead::Read { scope, path, contents } => {
                let more = uv_config_parts(scope.as_str(), path.as_str(), contents.as_slice());
                let ghost before = views(parts@);
                let mut k: usize = 0;
                while k < more.len()
                    invariant
                        k <= more@.len(),
                        views(parts@) == before + views(more@).take(k as int),
                    decreases more@.len() - k,
                {
                    let ghost b = views(parts@);
                    parts.push(more[k].clone());
                    assert(views(parts@) =~= b.push(more@[k as int]@));
                    assert(views(more@).take(k + 1) =~= views(more@).take(k as int).push(
                        more@[k as int]@,
                    ));
                    k += 1;
                }
                assert(views(more@).take(more@.len() as int) =~= views(more@));
            },
        }
        i += 1;
    }
    assert(files@.take(files@.len() as int) =~= files@);
    Some(parts)
}

proof fn lemma_uv_key_fields_none(files: Seq<UvConfigRead>, n: int)
    requires
        1 <= n <= files.len(),
        files[n - 1] is Unreadable,
    ensures
        uv_key_fields(files) is None,
    decreases files.len(),
{
    if n < files.len() {
        lemma_uv_key_fields_none(files.drop_last(), n);
        assert(files.drop_last()[n - 1] == files[n - 1]);
    } else {
        assert(files.last() == files[n - 1]);
    }
}

/// What resolving a Python environment asks for, and where its marker goes
/// (a file name under `python/` of the cache directory).
pub struct EnvRequest {
    pub packages: Vec<String>,
    pub python_version: Option<String>,
    pub exclude_newer: Option<String>,
    pub marker_name: Option<String>,
    pub source: String,
    pub latest_max_age_seconds: Option<u64>,
}

/// Whether every requirement can be cached.
pub fn all_cacheable(packages: &[String]) -> (r: bool)
    ensures
        r == forall|i: int|
            0 <= i < views(packages@).len() ==> spec_cacheable(#[trigger] views(packages@)[i]),
{
    let mut i: usize = 0;
    while i < packages.len()
        invariant
            i <= packages@.len(),
            forall|k: int| 0 <= k < i ==> spec_cacheable(#[trigger] views(packages@)[k]),
        decreases packages@.len() - i,
    {
        assert(views(packages@)[i as int] == packages@[i as int]@);
        if !python_package_spec_cacheable(packages[i].as_str()) {
            return false;
        }
        i += 1;
    }
    true
}

fn opt_as_str(o: &Option<String>) -> (r: Option<&str>)
    ensures
        opt_str_view(r) == opt_view(*o),
{
    match o {
        Some(s) => Some(s.as_str()),
        None => None,
    }
}

/// The request for a document's Python environment, or none where it has
/// no `python` section. `max_age_setting` is the value of
/// `IR_LATEST_RESOLUTION_MAX_AGE_SECONDS` (read only without a snapshot
/// date), `uv_config_parts` the key fields of the uv configuration files
/// (none where one could not be read), and `resolver_env_cacheable` whether
/// no variable steers the resolver. The marker is kept only where every
/// requirement, the environment and the uv configuration allow caching.
pub fn request(
    python: Option<&PythonSpec>,
    include_jupyter: bool,
    max_age_setting: Option<&str>,
    now: u64,
    uv_config_parts: Option<&[String]>,
    resolver_env_cacheable: bool,
) -> (r: Result<Option<EnvRequest>, String>)
    ensures
        python is None ==> r matches Ok(None),
        python matches Some(py) ==> {
            let packages = packages_with_jupyter(views(py.packages@), include_jupyter);
            match (py.exclude_newer, python_max_age_outcome(opt_str_view(max_age_setting))) {
                (None, Err(e)) => r matches Err(m) && m@ == e,
                _ => r matches Ok(Some(q)) && {
                    &&& views(q.packages@) == packages
                    &&& opt_view(q.python_version) == opt_view(py.python_version)
                    &&& opt_view(q.exclude_newer) == opt_view(py.exclude_newer)
                    &&& q.source@ == cache_source_text(opt_view(py.exclude_newer), now as nat)
                    &&& q.latest_max_age_seconds == (match py.exclude_newer {
                        None => Some(
                            python_max_age_outcome(opt_str_view(max_age_setting))->Ok_0 as u64,
                        ),
                        Some(_) => None::<u64>,
                    })
                    &&& (q.marker_name is Some <==> (forall|i: int|
                        0 <= i < packages.len() ==> spec_cacheable(#[trigger] packages[i]))
                        && resolver_env_cacheable && uv_config_parts is Some)
                    &&& (q.marker_name matches Some(m) ==> m@ == python_key(
                        packages,
                        opt_view(py.python_version),
                        opt_view(py.exclude_newer),
                        views(uv_config_parts->Some_0@),
                    ))
                },
            }
        },
{
    let py = match python {
        Some(py) => py,
        None => {
            return Ok(None);
        },
    };
    let packages = python_packages(py, include_jupyter);
    let latest_max_age = match &py.exclude_newer {
        None => match latest_max_age_seconds(max_age_setting) {
            Ok(n) => Some(n),
            Err(e) => {
                return Err(e);
            },
        },
        Some(_) => None,
    };
    let source = cache_source(opt_as_str(&py.exclude_newer), now);
    let cacheable = all_cacheable(packages.as_slice());
    let marker_name = if cacheable && resolver_env_cacheable {
        match uv_config_parts {
            Some(parts) => Some(
                cache_key(
                    packages.as_slice(),
                    opt_as_str(&py.python_version),
                    opt_as_str(&py.exclude_newer),
                    parts,
                ),
            ),
            None => None,
        }
    } else {
        None
    };
    Ok(
        Some(
            EnvRequest {
                packages,
                python_version: clone_opt(&py.python_version),
                exclude_newer: clone_opt(&py.exclude_newer),
                marker_name,
                source,
                latest_max_age_seconds: latest_max_age,
            },
        ),
    )
}

/// The Python interpreter a marker records, where it is current for
/// `request` at `now`. Whether the interpreter still exists is the
/// caller's to check.
pub fn cached_python(marker: &str, request: &EnvRequest, now: u64) -> (r: Option<String>)
    ensures
        crate::resolve_cache::opt_view_string(r) == marker_library(
            marker@,
            request.source@,
            request.latest_max_age_seconds,
            now as nat,
        ),
{
    marker_entry(marker, request.source.as_str(), request.latest_max_age_seconds, now)
}

/// The text of a marker recording `entry` for the source line `source`.
pub open spec fn marker_text(source: Seq<char>, entry: Seq<char>) -> Seq<char> {
    source + seq!['\n'] + entry + seq!['\n']
}

/// The text of a Python marker: the source line, then the interpreter.
pub fn marker_contents(source: &str, python: &str) -> (r: String)
    ensures
        r@ == marker_text(source@, python@),
{
    let mut v: Vec<char> = chars_of(source);
    v.push('\n');
    append_str(&mut v, python);
    v.push('\n');
    string_of(v.as_slice())
}

/// The hex SHA-256 of `parts`, each followed by a newline.
pub fn sha256_fields(parts: &[String]) -> (r: String)
    ensures
        r@ == sha256_hex_of(newline_terminated(views(parts@))),
        r@.len() == 64,
{
    let text = crate::digest::newline_terminated_text(parts);
    crate::digest::sha256_hex(text.as_str())
}

/// The user uv configuration file: under `XDG_CONFIG_HOME`, else under
/// `HOME`'s `.config` (on Windows, under `APPDATA`); none where the
/// variable is unset or empty.
pub open spec fn user_uv_plan(
    platform: crate::paths::Platform,
    xdg_config_home: Option<Seq<char>>,
    home: Option<Seq<char>>,
    app_data: Option<Seq<char>>,
) -> Option<(Seq<char>, Seq<Seq<char>>)> {
    if platform == crate::paths::Platform::Windows {
        match app_data {
            Some(a) => Some((a, seq!["uv"@, "uv.toml"@])),
            None => None,
        }
    } else if xdg_config_home is Some {
        Some((xdg_config_home->Some_0, seq!["uv"@, "uv.toml"@]))
    } else {
        match home {
            Some(h) => Some((h, seq![".config"@, "uv"@, "uv.toml"@])),
            None => None,
        }
    }
}

/// Where the user uv configuration file is looked for, given the
/// non-empty values of `XDG_CONFIG_HOME`, `HOME` and `APPDATA`.
pub fn user_uv_config_file(
    platform: crate::paths::Platform,
    xdg_config_home: Option<&str>,
    home: Option<&str>,
    app_data: Option<&str>,
) -> (r: Option<crate::paths::PathPlan>)
    ensures
        match user_uv_plan(
            platform,
            opt_str_view(xdg_config_home),
            opt_str_view(home),
            opt_str_view(app_data),
        ) {
            Some(p) => r matches Some(x) && crate::runtime::plan_parts(x) == p && !x.parent,
            None => r is None,
        },
{
    let (base, parts): (&str, &[&str]) = match platform {
        crate::paths::Platform::Windows => match app_data {
            Some(a) => (a, &["uv", "uv.toml"]),
            None => {
                return None;
            },
        },
        _ => match xdg_config_home {
            Some(x) => (x, &["uv", "uv.toml"]),
            None => match home {
                Some(h) => (h, &[".config", "uv", "uv.toml"]),
                None => {
                    return None;
                },
            },
        },
    };
    let p = crate::paths::plan(base, false, parts);
    assert(views(p.parts@) =~= p.parts@.map_values(|s: String| s@));
    assert(parts@.map_values(|s: &str| s@) =~= user_uv_plan(
        platform,
        opt_str_view(xdg_config_home),
        opt_str_view(home),
        opt_str_view(app_data),
    )->Some_0.1);
    Some(p)
}


/// Reading a marker back gives what was written: for a one-line source and
/// a one-line entry without surrounding blanks, the entry comes back
/// exactly when the source is current.
pub proof fn lemma_marker_read_back(
    source: Seq<char>,
    entry: Seq<char>,
    expected: Seq<char>,
    latest_max_age_seconds: Option<u64>,
    now: nat,
)
    requires
        single_line(source),
        single_line(entry),
        entry.len() > 0,
        trim(entry) == entry,
    ensures
        marker_library(marker_text(source, entry), expected, latest_max_age_seconds, now) == (if source_current(
            source,
            expected,
            latest_max_age_seconds,
            now,
        ) {
            Some(entry)
        } else {
            None
        }),
{
    lemma_first_line_of_joined(source, entry + seq!['\n']);
    assert(source + seq!['\n'] + (entry + seq!['\n']) =~= marker_text(source, entry));
    lemma_first_line_of_joined(entry, Seq::empty());
    assert(entry + seq!['\n'] + Seq::<char>::empty() =~= entry + seq!['\n']);
}

/// A latest marker written at `written` is current at `now` exactly when
/// it is not from the future and at most `max_age` seconds old.
pub proof fn lemma_latest_marker_current(written: u64, expected: Seq<char>, max_age: u64, now: nat)
    ensures
        source_current(cache_source_text(None, written as nat), expected, Some(max_age), now) <==> (
        written <= now && now - written <= max_age),
{
    let s = cache_source_text(None, written as nat);
    reveal_strlit("latest: ");
    assert(s.take(8) =~= "latest: "@);
    assert(s.skip(8) =~= decimal(written as nat));
    lemma_parse_decimal(written as nat);
}

/// A marker written for a snapshot date is current whenever the same date
/// is asked for, at any time.
pub proof fn lemma_dated_marker_current(date: Seq<char>, written: nat, read: nat, now: nat)
    ensures
        source_current(cache_source_text(Some(date), written), cache_source_text(Some(date), read), None, now),
{
}

/// The source lines this crate writes fit on one line, where the date does.
pub proof fn lemma_source_single_line(exclude_newer: Option<Seq<char>>, now: nat)
    requires
        exclude_newer matches Some(d) ==> single_line(d),
    ensures
        single_line(cache_source_text(exclude_newer, now)),
{
    reveal_strlit("latest: ");
    reveal_strlit("exclude-newer: ");
    let s = cache_source_text(exclude_newer, now);
    match exclude_newer {
        Some(d) => {
            assert forall|i: int| 0 <= i < s.len() implies s[i] != '\n' && s[i] != '\r' by {
                if i >= 15 {
                    assert(s[i] == d[i - 15]);
                }
            }
        },
        None => {
            lemma_decimal_digits(now);
            let d = decimal(now);
            assert forall|i: int| 0 <= i < s.len() implies s[i] != '\n' && s[i] != '\r' by {
                if i >= 8 {
                    assert(s[i] == d[i - 8]);
                    assert(is_digit(d[i - 8]));
                }
            }
        },
    }
}

/// What a request reads back of the marker written for it: an interpreter
/// recorded with the request's own source is found again at the time the
/// request was made, for a latest resolution as for a dated one.
pub proof fn lemma_request_marker_read_back(
    exclude_newer: Option<Seq<char>>,
    max_age: u64,
    now: u64,
    python: Seq<char>,
)
    requires
        exclude_newer matches Some(d) ==> single_line(d),
        single_line(python),
        python.len() > 0,
        trim(python) == python,
    ensures
        ({
            let source = cache_source_text(exclude_newer, now as nat);
            let limit = match exclude_newer {
                None => Some(max_age),
                Some(_) => None::<u64>,
            };
            marker_library(marker_text(source, python), source, limit, now as nat) == Some(python)
        }),
{
    let source = cache_source_text(exclude_newer, now as nat);
    lemma_source_single_line(exclude_newer, now as nat);
    let limit = match exclude_newer {
        None => Some(max_age),
        Some(_) => None::<u64>,
    };
    lemma_marker_read_back(source, python, source, limit, now as nat);
    if exclude_newer is None {
        lemma_latest_marker_current(now, source, max_age, now as nat);
    }
}


/// The order packages are listed in does not change a Python environment's
/// key: two lists holding the same requirements share one environment.
pub proof fn lemma_python_key_ignores_package_order(
    packages_a: Seq<Seq<char>>,
    packages_b: Seq<Seq<char>>,
    python_version: Option<Seq<char>>,
    exclude_newer: Option<Seq<char>>,
    uv_config_parts: Seq<Seq<char>>,
)
    requires
        packages_a.to_multiset() == packages_b.to_multiset(),
    ensures
        python_key(packages_a, python_version, exclude_newer, uv_config_parts) == python_key(
            packages_b,
            python_version,
            exclude_newer,
            uv_config_parts,
        ),
{
    crate::text::lemma_sorted_texts_ignore_order(packages_a, packages_b);
}

} // verus!
