//! Argument parsing for `ir run`, `ir render`, `ir tool run` / `rx` and
//! `ir tool install`.
//!
//! Each command scans its leading arguments one at a time; `ir`'s own
//! options are consumed, and the scan stops at the first positional
//! argument. Everything after that is handed on untouched.
use vstd::prelude::*;

use crate::paths::{kind_of_extension, extension_of, source_kind, SourceKind};
use crate::text::{
    char_is_alnum, char_is_alpha, char_is_white, chars_of, chars_of_all, contains_char,
    eq_lit, extend_chars, is_alnum, is_alpha, is_white, slice_vec, split_chars, split_on,
    starts_lit, starts_with, string_of, strings_of_all, strip_lit, trim, trimmed, views,
};

verus! {

// ---------------------------------------------------------------------------
// `--with` values
// ---------------------------------------------------------------------------

/// The non-blank, trimmed pieces of a list of pieces, in order.
pub open spec fn nonblank_trimmed(pieces: Seq<Seq<char>>) -> Seq<Seq<char>>
    decreases pieces.len(),
{
    if pieces.len() == 0 {
        Seq::empty()
    } else {
        let r = nonblank_trimmed(pieces.drop_last());
        let t = trim(pieces.last());
        if t.len() > 0 {
            r.push(t)
        } else {
            r
        }
    }
}

/// The dependency specs in a `--with` value: its comma-separated entries,
/// trimmed, blank ones dropped.
pub open spec fn with_deps_of(value: Seq<char>) -> Seq<Seq<char>> {
    nonblank_trimmed(split_on(value, ','))
}

/// A dependency spec that a `--with` value gives back as itself: not
/// empty, no comma, no whitespace at either end.
pub open spec fn single_with_entry(d: Seq<char>) -> bool {
    &&& d.len() > 0
    &&& !is_white(d[0])
    &&& !is_white(d.last())
    &&& !contains_char(d, ',')
}

pub proof fn lemma_single_with_entry(d: Seq<char>)
    requires
        single_with_entry(d),
    ensures
        with_deps_of(d) == seq![d],
{
    crate::text::lemma_split_on_absent(d, ',');
    crate::text::lemma_trim_plain(d);
    assert(seq![d].drop_last() =~= Seq::<Seq<char>>::empty());
    assert(nonblank_trimmed(Seq::<Seq<char>>::empty()) == Seq::<Seq<char>>::empty());
    assert(Seq::<Seq<char>>::empty().push(d) =~= seq![d]);
}

fn push_with_deps_chars(with_deps: &mut Vec<Vec<char>>, value: &[char])
    ensures
        views_of(final(with_deps)@) == views_of(old(with_deps)@) + with_deps_of(value@),
{
    let pieces = split_chars(value, ',');
    let ghost sp = split_on(value@, ',');
    let mut i: usize = 0;
    assert(sp.take(0) =~= Seq::<Seq<char>>::empty());
    while i < pieces.len()
        invariant
            i <= pieces@.len(),
            sp == split_on(value@, ','),
            pieces@.len() == sp.len(),
            forall|j: int| 0 <= j < pieces@.len() ==> #[trigger] pieces@[j]@ == sp[j],
            views_of(with_deps@) == views_of(old(with_deps)@) + nonblank_trimmed(
                sp.take(i as int),
            ),
        decreases pieces@.len() - i,
    {
        let dep = trimmed(&pieces[i]);
        assert(sp.take(i + 1).drop_last() =~= sp.take(i as int));
        if dep.len() > 0 {
            let ghost before = with_deps@;
            with_deps.push(dep);
            assert(views_of(with_deps@) =~= views_of(before).push(dep@));
        }
        i += 1;
    }
    assert(sp.take(sp.len() as int) =~= sp);
}

/// Appends the dependency specs of a `--with` value (one spec or a
/// comma-separated list) to `with_deps`; blank entries are ignored.
pub fn push_with_deps(with_deps: &mut Vec<String>, value: &str)
    ensures
        views(final(with_deps)@) == views(old(with_deps)@) + with_deps_of(value@),
{
    let mut deps: Vec<Vec<char>> = Vec::new();
    push_with_deps_chars(&mut deps, &chars_of(value));
    let mut i: usize = 0;
    let ghost start = with_deps@;
    assert(views_of(deps@) == with_deps_of(value@));
    while i < deps.len()
        invariant
            i <= deps@.len(),
            views(with_deps@) == views(start) + views_of(deps@).take(i as int),
            views_of(deps@) == with_deps_of(value@),
            start == old(with_deps)@,
        decreases deps@.len() - i,
    {
        let ghost before = with_deps@;
        with_deps.push(string_of(&deps[i]));
        assert(views(with_deps@) =~= views(before).push(deps@[i as int]@));
        assert(views_of(deps@).take(i + 1) =~= views_of(deps@).take(i as int).push(
            deps@[i as int]@,
        ));
        i += 1;
    }
    assert(views_of(deps@).take(deps@.len() as int) =~= views_of(deps@));
}

/// The views of a list of character lists.
pub open spec fn views_of(v: Seq<Vec<char>>) -> Seq<Seq<char>> {
    v.map_values(|c: Vec<char>| c@)
}

// ---------------------------------------------------------------------------
// Package names
// ---------------------------------------------------------------------------

/// An R package name as `ir` accepts one here: an ASCII letter, then ASCII
/// letters, digits and dots, not ending in a dot.
pub open spec fn r_package_name(s: Seq<char>) -> bool {
    &&& s.len() > 0
    &&& is_alpha(s[0])
    &&& s.last() != '.'
    &&& forall|i: int| 1 <= i < s.len() ==> is_alnum(#[trigger] s[i]) || s[i] == '.'
}

pub(crate) fn r_package_name_chars(s: &[char]) -> (r: bool)
    ensures
        r == r_package_name(s@),
{
    if s.len() == 0 {
        return false;
    }
    if !char_is_alpha(s[0]) || s[s.len() - 1] == '.' {
        return false;
    }
    let mut i: usize = 1;
    while i < s.len()
        invariant
            1 <= i <= s@.len(),
            forall|j: int| 1 <= j < i ==> is_alnum(#[trigger] s@[j]) || s@[j] == '.',
        decreases s@.len() - i,
    {
        if !(char_is_alnum(s[i]) || s[i] == '.') {
            return false;
        }
        i += 1;
    }
    true
}

/// Whether `name` is an R package name.
pub fn is_r_package_name(name: &str) -> (r: bool)
    ensures
        r == r_package_name(name@),
{
    r_package_name_chars(&chars_of(name))
}

/// A name a package executable can be run by: not empty, no path
/// separator, no colon, no whitespace.
pub open spec fn executable_name(s: Seq<char>) -> bool {
    &&& s.len() > 0
    &&& forall|i: int|
        0 <= i < s.len() ==> #[trigger] s[i] != '/' && s[i] != '\\' && s[i] != ':' && !is_white(
            s[i],
        )
}

pub(crate) fn executable_name_chars(s: &[char]) -> (r: bool)
    ensures
        r == executable_name(s@),
{
    if s.len() == 0 {
        return false;
    }
    let mut i: usize = 0;
    while i < s.len()
        invariant
            i <= s@.len(),
            forall|j: int|
                0 <= j < i ==> #[trigger] s@[j] != '/' && s@[j] != '\\' && s@[j] != ':'
                    && !is_white(s@[j]),
        decreases s@.len() - i,
    {
        let c = s[i];
        if c == '/' || c == '\\' || c == ':' || char_is_white(c) {
            return false;
        }
        i += 1;
    }
    true
}

/// Whether `name` can name a package executable.
pub fn is_package_executable_name(name: &str) -> (r: bool)
    ensures
        r == executable_name(name@),
{
    executable_name_chars(&chars_of(name))
}

/// Characters that end the package name in a package ref.
pub open spec fn ref_stop(c: char) -> bool {
    c == '@' || c == '<' || c == '>' || c == '=' || c == '!' || c == ' '
}

/// The characters of `s` before the first `ref_stop` character.
pub open spec fn ref_head_len(s: Seq<char>) -> int
    decreases s.len(),
{
    if s.len() == 0 {
        0
    } else if ref_stop(s[0]) {
        0
    } else {
        1 + ref_head_len(s.drop_first())
    }
}

/// The package a ref names itself after, when that head is an R package
/// name (`cli@3.6` names `cli`).
pub open spec fn self_named(s: Seq<char>) -> Option<Seq<char>> {
    let name = s.take(ref_head_len(s));
    if r_package_name(name) {
        Some(name)
    } else {
        None
    }
}

proof fn lemma_ref_head_len(s: Seq<char>)
    ensures
        0 <= ref_head_len(s) <= s.len(),
        forall|i: int| 0 <= i < ref_head_len(s) ==> !ref_stop(#[trigger] s[i]),
        ref_head_len(s) < s.len() ==> ref_stop(s[ref_head_len(s)]),
    decreases s.len(),
{
    if s.len() > 0 && !ref_stop(s[0]) {
        lemma_ref_head_len(s.drop_first());
        assert forall|i: int| 0 <= i < ref_head_len(s) implies !ref_stop(#[trigger] s[i]) by {
            if i > 0 {
                assert(s[i] == s.drop_first()[i - 1]);
            }
        }
    }
}

pub(crate) fn infer_self_named_chars(s: &[char]) -> (r: Option<Vec<char>>)
    ensures
        r matches Some(n) ==> self_named(s@) == Some(n@),
        r is None ==> self_named(s@) is None,
{
    let mut end: usize = 0;
    assert(s@.skip(0) =~= s@);
    while end < s.len() && !(s[end] == '@' || s[end] == '<' || s[end] == '>' || s[end] == '='
        || s[end] == '!' || s[end] == ' ')
        invariant
            end <= s@.len(),
            ref_head_len(s@) == end + ref_head_len(s@.skip(end as int)),
        decreases s@.len() - end,
    {
        assert(s@.skip(end as int).drop_first() =~= s@.skip(end + 1));
        end += 1;
    }
    let name = slice_vec(s, 0, end);
    assert(name@ =~= s@.take(ref_head_len(s@)));
    if r_package_name_chars(&name) {
        Some(name)
    } else {
        None
    }
}

/// The executable a package ref names itself after: the ref up to the first
/// `@`, `<`, `>`, `=`, `!` or space, when that is an R package name.
pub fn infer_self_named_executable(package_ref: &str) -> (r: Option<String>)
    ensures
        r matches Some(n) ==> self_named(package_ref@) == Some(n@),
        r is None ==> self_named(package_ref@) is None,
{
    match infer_self_named_chars(&chars_of(package_ref)) {
        Some(n) => Some(string_of(&n)),
        None => None,
    }
}

// ---------------------------------------------------------------------------
// The scan of leading arguments
// ---------------------------------------------------------------------------

/// What a scan of leading arguments has collected.
pub struct Scan {
    pub rscript_args: Seq<Seq<char>>,
    pub with_deps: Seq<Seq<char>>,
    pub r_requirement: Option<Seq<char>>,
    pub expressions: Seq<Seq<char>>,
    pub isolated: bool,
    pub vanilla: bool,
    pub from: Option<Seq<char>>,
    pub bin_dir: Option<Seq<char>>,
    pub force: bool,
}

pub open spec fn empty_scan() -> Scan {
    Scan {
        rscript_args: Seq::empty(),
        with_deps: Seq::empty(),
        r_requirement: None,
        expressions: Seq::empty(),
        isolated: false,
        vanilla: false,
        from: None,
        bin_dir: None,
        force: false,
    }
}

/// How a scan ends: what it collected, the positional argument it stopped
/// at (if any), and the index of the first argument after it.
pub type ScanEnd = (Scan, Option<Seq<char>>, int);

pub open spec fn with_more_deps(st: Scan, value: Seq<char>) -> Scan {
    Scan { with_deps: st.with_deps + with_deps_of(value), ..st }
}

pub open spec fn with_requirement(st: Scan, value: Seq<char>) -> Scan {
    Scan { r_requirement: Some(value), ..st }
}

// Messages of `ir run`.
pub open spec fn run_expr_missing() -> Seq<char> {
    "`-e` requires an expression (try `ir run -e '1 + 1'`)"@
}

pub open spec fn from_only_tool_run() -> Seq<char> {
    "`--from` is only supported by `ir tool run`"@
}

pub open spec fn run_with_missing() -> Seq<char> {
    "`--with` requires a package (try `ir run --with dplyr script.R`)"@
}

pub open spec fn run_version_missing() -> Seq<char> {
    "`--r-version` requires a version spec (try `ir run --r-version 4.5 script.R`)"@
}

pub open spec fn run_source_missing() -> Seq<char> {
    "`ir run` requires a script path or -e expression (try `ir run script.R`)"@
}

/// The scan of `ir run` from argument `i` on.
pub open spec fn run_scan(a: Seq<Seq<char>>, i: int, st: Scan) -> Result<ScanEnd, Seq<char>>
    decreases a.len() - i,
{
    if i < 0 || i >= a.len() {
        Ok((st, None, a.len() as int))
    } else {
        let arg = a[i];
        if st.expressions.len() > 0 && arg != "-e"@ && arg != "--expr"@ && !starts_with(
            arg,
            "--expr="@,
        ) {
            Ok((st, Some(arg), i + 1))
        } else if arg == "-e"@ || arg == "--expr"@ {
            if i + 1 >= a.len() {
                Err(run_expr_missing())
            } else {
                run_scan(a, i + 2, Scan { expressions: st.expressions.push(a[i + 1]), ..st })
            }
        } else if starts_with(arg, "--expr="@) {
            run_scan(
                a,
                i + 1,
                Scan { expressions: st.expressions.push(arg.skip("--expr="@.len() as int)), ..st },
            )
        } else if arg == "--from"@ || starts_with(arg, "--from="@) {
            Err(from_only_tool_run())
        } else if arg == "--with"@ {
            if i + 1 >= a.len() {
                Err(run_with_missing())
            } else {
                run_scan(a, i + 2, with_more_deps(st, a[i + 1]))
            }
        } else if starts_with(arg, "--with="@) {
            run_scan(a, i + 1, with_more_deps(st, arg.skip("--with="@.len() as int)))
        } else if arg == "--r-version"@ {
            if i + 1 >= a.len() {
                Err(run_version_missing())
            } else {
                run_scan(a, i + 2, with_requirement(st, a[i + 1]))
            }
        } else if starts_with(arg, "--r-version="@) {
            run_scan(a, i + 1, with_requirement(st, arg.skip("--r-version="@.len() as int)))
        } else if arg == "--isolated"@ {
            run_scan(a, i + 1, Scan { isolated: true, ..st })
        } else if arg == "-"@ {
            Ok((st, Some(arg), i + 1))
        } else if starts_with(arg, "-"@) {
            run_scan(a, i + 1, Scan { rscript_args: st.rscript_args.push(arg), ..st })
        } else {
            Ok((st, Some(arg), i + 1))
        }
    }
}

/// Where the user's program comes from.
pub enum RunSource {
    /// A script path, as given.
    Script(String),
    Expressions(Vec<String>),
    Stdin,
}

pub enum RunSourceView {
    Script(Seq<char>),
    Expressions(Seq<Seq<char>>),
    Stdin,
}

impl View for RunSource {
    type V = RunSourceView;

    open spec fn view(&self) -> RunSourceView {
        match self {
            RunSource::Script(p) => RunSourceView::Script(p@),
            RunSource::Expressions(e) => RunSourceView::Expressions(views(e@)),
            RunSource::Stdin => RunSourceView::Stdin,
        }
    }
}

/// The arguments of `ir run`.
pub struct RunArgs {
    pub rscript_args: Vec<String>,
    pub with_deps: Vec<String>,
    pub r_requirement: Option<String>,
    pub source: RunSource,
    pub script_args: Vec<String>,
    pub isolated: bool,
}

pub struct RunArgsView {
    pub rscript_args: Seq<Seq<char>>,
    pub with_deps: Seq<Seq<char>>,
    pub r_requirement: Option<Seq<char>>,
    pub source: RunSourceView,
    pub script_args: Seq<Seq<char>>,
    pub isolated: bool,
}

pub open spec fn opt_seq_view(o: Option<String>) -> Option<Seq<char>> {
    match o {
        Some(s) => Some(s@),
        None => None,
    }
}

impl View for RunArgs {
    type V = RunArgsView;

    open spec fn view(&self) -> RunArgsView {
        RunArgsView {
            rscript_args: views(self.rscript_args@),
            with_deps: views(self.with_deps@),
            r_requirement: opt_seq_view(self.r_requirement),
            source: self.source@,
            script_args: views(self.script_args@),
            isolated: self.isolated,
        }
    }
}

/// What `ir run` makes of its arguments: the Rscript options, `--with`
/// specs, `--r-version` and `--isolated` before the source; then the source
/// (a script path, `-` for stdin, or the `-e` expressions) and the
/// program's own arguments. With `-e`, the first non-option argument and
/// everything after it are program arguments.
pub open spec fn run_args_of(a: Seq<Seq<char>>) -> Result<RunArgsView, Seq<char>> {
    match run_scan(a, 0, empty_scan()) {
        Err(e) => Err(e),
        Ok((st, pos, rest)) => {
            let tail = a.skip(rest);
            if st.expressions.len() == 0 {
                match pos {
                    None => Err(run_source_missing()),
                    Some(s) => Ok(
                        RunArgsView {
                            rscript_args: st.rscript_args,
                            with_deps: st.with_deps,
                            r_requirement: st.r_requirement,
                            source: if s == "-"@ {
                                RunSourceView::Stdin
                            } else {
                                RunSourceView::Script(s)
                            },
                            script_args: tail,
                            isolated: st.isolated,
                        },
                    ),
                }
            } else {
                Ok(
                    RunArgsView {
                        rscript_args: st.rscript_args,
                        with_deps: st.with_deps,
                        r_requirement: st.r_requirement,
                        source: RunSourceView::Expressions(st.expressions),
                        script_args: match pos {
                            Some(p) => seq![p] + tail,
                            None => tail,
                        },
                        isolated: st.isolated,
                    },
                )
            }
        },
    }
}

/// The executable state of a scan.
struct ScanState {
    rscript_args: Vec<Vec<char>>,
    with_deps: Vec<Vec<char>>,
    r_requirement: Option<Vec<char>>,
    expressions: Vec<Vec<char>>,
    isolated: bool,
    vanilla: bool,
    from: Option<Vec<char>>,
    bin_dir: Option<Vec<char>>,
    force: bool,
}

spec fn opt_chars_view(o: Option<Vec<char>>) -> Option<Seq<char>> {
    match o {
        Some(v) => Some(v@),
        None => None,
    }
}

spec fn state_view(s: ScanState) -> Scan {
    Scan {
        rscript_args: views_of(s.rscript_args@),
        with_deps: views_of(s.with_deps@),
        r_requirement: opt_chars_view(s.r_requirement),
        expressions: views_of(s.expressions@),
        isolated: s.isolated,
        vanilla: s.vanilla,
        from: opt_chars_view(s.from),
        bin_dir: opt_chars_view(s.bin_dir),
        force: s.force,
    }
}

fn new_state() -> (s: ScanState)
    ensures
        state_view(s) == empty_scan(),
{
    let s = ScanState {
        rscript_args: Vec::new(),
        with_deps: Vec::new(),
        r_requirement: None,
        expressions: Vec::new(),
        isolated: false,
        vanilla: false,
        from: None,
        bin_dir: None,
        force: false,
    };
    assert(views_of(s.rscript_args@) =~= Seq::empty());
    assert(views_of(s.with_deps@) =~= Seq::empty());
    assert(views_of(s.expressions@) =~= Seq::empty());
    s
}

fn copy_chars(v: &Vec<char>) -> (r: Vec<char>)
    ensures
        r@ == v@,
{
    slice_vec(v, 0, v.len())
}

fn push_view(v: &mut Vec<Vec<char>>, x: Vec<char>)
    ensures
        views_of(final(v)@) == views_of(old(v)@).push(x@),
{
    v.push(x);
    assert(views_of(v@) =~= views_of(old(v)@).push(x@));
}

fn strings_view_eq(v: &Vec<Vec<char>>) -> (r: Vec<String>)
    ensures
        views(r@) == views_of(v@),
{
    let r = strings_of_all(v.as_slice());
    assert(views(r@) =~= views_of(v@));
    r
}

fn opt_string(o: Option<Vec<char>>) -> (r: Option<String>)
    ensures
        opt_seq_view(r) == opt_chars_view(o),
{
    match o {
        Some(v) => Some(string_of(&v)),
        None => None,
    }
}

fn tail_strings(a: &Vec<Vec<char>>, from: usize) -> (r: Vec<String>)
    requires
        from <= a@.len(),
    ensures
        views(r@) == views_of(a@).skip(from as int),
{
    let mut r: Vec<String> = Vec::new();
    let mut i = from;
    while i < a.len()
        invariant
            from <= i <= a@.len(),
            views(r@) == views_of(a@).subrange(from as int, i as int),
        decreases a@.len() - i,
    {
        let ghost before = r@;
        r.push(string_of(&a[i]));
        assert(views(r@) =~= views(before).push(a@[i as int]@));
        assert(views_of(a@).subrange(from as int, i + 1) =~= views_of(a@).subrange(
            from as int,
            i as int,
        ).push(a@[i as int]@));
        i += 1;
    }
    assert(views_of(a@).subrange(from as int, a@.len() as int) =~= views_of(a@).skip(
        from as int,
    ));
    r
}

fn lit_string(lit: &str) -> (r: String)
    ensures
        r@ == lit@,
{
    String::from_str(lit)
}

/// Parses the arguments of `ir run` (those after `run`). A script source is
/// returned as given; `RunSource::from_script_arg` checks it.
pub fn parse_run_args(args: Vec<String>) -> (r: Result<RunArgs, String>)
    ensures
        match run_args_of(views(args@)) {
            Ok(v) => r is Ok && r->Ok_0@ == v,
            Err(e) => r is Err && r->Err_0@ == e,
        },
{
    let a = chars_of_all(args.as_slice());
    let ghost av = views(args@);
    assert(views_of(a@) =~= av);
    let mut st = new_state();
    let mut i: usize = 0;
    let mut positional: Option<Vec<char>> = None;
    let mut stopped = false;
    while i < a.len() && !stopped
        invariant
            av == views_of(a@),
            av == views(args@),
            i <= a@.len(),
            !stopped ==> run_scan(av, 0, empty_scan()) == run_scan(av, i as int, state_view(st)),
            !stopped ==> positional is None,
            stopped ==> run_scan(av, 0, empty_scan()) == Ok::<ScanEnd, Seq<char>>(
                (state_view(st), opt_chars_view(positional), i as int),
            ),
        decreases a@.len() - i,
    {
        let arg = &a[i];
        assert(arg@ == av[i as int]);
        if st.expressions.len() > 0 && !eq_lit(arg, "-e") && !eq_lit(arg, "--expr") && !starts_lit(
            arg,
            "--expr=",
        ) {
            positional = Some(copy_chars(arg));
            stopped = true;
            i += 1;
        } else if eq_lit(arg, "-e") || eq_lit(arg, "--expr") {
            if i + 1 >= a.len() {
                return Err(lit_string("`-e` requires an expression (try `ir run -e '1 + 1'`)"));
            }
            assert(a@[i + 1]@ == av[i + 1]);
            push_view(&mut st.expressions, copy_chars(&a[i + 1]));
            i += 2;
        } else if let Some(expr) = strip_lit(arg, "--expr=") {
            push_view(&mut st.expressions, expr);
            i += 1;
        } else if eq_lit(arg, "--from") || starts_lit(arg, "--from=") {
            return Err(lit_string("`--from` is only supported by `ir tool run`"));
        } else if eq_lit(arg, "--with") {
            if i + 1 >= a.len() {
                return Err(
                    lit_string("`--with` requires a package (try `ir run --with dplyr script.R`)"),
                );
            }
            assert(a@[i + 1]@ == av[i + 1]);
            push_with_deps_chars(&mut st.with_deps, &a[i + 1]);
            i += 2;
        } else if let Some(value) = strip_lit(arg, "--with=") {
            push_with_deps_chars(&mut st.with_deps, &value);
            i += 1;
        } else if eq_lit(arg, "--r-version") {
            if i + 1 >= a.len() {
                return Err(
                    lit_string(
                        "`--r-version` requires a version spec (try `ir run --r-version 4.5 script.R`)",
                    ),
                );
            }
            assert(a@[i + 1]@ == av[i + 1]);
            st.r_requirement = Some(copy_chars(&a[i + 1]));
            i += 2;
        } else if let Some(value) = strip_lit(arg, "--r-version=") {
            st.r_requirement = Some(value);
            i += 1;
        } else if eq_lit(arg, "--isolated") {
            st.isolated = true;
            i += 1;
        } else if eq_lit(arg, "-") {
            positional = Some(copy_chars(arg));
            stopped = true;
            i += 1;
        } else if starts_lit(arg, "-") {
            push_view(&mut st.rscript_args, copy_chars(arg));
            i += 1;
        } else {
            positional = Some(copy_chars(arg));
            stopped = true;
            i += 1;
        }
    }
    assert(run_scan(av, 0, empty_scan()) == Ok::<ScanEnd, Seq<char>>(
        (state_view(st), opt_chars_view(positional), i as int),
    ));
    let script_args = tail_strings(&a, i);
    let ghost sv = state_view(st);
    let ScanState { rscript_args, with_deps, r_requirement, expressions, isolated, .. } = st;
    let rscript_args = strings_view_eq(&rscript_args);
    let with_deps = strings_view_eq(&with_deps);
    let r_requirement = opt_string(r_requirement);
    if expressions.len() == 0 {
        let script = match positional {
            Some(p) => p,
            None => {
                return Err(
                    lit_string(
                        "`ir run` requires a script path or -e expression (try `ir run script.R`)",
                    ),
                );
            },
        };
        let source = if eq_lit(&script, "-") {
            RunSource::Stdin
        } else {
            RunSource::Script(string_of(&script))
        };
        let r = RunArgs { rscript_args, with_deps, r_requirement, source, script_args, isolated };
        assert(sv.expressions.len() == 0);
        assert(r@.source == (if script@ == "-"@ {
            RunSourceView::Stdin
        } else {
            RunSourceView::Script(script@)
        }));
        assert(r@.script_args == av.skip(i as int));
        assert(r@.rscript_args == sv.rscript_args);
        assert(r@.with_deps == sv.with_deps);
        assert(r@.r_requirement == sv.r_requirement);
        assert(r@.isolated == sv.isolated);
        Ok(r)
    } else {
        let expressions = strings_view_eq(&expressions);
        let mut program_args: Vec<String> = Vec::new();
        match positional {
            Some(p) => {
                program_args.push(string_of(&p));
            },
            None => {},
        }
        let ghost head = views(program_args@);
        let mut script_args = script_args;
        program_args.append(&mut script_args);
        assert(views(program_args@) =~= head + views_of(a@).skip(i as int));
        let r = RunArgs {
            rscript_args,
            with_deps,
            r_requirement,
            source: RunSource::Expressions(expressions),
            script_args: program_args,
            isolated,
        };
        assert(r@.script_args == match opt_chars_view(positional) {
            Some(p) => seq![p] + av.skip(i as int),
            None => av.skip(i as int),
        });
        assert(r@.source == RunSourceView::Expressions(sv.expressions));
        Ok(r)
    }
}


pub open spec fn quarto_run_error() -> Seq<char> {
    "`ir run` does not render Quarto sources; use `ir render <source>`"@
}

impl RunSource {
    /// The source a script argument names: stdin for `-`; otherwise the
    /// path, which must be readable (`metadata_error` is the reason it is
    /// not) and must not be a Quarto document (by its extension on
    /// `platform`).
    pub fn from_script_arg(
        script: String,
        metadata_error: Option<String>,
        platform: crate::paths::Platform,
    ) -> (r: Result<
        RunSource,
        String,
    >)
        ensures
            script@ == "-"@ ==> r is Ok && r->Ok_0@ == RunSourceView::Stdin,
            script@ != "-"@ && metadata_error is Some ==> r is Err && r->Err_0@ == "cannot read script `"@
                + script@ + "`: "@ + metadata_error.unwrap()@,
            script@ != "-"@ && metadata_error is None ==> match kind_of_extension(
                extension_of(script@, platform),
            ) {
                SourceKind::QuartoMarkdown | SourceKind::RMarkdown => r is Err && r->Err_0@
                    == quarto_run_error(),
                _ => r is Ok && r->Ok_0@ == RunSourceView::Script(script@),
            },
    {
        let sv = chars_of(script.as_str());
        if eq_lit(&sv, "-") {
            return Ok(RunSource::Stdin);
        }
        if let Some(e) = metadata_error {
            let mut m = chars_of("cannot read script `");
            extend_chars(&mut m, &sv);
            extend_chars(&mut m, &chars_of("`: "));
            extend_chars(&mut m, &chars_of(e.as_str()));
            return Err(string_of(&m));
        }
        match source_kind(script.as_str(), platform) {
            SourceKind::QuartoMarkdown | SourceKind::RMarkdown => Err(
                lit_string("`ir run` does not render Quarto sources; use `ir render <source>`"),
            ),
            _ => Ok(RunSource::Script(script)),
        }
    }
}

// ---------------------------------------------------------------------------
// `ir render`
// ---------------------------------------------------------------------------

pub open spec fn render_with_missing() -> Seq<char> {
    "`--with` requires a package (try `ir render --with dplyr report.qmd`)"@
}

pub open spec fn render_version_missing() -> Seq<char> {
    "`--r-version` requires a version spec (try `ir render --r-version 4.5 report.qmd`)"@
}

pub open spec fn render_unexpected(arg: Seq<char>) -> Seq<char> {
    "unexpected option `"@ + arg + "` before render source"@
}

/// The scan of `ir render` from argument `i` on.
pub open spec fn render_scan(a: Seq<Seq<char>>, i: int, st: Scan) -> Result<ScanEnd, Seq<char>>
    decreases a.len() - i,
{
    if i < 0 || i >= a.len() {
        Ok((st, None, a.len() as int))
    } else {
        let arg = a[i];
        if arg == "-e"@ || arg == "--expr"@ || starts_with(arg, "--expr="@) {
            Err("`-e` is only supported by `ir run`"@)
        } else if arg == "--from"@ || starts_with(arg, "--from="@) {
            Err(from_only_tool_run())
        } else if arg == "--with"@ {
            if i + 1 >= a.len() {
                Err(render_with_missing())
            } else {
                render_scan(a, i + 2, with_more_deps(st, a[i + 1]))
            }
        } else if starts_with(arg, "--with="@) {
            render_scan(a, i + 1, with_more_deps(st, arg.skip("--with="@.len() as int)))
        } else if arg == "--r-version"@ {
            if i + 1 >= a.len() {
                Err(render_version_missing())
            } else {
                render_scan(a, i + 2, with_requirement(st, a[i + 1]))
            }
        } else if starts_with(arg, "--r-version="@) {
            render_scan(a, i + 1, with_requirement(st, arg.skip("--r-version="@.len() as int)))
        } else if arg == "--isolated"@ {
            render_scan(a, i + 1, Scan { isolated: true, ..st })
        } else if arg == "--vanilla"@ {
            render_scan(a, i + 1, Scan { vanilla: true, ..st })
        } else if arg == "-"@ {
            Err("`ir render` requires a source path, not stdin"@)
        } else if starts_with(arg, "-"@) {
            Err(render_unexpected(arg))
        } else {
            Ok((st, Some(arg), i + 1))
        }
    }
}

/// The arguments of `ir render`.
pub struct RenderArgs {
    pub with_deps: Vec<String>,
    pub r_requirement: Option<String>,
    /// The source path, as given.
    pub source: String,
    pub render_args: Vec<String>,
    pub isolated: bool,
    pub vanilla: bool,
}

pub struct RenderArgsView {
    pub with_deps: Seq<Seq<char>>,
    pub r_requirement: Option<Seq<char>>,
    pub source: Seq<char>,
    pub render_args: Seq<Seq<char>>,
    pub isolated: bool,
    pub vanilla: bool,
}

impl View for RenderArgs {
    type V = RenderArgsView;

    open spec fn view(&self) -> RenderArgsView {
        RenderArgsView {
            with_deps: views(self.with_deps@),
            r_requirement: opt_seq_view(self.r_requirement),
            source: self.source@,
            render_args: views(self.render_args@),
            isolated: self.isolated,
            vanilla: self.vanilla,
        }
    }
}

/// What `ir render` makes of its arguments: options, then the source, then
/// the arguments for `quarto render`.
pub open spec fn render_args_of(a: Seq<Seq<char>>) -> Result<RenderArgsView, Seq<char>> {
    match render_scan(a, 0, empty_scan()) {
        Err(e) => Err(e),
        Ok((st, pos, rest)) => match pos {
            None => Err("`ir render` requires a source path (try `ir render report.qmd`)"@),
            Some(s) => Ok(
                RenderArgsView {
                    with_deps: st.with_deps,
                    r_requirement: st.r_requirement,
                    source: s,
                    render_args: a.skip(rest),
                    isolated: st.isolated,
                    vanilla: st.vanilla,
                },
            ),
        },
    }
}

/// Parses the arguments of `ir render` (those after `render`). The source
/// is returned as given; `render_source_check` checks it.
pub fn parse_render_args(args: Vec<String>) -> (r: Result<RenderArgs, String>)
    ensures
        match render_args_of(views(args@)) {
            Ok(v) => r is Ok && r->Ok_0@ == v,
            Err(e) => r is Err && r->Err_0@ == e,
        },
{
    let a = chars_of_all(args.as_slice());
    let ghost av = views(args@);
    assert(views_of(a@) =~= av);
    let mut st = new_state();
    let mut i: usize = 0;
    let mut positional: Option<Vec<char>> = None;
    let mut stopped = false;
    while i < a.len() && !stopped
        invariant
            av == views_of(a@),
            av == views(args@),
            i <= a@.len(),
            !stopped ==> render_scan(av, 0, empty_scan()) == render_scan(
                av,
                i as int,
                state_view(st),
            ),
            !stopped ==> positional is None,
            stopped ==> render_scan(av, 0, empty_scan()) == Ok::<ScanEnd, Seq<char>>(
                (state_view(st), opt_chars_view(positional), i as int),
            ),
        decreases a@.len() - i,
    {
        let arg = &a[i];
        assert(arg@ == av[i as int]);
        if eq_lit(arg, "-e") || eq_lit(arg, "--expr") || starts_lit(arg, "--expr=") {
            return Err(lit_string("`-e` is only supported by `ir run`"));
        } else if eq_lit(arg, "--from") || starts_lit(arg, "--from=") {
            return Err(lit_string("`--from` is only supported by `ir tool run`"));
        } else if eq_lit(arg, "--with") {
            if i + 1 >= a.len() {
                return Err(
                    lit_string(
                        "`--with` requires a package (try `ir render --with dplyr report.qmd`)",
                    ),
                );
            }
            assert(a@[i + 1]@ == av[i + 1]);
            push_with_deps_chars(&mut st.with_deps, &a[i + 1]);
            i += 2;
        } else if let Some(value) = strip_lit(arg, "--with=") {
            push_with_deps_chars(&mut st.with_deps, &value);
            i += 1;
        } else if eq_lit(arg, "--r-version") {
            if i + 1 >= a.len() {
                return Err(
                    lit_string(
                        "`--r-version` requires a version spec (try `ir render --r-version 4.5 report.qmd`)",
                    ),
                );
            }
            assert(a@[i + 1]@ == av[i + 1]);
            st.r_requirement = Some(copy_chars(&a[i + 1]));
            i += 2;
        } else if let Some(value) = strip_lit(arg, "--r-version=") {
            st.r_requirement = Some(value);
            i += 1;
        } else if eq_lit(arg, "--isolated") {
            st.isolated = true;
            i += 1;
        } else if eq_lit(arg, "--vanilla") {
            st.vanilla = true;
            i += 1;
        } else if eq_lit(arg, "-") {
            return Err(lit_string("`ir render` requires a source path, not stdin"));
        } else if starts_lit(arg, "-") {
            let mut m = chars_of("unexpected option `");
            extend_chars(&mut m, arg);
            extend_chars(&mut m, &chars_of("` before render source"));
            return Err(string_of(&m));
        } else {
            positional = Some(copy_chars(arg));
            stopped = true;
            i += 1;
        }
    }
    assert(render_scan(av, 0, empty_scan()) == Ok::<ScanEnd, Seq<char>>(
        (state_view(st), opt_chars_view(positional), i as int),
    ));
    let ghost sv = state_view(st);
    let render_args = tail_strings(&a, i);
    let source = match positional {
        Some(p) => p,
        None => {
            return Err(
                lit_string("`ir render` requires a source path (try `ir render report.qmd`)"),
            );
        },
    };
    let ScanState { with_deps, r_requirement, isolated, vanilla, .. } = st;
    let r = RenderArgs {
        with_deps: strings_view_eq(&with_deps),
        r_requirement: opt_string(r_requirement),
        source: string_of(&source),
        render_args,
        isolated,
        vanilla,
    };
    assert(r@.with_deps == sv.with_deps);
    assert(r@.r_requirement == sv.r_requirement);
    Ok(r)
}

/// Checks a render source: it must be readable (`metadata_error` is the
/// reason it is not).
pub fn render_source_check(source: &str, metadata_error: Option<String>) -> (r: Result<(), String>)
    ensures
        metadata_error is None ==> r is Ok,
        metadata_error matches Some(e) ==> r is Err && r->Err_0@ == "cannot read source `"@
            + source@ + "`: "@ + e@,
{
    match metadata_error {
        None => Ok(()),
        Some(e) => {
            let mut m = chars_of("cannot read source `");
            extend_chars(&mut m, &chars_of(source));
            extend_chars(&mut m, &chars_of("`: "));
            extend_chars(&mut m, &chars_of(e.as_str()));
            Err(string_of(&m))
        },
    }
}


// ---------------------------------------------------------------------------
// `ir tool run` and `rx`
// ---------------------------------------------------------------------------

#[derive(Clone, Copy, PartialEq, Eq, Structural)]
pub enum ToolRunInvocation {
    ToolRun,
    Rx,
}

pub open spec fn invocation_name(i: ToolRunInvocation) -> Seq<char> {
    match i {
        ToolRunInvocation::ToolRun => "ir tool run"@,
        ToolRunInvocation::Rx => "rx"@,
    }
}

impl ToolRunInvocation {
    /// The command the user typed, for messages.
    pub fn command(self) -> (r: &'static str)
        ensures
            r@ == invocation_name(self),
    {
        match self {
            ToolRunInvocation::ToolRun => "ir tool run",
            ToolRunInvocation::Rx => "rx",
        }
    }
}

pub open spec fn tool_from_missing(cmd: Seq<char>) -> Seq<char> {
    "`--from` requires a package ref (try `"@ + cmd + " --from cli cli`)"@
}

pub open spec fn tool_with_missing(cmd: Seq<char>, arg: Seq<char>) -> Seq<char> {
    seq!['`'] + arg + "` requires a package (try `"@ + cmd + seq![' '] + arg + " dplyr btw`)"@
}

pub open spec fn tool_version_missing(cmd: Seq<char>) -> Seq<char> {
    "`--r-version` requires a version spec (try `"@ + cmd + " --r-version 4.5 btw`)"@
}

pub open spec fn tool_expr_unsupported(cmd: Seq<char>) -> Seq<char> {
    "`-e` is not supported by `"@ + cmd + seq!['`']
}

/// The scan of `ir tool run` / `rx` from argument `i` on.
pub open spec fn tool_run_scan(a: Seq<Seq<char>>, i: int, st: Scan, cmd: Seq<char>) -> Result<
    ScanEnd,
    Seq<char>,
>
    decreases a.len() - i,
{
    if i < 0 || i >= a.len() {
        Ok((st, None, a.len() as int))
    } else {
        let arg = a[i];
        if arg == "--from"@ {
            if i + 1 >= a.len() {
                Err(tool_from_missing(cmd))
            } else {
                tool_run_scan(a, i + 2, Scan { from: Some(a[i + 1]), ..st }, cmd)
            }
        } else if starts_with(arg, "--from="@) {
            let v = arg.skip("--from="@.len() as int);
            if v.len() == 0 {
                Err("`--from` requires a package ref"@)
            } else {
                tool_run_scan(a, i + 1, Scan { from: Some(v), ..st }, cmd)
            }
        } else if arg == "--with"@ || arg == "-w"@ {
            if i + 1 >= a.len() {
                Err(tool_with_missing(cmd, arg))
            } else {
                tool_run_scan(a, i + 2, with_more_deps(st, a[i + 1]), cmd)
            }
        } else if starts_with(arg, "--with="@) {
            tool_run_scan(a, i + 1, with_more_deps(st, arg.skip("--with="@.len() as int)), cmd)
        } else if arg == "--r-version"@ {
            if i + 1 >= a.len() {
                Err(tool_version_missing(cmd))
            } else {
                tool_run_scan(a, i + 2, with_requirement(st, a[i + 1]), cmd)
            }
        } else if starts_with(arg, "--r-version="@) {
            tool_run_scan(
                a,
                i + 1,
                with_requirement(st, arg.skip("--r-version="@.len() as int)),
                cmd,
            )
        } else if arg == "--isolated"@ {
            tool_run_scan(a, i + 1, st, cmd)
        } else if arg == "-e"@ {
            Err(tool_expr_unsupported(cmd))
        } else if starts_with(arg, "-"@) {
            tool_run_scan(a, i + 1, Scan { rscript_args: st.rscript_args.push(arg), ..st }, cmd)
        } else {
            Ok((st, Some(arg), i + 1))
        }
    }
}

/// The package executable a tool run targets.
pub struct PackageExecTarget {
    pub package_ref: String,
    pub package_name: Option<String>,
    pub executable: String,
}

/// The arguments of `ir tool run` and `rx`.
pub struct ToolRunArgs {
    pub rscript_args: Vec<String>,
    pub with_deps: Vec<String>,
    pub r_requirement: Option<String>,
    pub target: PackageExecTarget,
    pub tool_args: Vec<String>,
}

pub struct ToolRunArgsView {
    pub rscript_args: Seq<Seq<char>>,
    pub with_deps: Seq<Seq<char>>,
    pub r_requirement: Option<Seq<char>>,
    pub package_ref: Seq<char>,
    pub package_name: Option<Seq<char>>,
    pub executable: Seq<char>,
    pub tool_args: Seq<Seq<char>>,
}

impl View for ToolRunArgs {
    type V = ToolRunArgsView;

    open spec fn view(&self) -> ToolRunArgsView {
        ToolRunArgsView {
            rscript_args: views(self.rscript_args@),
            with_deps: views(self.with_deps@),
            r_requirement: opt_seq_view(self.r_requirement),
            package_ref: self.target.package_ref@,
            package_name: opt_seq_view(self.target.package_name),
            executable: self.target.executable@,
            tool_args: views(self.tool_args@),
        }
    }
}

pub open spec fn tool_ref_missing(cmd: Seq<char>) -> Seq<char> {
    seq!['`'] + cmd + "` requires a package ref or `--from <pkg-ref> <command>`"@
}

/// What `ir tool run` / `rx` makes of its arguments: with `--from`, the
/// positional argument is the command to run from that package; without,
/// it is a package ref whose own name is the command.
pub open spec fn tool_run_args_of(a: Seq<Seq<char>>, cmd: Seq<char>) -> Result<
    ToolRunArgsView,
    Seq<char>,
> {
    match tool_run_scan(a, 0, empty_scan(), cmd) {
        Err(e) => Err(e),
        Ok((st, pos, rest)) => match st.from {
            Some(package_ref) => match pos {
                None => Err("`--from` requires a command to run"@),
                Some(exe) => if !executable_name(exe) {
                    Err("`--from` requires a command name, not a path"@)
                } else {
                    Ok(
                        ToolRunArgsView {
                            rscript_args: st.rscript_args,
                            with_deps: st.with_deps,
                            r_requirement: st.r_requirement,
                            package_ref,
                            package_name: self_named(package_ref),
                            executable: exe,
                            tool_args: a.skip(rest),
                        },
                    )
                },
            },
            None => match pos {
                None => Err(tool_ref_missing(cmd)),
                Some(package_ref) => match self_named(package_ref) {
                    None => Err(
                        "self-named package tools require an inferable package name; use `--from <pkg-ref> <command>`"@,
                    ),
                    Some(exe) => Ok(
                        ToolRunArgsView {
                            rscript_args: st.rscript_args,
                            with_deps: st.with_deps,
                            r_requirement: st.r_requirement,
                            package_ref,
                            package_name: Some(exe),
                            executable: exe,
                            tool_args: a.skip(rest),
                        },
                    ),
                },
            },
        },
    }
}

/// Parses the arguments of `ir tool run` or `rx`.
pub fn parse_tool_run_args(args: Vec<String>, invocation: ToolRunInvocation) -> (r: Result<
    ToolRunArgs,
    String,
>)
    ensures
        match tool_run_args_of(views(args@), invocation_name(invocation)) {
            Ok(v) => r is Ok && r->Ok_0@ == v,
            Err(e) => r is Err && r->Err_0@ == e,
        },
{
    let a = chars_of_all(args.as_slice());
    let ghost av = views(args@);
    let cmd = chars_of(invocation.command());
    assert(views_of(a@) =~= av);
    let mut st = new_state();
    let mut i: usize = 0;
    let mut positional: Option<Vec<char>> = None;
    let mut stopped = false;
    while i < a.len() && !stopped
        invariant
            av == views_of(a@),
            av == views(args@),
            cmd@ == invocation_name(invocation),
            i <= a@.len(),
            !stopped ==> tool_run_scan(av, 0, empty_scan(), cmd@) == tool_run_scan(
                av,
                i as int,
                state_view(st),
                cmd@,
            ),
            !stopped ==> positional is None,
            stopped ==> tool_run_scan(av, 0, empty_scan(), cmd@) == Ok::<ScanEnd, Seq<char>>(
                (state_view(st), opt_chars_view(positional), i as int),
            ),
        decreases a@.len() - i,
    {
        let arg = &a[i];
        assert(arg@ == av[i as int]);
        if eq_lit(arg, "--from") {
            if i + 1 >= a.len() {
                let mut m = chars_of("`--from` requires a package ref (try `");
                extend_chars(&mut m, &cmd);
                extend_chars(&mut m, &chars_of(" --from cli cli`)"));
                return Err(string_of(&m));
            }
            assert(a@[i + 1]@ == av[i + 1]);
            st.from = Some(copy_chars(&a[i + 1]));
            i += 2;
        } else if let Some(value) = strip_lit(arg, "--from=") {
            if value.len() == 0 {
                return Err(lit_string("`--from` requires a package ref"));
            }
            st.from = Some(value);
            i += 1;
        } else if eq_lit(arg, "--with") || eq_lit(arg, "-w") {
            if i + 1 >= a.len() {
                let mut m: Vec<char> = Vec::new();
                m.push('`');
                extend_chars(&mut m, arg);
                extend_chars(&mut m, &chars_of("` requires a package (try `"));
                extend_chars(&mut m, &cmd);
                m.push(' ');
                extend_chars(&mut m, arg);
                extend_chars(&mut m, &chars_of(" dplyr btw`)"));
                assert(m@ =~= tool_with_missing(cmd@, arg@));
                return Err(string_of(&m));
            }
            assert(a@[i + 1]@ == av[i + 1]);
            push_with_deps_chars(&mut st.with_deps, &a[i + 1]);
            i += 2;
        } else if let Some(value) = strip_lit(arg, "--with=") {
            push_with_deps_chars(&mut st.with_deps, &value);
            i += 1;
        } else if eq_lit(arg, "--r-version") {
            if i + 1 >= a.len() {
                let mut m = chars_of("`--r-version` requires a version spec (try `");
                extend_chars(&mut m, &cmd);
                extend_chars(&mut m, &chars_of(" --r-version 4.5 btw`)"));
                return Err(string_of(&m));
            }
            assert(a@[i + 1]@ == av[i + 1]);
            st.r_requirement = Some(copy_chars(&a[i + 1]));
            i += 2;
        } else if let Some(value) = strip_lit(arg, "--r-version=") {
            st.r_requirement = Some(value);
            i += 1;
        } else if eq_lit(arg, "--isolated") {
            i += 1;
        } else if eq_lit(arg, "-e") {
            let mut m = chars_of("`-e` is not supported by `");
            extend_chars(&mut m, &cmd);
            m.push('`');
            assert(m@ =~= tool_expr_unsupported(cmd@));
            return Err(string_of(&m));
        } else if starts_lit(arg, "-") {
            push_view(&mut st.rscript_args, copy_chars(arg));
            i += 1;
        } else {
            positional = Some(copy_chars(arg));
            stopped = true;
            i += 1;
        }
    }
    assert(tool_run_scan(av, 0, empty_scan(), cmd@) == Ok::<ScanEnd, Seq<char>>(
        (state_view(st), opt_chars_view(positional), i as int),
    ));
    let ghost sv = state_view(st);
    let tool_args = tail_strings(&a, i);
    let ScanState { rscript_args, with_deps, r_requirement, from, .. } = st;
    let rscript_args = strings_view_eq(&rscript_args);
    let with_deps = strings_view_eq(&with_deps);
    let r_requirement = opt_string(r_requirement);
    let target = match from {
        Some(package_ref) => {
            let executable = match positional {
                Some(p) => p,
                None => {
                    return Err(lit_string("`--from` requires a command to run"));
                },
            };
            if !executable_name_chars(&executable) {
                return Err(lit_string("`--from` requires a command name, not a path"));
            }
            let package_name = match infer_self_named_chars(&package_ref) {
                Some(n) => Some(string_of(&n)),
                None => None,
            };
            PackageExecTarget {
                package_name,
                package_ref: string_of(&package_ref),
                executable: string_of(&executable),
            }
        },
        None => {
            let package_ref = match positional {
                Some(p) => p,
                None => {
                    let mut m: Vec<char> = Vec::new();
                    m.push('`');
                    extend_chars(&mut m, &cmd);
                    extend_chars(
                        &mut m,
                        &chars_of("` requires a package ref or `--from <pkg-ref> <command>`"),
                    );
                    assert(m@ =~= tool_ref_missing(cmd@));
                    return Err(string_of(&m));
                },
            };
            let executable = match infer_self_named_chars(&package_ref) {
                Some(e) => e,
                None => {
                    return Err(
                        lit_string(
                            "self-named package tools require an inferable package name; use `--from <pkg-ref> <command>`",
                        ),
                    );
                },
            };
            PackageExecTarget {
                package_ref: string_of(&package_ref),
                package_name: Some(string_of(&executable)),
                executable: string_of(&executable),
            }
        },
    };
    let r = ToolRunArgs { rscript_args, with_deps, r_requirement, target, tool_args };
    assert(r@.rscript_args == sv.rscript_args);
    assert(r@.with_deps == sv.with_deps);
    assert(r@.r_requirement == sv.r_requirement);
    Ok(r)
}

// ---------------------------------------------------------------------------
// `ir tool install`
// ---------------------------------------------------------------------------

pub open spec fn install_unexpected_option(arg: Seq<char>) -> Seq<char> {
    "unexpected option `"@ + arg + "` for `ir tool install`"@
}

/// The scan of `ir tool install` from argument `i` on.
pub open spec fn install_scan(a: Seq<Seq<char>>, i: int, st: Scan) -> Result<ScanEnd, Seq<char>>
    decreases a.len() - i,
{
    if i < 0 || i >= a.len() {
        Ok((st, None, a.len() as int))
    } else {
        let arg = a[i];
        if arg == "--with"@ {
            if i + 1 >= a.len() {
                Err("`--with` requires a package (try `ir tool install --with cli btw`)"@)
            } else {
                install_scan(a, i + 2, with_more_deps(st, a[i + 1]))
            }
        } else if starts_with(arg, "--with="@) {
            install_scan(a, i + 1, with_more_deps(st, arg.skip("--with="@.len() as int)))
        } else if arg == "--r-version"@ {
            if i + 1 >= a.len() {
                Err(
                    "`--r-version` requires a version spec (try `ir tool install --r-version 4.5 btw`)"@,
                )
            } else {
                install_scan(a, i + 2, with_requirement(st, a[i + 1]))
            }
        } else if starts_with(arg, "--r-version="@) {
            install_scan(a, i + 1, with_requirement(st, arg.skip("--r-version="@.len() as int)))
        } else if arg == "--bin-dir"@ {
            if i + 1 >= a.len() {
                Err(
                    "`--bin-dir` requires a directory (try `ir tool install --bin-dir ~/.local/bin btw`)"@,
                )
            } else {
                install_scan(a, i + 2, Scan { bin_dir: Some(a[i + 1]), ..st })
            }
        } else if starts_with(arg, "--bin-dir="@) {
            let v = arg.skip("--bin-dir="@.len() as int);
            if v.len() == 0 {
                Err("`--bin-dir` requires a directory"@)
            } else {
                install_scan(a, i + 1, Scan { bin_dir: Some(v), ..st })
            }
        } else if arg == "--force"@ {
            install_scan(a, i + 1, Scan { force: true, ..st })
        } else if arg == "-e"@ {
            Err("`-e` is not supported by `ir tool install`"@)
        } else if starts_with(arg, "-"@) {
            Err(install_unexpected_option(arg))
        } else {
            Ok((st, Some(arg), i + 1))
        }
    }
}

/// The arguments of `ir tool install`.
pub struct ToolInstallArgs {
    pub package_ref: String,
    pub with_deps: Vec<String>,
    pub r_requirement: Option<String>,
    pub bin_dir: String,
    pub force: bool,
}

pub struct ToolInstallArgsView {
    pub package_ref: Seq<char>,
    pub with_deps: Seq<Seq<char>>,
    pub r_requirement: Option<Seq<char>>,
    pub bin_dir: Seq<char>,
    pub force: bool,
}

impl View for ToolInstallArgs {
    type V = ToolInstallArgsView;

    open spec fn view(&self) -> ToolInstallArgsView {
        ToolInstallArgsView {
            package_ref: self.package_ref@,
            with_deps: views(self.with_deps@),
            r_requirement: opt_seq_view(self.r_requirement),
            bin_dir: self.bin_dir@,
            force: self.force,
        }
    }
}

pub open spec fn install_extra_error(extra: Seq<char>, package: Seq<char>) -> Seq<char> {
    "unexpected argument `"@ + extra + "` after package ref `"@ + package + seq!['`']
}

/// What `ir tool install` makes of its arguments, given the default
/// launcher directory (or the reason there is none). The default, and its
/// error, matter only where no `--bin-dir` is given.
pub open spec fn tool_install_args_of(
    a: Seq<Seq<char>>,
    default_bin_dir: Result<Seq<char>, Seq<char>>,
) -> Result<ToolInstallArgsView, Seq<char>> {
    match install_scan(a, 0, empty_scan()) {
        Err(e) => Err(e),
        Ok((st, pos, rest)) => match pos {
            None => Err("`ir tool install` requires a package ref (try `ir tool install btw`)"@),
            Some(p) => if rest < a.len() {
                Err(install_extra_error(a[rest], p))
            } else {
                let chosen = match st.bin_dir {
                    Some(b) => Ok(b),
                    None => default_bin_dir,
                };
                match chosen {
                    Err(e) => Err(e),
                    Ok(d) => Ok(
                        ToolInstallArgsView {
                            package_ref: p,
                            with_deps: st.with_deps,
                            r_requirement: st.r_requirement,
                            bin_dir: d,
                            force: st.force,
                        },
                    ),
                }
            },
        },
    }
}

pub open spec fn result_view(r: Result<String, String>) -> Result<Seq<char>, Seq<char>> {
    match r {
        Ok(s) => Ok(s@),
        Err(e) => Err(e@),
    }
}

/// Parses the arguments of `ir tool install`; `default_bin_dir` is the
/// launcher directory the environment implies (see `tool_install_bin_dir`).
pub fn parse_tool_install_args(args: Vec<String>, default_bin_dir: Result<String, String>) -> (r:
    Result<ToolInstallArgs, String>)
    ensures
        match tool_install_args_of(views(args@), result_view(default_bin_dir)) {
            Ok(v) => r is Ok && r->Ok_0@ == v,
            Err(e) => r is Err && r->Err_0@ == e,
        },
{
    let a = chars_of_all(args.as_slice());
    let ghost av = views(args@);
    assert(views_of(a@) =~= av);
    let mut st = new_state();
    let mut i: usize = 0;
    let mut positional: Option<Vec<char>> = None;
    let mut stopped = false;
    while i < a.len() && !stopped
        invariant
            av == views_of(a@),
            av == views(args@),
            i <= a@.len(),
            !stopped ==> install_scan(av, 0, empty_scan()) == install_scan(
                av,
                i as int,
                state_view(st),
            ),
            !stopped ==> positional is None,
            stopped ==> install_scan(av, 0, empty_scan()) == Ok::<ScanEnd, Seq<char>>(
                (state_view(st), opt_chars_view(positional), i as int),
            ),
        decreases a@.len() - i,
    {
        let arg = &a[i];
        assert(arg@ == av[i as int]);
        if eq_lit(arg, "--with") {
            if i + 1 >= a.len() {
                return Err(
                    lit_string(
                        "`--with` requires a package (try `ir tool install --with cli btw`)",
                    ),
                );
            }
            assert(a@[i + 1]@ == av[i + 1]);
            push_with_deps_chars(&mut st.with_deps, &a[i + 1]);
            i += 2;
        } else if let Some(value) = strip_lit(arg, "--with=") {
            push_with_deps_chars(&mut st.with_deps, &value);
            i += 1;
        } else if eq_lit(arg, "--r-version") {
            if i + 1 >= a.len() {
                return Err(
                    lit_string(
                        "`--r-version` requires a version spec (try `ir tool install --r-version 4.5 btw`)",
                    ),
                );
            }
            assert(a@[i + 1]@ == av[i + 1]);
            st.r_requirement = Some(copy_chars(&a[i + 1]));
            i += 2;
        } else if let Some(value) = strip_lit(arg, "--r-version=") {
            st.r_requirement = Some(value);
            i += 1;
        } else if eq_lit(arg, "--bin-dir") {
            if i + 1 >= a.len() {
                return Err(
                    lit_string(
                        "`--bin-dir` requires a directory (try `ir tool install --bin-dir ~/.local/bin btw`)",
                    ),
                );
            }
            assert(a@[i + 1]@ == av[i + 1]);
            st.bin_dir = Some(copy_chars(&a[i + 1]));
            i += 2;
        } else if let Some(value) = strip_lit(arg, "--bin-dir=") {
            if value.len() == 0 {
                return Err(lit_string("`--bin-dir` requires a directory"));
            }
            st.bin_dir = Some(value);
            i += 1;
        } else if eq_lit(arg, "--force") {
            st.force = true;
            i += 1;
        } else if eq_lit(arg, "-e") {
            return Err(lit_string("`-e` is not supported by `ir tool install`"));
        } else if starts_lit(arg, "-") {
            let mut m = chars_of("unexpected option `");
            extend_chars(&mut m, arg);
            extend_chars(&mut m, &chars_of("` for `ir tool install`"));
            return Err(string_of(&m));
        } else {
            positional = Some(copy_chars(arg));
            stopped = true;
            i += 1;
        }
    }
    assert(install_scan(av, 0, empty_scan()) == Ok::<ScanEnd, Seq<char>>(
        (state_view(st), opt_chars_view(positional), i as int),
    ));
    let ghost sv = state_view(st);
    let package_arg = match positional {
        Some(p) => p,
        None => {
            return Err(
                lit_string("`ir tool install` requires a package ref (try `ir tool install btw`)"),
            );
        },
    };
    if i < a.len() {
        let mut m = chars_of("unexpected argument `");
        assert(a@[i as int]@ == av[i as int]);
        extend_chars(&mut m, &a[i]);
        extend_chars(&mut m, &chars_of("` after package ref `"));
        extend_chars(&mut m, &package_arg);
        m.push('`');
        assert(m@ =~= install_extra_error(av[i as int], package_arg@));
        return Err(string_of(&m));
    }
    let ScanState { with_deps, r_requirement, bin_dir, force, .. } = st;
    let bin_dir = match bin_dir {
        Some(b) => string_of(&b),
        None => match default_bin_dir {
            Ok(d) => d,
            Err(e) => {
                return Err(e);
            },
        },
    };
    let r = ToolInstallArgs {
        package_ref: string_of(&package_arg),
        with_deps: strings_view_eq(&with_deps),
        r_requirement: opt_string(r_requirement),
        bin_dir,
        force,
    };
    assert(r@.with_deps == sv.with_deps);
    assert(r@.r_requirement == sv.r_requirement);
    Ok(r)
}

/// Where `ir tool install` puts launchers, from the non-empty values of
/// `IR_TOOL_BIN_DIR`, `RAPP_BIN_DIR`, `XDG_BIN_HOME`, `XDG_DATA_HOME`,
/// `HOME`, `LOCALAPPDATA` and `USERPROFILE`: base path, whether to take its
/// parent, and components.
pub open spec fn bin_dir_plan(
    platform: crate::paths::Platform,
    ir_tool_bin_dir: Option<Seq<char>>,
    rapp_bin_dir: Option<Seq<char>>,
    xdg_bin_home: Option<Seq<char>>,
    xdg_data_home: Option<Seq<char>>,
    home: Option<Seq<char>>,
    local_app_data: Option<Seq<char>>,
    user_profile: Option<Seq<char>>,
) -> Result<(Seq<char>, bool, Seq<Seq<char>>), Seq<char>> {
    if ir_tool_bin_dir is Some {
        Ok((ir_tool_bin_dir->Some_0, false, Seq::empty()))
    } else if rapp_bin_dir is Some {
        Ok((rapp_bin_dir->Some_0, false, Seq::empty()))
    } else if xdg_bin_home is Some {
        Ok((xdg_bin_home->Some_0, false, Seq::empty()))
    } else if xdg_data_home is Some {
        Ok((xdg_data_home->Some_0, true, seq!["bin"@]))
    } else if platform != crate::paths::Platform::Windows {
        if home is Some {
            Ok((home->Some_0, false, seq![".local"@, "bin"@]))
        } else {
            Err("cannot determine launcher directory; set --bin-dir or IR_TOOL_BIN_DIR"@)
        }
    } else if local_app_data is Some {
        Ok((local_app_data->Some_0, false, seq!["Programs"@, "R"@, "ir"@, "bin"@]))
    } else if user_profile is Some {
        Ok((user_profile->Some_0, false, seq!["AppData"@, "Local"@, "Programs"@, "R"@, "ir"@, "bin"@]))
    } else {
        Err("cannot determine launcher directory; set --bin-dir or IR_TOOL_BIN_DIR"@)
    }
}

fn bin_plan(base: &str, parent: bool, parts: &[&str]) -> (r: crate::paths::PathPlan)
    ensures
        crate::paths::plan_view(r) == (base@, parent, parts@.map_values(|s: &str| s@)),
{
    crate::paths::plan(base, parent, parts)
}

/// The directory `ir tool install` puts launchers in when `--bin-dir` is
/// not given. Where it comes from `XDG_DATA_HOME`, it is `bin` next to that
/// directory (its parent must exist: the caller reports one that has none).
pub fn tool_install_bin_dir(
    platform: crate::paths::Platform,
    ir_tool_bin_dir: Option<&str>,
    rapp_bin_dir: Option<&str>,
    xdg_bin_home: Option<&str>,
    xdg_data_home: Option<&str>,
    home: Option<&str>,
    local_app_data: Option<&str>,
    user_profile: Option<&str>,
) -> (r: Result<crate::paths::PathPlan, String>)
    ensures
        match bin_dir_plan(
            platform,
            crate::rig::r_selection::opt_str_view(ir_tool_bin_dir),
            crate::rig::r_selection::opt_str_view(rapp_bin_dir),
            crate::rig::r_selection::opt_str_view(xdg_bin_home),
            crate::rig::r_selection::opt_str_view(xdg_data_home),
            crate::rig::r_selection::opt_str_view(home),
            crate::rig::r_selection::opt_str_view(local_app_data),
            crate::rig::r_selection::opt_str_view(user_profile),
        ) {
            Ok(p) => r matches Ok(x) && crate::paths::plan_view(x) == p,
            Err(e) => r matches Err(m) && m@ == e,
        },
{
    if let Some(d) = ir_tool_bin_dir {
        let r = bin_plan(d, false, &[]);
        assert(crate::paths::plan_view(r).2 =~= Seq::<Seq<char>>::empty());
        return Ok(r);
    }
    if let Some(d) = rapp_bin_dir {
        let r = bin_plan(d, false, &[]);
        assert(crate::paths::plan_view(r).2 =~= Seq::<Seq<char>>::empty());
        return Ok(r);
    }
    if let Some(d) = xdg_bin_home {
        let r = bin_plan(d, false, &[]);
        assert(crate::paths::plan_view(r).2 =~= Seq::<Seq<char>>::empty());
        return Ok(r);
    }
    if let Some(d) = xdg_data_home {
        let r = bin_plan(d, true, &["bin"]);
        assert(crate::paths::plan_view(r).2 =~= seq!["bin"@]);
        return Ok(r);
    }
    if platform != crate::paths::Platform::Windows {
        if let Some(h) = home {
            let r = bin_plan(h, false, &[".local", "bin"]);
            assert(crate::paths::plan_view(r).2 =~= seq![".local"@, "bin"@]);
            return Ok(r);
        }
        return Err(lit_string("cannot determine launcher directory; set --bin-dir or IR_TOOL_BIN_DIR"));
    }
    if let Some(d) = local_app_data {
        let r = bin_plan(d, false, &["Programs", "R", "ir", "bin"]);
        assert(crate::paths::plan_view(r).2 =~= seq!["Programs"@, "R"@, "ir"@, "bin"@]);
        return Ok(r);
    }
    if let Some(d) = user_profile {
        let r = bin_plan(d, false, &["AppData", "Local", "Programs", "R", "ir", "bin"]);
        assert(crate::paths::plan_view(r).2 =~= seq![
            "AppData"@,
            "Local"@,
            "Programs"@,
            "R"@,
            "ir"@,
            "bin"@,
        ]);
        return Ok(r);
    }
    Err(lit_string("cannot determine launcher directory; set --bin-dir or IR_TOOL_BIN_DIR"))
}


/// The message for a launcher directory taken from an `XDG_DATA_HOME`
/// without a parent.
pub open spec fn parentless_data_home() -> Seq<char> {
    "XDG_DATA_HOME must have a parent directory"@
}

/// Where the default launcher directory starts, given the parent the
/// platform finds for the plan's base: the base itself, or its parent where
/// the directory comes from `XDG_DATA_HOME`, which must have one.
pub fn launcher_dir_start_from(plan: &crate::paths::PathPlan, parent_of_base: Option<String>) -> (r:
    Result<String, String>)
    ensures
        !plan.parent ==> (r matches Ok(s) && s@ == plan.base@),
        plan.parent ==> match parent_of_base {
            Some(p) => r matches Ok(s) && s@ == p@,
            None => r matches Err(e) && e@ == parentless_data_home(),
        },
{
    crate::paths::plan_start_from(plan, parent_of_base, "XDG_DATA_HOME must have a parent directory")
}

/// Where the default launcher directory starts: the plan's base, or its
/// parent where the directory comes from `XDG_DATA_HOME`; an error where
/// that has no parent.
pub fn launcher_dir_start(plan: &crate::paths::PathPlan) -> (r: Result<String, String>)
    ensures
        !plan.parent ==> (r matches Ok(s) && s@ == plan.base@),
        plan.parent ==> (r is Ok || (r matches Err(e) && e@ == parentless_data_home())),
        plan.parent && plan.base@.len() == 0 ==> (r matches Err(e) && e@
            == parentless_data_home()),
        plan.parent ==> (r matches Ok(s) ==> s@.len() < plan.base@.len() && plan.base@.take(
            s@.len() as int,
        ) == s@),
{
    crate::paths::plan_start(plan, "XDG_DATA_HOME must have a parent directory")
}

/// An argument `ir run` hands to Rscript as an option: it starts with `-`
/// and is none of `ir`'s own flags.
pub open spec fn forwarded_option(arg: Seq<char>) -> bool {
    &&& starts_with(arg, "-"@)
    &&& arg != "-"@
    &&& arg != "-e"@
    &&& arg != "--expr"@
    &&& !starts_with(arg, "--expr="@)
    &&& arg != "--from"@
    &&& !starts_with(arg, "--from="@)
    &&& arg != "--with"@
    &&& !starts_with(arg, "--with="@)
    &&& arg != "--r-version"@
    &&& !starts_with(arg, "--r-version="@)
    &&& arg != "--isolated"@
}

proof fn lemma_run_scan_forwards(
    opts: Seq<Seq<char>>,
    script: Seq<char>,
    rest: Seq<Seq<char>>,
    i: int,
)
    requires
        0 <= i <= opts.len(),
        forall|k: int| 0 <= k < opts.len() ==> forwarded_option(#[trigger] opts[k]),
        !starts_with(script, "-"@),
    ensures
        run_scan(
            opts + seq![script] + rest,
            i,
            Scan { rscript_args: opts.take(i), ..empty_scan() },
        ) == Ok::<ScanEnd, Seq<char>>(
            (Scan { rscript_args: opts, ..empty_scan() }, Some(script), opts.len() as int + 1),
        ),
    decreases opts.len() - i,
{
    let a = opts + seq![script] + rest;
    reveal_strlit("-");
    reveal_strlit("-e");
    reveal_strlit("--expr");
    reveal_strlit("--expr=");
    reveal_strlit("--from");
    reveal_strlit("--from=");
    reveal_strlit("--with");
    reveal_strlit("--with=");
    reveal_strlit("--r-version");
    reveal_strlit("--r-version=");
    reveal_strlit("--isolated");
    if i < opts.len() {
        let arg = opts[i];
        assert(a[i] == arg);
        assert(forwarded_option(arg));
        assert(opts.take(i + 1) =~= opts.take(i).push(arg));
        lemma_run_scan_forwards(opts, script, rest, i + 1);
    } else {
        assert(a[i] == script);
        assert(opts.take(i) =~= opts);
        if script.len() > 0 && script[0] == '-' {
            assert(script.subrange(0, 1) =~= "-"@);
        }
        assert(script != "-e"@ && script != "--expr"@ && script != "--from"@ && script
            != "--with"@ && script != "--r-version"@ && script != "--isolated"@ && script != "-"@) by {
            if script.len() > 0 {
                assert(script[0] != '-');
            }
        }
        assert(!starts_with(script, "--expr="@) && !starts_with(script, "--from="@)
            && !starts_with(script, "--with="@) && !starts_with(script, "--r-version="@)) by {
            if script.len() > 0 {
                assert(script.subrange(0, 1)[0] == script[0]);
            }
        }
    }
}

/// `ir run` forwards the Rscript options before a script to Rscript and
/// hands everything after the script to the script, untouched.
pub proof fn lemma_run_args_forward_script_args(
    opts: Seq<Seq<char>>,
    script: Seq<char>,
    rest: Seq<Seq<char>>,
)
    requires
        forall|k: int| 0 <= k < opts.len() ==> forwarded_option(#[trigger] opts[k]),
        !starts_with(script, "-"@),
    ensures
        run_args_of(opts + seq![script] + rest) == Ok::<RunArgsView, Seq<char>>(
            RunArgsView {
                rscript_args: opts,
                with_deps: Seq::empty(),
                r_requirement: None,
                source: RunSourceView::Script(script),
                script_args: rest,
                isolated: false,
            },
        ),
{
    assert(opts.take(0) =~= Seq::<Seq<char>>::empty());
    assert(Scan { rscript_args: opts.take(0), ..empty_scan() } == empty_scan());
    lemma_run_scan_forwards(opts, script, rest, 0);
    reveal_strlit("-");
    if script.len() > 0 && script[0] == '-' {
        assert(script.subrange(0, 1) =~= "-"@);
    }
    assert(script != "-"@);
    assert((opts + seq![script] + rest).skip(opts.len() as int + 1) =~= rest);
}


// ---------------------------------------------------------------------------
// `--r-version` before the other arguments
// ---------------------------------------------------------------------------

/// `st`, asking for R `x` unless it already names a version.
pub open spec fn requirement_or(st: Scan, x: Seq<char>) -> Scan {
    Scan {
        r_requirement: Some(
            match st.r_requirement {
                Some(r) => r,
                None => x,
            },
        ),
        ..st
    }
}

/// A scan outcome whose state asks for R `x` unless it names a version.
pub open spec fn ended_with_requirement(r: Result<ScanEnd, Seq<char>>, x: Seq<char>) -> Result<
    ScanEnd,
    Seq<char>,
> {
    match r {
        Ok((st, pos, end)) => Ok((requirement_or(st, x), pos, end)),
        Err(e) => Err(e),
    }
}

/// A scan outcome with its end index moved by `k`.
pub open spec fn shifted_end(r: Result<ScanEnd, Seq<char>>, k: int) -> Result<ScanEnd, Seq<char>> {
    match r {
        Ok((st, pos, end)) => Ok((st, pos, end + k)),
        Err(e) => Err(e),
    }
}

proof fn lemma_tool_scan_shift(p: Seq<Seq<char>>, rest: Seq<Seq<char>>, i: int, st: Scan, cmd: Seq<char>)
    requires
        0 <= i,
    ensures
        tool_run_scan(p + rest, p.len() + i, st, cmd) == shifted_end(
            tool_run_scan(rest, i, st, cmd),
            p.len() as int,
        ),
    decreases rest.len() - i,
{
    let a = p + rest;
    let k = p.len() as int;
    if i < rest.len() {
        let arg = rest[i];
        assert(a[k + i] == arg);
        if i + 1 < rest.len() {
            assert(a[k + i + 1] == rest[i + 1]);
        }
        if arg == "--from"@ {
            if i + 1 < rest.len() {
                lemma_tool_scan_shift(p, rest, i + 2, Scan { from: Some(rest[i + 1]), ..st }, cmd);
            }
        } else if starts_with(arg, "--from="@) {
            lemma_tool_scan_shift(
                p,
                rest,
                i + 1,
                Scan { from: Some(arg.skip("--from="@.len() as int)), ..st },
                cmd,
            );
        } else if arg == "--with"@ || arg == "-w"@ {
            if i + 1 < rest.len() {
                lemma_tool_scan_shift(p, rest, i + 2, with_more_deps(st, rest[i + 1]), cmd);
            }
        } else if starts_with(arg, "--with="@) {
            lemma_tool_scan_shift(
                p,
                rest,
                i + 1,
                with_more_deps(st, arg.skip("--with="@.len() as int)),
                cmd,
            );
        } else if arg == "--r-version"@ {
            if i + 1 < rest.len() {
                lemma_tool_scan_shift(p, rest, i + 2, with_requirement(st, rest[i + 1]), cmd);
            }
        } else if starts_with(arg, "--r-version="@) {
            lemma_tool_scan_shift(
                p,
                rest,
                i + 1,
                with_requirement(st, arg.skip("--r-version="@.len() as int)),
                cmd,
            );
        } else if arg == "--isolated"@ {
            lemma_tool_scan_shift(p, rest, i + 1, st, cmd);
        } else if arg == "-e"@ {
        } else if starts_with(arg, "-"@) {
            lemma_tool_scan_shift(
                p,
                rest,
                i + 1,
                Scan { rscript_args: st.rscript_args.push(arg), ..st },
                cmd,
            );
        }
    }
}

proof fn lemma_tool_scan_requirement(a: Seq<Seq<char>>, i: int, st: Scan, x: Seq<char>, cmd: Seq<char>)
    ensures
        tool_run_scan(a, i, requirement_or(st, x), cmd) == ended_with_requirement(
            tool_run_scan(a, i, st, cmd),
            x,
        ),
    decreases a.len() - i,
{
    let s = requirement_or(st, x);
    if 0 <= i < a.len() {
        let arg = a[i];
        if arg == "--from"@ {
            if i + 1 < a.len() {
                let n = Scan { from: Some(a[i + 1]), ..st };
                assert(Scan { from: Some(a[i + 1]), ..s } == requirement_or(n, x));
                lemma_tool_scan_requirement(a, i + 2, n, x, cmd);
            }
        } else if starts_with(arg, "--from="@) {
            let n = Scan { from: Some(arg.skip("--from="@.len() as int)), ..st };
            assert(Scan { from: Some(arg.skip("--from="@.len() as int)), ..s } == requirement_or(n, x));
            lemma_tool_scan_requirement(a, i + 1, n, x, cmd);
        } else if arg == "--with"@ || arg == "-w"@ {
            if i + 1 < a.len() {
                let n = with_more_deps(st, a[i + 1]);
                assert(with_more_deps(s, a[i + 1]) == requirement_or(n, x));
                lemma_tool_scan_requirement(a, i + 2, n, x, cmd);
            }
        } else if starts_with(arg, "--with="@) {
            let v = arg.skip("--with="@.len() as int);
            let n = with_more_deps(st, v);
            assert(with_more_deps(s, v) == requirement_or(n, x));
            lemma_tool_scan_requirement(a, i + 1, n, x, cmd);
        } else if arg == "--r-version"@ {
            if i + 1 < a.len() {
                let n = with_requirement(st, a[i + 1]);
                assert(with_requirement(s, a[i + 1]) == n);
                assert(requirement_or(n, x) == n);
                lemma_tool_scan_requirement(a, i + 2, n, x, cmd);
            }
        } else if starts_with(arg, "--r-version="@) {
            let v = arg.skip("--r-version="@.len() as int);
            let n = with_requirement(st, v);
            assert(with_requirement(s, v) == n);
            assert(requirement_or(n, x) == n);
            lemma_tool_scan_requirement(a, i + 1, n, x, cmd);
        } else if arg == "--isolated"@ {
            lemma_tool_scan_requirement(a, i + 1, st, x, cmd);
        } else if arg == "-e"@ {
        } else if starts_with(arg, "-"@) {
            let n = Scan { rscript_args: st.rscript_args.push(arg), ..st };
            assert(Scan { rscript_args: s.rscript_args.push(arg), ..s } == requirement_or(n, x));
            lemma_tool_scan_requirement(a, i + 1, n, x, cmd);
        }
    }
}

proof fn lemma_tool_scan_end(a: Seq<Seq<char>>, i: int, cmd: Seq<char>)
    requires
        0 <= i,
    ensures
        forall|st: Scan|
            #[trigger] tool_run_scan(a, i, st, cmd) is Ok ==> 0 <= tool_run_scan(a, i, st, cmd)->Ok_0.2
                <= a.len(),
    decreases a.len() - i,
{
    if i < a.len() {
        lemma_tool_scan_end(a, i + 1, cmd);
        if i + 2 <= a.len() {
            lemma_tool_scan_end(a, i + 2, cmd);
        }
        assert forall|st: Scan| #[trigger] tool_run_scan(a, i, st, cmd) is Ok implies 0
            <= tool_run_scan(a, i, st, cmd)->Ok_0.2 <= a.len() by {
            let arg = a[i];
            let r = tool_run_scan(a, i, st, cmd);
            if arg == "--from"@ {
                if i + 1 < a.len() {
                    assert(r == tool_run_scan(a, i + 2, Scan { from: Some(a[i + 1]), ..st }, cmd));
                }
            } else if starts_with(arg, "--from="@) {
                let v = arg.skip("--from="@.len() as int);
                if v.len() > 0 {
                    assert(r == tool_run_scan(a, i + 1, Scan { from: Some(v), ..st }, cmd));
                }
            } else if arg == "--with"@ || arg == "-w"@ {
                if i + 1 < a.len() {
                    assert(r == tool_run_scan(a, i + 2, with_more_deps(st, a[i + 1]), cmd));
                }
            } else if starts_with(arg, "--with="@) {
                assert(r == tool_run_scan(
                    a,
                    i + 1,
                    with_more_deps(st, arg.skip("--with="@.len() as int)),
                    cmd,
                ));
            } else if arg == "--r-version"@ {
                if i + 1 < a.len() {
                    assert(r == tool_run_scan(a, i + 2, with_requirement(st, a[i + 1]), cmd));
                }
            } else if starts_with(arg, "--r-version="@) {
                assert(r == tool_run_scan(
                    a,
                    i + 1,
                    with_requirement(st, arg.skip("--r-version="@.len() as int)),
                    cmd,
                ));
            } else if arg == "--isolated"@ {
                assert(r == tool_run_scan(a, i + 1, st, cmd));
            } else if arg == "-e"@ {
            } else if starts_with(arg, "-"@) {
                assert(r == tool_run_scan(
                    a,
                    i + 1,
                    Scan { rscript_args: st.rscript_args.push(arg), ..st },
                    cmd,
                ));
            }
        }
    }
}

/// `ir tool run` and `rx` read `--r-version X` before the other arguments
/// as a request for R `X`: the arguments parse as the rest would, asking
/// for R `X` unless a later `--r-version` names another (the last wins).
pub proof fn lemma_tool_run_r_version_option(x: Seq<char>, rest: Seq<Seq<char>>, cmd: Seq<char>)
    ensures
        tool_run_args_of(seq!["--r-version"@, x] + rest, cmd) == match tool_run_args_of(rest, cmd) {
            Err(e) => Err::<ToolRunArgsView, Seq<char>>(e),
            Ok(v) => Ok(
                ToolRunArgsView {
                    r_requirement: Some(
                        match v.r_requirement {
                            Some(r) => r,
                            None => x,
                        },
                    ),
                    ..v
                },
            ),
        },
{
    reveal_strlit("--r-version");
    reveal_strlit("--from");
    reveal_strlit("--from=");
    reveal_strlit("--with");
    reveal_strlit("--with=");
    reveal_strlit("-w");
    let p = seq!["--r-version"@, x];
    let a = p + rest;
    assert(a[0] == "--r-version"@ && a[1] == x);
    let v = "--r-version"@;
    assert(v != "--from"@);
    assert(!starts_with(v, "--from="@)) by {
        assert(v.subrange(0, 7)[2] != "--from="@[2]);
    }
    assert(v != "--with"@ && v != "-w"@);
    assert(!starts_with(v, "--with="@)) by {
        assert(v.subrange(0, 7)[2] != "--with="@[2]);
    }
    let e = empty_scan();
    assert(with_requirement(e, x) == requirement_or(e, x));
    assert(tool_run_scan(a, 0, e, cmd) == tool_run_scan(a, 2, requirement_or(e, x), cmd));
    lemma_tool_scan_requirement(a, 2, e, x, cmd);
    lemma_tool_scan_shift(p, rest, 0, e, cmd);
    lemma_tool_scan_end(rest, 0, cmd);
    match tool_run_scan(rest, 0, e, cmd) {
        Err(_) => {},
        Ok((st, pos, end)) => {
            assert(a.skip(end + 2) =~= rest.skip(end));
        },
    }
}


proof fn lemma_render_scan_shift(p: Seq<Seq<char>>, rest: Seq<Seq<char>>, i: int, st: Scan)
    requires
        0 <= i,
    ensures
        render_scan(p + rest, p.len() + i, st) == shifted_end(render_scan(rest, i, st), p.len() as int),
    decreases rest.len() - i,
{
    let a = p + rest;
    let k = p.len() as int;
    if i < rest.len() {
        let arg = rest[i];
        assert(a[k + i] == arg);
        if i + 1 < rest.len() {
            assert(a[k + i + 1] == rest[i + 1]);
        }
        if arg == "-e"@ || arg == "--expr"@ || starts_with(arg, "--expr="@) {
        } else if arg == "--from"@ || starts_with(arg, "--from="@) {
        } else if arg == "--with"@ {
            if i + 1 < rest.len() {
                lemma_render_scan_shift(p, rest, i + 2, with_more_deps(st, rest[i + 1]));
            }
        } else if starts_with(arg, "--with="@) {
            lemma_render_scan_shift(p, rest, i + 1, with_more_deps(st, arg.skip("--with="@.len() as int)));
        } else if arg == "--r-version"@ {
            if i + 1 < rest.len() {
                lemma_render_scan_shift(p, rest, i + 2, with_requirement(st, rest[i + 1]));
            }
        } else if starts_with(arg, "--r-version="@) {
            lemma_render_scan_shift(
                p,
                rest,
                i + 1,
                with_requirement(st, arg.skip("--r-version="@.len() as int)),
            );
        } else if arg == "--isolated"@ {
            lemma_render_scan_shift(p, rest, i + 1, Scan { isolated: true, ..st });
        } else if arg == "--vanilla"@ {
            lemma_render_scan_shift(p, rest, i + 1, Scan { vanilla: true, ..st });
        }
    }
}

proof fn lemma_render_scan_requirement(a: Seq<Seq<char>>, i: int, st: Scan, x: Seq<char>)
    ensures
        render_scan(a, i, requirement_or(st, x)) == ended_with_requirement(render_scan(a, i, st), x),
    decreases a.len() - i,
{
    let s = requirement_or(st, x);
    if 0 <= i < a.len() {
        let arg = a[i];
        if arg == "-e"@ || arg == "--expr"@ || starts_with(arg, "--expr="@) {
        } else if arg == "--from"@ || starts_with(arg, "--from="@) {
        } else if arg == "--with"@ {
            if i + 1 < a.len() {
                let n = with_more_deps(st, a[i + 1]);
                assert(with_more_deps(s, a[i + 1]) == requirement_or(n, x));
                lemma_render_scan_requirement(a, i + 2, n, x);
            }
        } else if starts_with(arg, "--with="@) {
            let v = arg.skip("--with="@.len() as int);
            let n = with_more_deps(st, v);
            assert(with_more_deps(s, v) == requirement_or(n, x));
            lemma_render_scan_requirement(a, i + 1, n, x);
        } else if arg == "--r-version"@ {
            if i + 1 < a.len() {
                let n = with_requirement(st, a[i + 1]);
                assert(with_requirement(s, a[i + 1]) == n);
                assert(requirement_or(n, x) == n);
                lemma_render_scan_requirement(a, i + 2, n, x);
            }
        } else if starts_with(arg, "--r-version="@) {
            let v = arg.skip("--r-version="@.len() as int);
            let n = with_requirement(st, v);
            assert(with_requirement(s, v) == n);
            assert(requirement_or(n, x) == n);
            lemma_render_scan_requirement(a, i + 1, n, x);
        } else if arg == "--isolated"@ {
            let n = Scan { isolated: true, ..st };
            assert(Scan { isolated: true, ..s } == requirement_or(n, x));
            lemma_render_scan_requirement(a, i + 1, n, x);
        } else if arg == "--vanilla"@ {
            let n = Scan { vanilla: true, ..st };
            assert(Scan { vanilla: true, ..s } == requirement_or(n, x));
            lemma_render_scan_requirement(a, i + 1, n, x);
        }
    }
}

proof fn lemma_render_scan_end(a: Seq<Seq<char>>, i: int)
    requires
        0 <= i,
    ensures
        forall|st: Scan|
            #[trigger] render_scan(a, i, st) is Ok ==> 0 <= render_scan(a, i, st)->Ok_0.2 <= a.len(),
    decreases a.len() - i,
{
    if i < a.len() {
        lemma_render_scan_end(a, i + 1);
        if i + 2 <= a.len() {
            lemma_render_scan_end(a, i + 2);
        }
        assert forall|st: Scan| #[trigger] render_scan(a, i, st) is Ok implies 0 <= render_scan(
            a,
            i,
            st,
        )->Ok_0.2 <= a.len() by {
            let arg = a[i];
            let r = render_scan(a, i, st);
            if arg == "-e"@ || arg == "--expr"@ || starts_with(arg, "--expr="@) {
            } else if arg == "--from"@ || starts_with(arg, "--from="@) {
            } else if arg == "--with"@ {
                if i + 1 < a.len() {
                    assert(r == render_scan(a, i + 2, with_more_deps(st, a[i + 1])));
                }
            } else if starts_with(arg, "--with="@) {
                assert(r == render_scan(a, i + 1, with_more_deps(st, arg.skip("--with="@.len() as int))));
            } else if arg == "--r-version"@ {
                if i + 1 < a.len() {
                    assert(r == render_scan(a, i + 2, with_requirement(st, a[i + 1])));
                }
            } else if starts_with(arg, "--r-version="@) {
                assert(r == render_scan(
                    a,
                    i + 1,
                    with_requirement(st, arg.skip("--r-version="@.len() as int)),
                ));
            } else if arg == "--isolated"@ {
                assert(r == render_scan(a, i + 1, Scan { isolated: true, ..st }));
            } else if arg == "--vanilla"@ {
                assert(r == render_scan(a, i + 1, Scan { vanilla: true, ..st }));
            }
        }
    }
}

/// `ir render` reads `--r-version X` before the other arguments as a
/// request for R `X`: the arguments parse as the rest would, asking for R
/// `X` unless a later `--r-version` names another (the last wins).
pub proof fn lemma_render_r_version_option(x: Seq<char>, rest: Seq<Seq<char>>)
    ensures
        render_args_of(seq!["--r-version"@, x] + rest) == match render_args_of(rest) {
            Err(e) => Err::<RenderArgsView, Seq<char>>(e),
            Ok(v) => Ok(
                RenderArgsView {
                    r_requirement: Some(
                        match v.r_requirement {
                            Some(r) => r,
                            None => x,
                        },
                    ),
                    ..v
                },
            ),
        },
{
    reveal_strlit("--r-version");
    reveal_strlit("-e");
    reveal_strlit("--expr");
    reveal_strlit("--expr=");
    reveal_strlit("--from");
    reveal_strlit("--from=");
    reveal_strlit("--with");
    reveal_strlit("--with=");
    let p = seq!["--r-version"@, x];
    let a = p + rest;
    assert(a[0] == "--r-version"@ && a[1] == x);
    let v = "--r-version"@;
    assert(v != "-e"@ && v != "--expr"@ && v != "--from"@ && v != "--with"@);
    assert(!starts_with(v, "--expr="@)) by {
        assert(v.subrange(0, 7)[2] != "--expr="@[2]);
    }
    assert(!starts_with(v, "--from="@)) by {
        assert(v.subrange(0, 7)[2] != "--from="@[2]);
    }
    assert(!starts_with(v, "--with="@)) by {
        assert(v.subrange(0, 7)[2] != "--with="@[2]);
    }
    let e = empty_scan();
    assert(with_requirement(e, x) == requirement_or(e, x));
    assert(render_scan(a, 0, e) == render_scan(a, 2, requirement_or(e, x)));
    lemma_render_scan_requirement(a, 2, e, x);
    lemma_render_scan_shift(p, rest, 0, e);
    lemma_render_scan_end(rest, 0);
    match render_scan(rest, 0, e) {
        Err(_) => {},
        Ok((st, pos, end)) => {
            assert(a.skip(end + 2) =~= rest.skip(end));
        },
    }
}


proof fn lemma_run_scan_shift(p: Seq<Seq<char>>, rest: Seq<Seq<char>>, i: int, st: Scan)
    requires
        0 <= i,
    ensures
        run_scan(p + rest, p.len() + i, st) == shifted_end(run_scan(rest, i, st), p.len() as int),
    decreases rest.len() - i,
{
    let a = p + rest;
    let k = p.len() as int;
    if i < rest.len() {
        let arg = rest[i];
        assert(a[k + i] == arg);
        if i + 1 < rest.len() {
            assert(a[k + i + 1] == rest[i + 1]);
        }
        if st.expressions.len() > 0 && arg != "-e"@ && arg != "--expr"@ && !starts_with(
            arg,
            "--expr="@,
        ) {
        } else if arg == "-e"@ || arg == "--expr"@ {
            if i + 1 < rest.len() {
                lemma_run_scan_shift(
                    p,
                    rest,
                    i + 2,
                    Scan { expressions: st.expressions.push(rest[i + 1]), ..st },
                );
            }
        } else if starts_with(arg, "--expr="@) {
            lemma_run_scan_shift(
                p,
                rest,
                i + 1,
                Scan { expressions: st.expressions.push(arg.skip("--expr="@.len() as int)), ..st },
            );
        } else if arg == "--from"@ || starts_with(arg, "--from="@) {
        } else if arg == "--with"@ {
            if i + 1 < rest.len() {
                lemma_run_scan_shift(p, rest, i + 2, with_more_deps(st, rest[i + 1]));
            }
        } else if starts_with(arg, "--with="@) {
            lemma_run_scan_shift(p, rest, i + 1, with_more_deps(st, arg.skip("--with="@.len() as int)));
        } else if arg == "--r-version"@ {
            if i + 1 < rest.len() {
                lemma_run_scan_shift(p, rest, i + 2, with_requirement(st, rest[i + 1]));
            }
        } else if starts_with(arg, "--r-version="@) {
            lemma_run_scan_shift(
                p,
                rest,
                i + 1,
                with_requirement(st, arg.skip("--r-version="@.len() as int)),
            );
        } else if arg == "--isolated"@ {
            lemma_run_scan_shift(p, rest, i + 1, Scan { isolated: true, ..st });
        } else if arg == "-"@ {
        } else if starts_with(arg, "-"@) {
            lemma_run_scan_shift(p, rest, i + 1, Scan { rscript_args: st.rscript_args.push(arg), ..st });
        }
    }
}

proof fn lemma_run_scan_requirement(a: Seq<Seq<char>>, i: int, st: Scan, x: Seq<char>)
    ensures
        run_scan(a, i, requirement_or(st, x)) == ended_with_requirement(run_scan(a, i, st), x),
    decreases a.len() - i,
{
    let s = requirement_or(st, x);
    if 0 <= i < a.len() {
        let arg = a[i];
        if st.expressions.len() > 0 && arg != "-e"@ && arg != "--expr"@ && !starts_with(
            arg,
            "--expr="@,
        ) {
        } else if arg == "-e"@ || arg == "--expr"@ {
            if i + 1 < a.len() {
                let n = Scan { expressions: st.expressions.push(a[i + 1]), ..st };
                assert(Scan { expressions: s.expressions.push(a[i + 1]), ..s } == requirement_or(n, x));
                lemma_run_scan_requirement(a, i + 2, n, x);
            }
        } else if starts_with(arg, "--expr="@) {
            let v = arg.skip("--expr="@.len() as int);
            let n = Scan { expressions: st.expressions.push(v), ..st };
            assert(Scan { expressions: s.expressions.push(v), ..s } == requirement_or(n, x));
            lemma_run_scan_requirement(a, i + 1, n, x);
        } else if arg == "--from"@ || starts_with(arg, "--from="@) {
        } else if arg == "--with"@ {
            if i + 1 < a.len() {
                let n = with_more_deps(st, a[i + 1]);
                assert(with_more_deps(s, a[i + 1]) == requirement_or(n, x));
                lemma_run_scan_requirement(a, i + 2, n, x);
            }
        } else if starts_with(arg, "--with="@) {
            let v = arg.skip("--with="@.len() as int);
            let n = with_more_deps(st, v);
            assert(with_more_deps(s, v) == requirement_or(n, x));
            lemma_run_scan_requirement(a, i + 1, n, x);
        } else if arg == "--r-version"@ {
            if i + 1 < a.len() {
                let n = with_requirement(st, a[i + 1]);
                assert(with_requirement(s, a[i + 1]) == n);
                assert(requirement_or(n, x) == n);
                lemma_run_scan_requirement(a, i + 2, n, x);
            }
        } else if starts_with(arg, "--r-version="@) {
            let v = arg.skip("--r-version="@.len() as int);
            let n = with_requirement(st, v);
            assert(with_requirement(s, v) == n);
            assert(requirement_or(n, x) == n);
            lemma_run_scan_requirement(a, i + 1, n, x);
        } else if arg == "--isolated"@ {
            let n = Scan { isolated: true, ..st };
            assert(Scan { isolated: true, ..s } == requirement_or(n, x));
            lemma_run_scan_requirement(a, i + 1, n, x);
        } else if arg == "-"@ {
        } else if starts_with(arg, "-"@) {
            let n = Scan { rscript_args: st.rscript_args.push(arg), ..st };
            assert(Scan { rscript_args: s.rscript_args.push(arg), ..s } == requirement_or(n, x));
            lemma_run_scan_requirement(a, i + 1, n, x);
        }
    }
}

proof fn lemma_run_scan_end(a: Seq<Seq<char>>, i: int)
    requires
        0 <= i,
    ensures
        forall|st: Scan|
            #[trigger] run_scan(a, i, st) is Ok ==> 0 <= run_scan(a, i, st)->Ok_0.2 <= a.len(),
    decreases a.len() - i,
{
    if i < a.len() {
        lemma_run_scan_end(a, i + 1);
        if i + 2 <= a.len() {
            lemma_run_scan_end(a, i + 2);
        }
        assert forall|st: Scan| #[trigger] run_scan(a, i, st) is Ok implies 0 <= run_scan(
            a,
            i,
            st,
        )->Ok_0.2 <= a.len() by {
            let arg = a[i];
            let r = run_scan(a, i, st);
            if st.expressions.len() > 0 && arg != "-e"@ && arg != "--expr"@ && !starts_with(
                arg,
                "--expr="@,
            ) {
            } else if arg == "-e"@ || arg == "--expr"@ {
                if i + 1 < a.len() {
                    assert(r == run_scan(
                        a,
                        i + 2,
                        Scan { expressions: st.expressions.push(a[i + 1]), ..st },
                    ));
                }
            } else if starts_with(arg, "--expr="@) {
                assert(r == run_scan(
                    a,
                    i + 1,
                    Scan {
                        expressions: st.expressions.push(arg.skip("--expr="@.len() as int)),
                        ..st
                    },
                ));
            } else if arg == "--from"@ || starts_with(arg, "--from="@) {
            } else if arg == "--with"@ {
                if i + 1 < a.len() {
                    assert(r == run_scan(a, i + 2, with_more_deps(st, a[i + 1])));
                }
            } else if starts_with(arg, "--with="@) {
                assert(r == run_scan(a, i + 1, with_more_deps(st, arg.skip("--with="@.len() as int))));
            } else if arg == "--r-version"@ {
                if i + 1 < a.len() {
                    assert(r == run_scan(a, i + 2, with_requirement(st, a[i + 1])));
                }
            } else if starts_with(arg, "--r-version="@) {
                assert(r == run_scan(
                    a,
                    i + 1,
                    with_requirement(st, arg.skip("--r-version="@.len() as int)),
                ));
            } else if arg == "--isolated"@ {
                assert(r == run_scan(a, i + 1, Scan { isolated: true, ..st }));
            } else if arg == "-"@ {
            } else if starts_with(arg, "-"@) {
                assert(r == run_scan(a, i + 1, Scan { rscript_args: st.rscript_args.push(arg), ..st }));
            }
        }
    }
}

/// `ir run` reads `--r-version X` before the other arguments as a request
/// for R `X`: the arguments parse as the rest would, asking for R `X`
/// unless a later `--r-version` names another (the last wins).
pub proof fn lemma_run_r_version_option(x: Seq<char>, rest: Seq<Seq<char>>)
    ensures
        run_args_of(seq!["--r-version"@, x] + rest) == match run_args_of(rest) {
            Err(e) => Err::<RunArgsView, Seq<char>>(e),
            Ok(v) => Ok(
                RunArgsView {
                    r_requirement: Some(
                        match v.r_requirement {
                            Some(r) => r,
                            None => x,
                        },
                    ),
                    ..v
                },
            ),
        },
{
    reveal_strlit("--r-version");
    reveal_strlit("-e");
    reveal_strlit("--expr");
    reveal_strlit("--expr=");
    reveal_strlit("--from");
    reveal_strlit("--from=");
    reveal_strlit("--with");
    reveal_strlit("--with=");
    let p = seq!["--r-version"@, x];
    let a = p + rest;
    assert(a[0] == "--r-version"@ && a[1] == x);
    let v = "--r-version"@;
    assert(v != "-e"@ && v != "--expr"@ && v != "--from"@ && v != "--with"@);
    assert(!starts_with(v, "--expr="@)) by {
        assert(v.subrange(0, 7)[2] != "--expr="@[2]);
    }
    assert(!starts_with(v, "--from="@)) by {
        assert(v.subrange(0, 7)[2] != "--from="@[2]);
    }
    assert(!starts_with(v, "--with="@)) by {
        assert(v.subrange(0, 7)[2] != "--with="@[2]);
    }
    let e = empty_scan();
    assert(with_requirement(e, x) == requirement_or(e, x));
    assert(run_scan(a, 0, e) == run_scan(a, 2, requirement_or(e, x)));
    lemma_run_scan_requirement(a, 2, e, x);
    lemma_run_scan_shift(p, rest, 0, e);
    lemma_run_scan_end(rest, 0);
    match run_scan(rest, 0, e) {
        Err(_) => {},
        Ok((st, pos, end)) => {
            assert(a.skip(end + 2) =~= rest.skip(end));
        },
    }
}


proof fn lemma_install_scan_shift(p: Seq<Seq<char>>, rest: Seq<Seq<char>>, i: int, st: Scan)
    requires
        0 <= i,
    ensures
        install_scan(p + rest, p.len() + i, st) == shifted_end(install_scan(rest, i, st), p.len() as int),
    decreases rest.len() - i,
{
    let a = p + rest;
    let k = p.len() as int;
    if i < rest.len() {
        let arg = rest[i];
        assert(a[k + i] == arg);
        if i + 1 < rest.len() {
            assert(a[k + i + 1] == rest[i + 1]);
        }
        if arg == "--with"@ {
            if i + 1 < rest.len() {
                lemma_install_scan_shift(p, rest, i + 2, with_more_deps(st, rest[i + 1]));
            }
        } else if starts_with(arg, "--with="@) {
            lemma_install_scan_shift(p, rest, i + 1, with_more_deps(st, arg.skip("--with="@.len() as int)));
        } else if arg == "--r-version"@ {
            if i + 1 < rest.len() {
                lemma_install_scan_shift(p, rest, i + 2, with_requirement(st, rest[i + 1]));
            }
        } else if starts_with(arg, "--r-version="@) {
            lemma_install_scan_shift(
                p,
                rest,
                i + 1,
                with_requirement(st, arg.skip("--r-version="@.len() as int)),
            );
        } else if arg == "--bin-dir"@ {
            if i + 1 < rest.len() {
                lemma_install_scan_shift(p, rest, i + 2, Scan { bin_dir: Some(rest[i + 1]), ..st });
            }
        } else if starts_with(arg, "--bin-dir="@) {
            lemma_install_scan_shift(
                p,
                rest,
                i + 1,
                Scan { bin_dir: Some(arg.skip("--bin-dir="@.len() as int)), ..st },
            );
        } else if arg == "--force"@ {
            lemma_install_scan_shift(p, rest, i + 1, Scan { force: true, ..st });
        }
    }
}

proof fn lemma_install_scan_requirement(a: Seq<Seq<char>>, i: int, st: Scan, x: Seq<char>)
    ensures
        install_scan(a, i, requirement_or(st, x)) == ended_with_requirement(install_scan(a, i, st), x),
    decreases a.len() - i,
{
    let s = requirement_or(st, x);
    if 0 <= i < a.len() {
        let arg = a[i];
        if arg == "--with"@ {
            if i + 1 < a.len() {
                let n = with_more_deps(st, a[i + 1]);
                assert(with_more_deps(s, a[i + 1]) == requirement_or(n, x));
                lemma_install_scan_requirement(a, i + 2, n, x);
            }
        } else if starts_with(arg, "--with="@) {
            let v = arg.skip("--with="@.len() as int);
            let n = with_more_deps(st, v);
            assert(with_more_deps(s, v) == requirement_or(n, x));
            lemma_install_scan_requirement(a, i + 1, n, x);
        } else if arg == "--r-version"@ {
            if i + 1 < a.len() {
                let n = with_requirement(st, a[i + 1]);
                assert(with_requirement(s, a[i + 1]) == n);
                assert(requirement_or(n, x) == n);
                lemma_install_scan_requirement(a, i + 2, n, x);
            }
        } else if starts_with(arg, "--r-version="@) {
            let v = arg.skip("--r-version="@.len() as int);
            let n = with_requirement(st, v);
            assert(with_requirement(s, v) == n);
            assert(requirement_or(n, x) == n);
            lemma_install_scan_requirement(a, i + 1, n, x);
        } else if arg == "--bin-dir"@ {
            if i + 1 < a.len() {
                let n = Scan { bin_dir: Some(a[i + 1]), ..st };
                assert(Scan { bin_dir: Some(a[i + 1]), ..s } == requirement_or(n, x));
                lemma_install_scan_requirement(a, i + 2, n, x);
            }
        } else if starts_with(arg, "--bin-dir="@) {
            let v = arg.skip("--bin-dir="@.len() as int);
            let n = Scan { bin_dir: Some(v), ..st };
            assert(Scan { bin_dir: Some(v), ..s } == requirement_or(n, x));
            lemma_install_scan_requirement(a, i + 1, n, x);
        } else if arg == "--force"@ {
            let n = Scan { force: true, ..st };
            assert(Scan { force: true, ..s } == requirement_or(n, x));
            lemma_install_scan_requirement(a, i + 1, n, x);
        }
    }
}

proof fn lemma_install_scan_end(a: Seq<Seq<char>>, i: int)
    requires
        0 <= i,
    ensures
        forall|st: Scan|
            #[trigger] install_scan(a, i, st) is Ok ==> 0 <= install_scan(a, i, st)->Ok_0.2 <= a.len(),
    decreases a.len() - i,
{
    if i < a.len() {
        lemma_install_scan_end(a, i + 1);
        if i + 2 <= a.len() {
            lemma_install_scan_end(a, i + 2);
        }
        assert forall|st: Scan| #[trigger] install_scan(a, i, st) is Ok implies 0 <= install_scan(
            a,
            i,
            st,
        )->Ok_0.2 <= a.len() by {
            let arg = a[i];
            let r = install_scan(a, i, st);
            if arg == "--with"@ {
                if i + 1 < a.len() {
                    assert(r == install_scan(a, i + 2, with_more_deps(st, a[i + 1])));
                }
            } else if starts_with(arg, "--with="@) {
                assert(r == install_scan(a, i + 1, with_more_deps(st, arg.skip("--with="@.len() as int))));
            } else if arg == "--r-version"@ {
                if i + 1 < a.len() {
                    assert(r == install_scan(a, i + 2, with_requirement(st, a[i + 1])));
                }
            } else if starts_with(arg, "--r-version="@) {
                assert(r == install_scan(
                    a,
                    i + 1,
                    with_requirement(st, arg.skip("--r-version="@.len() as int)),
                ));
            } else if arg == "--bin-dir"@ {
                if i + 1 < a.len() {
                    assert(r == install_scan(a, i + 2, Scan { bin_dir: Some(a[i + 1]), ..st }));
                }
            } else if starts_with(arg, "--bin-dir="@) {
                let v = arg.skip("--bin-dir="@.len() as int);
                if v.len() > 0 {
                    assert(r == install_scan(a, i + 1, Scan { bin_dir: Some(v), ..st }));
                }
            } else if arg == "--force"@ {
                assert(r == install_scan(a, i + 1, Scan { force: true, ..st }));
            }
        }
    }
}

/// `ir tool install` reads `--r-version X` before the other arguments as a
/// request for R `X`: the arguments parse as the rest would, asking for R
/// `X` unless a later `--r-version` names another (the last wins).
pub proof fn lemma_install_r_version_option(
    x: Seq<char>,
    rest: Seq<Seq<char>>,
    default_bin_dir: Result<Seq<char>, Seq<char>>,
)
    ensures
        tool_install_args_of(seq!["--r-version"@, x] + rest, default_bin_dir) == match tool_install_args_of(
            rest,
            default_bin_dir,
        ) {
            Err(e) => Err::<ToolInstallArgsView, Seq<char>>(e),
            Ok(v) => Ok(
                ToolInstallArgsView {
                    r_requirement: Some(
                        match v.r_requirement {
                            Some(r) => r,
                            None => x,
                        },
                    ),
                    ..v
                },
            ),
        },
{
    reveal_strlit("--r-version");
    reveal_strlit("--with");
    reveal_strlit("--with=");
    let p = seq!["--r-version"@, x];
    let a = p + rest;
    assert(a[0] == "--r-version"@ && a[1] == x);
    let v = "--r-version"@;
    assert(v != "--with"@);
    assert(!starts_with(v, "--with="@)) by {
        assert(v.subrange(0, 7)[2] != "--with="@[2]);
    }
    let e = empty_scan();
    assert(with_requirement(e, x) == requirement_or(e, x));
    assert(install_scan(a, 0, e) == install_scan(a, 2, requirement_or(e, x)));
    lemma_install_scan_requirement(a, 2, e, x);
    lemma_install_scan_shift(p, rest, 0, e);
    lemma_install_scan_end(rest, 0);
    match install_scan(rest, 0, e) {
        Err(_) => {},
        Ok((st, pos, end)) => {
            if pos is Some && end < rest.len() {
                assert(a[end + 2] == rest[end]);
            }
        },
    }
}

} // verus!
