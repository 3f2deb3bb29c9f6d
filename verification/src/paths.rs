//! File-name facts about paths given as text.
use vstd::prelude::*;

use crate::text::{chars_of, lower, lowered, slice_vec, eq_lit};

verus! {

/// A path separator on `platform`: `/`, and on Windows also `\\`.
pub open spec fn is_sep(c: char, platform: Platform) -> bool {
    c == '/' || (platform == Platform::Windows && c == '\\')
}

/// `end` with the separators just before it dropped.
pub open spec fn trimmed_end(p: Seq<char>, end: int, platform: Platform) -> int
    decreases end,
{
    if end > 0 && is_sep(p[end - 1], platform) {
        trimmed_end(p, end - 1, platform)
    } else {
        end
    }
}

/// Index where the component ending at `end` starts: just after the last
/// separator before `end`.
pub open spec fn component_start(p: Seq<char>, end: int, platform: Platform) -> int
    decreases end,
{
    if end <= 0 {
        0
    } else if is_sep(p[end - 1], platform) {
        end
    } else {
        component_start(p, end - 1, platform)
    }
}

/// A Windows drive prefix such as `C:` at the start of `p`.
pub open spec fn drive_prefix(p: Seq<char>) -> bool {
    p.len() >= 2 && crate::text::is_alpha(p[0]) && p[1] == ':'
}

/// Where the component ending at `end` starts; on Windows a drive prefix
/// is not part of the first component.
pub open spec fn name_start(p: Seq<char>, end: int, platform: Platform) -> int {
    let s = component_start(p, end, platform);
    if platform == Platform::Windows && s == 0 && end >= 2 && drive_prefix(p) {
        2
    } else {
        s
    }
}

/// Start and end of the last component of `p[..end]` as `Path::components`
/// yields it: trailing separators are ignored, and so are `.` components
/// that do not start the path.
pub open spec fn last_component_bounds(p: Seq<char>, end: int, platform: Platform) -> (int, int)
    decreases end,
{
    let e = trimmed_end(p, end, platform);
    let s = name_start(p, e, platform);
    if 0 < s < end && e == s + 1 && p[s] == '.' {
        last_component_bounds(p, s, platform)
    } else {
        (s, e)
    }
}

/// The last component of a path on `platform` (empty where there is none).
pub open spec fn last_component(p: Seq<char>, platform: Platform) -> Seq<char> {
    let (s, e) = last_component_bounds(p, p.len() as int, platform);
    p.subrange(s, e)
}

/// Index of the last `.` in `n`, if any.
pub open spec fn last_dot(n: Seq<char>, end: int) -> Option<int>
    decreases end,
{
    if end <= 0 {
        None
    } else if n[end - 1] == '.' {
        Some(end - 1)
    } else {
        last_dot(n, end - 1)
    }
}

/// The extension of a path, as `Path::extension` reads it on `platform`:
/// the text after the last `.` of the last component, unless that `.`
/// starts the component, there is none, or the component is `..`. (Of the
/// Windows prefixes, a drive such as `C:` is set apart; UNC and verbatim
/// prefixes are read as ordinary components.)
pub open spec fn extension_of(p: Seq<char>, platform: Platform) -> Option<Seq<char>> {
    let n = last_component(p, platform);
    if n == seq!['.', '.'] {
        None
    } else {
        match last_dot(n, n.len() as int) {
            Some(i) => if i > 0 {
                Some(n.skip(i + 1))
            } else {
                None
            },
            None => None,
        }
    }
}

proof fn lemma_trimmed_end(p: Seq<char>, end: int, platform: Platform)
    requires
        0 <= end <= p.len(),
    ensures
        0 <= trimmed_end(p, end, platform) <= end,
    decreases end,
{
    if end > 0 && is_sep(p[end - 1], platform) {
        lemma_trimmed_end(p, end - 1, platform);
    }
}

proof fn lemma_component_start(p: Seq<char>, end: int, platform: Platform)
    requires
        0 <= end <= p.len(),
    ensures
        0 <= component_start(p, end, platform) <= end,
    decreases end,
{
    if end > 0 && !is_sep(p[end - 1], platform) {
        lemma_component_start(p, end - 1, platform);
    }
}

proof fn lemma_bounds(p: Seq<char>, end: int, platform: Platform)
    requires
        0 <= end <= p.len(),
    ensures
        0 <= last_component_bounds(p, end, platform).0 <= last_component_bounds(p, end, platform).1
            <= end,
    decreases end,
{
    let e = trimmed_end(p, end, platform);
    lemma_trimmed_end(p, end, platform);
    lemma_component_start(p, e, platform);
    let s = name_start(p, e, platform);
    if 0 < s < end && e == s + 1 && p[s] == '.' {
        lemma_bounds(p, s, platform);
    }
}

proof fn lemma_last_dot(n: Seq<char>, end: int)
    requires
        0 <= end <= n.len(),
    ensures
        last_dot(n, end) matches Some(i) ==> 0 <= i < end,
    decreases end,
{
    if end > 0 && n[end - 1] != '.' {
        lemma_last_dot(n, end - 1);
    }
}

fn char_is_sep(c: char, platform: Platform) -> (r: bool)
    ensures
        r == is_sep(c, platform),
{
    c == '/' || (platform == Platform::Windows && c == '\\')
}

/// The extension of `path` on `platform`, as text.
pub fn file_extension(path: &[char], platform: Platform) -> (r: Option<Vec<char>>)
    ensures
        r matches Some(e) ==> extension_of(path@, platform) == Some(e@),
        r is None ==> extension_of(path@, platform) is None,
{
    let ghost p = path@;
    let mut end = path.len();
    let mut s: usize;
    let mut e: usize;
    loop
        invariant
            end <= p.len(),
            p == path@,
            last_component_bounds(p, p.len() as int, platform) == last_component_bounds(
                p,
                end as int,
                platform,
            ),
        ensures
            s <= e <= p.len(),
            last_component_bounds(p, p.len() as int, platform) == (s as int, e as int),
        decreases end,
    {
        e = end;
        while e > 0 && char_is_sep(path[e - 1], platform)
            invariant
                e <= end <= p.len(),
                p == path@,
                trimmed_end(p, end as int, platform) == trimmed_end(p, e as int, platform),
            decreases e,
        {
            e -= 1;
        }
        s = e;
        while s > 0 && !char_is_sep(path[s - 1], platform)
            invariant
                s <= e <= p.len(),
                p == path@,
                component_start(p, e as int, platform) == component_start(p, s as int, platform),
            decreases s,
        {
            s -= 1;
        }
        if platform == Platform::Windows && s == 0 && e >= 2 && crate::text::char_is_alpha(path[0])
            && path[1] == ':' {
            s = 2;
        }
        assert(name_start(p, e as int, platform) == s);
        if 0 < s && s < end && e == s + 1 && path[s] == '.' {
            end = s;
        } else {
            proof {
                lemma_bounds(p, end as int, platform);
            }
            break;
        }
    }
    let name = slice_vec(path, s, e);
    assert(name@ =~= last_component(path@, platform));
    if eq_lit(&name, "..") {
        proof {
            reveal_strlit("..");
        }
        assert(name@ =~= seq!['.', '.']);
        return None;
    }
    proof {
        reveal_strlit("..");
    }
    assert(".."@ =~= seq!['.', '.']);
    assert(name@ != seq!['.', '.']);
    let mut k = name.len();
    while k > 0 && name[k - 1] != '.'
        invariant
            k <= name@.len(),
            last_dot(name@, name@.len() as int) == last_dot(name@, k as int),
        decreases k,
    {
        k -= 1;
    }
    if k == 0 {
        return None;
    }
    if k - 1 == 0 {
        return None;
    }
    assert(last_dot(name@, k as int) == Some(k - 1));
    Some(slice_vec(&name, k, name.len()))
}

/// What kind of source an extension marks.
pub enum SourceKind {
    /// `.qmd`
    QuartoMarkdown,
    /// `.Rmd` (any case)
    RMarkdown,
    /// `.R` (any case)
    RScript,
    Other,
}

pub open spec fn kind_of_extension(e: Option<Seq<char>>) -> SourceKind {
    match e {
        Some(x) => if lower(x) == "qmd"@ {
            SourceKind::QuartoMarkdown
        } else if lower(x) == "rmd"@ {
            SourceKind::RMarkdown
        } else if lower(x) == "r"@ {
            SourceKind::RScript
        } else {
            SourceKind::Other
        },
        None => SourceKind::Other,
    }
}

/// The kind of source `path` is on `platform`, by its extension, compared
/// without case.
pub fn source_kind(path: &str, platform: Platform) -> (r: SourceKind)
    ensures
        r == kind_of_extension(extension_of(path@, platform)),
{
    match file_extension(&chars_of(path), platform) {
        Some(e) => {
            let l = lowered(&e);
            if eq_lit(&l, "qmd") {
                SourceKind::QuartoMarkdown
            } else if eq_lit(&l, "rmd") {
                SourceKind::RMarkdown
            } else if eq_lit(&l, "r") {
                SourceKind::RScript
            } else {
                SourceKind::Other
            }
        },
        None => SourceKind::Other,
    }
}

/// The operating system a decision is made for: the original chooses
/// directories and launcher formats per platform.
#[derive(PartialEq, Eq, Structural, Clone, Copy)]
pub enum Platform {
    Linux,
    MacOs,
    Windows,
}

/// A directory given as a starting path, optionally its parent, then the
/// components joined below it.
pub struct PathPlan {
    pub base: String,
    pub parent: bool,
    pub parts: Vec<String>,
}

/// A plan as plain values: the base, whether to take its parent, and the
/// components.
pub open spec fn plan_view(p: PathPlan) -> (Seq<char>, bool, Seq<Seq<char>>) {
    (p.base@, p.parent, p.parts@.map_values(|s: String| s@))
}

/// `std::path::Path::parent` of the path `path`, as text. Trusted: the
/// empty path has no parent, and a parent is the path without its final
/// component, so a strictly shorter prefix of it, as std documents. Where
/// the final component starts is left unsaid: it follows the platform's
/// separators, roots and prefixes.
#[verifier::external_body]
fn path_parent(path: &str) -> (r: Option<String>)
    ensures
        path@.len() == 0 ==> r is None,
        r matches Some(p) ==> p@.len() < path@.len() && path@.take(p@.len() as int) == p@,
{
    std::path::Path::new(path).parent().and_then(|p| p.to_str()).map(str::to_string)
}

/// Where a plan starts, given the parent the platform finds for its base:
/// the base itself where the plan takes no parent, else that parent, or
/// the error `parentless` where the base has none.
pub fn plan_start_from(plan: &PathPlan, parent_of_base: Option<String>, parentless: &str) -> (r:
    Result<String, String>)
    ensures
        !plan.parent ==> (r matches Ok(s) && s@ == plan.base@),
        plan.parent ==> match parent_of_base {
            Some(p) => r matches Ok(s) && s@ == p@,
            None => r matches Err(e) && e@ == parentless@,
        },
{
    if !plan.parent {
        return Ok(plan.base.clone());
    }
    match parent_of_base {
        Some(p) => Ok(p),
        None => Err(crate::text::lit(parentless)),
    }
}

/// Where a plan starts: its base, or the base's parent where the plan
/// takes one; `parentless` where the base has no parent (an empty base
/// never has one).
pub fn plan_start(plan: &PathPlan, parentless: &str) -> (r: Result<String, String>)
    ensures
        !plan.parent ==> (r matches Ok(s) && s@ == plan.base@),
        plan.parent ==> (r is Ok || (r matches Err(e) && e@ == parentless@)),
        plan.parent && plan.base@.len() == 0 ==> (r matches Err(e) && e@ == parentless@),
        plan.parent ==> (r matches Ok(s) ==> s@.len() < plan.base@.len() && plan.base@.take(
            s@.len() as int,
        ) == s@),
{
    let parent = if plan.parent {
        path_parent(plan.base.as_str())
    } else {
        None
    };
    plan_start_from(plan, parent, parentless)
}

/// A plan from `base` and the components `parts`.
pub fn plan(base: &str, parent: bool, parts: &[&str]) -> (r: PathPlan)
    ensures
        plan_view(r) == (base@, parent, parts@.map_values(|s: &str| s@)),
{
    let mut v: Vec<String> = Vec::new();
    let mut i: usize = 0;
    while i < parts.len()
        invariant
            i <= parts@.len(),
            v@.map_values(|s: String| s@) == parts@.take(i as int).map_values(|s: &str| s@),
        decreases parts@.len() - i,
    {
        let ghost before = v@;
        let x = crate::text::lit(parts[i]);
        v.push(x);
        assert(v@.map_values(|s: String| s@) =~= before.map_values(|s: String| s@).push(x@));
        assert(parts@.take(i + 1).map_values(|s: &str| s@) =~= parts@.take(i as int).map_values(
            |s: &str| s@,
        ).push(parts@[i as int]@));
        i += 1;
    }
    assert(parts@.take(parts@.len() as int) =~= parts@);
    PathPlan { base: crate::text::lit(base), parent, parts: v }
}

} // verus!
