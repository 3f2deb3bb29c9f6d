//! Quarto sources: which fenced chunks a document executes, which engine
//! its frontmatter picks, and whether its Python chunks need reticulate.
use vstd::prelude::*;

use crate::paths::{extension_of, kind_of_extension, source_kind, Platform, SourceKind};
use crate::spec::RuntimeSpec;
use crate::text::{lines, starts_with};
use crate::yaml::{first_document, get, load_first_yaml_document, mapping_get, YamlEntry, YamlNode};

use crate::text::{
    chars_of, is_alnum, lower, lowered, slice_vec, string_of, trim, trim_end, trim_start, trimmed,
    trimmed_end, trimmed_start,
};

verus! {

/// A code fence: its marker (`` ` `` or `~`) and how many of them open it.
#[derive(Clone, Copy, PartialEq, Eq, Structural)]
pub struct Fence {
    pub marker: char,
    pub count: usize,
}

/// The number of leading spaces of `s`.
pub open spec fn space_run(s: Seq<char>) -> nat
    decreases s.len(),
{
    if s.len() == 0 || s[0] != ' ' {
        0
    } else {
        1 + space_run(s.drop_first())
    }
}

pub proof fn lemma_space_run(s: Seq<char>)
    ensures
        space_run(s) <= s.len(),
        forall|k: int| 0 <= k < space_run(s) ==> #[trigger] s[k] == ' ',
        space_run(s) < s.len() ==> s[space_run(s) as int] != ' ',
    decreases s.len(),
{
    if s.len() > 0 && s[0] == ' ' {
        let t = s.drop_first();
        lemma_space_run(t);
        assert forall|k: int| 0 <= k < space_run(s) implies #[trigger] s[k] == ' ' by {
            if k > 0 {
                assert(s[k] == t[k - 1]);
            }
        }
        if space_run(s) < s.len() {
            assert(s[space_run(s) as int] == t[space_run(t) as int]);
        }
    }
}

proof fn lemma_space_run_at(s: Seq<char>, i: int)
    requires
        0 <= i <= s.len(),
        forall|k: int| 0 <= k < i ==> #[trigger] s[k] == ' ',
        i == s.len() || s[i] != ' ',
    ensures
        space_run(s) == i,
    decreases i,
{
    if i > 0 {
        let t = s.drop_first();
        assert(s[0] == ' ');
        assert forall|k: int| 0 <= k < i - 1 implies #[trigger] t[k] == ' ' by {
            assert(t[k] == s[k + 1]);
        }
        if i < s.len() {
            assert(t[i - 1] == s[i]);
        }
        lemma_space_run_at(t, i - 1);
    }
}

/// A line with its block-quote markers removed, as Markdown reads a fence:
/// at most three spaces of indentation before each level, no tab, and an
/// optional space after each `>`. None where the line cannot hold a fence.
pub open spec fn fence_line(s: Seq<char>) -> Option<Seq<char>>
    decreases s.len(),
{
    let n = space_run(s);
    if n > 3 {
        None
    } else {
        proof {
            lemma_space_run(s);
        }
        let t = s.skip(n as int);
        if t.len() > 0 && t[0] == '\t' {
            None
        } else if t.len() > 0 && t[0] == '>' {
            let r = t.drop_first();
            let r2 = if r.len() > 0 && r[0] == ' ' {
                r.drop_first()
            } else {
                r
            };
            fence_line(r2)
        } else {
            Some(t)
        }
    }
}

/// The text of `line` where a fence could open, without quote markers.
pub fn markdown_fence_line(line: &[char]) -> (r: Option<Vec<char>>)
    ensures
        match fence_line(line@) {
            Some(t) => r matches Some(v) && v@ == t,
            None => r is None,
        },
{
    let mut cur: Vec<char> = slice_vec(line, 0, line.len());
    assert(cur@ =~= line@);
    loop
        invariant
            fence_line(line@) == fence_line(cur@),
        decreases cur@.len(),
    {
        let mut n: usize = 0;
        while n < cur.len() && cur[n] == ' '
            invariant
                n <= cur@.len(),
                forall|k: int| 0 <= k < n ==> #[trigger] cur@[k] == ' ',
            decreases cur@.len() - n,
        {
            n += 1;
        }
        proof {
            lemma_space_run_at(cur@, n as int);
            lemma_space_run(cur@);
        }
        if n > 3 {
            return None;
        }
        let t = slice_vec(cur.as_slice(), n, cur.len());
        assert(t@ =~= cur@.skip(n as int));
        if t.len() > 0 && t[0] == '\t' {
            return None;
        }
        if t.len() > 0 && t[0] == '>' {
            let start: usize = if t.len() > 1 && t[1] == ' ' {
                2
            } else {
                1
            };
            let next = slice_vec(t.as_slice(), start, t.len());
            proof {
                let r = t@.drop_first();
                if start == 2 {
                    assert(next@ =~= r.drop_first());
                } else {
                    assert(next@ =~= r);
                }
            }
            cur = next;
        } else {
            return Some(t);
        }
    }
}

/// The number of leading `m` characters of `s`.
pub open spec fn marker_run(s: Seq<char>, m: char) -> nat
    decreases s.len(),
{
    if s.len() == 0 || s[0] != m {
        0
    } else {
        1 + marker_run(s.drop_first(), m)
    }
}

proof fn lemma_marker_run_at(s: Seq<char>, m: char, i: int)
    requires
        0 <= i <= s.len(),
        forall|k: int| 0 <= k < i ==> #[trigger] s[k] == m,
        i == s.len() || s[i] != m,
    ensures
        marker_run(s, m) == i,
    decreases i,
{
    if i > 0 {
        let t = s.drop_first();
        assert(s[0] == m);
        assert forall|k: int| 0 <= k < i - 1 implies #[trigger] t[k] == m by {
            assert(t[k] == s[k + 1]);
        }
        if i < s.len() {
            assert(t[i - 1] == s[i]);
        }
        lemma_marker_run_at(t, m, i - 1);
    }
}

/// The fence a line opens, if any, and the text after its markers: three or
/// more backticks or tildes after what `fence_line` strips.
pub open spec fn fence_start_of(line: Seq<char>) -> Option<(Fence, Seq<char>)> {
    match fence_line(line) {
        None => None,
        Some(l) => if l.len() == 0 || !(l[0] == '`' || l[0] == '~') {
            None
        } else {
            let m = l[0];
            let c = marker_run(l, m);
            if c < 3 {
                None
            } else {
                Some((Fence { marker: m, count: c as usize }, l.skip(c as int)))
            }
        },
    }
}

/// The fence `line` opens and the text after it.
pub fn fence_start(line: &[char]) -> (r: Option<(Fence, Vec<char>)>)
    ensures
        match fence_start_of(line@) {
            Some((f, rest)) => r matches Some(x) && x.0 == f && x.1@ == rest,
            None => r is None,
        },
{
    let l = match markdown_fence_line(line) {
        Some(l) => l,
        None => {
            return None;
        },
    };
    if l.len() == 0 || !(l[0] == '`' || l[0] == '~') {
        return None;
    }
    let m = l[0];
    let mut c: usize = 0;
    while c < l.len() && l[c] == m
        invariant
            c <= l@.len(),
            forall|k: int| 0 <= k < c ==> #[trigger] l@[k] == m,
        decreases l@.len() - c,
    {
        c += 1;
    }
    proof {
        lemma_marker_run_at(l@, m, c as int);
    }
    if c < 3 {
        return None;
    }
    let rest = slice_vec(l.as_slice(), c, l.len());
    assert(rest@ =~= l@.skip(c as int));
    Some((Fence { marker: m, count: c }, rest))
}

/// Whether `line` closes a chunk opened by `expected`: the same marker, at
/// least as many, and nothing but blanks after them.
pub open spec fn closes(line: Seq<char>, expected: Fence) -> bool {
    match fence_start_of(line) {
        Some((f, rest)) => f.marker == expected.marker && f.count >= expected.count && trim(
            rest,
        ).len() == 0,
        None => false,
    }
}

/// Whether `line` closes the chunk opened by `expected`.
pub fn closing_fence(line: &[char], expected: Fence) -> (r: bool)
    ensures
        r == closes(line@, expected),
{
    match fence_start(line) {
        Some((f, rest)) => f.marker == expected.marker && f.count >= expected.count
            && trimmed(rest.as_slice()).len() == 0,
        None => false,
    }
}

pub open spec fn language_char(c: char) -> bool {
    is_alnum(c) || c == '_'
}

/// The number of leading language-name characters of `s`.
pub open spec fn language_run(s: Seq<char>) -> nat
    decreases s.len(),
{
    if s.len() == 0 || !language_char(s[0]) {
        0
    } else {
        1 + language_run(s.drop_first())
    }
}

proof fn lemma_language_run_at(s: Seq<char>, i: int)
    requires
        0 <= i <= s.len(),
        forall|k: int| 0 <= k < i ==> language_char(#[trigger] s[k]),
        i == s.len() || !language_char(s[i]),
    ensures
        language_run(s) == i,
    decreases i,
{
    if i > 0 {
        let t = s.drop_first();
        assert(language_char(s[0]));
        assert forall|k: int| 0 <= k < i - 1 implies language_char(#[trigger] t[k]) by {
            assert(t[k] == s[k + 1]);
        }
        if i < s.len() {
            assert(t[i - 1] == s[i]);
        }
        lemma_language_run_at(t, i - 1);
    }
}

/// The blanks `char::is_ascii_whitespace` accepts.
pub open spec fn ascii_white(c: char) -> bool {
    c == ' ' || c == '\t' || c == '\n' || c == '\u{0C}' || c == '\r'
}

/// The last position of `c` in `s`.
pub open spec fn last_index(s: Seq<char>, c: char) -> Option<int>
    decreases s.len(),
{
    if s.len() == 0 {
        None
    } else if s.last() == c {
        Some(s.len() - 1)
    } else {
        last_index(s.drop_last(), c)
    }
}

proof fn lemma_last_index_at(s: Seq<char>, c: char, i: int)
    requires
        -1 <= i < s.len(),
        forall|k: int| i < k < s.len() ==> #[trigger] s[k] != c,
        i >= 0 ==> s[i] == c,
    ensures
        last_index(s, c) == (if i >= 0 {
            Some(i)
        } else {
            None::<int>
        }),
    decreases s.len(),
{
    if s.len() > 0 && i < s.len() - 1 {
        assert(s.last() != c);
        let t = s.drop_last();
        assert forall|k: int| i < k < t.len() implies #[trigger] t[k] != c by {
            assert(t[k] == s[k]);
        }
        if i >= 0 {
            assert(t[i] == s[i]);
        }
        lemma_last_index_at(t, c, i);
    }
}

/// The language and fence of an executable chunk that `line` opens:
/// a fence, then `{language` with optional blanks, the language made of
/// letters, digits and `_`, followed by `}`, `,` or an ASCII blank, and a
/// closing `}` with nothing after it. The language is lowercased.
pub open spec fn chunk_start(line: Seq<char>) -> Option<(Seq<char>, Fence)> {
    match fence_start_of(line) {
        None => None,
        Some((f, rest)) => {
            let r = trim_start(rest);
            if !(r.len() > 0 && r[0] == '{') {
                None
            } else {
                let inside = trim_start(r.drop_first());
                let e = language_run(inside);
                let suffix = inside.skip(e as int);
                if e == 0 {
                    None
                } else if !(suffix.len() > 0 && (suffix[0] == '}' || suffix[0] == ',' || ascii_white(
                    suffix[0],
                ))) {
                    None
                } else {
                    match last_index(suffix, '}') {
                        None => None,
                        Some(close) => if trim(suffix.skip(close + 1)).len() != 0 {
                            None
                        } else {
                            Some((lower(inside.take(e as int)), f))
                        },
                    }
                }
            }
        },
    }
}

/// The language and fence of the executable chunk `line` opens.
pub fn executable_chunk_start(line: &[char]) -> (r: Option<(Vec<char>, Fence)>)
    ensures
        match chunk_start(line@) {
            Some((lang, f)) => r matches Some(x) && x.0@ == lang && x.1 == f,
            None => r is None,
        },
{
    let (fence, rest) = match fence_start(line) {
        Some(x) => x,
        None => {
            return None;
        },
    };
    let r = trimmed_start(rest.as_slice());
    if !(r.len() > 0 && r[0] == '{') {
        return None;
    }
    let after_brace = slice_vec(r.as_slice(), 1, r.len());
    assert(after_brace@ =~= r@.drop_first());
    let inside = trimmed_start(after_brace.as_slice());
    let mut e: usize = 0;
    while e < inside.len() && (crate::text::char_is_alnum(inside[e]) || inside[e] == '_')
        invariant
            e <= inside@.len(),
            forall|k: int| 0 <= k < e ==> language_char(#[trigger] inside@[k]),
        decreases inside@.len() - e,
    {
        e += 1;
    }
    proof {
        lemma_language_run_at(inside@, e as int);
    }
    if e == 0 {
        return None;
    }
    let suffix = slice_vec(inside.as_slice(), e, inside.len());
    assert(suffix@ =~= inside@.skip(e as int));
    if !(suffix.len() > 0 && (suffix[0] == '}' || suffix[0] == ',' || suffix[0] == ' ' || suffix[0]
        == '\t' || suffix[0] == '\n' || suffix[0] == '\u{0C}' || suffix[0] == '\r')) {
        return None;
    }
    let mut k: usize = suffix.len();
    while k > 0 && suffix[k - 1] != '}'
        invariant
            k <= suffix@.len(),
            forall|m: int| k <= m < suffix@.len() ==> #[trigger] suffix@[m] != '}',
        decreases k,
    {
        k -= 1;
    }
    proof {
        lemma_last_index_at(suffix@, '}', k - 1);
    }
    if k == 0 {
        return None;
    }
    let tail = slice_vec(suffix.as_slice(), k, suffix.len());
    assert(tail@ =~= suffix@.skip(k as int));
    if trimmed(tail.as_slice()).len() != 0 {
        return None;
    }
    let lang = slice_vec(inside.as_slice(), 0, e);
    assert(lang@ =~= inside@.take(e as int));
    Some((lowered(lang.as_slice()), fence))
}

/// What `chunk_languages` tracks while it reads a document line by line.
#[derive(Clone, Copy, PartialEq, Eq, Structural)]
pub struct ChunkScan {
    pub in_yaml: bool,
    pub frontmatter_closed: bool,
    pub seen_content: bool,
    pub open_fence: Option<Fence>,
    pub has_r: bool,
    pub has_python: bool,
}

pub open spec fn scan_start() -> ChunkScan {
    ChunkScan {
        in_yaml: false,
        frontmatter_closed: false,
        seen_content: false,
        open_fence: None,
        has_r: false,
        has_python: false,
    }
}

/// One line of the scan: leading blank lines are skipped; a first line of
/// `---` opens YAML frontmatter that runs to `---` or `...`; before the
/// frontmatter closes, blank lines are skipped; inside a chunk only its
/// closing fence counts; an executable chunk records its language; any
/// other fence opens a block whose content is ignored.
pub open spec fn chunk_step(st: ChunkScan, line: Seq<char>) -> ChunkScan {
    if !st.seen_content && trim(line).len() == 0 {
        st
    } else if !st.seen_content && trim_end(line) == "---"@ {
        ChunkScan { seen_content: true, in_yaml: true, ..st }
    } else {
        let st1 = ChunkScan { seen_content: true, ..st };
        if st1.in_yaml {
            if trim(line) == "---"@ || trim(line) == "..."@ {
                ChunkScan { in_yaml: false, frontmatter_closed: true, ..st1 }
            } else {
                st1
            }
        } else if !st1.frontmatter_closed && trim(line).len() == 0 {
            st1
        } else if st1.open_fence is Some {
            if closes(line, st1.open_fence->Some_0) {
                ChunkScan { open_fence: None, ..st1 }
            } else {
                st1
            }
        } else {
            match chunk_start(line) {
                Some((lang, f)) => ChunkScan {
                    has_r: st1.has_r || lang == "r"@,
                    has_python: st1.has_python || lang == "python"@,
                    open_fence: Some(f),
                    ..st1
                },
                None => match fence_start_of(line) {
                    Some((f, _)) => ChunkScan { open_fence: Some(f), ..st1 },
                    None => st1,
                },
            }
        }
    }
}

/// The scan after the lines `ls`.
pub open spec fn chunk_scan(ls: Seq<Seq<char>>) -> ChunkScan
    decreases ls.len(),
{
    if ls.len() == 0 {
        scan_start()
    } else {
        chunk_step(chunk_scan(ls.drop_last()), ls.last())
    }
}

fn chunk_step_exec(st: ChunkScan, line: &[char]) -> (r: ChunkScan)
    ensures
        r == chunk_step(st, line@),
{
    proof {
        reveal_strlit("---");
        reveal_strlit("...");
        reveal_strlit("r");
        reveal_strlit("python");
    }
    let blank = trimmed(line).len() == 0;
    if !st.seen_content && blank {
        return st;
    }
    if !st.seen_content && crate::text::eq_lit(trimmed_end(line).as_slice(), "---") {
        return ChunkScan { seen_content: true, in_yaml: true, ..st };
    }
    let st1 = ChunkScan { seen_content: true, ..st };
    if st1.in_yaml {
        let t = trimmed(line);
        if crate::text::eq_lit(t.as_slice(), "---") || crate::text::eq_lit(t.as_slice(), "...") {
            return ChunkScan { in_yaml: false, frontmatter_closed: true, ..st1 };
        }
        return st1;
    }
    if !st1.frontmatter_closed && blank {
        return st1;
    }
    if let Some(f) = st1.open_fence {
        if closing_fence(line, f) {
            return ChunkScan { open_fence: None, ..st1 };
        }
        return st1;
    }
    match executable_chunk_start(line) {
        Some((lang, f)) => {
            let is_r = crate::text::eq_lit(lang.as_slice(), "r");
            let is_python = crate::text::eq_lit(lang.as_slice(), "python");
            ChunkScan {
                has_r: st1.has_r || is_r,
                has_python: st1.has_python || is_python,
                open_fence: Some(f),
                ..st1
            }
        },
        None => match fence_start(line) {
            Some((f, _)) => ChunkScan { open_fence: Some(f), ..st1 },
            None => st1,
        },
    }
}

/// Which languages a document's executable chunks use.
pub struct ChunkLanguages {
    pub has_r: bool,
    pub has_python: bool,
}

/// The languages of the executable chunks of `document`.
pub fn chunk_languages(document: &str) -> (r: ChunkLanguages)
    ensures
        r.has_r == chunk_scan(crate::text::lines(document@)).has_r,
        r.has_python == chunk_scan(crate::text::lines(document@)).has_python,
{
    let ls = crate::text::split_lines(chars_of(document).as_slice());
    let ghost all = crate::text::lines(document@);
    let mut st = ChunkScan {
        in_yaml: false,
        frontmatter_closed: false,
        seen_content: false,
        open_fence: None,
        has_r: false,
        has_python: false,
    };
    let mut i: usize = 0;
    while i < ls.len()
        invariant
            all == crate::text::lines(document@),
            ls@.len() == all.len(),
            forall|k: int| 0 <= k < ls@.len() ==> #[trigger] ls@[k]@ == all[k],
            i <= ls@.len(),
            st == chunk_scan(all.take(i as int)),
        decreases ls@.len() - i,
    {
        assert(all.take(i + 1).drop_last() =~= all.take(i as int));
        st = chunk_step_exec(st, ls[i].as_slice());
        i += 1;
    }
    assert(all.take(all.len() as int) =~= all);
    ChunkLanguages { has_r: st.has_r, has_python: st.has_python }
}

/// The engines a document's frontmatter names explicitly.
pub struct FrontmatterEngine {
    pub explicit_knitr: bool,
    pub explicit_jupyter: bool,
}

/// The string under `engine`, if that is a string.
pub open spec fn text_of(node: Option<YamlNode>) -> Option<Seq<char>> {
    match node {
        Some(YamlNode::Text(s)) => Some(s@),
        _ => None,
    }
}

/// Whether an engine setting names `name` (trimmed, in any case).
pub open spec fn names_engine(value: Option<Seq<char>>, name: Seq<char>) -> bool {
    value matches Some(t) && lower(trim(t)) == name
}

/// The engine under `execute` of `node`.
pub open spec fn execute_engine(node: YamlNode) -> Option<Seq<char>> {
    match get(node, "execute"@) {
        Some(e) => text_of(get(e, "engine"@)),
        None => None,
    }
}

/// The values of the `format` mapping.
pub open spec fn format_values(doc: YamlNode) -> Seq<YamlNode> {
    match get(doc, "format"@) {
        Some(YamlNode::Mapping(entries)) => entries@.map_values(|e: YamlEntry| e.value),
        _ => Seq::empty(),
    }
}

/// Whether the document picks the engine `name`: a top-level `engine`,
/// `execute.engine`, or `execute.engine` of one of its formats.
pub open spec fn engine_named(doc: YamlNode, name: Seq<char>) -> bool {
    ||| names_engine(text_of(get(doc, "engine"@)), name)
    ||| names_engine(execute_engine(doc), name)
    ||| exists|i: int|
        0 <= i < format_values(doc).len() && names_engine(
            execute_engine(#[trigger] format_values(doc)[i]),
            name,
        )
}

/// Whether `key` is set to something other than null.
pub open spec fn key_present(doc: YamlNode, key: Seq<char>) -> bool {
    get(doc, key) matches Some(v) && !(v is Null)
}

/// The explicit engines of a frontmatter document: knitr and jupyter, by
/// their own keys or by an engine setting.
pub open spec fn engines_of(doc: YamlNode) -> (bool, bool) {
    if !(doc is Mapping) {
        (false, false)
    } else {
        (
            key_present(doc, "knitr"@) || engine_named(doc, "knitr"@),
            key_present(doc, "jupyter"@) || engine_named(doc, "jupyter"@),
        )
    }
}

/// The explicit engines of `document`, read as YAML.
pub open spec fn engine_outcome(document: Seq<char>) -> Result<(bool, bool), Seq<char>> {
    match first_document(document, "script frontmatter"@) {
        Err(e) => Err(e),
        Ok(None) => Ok((false, false)),
        Ok(Some(doc)) => Ok(engines_of(doc)),
    }
}

/// Records `value` if it names knitr or jupyter.
pub fn apply_engine_name(value: &str, engine: &mut FrontmatterEngine)
    ensures
        final(engine).explicit_knitr == (old(engine).explicit_knitr || lower(trim(value@))
            == "knitr"@),
        final(engine).explicit_jupyter == (old(engine).explicit_jupyter || lower(trim(value@))
            == "jupyter"@),
{
    proof {
        reveal_strlit("knitr");
        reveal_strlit("jupyter");
    }
    let l = lowered(trimmed(chars_of(value).as_slice()).as_slice());
    if crate::text::eq_lit(l.as_slice(), "knitr") {
        engine.explicit_knitr = true;
    }
    if crate::text::eq_lit(l.as_slice(), "jupyter") {
        engine.explicit_jupyter = true;
    }
}

fn engine_value(node: Option<&YamlNode>) -> (r: Option<&str>)
    ensures
        crate::rig::r_selection::opt_str_view(r) == text_of(
            match node {
                Some(n) => Some(*n),
                None => None,
            },
        ),
{
    match node {
        Some(YamlNode::Text(s)) => Some(s.as_str()),
        _ => None,
    }
}

fn apply_execute_engine(node: &YamlNode, engine: &mut FrontmatterEngine)
    ensures
        final(engine).explicit_knitr == (old(engine).explicit_knitr || names_engine(
            execute_engine(*node),
            "knitr"@,
        )),
        final(engine).explicit_jupyter == (old(engine).explicit_jupyter || names_engine(
            execute_engine(*node),
            "jupyter"@,
        )),
{
    if let Some(execute) = mapping_get(node, "execute") {
        if let Some(v) = engine_value(mapping_get(execute, "engine")) {
            apply_engine_name(v, engine);
        }
    }
}

/// The explicit engines of a frontmatter document.
pub fn engines_from_yaml(doc: &YamlNode) -> (r: FrontmatterEngine)
    ensures
        (r.explicit_knitr, r.explicit_jupyter) == engines_of(*doc),
{
    let mut engine = FrontmatterEngine { explicit_knitr: false, explicit_jupyter: false };
    match doc {
        YamlNode::Mapping(_) => {},
        _ => {
            return engine;
        },
    }
    match mapping_get(doc, "knitr") {
        Some(YamlNode::Null) => {},
        Some(_) => {
            engine.explicit_knitr = true;
        },
        None => {},
    }
    match mapping_get(doc, "jupyter") {
        Some(YamlNode::Null) => {},
        Some(_) => {
            engine.explicit_jupyter = true;
        },
        None => {},
    }
    if let Some(v) = engine_value(mapping_get(doc, "engine")) {
        apply_engine_name(v, &mut engine);
    }
    apply_execute_engine(doc, &mut engine);
    let ghost k0 = engine.explicit_knitr;
    let ghost j0 = engine.explicit_jupyter;
    if let Some(YamlNode::Mapping(entries)) = mapping_get(doc, "format") {
        let ghost vals = entries@.map_values(|e: YamlEntry| e.value);
        let mut i: usize = 0;
        while i < entries.len()
            invariant
                vals == entries@.map_values(|e: YamlEntry| e.value),
                i <= entries@.len(),
                engine.explicit_knitr == (k0 || exists|m: int|
                    0 <= m < i && names_engine(execute_engine(#[trigger] vals[m]), "knitr"@)),
                engine.explicit_jupyter == (j0 || exists|m: int|
                    0 <= m < i && names_engine(execute_engine(#[trigger] vals[m]), "jupyter"@)),
            decreases entries@.len() - i,
        {
            assert(vals[i as int] == entries@[i as int].value);
            apply_execute_engine(&entries[i].value, &mut engine);
            i += 1;
        }
    }
    engine
}

/// The engines `document`'s frontmatter names explicitly.
pub fn frontmatter_engine(document: &str) -> (r: Result<FrontmatterEngine, String>)
    ensures
        match engine_outcome(document@) {
            Ok(e) => r matches Ok(x) && (x.explicit_knitr, x.explicit_jupyter) == e,
            Err(e) => r matches Err(m) && m@ == e,
        },
{
    match load_first_yaml_document(document, "script frontmatter")? {
        None => Ok(FrontmatterEngine { explicit_knitr: false, explicit_jupyter: false }),
        Some(doc) => Ok(engines_from_yaml(&doc)),
    }
}

/// A frontmatter mapping picks knitr when its top-level `knitr` key holds
/// anything but null, or its `engine` names knitr (trimmed, in any case);
/// likewise for jupyter. A document that is not a mapping picks neither.
pub proof fn lemma_engines_by_key(doc: YamlNode)
    ensures
        (doc is Mapping && (get(doc, "knitr"@) matches Some(v) && !(v is Null))) ==> engines_of(
            doc,
        ).0,
        (doc is Mapping && (get(doc, "jupyter"@) matches Some(v) && !(v is Null))) ==> engines_of(
            doc,
        ).1,
        (doc is Mapping && (get(doc, "engine"@) matches Some(YamlNode::Text(t)) && lower(trim(t@))
            == "knitr"@)) ==> engines_of(doc).0,
        (doc is Mapping && (get(doc, "engine"@) matches Some(YamlNode::Text(t)) && lower(trim(t@))
            == "jupyter"@)) ==> engines_of(doc).1,
        !(doc is Mapping) ==> !engines_of(doc).0 && !engines_of(doc).1,
{
}

/// The kind of source `path` names.
pub open spec fn kind_of(path: Seq<char>, platform: Platform) -> SourceKind {
    kind_of_extension(extension_of(path, platform))
}

/// True for Quarto markdown documents (`.qmd` or `.Rmd`, in any case).
pub fn is_quarto_document(path: &str, platform: Platform) -> (r: bool)
    ensures
        r == (kind_of(path@, platform) is QuartoMarkdown || kind_of(path@, platform) is RMarkdown),
{
    match source_kind(path, platform) {
        SourceKind::QuartoMarkdown | SourceKind::RMarkdown => true,
        _ => false,
    }
}

/// True for R Markdown documents (`.Rmd`, in any case).
pub fn is_r_markdown(path: &str, platform: Platform) -> (r: bool)
    ensures
        r == (kind_of(path@, platform) is RMarkdown),
{
    match source_kind(path, platform) {
        SourceKind::RMarkdown => true,
        _ => false,
    }
}

/// True for R scripts (`.R`, in any case), which Quarto renders through
/// knitr's script flow.
pub fn is_r_script(path: &str, platform: Platform) -> (r: bool)
    ensures
        r == (kind_of(path@, platform) is RScript),
{
    match source_kind(path, platform) {
        SourceKind::RScript => true,
        _ => false,
    }
}

/// Whether rendering `document` (at `path`) needs reticulate: it has
/// Python chunks, and either it is R Markdown or an R script, or its
/// frontmatter picks knitr, or (picking no engine) it also has R chunks.
pub open spec fn reticulate_outcome(path: Seq<char>, document: Seq<char>, platform: Platform) -> Result<
    bool,
    Seq<char>,
> {
    let chunks = chunk_scan(lines(document));
    let kind = kind_of(path, platform);
    if !chunks.has_python {
        Ok(false)
    } else if kind is RMarkdown || kind is RScript {
        Ok(true)
    } else {
        match engine_outcome(document) {
            Err(e) => Err(e),
            Ok((knitr, jupyter)) => if knitr {
                Ok(true)
            } else if jupyter {
                Ok(false)
            } else {
                Ok(chunks.has_r)
            },
        }
    }
}

/// Python chunks need reticulate whenever the frontmatter picks knitr,
/// and always in R Markdown and R scripts; without Python chunks they
/// never do.
pub proof fn lemma_reticulate_with_knitr(path: Seq<char>, document: Seq<char>, platform: Platform)
    ensures
        !chunk_scan(lines(document)).has_python ==> reticulate_outcome(path, document, platform)
            == Ok::<bool, Seq<char>>(false),
        (chunk_scan(lines(document)).has_python && (engine_outcome(document) matches Ok((k, _))
            && k)) ==> reticulate_outcome(path, document, platform) == Ok::<bool, Seq<char>>(true),
        (chunk_scan(lines(document)).has_python && (kind_of(path, platform) is RMarkdown || kind_of(
            path,
            platform,
        ) is RScript)) ==> reticulate_outcome(path, document, platform) == Ok::<bool, Seq<char>>(
            true,
        ),
{
}

/// Whether rendering `document` at `path` needs reticulate.
pub fn quarto_reticulate_required(path: &str, document: &str, platform: Platform) -> (r: Result<
    bool,
    String,
>)
    ensures
        match reticulate_outcome(path@, document@, platform) {
            Ok(b) => r == Ok::<bool, String>(b),
            Err(e) => r matches Err(m) && m@ == e,
        },
{
    let chunks = chunk_languages(document);
    if !chunks.has_python {
        return Ok(false);
    }
    if is_r_markdown(path, platform) || is_r_script(path, platform) {
        return Ok(true);
    }
    let engine = frontmatter_engine(document)?;
    if engine.explicit_knitr {
        return Ok(true);
    }
    if engine.explicit_jupyter {
        return Ok(false);
    }
    Ok(is_r_markdown(path, platform) || chunks.has_r)
}

/// The text of a `#'` comment line, without the marker and one space.
pub open spec fn script_comment(line: Seq<char>) -> Option<Seq<char>> {
    if starts_with(line, "#'"@) {
        let rest = line.skip(2);
        if rest.len() > 0 && rest[0] == ' ' {
            Some(rest.drop_first())
        } else {
            Some(rest)
        }
    } else {
        None
    }
}

/// The markdown text of a `#'` comment line, if `line` is one.
pub fn strip_quarto_script_comment(line: &[char]) -> (r: Option<Vec<char>>)
    ensures
        match script_comment(line@) {
            Some(t) => r matches Some(v) && v@ == t,
            None => r is None,
        },
{
    proof {
        reveal_strlit("#'");
    }
    match crate::text::strip_lit(line, "#'") {
        Some(rest) => {
            if rest.len() > 0 && rest[0] == ' ' {
                let t = slice_vec(rest.as_slice(), 1, rest.len());
                assert(t@ =~= rest@.drop_first());
                Some(t)
            } else {
                Some(rest)
            }
        },
        None => None,
    }
}

/// The markdown of an R script: the text of each `#'` line, one per line.
pub open spec fn script_markdown(ls: Seq<Seq<char>>) -> Seq<char>
    decreases ls.len(),
{
    if ls.len() == 0 {
        Seq::empty()
    } else {
        script_markdown(ls.drop_last()) + match script_comment(ls.last()) {
            Some(t) => t + seq!['\n'],
            None => Seq::empty(),
        }
    }
}

/// The markdown Quarto reads from an R script's `#'` lines.
pub fn quarto_script_markdown(script: &str) -> (r: String)
    ensures
        r@ == script_markdown(lines(script@)),
{
    let ls = crate::text::split_lines(chars_of(script).as_slice());
    let ghost all = lines(script@);
    let mut out: Vec<char> = Vec::new();
    let mut i: usize = 0;
    while i < ls.len()
        invariant
            all == lines(script@),
            ls@.len() == all.len(),
            forall|k: int| 0 <= k < ls@.len() ==> #[trigger] ls@[k]@ == all[k],
            i <= ls@.len(),
            out@ == script_markdown(all.take(i as int)),
        decreases ls@.len() - i,
    {
        assert(all.take(i + 1).drop_last() =~= all.take(i as int));
        assert(all.take(i + 1).last() == ls@[i as int]@);
        if let Some(t) = strip_quarto_script_comment(ls[i].as_slice()) {
            crate::text::extend_chars(&mut out, t.as_slice());
            out.push('\n');
        }
        i += 1;
    }
    assert(all.take(all.len() as int) =~= all);
    string_of(out.as_slice())
}

/// The frontmatter block after an opening `---` line: each line with its
/// newline, through the first line that is `---` or `...` (trimmed).
pub open spec fn block_after(ls: Seq<Seq<char>>) -> Seq<char>
    decreases ls.len(),
{
    if ls.len() == 0 {
        Seq::empty()
    } else if trim(ls[0]) == "---"@ || trim(ls[0]) == "..."@ {
        ls[0] + seq!['\n']
    } else {
        ls[0] + seq!['\n'] + block_after(ls.drop_first())
    }
}

/// The frontmatter of a document: nothing unless its first line is `---`
/// (ignoring trailing blanks); then that line and the block after it.
pub open spec fn frontmatter_block(document: Seq<char>) -> Seq<char> {
    let ls = lines(document);
    if ls.len() == 0 || trim_end(ls[0]) != "---"@ {
        Seq::empty()
    } else {
        ls[0] + seq!['\n'] + block_after(ls.drop_first())
    }
}

/// The YAML frontmatter at the top of `document`.
pub fn quarto_script_frontmatter_to_string(document: &str) -> (r: String)
    ensures
        r@ == frontmatter_block(document@),
{
    proof {
        reveal_strlit("---");
        reveal_strlit("...");
    }
    let ls = crate::text::split_lines(chars_of(document).as_slice());
    let ghost all = lines(document@);
    if ls.len() == 0 || !crate::text::eq_lit(trimmed_end(ls[0].as_slice()).as_slice(), "---") {
        return String::new();
    }
    let mut out: Vec<char> = slice_vec(ls[0].as_slice(), 0, ls[0].len());
    out.push('\n');
    assert(out@ =~= all[0] + seq!['\n']);
    let ghost rest = all.drop_first();
    assert(ls@[0]@ == all[0]);
    assert(trim_end(all[0]) == "---"@);
    assert(rest.skip(0) =~= rest);
    let mut i: usize = 1;
    while i < ls.len()
        invariant
            all == lines(document@),
            rest == all.drop_first(),
            ls@.len() == all.len(),
            forall|k: int| 0 <= k < ls@.len() ==> #[trigger] ls@[k]@ == all[k],
            1 <= i <= ls@.len(),
            frontmatter_block(document@) == out@ + block_after(rest.skip(i - 1)),
        decreases ls@.len() - i,
    {
        let line = &ls[i];
        let ghost tail = rest.skip(i - 1);
        assert(tail[0] == all[i as int]);
        assert(tail.drop_first() =~= rest.skip(i as int));
        crate::text::extend_chars(&mut out, line.as_slice());
        out.push('\n');
        let t = trimmed(line.as_slice());
        if crate::text::eq_lit(t.as_slice(), "---") || crate::text::eq_lit(t.as_slice(), "...") {
            assert(frontmatter_block(document@) == out@);
            return string_of(out.as_slice());
        }
        i += 1;
    }
    assert(rest.skip(i - 1).len() == 0);
    string_of(out.as_slice())
}

/// What a Quarto or R Markdown document asks for: its frontmatter, and
/// whether its Python chunks need reticulate.
pub open spec fn document_spec_outcome(path: Seq<char>, document: Seq<char>, platform: Platform) -> Result<
    (crate::spec::FrontmatterFields, bool),
    Seq<char>,
> {
    match crate::spec::quarto_frontmatter_outcome(document) {
        Err(e) => Err(e),
        Ok(f) => match reticulate_outcome(path, document, platform) {
            Err(e) => Err(e),
            Ok(b) => Ok((f, b)),
        },
    }
}

/// Whether `s` holds the fields `f` and the reticulate flag `b`.
pub open spec fn holds_render_spec(s: RuntimeSpec, f: crate::spec::FrontmatterFields, b: bool) -> bool {
    crate::spec::holds_fields(RuntimeSpec { quarto_reticulate: false, ..s }, f)
        && s.quarto_reticulate == b
}

/// The runtime a Quarto document at `path`, whose text is `document`, asks
/// for.
pub fn read_quarto_document_spec(path: &str, document: &str, platform: Platform) -> (r: Result<
    RuntimeSpec,
    String,
>)
    ensures
        match document_spec_outcome(path@, document@, platform) {
            Ok((f, b)) => r matches Ok(s) && holds_render_spec(s, f, b),
            Err(e) => r matches Err(m) && m@ == e,
        },
{
    let mut spec = crate::spec::parse_quarto_frontmatter(document)?;
    let b = quarto_reticulate_required(path, document, platform)?;
    spec.quarto_reticulate = b;
    Ok(spec)
}

/// What an R script rendered by Quarto asks for: the frontmatter in its
/// `#'` lines, and whether its Python chunks need reticulate.
pub open spec fn script_spec_outcome(path: Seq<char>, script: Seq<char>, platform: Platform) -> Result<
    (crate::spec::FrontmatterFields, bool),
    Seq<char>,
> {
    let doc = script_markdown(lines(script));
    match crate::spec::quarto_frontmatter_outcome(frontmatter_block(doc)) {
        Err(e) => Err(e),
        Ok(f) => match reticulate_outcome(path, doc, platform) {
            Err(e) => Err(e),
            Ok(b) => Ok((f, b)),
        },
    }
}

/// The runtime an R script at `path`, whose text is `script`, asks for when
/// Quarto renders it.
pub fn read_quarto_script_spec(path: &str, script: &str, platform: Platform) -> (r: Result<
    RuntimeSpec,
    String,
>)
    ensures
        match script_spec_outcome(path@, script@, platform) {
            Ok((f, b)) => r matches Ok(s) && holds_render_spec(s, f, b),
            Err(e) => r matches Err(m) && m@ == e,
        },
{
    let doc = quarto_script_markdown(script);
    let front = quarto_script_frontmatter_to_string(doc.as_str());
    let mut spec = crate::spec::parse_quarto_frontmatter(front.as_str())?;
    let b = quarto_reticulate_required(path, doc.as_str(), platform)?;
    spec.quarto_reticulate = b;
    Ok(spec)
}

/// The runtime the render source at `path`, whose text is `content`, asks
/// for: a Quarto or R Markdown document, an R script, or (for anything
/// else, whose text is not read) nothing.
pub fn render_source_spec(path: &str, content: &str, platform: Platform) -> (r: Result<
    RuntimeSpec,
    String,
>)
    ensures
        (kind_of(path@, platform) is QuartoMarkdown || kind_of(path@, platform) is RMarkdown) ==> match document_spec_outcome(
            path@,
            content@,
            platform,
        ) {
            Ok((f, b)) => r matches Ok(s) && holds_render_spec(s, f, b),
            Err(e) => r matches Err(m) && m@ == e,
        },
        kind_of(path@, platform) is RScript ==> match script_spec_outcome(path@, content@, platform) {
            Ok((f, b)) => r matches Ok(s) && holds_render_spec(s, f, b),
            Err(e) => r matches Err(m) && m@ == e,
        },
        kind_of(path@, platform) is Other ==> (r matches Ok(s) && holds_render_spec(
            s,
            crate::spec::no_fields(),
            false,
        )),
{
    match source_kind(path, platform) {
        SourceKind::QuartoMarkdown | SourceKind::RMarkdown => read_quarto_document_spec(
            path,
            content,
            platform,
        ),
        SourceKind::RScript => read_quarto_script_spec(path, content, platform),
        SourceKind::Other => Ok(RuntimeSpec::default()),
    }
}

/// Whether to pin `QUARTO_R` to the selected Rscript: only where it is a
/// path (it holds a slash or backslash, or names an existing file).
pub fn r_value(rscript: &str, exists: bool) -> (r: bool)
    ensures
        r == (crate::text::contains_char(rscript@, '/') || crate::text::contains_char(
            rscript@,
            '\\',
        ) || exists),
{
    let c = chars_of(rscript);
    crate::text::has_char(c.as_slice(), '/') || crate::text::has_char(c.as_slice(), '\\') || exists
}

/// The message for a failure to launch Quarto.
pub open spec fn quarto_spawn_error_text(not_found: bool, error: Seq<char>) -> Seq<char> {
    if not_found {
        "could not find `quarto`. Install Quarto (https://quarto.org/docs/get-started/) or set IR_QUARTO to a quarto executable."@
    } else {
        "failed to launch `quarto`: "@ + error
    }
}

/// The message for a failure to launch Quarto.
pub fn spawn_error(not_found: bool, error: &str) -> (r: String)
    ensures
        r@ == quarto_spawn_error_text(not_found, error@),
{
    if not_found {
        crate::text::lit(
            "could not find `quarto`. Install Quarto (https://quarto.org/docs/get-started/) or set IR_QUARTO to a quarto executable.",
        )
    } else {
        let mut v: Vec<char> = Vec::new();
        crate::text::append_str(&mut v, "failed to launch `quarto`: ");
        crate::text::append_str(&mut v, error);
        string_of(v.as_slice())
    }
}

} // verus!
