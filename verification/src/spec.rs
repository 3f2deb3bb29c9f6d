//! What a script or document asks of its runtime, read from its YAML
//! frontmatter.
use vstd::prelude::*;

use crate::python::PythonSpec;
use crate::text::{all_white, append_str, chars_of, is_blank, lit, string_of, trim, trimmed, views};
use crate::yaml::{first_document, get, load_first_yaml_document, mapping_get, YamlNode};

verus! {

/// The runtime a script or document asks for.
pub struct RuntimeSpec {
    pub dependencies: Vec<String>,
    pub exclude_newer: Option<String>,
    pub isolated: bool,
    pub r_requirement: Option<String>,
    pub rscript: Option<String>,
    pub python: Option<PythonSpec>,
    /// A Quarto render needs rmarkdown injected for the knitr engine.
    pub quarto_render: bool,
    /// A Quarto document whose Python chunks run through reticulate.
    pub quarto_reticulate: bool,
}

/// The fields frontmatter sets: the packages, the snapshot date, whether
/// the run is isolated and the R version asked for.
pub type FrontmatterFields = (Seq<Seq<char>>, Option<Seq<char>>, bool, Option<Seq<char>>);

/// Whether `s` holds the fields `f` and nothing else.
pub open spec fn holds_fields(s: RuntimeSpec, f: FrontmatterFields) -> bool {
    &&& views(s.dependencies@) == f.0
    &&& crate::rig::model::opt_view(s.exclude_newer) == f.1
    &&& s.isolated == f.2
    &&& crate::rig::model::opt_view(s.r_requirement) == f.3
    &&& s.rscript is None
    &&& s.python is None
    &&& !s.quarto_render
    &&& !s.quarto_reticulate
}

/// The fields of a spec that asks for nothing.
pub open spec fn no_fields() -> FrontmatterFields {
    (Seq::empty(), None, false, None)
}

impl Default for RuntimeSpec {
    fn default() -> (r: Self)
        ensures
            holds_fields(r, no_fields()),
    {
        let r = RuntimeSpec {
            dependencies: Vec::new(),
            exclude_newer: None,
            isolated: false,
            r_requirement: None,
            rscript: None,
            python: None,
            quarto_render: false,
            quarto_reticulate: false,
        };
        assert(views(r.dependencies@) =~= Seq::<Seq<char>>::empty());
        r
    }
}

/// `frontmatter `{key}` must be {what}`.
pub open spec fn key_error(key: Seq<char>, what: Seq<char>) -> Seq<char> {
    "frontmatter `"@ + key + "` must be "@ + what
}

fn key_error_text(key: &str, what: &str) -> (r: String)
    ensures
        r@ == key_error(key@, what@),
{
    let mut v: Vec<char> = Vec::new();
    append_str(&mut v, "frontmatter `");
    append_str(&mut v, key);
    append_str(&mut v, "` must be ");
    append_str(&mut v, what);
    string_of(v.as_slice())
}

/// An optional string setting: absent or null is none, a blank string is
/// none, any other string is kept trimmed, anything else is an error.
pub open spec fn optional_string(doc: YamlNode, key: Seq<char>) -> Result<Option<Seq<char>>, Seq<char>> {
    match get(doc, key) {
        None => Ok(None),
        Some(YamlNode::Null) => Ok(None),
        Some(YamlNode::Text(s)) => if trim(s@).len() == 0 {
            Ok(None)
        } else {
            Ok(Some(trim(s@)))
        },
        Some(_) => Err(key_error(key, "a string"@)),
    }
}

/// An optional boolean setting: absent or null is none, anything but a
/// boolean is an error.
pub open spec fn optional_bool(doc: YamlNode, key: Seq<char>) -> Result<Option<bool>, Seq<char>> {
    match get(doc, key) {
        None => Ok(None),
        Some(YamlNode::Null) => Ok(None),
        Some(YamlNode::Bool(b)) => Ok(Some(b)),
        Some(_) => Err(key_error(key, "a boolean"@)),
    }
}

/// The strings of a sequence of nodes, where every node is a string.
pub open spec fn all_texts(items: Seq<YamlNode>) -> bool {
    forall|i: int| 0 <= i < items.len() ==> #[trigger] items[i] is Text
}

pub open spec fn texts_of(items: Seq<YamlNode>) -> Seq<Seq<char>> {
    items.map_values(|n: YamlNode| n->Text_0@)
}

/// The `packages` setting: absent or null is no packages; otherwise a
/// sequence of strings.
pub open spec fn dependencies_outcome(doc: YamlNode) -> Result<Seq<Seq<char>>, Seq<char>> {
    match get(doc, "packages"@) {
        None => Ok(Seq::empty()),
        Some(YamlNode::Null) => Ok(Seq::empty()),
        Some(YamlNode::Sequence(items)) => if all_texts(items@) {
            Ok(texts_of(items@))
        } else {
            Err("frontmatter `packages` entries must be strings"@)
        },
        Some(_) => Err("frontmatter `packages` must be a YAML sequence"@),
    }
}

/// What a frontmatter mapping sets, reading `packages`, `exclude-newer`,
/// `isolated` and `r-version` in that order; a null document sets nothing.
pub open spec fn fields_outcome(doc: YamlNode) -> Result<FrontmatterFields, Seq<char>> {
    if doc is Null {
        Ok(no_fields())
    } else if !(doc is Mapping) {
        Err("script frontmatter must be a YAML mapping"@)
    } else {
        match dependencies_outcome(doc) {
            Err(e) => Err(e),
            Ok(deps) => match optional_string(doc, "exclude-newer"@) {
                Err(e) => Err(e),
                Ok(exclude_newer) => match optional_bool(doc, "isolated"@) {
                    Err(e) => Err(e),
                    Ok(isolated) => match optional_string(doc, "r-version"@) {
                        Err(e) => Err(e),
                        Ok(r_version) => Ok(
                            (
                                deps,
                                exclude_newer,
                                match isolated {
                                    Some(b) => b,
                                    None => false,
                                },
                                r_version,
                            ),
                        ),
                    },
                },
            },
        }
    }
}

/// The optional string setting `key` of `doc`.
pub fn frontmatter_optional_string(doc: &YamlNode, key: &str) -> (r: Result<Option<String>, String>)
    ensures
        match optional_string(*doc, key@) {
            Ok(v) => r matches Ok(x) && crate::rig::model::opt_view(x) == v,
            Err(e) => r matches Err(m) && m@ == e,
        },
{
    match mapping_get(doc, key) {
        None => Ok(None),
        Some(YamlNode::Null) => Ok(None),
        Some(YamlNode::Text(s)) => {
            let t = trimmed(chars_of(s.as_str()).as_slice());
            if t.len() == 0 {
                Ok(None)
            } else {
                Ok(Some(string_of(t.as_slice())))
            }
        },
        Some(_) => Err(key_error_text(key, "a string")),
    }
}

/// The optional boolean setting `key` of `doc`.
pub fn frontmatter_optional_bool(doc: &YamlNode, key: &str) -> (r: Result<Option<bool>, String>)
    ensures
        match optional_bool(*doc, key@) {
            Ok(v) => r matches Ok(x) && x == v,
            Err(e) => r matches Err(m) && m@ == e,
        },
{
    match mapping_get(doc, key) {
        None => Ok(None),
        Some(YamlNode::Null) => Ok(None),
        Some(YamlNode::Bool(b)) => Ok(Some(*b)),
        Some(_) => Err(key_error_text(key, "a boolean")),
    }
}

/// The `packages` of `doc`.
pub fn frontmatter_dependencies(doc: &YamlNode) -> (r: Result<Vec<String>, String>)
    ensures
        match dependencies_outcome(*doc) {
            Ok(v) => r matches Ok(x) && views(x@) == v,
            Err(e) => r matches Err(m) && m@ == e,
        },
{
    match mapping_get(doc, "packages") {
        None => Ok(Vec::new()),
        Some(YamlNode::Null) => Ok(Vec::new()),
        Some(YamlNode::Sequence(items)) => {
            let mut dependencies: Vec<String> = Vec::new();
            let mut i: usize = 0;
            while i < items.len()
                invariant
                    get(*doc, "packages"@) == Some(YamlNode::Sequence(*items)),
                    i <= items@.len(),
                    all_texts(items@.take(i as int)),
                    views(dependencies@) == texts_of(items@.take(i as int)),
                decreases items@.len() - i,
            {
                match &items[i] {
                    YamlNode::Text(s) => {
                        let ghost before = dependencies@;
                        let c = s.clone();
                        dependencies.push(c);
                        assert(views(dependencies@) =~= views(before).push(c@));
                        assert(items@.take(i + 1) =~= items@.take(i as int).push(items@[i as int]));
                        assert(texts_of(items@.take(i + 1)) =~= texts_of(items@.take(i as int)).push(
                            c@,
                        ));
                    },
                    _ => {
                        assert(!(items@[i as int] is Text));
                        return Err(lit("frontmatter `packages` entries must be strings"));
                    },
                }
                i += 1;
            }
            assert(items@.take(items@.len() as int) =~= items@);
            Ok(dependencies)
        },
        Some(_) => Err(lit("frontmatter `packages` must be a YAML sequence")),
    }
}

/// The runtime a frontmatter mapping `doc` asks for.
pub fn runtime_spec_from_yaml_mapping(doc: &YamlNode) -> (r: Result<RuntimeSpec, String>)
    ensures
        match fields_outcome(*doc) {
            Ok(f) => r matches Ok(s) && holds_fields(s, f),
            Err(e) => r matches Err(m) && m@ == e,
        },
{
    match doc {
        YamlNode::Null => {
            return Ok(RuntimeSpec::default());
        },
        YamlNode::Mapping(_) => {},
        _ => {
            return Err(lit("script frontmatter must be a YAML mapping"));
        },
    }
    let dependencies = frontmatter_dependencies(doc)?;
    let exclude_newer = frontmatter_optional_string(doc, "exclude-newer")?;
    let isolated = match frontmatter_optional_bool(doc, "isolated")? {
        Some(b) => b,
        None => false,
    };
    let r_requirement = frontmatter_optional_string(doc, "r-version")?;
    Ok(
        RuntimeSpec {
            dependencies,
            exclude_newer,
            isolated,
            r_requirement,
            rscript: None,
            python: None,
            quarto_render: false,
            quarto_reticulate: false,
        },
    )
}

/// What an R script's frontmatter asks for: nothing when it is blank or
/// holds no document.
pub open spec fn r_frontmatter_outcome(frontmatter: Seq<char>) -> Result<FrontmatterFields, Seq<char>> {
    if is_blank(frontmatter) {
        Ok(no_fields())
    } else {
        match first_document(frontmatter, "script frontmatter"@) {
            Err(e) => Err(e),
            Ok(None) => Ok(no_fields()),
            Ok(Some(doc)) => fields_outcome(doc),
        }
    }
}

/// The runtime an R script's frontmatter text asks for.
pub fn parse_r_frontmatter(frontmatter: &str) -> (r: Result<RuntimeSpec, String>)
    ensures
        match r_frontmatter_outcome(frontmatter@) {
            Ok(f) => r matches Ok(s) && holds_fields(s, f),
            Err(e) => r matches Err(m) && m@ == e,
        },
{
    if all_white(chars_of(frontmatter).as_slice()) {
        return Ok(RuntimeSpec::default());
    }
    match load_first_yaml_document(frontmatter, "script frontmatter")? {
        None => Ok(RuntimeSpec::default()),
        Some(doc) => runtime_spec_from_yaml_mapping(&doc),
    }
}

/// What a Quarto document's frontmatter asks for under its `ir` key.
pub open spec fn quarto_frontmatter_outcome(document: Seq<char>) -> Result<FrontmatterFields, Seq<char>> {
    if is_blank(document) {
        Ok(no_fields())
    } else {
        match first_document(document, "script frontmatter"@) {
            Err(e) => Err(e),
            Ok(doc) => quarto_document_outcome(doc),
        }
    }
}

/// What a loaded Quarto frontmatter document asks for under its `ir` key:
/// nothing for no document, a null one, or a null or missing `ir`; an
/// error where the document or its `ir` is not a mapping.
pub open spec fn quarto_document_outcome(doc: Option<YamlNode>) -> Result<FrontmatterFields, Seq<char>> {
    match doc {
        None => Ok(no_fields()),
        Some(doc) => if doc is Null {
            Ok(no_fields())
        } else if !(doc is Mapping) {
            Err("script frontmatter must be a YAML mapping"@)
        } else {
            match get(doc, "ir"@) {
                None => Ok(no_fields()),
                Some(node) => if node is Null {
                    Ok(no_fields())
                } else if !(node is Mapping) {
                    Err("frontmatter `ir` must be a YAML mapping"@)
                } else {
                    fields_outcome(node)
                },
            }
        },
    }
}

/// The runtime a loaded Quarto frontmatter document asks for in its `ir`
/// mapping.
pub fn runtime_spec_from_quarto_document(doc: Option<YamlNode>) -> (r: Result<RuntimeSpec, String>)
    ensures
        match quarto_document_outcome(doc) {
            Ok(f) => r matches Ok(s) && holds_fields(s, f),
            Err(e) => r matches Err(m) && m@ == e,
        },
{
    let doc = match doc {
        None => {
            return Ok(RuntimeSpec::default());
        },
        Some(doc) => doc,
    };
    match &doc {
        YamlNode::Null => {
            return Ok(RuntimeSpec::default());
        },
        YamlNode::Mapping(_) => {},
        _ => {
            return Err(lit("script frontmatter must be a YAML mapping"));
        },
    }
    match mapping_get(&doc, "ir") {
        None => Ok(RuntimeSpec::default()),
        Some(YamlNode::Null) => Ok(RuntimeSpec::default()),
        Some(node) => match node {
            YamlNode::Mapping(_) => runtime_spec_from_yaml_mapping(node),
            _ => Err(lit("frontmatter `ir` must be a YAML mapping")),
        },
    }
}

/// The runtime a Quarto document asks for in the `ir` mapping of its
/// frontmatter.
pub fn parse_quarto_frontmatter(document: &str) -> (r: Result<RuntimeSpec, String>)
    ensures
        match quarto_frontmatter_outcome(document@) {
            Ok(f) => r matches Ok(s) && holds_fields(s, f),
            Err(e) => r matches Err(m) && m@ == e,
        },
{
    if all_white(chars_of(document).as_slice()) {
        return Ok(RuntimeSpec::default());
    }
    let doc = load_first_yaml_document(document, "script frontmatter")?;
    runtime_spec_from_quarto_document(doc)
}

} // verus!
