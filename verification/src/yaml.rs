//! YAML documents as this crate reads them. Parsing is `saphyr`'s; the
//! library keeps, for each node, what its readers look at: nulls, booleans,
//! strings, sequences and mappings (with their string keys).
use saphyr::{LoadableYamlNode, Scalar, Yaml, YamlLoader};
use saphyr_parser::Parser;
use vstd::prelude::*;

verus! {

#[verifier::external_type_specification]
#[verifier::external_body]
pub struct ExYaml<'input>(Yaml<'input>);

/// A YAML node. Integers, floats, tagged nodes, aliases and bad values are
/// all `Other`: nothing here reads them.
pub enum YamlNode {
    Null,
    Bool(bool),
    Text(String),
    Sequence(Vec<YamlNode>),
    Mapping(Vec<YamlEntry>),
    Other,
}

/// One entry of a mapping; the key is kept where it is a string.
pub struct YamlEntry {
    pub key: Option<String>,
    pub value: YamlNode,
}

/// The first document of the YAML stream `source` as `saphyr` loads it,
/// or the text of the scan error that stops the parse.
pub uninterp spec fn yaml_first_document(source: Seq<char>) -> Result<Option<YamlNode>, Seq<char>>;

/// The node `saphyr` built, in this crate's terms.
#[verifier::external_body]
fn yaml_node(y: &Yaml<'_>) -> YamlNode {
    match y {
        Yaml::Value(Scalar::Null) => YamlNode::Null,
        Yaml::Value(Scalar::Boolean(b)) => YamlNode::Bool(*b),
        Yaml::Value(Scalar::String(s)) => YamlNode::Text(s.to_string()),
        Yaml::Sequence(items) => YamlNode::Sequence(items.iter().map(yaml_node).collect()),
        Yaml::Mapping(m) => YamlNode::Mapping(
            m.iter().map(|(k, v)| YamlEntry { key: k.as_str().map(str::to_string), value: yaml_node(v) }).collect(),
        ),
        _ => YamlNode::Other,
    }
}

/// `saphyr_parser::Parser::load` into a `saphyr::YamlLoader`, then the
/// first loaded document. Trusted: the result is what `yaml_first_document`
/// names for `source` (the error is the parser's scan error, displayed).
#[verifier::external_body]
fn load_yaml(source: &str) -> (r: Result<Option<YamlNode>, String>)
    ensures
        match r {
            Ok(d) => yaml_first_document(source@) == Ok::<Option<YamlNode>, Seq<char>>(d),
            Err(e) => yaml_first_document(source@) == Err::<Option<YamlNode>, Seq<char>>(e@),
        },
{
    let mut parser = Parser::new_from_str(source);
    let mut loader: YamlLoader<'_, Yaml<'_>> = YamlLoader::default();
    parser.load(&mut loader, false).map_err(|e| e.to_string())?;
    match loader.into_documents().into_iter().next() {
        Some(doc) => Ok(Some(yaml_node(&doc))),
        None => Ok(None),
    }
}

/// The first document of `source`, with parse errors reported as
/// `could not parse {context} as YAML: {error}`.
pub open spec fn first_document(source: Seq<char>, context: Seq<char>) -> Result<
    Option<YamlNode>,
    Seq<char>,
> {
    match yaml_first_document(source) {
        Ok(d) => Ok(d),
        Err(e) => Err("could not parse "@ + context + " as YAML: "@ + e),
    }
}

/// Loads the first YAML document of `source`.
pub fn load_first_yaml_document(source: &str, context: &str) -> (r: Result<Option<YamlNode>, String>)
    ensures
        match first_document(source@, context@) {
            Ok(d) => r == Ok::<Option<YamlNode>, String>(d),
            Err(e) => r matches Err(m) && m@ == e,
        },
{
    match load_yaml(source) {
        Ok(d) => Ok(d),
        Err(e) => {
            let mut v: Vec<char> = Vec::new();
            crate::text::append_str(&mut v, "could not parse ");
            crate::text::append_str(&mut v, context);
            crate::text::append_str(&mut v, " as YAML: ");
            crate::text::append_str(&mut v, e.as_str());
            Err(crate::text::string_of(v.as_slice()))
        },
    }
}

/// The index of the first entry keyed `key`, or the number of entries.
pub open spec fn entry_index(entries: Seq<YamlEntry>, key: Seq<char>) -> nat
    decreases entries.len(),
{
    if entries.len() == 0 || (entries[0].key matches Some(k) && k@ == key) {
        0
    } else {
        1 + entry_index(entries.drop_first(), key)
    }
}

proof fn lemma_entry_index_at(entries: Seq<YamlEntry>, key: Seq<char>, i: int)
    requires
        0 <= i <= entries.len(),
        forall|k: int| 0 <= k < i ==> !(#[trigger] entries[k].key matches Some(t) && t@ == key),
        i == entries.len() || (entries[i].key matches Some(t) && t@ == key),
    ensures
        entry_index(entries, key) == i,
    decreases i,
{
    if i > 0 {
        let t = entries.drop_first();
        assert(!(entries[0].key matches Some(x) && x@ == key));
        assert forall|k: int| 0 <= k < i - 1 implies !(#[trigger] t[k].key matches Some(x) && x@
            == key) by {
            assert(t[k] == entries[k + 1]);
        }
        if i < entries.len() {
            assert(t[i - 1] == entries[i]);
        }
        lemma_entry_index_at(t, key, i - 1);
    }
}

/// The value stored under the string key `key` of a mapping, as
/// `Yaml::as_mapping_get` finds it; nothing for other nodes.
pub open spec fn get(node: YamlNode, key: Seq<char>) -> Option<YamlNode> {
    match node {
        YamlNode::Mapping(entries) => {
            let i = entry_index(entries@, key);
            if i < entries@.len() {
                Some(entries@[i as int].value)
            } else {
                None
            }
        },
        _ => None,
    }
}

/// The value under `key` in the mapping `node`.
pub fn mapping_get<'a>(node: &'a YamlNode, key: &str) -> (r: Option<&'a YamlNode>)
    ensures
        match get(*node, key@) {
            Some(v) => r matches Some(x) && *x == v,
            None => r is None,
        },
{
    match node {
        YamlNode::Mapping(entries) => {
            let mut i: usize = 0;
            while i < entries.len()
                invariant
                    *node == YamlNode::Mapping(*entries),
                    i <= entries@.len(),
                    forall|k: int|
                        0 <= k < i ==> !(#[trigger] entries@[k].key matches Some(t) && t@ == key@),
                decreases entries@.len() - i,
            {
                let found = match &entries[i].key {
                    Some(k) => crate::text::chars_eq(
                        crate::text::chars_of(k.as_str()).as_slice(),
                        crate::text::chars_of(key).as_slice(),
                    ),
                    None => false,
                };
                if found {
                    proof {
                        lemma_entry_index_at(entries@, key@, i as int);
                    }
                    return Some(&entries[i].value);
                }
                i += 1;
            }
            proof {
                lemma_entry_index_at(entries@, key@, i as int);
            }
            None
        },
        _ => None,
    }
}

} // verus!
