//! R scripts: the `#| ` frontmatter at their top and the runtime it asks
//! for.
use vstd::prelude::*;

use crate::cli::{RunSource, RunSourceView};
use crate::spec::{holds_fields, no_fields, parse_r_frontmatter, r_frontmatter_outcome, RuntimeSpec};
use crate::text::{hashpipe_frontmatter, hashpipe_frontmatter_text};

verus! {

/// The frontmatter of an R script whose text is `script`: the text after
/// `#| ` on the lines at its top (after an optional `#!` line).
pub fn read_r_script_frontmatter_to_string(script: &str) -> (r: String)
    ensures
        r@ == hashpipe_frontmatter(script@, false),
{
    hashpipe_frontmatter_text(script, false)
}

/// The runtime an R script's frontmatter text asks for.
pub fn parse_r_script_frontmatter(frontmatter: &str) -> (r: Result<RuntimeSpec, String>)
    ensures
        match r_frontmatter_outcome(frontmatter@) {
            Ok(f) => r matches Ok(s) && holds_fields(s, f),
            Err(e) => r matches Err(m) && m@ == e,
        },
{
    parse_r_frontmatter(frontmatter)
}

/// The runtime an R script (whose text is `script`) asks for.
pub fn read_r_script_spec(script: &str) -> (r: Result<RuntimeSpec, String>)
    ensures
        match r_frontmatter_outcome(hashpipe_frontmatter(script@, false)) {
            Ok(f) => r matches Ok(s) && holds_fields(s, f),
            Err(e) => r matches Err(m) && m@ == e,
        },
{
    let frontmatter = read_r_script_frontmatter_to_string(script);
    parse_r_script_frontmatter(frontmatter.as_str())
}

impl RunSource {
    /// The runtime the program asks for: a script's frontmatter (its text
    /// is `script_text`); expressions and standard input ask for nothing.
    pub fn script_spec(&self, script_text: &str) -> (r: Result<RuntimeSpec, String>)
        ensures
            match self@ {
                RunSourceView::Script(_) => match r_frontmatter_outcome(
                    hashpipe_frontmatter(script_text@, false),
                ) {
                    Ok(f) => r matches Ok(s) && holds_fields(s, f),
                    Err(e) => r matches Err(m) && m@ == e,
                },
                _ => r matches Ok(s) && holds_fields(s, no_fields()),
            },
    {
        match self {
            RunSource::Script(_) => read_r_script_spec(script_text),
            _ => Ok(RuntimeSpec::default()),
        }
    }
}

} // verus!
