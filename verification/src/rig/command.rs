//! What `ir` makes of rig's command-line output.
use vstd::prelude::*;

use crate::text::{append_str, chars_of, lines, split_lines, starts_lit, starts_with, string_of, trim};
use crate::tool::{join_texts, joined};

verus! {

/// rig's JSON output without its `[INFO]` log lines.
pub open spec fn json_lines(output: Seq<char>) -> Seq<Seq<char>> {
    lines(output).filter(|l: Seq<char>| !starts_with(l, "[INFO]"@))
}

/// The JSON in rig's output: the lines that are not `[INFO]` messages,
/// joined with newlines.
pub fn clean_rig_json_output(output: &str) -> (r: String)
    ensures
        r@ == joined(json_lines(output@), "\n"@),
{
    let ls = split_lines(chars_of(output).as_slice());
    let ghost all = lines(output@);
    let ghost pred = |l: Seq<char>| !starts_with(l, "[INFO]"@);
    let mut kept: Vec<String> = Vec::new();
    let mut i: usize = 0;
    while i < ls.len()
        invariant
            all == lines(output@),
            pred == (|l: Seq<char>| !starts_with(l, "[INFO]"@)),
            ls@.len() == all.len(),
            forall|k: int| 0 <= k < ls@.len() ==> #[trigger] ls@[k]@ == all[k],
            i <= ls@.len(),
            crate::text::views(kept@) == all.take(i as int).filter(pred),
        decreases ls@.len() - i,
    {
        proof {
            reveal(Seq::filter);
        }
        let ghost t = all.take(i + 1);
        assert(t.drop_last() =~= all.take(i as int));
        assert(t.last() == ls@[i as int]@);
        if !starts_lit(ls[i].as_slice(), "[INFO]") {
            let s = string_of(ls[i].as_slice());
            let ghost before = kept@;
            kept.push(s);
            assert(crate::text::views(kept@) =~= crate::text::views(before).push(s@));
        }
        i += 1;
    }
    assert(all.take(all.len() as int) =~= all);
    join_texts(kept.as_slice(), "\n")
}

/// The message for a failure to launch rig; `for_dates` adds that snapshot
/// dates need it too.
pub open spec fn launch_error_text(not_found: bool, for_dates: bool, error: Seq<char>) -> Seq<char> {
    if not_found {
        if for_dates {
            "could not find `rig` on PATH. Install rig to use `r-version` or `exclude-newer`."@
        } else {
            "could not find `rig` on PATH. Install rig to use `r-version`."@
        }
    } else {
        "failed to launch `rig`: "@ + error
    }
}

/// The message for a failure to launch rig.
pub fn rig_launch_error(not_found: bool, for_dates: bool, error: &str) -> (r: String)
    ensures
        r@ == launch_error_text(not_found, for_dates, error@),
{
    if not_found {
        if for_dates {
            crate::text::lit(
                "could not find `rig` on PATH. Install rig to use `r-version` or `exclude-newer`.",
            )
        } else {
            crate::text::lit("could not find `rig` on PATH. Install rig to use `r-version`.")
        }
    } else {
        let mut v: Vec<char> = Vec::new();
        append_str(&mut v, "failed to launch `rig`: ");
        append_str(&mut v, error);
        string_of(v.as_slice())
    }
}

/// The message for a rig command that failed: the command and its error
/// output.
pub fn rig_failed_error(args: &[String], stderr: &str) -> (r: String)
    ensures
        r@ == "`rig "@ + joined(crate::text::views(args@), " "@) + "` failed: "@ + stderr@,
{
    let mut v: Vec<char> = Vec::new();
    append_str(&mut v, "`rig ");
    let j = join_texts(args, " ");
    append_str(&mut v, j.as_str());
    append_str(&mut v, "` failed: ");
    append_str(&mut v, stderr);
    string_of(v.as_slice())
}

/// The release list rig printed, which must not be blank.
pub fn nonempty_available_json(json: String) -> (r: Result<String, String>)
    ensures
        trim(json@).len() == 0 ==> (r matches Err(e) && e@
            == "`rig available --json --all` returned empty output"@),
        trim(json@).len() > 0 ==> r == Ok::<String, String>(json),
{
    if crate::text::trimmed(chars_of(json.as_str()).as_slice()).len() == 0 {
        return Err(crate::text::lit("`rig available --json --all` returned empty output"));
    }
    Ok(json)
}

} // verus!
