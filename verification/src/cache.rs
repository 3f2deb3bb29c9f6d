//! The messages of `ir cache` and the names of its temporary files.
use vstd::prelude::*;

use crate::text::{append_str, decimal, decimal_text, extend_chars, string_of};

verus! {

/// `Removed {n} file(s)`, with ` from {label}` where a label is given.
pub open spec fn removed_text(files: nat, label: Option<Seq<char>>) -> Seq<char> {
    "Removed "@ + decimal(files) + (if files == 1 {
        " file"@
    } else {
        " files"@
    }) + match label {
        Some(l) => " from "@ + l,
        None => Seq::empty(),
    }
}

/// The report after a cache was cleared.
pub fn removed_message(files: u64, label: Option<&str>) -> (r: String)
    ensures
        r@ == removed_text(files as nat, crate::rig::r_selection::opt_str_view(label)),
{
    let mut v: Vec<char> = Vec::new();
    append_str(&mut v, "Removed ");
    extend_chars(&mut v, decimal_text(files as u128).as_slice());
    if files == 1 {
        append_str(&mut v, " file");
    } else {
        append_str(&mut v, " files");
    }
    if let Some(l) = label {
        append_str(&mut v, " from ");
        append_str(&mut v, l);
    }
    string_of(v.as_slice())
}

/// The message for an Rscript that could not run the cache cleaner.
pub open spec fn cleaner_spawn_text(rscript: Seq<char>, not_found: bool, error: Seq<char>) -> Seq<char> {
    if not_found {
        "could not find `"@ + rscript + "` on PATH. Install R or set IR_RSCRIPT."@
    } else {
        "failed to launch `"@ + rscript + "`: "@ + error
    }
}

/// The message for a failure to launch the cache cleaner's Rscript.
pub fn cache_cleaner_spawn_error(rscript: &str, not_found: bool, error: &str) -> (r: String)
    ensures
        r@ == cleaner_spawn_text(rscript@, not_found, error@),
{
    let mut v: Vec<char> = Vec::new();
    if not_found {
        append_str(&mut v, "could not find `");
        append_str(&mut v, rscript);
        append_str(&mut v, "` on PATH. Install R or set IR_RSCRIPT.");
    } else {
        append_str(&mut v, "failed to launch `");
        append_str(&mut v, rscript);
        append_str(&mut v, "`: ");
        append_str(&mut v, error);
    }
    string_of(v.as_slice())
}

/// The name a driver is written under before it is moved into place:
/// `.{name}.{pid}-{nanos}.tmp`, hidden and unique to the process and time.
pub fn temporary_file_name(file_name: &str, pid: u32, nanos: u128) -> (r: String)
    ensures
        r@ == seq!['.'] + file_name@ + seq!['.'] + decimal(pid as nat) + seq!['-'] + decimal(
            nanos as nat,
        ) + ".tmp"@,
{
    let mut v: Vec<char> = Vec::new();
    v.push('.');
    append_str(&mut v, file_name);
    v.push('.');
    extend_chars(&mut v, decimal_text(pid as u128).as_slice());
    v.push('-');
    extend_chars(&mut v, decimal_text(nanos).as_slice());
    append_str(&mut v, ".tmp");
    string_of(v.as_slice())
}

} // verus!
