//! Package executables: which files of an installed R package can be run
//! as tools, under which launcher names, and the launchers `ir tool
//! install` writes for them.
use vstd::prelude::*;

use crate::cli::{
    empty_scan, executable_name, install_scan, is_package_executable_name, lemma_single_with_entry,
    single_with_entry, tool_install_args_of, with_more_deps, Scan, ScanEnd, ToolInstallArgsView,
};
use crate::paths::Platform;
use crate::rig::model::{contains_string, has_text, opt_view, strings_view};
use crate::rig::r_selection::opt_str_view;
use crate::yaml::{first_document, get, load_first_yaml_document, mapping_get, YamlNode};
use crate::text::{
    append_str, chars_of, eq_lit, extend_chars, lit, lower, lowered, slice_vec, starts_with,
    string_of, trim, trim_start, trimmed, trimmed_start, views,
};

verus! {

/// Where in a package an executable was found.
#[derive(Clone, Copy, PartialEq, Eq, Structural)]
pub enum PackageExecutableDirKind {
    /// `exec/`
    Exec,
    /// `bin/`
    Bin,
    /// `bin/<arch>/` for the selected architecture
    BinArch,
}

impl PackageExecutableDirKind {
    /// Whether the directory is `bin/` or one of its architecture
    /// subdirectories.
    pub fn is_bin(self) -> (r: bool)
        ensures
            r == (self != PackageExecutableDirKind::Exec),
    {
        match self {
            PackageExecutableDirKind::Exec => false,
            _ => true,
        }
    }
}

/// How an executable is started.
#[derive(Clone, Copy, PartialEq, Eq, Structural)]
pub enum PackageLauncher {
    /// Run the file itself.
    Direct,
    /// `Rscript <file>`
    Rscript,
    /// `Rscript -e 'Rapp::run()' <file>`
    Rapp,
    /// Rapp's own front end: `Rscript -e 'Rapp::run()'`
    RappFrontend,
}

/// An executable a package exposes.
pub struct PackageExecutable {
    pub name: String,
    pub path: String,
    pub launcher: PackageLauncher,
    pub dir_kind: PackageExecutableDirKind,
    pub rscript_args: Vec<String>,
}

/// Whether the directory named `dir_name` under `bin/` is the one for the
/// selected architecture.
pub fn arch_dir_matches(dir_name: Option<&str>, r_arch: Option<&str>) -> (r: bool)
    ensures
        r == (r_arch is Some && dir_name is Some && dir_name->Some_0@ == r_arch->Some_0@),
{
    match (dir_name, r_arch) {
        (Some(d), Some(a)) => crate::text::chars_eq(chars_of(d).as_slice(), chars_of(a).as_slice()),
        _ => false,
    }
}

/// An extension that marks a launcher script: `R` in any case, and on
/// Windows also `cmd` and `bat`.
pub open spec fn launcher_suffix(ext: Seq<char>, platform: Platform) -> bool {
    lower(ext) == "r"@ || (platform == Platform::Windows && (lower(ext) == "cmd"@ || lower(ext)
        == "bat"@))
}

/// Whether `ext` marks a launcher script.
pub fn is_package_executable_launcher_suffix(ext: &str, platform: Platform) -> (r: bool)
    ensures
        r == launcher_suffix(ext@, platform),
{
    let l = lowered(chars_of(ext).as_slice());
    eq_lit(l.as_slice(), "r") || (platform == Platform::Windows && (eq_lit(l.as_slice(), "cmd")
        || eq_lit(l.as_slice(), "bat")))
}

/// The name a file answers to: its stem where its extension marks a
/// launcher script, else its whole name.
pub open spec fn answering_name(
    extension: Option<Seq<char>>,
    file_stem: Option<Seq<char>>,
    file_name: Option<Seq<char>>,
    platform: Platform,
) -> Option<Seq<char>> {
    if extension matches Some(e) && launcher_suffix(e, platform) {
        file_stem
    } else {
        file_name
    }
}

/// Whether a file next to Rapp's front end is only another spelling of it.
pub fn is_rapp_frontend_alias(
    extension: Option<&str>,
    file_stem: Option<&str>,
    file_name: Option<&str>,
    platform: Platform,
) -> (r: bool)
    ensures
        r == (answering_name(
            opt_str_view(extension),
            opt_str_view(file_stem),
            opt_str_view(file_name),
            platform,
        ) == Some("Rapp"@)),
{
    let suffix = match extension {
        Some(e) => is_package_executable_launcher_suffix(e, platform),
        None => false,
    };
    let name = if suffix {
        file_stem
    } else {
        file_name
    };
    match name {
        Some(n) => eq_lit(chars_of(n).as_slice(), "Rapp"),
        None => false,
    }
}

/// Rapp's front end, found at `path`.
pub fn rapp_frontend_executable(path: String) -> (r: PackageExecutable)
    ensures
        r.name@ == "Rapp"@,
        r.path == path,
        r.launcher == PackageLauncher::RappFrontend,
        r.dir_kind == PackageExecutableDirKind::Exec,
        r.rscript_args@.len() == 0,
{
    PackageExecutable {
        name: lit("Rapp"),
        path,
        launcher: PackageLauncher::RappFrontend,
        dir_kind: PackageExecutableDirKind::Exec,
        rscript_args: Vec::new(),
    }
}

/// Whether some executable of `all` from a directory of `kind` has the
/// name `name`.
pub open spec fn has_name_of_kind(
    all: Seq<PackageExecutable>,
    name: Seq<char>,
    kind: PackageExecutableDirKind,
) -> bool {
    exists|j: int| 0 <= j < all.len() && #[trigger] all[j].dir_kind == kind && all[j].name@ == name
}

/// Whether `e` stays among `all`: an executable in `exec/` hides those of
/// the same name in `bin/` and its architecture directories, and one in the
/// selected architecture directory hides one of the same name in `bin/`.
pub open spec fn survives(all: Seq<PackageExecutable>, e: PackageExecutable) -> bool {
    &&& !(e.dir_kind != PackageExecutableDirKind::Exec && has_name_of_kind(
        all,
        e.name@,
        PackageExecutableDirKind::Exec,
    ))
    &&& !(e.dir_kind == PackageExecutableDirKind::Bin && has_name_of_kind(
        all,
        e.name@,
        PackageExecutableDirKind::BinArch,
    ))
}

fn has_kind_name(v: &Vec<PackageExecutable>, name: &String, kind: PackageExecutableDirKind) -> (r:
    bool)
    ensures
        r == has_name_of_kind(v@, name@, kind),
{
    let mut j: usize = 0;
    while j < v.len()
        invariant
            j <= v@.len(),
            forall|m: int|
                0 <= m < j ==> !(#[trigger] v@[m].dir_kind == kind && v@[m].name@ == name@),
        decreases v@.len() - j,
    {
        if v[j].dir_kind == kind && crate::text::chars_eq(
            chars_of(v[j].name.as_str()).as_slice(),
            chars_of(name.as_str()).as_slice(),
        ) {
            assert(v@[j as int].dir_kind == kind && v@[j as int].name@ == name@);
            return true;
        }
        j += 1;
    }
    false
}

/// Drops the executables that one of higher precedence hides (see
/// `survives`), keeping the order of the rest.
pub fn shadow_lower_precedence_executables(executables: &mut Vec<PackageExecutable>)
    ensures
        final(executables)@ == old(executables)@.filter(
            |e: PackageExecutable| survives(old(executables)@, e),
        ),
{
    let ghost all = executables@;
    let mut keep: Vec<bool> = Vec::new();
    let mut k: usize = 0;
    while k < executables.len()
        invariant
            executables@ == all,
            k <= all.len(),
            keep@.len() == k,
            forall|m: int| 0 <= m < k ==> #[trigger] keep@[m] == survives(all, all[m]),
        decreases all.len() - k,
    {
        let e = &executables[k];
        let hidden_by_exec = e.dir_kind.is_bin() && has_kind_name(
            executables,
            &e.name,
            PackageExecutableDirKind::Exec,
        );
        let hidden_by_arch = e.dir_kind == PackageExecutableDirKind::Bin && has_kind_name(
            executables,
            &e.name,
            PackageExecutableDirKind::BinArch,
        );
        keep.push(!hidden_by_exec && !hidden_by_arch);
        k += 1;
    }
    assert(all.len() == executables.len());
    assert(all.skip(0) =~= all);
    let mut pending: Vec<PackageExecutable> = Vec::new();
    std::mem::swap(&mut pending, executables);
    let mut kept: Vec<PackageExecutable> = Vec::new();
    let mut i: usize = 0;
    let ghost pred = |e: PackageExecutable| survives(all, e);
    while pending.len() > 0
        invariant
            pending@ == all.skip(i as int),
            i <= all.len(),
            all.len() <= usize::MAX,
            keep@.len() == all.len(),
            forall|m: int| 0 <= m < all.len() ==> #[trigger] keep@[m] == survives(all, all[m]),
            kept@ == all.take(i as int).filter(pred),
            pred == (|e: PackageExecutable| survives(all, e)),
        decreases pending@.len(),
    {
        proof {
            reveal(Seq::filter);
        }
        assert(pending@.len() == all.len() - i);
        assert(i < all.len());
        assert(pending@[0] == all[i as int]);
        let e = pending.remove(0);
        let ghost t = all.take(i + 1);
        assert(t.drop_last() =~= all.take(i as int));
        assert(t.last() == e);
        assert(pending@ =~= all.skip(i + 1));
        assert(pred(e) == keep@[i as int]);
        assert(t.filter(pred) == (if pred(t.last()) {
            t.drop_last().filter(pred).push(t.last())
        } else {
            t.drop_last().filter(pred)
        }));
        if keep[i] {
            kept.push(e);
        }
        i += 1;
    }
    assert(all.take(i as int) =~= all);
    *executables = kept;
}

/// The message for a launcher name that two executables share.
pub open spec fn duplicate_launcher_text(name: Seq<char>, package: Seq<char>) -> Seq<char> {
    "multiple package executables map to launcher `"@ + name + "` in package `"@ + package + "`"@
}

/// Whether the name at `i` repeats an earlier one.
pub open spec fn repeats_earlier(names: Seq<Seq<char>>, i: int) -> bool {
    exists|j: int| 0 <= j < i && names[j] == names[i]
}

/// The names of the executables.
pub open spec fn exe_names(v: Seq<PackageExecutable>) -> Seq<Seq<char>> {
    v.map_values(|e: PackageExecutable| e.name@)
}

/// Fails where two executables answer to the same launcher name, naming
/// the first name that repeats.
pub fn reject_duplicate_launcher_names(executables: &[PackageExecutable], package: &str) -> (r:
    Result<(), String>)
    ensures
        r is Ok <==> forall|i: int|
            0 <= i < executables@.len() ==> !repeats_earlier(exe_names(executables@), i),
        r matches Err(m) ==> exists|i: int|
            0 <= i < executables@.len() && repeats_earlier(exe_names(executables@), i) && (forall|
                k: int,
            | 0 <= k < i ==> !repeats_earlier(exe_names(executables@), k)) && m@
                == duplicate_launcher_text(exe_names(executables@)[i], package@),
{
    let ghost names = exe_names(executables@);
    let mut i: usize = 0;
    while i < executables.len()
        invariant
            names == exe_names(executables@),
            i <= executables@.len(),
            forall|k: int| 0 <= k < i ==> !repeats_earlier(names, k),
        decreases executables@.len() - i,
    {
        let mut j: usize = 0;
        let mut found = false;
        while j < i && !found
            invariant
                names == exe_names(executables@),
                i < executables@.len(),
                j <= i,
                !found ==> forall|m: int| 0 <= m < j ==> #[trigger] names[m] != names[i as int],
                found ==> repeats_earlier(names, i as int),
            decreases i - j,
        {
            assert(names[j as int] == executables@[j as int].name@);
            assert(names[i as int] == executables@[i as int].name@);
            if crate::text::chars_eq(
                chars_of(executables[j].name.as_str()).as_slice(),
                chars_of(executables[i].name.as_str()).as_slice(),
            ) {
                assert(names[j as int] == names[i as int]);
                found = true;
            }
            j += 1;
        }
        if found {
            let mut v: Vec<char> = Vec::new();
            append_str(&mut v, "multiple package executables map to launcher `");
            append_str(&mut v, executables[i].name.as_str());
            append_str(&mut v, "` in package `");
            append_str(&mut v, package);
            append_str(&mut v, "`");
            assert(names[i as int] == executables@[i as int].name@);
            return Err(string_of(v.as_slice()));
        }
        i += 1;
    }
    Ok(())
}

/// The bytes `split(|b| !(b.is_ascii_alphanumeric() || b == b'_'))` keeps
/// inside words.
pub open spec fn word_byte(b: u8) -> bool {
    (48 <= b && b <= 57) || (65 <= b && b <= 90) || (97 <= b && b <= 122) || b == 95
}

fn is_word_byte(b: u8) -> (r: bool)
    ensures
        r == word_byte(b),
{
    (48 <= b && b <= 57) || (65 <= b && b <= 90) || (97 <= b && b <= 122) || b == 95
}

/// Whether `name` is one of the words of `shebang`, words being the runs
/// between bytes that are not ASCII letters, digits or `_`.
pub open spec fn mentions(shebang: Seq<u8>, name: Seq<u8>) -> bool {
    exists|i: int|
        0 <= i && i + name.len() <= shebang.len() && #[trigger] shebang.subrange(i, i + name.len())
            == name && (forall|k: int| i <= k < i + name.len() ==> word_byte(shebang[k])) && (i
            == 0 || !word_byte(shebang[i - 1])) && (i + name.len() == shebang.len() || !word_byte(
            shebang[i + name.len()],
        ))
}

/// Whether the byte at `k` of `name` matches `sh` at offset `i` and is a
/// word byte.
pub open spec fn byte_matches(sh: Seq<u8>, name: Seq<u8>, i: int, k: int) -> bool {
    sh[i + k] == name[k] && word_byte(sh[i + k])
}

proof fn lemma_not_word_at(sh: Seq<u8>, name: Seq<u8>, i: int, k: int)
    requires
        0 <= i,
        i + name.len() <= sh.len(),
        0 <= k < name.len(),
        !byte_matches(sh, name, i, k),
    ensures
        !(sh.subrange(i, i + name.len()) == name && (forall|m: int|
            i <= m < i + name.len() ==> word_byte(sh[m]))),
{
    let sub = sh.subrange(i, i + name.len());
    assert(sub[k] == sh[i + k]);
    if sub == name {
        assert(name[k] == sub[k]);
        assert(i <= i + k < i + name.len());
    }
}

/// Whether the shebang line `shebang` names the program `name` as a word.
pub fn shebang_mentions(shebang: &[u8], name: &[u8]) -> (r: bool)
    ensures
        r == mentions(shebang@, name@),
{
    if name.len() > shebang.len() {
        return false;
    }
    let last = shebang.len() - name.len();
    let mut i: usize = 0;
    loop
        invariant
            last == shebang@.len() - name@.len(),
            name@.len() <= shebang@.len(),
            shebang@.len() == shebang.len(),
            i <= last,
            forall|m: int|
                0 <= m < i ==> !(#[trigger] shebang@.subrange(m, m + name@.len()) == name@ && (forall|
                    k: int,
                | m <= k < m + name@.len() ==> word_byte(shebang@[k])) && (m == 0 || !word_byte(
                    shebang@[m - 1],
                )) && (m + name@.len() == shebang@.len() || !word_byte(shebang@[m + name@.len()]))),
        ensures
            forall|m: int|
                0 <= m <= last ==> !(#[trigger] shebang@.subrange(m, m + name@.len()) == name@ && (
                forall|k: int| m <= k < m + name@.len() ==> word_byte(shebang@[k])) && (m == 0
                    || !word_byte(shebang@[m - 1])) && (m + name@.len() == shebang@.len()
                    || !word_byte(shebang@[m + name@.len()]))),
        decreases last - i,
    {
        let mut j: usize = 0;
        let mut same = true;
        while j < name.len()
            invariant
                i + name@.len() <= shebang@.len(),
                shebang@.len() == shebang.len(),
                j <= name@.len(),
                same == (forall|k: int|
                    0 <= k < j ==> #[trigger] byte_matches(shebang@, name@, i as int, k)),
            decreases name@.len() - j,
        {
            let ok = shebang[i + j] == name[j] && is_word_byte(shebang[i + j]);
            assert(ok == byte_matches(shebang@, name@, i as int, j as int));
            if !ok {
                same = false;
            }
            j += 1;
        }
        let before_ok = i == 0 || !is_word_byte(shebang[i - 1]);
        let after_ok = i + name.len() == shebang.len() || !is_word_byte(shebang[i + name.len()]);
        proof {
            let sub = shebang@.subrange(i as int, i + name@.len());
            if same {
                assert forall|k: int| 0 <= k < name@.len() implies sub[k] == name@[k] by {
                    assert(byte_matches(shebang@, name@, i as int, k));
                }
                assert(sub =~= name@);
                assert forall|k: int| i <= k < i + name@.len() implies word_byte(shebang@[k]) by {
                    let kk = k - i;
                    assert(byte_matches(shebang@, name@, i as int, kk));
                }
            } else {
                let k = choose|k: int|
                    0 <= k < name@.len() && !#[trigger] byte_matches(shebang@, name@, i as int, k);
                lemma_not_word_at(shebang@, name@, i as int, k);
            }
        }
        if same && before_ok && after_ok {
            return true;
        }
        if i == last {
            break;
        }
        i += 1;
    }
    proof {
        assert forall|m: int|
            0 <= m && m + name@.len() <= shebang@.len() && #[trigger] shebang@.subrange(
                m,
                m + name@.len(),
            ) == name@ implies !((forall|k: int|
            m <= k < m + name@.len() ==> word_byte(shebang@[k])) && (m == 0 || !word_byte(
            shebang@[m - 1],
        )) && (m + name@.len() == shebang@.len() || !word_byte(shebang@[m + name@.len()]))) by {
            assert(m <= last);
        }
    }
    false
}

/// The first line of a file prefix, without its newline.
pub open spec fn first_line_bytes(prefix: Seq<u8>) -> Seq<u8> {
    prefix.take(newline_at(prefix) as int)
}

/// The position of the first newline byte, or the length.
pub open spec fn newline_at(p: Seq<u8>) -> nat
    decreases p.len(),
{
    if p.len() == 0 || p[0] == 10 {
        0
    } else {
        1 + newline_at(p.drop_first())
    }
}

proof fn lemma_newline_at(p: Seq<u8>, i: int)
    requires
        0 <= i <= p.len(),
        forall|k: int| 0 <= k < i ==> #[trigger] p[k] != 10,
        i == p.len() || p[i] == 10,
    ensures
        newline_at(p) == i,
    decreases i,
{
    if i > 0 {
        let t = p.drop_first();
        assert(p[0] != 10);
        assert forall|k: int| 0 <= k < i - 1 implies #[trigger] t[k] != 10 by {
            assert(t[k] == p[k + 1]);
        }
        if i < p.len() {
            assert(t[i - 1] == p[i]);
        }
        lemma_newline_at(t, i - 1);
    }
}

/// How an executable found in `exec/` starts, from the first bytes of the
/// file: a shebang naming Rapp or Rscript picks that launcher; another
/// shebang, or none on Windows, runs the file directly where it is
/// runnable there (`direct`); otherwise it is not an executable.
pub open spec fn launcher_kind_of(prefix: Seq<u8>, direct: bool, platform: Platform) -> Option<
    PackageLauncher,
> {
    let sh = first_line_bytes(prefix);
    if !(sh.len() >= 2 && sh[0] == 35 && sh[1] == 33) {
        if platform == Platform::Windows && direct {
            Some(PackageLauncher::Direct)
        } else {
            None
        }
    } else if mentions(sh, seq![82u8, 97u8, 112u8, 112u8]) {
        Some(PackageLauncher::Rapp)
    } else if mentions(sh, seq![82u8, 115u8, 99u8, 114u8, 105u8, 112u8, 116u8]) {
        Some(PackageLauncher::Rscript)
    } else if direct {
        Some(PackageLauncher::Direct)
    } else {
        None
    }
}

/// The launcher for an `exec/` file whose first bytes are `prefix`.
pub fn package_executable_launcher_kind(prefix: &[u8], direct: bool, platform: Platform) -> (r:
    Option<PackageLauncher>)
    ensures
        r == launcher_kind_of(prefix@, direct, platform),
{
    let mut n: usize = 0;
    while n < prefix.len() && prefix[n] != 10
        invariant
            n <= prefix@.len(),
            forall|k: int| 0 <= k < n ==> #[trigger] prefix@[k] != 10,
        decreases prefix@.len() - n,
    {
        n += 1;
    }
    proof {
        lemma_newline_at(prefix@, n as int);
    }
    let mut sh: Vec<u8> = Vec::new();
    let mut k: usize = 0;
    while k < n
        invariant
            n <= prefix@.len(),
            k <= n,
            sh@ == prefix@.take(k as int),
        decreases n - k,
    {
        sh.push(prefix[k]);
        assert(prefix@.take(k + 1) =~= prefix@.take(k as int).push(prefix@[k as int]));
        k += 1;
    }
    if !(sh.len() >= 2 && sh[0] == 35 && sh[1] == 33) {
        if platform == Platform::Windows && direct {
            return Some(PackageLauncher::Direct);
        }
        return None;
    }
    let rapp: [u8; 4] = [82u8, 97u8, 112u8, 112u8];
    let rscript: [u8; 7] = [82u8, 115u8, 99u8, 114u8, 105u8, 112u8, 116u8];
    assert(rapp@ =~= seq![82u8, 97u8, 112u8, 112u8]);
    assert(rscript@ =~= seq![82u8, 115u8, 99u8, 114u8, 105u8, 112u8, 116u8]);
    if shebang_mentions(sh.as_slice(), rapp.as_slice()) {
        Some(PackageLauncher::Rapp)
    } else if shebang_mentions(sh.as_slice(), rscript.as_slice()) {
        Some(PackageLauncher::Rscript)
    } else if direct {
        Some(PackageLauncher::Direct)
    } else {
        None
    }
}

/// The name an executable answers to: the launcher frontmatter's name,
/// else the file's stem where its extension marks a launcher script (not in
/// `bin/`), else its file name. It must be a supported launcher name.
pub open spec fn launcher_name_outcome(
    path: Seq<char>,
    metadata_name: Option<Seq<char>>,
    dir_kind: PackageExecutableDirKind,
    extension: Option<Seq<char>>,
    file_stem: Option<Seq<char>>,
    file_name: Option<Seq<char>>,
    platform: Platform,
) -> Result<Seq<char>, Seq<char>> {
    let name = if metadata_name is Some {
        metadata_name
    } else if dir_kind == PackageExecutableDirKind::Exec && (extension matches Some(e)
        && launcher_suffix(e, platform)) {
        file_stem
    } else {
        file_name
    };
    match name {
        None => Err("package executable `"@ + path + "` is not valid UTF-8"@),
        Some(n) => if executable_name(n) {
            Ok(n)
        } else {
            Err(
                "package executable `"@ + path + "` maps to unsupported launcher name `"@ + n
                    + "`"@,
            )
        },
    }
}

/// The launcher name of the executable at `path` (shown as given), from
/// its metadata name and the parts of its file name that are valid UTF-8.
pub fn package_executable_launcher_name(
    path: &str,
    metadata_name: Option<String>,
    dir_kind: PackageExecutableDirKind,
    extension: Option<&str>,
    file_stem: Option<&str>,
    file_name: Option<&str>,
    platform: Platform,
) -> (r: Result<String, String>)
    ensures
        match launcher_name_outcome(
            path@,
            opt_view(metadata_name),
            dir_kind,
            opt_str_view(extension),
            opt_str_view(file_stem),
            opt_str_view(file_name),
            platform,
        ) {
            Ok(n) => r matches Ok(x) && x@ == n,
            Err(e) => r matches Err(m) && m@ == e,
        },
{
    let suffix = match extension {
        Some(e) => is_package_executable_launcher_suffix(e, platform),
        None => false,
    };
    let name = match metadata_name {
        Some(n) => n,
        None => {
            let part = if !dir_kind.is_bin() && suffix {
                file_stem
            } else {
                file_name
            };
            match part {
                Some(p) => lit(p),
                None => {
                    let mut v: Vec<char> = Vec::new();
                    append_str(&mut v, "package executable `");
                    append_str(&mut v, path);
                    append_str(&mut v, "` is not valid UTF-8");
                    return Err(string_of(v.as_slice()));
                },
            }
        },
    };
    if !is_package_executable_name(name.as_str()) {
        let mut v: Vec<char> = Vec::new();
        append_str(&mut v, "package executable `");
        append_str(&mut v, path);
        append_str(&mut v, "` maps to unsupported launcher name `");
        append_str(&mut v, name.as_str());
        append_str(&mut v, "`");
        return Err(string_of(v.as_slice()));
    }
    Ok(name)
}

/// A key with each `-` written as `_`.
pub open spec fn underscored(key: Seq<char>) -> Seq<char> {
    key.map_values(|c: char| if c == '-' {
        '_'
    } else {
        c
    })
}

/// A launcher setting: under its own key, or under the key spelled with
/// underscores where that differs.
pub open spec fn launcher_get(mapping: YamlNode, key: Seq<char>) -> Option<YamlNode> {
    match get(mapping, key) {
        Some(v) => Some(v),
        None => if underscored(key) == key {
            None
        } else {
            get(mapping, underscored(key))
        },
    }
}

fn underscored_text(key: &str) -> (r: String)
    ensures
        r@ == underscored(key@),
{
    let c = chars_of(key);
    let mut v: Vec<char> = Vec::new();
    let mut i: usize = 0;
    while i < c.len()
        invariant
            i <= c@.len(),
            v@ == underscored(c@.take(i as int)),
        decreases c@.len() - i,
    {
        v.push(if c[i] == '-' { '_' } else { c[i] });
        assert(underscored(c@.take(i + 1)) =~= underscored(c@.take(i as int)).push(
            if c@[i as int] == '-' { '_' } else { c@[i as int] },
        ));
        i += 1;
    }
    assert(c@.take(c@.len() as int) =~= c@);
    string_of(v.as_slice())
}

/// The launcher setting `key` of `mapping`.
pub fn launcher_mapping_get<'a>(mapping: &'a YamlNode, key: &str) -> (r: Option<&'a YamlNode>)
    ensures
        match launcher_get(*mapping, key@) {
            Some(v) => r matches Some(x) && *x == v,
            None => r is None,
        },
{
    if let Some(v) = mapping_get(mapping, key) {
        return Some(v);
    }
    let normalized = underscored_text(key);
    if crate::text::chars_eq(chars_of(normalized.as_str()).as_slice(), chars_of(key).as_slice()) {
        None
    } else {
        mapping_get(mapping, normalized.as_str())
    }
}

/// `launcher frontmatter `{key}` in `{path}` must be {what}`.
pub open spec fn launcher_error(key: Seq<char>, path: Seq<char>, what: Seq<char>) -> Seq<char> {
    "launcher frontmatter `"@ + key + "` in `"@ + path + "` must "@ + what
}

fn launcher_error_text(key: &str, path: &str, what: &str) -> (r: String)
    ensures
        r@ == launcher_error(key@, path@, what@),
{
    let mut v: Vec<char> = Vec::new();
    append_str(&mut v, "launcher frontmatter `");
    append_str(&mut v, key);
    append_str(&mut v, "` in `");
    append_str(&mut v, path);
    append_str(&mut v, "` must ");
    append_str(&mut v, what);
    string_of(v.as_slice())
}

/// An optional launcher string: absent or null is none, a string is kept
/// trimmed (even when blank), anything else is an error.
pub open spec fn launcher_string(mapping: YamlNode, key: Seq<char>, path: Seq<char>) -> Result<
    Option<Seq<char>>,
    Seq<char>,
> {
    match launcher_get(mapping, key) {
        None => Ok(None),
        Some(YamlNode::Null) => Ok(None),
        Some(YamlNode::Text(s)) => Ok(Some(trim(s@))),
        Some(_) => Err(launcher_error(key, path, "be a string"@)),
    }
}

/// The optional launcher string `key` of `mapping`.
pub fn launcher_optional_string(mapping: &YamlNode, key: &str, path: &str) -> (r: Result<
    Option<String>,
    String,
>)
    ensures
        match launcher_string(*mapping, key@, path@) {
            Ok(v) => r matches Ok(x) && opt_view(x) == v,
            Err(e) => r matches Err(m) && m@ == e,
        },
{
    match launcher_mapping_get(mapping, key) {
        None => Ok(None),
        Some(YamlNode::Null) => Ok(None),
        Some(YamlNode::Text(s)) => Ok(Some(string_of(trimmed(chars_of(s.as_str()).as_slice()).as_slice()))),
        Some(_) => Err(launcher_error_text(key, path, "be a string")),
    }
}

/// An optional launcher switch: absent or null is off, anything but a
/// boolean is an error.
pub open spec fn launcher_bool(mapping: YamlNode, key: Seq<char>, path: Seq<char>) -> Result<
    bool,
    Seq<char>,
> {
    match launcher_get(mapping, key) {
        None => Ok(false),
        Some(YamlNode::Null) => Ok(false),
        Some(YamlNode::Bool(b)) => Ok(b),
        Some(_) => Err(launcher_error(key, path, "be a boolean"@)),
    }
}

/// The launcher switch `key` of `mapping`.
pub fn launcher_optional_bool(mapping: &YamlNode, key: &str, path: &str) -> (r: Result<bool, String>)
    ensures
        match launcher_bool(*mapping, key@, path@) {
            Ok(b) => r == Ok::<bool, String>(b),
            Err(e) => r matches Err(m) && m@ == e,
        },
{
    match launcher_mapping_get(mapping, key) {
        None => Ok(false),
        Some(YamlNode::Null) => Ok(false),
        Some(YamlNode::Bool(b)) => Ok(*b),
        Some(_) => Err(launcher_error_text(key, path, "be a boolean")),
    }
}

/// A launcher string that must not be blank, trimmed.
pub open spec fn nonempty_outcome(value: Seq<char>, key: Seq<char>, path: Seq<char>) -> Result<
    Seq<char>,
    Seq<char>,
> {
    if trim(value).len() == 0 {
        Err(launcher_error(key, path, "not contain empty strings"@))
    } else {
        Ok(trim(value))
    }
}

/// `value` trimmed, or an error where it is blank.
pub fn nonempty_launcher_string(value: &str, key: &str, path: &str) -> (r: Result<String, String>)
    ensures
        match nonempty_outcome(value@, key@, path@) {
            Ok(v) => r matches Ok(x) && x@ == v,
            Err(e) => r matches Err(m) && m@ == e,
        },
{
    let t = trimmed(chars_of(value).as_slice());
    if t.len() == 0 {
        return Err(launcher_error_text(key, path, "not contain empty strings"));
    }
    Ok(string_of(t.as_slice()))
}

/// The error for a `default-packages` entry that is not a string.
pub open spec fn entries_error(path: Seq<char>) -> Seq<char> {
    "launcher frontmatter `default-packages` entries in `"@ + path + "` must be strings"@
}

/// The packages of a `default-packages` sequence: each must be a
/// non-blank string; the first entry that is not decides the error.
pub open spec fn package_list(items: Seq<YamlNode>, path: Seq<char>) -> Result<
    Seq<Seq<char>>,
    Seq<char>,
>
    decreases items.len(),
{
    if items.len() == 0 {
        Ok(Seq::empty())
    } else {
        match items[0] {
            YamlNode::Text(s) => match nonempty_outcome(s@, "default-packages"@, path) {
                Err(e) => Err(e),
                Ok(v) => match package_list(items.drop_first(), path) {
                    Err(e) => Err(e),
                    Ok(rest) => Ok(seq![v] + rest),
                },
            },
            _ => Err(entries_error(path)),
        }
    }
}

fn package_list_from(items: &Vec<YamlNode>, i: usize, path: &str) -> (r: Result<Vec<String>, String>)
    requires
        i <= items@.len(),
    ensures
        match package_list(items@.skip(i as int), path@) {
            Ok(v) => r matches Ok(x) && views(x@) == v,
            Err(e) => r matches Err(m) && m@ == e,
        },
    decreases items@.len() - i,
{
    let ghost rest = items@.skip(i as int);
    if i == items.len() {
        assert(rest.len() == 0);
        let r: Vec<String> = Vec::new();
        assert(views(r@) =~= Seq::<Seq<char>>::empty());
        return Ok(r);
    }
    assert(rest[0] == items@[i as int]);
    assert(rest.drop_first() =~= items@.skip(i + 1));
    match &items[i] {
        YamlNode::Text(s) => {
            let v = nonempty_launcher_string(s.as_str(), "default-packages", path)?;
            let mut tail = package_list_from(items, i + 1, path)?;
            let ghost t = views(tail@);
            tail.insert(0, v);
            assert(views(tail@) =~= seq![v@] + t);
            Ok(tail)
        },
        _ => {
            let mut m: Vec<char> = Vec::new();
            append_str(&mut m, "launcher frontmatter `default-packages` entries in `");
            append_str(&mut m, path);
            append_str(&mut m, "` must be strings");
            Err(string_of(m.as_slice()))
        },
    }
}

/// `parts` joined with `sep`.
pub open spec fn joined(parts: Seq<Seq<char>>, sep: Seq<char>) -> Seq<char>
    decreases parts.len(),
{
    if parts.len() == 0 {
        Seq::empty()
    } else if parts.len() == 1 {
        parts[0]
    } else {
        joined(parts.drop_last(), sep) + sep + parts.last()
    }
}

/// The strings `parts` joined with `sep`.
pub fn join_texts(parts: &[String], sep: &str) -> (r: String)
    ensures
        r@ == joined(views(parts@), sep@),
{
    let mut v: Vec<char> = Vec::new();
    let mut i: usize = 0;
    while i < parts.len()
        invariant
            i <= parts@.len(),
            v@ == joined(views(parts@.take(i as int)), sep@),
        decreases parts@.len() - i,
    {
        let ghost prev = views(parts@.take(i as int));
        assert(views(parts@.take(i + 1)).drop_last() =~= prev);
        assert(views(parts@.take(i + 1)).last() == parts@[i as int]@);
        if i > 0 {
            append_str(&mut v, sep);
        } else {
            assert(prev.len() == 0);
            assert(views(parts@.take(1))[0] == parts@[0]@);
        }
        append_str(&mut v, parts[i].as_str());
        i += 1;
    }
    assert(parts@.take(parts@.len() as int) =~= parts@);
    string_of(v.as_slice())
}

/// The `--default-packages` value of a launcher: absent, the package's
/// default where asked for (`base,<package>`); null, `NULL`; a string or a
/// sequence of strings, those packages.
pub open spec fn default_packages_outcome(
    mapping: Option<YamlNode>,
    path: Seq<char>,
    package: Seq<char>,
    use_package_default: bool,
) -> Result<Option<Seq<char>>, Seq<char>> {
    let fallback = if use_package_default {
        Some("base,"@ + package)
    } else {
        None
    };
    match mapping {
        None => Ok(fallback),
        Some(m) => match launcher_get(m, "default-packages"@) {
            None => Ok(fallback),
            Some(YamlNode::Null) => Ok(Some("NULL"@)),
            Some(YamlNode::Text(s)) => match nonempty_outcome(s@, "default-packages"@, path) {
                Ok(v) => Ok(Some(v)),
                Err(e) => Err(e),
            },
            Some(YamlNode::Sequence(items)) => match package_list(items@, path) {
                Ok(v) => Ok(Some(joined(v, ","@))),
                Err(e) => Err(e),
            },
            Some(_) => Err(
                "launcher frontmatter `default-packages` in `"@ + path
                    + "` must be a string or sequence"@,
            ),
        },
    }
}

/// The `--default-packages` value for a launcher.
pub fn launcher_default_packages(
    mapping: Option<&YamlNode>,
    path: &str,
    package: &str,
    use_package_default: bool,
) -> (r: Result<Option<String>, String>)
    ensures
        match default_packages_outcome(
            match mapping {
                Some(n) => Some(*n),
                None => None,
            },
            path@,
            package@,
            use_package_default,
        ) {
            Ok(v) => r matches Ok(x) && opt_view(x) == v,
            Err(e) => r matches Err(m) && m@ == e,
        },
{
    let fallback = if use_package_default {
        let mut v: Vec<char> = Vec::new();
        append_str(&mut v, "base,");
        append_str(&mut v, package);
        Some(string_of(v.as_slice()))
    } else {
        None
    };
    let m = match mapping {
        Some(m) => m,
        None => {
            return Ok(fallback);
        },
    };
    match launcher_mapping_get(m, "default-packages") {
        None => Ok(fallback),
        Some(YamlNode::Null) => Ok(Some(lit("NULL"))),
        Some(YamlNode::Text(s)) => {
            let v = nonempty_launcher_string(s.as_str(), "default-packages", path)?;
            Ok(Some(v))
        },
        Some(YamlNode::Sequence(items)) => {
            assert(items@.skip(0) =~= items@);
            let packages = package_list_from(items, 0, path)?;
            Ok(Some(join_texts(packages.as_slice(), ",")))
        },
        Some(_) => {
            let mut v: Vec<char> = Vec::new();
            append_str(&mut v, "launcher frontmatter `default-packages` in `");
            append_str(&mut v, path);
            append_str(&mut v, "` must be a string or sequence");
            Err(string_of(v.as_slice()))
        },
    }
}

/// The launcher switches and the Rscript options they turn on, in the
/// order they are read.
pub open spec fn flag_table() -> Seq<(Seq<char>, Seq<char>)> {
    seq![
        ("vanilla"@, "--vanilla"@),
        ("no-environ"@, "--no-environ"@),
        ("no-site-file"@, "--no-site-file"@),
        ("no-init-file"@, "--no-init-file"@),
        ("restore"@, "--restore"@),
        ("save"@, "--save"@),
        ("verbose"@, "--verbose"@),
    ]
}

/// The Rscript options the switches `flags` of `launcher` turn on; the
/// first switch that is not a boolean is an error.
pub open spec fn flags_outcome(
    launcher: YamlNode,
    path: Seq<char>,
    flags: Seq<(Seq<char>, Seq<char>)>,
) -> Result<Seq<Seq<char>>, Seq<char>>
    decreases flags.len(),
{
    if flags.len() == 0 {
        Ok(Seq::empty())
    } else {
        match launcher_bool(launcher, flags[0].0, path) {
            Err(e) => Err(e),
            Ok(on) => match flags_outcome(launcher, path, flags.drop_first()) {
                Err(e) => Err(e),
                Ok(rest) => Ok(
                    if on {
                        seq![flags[0].1] + rest
                    } else {
                        rest
                    },
                ),
            },
        }
    }
}

fn flags_from(launcher: &YamlNode, path: &str, table: &[(&str, &str)], i: usize) -> (r: Result<
    Vec<String>,
    String,
>)
    requires
        i <= table@.len(),
    ensures
        match flags_outcome(
            *launcher,
            path@,
            table@.skip(i as int).map_values(|p: (&str, &str)| (p.0@, p.1@)),
        ) {
            Ok(v) => r matches Ok(x) && views(x@) == v,
            Err(e) => r matches Err(m) && m@ == e,
        },
    decreases table@.len() - i,
{
    let ghost rest = table@.skip(i as int).map_values(|p: (&str, &str)| (p.0@, p.1@));
    if i == table.len() {
        assert(rest.len() == 0);
        let r: Vec<String> = Vec::new();
        assert(views(r@) =~= Seq::<Seq<char>>::empty());
        return Ok(r);
    }
    let (key, arg) = table[i];
    assert(rest[0] == (key@, arg@));
    assert(rest.drop_first() =~= table@.skip(i + 1).map_values(|p: (&str, &str)| (p.0@, p.1@)));
    let on = launcher_optional_bool(launcher, key, path)?;
    let mut tail = flags_from(launcher, path, table, i + 1)?;
    if on {
        let ghost t = views(tail@);
        let a = lit(arg);
        tail.insert(0, a);
        assert(views(tail@) =~= seq![arg@] + t);
    }
    Ok(tail)
}

/// The Rscript options of a launcher: its switches, then
/// `--default-packages=` where there is a value for it.
pub open spec fn rscript_args_outcome(
    launcher: Option<YamlNode>,
    path: Seq<char>,
    package: Seq<char>,
    use_package_default: bool,
) -> Result<Seq<Seq<char>>, Seq<char>> {
    let flags = match launcher {
        Some(l) => flags_outcome(l, path, flag_table()),
        None => Ok(Seq::empty()),
    };
    match flags {
        Err(e) => Err(e),
        Ok(args) => match default_packages_outcome(launcher, path, package, use_package_default) {
            Err(e) => Err(e),
            Ok(None) => Ok(args),
            Ok(Some(d)) => Ok(args.push("--default-packages="@ + d)),
        },
    }
}

/// The Rscript options for a launcher.
pub fn launcher_rscript_args(
    launcher: Option<&YamlNode>,
    path: &str,
    package: &str,
    use_package_default: bool,
) -> (r: Result<Vec<String>, String>)
    ensures
        match rscript_args_outcome(
            match launcher {
                Some(n) => Some(*n),
                None => None,
            },
            path@,
            package@,
            use_package_default,
        ) {
            Ok(v) => r matches Ok(x) && views(x@) == v,
            Err(e) => r matches Err(m) && m@ == e,
        },
{
    let table: [(&str, &str); 7] = [
        ("vanilla", "--vanilla"),
        ("no-environ", "--no-environ"),
        ("no-site-file", "--no-site-file"),
        ("no-init-file", "--no-init-file"),
        ("restore", "--restore"),
        ("save", "--save"),
        ("verbose", "--verbose"),
    ];
    assert(table@.skip(0).map_values(|p: (&str, &str)| (p.0@, p.1@)) =~= flag_table());
    let mut args = match launcher {
        Some(l) => flags_from(l, path, table.as_slice(), 0)?,
        None => {
            let r: Vec<String> = Vec::new();
            assert(views(r@) =~= Seq::<Seq<char>>::empty());
            r
        },
    };
    if let Some(d) = launcher_default_packages(launcher, path, package, use_package_default)? {
        let ghost before = views(args@);
        let x = prefixed_text("--default-packages=", d.as_str());
        args.push(x);
        assert(views(args@) =~= before.push("--default-packages="@ + d@));
    }
    Ok(args)
}

fn prefixed_text(prefix: &str, s: &str) -> (r: String)
    ensures
        r@ == prefix@ + s@,
{
    let mut v: Vec<char> = Vec::new();
    append_str(&mut v, prefix);
    append_str(&mut v, s);
    string_of(v.as_slice())
}

/// What a launcher's frontmatter says about it: the name it answers to,
/// and the Rscript options it runs with.
pub struct PackageLauncherMetadata {
    pub name: Option<String>,
    pub rscript_args: Vec<String>,
}

/// The metadata of a launcher from its `launcher` mapping (if any) and the
/// top-level `name`: the mapping's `name` wins; Rapp launchers always get
/// Rscript options (with the package as default package), Rscript
/// launchers only from a mapping.
pub open spec fn metadata_outcome(
    launcher: Option<YamlNode>,
    top_level_name: Option<Seq<char>>,
    path: Seq<char>,
    package: Seq<char>,
    kind: PackageLauncher,
) -> Result<(Option<Seq<char>>, Seq<Seq<char>>), Seq<char>> {
    let name = match launcher {
        Some(l) => match launcher_string(l, "name"@, path) {
            Err(e) => Err(e),
            Ok(Some(n)) => Ok(Some(n)),
            Ok(None) => Ok(top_level_name),
        },
        None => Ok(top_level_name),
    };
    match name {
        Err(e) => Err(e),
        Ok(n) => {
            let args = if kind == PackageLauncher::Rapp {
                rscript_args_outcome(launcher, path, package, true)
            } else if kind == PackageLauncher::Rscript && launcher is Some {
                rscript_args_outcome(launcher, path, package, false)
            } else {
                Ok(Seq::empty())
            };
            match args {
                Err(e) => Err(e),
                Ok(a) => Ok((n, a)),
            }
        },
    }
}

/// The metadata of a launcher from its frontmatter mapping.
pub fn package_launcher_metadata_from_mapping(
    launcher: Option<&YamlNode>,
    top_level_name: Option<String>,
    path: &str,
    package: &str,
    kind: PackageLauncher,
) -> (r: Result<PackageLauncherMetadata, String>)
    ensures
        match metadata_outcome(
            match launcher {
                Some(n) => Some(*n),
                None => None,
            },
            opt_view(top_level_name),
            path@,
            package@,
            kind,
        ) {
            Ok((n, a)) => r matches Ok(x) && opt_view(x.name) == n && views(x.rscript_args@) == a,
            Err(e) => r matches Err(m) && m@ == e,
        },
{
    let name = match launcher {
        Some(l) => match launcher_optional_string(l, "name", path)? {
            Some(n) => Some(n),
            None => top_level_name,
        },
        None => top_level_name,
    };
    let rscript_args = match kind {
        PackageLauncher::Rapp => launcher_rscript_args(launcher, path, package, true)?,
        PackageLauncher::Rscript => if launcher.is_some() {
            launcher_rscript_args(launcher, path, package, false)?
        } else {
            let r: Vec<String> = Vec::new();
            assert(views(r@) =~= Seq::<Seq<char>>::empty());
            r
        },
        _ => {
            let r: Vec<String> = Vec::new();
            assert(views(r@) =~= Seq::<Seq<char>>::empty());
            r
        },
    };
    Ok(PackageLauncherMetadata { name, rscript_args })
}

/// The `launcher` mapping of a frontmatter document, if it has one.
pub open spec fn launcher_mapping_outcome(doc: YamlNode, path: Seq<char>) -> Result<
    Option<YamlNode>,
    Seq<char>,
> {
    match get(doc, "launcher"@) {
        None => Ok(None),
        Some(YamlNode::Null) => Ok(None),
        Some(YamlNode::Mapping(m)) => Ok(Some(YamlNode::Mapping(m))),
        Some(_) => Err(
            "launcher frontmatter `launcher` in `"@ + path + "` must be a YAML mapping"@,
        ),
    }
}

/// The metadata of a launcher whose `#| ` frontmatter text is
/// `frontmatter`. Direct launchers have none, and their file is not read.
pub open spec fn launcher_metadata_outcome(
    frontmatter: Seq<char>,
    path: Seq<char>,
    package: Seq<char>,
    kind: PackageLauncher,
) -> Result<(Option<Seq<char>>, Seq<Seq<char>>), Seq<char>> {
    if kind == PackageLauncher::Direct {
        Ok((None, Seq::empty()))
    } else if crate::text::is_blank(frontmatter) {
        metadata_outcome(None, None, path, package, kind)
    } else {
        match first_document(frontmatter, "launcher frontmatter"@) {
            Err(e) => Err(e),
            Ok(doc) => launcher_document_outcome(doc, path, package, kind),
        }
    }
}

/// The metadata a loaded launcher frontmatter document gives: the defaults
/// for no document or a null one; an error where it is not a mapping or
/// its `launcher` entry is neither null nor a mapping; else what its
/// `launcher` mapping and top-level `name` say.
pub open spec fn launcher_document_outcome(
    doc: Option<YamlNode>,
    path: Seq<char>,
    package: Seq<char>,
    kind: PackageLauncher,
) -> Result<(Option<Seq<char>>, Seq<Seq<char>>), Seq<char>> {
    match doc {
        None => metadata_outcome(None, None, path, package, kind),
        Some(doc) => if doc is Null {
            metadata_outcome(None, None, path, package, kind)
        } else if !(doc is Mapping) {
            Err("launcher frontmatter in `"@ + path + "` must be a YAML mapping"@)
        } else {
            match launcher_mapping_outcome(doc, path) {
                Err(e) => Err(e),
                Ok(launcher) => match launcher_string(doc, "name"@, path) {
                    Err(e) => Err(e),
                    Ok(top) => metadata_outcome(launcher, top, path, package, kind),
                },
            }
        },
    }
}

/// The metadata of a launcher from its loaded frontmatter document.
pub fn package_launcher_metadata_from_document(
    doc: Option<YamlNode>,
    path: &str,
    package: &str,
    kind: PackageLauncher,
) -> (r: Result<PackageLauncherMetadata, String>)
    ensures
        match launcher_document_outcome(doc, path@, package@, kind) {
            Ok((n, a)) => r matches Ok(x) && opt_view(x.name) == n && views(x.rscript_args@) == a,
            Err(e) => r matches Err(m) && m@ == e,
        },
{
    let doc = match doc {
        None => {
            return package_launcher_metadata_from_mapping(None, None, path, package, kind);
        },
        Some(doc) => doc,
    };
    match &doc {
        YamlNode::Null => {
            return package_launcher_metadata_from_mapping(None, None, path, package, kind);
        },
        YamlNode::Mapping(_) => {},
        _ => {
            let mut v: Vec<char> = Vec::new();
            append_str(&mut v, "launcher frontmatter in `");
            append_str(&mut v, path);
            append_str(&mut v, "` must be a YAML mapping");
            return Err(string_of(v.as_slice()));
        },
    }
    let launcher = match mapping_get(&doc, "launcher") {
        None => None,
        Some(YamlNode::Null) => None,
        Some(l) => match l {
            YamlNode::Mapping(_) => Some(l),
            _ => {
                let mut v: Vec<char> = Vec::new();
                append_str(&mut v, "launcher frontmatter `launcher` in `");
                append_str(&mut v, path);
                append_str(&mut v, "` must be a YAML mapping");
                return Err(string_of(v.as_slice()));
            },
        },
    };
    let top = launcher_optional_string(&doc, "name", path)?;
    package_launcher_metadata_from_mapping(launcher, top, path, package, kind)
}

/// The metadata of a launcher from its frontmatter text.
pub fn package_launcher_metadata(
    frontmatter: &str,
    path: &str,
    package: &str,
    kind: PackageLauncher,
) -> (r: Result<PackageLauncherMetadata, String>)
    ensures
        match launcher_metadata_outcome(frontmatter@, path@, package@, kind) {
            Ok((n, a)) => r matches Ok(x) && opt_view(x.name) == n && views(x.rscript_args@) == a,
            Err(e) => r matches Err(m) && m@ == e,
        },
{
    if kind == PackageLauncher::Direct {
        let r: Vec<String> = Vec::new();
        assert(views(r@) =~= Seq::<Seq<char>>::empty());
        return Ok(PackageLauncherMetadata { name: None, rscript_args: r });
    }
    if crate::text::all_white(chars_of(frontmatter).as_slice()) {
        return package_launcher_metadata_from_mapping(None, None, path, package, kind);
    }
    let doc = load_first_yaml_document(frontmatter, "launcher frontmatter")?;
    package_launcher_metadata_from_document(doc, path, package, kind)
}

/// `v` with each `'` written as `'\''`.
pub open spec fn sh_escape(v: Seq<char>) -> Seq<char>
    decreases v.len(),
{
    if v.len() == 0 {
        Seq::empty()
    } else {
        sh_escape(v.drop_last()) + if v.last() == '\'' {
            "'\\''"@
        } else {
            seq![v.last()]
        }
    }
}

/// `v` quoted for a POSIX shell.
pub open spec fn sh_quoted(v: Seq<char>) -> Seq<char> {
    seq!['\''] + sh_escape(v) + seq!['\'']
}

/// `value` in single quotes for `/bin/sh`.
pub fn sh_quote_str(value: &str) -> (r: String)
    ensures
        r@ == sh_quoted(value@),
{
    let c = chars_of(value);
    let mut v: Vec<char> = Vec::new();
    v.push('\'');
    let mut i: usize = 0;
    while i < c.len()
        invariant
            i <= c@.len(),
            v@ == seq!['\''] + sh_escape(c@.take(i as int)),
        decreases c@.len() - i,
    {
        assert(c@.take(i + 1).drop_last() =~= c@.take(i as int));
        if c[i] == '\'' {
            append_str(&mut v, "'\\''");
        } else {
            v.push(c[i]);
        }
        i += 1;
    }
    assert(c@.take(c@.len() as int) =~= c@);
    v.push('\'');
    string_of(v.as_slice())
}

/// `v` with each `"` doubled.
pub open spec fn cmd_escape(v: Seq<char>) -> Seq<char>
    decreases v.len(),
{
    if v.len() == 0 {
        Seq::empty()
    } else {
        cmd_escape(v.drop_last()) + if v.last() == '"' {
            seq!['"', '"']
        } else {
            seq![v.last()]
        }
    }
}

/// `v` quoted for `cmd.exe`.
pub open spec fn cmd_quoted(v: Seq<char>) -> Seq<char> {
    seq!['"'] + cmd_escape(v) + seq!['"']
}

/// `value` in double quotes for `cmd.exe`.
pub fn cmd_quote_str(value: &str) -> (r: String)
    ensures
        r@ == cmd_quoted(value@),
{
    let c = chars_of(value);
    let mut v: Vec<char> = Vec::new();
    v.push('"');
    let mut i: usize = 0;
    while i < c.len()
        invariant
            i <= c@.len(),
            v@ == seq!['"'] + cmd_escape(c@.take(i as int)),
        decreases c@.len() - i,
    {
        assert(c@.take(i + 1).drop_last() =~= c@.take(i as int));
        if c[i] == '"' {
            v.push('"');
            v.push('"');
        } else {
            v.push(c[i]);
        }
        i += 1;
    }
    assert(c@.take(c@.len() as int) =~= c@);
    v.push('"');
    string_of(v.as_slice())
}

/// A character that `/bin/sh` passes on as itself outside quotes.
pub open spec fn sh_plain_char(c: char) -> bool {
    crate::text::is_alnum(c) || c == '_' || c == '-' || c == '.' || c == '/' || c == ':' || c == '@'
}

/// The value of a shell word written as plain characters, single-quoted
/// strings and backslash-escaped characters, as `/bin/sh` reads it; none
/// for text that is not such a word.
pub open spec fn sh_word_value(t: Seq<char>) -> Option<Seq<char>>
    decreases t.len(),
{
    if t.len() == 0 {
        Some(Seq::empty())
    } else if t[0] == '\'' {
        let rest = t.drop_first();
        let k = crate::text::char_index(rest, '\'');
        if k < rest.len() {
            match sh_word_value(rest.skip(k as int + 1)) {
                Some(r) => Some(rest.take(k as int) + r),
                None => None,
            }
        } else {
            None
        }
    } else if t[0] == '\\' && t.len() >= 2 {
        match sh_word_value(t.skip(2)) {
            Some(r) => Some(seq![t[1]] + r),
            None => None,
        }
    } else if sh_plain_char(t[0]) {
        match sh_word_value(t.drop_first()) {
            Some(r) => Some(seq![t[0]] + r),
            None => None,
        }
    } else {
        None
    }
}

proof fn lemma_sh_escape_concat(x: Seq<char>, y: Seq<char>)
    ensures
        sh_escape(x + y) == sh_escape(x) + sh_escape(y),
    decreases y.len(),
{
    if y.len() > 0 {
        lemma_sh_escape_concat(x, y.drop_last());
        assert((x + y).drop_last() =~= x + y.drop_last());
        assert((x + y).last() == y.last());
    } else {
        assert(x + y =~= x);
    }
}

proof fn lemma_sh_escape_plain(a: Seq<char>)
    requires
        forall|i: int| 0 <= i < a.len() ==> a[i] != '\'',
    ensures
        sh_escape(a) == a,
    decreases a.len(),
{
    if a.len() > 0 {
        lemma_sh_escape_plain(a.drop_last());
        assert(a.drop_last().push(a.last()) =~= a);
    }
}

/// The shell reads a quoted value back unchanged: whatever a launcher
/// quotes reaches the program as it was.
pub proof fn lemma_sh_quoted_reads_back(v: Seq<char>)
    ensures
        sh_word_value(sh_quoted(v)) == Some(v),
    decreases v.len(),
{
    reveal_strlit("'\\''");
    let k = crate::text::char_index(v, '\'');
    crate::text::lemma_char_index(v, '\'');
    let a = v.take(k as int);
    assert forall|i: int| 0 <= i < a.len() implies a[i] != '\'' by {
        assert(a[i] == v[i]);
    }
    lemma_sh_escape_plain(a);
    let t = sh_quoted(v);
    if k == v.len() {
        assert(a =~= v);
        let rest = t.drop_first();
        assert(rest =~= v + seq!['\'']);
        crate::text::lemma_char_index_at(rest, '\'', v.len() as int);
        assert(rest.take(v.len() as int) =~= v);
        assert(rest.skip(v.len() as int + 1) =~= Seq::<char>::empty());
        assert(t[0] == '\'');
        assert(sh_word_value(Seq::<char>::empty()) == Some(Seq::<char>::empty()));
        assert(v + Seq::<char>::empty() =~= v);
    } else {
        let b = v.skip(k as int + 1);
        assert(v =~= a + seq!['\''] + b);
        lemma_sh_escape_concat(a + seq!['\''], b);
        lemma_sh_escape_concat(a, seq!['\'']);
        assert(sh_escape(seq!['\'']) =~= seq!['\'', '\\', '\'', '\'']) by {
            assert(seq!['\''].drop_last() =~= Seq::<char>::empty());
            assert(sh_escape(Seq::<char>::empty()) == Seq::<char>::empty());
            assert(sh_escape(seq!['\'']) == sh_escape(seq!['\''].drop_last()) + "'\\''"@);
            assert("'\\''"@ =~= seq!['\'', '\\', '\'', '\'']);
        }
        lemma_sh_quoted_reads_back(b);
        let rest = t.drop_first();
        assert(rest =~= a + seq!['\'', '\\', '\'', '\''] + sh_escape(b) + seq!['\'']);
        crate::text::lemma_char_index_at(rest, '\'', a.len() as int);
        assert(rest.take(a.len() as int) =~= a);
        let after = rest.skip(a.len() as int + 1);
        assert(after =~= seq!['\\', '\''] + sh_quoted(b));
        assert(after.skip(2) =~= sh_quoted(b));
        assert(after[0] == '\\' && after.len() >= 2);
        assert(sh_word_value(after) == Some(seq![after[1]] + b));
        assert(t[0] == '\'');
        assert(sh_word_value(t) == Some(a + (seq![after[1]] + b)));
        assert(a + (seq![after[1]] + b) =~= v);
    }
}

/// The value of a `cmd.exe` word in double quotes, in which `""` stands
/// for one quote; none for text that is not such a word.
pub open spec fn cmd_word_value(t: Seq<char>) -> Option<Seq<char>> {
    if t.len() >= 1 && t[0] == '"' {
        cmd_quoted_rest(t.drop_first())
    } else {
        None
    }
}

/// The value of the text after an opening quote, up to the closing quote
/// that ends it.
pub open spec fn cmd_quoted_rest(s: Seq<char>) -> Option<Seq<char>>
    decreases s.len(),
{
    if s.len() == 0 {
        None
    } else if s[0] == '"' {
        if s.len() == 1 {
            Some(Seq::empty())
        } else if s[1] == '"' {
            match cmd_quoted_rest(s.skip(2)) {
                Some(r) => Some(seq!['"'] + r),
                None => None,
            }
        } else {
            None
        }
    } else {
        match cmd_quoted_rest(s.drop_first()) {
            Some(r) => Some(seq![s[0]] + r),
            None => None,
        }
    }
}

proof fn lemma_cmd_escape_concat(x: Seq<char>, y: Seq<char>)
    ensures
        cmd_escape(x + y) == cmd_escape(x) + cmd_escape(y),
    decreases y.len(),
{
    if y.len() > 0 {
        lemma_cmd_escape_concat(x, y.drop_last());
        assert((x + y).drop_last() =~= x + y.drop_last());
        assert((x + y).last() == y.last());
    } else {
        assert(x + y =~= x);
    }
}

proof fn lemma_cmd_rest_reads_back(v: Seq<char>)
    ensures
        cmd_quoted_rest(cmd_escape(v) + seq!['"']) == Some(v),
    decreases v.len(),
{
    if v.len() == 0 {
        assert(cmd_escape(v) + seq!['"'] =~= seq!['"']);
    } else {
        let c = v[0];
        let w = v.drop_first();
        assert(v =~= seq![c] + w);
        lemma_cmd_escape_concat(seq![c], w);
        assert(seq![c].drop_last() =~= Seq::<char>::empty());
        assert(cmd_escape(Seq::<char>::empty()) == Seq::<char>::empty());
        assert(cmd_escape(seq![c]) == cmd_escape(seq![c].drop_last()) + if c == '"' {
            seq!['"', '"']
        } else {
            seq![c]
        });
        lemma_cmd_rest_reads_back(w);
        let s = cmd_escape(v) + seq!['"'];
        if c == '"' {
            assert(s =~= seq!['"', '"'] + (cmd_escape(w) + seq!['"']));
            assert(s.skip(2) =~= cmd_escape(w) + seq!['"']);
        } else {
            assert(s =~= seq![c] + (cmd_escape(w) + seq!['"']));
            assert(s.drop_first() =~= cmd_escape(w) + seq!['"']);
        }
    }
}

/// `cmd.exe` reads a quoted value back unchanged.
pub proof fn lemma_cmd_quoted_reads_back(v: Seq<char>)
    ensures
        cmd_word_value(cmd_quoted(v)) == Some(v),
{
    lemma_cmd_rest_reads_back(v);
    assert(cmd_quoted(v).drop_first() =~= cmd_escape(v) + seq!['"']);
}

/// A character a recovery command shows without quotes.
pub open spec fn plain_char(c: char, platform: Platform) -> bool {
    sh_plain_char(c) || (platform == Platform::Windows && c == '\\')
}

/// Whether `value` needs no quotes in a recovery command.
pub fn recovery_command_plain(value: &str, platform: Platform) -> (r: bool)
    ensures
        r == forall|i: int| 0 <= i < value@.len() ==> plain_char(#[trigger] value@[i], platform),
{
    let c = chars_of(value);
    let mut i: usize = 0;
    while i < c.len()
        invariant
            c@ == value@,
            i <= c@.len(),
            forall|k: int| 0 <= k < i ==> plain_char(#[trigger] c@[k], platform),
        decreases c@.len() - i,
    {
        let x = c[i];
        if !(crate::text::char_is_alnum(x) || x == '_' || x == '-' || x == '.' || x == '/' || x
            == ':' || x == '@' || (platform == Platform::Windows && x == '\\')) {
            assert(!plain_char(c@[i as int], platform));
            return false;
        }
        i += 1;
    }
    true
}

/// A value quoted for the platform's shell.
pub open spec fn quoted_for(v: Seq<char>, platform: Platform) -> Seq<char> {
    if platform == Platform::Windows {
        cmd_quoted(v)
    } else {
        sh_quoted(v)
    }
}

/// `value` quoted for the platform's shell.
pub fn recovery_command_quote(value: &str, platform: Platform) -> (r: String)
    ensures
        r@ == quoted_for(value@, platform),
{
    match platform {
        Platform::Windows => cmd_quote_str(value),
        _ => sh_quote_str(value),
    }
}

/// One word of a recovery command: as is where it is plain, else quoted.
pub open spec fn recovery_word(v: Seq<char>, platform: Platform) -> Seq<char> {
    if forall|i: int| 0 <= i < v.len() ==> plain_char(#[trigger] v[i], platform) {
        v
    } else {
        quoted_for(v, platform)
    }
}

/// `value` as one word of a recovery command.
pub fn recovery_command_word(value: &str, platform: Platform) -> (r: String)
    ensures
        r@ == recovery_word(value@, platform),
{
    if recovery_command_plain(value, platform) {
        lit(value)
    } else {
        recovery_command_quote(value, platform)
    }
}

/// The words of the command that reinstalls a tool: `ir tool install
/// --force`, each `--with` dependency, the R version asked for, the
/// Rscript where one was given (or R was chosen by the environment), and
/// the package.
pub open spec fn recovery_words(
    install: crate::cli::ToolInstallArgsView,
    rscript_given: bool,
    rscript: Seq<char>,
    env_r_selection_was_set: bool,
    platform: Platform,
) -> Seq<Seq<char>> {
    seq!["ir"@, "tool"@, "install"@, "--force"@] + install.with_deps.map_values(
        |d: Seq<char>| seq!["--with"@, recovery_word(d, platform)],
    ).flatten() + (match install.r_requirement {
        Some(req) => seq!["--r-version"@, recovery_word(req, platform)],
        None => Seq::empty(),
    }) + (if rscript_given || (install.r_requirement is None && env_r_selection_was_set) {
        seq!["--rscript"@, recovery_word(rscript, platform)]
    } else {
        Seq::empty()
    }) + seq![recovery_word(install.package_ref, platform)]
}

fn push_word(words: &mut Vec<String>, w: String)
    ensures
        views(final(words)@) == views(old(words)@).push(w@),
{
    let ghost before = words@;
    words.push(w);
    assert(views(words@) =~= views(before).push(w@));
}

/// The command that recreates an installed tool.
pub fn tool_install_recovery_command(
    install: &crate::cli::ToolInstallArgs,
    rscript_given: bool,
    rscript: &str,
    env_r_selection_was_set: bool,
    platform: Platform,
) -> (r: String)
    ensures
        r@ == joined(
            recovery_words(install@, rscript_given, rscript@, env_r_selection_was_set, platform),
            " "@,
        ),
{
    let mut words: Vec<String> = Vec::new();
    push_word(&mut words, lit("ir"));
    push_word(&mut words, lit("tool"));
    push_word(&mut words, lit("install"));
    push_word(&mut words, lit("--force"));
    let ghost w0 = views(words@);
    assert(w0 =~= seq!["ir"@, "tool"@, "install"@, "--force"@]);
    let ghost deps = install@.with_deps;
    let ghost f = |d: Seq<char>| seq!["--with"@, recovery_word(d, platform)];
    let mut i: usize = 0;
    while i < install.with_deps.len()
        invariant
            deps == install@.with_deps,
            deps == views(install.with_deps@),
            f == (|d: Seq<char>| seq!["--with"@, recovery_word(d, platform)]),
            i <= deps.len(),
            views(words@) == w0 + deps.take(i as int).map_values(f).flatten(),
        decreases deps.len() - i,
    {
        let ghost before = views(words@);
        push_word(&mut words, lit("--with"));
        push_word(&mut words, recovery_command_word(install.with_deps[i].as_str(), platform));
        proof {
            let m = deps.take(i + 1).map_values(f);
            assert(m =~= deps.take(i as int).map_values(f).push(f(deps[i as int])));
            deps.take(i as int).map_values(f).lemma_flatten_push(f(deps[i as int]));
            assert(views(words@) =~= before + f(deps[i as int]));
        }
        i += 1;
    }
    assert(deps.take(deps.len() as int) =~= deps);
    if let Some(req) = &install.r_requirement {
        push_word(&mut words, lit("--r-version"));
        push_word(&mut words, recovery_command_word(req.as_str(), platform));
    }
    if rscript_given || (install.r_requirement.is_none() && env_r_selection_was_set) {
        push_word(&mut words, lit("--rscript"));
        push_word(&mut words, recovery_command_word(rscript, platform));
    }
    push_word(&mut words, recovery_command_word(install.package_ref.as_str(), platform));
    assert(views(words@) =~= recovery_words(
        install@,
        rscript_given,
        rscript@,
        env_r_selection_was_set,
        platform,
    ));
    join_texts(words.as_slice(), " ")
}

/// The value `cmd.exe` hands a program for one word: a double-quoted
/// word as `cmd_word_value` reads it, a word of plain characters as it
/// stands; none for other text.
pub open spec fn cmd_arg_value(t: Seq<char>) -> Option<Seq<char>> {
    if t.len() >= 1 && t[0] == '"' {
        cmd_word_value(t)
    } else if forall|i: int| 0 <= i < t.len() ==> plain_char(#[trigger] t[i], Platform::Windows) {
        Some(t)
    } else {
        None
    }
}

/// The value the platform's shell hands a program for one word.
pub open spec fn shell_word_value(t: Seq<char>, platform: Platform) -> Option<Seq<char>> {
    if platform == Platform::Windows {
        cmd_arg_value(t)
    } else {
        sh_word_value(t)
    }
}

proof fn lemma_sh_plain_reads_back(v: Seq<char>)
    requires
        forall|i: int| 0 <= i < v.len() ==> sh_plain_char(#[trigger] v[i]),
    ensures
        sh_word_value(v) == Some(v),
    decreases v.len(),
{
    if v.len() > 0 {
        assert(sh_plain_char(v[0]));
        let w = v.drop_first();
        assert forall|i: int| 0 <= i < w.len() implies sh_plain_char(#[trigger] w[i]) by {
            assert(w[i] == v[i + 1]);
        }
        lemma_sh_plain_reads_back(w);
        assert(seq![v[0]] + w =~= v);
    }
}

/// Each word of a recovery command reaches `ir` as the value it stands
/// for, on every platform, whether it was written plain or quoted. (An
/// empty value is written as nothing, which the shell drops.)
pub proof fn lemma_recovery_word_reads_back(v: Seq<char>, platform: Platform)
    requires
        v.len() > 0,
    ensures
        shell_word_value(recovery_word(v, platform), platform) == Some(v),
{
    let plain = forall|i: int| 0 <= i < v.len() ==> plain_char(#[trigger] v[i], platform);
    if platform == Platform::Windows {
        if plain {
            assert(plain_char(v[0], platform));
        } else {
            lemma_cmd_quoted_reads_back(v);
        }
    } else {
        if plain {
            assert forall|i: int| 0 <= i < v.len() implies sh_plain_char(#[trigger] v[i]) by {
                assert(plain_char(v[i], platform));
            }
            lemma_sh_plain_reads_back(v);
        } else {
            lemma_sh_quoted_reads_back(v);
        }
    }
}

/// What a recovery command hands `ir tool install`, once the shell has
/// read its words: `--force`, each `--with` dependency, the R version
/// asked for, the Rscript where one is named, and the package.
pub open spec fn recovery_install_args(
    install: crate::cli::ToolInstallArgsView,
    rscript_given: bool,
    rscript: Seq<char>,
    env_r_selection_was_set: bool,
) -> Seq<Seq<char>> {
    seq!["--force"@] + with_pairs(install.with_deps) + (
    match install.r_requirement {
        Some(req) => seq!["--r-version"@, req],
        None => Seq::empty(),
    }) + (if rscript_given || (install.r_requirement is None && env_r_selection_was_set) {
        seq!["--rscript"@, rscript]
    } else {
        Seq::empty()
    }) + seq![install.package_ref]
}

proof fn lemma_plain_literal(s: Seq<char>, platform: Platform)
    requires
        forall|i: int| 0 <= i < s.len() ==> sh_plain_char(#[trigger] s[i]),
    ensures
        recovery_word(s, platform) == s,
{
    assert forall|i: int| 0 <= i < s.len() implies plain_char(#[trigger] s[i], platform) by {
        assert(sh_plain_char(s[i]));
    }
}

proof fn lemma_option_words_plain(platform: Platform)
    ensures
        recovery_word("--force"@, platform) == "--force"@,
        recovery_word("--with"@, platform) == "--with"@,
        recovery_word("--r-version"@, platform) == "--r-version"@,
        recovery_word("--rscript"@, platform) == "--rscript"@,
{
    reveal_strlit("--force");
    reveal_strlit("--with");
    reveal_strlit("--r-version");
    reveal_strlit("--rscript");
    let a = "--force"@;
    assert forall|i: int| 0 <= i < a.len() implies sh_plain_char(#[trigger] a[i]) by {
        assert(a =~= seq!['-', '-', 'f', 'o', 'r', 'c', 'e']);
    }
    lemma_plain_literal(a, platform);
    let b = "--with"@;
    assert forall|i: int| 0 <= i < b.len() implies sh_plain_char(#[trigger] b[i]) by {
        assert(b =~= seq!['-', '-', 'w', 'i', 't', 'h']);
    }
    lemma_plain_literal(b, platform);
    let c = "--r-version"@;
    assert forall|i: int| 0 <= i < c.len() implies sh_plain_char(#[trigger] c[i]) by {
        assert(c =~= seq!['-', '-', 'r', '-', 'v', 'e', 'r', 's', 'i', 'o', 'n']);
    }
    lemma_plain_literal(c, platform);
    let d = "--rscript"@;
    assert forall|i: int| 0 <= i < d.len() implies sh_plain_char(#[trigger] d[i]) by {
        assert(d =~= seq!['-', '-', 'r', 's', 'c', 'r', 'i', 'p', 't']);
    }
    lemma_plain_literal(d, platform);
}

proof fn lemma_with_pairs_quoted(deps: Seq<Seq<char>>, platform: Platform)
    requires
        recovery_word("--with"@, platform) == "--with"@,
    ensures
        deps.map_values(|d: Seq<char>| seq!["--with"@, recovery_word(d, platform)]).flatten()
            == deps.map_values(|d: Seq<char>| seq!["--with"@, d]).flatten().map_values(
            |w: Seq<char>| recovery_word(w, platform),
        ),
    decreases deps.len(),
{
    let f1 = |d: Seq<char>| seq!["--with"@, recovery_word(d, platform)];
    let f2 = |d: Seq<char>| seq!["--with"@, d];
    let g = |w: Seq<char>| recovery_word(w, platform);
    if deps.len() == 0 {
        assert(deps.map_values(f1) =~= Seq::<Seq<Seq<char>>>::empty());
        assert(deps.map_values(f2) =~= Seq::<Seq<Seq<char>>>::empty());
        assert(Seq::<Seq<char>>::empty().map_values(g) =~= Seq::<Seq<char>>::empty());
    } else {
        lemma_with_pairs_quoted(deps.drop_first(), platform);
        assert(deps.map_values(f1).drop_first() =~= deps.drop_first().map_values(f1));
        assert(deps.map_values(f2).drop_first() =~= deps.drop_first().map_values(f2));
        let t2 = deps.drop_first().map_values(f2).flatten();
        assert((f2(deps[0]) + t2).map_values(g) =~= f2(deps[0]).map_values(g) + t2.map_values(g));
        assert(f2(deps[0]).map_values(g) =~= f1(deps[0]));
    }
}

/// A recovery command is `ir tool install` followed by the arguments it
/// hands over, each written as one recovery word.
pub proof fn lemma_recovery_words_quote_args(
    install: crate::cli::ToolInstallArgsView,
    rscript_given: bool,
    rscript: Seq<char>,
    env_r_selection_was_set: bool,
    platform: Platform,
)
    ensures
        recovery_words(install, rscript_given, rscript, env_r_selection_was_set, platform) == seq![
            "ir"@,
            "tool"@,
            "install"@,
        ] + recovery_install_args(install, rscript_given, rscript, env_r_selection_was_set).map_values(
            |w: Seq<char>| recovery_word(w, platform),
        ),
{
    lemma_option_words_plain(platform);
    lemma_with_pairs_quoted(install.with_deps, platform);
    let g = |w: Seq<char>| recovery_word(w, platform);
    let w = install.with_deps.map_values(|d: Seq<char>| seq!["--with"@, d]).flatten();
    let r = match install.r_requirement {
        Some(req) => seq!["--r-version"@, req],
        None => Seq::<Seq<char>>::empty(),
    };
    let x = if rscript_given || (install.r_requirement is None && env_r_selection_was_set) {
        seq!["--rscript"@, rscript]
    } else {
        Seq::<Seq<char>>::empty()
    };
    let p = seq![install.package_ref];
    let all = seq!["--force"@] + w + r + x + p;
    assert(all.map_values(g) =~= seq!["--force"@].map_values(g) + w.map_values(g) + r.map_values(g)
        + x.map_values(g) + p.map_values(g));
    assert(seq!["--force"@].map_values(g) =~= seq!["--force"@]);
    assert(r.map_values(g) =~= match install.r_requirement {
        Some(req) => seq!["--r-version"@, recovery_word(req, platform)],
        None => Seq::<Seq<char>>::empty(),
    });
    assert(x.map_values(g) =~= if rscript_given || (install.r_requirement is None
        && env_r_selection_was_set) {
        seq!["--rscript"@, recovery_word(rscript, platform)]
    } else {
        Seq::<Seq<char>>::empty()
    });
    assert(p.map_values(g) =~= seq![recovery_word(install.package_ref, platform)]);
    assert(recovery_words(install, rscript_given, rscript, env_r_selection_was_set, platform)
        =~= seq!["ir"@, "tool"@, "install"@] + all.map_values(g));
}

/// Each dependency after its own `--with`.
pub open spec fn with_pairs(deps: Seq<Seq<char>>) -> Seq<Seq<char>> {
    deps.map_values(|d: Seq<char>| seq!["--with"@, d]).flatten()
}

/// `a` holds `--with` and the `j`-th dependency at `start + 2 * j`.
spec fn with_pair_at(a: Seq<Seq<char>>, start: int, deps: Seq<Seq<char>>, j: int) -> bool {
    a[start + 2 * j] == "--with"@ && a[start + 2 * j + 1] == deps[j]
}

proof fn lemma_with_pairs_index(deps: Seq<Seq<char>>)
    ensures
        with_pairs(deps).len() == 2 * deps.len(),
        forall|j: int| 0 <= j < deps.len() ==> #[trigger] with_pair_at(with_pairs(deps), 0, deps, j),
    decreases deps.len(),
{
    let f = |d: Seq<char>| seq!["--with"@, d];
    if deps.len() > 0 {
        let t = deps.drop_first();
        lemma_with_pairs_index(t);
        let m = deps.map_values(f);
        assert(m.drop_first() =~= t.map_values(f));
        let w = m.flatten();
        let wt = t.map_values(f).flatten();
        assert(m.first() == seq!["--with"@, deps[0]]);
        assert(w == seq!["--with"@, deps[0]] + wt);
        assert forall|j: int| 0 <= j < deps.len() implies #[trigger] with_pair_at(w, 0, deps, j) by {
            if j > 0 {
                assert(with_pair_at(wt, 0, t, j - 1));
                assert(deps[j] == t[j - 1]);
                assert(w[2 * j] == wt[2 * (j - 1)]);
                assert(w[2 * j + 1] == wt[2 * (j - 1) + 1]);
            }
        }
    } else {
        assert(deps.map_values(f) =~= Seq::<Seq<Seq<char>>>::empty());
    }
}

proof fn lemma_install_scan_deps(a: Seq<Seq<char>>, deps: Seq<Seq<char>>, k: int, st: Scan)
    requires
        0 <= k <= deps.len(),
        a.len() >= 1 + 2 * deps.len(),
        forall|j: int| 0 <= j < deps.len() ==> #[trigger] with_pair_at(a, 1, deps, j),
        forall|j: int| 0 <= j < deps.len() ==> single_with_entry(#[trigger] deps[j]),
        st.with_deps == deps.take(k),
    ensures
        install_scan(a, 1 + 2 * k, st) == install_scan(
            a,
            1 + 2 * deps.len() as int,
            Scan { with_deps: deps, ..st },
        ),
    decreases deps.len() - k,
{
    if k < deps.len() {
        assert(with_pair_at(a, 1, deps, k));
        lemma_single_with_entry(deps[k]);
        let st2 = with_more_deps(st, a[2 + 2 * k]);
        assert(st2.with_deps =~= deps.take(k + 1));
        lemma_install_scan_deps(a, deps, k + 1, st2);
        assert(Scan { with_deps: deps, ..st2 } == Scan { with_deps: deps, ..st });
    } else {
        assert(deps.take(k) =~= deps);
        assert(Scan { with_deps: deps, ..st } == st);
    }
}

proof fn lemma_not_an_option(p: Seq<char>, option: Seq<char>)
    requires
        !starts_with(p, "-"@),
        option.len() >= 1,
        option[0] == '-',
    ensures
        p != option,
        !starts_with(p, option),
{
    reveal_strlit("-");
    if p == option || starts_with(p, option) {
        assert(p[0] == option[0]);
        assert(p.subrange(0, 1) =~= "-"@);
    }
}

/// Running a tool's recovery command installs the same tool again: `ir
/// tool install` reads what the command hands over as the dependencies,
/// the R version and the package ref that were asked for, with `--force`
/// and the default launcher directory. This holds where the command names
/// no Rscript (`ir tool install` takes no `--rscript`), each dependency is
/// a single `--with` entry and the package ref does not start with `-`.
pub proof fn lemma_recovery_command_reinstalls(
    install: ToolInstallArgsView,
    rscript_given: bool,
    rscript: Seq<char>,
    env_r_selection_was_set: bool,
    default_bin_dir: Seq<char>,
)
    requires
        !(rscript_given || (install.r_requirement is None && env_r_selection_was_set)),
        forall|k: int|
            0 <= k < install.with_deps.len() ==> single_with_entry(#[trigger] install.with_deps[k]),
        !starts_with(install.package_ref, "-"@),
    ensures
        tool_install_args_of(
            recovery_install_args(install, rscript_given, rscript, env_r_selection_was_set),
            Ok(default_bin_dir),
        ) == Ok::<ToolInstallArgsView, Seq<char>>(
            ToolInstallArgsView {
                package_ref: install.package_ref,
                with_deps: install.with_deps,
                r_requirement: install.r_requirement,
                bin_dir: default_bin_dir,
                force: true,
            },
        ),
{
    reveal_strlit("--force");
    reveal_strlit("--with");
    reveal_strlit("--with=");
    reveal_strlit("--r-version");
    reveal_strlit("--r-version=");
    reveal_strlit("--bin-dir");
    reveal_strlit("--bin-dir=");
    reveal_strlit("-e");
    reveal_strlit("-");
    let deps = install.with_deps;
    let n = deps.len() as int;
    let w = deps.map_values(|d: Seq<char>| seq!["--with"@, d]).flatten();
    lemma_with_pairs_index(deps);
    let r = match install.r_requirement {
        Some(req) => seq!["--r-version"@, req],
        None => Seq::<Seq<char>>::empty(),
    };
    let pkg = install.package_ref;
    let a = recovery_install_args(install, rscript_given, rscript, env_r_selection_was_set);
    assert(a =~= seq!["--force"@] + w + r + seq![pkg]);
    let m = a.len() - 1;
    assert(a[m] == pkg);
    assert forall|j: int| 0 <= j < deps.len() implies #[trigger] with_pair_at(a, 1, deps, j) by {
        assert(with_pair_at(w, 0, deps, j));
        assert(a[1 + 2 * j] == w[2 * j]);
        assert(a[2 + 2 * j] == w[2 * j + 1]);
    }
    let st1 = Scan { force: true, ..empty_scan() };
    assert(install_scan(a, 0, empty_scan()) == install_scan(a, 1, st1)) by {
        let f = "--force"@;
        assert(a[0] == f);
        assert(f != "--with"@);
        assert(f != "--with="@) by {
            assert(f[2] != "--with="@[2]);
        }
        assert(f.subrange(0, 7) =~= f);
        assert(f != "--r-version"@);
        assert(f != "--bin-dir"@);
    }
    assert(deps.take(0) =~= Seq::<Seq<char>>::empty());
    lemma_install_scan_deps(a, deps, 0, st1);
    let st2 = Scan { with_deps: deps, ..st1 };
    let st3 = Scan { r_requirement: install.r_requirement, ..st2 };
    assert(install_scan(a, 1 + 2 * n, st2) == install_scan(a, m, st3)) by {
        if let Some(req) = install.r_requirement {
            let v = "--r-version"@;
            assert(a[1 + 2 * n] == v && a[2 + 2 * n] == req);
            assert(v != "--with"@);
            assert(v.subrange(0, 7) != "--with="@) by {
                assert(v.subrange(0, 7)[2] != "--with="@[2]);
            }
        } else {
            assert(st3 == st2);
        }
    }
    lemma_not_an_option(pkg, "--with"@);
    lemma_not_an_option(pkg, "--with="@);
    lemma_not_an_option(pkg, "--r-version"@);
    lemma_not_an_option(pkg, "--r-version="@);
    lemma_not_an_option(pkg, "--bin-dir"@);
    lemma_not_an_option(pkg, "--bin-dir="@);
    lemma_not_an_option(pkg, "--force"@);
    lemma_not_an_option(pkg, "-e"@);
    assert(install_scan(a, m, st3) == Ok::<ScanEnd, Seq<char>>((st3, Some(pkg), m + 1)));
}

/// The words of a launcher's final line: `exec`, the program and its
/// arguments, and `"$@"`.
pub open spec fn launch_words(
    launcher: PackageLauncher,
    rscript: Seq<char>,
    executable_path: Seq<char>,
    rscript_args: Seq<Seq<char>>,
) -> Seq<Seq<char>> {
    let quoted_args = rscript_args.map_values(|a: Seq<char>| sh_quoted(a));
    (match launcher {
        PackageLauncher::Direct => seq!["exec"@, sh_quoted(executable_path)],
        PackageLauncher::Rscript => seq!["exec"@, sh_quoted(rscript)] + quoted_args + seq![
            sh_quoted(executable_path),
        ],
        PackageLauncher::Rapp => seq!["exec"@, sh_quoted(rscript)] + quoted_args + seq![
            "-e"@,
            sh_quoted("Rapp::run()"@),
            sh_quoted(executable_path),
        ],
        PackageLauncher::RappFrontend => seq!["exec"@, sh_quoted(rscript)] + quoted_args + seq![
            "-e"@,
            sh_quoted("Rapp::run()"@),
        ],
    }) + seq!["\"$@\""@]
}

/// The lines of a `/bin/sh` launcher: it checks that the tool's library
/// still exists (pointing at the recovery command if not), points R at
/// that library alone, names the launcher, sets the architecture and the
/// `PATH` prefix where given, and executes the tool.
pub open spec fn sh_launcher_lines(
    rscript: Seq<char>,
    library: Seq<char>,
    name: Seq<char>,
    launcher: PackageLauncher,
    executable_path: Seq<char>,
    rscript_args: Seq<Seq<char>>,
    path_prefix: Seq<Seq<char>>,
    r_arch_env: Option<Seq<char>>,
    recovery_command: Seq<char>,
) -> Seq<Seq<char>> {
    seq![
        "#!/bin/sh"@,
        "# Generated by `ir tool install`. Do not edit by hand."@,
        "IR_LIBRARY="@ + sh_quoted(library),
        "if [ ! -d \"$IR_LIBRARY\" ]; then"@,
        "  printf '%s\\n' \"ir: missing ir installed tool library: $IR_LIBRARY\" >&2"@,
        "  printf '%s\\n' "@ + sh_quoted("ir: run `"@ + recovery_command + "` to recreate this tool."@)
            + " >&2"@,
        "  exit 1"@,
        "fi"@,
        "export R_LIBS=\"$IR_LIBRARY\""@,
        "export R_LIBS_USER=NULL"@,
        "export RAPP_LAUNCHER_NAME="@ + sh_quoted(name),
    ] + (match r_arch_env {
        Some(a) => seq!["export R_ARCH="@ + sh_quoted(a)],
        None => Seq::empty(),
    }) + (if path_prefix.len() > 0 {
        seq![
            "export PATH="@ + joined(path_prefix.map_values(|p: Seq<char>| sh_quoted(p)), ":"@)
                + "${PATH:+:$PATH}"@,
        ]
    } else {
        Seq::empty()
    }) + seq![joined(launch_words(launcher, rscript, executable_path, rscript_args), " "@)]
}

fn push_line(lines: &mut Vec<String>, a: &str, b: &str, c: &str)
    ensures
        views(final(lines)@) == views(old(lines)@).push(a@ + b@ + c@),
{
    let mut v: Vec<char> = Vec::new();
    append_str(&mut v, a);
    append_str(&mut v, b);
    append_str(&mut v, c);
    let x = string_of(v.as_slice());
    let ghost before = lines@;
    lines.push(x);
    assert(views(lines@) =~= views(before).push(x@));
}

fn map_sh_quoted(v: &[String]) -> (r: Vec<String>)
    ensures
        views(r@) == views(v@).map_values(|a: Seq<char>| sh_quoted(a)),
{
    let mut r: Vec<String> = Vec::new();
    let mut i: usize = 0;
    while i < v.len()
        invariant
            i <= v@.len(),
            views(r@) == views(v@.take(i as int)).map_values(|a: Seq<char>| sh_quoted(a)),
        decreases v@.len() - i,
    {
        let q = sh_quote_str(v[i].as_str());
        let ghost before = r@;
        r.push(q);
        assert(views(r@) =~= views(before).push(q@));
        assert(views(v@.take(i + 1)).map_values(|a: Seq<char>| sh_quoted(a)) =~= views(
            v@.take(i as int),
        ).map_values(|a: Seq<char>| sh_quoted(a)).push(sh_quoted(v@[i as int]@)));
        i += 1;
    }
    assert(v@.take(v@.len() as int) =~= v@);
    r
}

/// The `/bin/sh` launcher `ir tool install` writes for `executable`, whose
/// file is at `executable_path`; `library` is the tool's library and
/// `path_prefix` the directories put before `PATH` (all absolute).
pub fn installed_launcher_contents(
    rscript: &str,
    library: &str,
    executable: &PackageExecutable,
    executable_path: &str,
    path_prefix: &[String],
    r_arch_env: Option<&str>,
    recovery_command: &str,
) -> (r: String)
    ensures
        r@ == joined(
            sh_launcher_lines(
                rscript@,
                library@,
                executable.name@,
                executable.launcher,
                executable_path@,
                views(executable.rscript_args@),
                views(path_prefix@),
                opt_str_view(r_arch_env),
                recovery_command@,
            ).push(Seq::empty()),
            "\n"@,
        ),
{
    let mut lines: Vec<String> = Vec::new();
    let q_library = sh_quote_str(library);
    let message = {
        let mut m: Vec<char> = Vec::new();
        append_str(&mut m, "ir: run `");
        append_str(&mut m, recovery_command);
        append_str(&mut m, "` to recreate this tool.");
        string_of(m.as_slice())
    };
    let q_message = sh_quote_str(message.as_str());
    let q_name = sh_quote_str(executable.name.as_str());
    push_line(&mut lines, "#!/bin/sh", "", "");
    push_line(&mut lines, "# Generated by `ir tool install`. Do not edit by hand.", "", "");
    push_line(&mut lines, "IR_LIBRARY=", q_library.as_str(), "");
    push_line(&mut lines, "if [ ! -d \"$IR_LIBRARY\" ]; then", "", "");
    push_line(
        &mut lines,
        "  printf '%s\\n' \"ir: missing ir installed tool library: $IR_LIBRARY\" >&2",
        "",
        "",
    );
    push_line(&mut lines, "  printf '%s\\n' ", q_message.as_str(), " >&2");
    push_line(&mut lines, "  exit 1", "", "");
    push_line(&mut lines, "fi", "", "");
    push_line(&mut lines, "export R_LIBS=\"$IR_LIBRARY\"", "", "");
    push_line(&mut lines, "export R_LIBS_USER=NULL", "", "");
    push_line(&mut lines, "export RAPP_LAUNCHER_NAME=", q_name.as_str(), "");
    let ghost head = views(lines@);
    if let Some(arch) = r_arch_env {
        let q_arch = sh_quote_str(arch);
        push_line(&mut lines, "export R_ARCH=", q_arch.as_str(), "");
    }
    let ghost head2 = views(lines@);
    if path_prefix.len() > 0 {
        let quoted = map_sh_quoted(path_prefix);
        let prefix = join_texts(quoted.as_slice(), ":");
        push_line(&mut lines, "export PATH=", prefix.as_str(), "${PATH:+:$PATH}");
    }
    let ghost head3 = views(lines@);
    let mut words: Vec<String> = Vec::new();
    push_word(&mut words, lit("exec"));
    match executable.launcher {
        PackageLauncher::Direct => {
            push_word(&mut words, sh_quote_str(executable_path));
        },
        _ => {
            push_word(&mut words, sh_quote_str(rscript));
            let ghost w0 = views(words@);
            let quoted = map_sh_quoted(executable.rscript_args.as_slice());
            let mut k: usize = 0;
            while k < quoted.len()
                invariant
                    k <= quoted@.len(),
                    views(words@) == w0 + views(quoted@.take(k as int)),
                decreases quoted@.len() - k,
            {
                let c = quoted[k].clone();
                push_word(&mut words, c);
                assert(views(quoted@.take(k + 1)) =~= views(quoted@.take(k as int)).push(
                    quoted@[k as int]@,
                ));
                k += 1;
            }
            assert(quoted@.take(quoted@.len() as int) =~= quoted@);
            match executable.launcher {
                PackageLauncher::Rscript => {
                    push_word(&mut words, sh_quote_str(executable_path));
                },
                PackageLauncher::Rapp => {
                    push_word(&mut words, lit("-e"));
                    push_word(&mut words, sh_quote_str("Rapp::run()"));
                    push_word(&mut words, sh_quote_str(executable_path));
                },
                _ => {
                    push_word(&mut words, lit("-e"));
                    push_word(&mut words, sh_quote_str("Rapp::run()"));
                },
            }
        },
    }
    push_word(&mut words, lit("\"$@\""));
    assert(views(words@) =~= launch_words(
        executable.launcher,
        rscript@,
        executable_path@,
        views(executable.rscript_args@),
    ));
    let cmd = join_texts(words.as_slice(), " ");
    let ghost before_cmd = lines@;
    lines.push(cmd);
    assert(views(lines@) =~= views(before_cmd).push(cmd@));
    let ghost before_end = lines@;
    lines.push(String::new());
    assert(views(lines@) =~= views(before_end).push(Seq::<char>::empty()));
    proof {
        reveal_strlit("");
    }
    assert(views(lines@) =~~= sh_launcher_lines(
        rscript@,
        library@,
        executable.name@,
        executable.launcher,
        executable_path@,
        views(executable.rscript_args@),
        views(path_prefix@),
        opt_str_view(r_arch_env),
        recovery_command@,
    ).push(Seq::empty()));
    join_texts(lines.as_slice(), "\n")
}

/// The file name of an installed launcher: the tool's name, with `.cmd` on
/// Windows.
pub open spec fn launcher_file_name(name: Seq<char>, platform: Platform) -> Seq<char> {
    if platform == Platform::Windows {
        name + ".cmd"@
    } else {
        name
    }
}

/// The file name under the install directory for the launcher of `name`.
pub fn launcher_target_path(name: &str, platform: Platform) -> (r: String)
    ensures
        r@ == launcher_file_name(name@, platform),
{
    match platform {
        Platform::Windows => {
            let mut v: Vec<char> = chars_of(name);
            append_str(&mut v, ".cmd");
            string_of(v.as_slice())
        },
        _ => lit(name),
    }
}

/// The file an executable installs as: on Windows a `.cmd` or `.bat` file
/// from `bin/` is copied under its bare name; otherwise the launcher's
/// file name.
pub open spec fn installed_file_name(
    name: Seq<char>,
    dir_kind: PackageExecutableDirKind,
    extension: Option<Seq<char>>,
    platform: Platform,
) -> Seq<char> {
    if platform == Platform::Windows && dir_kind != PackageExecutableDirKind::Exec && (extension
        matches Some(e) && (lower(e) == "cmd"@ || lower(e) == "bat"@)) {
        name
    } else {
        launcher_file_name(name, platform)
    }
}

/// The file name `executable` installs as, given the extension of its file.
pub fn installed_executable_target_path(
    executable: &PackageExecutable,
    extension: Option<&str>,
    platform: Platform,
) -> (r: String)
    ensures
        r@ == installed_file_name(
            executable.name@,
            executable.dir_kind,
            opt_str_view(extension),
            platform,
        ),
{
    if platform == Platform::Windows && executable.dir_kind.is_bin() {
        if let Some(e) = extension {
            let l = lowered(chars_of(e).as_slice());
            if eq_lit(l.as_slice(), "cmd") || eq_lit(l.as_slice(), "bat") {
                return executable.name.clone();
            }
        }
    }
    launcher_target_path(executable.name.as_str(), platform)
}

/// Fails where two executables would install to the same path (given as
/// `targets`, one per executable), naming the first path that repeats.
pub fn reject_colliding_installed_target_paths(targets: &[String]) -> (r: Result<(), String>)
    ensures
        r is Ok <==> forall|i: int| 0 <= i < targets@.len() ==> !repeats_earlier(views(targets@), i),
        r matches Err(m) ==> exists|i: int|
            0 <= i < targets@.len() && repeats_earlier(views(targets@), i) && (forall|k: int|
                0 <= k < i ==> !repeats_earlier(views(targets@), k)) && m@
                == "multiple package executables map to installed executable path `"@ + views(
                targets@,
            )[i] + "`"@,
{
    let ghost names = views(targets@);
    let mut i: usize = 0;
    while i < targets.len()
        invariant
            names == views(targets@),
            i <= targets@.len(),
            forall|k: int| 0 <= k < i ==> !repeats_earlier(names, k),
        decreases targets@.len() - i,
    {
        let mut j: usize = 0;
        let mut found = false;
        while j < i && !found
            invariant
                names == views(targets@),
                i < targets@.len(),
                j <= i,
                !found ==> forall|m: int| 0 <= m < j ==> #[trigger] names[m] != names[i as int],
                found ==> repeats_earlier(names, i as int),
            decreases i - j,
        {
            if crate::text::chars_eq(
                chars_of(targets[j].as_str()).as_slice(),
                chars_of(targets[i].as_str()).as_slice(),
            ) {
                assert(names[j as int] == names[i as int]);
                found = true;
            }
            j += 1;
        }
        if found {
            let mut v: Vec<char> = Vec::new();
            append_str(&mut v, "multiple package executables map to installed executable path `");
            append_str(&mut v, targets[i].as_str());
            append_str(&mut v, "`");
            return Err(string_of(v.as_slice()));
        }
        i += 1;
    }
    Ok(())
}

/// Unless `force` is set, fails on the first target path that already
/// exists (`exists[i]` tells whether `targets[i]` does).
pub fn reject_existing_installed_target_paths(targets: &[String], exists: &[bool], force: bool) -> (r:
    Result<(), String>)
    requires
        targets@.len() == exists@.len(),
    ensures
        force ==> r is Ok,
        !force ==> (r is Ok <==> forall|i: int| 0 <= i < exists@.len() ==> !exists@[i]),
        r matches Err(m) ==> exists|i: int|
            0 <= i < exists@.len() && exists@[i] && (forall|k: int| 0 <= k < i ==> !exists@[k])
                && m@ == "installed executable path `"@ + targets@[i]@
                + "` already exists; pass --force to overwrite it"@,
{
    if force {
        return Ok(());
    }
    let mut i: usize = 0;
    while i < targets.len()
        invariant
            !force,
            targets@.len() == exists@.len(),
            i <= targets@.len(),
            forall|k: int| 0 <= k < i ==> !exists@[k],
        decreases targets@.len() - i,
    {
        if exists[i] {
            let mut v: Vec<char> = Vec::new();
            append_str(&mut v, "installed executable path `");
            append_str(&mut v, targets[i].as_str());
            append_str(&mut v, "` already exists; pass --force to overwrite it");
            return Err(string_of(v.as_slice()));
        }
        i += 1;
    }
    Ok(())
}

/// The architecture reported by R, trimmed; none where blank.
pub fn selected_r_arch(output: &str) -> (r: Option<String>)
    ensures
        opt_view(r) == crate::runtime::reported(output@),
{
    let t = trimmed(chars_of(output).as_slice());
    if t.len() == 0 {
        None
    } else {
        Some(string_of(t.as_slice()))
    }
}

/// The `R_ARCH` value R reported: trimmed, with a leading `/`; none where
/// blank.
pub open spec fn arch_env_value(output: Seq<char>) -> Option<Seq<char>> {
    let t = trim(output);
    if t.len() == 0 {
        None
    } else if t[0] == '/' {
        Some(t)
    } else {
        Some(seq!['/'] + t)
    }
}

/// The `R_ARCH` value from R's output.
pub fn selected_r_arch_env(output: &str) -> (r: Option<String>)
    ensures
        opt_view(r) == arch_env_value(output@),
{
    let t = trimmed(chars_of(output).as_slice());
    if t.len() == 0 {
        return None;
    }
    if t[0] == '/' {
        return Some(string_of(t.as_slice()));
    }
    let mut v: Vec<char> = Vec::new();
    v.push('/');
    extend_chars(&mut v, t.as_slice());
    Some(string_of(v.as_slice()))
}

/// The error for a failed query of R: `failed to query R {what} with
/// `{rscript}`: {stderr}`, the error output trimmed.
pub fn r_query_error(what: &str, rscript: &str, stderr: &str) -> (r: String)
    ensures
        r@ == "failed to query R "@ + what@ + " with `"@ + rscript@ + "`: "@ + trim(stderr@),
{
    let mut v: Vec<char> = Vec::new();
    append_str(&mut v, "failed to query R ");
    append_str(&mut v, what);
    append_str(&mut v, " with `");
    append_str(&mut v, rscript);
    append_str(&mut v, "`: ");
    extend_chars(&mut v, trimmed(chars_of(stderr).as_slice()).as_slice());
    string_of(v.as_slice())
}

/// Whether an Rscript option picks the R architecture (`--arch=...` or
/// `--arch`), which direct executables accept too.
pub open spec fn arch_arg(arg: Seq<char>) -> bool {
    arg == "--arch"@ || starts_with(arg, "--arch="@)
}

/// Whether `arg` picks the R architecture.
pub fn is_rscript_arch_arg(arg: &str) -> (r: bool)
    ensures
        r == arch_arg(arg@),
{
    let c = chars_of(arg);
    eq_lit(c.as_slice(), "--arch") || crate::text::starts_lit(c.as_slice(), "--arch=")
}

/// The architecture options among `args`, in order.
pub fn rscript_arch_args(args: &[String]) -> (r: Vec<String>)
    ensures
        views(r@) == views(args@).filter(|a: Seq<char>| arch_arg(a)),
{
    let mut r: Vec<String> = Vec::new();
    let mut i: usize = 0;
    while i < args.len()
        invariant
            i <= args@.len(),
            views(r@) == views(args@.take(i as int)).filter(|a: Seq<char>| arch_arg(a)),
        decreases args@.len() - i,
    {
        proof {
            reveal(Seq::filter);
        }
        let ghost t = views(args@.take(i + 1));
        assert(t.drop_last() =~= views(args@.take(i as int)));
        assert(t.last() == args@[i as int]@);
        if is_rscript_arch_arg(args[i].as_str()) {
            let c = args[i].clone();
            let ghost before = r@;
            r.push(c);
            assert(views(r@) =~= views(before).push(c@));
        }
        i += 1;
    }
    assert(args@.take(args@.len() as int) =~= args@);
    r
}

/// The program and arguments that run a package executable: the file
/// itself for direct launchers (which take no Rscript options but
/// architecture ones), else Rscript with the launcher's options, the
/// caller's, and the file or Rapp's runner; then the tool's arguments.
pub open spec fn command_outcome(
    launcher: PackageLauncher,
    executable_path: Seq<char>,
    launcher_args: Seq<Seq<char>>,
    rscript: Seq<char>,
    rscript_args: Seq<Seq<char>>,
    args: Seq<Seq<char>>,
) -> Result<(Seq<char>, Seq<Seq<char>>), Seq<char>> {
    match launcher {
        PackageLauncher::Direct => if launcher_args.len() > 0 || exists|i: int|
            0 <= i < rscript_args.len() && !arch_arg(#[trigger] rscript_args[i]) {
            Err("Rscript options are only supported for Rscript and Rapp package executables"@)
        } else {
            Ok((executable_path, args))
        },
        PackageLauncher::Rscript => Ok(
            (rscript, launcher_args + rscript_args + seq![executable_path] + args),
        ),
        PackageLauncher::Rapp => Ok(
            (
                rscript,
                launcher_args + rscript_args + seq!["-e"@, "Rapp::run()"@, executable_path]
                    + args,
            ),
        ),
        PackageLauncher::RappFrontend => Ok(
            (rscript, launcher_args + rscript_args + seq!["-e"@, "Rapp::run()"@] + args),
        ),
    }
}

fn extend_texts(v: &mut Vec<String>, more: &[String])
    ensures
        views(final(v)@) == views(old(v)@) + views(more@),
{
    let ghost start = views(v@);
    let mut i: usize = 0;
    while i < more.len()
        invariant
            i <= more@.len(),
            views(v@) == start + views(more@.take(i as int)),
        decreases more@.len() - i,
    {
        let c = more[i].clone();
        push_word(v, c);
        assert(views(more@.take(i + 1)) =~= views(more@.take(i as int)).push(more@[i as int]@));
        i += 1;
    }
    assert(more@.take(more@.len() as int) =~= more@);
}

/// The program and arguments that run `executable` (whose file is at
/// `executable_path`).
pub fn package_executable_command(
    executable: &PackageExecutable,
    executable_path: &str,
    rscript: &str,
    rscript_args: &[String],
    args: &[String],
) -> (r: Result<(String, Vec<String>), String>)
    ensures
        match command_outcome(
            executable.launcher,
            executable_path@,
            views(executable.rscript_args@),
            rscript@,
            views(rscript_args@),
            views(args@),
        ) {
            Ok((p, a)) => r matches Ok(x) && x.0@ == p && views(x.1@) == a,
            Err(e) => r matches Err(m) && m@ == e,
        },
{
    let mut out: Vec<String> = Vec::new();
    assert(views(out@) =~= Seq::<Seq<char>>::empty());
    match executable.launcher {
        PackageLauncher::Direct => {
            let mut i: usize = 0;
            while i < rscript_args.len()
                invariant
                    executable.launcher == PackageLauncher::Direct,
                    i <= rscript_args@.len(),
                    forall|k: int| 0 <= k < i ==> arch_arg(#[trigger] views(rscript_args@)[k]),
                decreases rscript_args@.len() - i,
            {
                assert(views(rscript_args@)[i as int] == rscript_args@[i as int]@);
                if !is_rscript_arch_arg(rscript_args[i].as_str()) {
                    return Err(
                        lit(
                            "Rscript options are only supported for Rscript and Rapp package executables",
                        ),
                    );
                }
                i += 1;
            }
            if executable.rscript_args.len() > 0 {
                return Err(
                    lit(
                        "Rscript options are only supported for Rscript and Rapp package executables",
                    ),
                );
            }
            extend_texts(&mut out, args);
            Ok((lit(executable_path), out))
        },
        _ => {
            extend_texts(&mut out, executable.rscript_args.as_slice());
            extend_texts(&mut out, rscript_args);
            match executable.launcher {
                PackageLauncher::Rscript => {
                    push_word(&mut out, lit(executable_path));
                },
                PackageLauncher::Rapp => {
                    push_word(&mut out, lit("-e"));
                    push_word(&mut out, lit("Rapp::run()"));
                    push_word(&mut out, lit(executable_path));
                },
                _ => {
                    push_word(&mut out, lit("-e"));
                    push_word(&mut out, lit("Rapp::run()"));
                },
            }
            extend_texts(&mut out, args);
            Ok((lit(rscript), out))
        },
    }
}

/// Where installed tools keep their libraries, from the non-empty values
/// of `IR_TOOL_STORE_DIR`, `XDG_DATA_HOME`, `HOME`, `LOCALAPPDATA` and
/// `USERPROFILE`, as base path and components.
/// The environment a package executable runs in: its library as the only
/// one, no user library, the name it was launched as, the search path, and
/// `R_ARCH` where one is selected.
pub open spec fn package_executable_changes(
    library: Seq<char>,
    launcher_name: Seq<char>,
    search_path: Seq<char>,
    r_arch_env: Option<Seq<char>>,
) -> Seq<(bool, Seq<char>, Seq<char>)> {
    seq![
        crate::runtime::set_var("R_LIBS"@, library),
        crate::runtime::set_var("R_LIBS_USER"@, "NULL"@),
        crate::runtime::set_var("RAPP_LAUNCHER_NAME"@, launcher_name),
        crate::runtime::set_var("PATH"@, search_path),
    ] + crate::runtime::set_some("R_ARCH"@, r_arch_env)
}

/// The environment changes for running a package executable.
pub fn package_executable_env(
    library: &str,
    launcher_name: &str,
    search_path: &str,
    r_arch_env: &Option<String>,
) -> (r: Vec<crate::runtime::EnvChange>)
    ensures
        crate::runtime::changes_view(r@) == package_executable_changes(
            library@,
            launcher_name@,
            search_path@,
            opt_view(*r_arch_env),
        ),
{
    let mut v: Vec<crate::runtime::EnvChange> = Vec::new();
    assert(crate::runtime::changes_view(v@) =~= Seq::<(bool, Seq<char>, Seq<char>)>::empty());
    crate::runtime::set_change(&mut v, "R_LIBS", library);
    crate::runtime::set_change(&mut v, "R_LIBS_USER", "NULL");
    crate::runtime::set_change(&mut v, "RAPP_LAUNCHER_NAME", launcher_name);
    crate::runtime::set_change(&mut v, "PATH", search_path);
    crate::runtime::set_opt_change(&mut v, "R_ARCH", r_arch_env);
    v
}

pub open spec fn store_plan(
    platform: Platform,
    ir_tool_store_dir: Option<Seq<char>>,
    xdg_data_home: Option<Seq<char>>,
    home: Option<Seq<char>>,
    local_app_data: Option<Seq<char>>,
    user_profile: Option<Seq<char>>,
) -> Result<(Seq<char>, Seq<Seq<char>>), Seq<char>> {
    if ir_tool_store_dir is Some {
        Ok((ir_tool_store_dir->Some_0, Seq::empty()))
    } else if platform != Platform::Windows {
        if xdg_data_home is Some {
            Ok((xdg_data_home->Some_0, seq!["ir"@, "tools"@]))
        } else if home is Some {
            Ok((home->Some_0, seq![".local"@, "share"@, "ir"@, "tools"@]))
        } else {
            Err("cannot determine tool store directory; set IR_TOOL_STORE_DIR"@)
        }
    } else if local_app_data is Some {
        Ok((local_app_data->Some_0, seq!["Programs"@, "R"@, "ir"@, "tools"@]))
    } else if user_profile is Some {
        Ok((user_profile->Some_0, seq!["AppData"@, "Local"@, "Programs"@, "R"@, "ir"@, "tools"@]))
    } else {
        Err(
            "cannot determine Windows tool store directory; set IR_TOOL_STORE_DIR, LOCALAPPDATA, or USERPROFILE"@,
        )
    }
}

fn plan_of(base: &str, parts: &[&str]) -> (r: crate::paths::PathPlan)
    ensures
        crate::runtime::plan_parts(r) == (base@, parts@.map_values(|s: &str| s@)),
        !r.parent,
{
    let p = crate::paths::plan(base, false, parts);
    assert(views(p.parts@) =~= p.parts@.map_values(|s: String| s@));
    p
}

/// The directory where installed tools keep their libraries.
pub fn tool_store_dir(
    platform: Platform,
    ir_tool_store_dir: Option<&str>,
    xdg_data_home: Option<&str>,
    home: Option<&str>,
    local_app_data: Option<&str>,
    user_profile: Option<&str>,
) -> (r: Result<crate::paths::PathPlan, String>)
    ensures
        match store_plan(
            platform,
            opt_str_view(ir_tool_store_dir),
            opt_str_view(xdg_data_home),
            opt_str_view(home),
            opt_str_view(local_app_data),
            opt_str_view(user_profile),
        ) {
            Ok(p) => r matches Ok(x) && crate::runtime::plan_parts(x) == p && !x.parent,
            Err(e) => r matches Err(m) && m@ == e,
        },
{
    if let Some(d) = ir_tool_store_dir {
        let r = plan_of(d, &[]);
        assert(crate::runtime::plan_parts(r).1 =~= Seq::<Seq<char>>::empty());
        return Ok(r);
    }
    if platform != Platform::Windows {
        if let Some(d) = xdg_data_home {
            let r = plan_of(d, &["ir", "tools"]);
            assert(crate::runtime::plan_parts(r).1 =~= seq!["ir"@, "tools"@]);
            return Ok(r);
        }
        if let Some(h) = home {
            let r = plan_of(h, &[".local", "share", "ir", "tools"]);
            assert(crate::runtime::plan_parts(r).1 =~= seq![".local"@, "share"@, "ir"@, "tools"@]);
            return Ok(r);
        }
        return Err(lit("cannot determine tool store directory; set IR_TOOL_STORE_DIR"));
    }
    if let Some(d) = local_app_data {
        let r = plan_of(d, &["Programs", "R", "ir", "tools"]);
        assert(crate::runtime::plan_parts(r).1 =~= seq!["Programs"@, "R"@, "ir"@, "tools"@]);
        return Ok(r);
    }
    if let Some(d) = user_profile {
        let r = plan_of(d, &["AppData", "Local", "Programs", "R", "ir", "tools"]);
        assert(crate::runtime::plan_parts(r).1 =~= seq![
            "AppData"@,
            "Local"@,
            "Programs"@,
            "R"@,
            "ir"@,
            "tools"@,
        ]);
        return Ok(r);
    }
    Err(
        lit(
            "cannot determine Windows tool store directory; set IR_TOOL_STORE_DIR, LOCALAPPDATA, or USERPROFILE",
        ),
    )
}

/// The message for an executable a package does not expose: where it has
/// no executable directories, that; else the directories searched.
pub open spec fn not_found_text(
    package: Seq<char>,
    package_dir: Seq<char>,
    executable: Seq<char>,
    dirs: Seq<Seq<char>>,
) -> Seq<char> {
    if dirs.len() == 0 {
        "package `"@ + package + "` does not expose supported executable directories in `"@
            + package_dir + "`"@
    } else {
        "could not find executable `"@ + executable + "` in `"@ + joined(dirs, "`, `"@) + "`"@
    }
}

/// The error for an executable not found in `package` (whose directory is
/// `package_dir`) among the directories `dirs`.
pub fn package_executable_not_found_error(
    package: &str,
    package_dir: &str,
    executable: &str,
    dirs: &[String],
) -> (r: String)
    ensures
        r@ == not_found_text(package@, package_dir@, executable@, views(dirs@)),
{
    let mut v: Vec<char> = Vec::new();
    if dirs.len() == 0 {
        append_str(&mut v, "package `");
        append_str(&mut v, package);
        append_str(&mut v, "` does not expose supported executable directories in `");
        append_str(&mut v, package_dir);
        append_str(&mut v, "`");
    } else {
        append_str(&mut v, "could not find executable `");
        append_str(&mut v, executable);
        append_str(&mut v, "` in `");
        let j = join_texts(dirs, "`, `");
        append_str(&mut v, j.as_str());
        append_str(&mut v, "`");
    }
    string_of(v.as_slice())
}

/// The error for a package without executables to install.
pub open spec fn no_executables_text(package: Seq<char>, package_dir: Seq<char>) -> Seq<char> {
    "package `"@ + package + "` does not expose supported executables under `"@ + package_dir
        + "`"@
}

/// The error `ir tool install` gives for a package without executables.
pub fn no_installable_executables_error(package: &str, package_dir: &str) -> (r: String)
    ensures
        r@ == no_executables_text(package@, package_dir@),
{
    let mut v: Vec<char> = Vec::new();
    append_str(&mut v, "package `");
    append_str(&mut v, package);
    append_str(&mut v, "` does not expose supported executables under `");
    append_str(&mut v, package_dir);
    append_str(&mut v, "`");
    string_of(v.as_slice())
}

/// What `ir tool install` reports once its launchers are written: how many,
/// `executable` in the singular for one, and their names.
pub open spec fn installed_summary_text(names: Seq<Seq<char>>) -> Seq<char> {
    "Installed "@ + crate::text::decimal(names.len()) + " executable"@ + (if names.len() == 1 {
        ""@
    } else {
        "s"@
    }) + ": "@ + joined(names, ", "@)
}

/// The report of the launchers `ir tool install` wrote.
pub fn installed_summary(names: &[String]) -> (r: String)
    ensures
        r@ == installed_summary_text(views(names@)),
{
    let mut v: Vec<char> = Vec::new();
    append_str(&mut v, "Installed ");
    let n = crate::text::decimal_chars(names.len());
    extend_chars(&mut v, n.as_slice());
    append_str(&mut v, " executable");
    if names.len() != 1 {
        append_str(&mut v, "s");
    } else {
        assert(v@ + ""@ =~= v@) by {
            reveal_strlit("");
        }
    }
    append_str(&mut v, ": ");
    let j = join_texts(names, ", ");
    append_str(&mut v, j.as_str());
    string_of(v.as_slice())
}

/// A Windows path without its verbatim prefix: `\\?\UNC\server\share`
/// becomes `\\server\share`, `\\?\C:\...` becomes `C:\...`.
pub open spec fn plain_windows_path(path: Seq<char>) -> Seq<char> {
    if starts_with(path, "\\\\?\\UNC\\"@) {
        "\\\\"@ + path.skip("\\\\?\\UNC\\"@.len() as int)
    } else if starts_with(path, "\\\\?\\"@) && path.len() > 6 && path[5] == ':'
        && crate::text::is_alpha(path[4]) {
        path.skip(4)
    } else {
        path
    }
}

/// `path` without a verbatim prefix, as `PATH` entries need it.
pub fn non_verbatim_windows_path(path: &str) -> (r: String)
    ensures
        r@ == plain_windows_path(path@),
{
    proof {
        reveal_strlit("\\\\?\\");
    }
    let c = chars_of(path);
    if let Some(rest) = crate::text::strip_lit(c.as_slice(), "\\\\?\\UNC\\") {
        let mut v: Vec<char> = Vec::new();
        append_str(&mut v, "\\\\");
        extend_chars(&mut v, rest.as_slice());
        return string_of(v.as_slice());
    }
    if crate::text::starts_lit(c.as_slice(), "\\\\?\\") && c.len() > 6 && c[5] == ':'
        && crate::text::char_is_alpha(c[4]) {
        let t = slice_vec(c.as_slice(), 4, c.len());
        assert(t@ =~= c@.skip(4));
        return string_of(t.as_slice());
    }
    lit(path)
}

/// The shell lines that put `~/.local/bin` on `PATH` once.
pub open spec fn path_lines_text() -> Seq<char> {
    "case \":$PATH:\" in\n  *:\"$HOME/.local/bin\":*) ;;\n  *) export PATH=\"$HOME/.local/bin:$PATH\" ;;\nesac\n"@
}

/// The lines `ir tool install` adds to `~/.zprofile` on macOS to put
/// `~/.local/bin` on `PATH`.
pub fn macos_path_lines() -> (r: &'static str)
    ensures
        r@ == path_lines_text(),
        r@ == "case \":$PATH:\" in\n  *:\"$HOME/.local/bin\":*) ;;\n  *) export PATH=\"$HOME/.local/bin:$PATH\" ;;\nesac\n"@,
{
    "case \":$PATH:\" in\n  *:\"$HOME/.local/bin\":*) ;;\n  *) export PATH=\"$HOME/.local/bin:$PATH\" ;;\nesac\n"
}

/// Whether a shell profile's text already holds the `PATH` lines.
pub fn profile_has_lines(profile: &str) -> (r: bool)
    ensures
        r == crate::text::contains_text(profile@, path_lines_text()),
{
    let lines = macos_path_lines();
    crate::text::has_substring(chars_of(profile).as_slice(), chars_of(lines).as_slice())
}

/// Whether `ir tool install` may change `PATH`: neither `IR_NO_MODIFY_PATH`
/// nor `RAPP_NO_MODIFY_PATH` is set to a value.
pub fn tool_install_path_setup_enabled(ir_no_modify_path: bool, rapp_no_modify_path: bool) -> (r:
    bool)
    ensures
        r == (!ir_no_modify_path && !rapp_no_modify_path),
{
    !ir_no_modify_path && !rapp_no_modify_path
}

/// What follows `#| ` on a launcher line, past leading blanks.
pub fn rapp_hashpipe_content(line: &str) -> (r: Option<String>)
    ensures
        match crate::text::hashpipe_rest(line@, true) {
            Some(t) => r matches Some(x) && x@ == t,
            None => r is None,
        },
{
    match crate::text::hashpipe_line(chars_of(line).as_slice(), true) {
        Some(t) => Some(string_of(t.as_slice())),
        None => None,
    }
}

/// The executables among `candidates` named `executable`, in order.
pub fn find_package_executables_in_dir(candidates: Vec<PackageExecutable>, executable: &str) -> (r:
    Vec<PackageExecutable>)
    ensures
        r@ == candidates@.filter(|e: PackageExecutable| e.name@ == executable@),
{
    let ghost all = candidates@;
    let ghost pred = |e: PackageExecutable| e.name@ == executable@;
    let mut pending = candidates;
    let mut kept: Vec<PackageExecutable> = Vec::new();
    let mut i: usize = 0;
    assert(all.skip(0) =~= all);
    assert(all.len() == pending.len());
    while pending.len() > 0
        invariant
            pending@ == all.skip(i as int),
            i <= all.len(),
            all.len() <= usize::MAX,
            kept@ == all.take(i as int).filter(pred),
            pred == (|e: PackageExecutable| e.name@ == executable@),
        decreases pending@.len(),
    {
        proof {
            reveal(Seq::filter);
        }
        assert(pending@.len() == all.len() - i);
        assert(pending@[0] == all[i as int]);
        let e = pending.remove(0);
        let ghost t = all.take(i + 1);
        assert(t.drop_last() =~= all.take(i as int));
        assert(t.last() == e);
        assert(pending@ =~= all.skip(i + 1));
        let same = crate::text::chars_eq(
            chars_of(e.name.as_str()).as_slice(),
            chars_of(executable).as_slice(),
        );
        assert(same == pred(e));
        if same {
            kept.push(e);
        }
        i = i + 1;
    }
    assert(all.take(i as int) =~= all);
    kept
}

/// The executable a package exposes under the launcher name
/// `executable`, among all it exposes (`found`): exactly one must remain
/// once higher-precedence directories have hidden the rest; none is
/// `not_found`, more than one an error.
pub open spec fn single_outcome(
    found: Seq<PackageExecutable>,
    executable: Seq<char>,
    package: Seq<char>,
    not_found: Seq<char>,
) -> Result<PackageExecutable, Seq<char>> {
    let m = found.filter(|e: PackageExecutable| e.name@ == executable);
    let k = m.filter(|e: PackageExecutable| survives(m, e));
    if k.len() == 0 {
        Err(not_found)
    } else if k.len() == 1 {
        Ok(k[0])
    } else {
        Err(duplicate_launcher_text(executable, package))
    }
}

/// The executable of `package` that the launcher name `executable` runs.
pub fn find_package_executable(
    found: Vec<PackageExecutable>,
    executable: &str,
    package: &str,
    not_found: String,
) -> (r: Result<PackageExecutable, String>)
    ensures
        match single_outcome(found@, executable@, package@, not_found@) {
            Ok(e) => r matches Ok(x) && x == e,
            Err(m) => r matches Err(y) && y@ == m,
        },
{
    let mut matches = find_package_executables_in_dir(found, executable);
    shadow_lower_precedence_executables(&mut matches);
    if matches.len() == 0 {
        return Err(not_found);
    }
    if matches.len() == 1 {
        return Ok(matches.remove(0));
    }
    let mut v: Vec<char> = Vec::new();
    append_str(&mut v, "multiple package executables map to launcher `");
    append_str(&mut v, executable);
    append_str(&mut v, "` in package `");
    append_str(&mut v, package);
    append_str(&mut v, "`");
    Err(string_of(v.as_slice()))
}

/// An executable found at `path` (shown as given), started by `launcher`,
/// with the launcher frontmatter `frontmatter` and the parts of its file
/// name that are valid UTF-8.
pub fn package_executable_from_path_and_launcher(
    path: &str,
    package: &str,
    launcher: PackageLauncher,
    dir_kind: PackageExecutableDirKind,
    frontmatter: &str,
    extension: Option<&str>,
    file_stem: Option<&str>,
    file_name: Option<&str>,
    platform: Platform,
) -> (r: Result<PackageExecutable, String>)
    ensures
        match launcher_metadata_outcome(frontmatter@, path@, package@, launcher) {
            Err(e) => r matches Err(m) && m@ == e,
            Ok((n, a)) => match launcher_name_outcome(
                path@,
                n,
                dir_kind,
                opt_str_view(extension),
                opt_str_view(file_stem),
                opt_str_view(file_name),
                platform,
            ) {
                Err(e) => r matches Err(m) && m@ == e,
                Ok(name) => r matches Ok(x) && x.name@ == name && x.path@ == path@ && x.launcher
                    == launcher && x.dir_kind == dir_kind && views(x.rscript_args@) == a,
            },
        },
{
    let metadata = package_launcher_metadata(frontmatter, path, package, launcher)?;
    let name = package_executable_launcher_name(
        path,
        metadata.name,
        dir_kind,
        extension,
        file_stem,
        file_name,
        platform,
    )?;
    Ok(
        PackageExecutable {
            name,
            path: lit(path),
            launcher,
            dir_kind,
            rscript_args: metadata.rscript_args,
        },
    )
}

/// How a discovered file starts, if it is an executable at all: in `bin/`
/// only runnable files count, run directly; elsewhere the first bytes
/// `prefix` decide (see `launcher_kind_of`).
pub open spec fn discovered_launcher(
    dir_kind: PackageExecutableDirKind,
    prefix: Seq<u8>,
    direct: bool,
    platform: Platform,
) -> Option<PackageLauncher> {
    if dir_kind != PackageExecutableDirKind::Exec {
        if direct {
            Some(PackageLauncher::Direct)
        } else {
            None
        }
    } else {
        launcher_kind_of(prefix, direct, platform)
    }
}

/// The executable a file found in a package directory is, if any.
pub fn package_executable_from_discovered_path(
    path: &str,
    package: &str,
    dir_kind: PackageExecutableDirKind,
    prefix: &[u8],
    direct: bool,
    frontmatter: &str,
    extension: Option<&str>,
    file_stem: Option<&str>,
    file_name: Option<&str>,
    platform: Platform,
) -> (r: Result<Option<PackageExecutable>, String>)
    ensures
        match discovered_launcher(dir_kind, prefix@, direct, platform) {
            None => r matches Ok(None),
            Some(launcher) => match launcher_metadata_outcome(frontmatter@, path@, package@, launcher) {
                Err(e) => r matches Err(m) && m@ == e,
                Ok((n, a)) => match launcher_name_outcome(
                    path@,
                    n,
                    dir_kind,
                    opt_str_view(extension),
                    opt_str_view(file_stem),
                    opt_str_view(file_name),
                    platform,
                ) {
                    Err(e) => r matches Err(m) && m@ == e,
                    Ok(name) => r matches Ok(Some(x)) && x.name@ == name && x.path@ == path@
                        && x.launcher == launcher && x.dir_kind == dir_kind && views(
                        x.rscript_args@,
                    ) == a,
                },
            },
        },
{
    let launcher = if dir_kind.is_bin() {
        if !direct {
            return Ok(None);
        }
        PackageLauncher::Direct
    } else {
        match package_executable_launcher_kind(prefix, direct, platform) {
            Some(l) => l,
            None => {
                return Ok(None);
            },
        }
    };
    let e = package_executable_from_path_and_launcher(
        path,
        package,
        launcher,
        dir_kind,
        frontmatter,
        extension,
        file_stem,
        file_name,
        platform,
    )?;
    Ok(Some(e))
}

/// `executables` sorted by launcher name.
pub fn sort_by_name(executables: Vec<PackageExecutable>) -> (r: Vec<PackageExecutable>)
    ensures
        exe_names(r@) == crate::text::sorted_texts(exe_names(executables@)),
        r@.to_multiset() == executables@.to_multiset(),
{
    let ghost all = executables@;
    let mut pending = executables;
    let mut out: Vec<PackageExecutable> = Vec::new();
    let mut i: usize = 0;
    assert(all.skip(0) =~= all);
    assert(all.take(0).to_multiset() =~= vstd::multiset::Multiset::empty()) by {
        broadcast use vstd::seq_lib::group_to_multiset_ensures;
    }
    assert(out@.to_multiset() =~= vstd::multiset::Multiset::empty()) by {
        broadcast use vstd::seq_lib::group_to_multiset_ensures;
    }
    assert(all.len() == pending.len());
    while pending.len() > 0
        invariant
            pending@ == all.skip(i as int),
            i <= all.len(),
            all.len() <= usize::MAX,
            exe_names(out@) == crate::text::sorted_texts(exe_names(all.take(i as int))),
            out@.to_multiset() == all.take(i as int).to_multiset(),
        decreases pending@.len(),
    {
        assert(pending@.len() == all.len() - i);
        assert(pending@[0] == all[i as int]);
        let e = pending.remove(0);
        assert(pending@ =~= all.skip(i + 1));
        let x = chars_of(e.name.as_str());
        let mut j: usize = 0;
        while j < out.len()
            invariant
                j <= out@.len(),
                x@ == e.name@,
                forall|k: int|
                    0 <= k < j ==> crate::rig::model::str_order(x@, #[trigger] exe_names(out@)[k])
                        > 0,
            ensures
                j <= out@.len(),
                forall|k: int|
                    0 <= k < j ==> crate::rig::model::str_order(x@, #[trigger] exe_names(out@)[k])
                        > 0,
                j < out@.len() ==> crate::rig::model::str_order(x@, exe_names(out@)[j as int])
                    <= 0,
            decreases out@.len() - j,
        {
            let y = chars_of(out[j].name.as_str());
            assert(exe_names(out@)[j as int] == out@[j as int].name@);
            if crate::rig::model::order_chars(x.as_slice(), y.as_slice()) <= 0 {
                break;
            }
            j += 1;
        }
        let ghost old_out = out@;
        proof {
            crate::text::lemma_insert_pos(x@, exe_names(old_out));
            let names = exe_names(old_out);
            let p = crate::text::insert_pos(x@, names);
            assert(p == j) by {
                if p < j {
                    assert(crate::rig::model::str_order(x@, names[p as int]) > 0);
                } else if p > j {
                    assert(crate::rig::model::str_order(x@, names[j as int]) > 0);
                }
            }
            let t = all.take(i + 1);
            assert(exe_names(t).drop_last() =~= exe_names(all.take(i as int)));
            assert(exe_names(t).last() == e.name@);
            assert(t =~= all.take(i as int).push(e));
        }
        out.insert(j, e);
        proof {
            broadcast use vstd::seq_lib::group_to_multiset_ensures;

            assert(exe_names(out@) =~= exe_names(old_out).insert(j as int, e.name@));
            vstd::seq_lib::to_multiset_insert(old_out, j as int, e);
        }
        i += 1;
    }
    assert(all.take(i as int) =~= all);
    out
}

/// The executables a package installs: those left once
/// higher-precedence directories hide the rest, which must answer to
/// distinct names, sorted by name.
pub fn discover_package_executables(found: Vec<PackageExecutable>, package: &str) -> (r: Result<
    Vec<PackageExecutable>,
    String,
>)
    ensures
        ({
            let kept = found@.filter(|e: PackageExecutable| survives(found@, e));
            &&& (r is Ok <==> forall|i: int|
                0 <= i < kept.len() ==> !repeats_earlier(exe_names(kept), i))
            &&& (r matches Ok(v) ==> exe_names(v@) == crate::text::sorted_texts(exe_names(kept))
                && v@.to_multiset() == kept.to_multiset())
            &&& (r matches Err(m) ==> exists|i: int|
                0 <= i < kept.len() && repeats_earlier(exe_names(kept), i) && (forall|k: int|
                    0 <= k < i ==> !repeats_earlier(exe_names(kept), k)) && m@
                    == duplicate_launcher_text(exe_names(kept)[i], package@))
        }),
{
    let mut executables = found;
    shadow_lower_precedence_executables(&mut executables);
    reject_duplicate_launcher_names(executables.as_slice(), package)?;
    Ok(sort_by_name(executables))
}

/// The `PATH` assignment of a `cmd.exe` launcher: the directories joined
/// with `;` before the old `PATH`; none where there are none.
pub open spec fn cmd_prefix_line(paths: Seq<Seq<char>>) -> Option<Seq<char>> {
    if paths.len() == 0 {
        None
    } else {
        Some("set \"PATH="@ + joined(paths, ";"@) + ";%PATH%\""@)
    }
}

/// The `PATH` assignment for the directories `path_prefix` (absolute).
pub fn cmd_path_prefix_assignment(path_prefix: &[String]) -> (r: Option<String>)
    ensures
        opt_view(r) == cmd_prefix_line(views(path_prefix@)),
{
    if path_prefix.len() == 0 {
        return None;
    }
    let mut v: Vec<char> = Vec::new();
    append_str(&mut v, "set \"PATH=");
    let j = join_texts(path_prefix, ";");
    append_str(&mut v, j.as_str());
    append_str(&mut v, ";%PATH%\"");
    Some(string_of(v.as_slice()))
}

/// The words of a `cmd.exe` launcher's final line.
pub open spec fn cmd_words(
    launcher: PackageLauncher,
    rscript: Seq<char>,
    executable_path: Seq<char>,
    rscript_args: Seq<Seq<char>>,
) -> Seq<Seq<char>> {
    let quoted_args = rscript_args.map_values(|a: Seq<char>| cmd_quoted(a));
    (match launcher {
        PackageLauncher::Direct => seq![cmd_quoted(executable_path)],
        PackageLauncher::Rscript => seq![cmd_quoted(rscript)] + quoted_args + seq![
            cmd_quoted(executable_path),
        ],
        PackageLauncher::Rapp => seq![cmd_quoted(rscript)] + quoted_args + seq![
            "-e"@,
            "Rapp::run()"@,
            cmd_quoted(executable_path),
        ],
        PackageLauncher::RappFrontend => seq![cmd_quoted(rscript)] + quoted_args + seq![
            "-e"@,
            "Rapp::run()"@,
        ],
    }) + seq!["%*"@]
}

/// The `set` lines of a `cmd.exe` launcher.
pub open spec fn cmd_env_lines(
    name: Seq<char>,
    r_arch_env: Option<Seq<char>>,
    path_prefix: Seq<Seq<char>>,
) -> Seq<Seq<char>> {
    seq![
        "set \"R_LIBS=%IR_LIBRARY%\""@,
        "set \"R_LIBS_USER=NULL\""@,
        "set \"RAPP_LAUNCHER_NAME="@ + name + "\""@,
    ] + (match r_arch_env {
        Some(a) => seq!["set \"R_ARCH="@ + a + "\""@],
        None => Seq::empty(),
    }) + (match cmd_prefix_line(path_prefix) {
        Some(l) => seq![l],
        None => Seq::empty(),
    })
}

/// A `cmd.exe` launcher: the same checks and settings as the `/bin/sh`
/// one, with Windows quoting and `\r\n` line ends.
pub open spec fn cmd_launcher_text(
    rscript: Seq<char>,
    library: Seq<char>,
    name: Seq<char>,
    launcher: PackageLauncher,
    executable_path: Seq<char>,
    rscript_args: Seq<Seq<char>>,
    path_prefix: Seq<Seq<char>>,
    r_arch_env: Option<Seq<char>>,
    recovery_command: Seq<char>,
) -> Seq<char> {
    "@echo off\r\n:: Generated by `ir tool install`. Do not edit by hand.\r\nsetlocal\r\nset \"IR_LIBRARY="@
        + library
        + "\"\r\nif not exist \"%IR_LIBRARY%\" (\r\necho ir: missing ir installed tool library: %IR_LIBRARY% 1>&2\r\necho ir: run `"@
        + recovery_command + "` to recreate this tool. 1>&2\r\nexit /b 1\r\n)\r\n"@ + joined(
        cmd_env_lines(name, r_arch_env, path_prefix),
        "\r\n"@,
    ) + "\r\n"@ + joined(cmd_words(launcher, rscript, executable_path, rscript_args), " "@)
        + "\r\n"@
}

/// The `cmd.exe` launcher `ir tool install` writes on Windows.
pub fn installed_launcher_contents_cmd(
    rscript: &str,
    library: &str,
    executable: &PackageExecutable,
    executable_path: &str,
    path_prefix: &[String],
    r_arch_env: Option<&str>,
    recovery_command: &str,
) -> (r: String)
    ensures
        r@ == cmd_launcher_text(
            rscript@,
            library@,
            executable.name@,
            executable.launcher,
            executable_path@,
            views(executable.rscript_args@),
            views(path_prefix@),
            opt_str_view(r_arch_env),
            recovery_command@,
        ),
{
    let mut words: Vec<String> = Vec::new();
    match executable.launcher {
        PackageLauncher::Direct => {
            push_word(&mut words, cmd_quote_str(executable_path));
        },
        _ => {
            push_word(&mut words, cmd_quote_str(rscript));
            let ghost w0 = views(words@);
            let mut k: usize = 0;
            while k < executable.rscript_args.len()
                invariant
                    k <= executable.rscript_args@.len(),
                    views(words@) == w0 + views(executable.rscript_args@.take(k as int)).map_values(
                        |a: Seq<char>| cmd_quoted(a),
                    ),
                decreases executable.rscript_args@.len() - k,
            {
                push_word(&mut words, cmd_quote_str(executable.rscript_args[k].as_str()));
                assert(views(executable.rscript_args@.take(k + 1)).map_values(
                    |a: Seq<char>| cmd_quoted(a),
                ) =~= views(executable.rscript_args@.take(k as int)).map_values(
                    |a: Seq<char>| cmd_quoted(a),
                ).push(cmd_quoted(executable.rscript_args@[k as int]@)));
                k += 1;
            }
            assert(executable.rscript_args@.take(executable.rscript_args@.len() as int)
                =~= executable.rscript_args@);
            match executable.launcher {
                PackageLauncher::Rscript => {
                    push_word(&mut words, cmd_quote_str(executable_path));
                },
                PackageLauncher::Rapp => {
                    push_word(&mut words, lit("-e"));
                    push_word(&mut words, lit("Rapp::run()"));
                    push_word(&mut words, cmd_quote_str(executable_path));
                },
                _ => {
                    push_word(&mut words, lit("-e"));
                    push_word(&mut words, lit("Rapp::run()"));
                },
            }
        },
    }
    push_word(&mut words, lit("%*"));
    assert(views(words@) =~= cmd_words(
        executable.launcher,
        rscript@,
        executable_path@,
        views(executable.rscript_args@),
    ));
    let mut env_lines: Vec<String> = Vec::new();
    push_line(&mut env_lines, "set \"R_LIBS=%IR_LIBRARY%\"", "", "");
    push_line(&mut env_lines, "set \"R_LIBS_USER=NULL\"", "", "");
    push_line(&mut env_lines, "set \"RAPP_LAUNCHER_NAME=", executable.name.as_str(), "\"");
    if let Some(a) = r_arch_env {
        push_line(&mut env_lines, "set \"R_ARCH=", a, "\"");
    }
    if let Some(l) = cmd_path_prefix_assignment(path_prefix) {
        push_word(&mut env_lines, l);
    }
    proof {
        reveal_strlit("");
    }
    assert(views(env_lines@) =~~= cmd_env_lines(
        executable.name@,
        opt_str_view(r_arch_env),
        views(path_prefix@),
    ));
    let mut v: Vec<char> = Vec::new();
    append_str(
        &mut v,
        "@echo off\r\n:: Generated by `ir tool install`. Do not edit by hand.\r\nsetlocal\r\nset \"IR_LIBRARY=",
    );
    append_str(&mut v, library);
    append_str(
        &mut v,
        "\"\r\nif not exist \"%IR_LIBRARY%\" (\r\necho ir: missing ir installed tool library: %IR_LIBRARY% 1>&2\r\necho ir: run `",
    );
    append_str(&mut v, recovery_command);
    append_str(&mut v, "` to recreate this tool. 1>&2\r\nexit /b 1\r\n)\r\n");
    let e = join_texts(env_lines.as_slice(), "\r\n");
    append_str(&mut v, e.as_str());
    append_str(&mut v, "\r\n");
    let c = join_texts(words.as_slice(), " ");
    append_str(&mut v, c.as_str());
    append_str(&mut v, "\r\n");
    string_of(v.as_slice())
}


/// The message for an executable that could not be launched.
pub open spec fn executable_spawn_text(program: Seq<char>, not_found: bool, error: Seq<char>) -> Seq<
    char,
> {
    if not_found {
        "could not find executable `"@ + program + "`"@
    } else {
        "failed to launch executable `"@ + program + "`: "@ + error
    }
}

/// The message for a failure to launch the package executable `program`.
pub fn executable_spawn_error(program: &str, not_found: bool, error: &str) -> (r: String)
    ensures
        r@ == executable_spawn_text(program@, not_found, error@),
{
    let mut v: Vec<char> = Vec::new();
    if not_found {
        append_str(&mut v, "could not find executable `");
        append_str(&mut v, program);
        append_str(&mut v, "`");
    } else {
        append_str(&mut v, "failed to launch executable `");
        append_str(&mut v, program);
        append_str(&mut v, "`: ");
        append_str(&mut v, error);
    }
    string_of(v.as_slice())
}

/// An entry of a package's `bin/` directory: its name, where that is valid
/// UTF-8, and whether it is a directory.
pub struct BinEntry {
    pub name: Option<String>,
    pub is_dir: bool,
}

/// Whether `e` is the directory of the selected architecture.
pub open spec fn is_arch_dir(e: BinEntry, r_arch: Option<Seq<char>>) -> bool {
    e.is_dir && r_arch is Some && e.name is Some && e.name->Some_0@ == r_arch->Some_0
}

/// The names of the entries that are the selected architecture's
/// directory, in order.
pub open spec fn arch_dir_names(entries: Seq<BinEntry>, r_arch: Option<Seq<char>>) -> Seq<Seq<char>>
    decreases entries.len(),
{
    if entries.len() == 0 {
        Seq::empty()
    } else {
        arch_dir_names(entries.drop_last(), r_arch) + if is_arch_dir(entries.last(), r_arch) {
            seq![entries.last().name->Some_0@]
        } else {
            Seq::<Seq<char>>::empty()
        }
    }
}

fn arch_dirs(entries: &[BinEntry], r_arch: Option<&str>) -> (r: Vec<String>)
    ensures
        views(r@) == arch_dir_names(entries@, opt_str_view(r_arch)),
{
    let mut r: Vec<String> = Vec::new();
    let mut i: usize = 0;
    while i < entries.len()
        invariant
            i <= entries@.len(),
            views(r@) == arch_dir_names(entries@.take(i as int), opt_str_view(r_arch)),
        decreases entries@.len() - i,
    {
        let e = &entries[i];
        assert(entries@.take(i + 1).drop_last() =~= entries@.take(i as int));
        assert(entries@.take(i + 1).last() == entries@[i as int]);
        let name: Option<&str> = match &e.name {
            Some(n) => Some(n.as_str()),
            None => None,
        };
        if e.is_dir && arch_dir_matches(name, r_arch) {
            let n = e.name.as_ref().unwrap().clone();
            let ghost before = r@;
            r.push(n);
            assert(views(r@) =~= views(before).push(n@));
        } else {
            assert(arch_dir_names(entries@.take(i + 1), opt_str_view(r_arch)) =~= arch_dir_names(
                entries@.take(i as int),
                opt_str_view(r_arch),
            ));
        }
        i += 1;
    }
    assert(entries@.take(entries@.len() as int) =~= entries@);
    r
}

/// A directory searched for executables: its path below the package
/// directory, and which kind it is.
pub struct ExecutableDir {
    pub parts: Vec<String>,
    pub kind: PackageExecutableDirKind,
}

pub open spec fn dir_view(d: ExecutableDir) -> (Seq<Seq<char>>, PackageExecutableDirKind) {
    (views(d.parts@), d.kind)
}

/// The directories searched for a package's executables, in order:
/// `exec/`, then `bin/` and the selected architecture's directory under
/// it, each where it is a directory.
pub open spec fn executable_dirs(exec_is_dir: bool, bin_is_dir: bool, arch: Seq<Seq<char>>) -> Seq<
    (Seq<Seq<char>>, PackageExecutableDirKind),
> {
    (if exec_is_dir {
        seq![(seq!["exec"@], PackageExecutableDirKind::Exec)]
    } else {
        Seq::empty()
    }) + (if bin_is_dir {
        seq![(seq!["bin"@], PackageExecutableDirKind::Bin)] + arch.map_values(
            |n: Seq<char>| (seq!["bin"@, n], PackageExecutableDirKind::BinArch),
        )
    } else {
        Seq::empty()
    })
}

fn dir_of(parts: Vec<String>, kind: PackageExecutableDirKind) -> (r: ExecutableDir)
    ensures
        dir_view(r) == (views(parts@), kind),
{
    ExecutableDir { parts, kind }
}

fn one_part(a: &str) -> (r: Vec<String>)
    ensures
        views(r@) == seq![a@],
{
    let mut v: Vec<String> = Vec::new();
    v.push(String::from_str(a));
    assert(views(v@) =~= seq![a@]);
    v
}

fn two_parts(a: &str, b: &String) -> (r: Vec<String>)
    ensures
        views(r@) == seq![a@, b@],
{
    let mut v: Vec<String> = Vec::new();
    v.push(String::from_str(a));
    v.push(b.clone());
    assert(views(v@) =~= seq![a@, b@]);
    v
}

/// The directories to search for the executables of a package whose
/// directory has `exec/` (`exec_is_dir`) and `bin/` (`bin_is_dir`, with
/// the entries `bin_entries` in sorted order) for the architecture `r_arch`.
pub fn package_executable_dirs(
    exec_is_dir: bool,
    bin_is_dir: bool,
    bin_entries: &[BinEntry],
    r_arch: Option<&str>,
) -> (r: Vec<ExecutableDir>)
    ensures
        r@.map_values(|d: ExecutableDir| dir_view(d)) == executable_dirs(
            exec_is_dir,
            bin_is_dir,
            arch_dir_names(bin_entries@, opt_str_view(r_arch)),
        ),
{
    let mut r: Vec<ExecutableDir> = Vec::new();
    let ghost arch_v = arch_dir_names(bin_entries@, opt_str_view(r_arch));
    if exec_is_dir {
        r.push(dir_of(one_part("exec"), PackageExecutableDirKind::Exec));
    }
    assert(r@.map_values(|d: ExecutableDir| dir_view(d)) =~= (if exec_is_dir {
        seq![(seq!["exec"@], PackageExecutableDirKind::Exec)]
    } else {
        Seq::empty()
    }));
    if bin_is_dir {
        let ghost head = r@.map_values(|d: ExecutableDir| dir_view(d));
        r.push(dir_of(one_part("bin"), PackageExecutableDirKind::Bin));
        assert(r@.map_values(|d: ExecutableDir| dir_view(d)) =~= head + seq![
            (seq!["bin"@], PackageExecutableDirKind::Bin),
        ]);
        let ghost head2 = r@.map_values(|d: ExecutableDir| dir_view(d));
        let arch = arch_dirs(bin_entries, r_arch);
        let mut i: usize = 0;
        while i < arch.len()
            invariant
                i <= arch@.len(),
                views(arch@) == arch_v,
                r@.map_values(|d: ExecutableDir| dir_view(d)) == head2 + arch_v.take(
                    i as int,
                ).map_values(|n: Seq<char>| (seq!["bin"@, n], PackageExecutableDirKind::BinArch)),
            decreases arch@.len() - i,
        {
            let ghost before = r@.map_values(|d: ExecutableDir| dir_view(d));
            assert(views(arch@)[i as int] == arch@[i as int]@);
            r.push(dir_of(two_parts("bin", &arch[i]), PackageExecutableDirKind::BinArch));
            assert(arch_v.take(i + 1) =~= arch_v.take(i as int).push(arch@[i as int]@));
            assert(r@.map_values(|d: ExecutableDir| dir_view(d)) =~= before.push(
                (seq!["bin"@, arch@[i as int]@], PackageExecutableDirKind::BinArch),
            ));
            assert(r@.map_values(|d: ExecutableDir| dir_view(d)) =~= head2 + arch_v.take(
                i + 1,
            ).map_values(|n: Seq<char>| (seq!["bin"@, n], PackageExecutableDirKind::BinArch)));
            i += 1;
        }
        assert(arch_v.take(arch@.len() as int) =~= arch_v);
    }
    r
}

/// The directories of a package put on `PATH` for its executables, in
/// order: `exec/`, the selected architecture's directory under `bin/`,
/// then `bin/`, each where it is a directory.
pub open spec fn runtime_path_dirs(exec_is_dir: bool, bin_is_dir: bool, arch: Seq<Seq<char>>) -> Seq<
    Seq<Seq<char>>,
> {
    (if exec_is_dir {
        seq![seq!["exec"@]]
    } else {
        Seq::empty()
    }) + (if bin_is_dir {
        arch.map_values(|n: Seq<char>| seq!["bin"@, n]) + seq![seq!["bin"@]]
    } else {
        Seq::empty()
    })
}

/// The `PATH` directories of a package whose directory has `exec/`
/// (`exec_is_dir`) and `bin/` (`bin_is_dir`, with the entries
/// `bin_entries` in sorted order), for the architecture `r_arch`.
pub fn package_runtime_path_dirs(
    exec_is_dir: bool,
    bin_is_dir: bool,
    bin_entries: &[BinEntry],
    r_arch: Option<&str>,
) -> (r: Vec<Vec<String>>)
    ensures
        r@.map_values(|p: Vec<String>| views(p@)) == runtime_path_dirs(
            exec_is_dir,
            bin_is_dir,
            arch_dir_names(bin_entries@, opt_str_view(r_arch)),
        ),
{
    let mut r: Vec<Vec<String>> = Vec::new();
    let ghost arch_v = arch_dir_names(bin_entries@, opt_str_view(r_arch));
    if exec_is_dir {
        r.push(one_part("exec"));
    }
    assert(r@.map_values(|p: Vec<String>| views(p@)) =~= (if exec_is_dir {
        seq![seq!["exec"@]]
    } else {
        Seq::empty()
    }));
    if bin_is_dir {
        let ghost head = r@.map_values(|p: Vec<String>| views(p@));
        let arch = arch_dirs(bin_entries, r_arch);
        let mut i: usize = 0;
        while i < arch.len()
            invariant
                i <= arch@.len(),
                views(arch@) == arch_v,
                r@.map_values(|p: Vec<String>| views(p@)) == head + arch_v.take(i as int).map_values(
                    |n: Seq<char>| seq!["bin"@, n],
                ),
            decreases arch@.len() - i,
        {
            let ghost before = r@.map_values(|p: Vec<String>| views(p@));
            assert(views(arch@)[i as int] == arch@[i as int]@);
            r.push(two_parts("bin", &arch[i]));
            assert(arch_v.take(i + 1) =~= arch_v.take(i as int).push(arch@[i as int]@));
            assert(r@.map_values(|p: Vec<String>| views(p@)) =~= before.push(
                seq!["bin"@, arch@[i as int]@],
            ));
            assert(r@.map_values(|p: Vec<String>| views(p@)) =~= head + arch_v.take(
                i + 1,
            ).map_values(|n: Seq<char>| seq!["bin"@, n]));
            i += 1;
        }
        assert(arch_v.take(arch@.len() as int) =~= arch_v);
        let ghost mid = r@.map_values(|p: Vec<String>| views(p@));
        r.push(one_part("bin"));
        assert(r@.map_values(|p: Vec<String>| views(p@)) =~= mid.push(seq!["bin"@]));
    }
    r
}

} // verus!
