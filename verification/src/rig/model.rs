//! The model of R versions known to rig: release dates, version numbers,
//! version requirements and how they match installed and available R.
use std::cmp::Ordering;
use vstd::prelude::*;

use crate::text::{
    char_is_digit, chars_eq, chars_of, has_prefix, starts_with, digits_value, extend_chars, is_digit, parse_u64_digits, parses_u64,
    slice_vec, split_chars, split_on, string_of, trim, trimmed,
};

verus! {

// ---------------------------------------------------------------------------
// Dates
// ---------------------------------------------------------------------------

/// `YYYY-MM-DD`: ten characters, digits with dashes at positions 4 and 7.
pub open spec fn iso_date(s: Seq<char>) -> bool {
    &&& s.len() == 10
    &&& is_digit(s[0]) && is_digit(s[1]) && is_digit(s[2]) && is_digit(s[3])
    &&& s[4] == '-'
    &&& is_digit(s[5]) && is_digit(s[6])
    &&& s[7] == '-'
    &&& is_digit(s[8]) && is_digit(s[9])
}

/// The leading `YYYY-MM-DD` of `s`, if `s` starts with one.
pub open spec fn iso_prefix(s: Seq<char>) -> Option<Seq<char>> {
    if s.len() >= 10 && iso_date(s.take(10)) {
        Some(s.take(10))
    } else {
        None
    }
}

fn chars_iso_date(b: &[char]) -> (r: bool)
    ensures
        r == iso_date(b@),
{
    b.len() == 10 && char_is_digit(b[0]) && char_is_digit(b[1]) && char_is_digit(b[2])
        && char_is_digit(b[3]) && b[4] == '-' && char_is_digit(b[5]) && char_is_digit(b[6])
        && b[7] == '-' && char_is_digit(b[8]) && char_is_digit(b[9])
}

/// Whether `value` is a date in `YYYY-MM-DD` form (digits only; the month and
/// day are not range-checked).
pub fn is_iso_date(value: &str) -> (r: bool)
    ensures
        r == iso_date(value@),
{
    let b = chars_of(value);
    chars_iso_date(&b)
}

pub(crate) fn iso_prefix_chars(v: &[char]) -> (r: Option<Vec<char>>)
    ensures
        r matches Some(d) ==> iso_prefix(v@) == Some(d@),
        r is None ==> iso_prefix(v@) is None,
{
    if v.len() < 10 {
        return None;
    }
    let d = slice_vec(v, 0, 10);
    assert(d@ =~= v@.take(10));
    if chars_iso_date(&d) {
        Some(d)
    } else {
        None
    }
}

/// The first ten characters of `value` when they form a `YYYY-MM-DD` date.
pub fn iso_date_prefix(value: &str) -> (r: Option<String>)
    ensures
        r matches Some(d) ==> iso_prefix(value@) == Some(d@),
        r is None ==> iso_prefix(value@) is None,
{
    let v = chars_of(value);
    match iso_prefix_chars(&v) {
        Some(d) => Some(string_of(&d)),
        None => None,
    }
}

pub open spec fn date_field_error(key: Seq<char>) -> Seq<char> {
    seq!['`'] + key + "` must be a date string in YYYY-MM-DD format"@
}

/// `value` with surrounding whitespace removed when that is a `YYYY-MM-DD`
/// date; otherwise the error naming `key`.
pub fn parse_iso_date_field(key: &str, value: &str) -> (r: Result<String, String>)
    ensures
        iso_date(trim(value@)) ==> r == Ok::<String, String>(
            r->Ok_0,
        ) && r->Ok_0@ == trim(value@),
        !iso_date(trim(value@)) ==> r is Err && r->Err_0@ == date_field_error(key@),
{
    let v = trimmed(&chars_of(value));
    if !chars_iso_date(&v) {
        let mut m: Vec<char> = Vec::new();
        m.push('`');
        extend_chars(&mut m, &chars_of(key));
        extend_chars(&mut m, &chars_of("` must be a date string in YYYY-MM-DD format"));
        return Err(string_of(&m));
    }
    Ok(string_of(&v))
}

// ---------------------------------------------------------------------------
// Version numbers
// ---------------------------------------------------------------------------

/// rig names a concrete release by its number; symbolic names such as
/// `release` or `devel` start with a letter.
pub open spec fn concrete_name(s: Seq<char>) -> bool {
    s.len() > 0 && is_digit(s[0])
}

/// Whether `value` starts with an ASCII digit.
pub fn concrete_rig_name(value: &str) -> (r: bool)
    ensures
        r == concrete_name(value@),
{
    let v = chars_of(value);
    v.len() > 0 && char_is_digit(v[0])
}

/// A dotted version number: every dot-separated piece is one or more digits
/// whose value fits in 64 bits.
pub open spec fn version_parts(s: Seq<char>) -> Option<Seq<u64>> {
    let pieces = split_on(s, '.');
    if forall|i: int| 0 <= i < pieces.len() ==> parses_u64(#[trigger] pieces[i]) {
        Some(Seq::new(pieces.len(), |i: int| digits_value(pieces[i]) as u64))
    } else {
        None
    }
}

pub(crate) fn parse_version_chars(v: &[char]) -> (r: Option<Vec<u64>>)
    ensures
        r matches Some(p) ==> version_parts(v@) == Some(p@),
        r is None ==> version_parts(v@) is None,
{
    let pieces = split_chars(v, '.');
    let ghost sp = split_on(v@, '.');
    let mut parts: Vec<u64> = Vec::new();
    let mut i: usize = 0;
    while i < pieces.len()
        invariant
            i <= pieces@.len(),
            sp == split_on(v@, '.'),
            pieces@.len() == sp.len(),
            forall|j: int| 0 <= j < pieces@.len() ==> #[trigger] pieces@[j]@ == sp[j],
            parts@.len() == i,
            forall|j: int| 0 <= j < i ==> parses_u64(#[trigger] sp[j]),
            forall|j: int| 0 <= j < i ==> #[trigger] parts@[j] == digits_value(sp[j]) as u64,
        decreases pieces@.len() - i,
    {
        match parse_u64_digits(&pieces[i]) {
            Some(n) => {
                parts.push(n);
            },
            None => {
                assert(pieces@[i as int]@ == sp[i as int]);
                assert(!parses_u64(sp[i as int]));
                assert(!(forall|j: int| 0 <= j < sp.len() ==> parses_u64(#[trigger] sp[j])));
                return None;
            },
        }
        i += 1;
    }
    assert(parts@ =~= Seq::new(sp.len(), |j: int| digits_value(sp[j]) as u64));
    Some(parts)
}

/// The numbers of the dotted version `value`.
pub fn parse_version(value: &str) -> (r: Option<Vec<u64>>)
    ensures
        r matches Some(p) ==> version_parts(value@) == Some(p@),
        r is None ==> version_parts(value@) is None,
{
    parse_version_chars(&chars_of(value))
}

/// The piece at `i`, with missing pieces read as zero.
pub open spec fn part_at(a: Seq<u64>, i: int) -> int {
    if 0 <= i < a.len() {
        a[i] as int
    } else {
        0
    }
}

/// Three-way order of two version numbers, piece by piece, where the shorter
/// one is padded with zeros: -1, 0 or 1.
pub open spec fn parts_order(a: Seq<u64>, b: Seq<u64>) -> int
    decreases a.len() + b.len(),
{
    if a.len() == 0 && b.len() == 0 {
        0
    } else if part_at(a, 0) < part_at(b, 0) {
        -1
    } else if part_at(a, 0) > part_at(b, 0) {
        1
    } else {
        parts_order(
            if a.len() > 0 {
                a.drop_first()
            } else {
                a
            },
            if b.len() > 0 {
                b.drop_first()
            } else {
                b
            },
        )
    }
}

pub open spec fn tail_of(a: Seq<u64>) -> Seq<u64> {
    if a.len() > 0 {
        a.drop_first()
    } else {
        a
    }
}

pub(crate) fn order_version_parts(a: &[u64], b: &[u64]) -> (r: i8)
    ensures
        r == parts_order(a@, b@),
{
    let len = if a.len() > b.len() {
        a.len()
    } else {
        b.len()
    };
    let mut idx: usize = 0;
    assert(a@.skip(0) =~= a@);
    assert(b@.skip(0) =~= b@);
    while idx < len
        invariant
            len == if a@.len() > b@.len() {
                a@.len()
            } else {
                b@.len()
            },
            idx <= len,
            parts_order(a@, b@) == parts_order(
                a@.skip(if idx <= a@.len() {
                    idx as int
                } else {
                    a@.len() as int
                }),
                b@.skip(if idx <= b@.len() {
                    idx as int
                } else {
                    b@.len() as int
                }),
            ),
        decreases len - idx,
    {
        let ghost sa = a@.skip(
            if idx <= a@.len() {
                idx as int
            } else {
                a@.len() as int
            },
        );
        let ghost sb = b@.skip(
            if idx <= b@.len() {
                idx as int
            } else {
                b@.len() as int
            },
        );
        let left: u64 = if idx < a.len() {
            a[idx]
        } else {
            0
        };
        let right: u64 = if idx < b.len() {
            b[idx]
        } else {
            0
        };
        assert(left as int == part_at(sa, 0));
        assert(right as int == part_at(sb, 0));
        if left < right {
            return -1;
        }
        if left > right {
            return 1;
        }
        assert(tail_of(sa) =~= a@.skip(
            if idx + 1 <= a@.len() {
                idx + 1
            } else {
                a@.len() as int
            },
        ));
        assert(tail_of(sb) =~= b@.skip(
            if idx + 1 <= b@.len() {
                idx + 1
            } else {
                b@.len() as int
            },
        ));
        idx += 1;
    }
    proof {
        let sa = a@.skip(a@.len() as int);
        let sb = b@.skip(b@.len() as int);
        assert(sa.len() == 0 && sb.len() == 0);
    }
    0
}

/// Lexicographic three-way order of two character sequences (by code point,
/// which for UTF-8 text is the byte order that `str::cmp` uses).
pub open spec fn str_order(a: Seq<char>, b: Seq<char>) -> int
    decreases a.len(),
{
    if a.len() == 0 && b.len() == 0 {
        0
    } else if a.len() == 0 {
        -1
    } else if b.len() == 0 {
        1
    } else if a[0] < b[0] {
        -1
    } else if a[0] > b[0] {
        1
    } else {
        str_order(a.drop_first(), b.drop_first())
    }
}

pub(crate) fn order_chars(a: &[char], b: &[char]) -> (r: i8)
    ensures
        r == str_order(a@, b@),
{
    let mut i: usize = 0;
    assert(a@.skip(0) =~= a@);
    assert(b@.skip(0) =~= b@);
    while i < a.len() && i < b.len()
        invariant
            i <= a@.len(),
            i <= b@.len(),
            str_order(a@, b@) == str_order(a@.skip(i as int), b@.skip(i as int)),
        decreases a@.len() - i,
    {
        if a[i] < b[i] {
            return -1;
        }
        if a[i] > b[i] {
            return 1;
        }
        assert(a@.skip(i as int).drop_first() =~= a@.skip(i + 1));
        assert(b@.skip(i as int).drop_first() =~= b@.skip(i + 1));
        i += 1;
    }
    if i < a.len() {
        1
    } else if i < b.len() {
        -1
    } else {
        0
    }
}

/// Order of two version strings: numerically when both are dotted version
/// numbers, else as text.
pub open spec fn versions_order(a: Seq<char>, b: Seq<char>) -> int {
    match (version_parts(a), version_parts(b)) {
        (Some(x), Some(y)) => parts_order(x, y),
        _ => str_order(a, b),
    }
}

pub(crate) fn order_versions(a: &[char], b: &[char]) -> (r: i8)
    ensures
        r == versions_order(a@, b@),
{
    match (parse_version_chars(a), parse_version_chars(b)) {
        (Some(x), Some(y)) => order_version_parts(&x, &y),
        _ => order_chars(a, b),
    }
}

// ---------------------------------------------------------------------------
// Laws of the version order
// ---------------------------------------------------------------------------

/// Comparing a version number with itself gives "equal".
pub proof fn lemma_parts_order_reflexive(a: Seq<u64>)
    ensures
        parts_order(a, a) == 0,
    decreases a.len(),
{
    if a.len() > 0 {
        lemma_parts_order_reflexive(a.drop_first());
    }
}

/// Swapping the two version numbers flips the order.
pub proof fn lemma_parts_order_antisymmetric(a: Seq<u64>, b: Seq<u64>)
    ensures
        parts_order(a, b) == -parts_order(b, a),
    decreases a.len() + b.len(),
{
    if !(a.len() == 0 && b.len() == 0) && part_at(a, 0) == part_at(b, 0) {
        lemma_parts_order_antisymmetric(tail_of(a), tail_of(b));
    }
}

/// The version order is transitive: `a <= b` and `b <= c` give `a <= c`, and
/// strictly where either step is strict.
pub proof fn lemma_parts_order_transitive(a: Seq<u64>, b: Seq<u64>, c: Seq<u64>)
    requires
        parts_order(a, b) <= 0,
        parts_order(b, c) <= 0,
    ensures
        parts_order(a, c) <= 0,
        (parts_order(a, b) < 0 || parts_order(b, c) < 0) ==> parts_order(a, c) < 0,
    decreases a.len() + b.len() + c.len(),
{
    if a.len() == 0 && b.len() == 0 && c.len() == 0 {
    } else if part_at(a, 0) == part_at(b, 0) && part_at(b, 0) == part_at(c, 0) {
        if a.len() == 0 && c.len() == 0 {
            lemma_parts_order_zero_tail(b);
            lemma_parts_order_antisymmetric(b, Seq::<u64>::empty());
            assert(a =~= Seq::<u64>::empty());
            assert(c =~= Seq::<u64>::empty());
        } else {
            lemma_parts_order_transitive(tail_of(a), tail_of(b), tail_of(c));
        }
    }
}

proof fn lemma_parts_order_zero_tail(b: Seq<u64>)
    ensures
        parts_order(Seq::<u64>::empty(), b) <= 0,
        parts_order(b, Seq::<u64>::empty()) >= 0,
    decreases b.len(),
{
    if b.len() > 0 {
        lemma_parts_order_zero_tail(b.drop_first());
    }
}

/// Text order is reflexive.
pub proof fn lemma_str_order_reflexive(a: Seq<char>)
    ensures
        str_order(a, a) == 0,
    decreases a.len(),
{
    if a.len() > 0 {
        lemma_str_order_reflexive(a.drop_first());
    }
}

/// Text order flips when its arguments are swapped.
pub proof fn lemma_str_order_antisymmetric(a: Seq<char>, b: Seq<char>)
    ensures
        str_order(a, b) == -str_order(b, a),
        str_order(a, b) == 0 ==> a == b,
    decreases a.len(),
{
    if a.len() > 0 && b.len() > 0 && a[0] == b[0] {
        lemma_str_order_antisymmetric(a.drop_first(), b.drop_first());
        if str_order(a, b) == 0 {
            assert(a =~= seq![a[0]] + a.drop_first());
            assert(b =~= seq![b[0]] + b.drop_first());
        }
    } else if a.len() == 0 && b.len() == 0 {
        assert(a =~= b);
    }
}

/// Text order is transitive.
pub proof fn lemma_str_order_transitive(a: Seq<char>, b: Seq<char>, c: Seq<char>)
    requires
        str_order(a, b) <= 0,
        str_order(b, c) <= 0,
    ensures
        str_order(a, c) <= 0,
    decreases a.len(),
{
    if a.len() > 0 && b.len() > 0 && c.len() > 0 && a[0] == b[0] && b[0] == c[0] {
        lemma_str_order_transitive(a.drop_first(), b.drop_first(), c.drop_first());
    }
}

/// Comparing a version string with itself gives "equal".
pub proof fn lemma_versions_order_reflexive(a: Seq<char>)
    ensures
        versions_order(a, a) == 0,
{
    match version_parts(a) {
        Some(x) => lemma_parts_order_reflexive(x),
        None => lemma_str_order_reflexive(a),
    }
}

/// Swapping two version strings flips their order.
pub proof fn lemma_versions_order_antisymmetric(a: Seq<char>, b: Seq<char>)
    ensures
        versions_order(a, b) == -versions_order(b, a),
{
    match (version_parts(a), version_parts(b)) {
        (Some(x), Some(y)) => lemma_parts_order_antisymmetric(x, y),
        _ => lemma_str_order_antisymmetric(a, b),
    }
}


/// The version order is transitive among version numbers, and among
/// strings none of which is one.
pub proof fn lemma_versions_order_transitive(a: Seq<char>, b: Seq<char>, c: Seq<char>)
    requires
        (version_parts(a) is Some && version_parts(b) is Some && version_parts(c) is Some) || (
        version_parts(a) is None && version_parts(b) is None && version_parts(c) is None),
        versions_order(a, b) <= 0,
        versions_order(b, c) <= 0,
    ensures
        versions_order(a, c) <= 0,
{
    match (version_parts(a), version_parts(b), version_parts(c)) {
        (Some(x), Some(y), Some(z)) => lemma_parts_order_transitive(x, y, z),
        _ => lemma_str_order_transitive(a, b, c),
    }
}

// ---------------------------------------------------------------------------
// Releases and installations
// ---------------------------------------------------------------------------

/// An R release that rig can install.
pub struct AvailableR {
    pub name: String,
    pub version: String,
    pub date: Option<String>,
}

/// An R installation that rig reports.
pub struct InstalledR {
    pub name: String,
    pub version: String,
    pub aliases: Vec<String>,
    pub default: bool,
    pub binary: String,
}

/// One record of `rig list --json`, before the required fields are checked.
pub struct InstalledRRecord {
    pub name: Option<String>,
    pub version: Option<String>,
    pub aliases: Option<Vec<String>>,
    pub default: bool,
    pub binary: Option<String>,
}

/// A release considered for selection.
pub struct AvailableCandidate {
    pub name: String,
    pub version: String,
    pub date: Option<String>,
}

pub open spec fn opt_view(o: Option<String>) -> Option<Seq<char>> {
    match o {
        Some(s) => Some(s@),
        None => None,
    }
}

pub open spec fn strings_view(v: Seq<String>) -> Seq<Seq<char>> {
    v.map_values(|s: String| s@)
}

pub open spec fn has_text(v: Seq<Seq<char>>, x: Seq<char>) -> bool {
    exists|i: int| 0 <= i < v.len() && v[i] == x
}

pub fn clone_opt(o: &Option<String>) -> (r: Option<String>)
    ensures
        r == *o,
        opt_view(r) == opt_view(*o),
{
    match o {
        Some(s) => Some(s.clone()),
        None => None,
    }
}

/// Whether `x` equals one of `v`.
pub fn contains_string(v: &[String], x: &String) -> (r: bool)
    ensures
        r == has_text(strings_view(v@), x@),
{
    let mut i: usize = 0;
    while i < v.len()
        invariant
            i <= v@.len(),
            forall|j: int| 0 <= j < i ==> v@[j]@ != x@,
        decreases v@.len() - i,
    {
        if v[i] == *x {
            assert(strings_view(v@)[i as int] == x@);
            return true;
        }
        i += 1;
    }
    false
}

impl AvailableR {
    pub fn from_candidate(c: &AvailableCandidate) -> (r: AvailableR)
        ensures
            candidate_of(r) == *c,
            r.name@ == c.name@,
            r.version@ == c.version@,
            opt_view(r.date) == opt_view(c.date),
    {
        AvailableR { name: c.name.clone(), version: c.version.clone(), date: clone_opt(&c.date) }
    }
}

/// The candidate that describes a release.
pub open spec fn candidate_of(v: AvailableR) -> AvailableCandidate {
    AvailableCandidate { name: v.name, version: v.version, date: v.date }
}

impl AvailableCandidate {
    pub fn from(value: &AvailableR) -> (r: AvailableCandidate)
        ensures
            r == candidate_of(*value),
            r.name@ == value.name@,
            r.version@ == value.version@,
            opt_view(r.date) == opt_view(value.date),
    {
        AvailableCandidate {
            name: value.name.clone(),
            version: value.version.clone(),
            date: clone_opt(&value.date),
        }
    }
}

impl InstalledR {
    /// The installation a record describes, when it names the R, its version
    /// and its binary; missing aliases read as none.
    pub fn from_record(record: InstalledRRecord) -> (r: Option<InstalledR>)
        ensures
            r is Some <==> (record.name is Some && record.version is Some
                && record.binary is Some),
            r matches Some(i) ==> {
                &&& i.name == record.name.unwrap()
                &&& i.version == record.version.unwrap()
                &&& i.binary == record.binary.unwrap()
                &&& i.default == record.default
                &&& i.aliases@ == match record.aliases {
                    Some(a) => a@,
                    None => Seq::<String>::empty(),
                }
            },
    {
        let InstalledRRecord { name, version, aliases, default, binary } = record;
        let name = match name {
            Some(n) => n,
            None => return None,
        };
        let version = match version {
            Some(v) => v,
            None => return None,
        };
        let binary = match binary {
            Some(b) => b,
            None => return None,
        };
        let aliases = match aliases {
            Some(a) => a,
            None => Vec::new(),
        };
        Some(InstalledR { name, version, aliases, default, binary })
    }
}

pub open spec fn release_date_error(date: Seq<char>, version: Seq<char>) -> Seq<char> {
    "rig available returned invalid release date `"@ + date + "` for R "@ + version
}

/// A release with its date cut to the leading `YYYY-MM-DD`.
pub open spec fn date_normalized(before: AvailableR, after: AvailableR) -> bool {
    &&& after.name == before.name
    &&& after.version == before.version
    &&& opt_view(after.date) == match opt_view(before.date) {
        Some(d) => iso_prefix(d),
        None => None,
    }
}

/// Cuts every release date to its leading `YYYY-MM-DD`. A date that does not
/// begin with one stops the pass with an error; the releases before it are
/// already cut and the rest are left as they were.
pub fn normalize_available_release_dates(versions: &mut Vec<AvailableR>) -> (r: Result<
    (),
    String,
>)
    ensures
        final(versions)@.len() == old(versions)@.len(),
        r is Ok <==> (forall|i: int|
            0 <= i < old(versions)@.len() ==> !(old(versions)@[i].date is Some && iso_prefix(
                #[trigger] old(versions)@[i].date.unwrap()@,
            ) is None)),
        r is Ok ==> forall|i: int|
            0 <= i < old(versions)@.len() ==> date_normalized(
                #[trigger] old(versions)@[i],
                final(versions)@[i],
            ),
        r matches Err(e) ==> exists|k: int|
            0 <= k < old(versions)@.len() && old(versions)@[k].date is Some && iso_prefix(
                old(versions)@[k].date.unwrap()@,
            ) is None && e@ == release_date_error(
                old(versions)@[k].date.unwrap()@,
                old(versions)@[k].version@,
            ) && (forall|j: int|
                0 <= j < k ==> !(old(versions)@[j].date is Some && iso_prefix(
                    #[trigger] old(versions)@[j].date.unwrap()@,
                ) is None)) && (forall|j: int|
                0 <= j < k ==> date_normalized(#[trigger] old(versions)@[j], final(versions)@[j]))
                && (forall|j: int|
                k <= j < old(versions)@.len() ==> #[trigger] final(versions)@[j] == old(
                    versions,
                )@[j]),
{
    let ghost orig = versions@;
    let mut i: usize = 0;
    while i < versions.len()
        invariant
            i <= versions@.len(),
            orig == old(versions)@,
            versions@.len() == orig.len(),
            forall|j: int|
                0 <= j < i ==> !(orig[j].date is Some && iso_prefix(
                    #[trigger] orig[j].date.unwrap()@,
                ) is None),
            forall|j: int| 0 <= j < i ==> date_normalized(#[trigger] orig[j], versions@[j]),
            forall|j: int| i <= j < orig.len() ==> #[trigger] versions@[j] == orig[j],
        decreases orig.len() - i,
    {
        let replacement: Option<AvailableR> = match &versions[i].date {
            Some(date) => {
                let dv = chars_of(date.as_str());
                match iso_prefix_chars(&dv) {
                    Some(d) => Some(
                        AvailableR {
                            name: versions[i].name.clone(),
                            version: versions[i].version.clone(),
                            date: Some(string_of(&d)),
                        },
                    ),
                    None => {
                        let mut m = chars_of("rig available returned invalid release date `");
                        extend_chars(&mut m, &dv);
                        extend_chars(&mut m, &chars_of("` for R "));
                        extend_chars(&mut m, &chars_of(versions[i].version.as_str()));
                        return Err(string_of(&m));
                    },
                }
            },
            None => None,
        };
        match replacement {
            Some(v) => {
                versions.set(i, v);
            },
            None => {},
        }
        i += 1;
    }
    Ok(())
}

/// A release that names a concrete version number.
pub open spec fn stable_candidate(c: AvailableCandidate) -> bool {
    concrete_name(c.name@) && version_parts(c.version@) is Some
}

/// An installation of a concrete release, not a development build.
pub open spec fn stable_installed(i: InstalledR) -> bool {
    &&& concrete_name(i.name@)
    &&& !has_text(strings_view(i.aliases@), "devel"@)
    &&& !has_text(strings_view(i.aliases@), "next"@)
    &&& version_parts(i.version@) is Some
}

/// Whether the candidate names a concrete release.
pub fn stable_release_candidate(version: &AvailableCandidate) -> (r: bool)
    ensures
        r == stable_candidate(*version),
{
    concrete_rig_name(version.name.as_str()) && parse_version(version.version.as_str()).is_some()
}

/// Whether the installation is of a concrete release and not aliased to
/// `devel` or `next`.
pub fn stable_installed_release_candidate(version: &InstalledR) -> (r: bool)
    ensures
        r == stable_installed(*version),
{
    let devel = String::from_str("devel");
    let next = String::from_str("next");
    concrete_rig_name(version.name.as_str()) && !contains_string(&version.aliases, &devel)
        && !contains_string(&version.aliases, &next) && parse_version(
        version.version.as_str(),
    ).is_some()
}

pub open spec fn installed_matches_available(i: InstalledR, a: AvailableCandidate) -> bool {
    i.version@ == a.version@ || i.name@ == a.name@ || has_text(strings_view(i.aliases@), a.name@)
}

/// Whether the installation is that release: same version, same name, or an
/// alias equal to the release's name.
pub fn matches_available_candidate(installed: &InstalledR, available: &AvailableCandidate) -> (r:
    bool)
    ensures
        r == installed_matches_available(*installed, *available),
{
    installed.version == available.version || installed.name == available.name
        || contains_string(&installed.aliases, &available.name)
}

/// Released on or before `exclude_newer` (always, when there is no cutoff).
pub open spec fn released_by(c: AvailableCandidate, exclude_newer: Option<Seq<char>>) -> bool {
    match exclude_newer {
        None => true,
        Some(cutoff) => match opt_view(c.date) {
            None => false,
            Some(d) => match iso_prefix(d) {
                None => false,
                Some(p) => str_order(p, cutoff) <= 0,
            },
        },
    }
}

/// Whether the release came out on or before `exclude_newer`; a release with
/// no usable date never qualifies under a cutoff.
pub fn released_before_or_on(version: &AvailableCandidate, exclude_newer: Option<&str>) -> (r:
    bool)
    ensures
        r == released_by(
            *version,
            match exclude_newer {
                Some(e) => Some(e@),
                None => None,
            },
        ),
{
    let cutoff = match exclude_newer {
        None => {
            return true;
        },
        Some(e) => e,
    };
    let date = match &version.date {
        None => {
            return false;
        },
        Some(d) => d,
    };
    match iso_prefix_chars(&chars_of(date.as_str())) {
        None => false,
        Some(p) => order_chars(&p, &chars_of(cutoff)) <= 0,
    }
}


// ---------------------------------------------------------------------------
// Version requirements
// ---------------------------------------------------------------------------

#[derive(PartialEq, Eq, Structural, Clone, Copy)]
pub enum VersionOp {
    Gt,
    Gte,
    Lt,
    Lte,
    Eq,
}

/// An `r-version` requirement: a bare name or version (`4.5`, `release`), or
/// a comparison with a dotted version (`>= 4.1`).
pub enum VersionRequirement {
    Bare(String),
    Comparison { op: VersionOp, version: Vec<u64>, raw: String },
}

/// What a requirement holds, as plain values.
pub enum RequirementSpec {
    Bare(Seq<char>),
    Comparison(VersionOp, Seq<u64>, Seq<char>),
}

impl View for VersionRequirement {
    type V = RequirementSpec;

    open spec fn view(&self) -> RequirementSpec {
        match self {
            VersionRequirement::Bare(s) => RequirementSpec::Bare(s@),
            VersionRequirement::Comparison { op, version, raw } => RequirementSpec::Comparison(
                *op,
                version@,
                raw@,
            ),
        }
    }
}

/// The comparison operator `s` starts with and its length; two-character
/// operators are recognised first.
pub open spec fn requirement_op(s: Seq<char>) -> Option<(VersionOp, int)> {
    if starts_with(s, seq!['>', '=']) {
        Some((VersionOp::Gte, 2))
    } else if starts_with(s, seq!['<', '=']) {
        Some((VersionOp::Lte, 2))
    } else if starts_with(s, seq!['=', '=']) {
        Some((VersionOp::Eq, 2))
    } else if starts_with(s, seq!['>']) {
        Some((VersionOp::Gt, 1))
    } else if starts_with(s, seq!['<']) {
        Some((VersionOp::Lt, 1))
    } else {
        None
    }
}

pub open spec fn unsupported_spec_error(req: Seq<char>) -> Seq<char> {
    "`r-version` has an unsupported version spec `"@ + req + seq!['`']
}

pub open spec fn empty_requirement_error() -> Seq<char> {
    "`r-version` must not be empty"@
}

/// The requirement that `req` spells, or the error that rejects it.
pub open spec fn requirement_of(req: Seq<char>) -> Result<RequirementSpec, Seq<char>> {
    let t = trim(req);
    match requirement_op(t) {
        Some((op, n)) => {
            let raw = trim(t.skip(n));
            match version_parts(raw) {
                Some(p) => Ok(RequirementSpec::Comparison(op, p, raw)),
                None => Err(unsupported_spec_error(t)),
            }
        },
        None => if t.len() == 0 {
            Err(empty_requirement_error())
        } else {
            Ok(RequirementSpec::Bare(t))
        },
    }
}

/// Reads an `r-version` requirement.
pub fn parse_version_requirement(req: &str) -> (r: Result<VersionRequirement, String>)
    ensures
        match r {
            Ok(v) => requirement_of(req@) == Ok::<RequirementSpec, Seq<char>>(v@),
            Err(e) => requirement_of(req@) == Err::<RequirementSpec, Seq<char>>(e@),
        },
{
    let t = trimmed(&chars_of(req));
    let mut op = VersionOp::Eq;
    let mut n: usize = 0;
    let ge = chars_of(">=");
    let le = chars_of("<=");
    let eq = chars_of("==");
    let gt = chars_of(">");
    let lt = chars_of("<");
    proof {
        reveal_strlit(">=");
        reveal_strlit("<=");
        reveal_strlit("==");
        reveal_strlit(">");
        reveal_strlit("<");
    }
    assert(ge@ =~= seq!['>', '=']);
    assert(le@ =~= seq!['<', '=']);
    assert(eq@ =~= seq!['=', '=']);
    assert(gt@ =~= seq!['>']);
    assert(lt@ =~= seq!['<']);
    if has_prefix(&t, &ge) {
        op = VersionOp::Gte;
        n = 2;
    } else if has_prefix(&t, &le) {
        op = VersionOp::Lte;
        n = 2;
    } else if has_prefix(&t, &eq) {
        op = VersionOp::Eq;
        n = 2;
    } else if has_prefix(&t, &gt) {
        op = VersionOp::Gt;
        n = 1;
    } else if has_prefix(&t, &lt) {
        op = VersionOp::Lt;
        n = 1;
    }
    if n > 0 {
        assert(requirement_op(t@) == Some((op, n as int)));
        let rest = slice_vec(&t, n, t.len());
        assert(rest@ =~= t@.skip(n as int));
        let raw = trimmed(&rest);
        let parsed = parse_version_chars(&raw);
        match parsed {
            Some(version) => {
                let rs = string_of(&raw);
                let v = VersionRequirement::Comparison { op, version, raw: rs };
                let r: Result<VersionRequirement, String> = Ok(v);
                return r;
            },
            None => {},
        }
        {
            let mut m = chars_of("`r-version` has an unsupported version spec `");
            extend_chars(&mut m, &t);
            m.push('`');
            assert(m@ =~= unsupported_spec_error(t@));
            return Err(string_of(&m));
        }
    }
    assert(requirement_op(t@) is None);
    if t.len() == 0 {
        return Err(String::from_str("`r-version` must not be empty"));
    }
    Ok(VersionRequirement::Bare(string_of(&t)))
}

/// Whether an order between candidate and required version satisfies `op`.
pub open spec fn op_holds(op: VersionOp, o: int) -> bool {
    match op {
        VersionOp::Gt => o > 0,
        VersionOp::Gte => o >= 0,
        VersionOp::Lt => o < 0,
        VersionOp::Lte => o <= 0,
        VersionOp::Eq => o == 0,
    }
}

/// Whether a candidate with `name`, `version` and `aliases` meets the
/// requirement. A bare requirement matches the name, the version, an alias,
/// or (when it is a version number) any version it is a dotted prefix of. A
/// comparison needs a dotted candidate version; `==` also accepts the name
/// or an alias. With `eq_prefix`, `==` with fewer than three pieces accepts
/// every version that begins with those pieces.
pub open spec fn requirement_matches(
    req: RequirementSpec,
    name: Seq<char>,
    version: Seq<char>,
    aliases: Seq<Seq<char>>,
    eq_prefix: bool,
) -> bool {
    match req {
        RequirementSpec::Bare(r) => {
            ||| name == r
            ||| version == r
            ||| has_text(aliases, r)
            ||| (version_parts(r) is Some && starts_with(version, r.push('.')))
        },
        RequirementSpec::Comparison(op, required, raw) => match version_parts(version) {
            None => false,
            Some(c) => {
                ||| (op == VersionOp::Eq && (name == raw || has_text(aliases, raw)))
                ||| (op == VersionOp::Eq && eq_prefix && required.len() < 3 && starts_with_parts(
                    c,
                    required,
                ))
                ||| (!(op == VersionOp::Eq && eq_prefix && required.len() < 3) && op_holds(
                    op,
                    parts_order(c, required),
                ))
            },
        },
    }
}

/// A comparison requirement matches only candidates whose version is a
/// dotted number, and then exactly as the operator says of the candidate
/// against the required version, piece by piece with missing pieces read
/// as 0: `>` greater, `>=` not smaller, `<` smaller, `<=` not greater.
/// `==` (where it does not compare by prefix) holds of an equal version,
/// or of a candidate whose name or alias is the requirement's text.
pub proof fn lemma_comparison_requirement_matches(
    op: VersionOp,
    required: Seq<u64>,
    raw: Seq<char>,
    name: Seq<char>,
    version: Seq<char>,
    aliases: Seq<Seq<char>>,
    eq_prefix: bool,
)
    ensures
        version_parts(version) is None ==> !requirement_matches(
            RequirementSpec::Comparison(op, required, raw),
            name,
            version,
            aliases,
            eq_prefix,
        ),
        version_parts(version) is Some && op == VersionOp::Gt ==> (requirement_matches(
            RequirementSpec::Comparison(op, required, raw),
            name,
            version,
            aliases,
            eq_prefix,
        ) <==> parts_order(version_parts(version)->Some_0, required) > 0),
        version_parts(version) is Some && op == VersionOp::Gte ==> (requirement_matches(
            RequirementSpec::Comparison(op, required, raw),
            name,
            version,
            aliases,
            eq_prefix,
        ) <==> parts_order(version_parts(version)->Some_0, required) >= 0),
        version_parts(version) is Some && op == VersionOp::Lt ==> (requirement_matches(
            RequirementSpec::Comparison(op, required, raw),
            name,
            version,
            aliases,
            eq_prefix,
        ) <==> parts_order(version_parts(version)->Some_0, required) < 0),
        version_parts(version) is Some && op == VersionOp::Lte ==> (requirement_matches(
            RequirementSpec::Comparison(op, required, raw),
            name,
            version,
            aliases,
            eq_prefix,
        ) <==> parts_order(version_parts(version)->Some_0, required) <= 0),
        version_parts(version) is Some && op == VersionOp::Eq && !(eq_prefix && required.len() < 3)
            ==> (requirement_matches(
            RequirementSpec::Comparison(op, required, raw),
            name,
            version,
            aliases,
            eq_prefix,
        ) <==> (parts_order(version_parts(version)->Some_0, required) == 0 || name == raw
            || has_text(aliases, raw))),
{
}

pub open spec fn starts_with_parts(c: Seq<u64>, p: Seq<u64>) -> bool {
    p.len() <= c.len() && c.take(p.len() as int) == p
}

fn parts_prefix(c: &[u64], p: &[u64]) -> (r: bool)
    ensures
        r == starts_with_parts(c@, p@),
{
    if p.len() > c.len() {
        return false;
    }
    let mut i: usize = 0;
    while i < p.len()
        invariant
            p@.len() <= c@.len(),
            i <= p@.len(),
            forall|j: int| 0 <= j < i ==> c@[j] == p@[j],
        decreases p@.len() - i,
    {
        if c[i] != p[i] {
            assert(c@.take(p@.len() as int)[i as int] == c@[i as int]);
            return false;
        }
        i += 1;
    }
    assert(c@.take(p@.len() as int) =~= p@);
    true
}

fn op_holds_exec(op: VersionOp, o: i8) -> (r: bool)
    ensures
        r == op_holds(op, o as int),
{
    match op {
        VersionOp::Gt => o > 0,
        VersionOp::Gte => o >= 0,
        VersionOp::Lt => o < 0,
        VersionOp::Lte => o <= 0,
        VersionOp::Eq => o == 0,
    }
}

fn str_eq_string(a: &str, b: &String) -> (r: bool)
    ensures
        r == (a@ == b@),
{
    chars_eq(&chars_of(a), &chars_of(b.as_str()))
}

pub(crate) fn requirement_matches_exec(
    req: &VersionRequirement,
    name: &str,
    candidate_version: &str,
    aliases: &[String],
    eq_prefix: bool,
) -> (r: bool)
    ensures
        r == requirement_matches(
            req@,
            name@,
            candidate_version@,
            strings_view(aliases@),
            eq_prefix,
        ),
{
    match req {
        VersionRequirement::Bare(r) => {
            if str_eq_string(name, r) || str_eq_string(candidate_version, r) || contains_string(
                aliases,
                r,
            ) {
                return true;
            }
            let rv = chars_of(r.as_str());
            if parse_version_chars(&rv).is_some() {
                let mut p = rv;
                p.push('.');
                has_prefix(&chars_of(candidate_version), &p)
            } else {
                false
            }
        },
        VersionRequirement::Comparison { op, version: required, raw } => {
            let candidate = match parse_version_chars(&chars_of(candidate_version)) {
                Some(c) => c,
                None => {
                    return false;
                },
            };
            if *op == VersionOp::Eq && (str_eq_string(name, raw) || contains_string(
                aliases,
                raw,
            )) {
                return true;
            }
            if *op == VersionOp::Eq && eq_prefix && required.len() < 3 {
                parts_prefix(&candidate, required)
            } else {
                op_holds_exec(*op, order_version_parts(&candidate, required))
            }
        },
    }
}

impl VersionRequirement {
    /// Whether the installation meets the requirement.
    pub fn matches_installed(&self, installed: &InstalledR) -> (r: bool)
        ensures
            r == requirement_matches(
                self@,
                installed.name@,
                installed.version@,
                strings_view(installed.aliases@),
                false,
            ),
    {
        self.matches_candidate(
            installed.name.as_str(),
            installed.version.as_str(),
            installed.aliases.as_slice(),
        )
    }

    /// Whether a bare requirement names this symbolic (non-numeric) release.
    pub fn matches_requested_symbolic_candidate(&self, version: &AvailableCandidate) -> (r: bool)
        ensures
            r == match self@ {
                RequirementSpec::Bare(req) => !concrete_name(version.name@) && req
                    == version.name@,
                _ => false,
            },
    {
        match self {
            VersionRequirement::Bare(req) => !concrete_rig_name(version.name.as_str()) && *req
                == version.name,
            _ => false,
        }
    }

    /// Whether a bare requirement names this installation or one of its
    /// aliases.
    pub fn matches_requested_installed_candidate(&self, version: &InstalledR) -> (r: bool)
        ensures
            r == match self@ {
                RequirementSpec::Bare(req) => version.name@ == req || has_text(
                    strings_view(version.aliases@),
                    req,
                ),
                _ => false,
            },
    {
        match self {
            VersionRequirement::Bare(req) => version.name == *req || contains_string(
                &version.aliases,
                req,
            ),
            _ => false,
        }
    }

    /// Whether a candidate with this name, version and aliases meets the
    /// requirement (a comparison with `==` compares all pieces).
    pub fn matches_candidate(&self, name: &str, candidate_version: &str, aliases: &[String]) -> (r:
        bool)
        ensures
            r == requirement_matches(
                self@,
                name@,
                candidate_version@,
                strings_view(aliases@),
                false,
            ),
    {
        requirement_matches_exec(self, name, candidate_version, aliases, false)
    }
}


// ---------------------------------------------------------------------------
// Picking the newest
// ---------------------------------------------------------------------------

/// What `Iterator::max_by` with the version order picks among the first `n`
/// versions whose `keep` flag is set: it walks them in order and replaces the
/// current pick by the next one unless the current pick is strictly newer. So
/// among equally new versions the last one wins.
pub open spec fn newest_kept(vs: Seq<Seq<char>>, keep: Seq<bool>, n: int) -> Option<int>
    decreases n,
{
    if n <= 0 {
        None
    } else {
        let prev = newest_kept(vs, keep, n - 1);
        if !keep[n - 1] {
            prev
        } else {
            match prev {
                None => Some(n - 1),
                Some(m) => if versions_order(vs[m], vs[n - 1]) > 0 {
                    Some(m)
                } else {
                    Some(n - 1)
                },
            }
        }
    }
}

/// The pick is one of the kept versions, and there is a pick exactly when
/// some version is kept.
pub proof fn lemma_newest_kept_kept(vs: Seq<Seq<char>>, keep: Seq<bool>, n: int)
    requires
        0 <= n <= keep.len(),
    ensures
        newest_kept(vs, keep, n) is Some <==> exists|j: int| 0 <= j < n && keep[j],
        newest_kept(vs, keep, n) matches Some(m) ==> 0 <= m < n && keep[m],
    decreases n,
{
    if n > 0 {
        lemma_newest_kept_kept(vs, keep, n - 1);
        if !keep[n - 1] {
            if exists|j: int| 0 <= j < n && keep[j] {
                let j = choose|j: int| 0 <= j < n && keep[j];
                assert(j < n - 1);
            }
        }
    }
}

/// Where every kept version is a dotted version number, the pick is a newest
/// one: no kept version is newer.
pub proof fn lemma_newest_kept_is_newest(vs: Seq<Seq<char>>, keep: Seq<bool>, n: int)
    requires
        0 <= n <= keep.len(),
        keep.len() <= vs.len(),
        forall|j: int| 0 <= j < n && keep[j] ==> version_parts(#[trigger] vs[j]) is Some,
    ensures
        newest_kept(vs, keep, n) matches Some(m) ==> forall|j: int|
            0 <= j < n && keep[j] ==> versions_order(#[trigger] vs[j], vs[m]) <= 0,
    decreases n,
{
    if n > 0 {
        lemma_newest_kept_is_newest(vs, keep, n - 1);
        lemma_newest_kept_kept(vs, keep, n - 1);
        if keep[n - 1] {
            match newest_kept(vs, keep, n - 1) {
                None => {
                    lemma_versions_order_reflexive(vs[n - 1]);
                },
                Some(p) => {
                    let a = version_parts(vs[p]).unwrap();
                    let b = version_parts(vs[n - 1]).unwrap();
                    if versions_order(vs[p], vs[n - 1]) > 0 {
                        lemma_parts_order_antisymmetric(a, b);
                    } else {
                        lemma_versions_order_reflexive(vs[n - 1]);
                        assert forall|j: int|
                            0 <= j < n && keep[j] implies versions_order(
                            #[trigger] vs[j],
                            vs[n - 1],
                        ) <= 0 by {
                            if j < n - 1 {
                                let c = version_parts(vs[j]).unwrap();
                                lemma_parts_order_transitive(c, a, b);
                            }
                        }
                    }
                },
            }
        }
    }
}

/// The versions of a list of installations.
pub open spec fn installed_versions(v: Seq<InstalledR>) -> Seq<Seq<char>> {
    v.map_values(|i: InstalledR| i.version@)
}

/// The versions of a list of candidates.
pub open spec fn candidate_versions(v: Seq<AvailableCandidate>) -> Seq<Seq<char>> {
    v.map_values(|c: AvailableCandidate| c.version@)
}

/// Steps the pick of `newest_kept` over installation `i`.
pub(crate) fn step_newest_installed(
    items: &[InstalledR],
    keep: Ghost<Seq<bool>>,
    best: Option<usize>,
    i: usize,
    kept: bool,
) -> (r: Option<usize>)
    requires
        i < items@.len(),
        keep@.len() == items@.len(),
        kept == keep@[i as int],
        best == match newest_kept(installed_versions(items@), keep@, i as int) {
            Some(m) => Some(m as usize),
            None => None::<usize>,
        },
        newest_kept(installed_versions(items@), keep@, i as int) matches Some(m) ==> 0 <= m < i,
    ensures
        r == match newest_kept(installed_versions(items@), keep@, i + 1) {
            Some(m) => Some(m as usize),
            None => None::<usize>,
        },
{
    if !kept {
        return best;
    }
    match best {
        None => Some(i),
        Some(m) => {
            let o = order_versions(
                &chars_of(items[m].version.as_str()),
                &chars_of(items[i].version.as_str()),
            );
            if o > 0 {
                Some(m)
            } else {
                Some(i)
            }
        },
    }
}

/// Steps the pick of `newest_kept` over candidate `i`.
pub(crate) fn step_newest_candidate(
    items: &[AvailableCandidate],
    keep: Ghost<Seq<bool>>,
    best: Option<usize>,
    i: usize,
    kept: bool,
) -> (r: Option<usize>)
    requires
        i < items@.len(),
        keep@.len() == items@.len(),
        kept == keep@[i as int],
        best == match newest_kept(candidate_versions(items@), keep@, i as int) {
            Some(m) => Some(m as usize),
            None => None::<usize>,
        },
        newest_kept(candidate_versions(items@), keep@, i as int) matches Some(m) ==> 0 <= m < i,
    ensures
        r == match newest_kept(candidate_versions(items@), keep@, i + 1) {
            Some(m) => Some(m as usize),
            None => None::<usize>,
        },
{
    if !kept {
        return best;
    }
    match best {
        None => Some(i),
        Some(m) => {
            let o = order_versions(
                &chars_of(items[m].version.as_str()),
                &chars_of(items[i].version.as_str()),
            );
            if o > 0 {
                Some(m)
            } else {
                Some(i)
            }
        },
    }
}


// ---------------------------------------------------------------------------
// Three-way comparisons
// ---------------------------------------------------------------------------

pub open spec fn ordering_from(x: int) -> Ordering {
    if x < 0 {
        Ordering::Less
    } else if x > 0 {
        Ordering::Greater
    } else {
        Ordering::Equal
    }
}

fn ordering_of(x: i8) -> (r: Ordering)
    ensures
        x < 0 ==> r == Ordering::Less,
        x > 0 ==> r == Ordering::Greater,
        x == 0 ==> r == Ordering::Equal,
{
    if x < 0 {
        Ordering::Less
    } else if x > 0 {
        Ordering::Greater
    } else {
        Ordering::Equal
    }
}

/// Compares two version numbers piece by piece, reading missing pieces as 0.
pub fn compare_version_parts(a: &[u64], b: &[u64]) -> (r: Ordering)
    ensures
        r == ordering_from(parts_order(a@, b@)),
{
    ordering_of(order_version_parts(a, b))
}

/// Compares two versions numerically when both are dotted version numbers,
/// else as text.
pub fn compare_versions(a: &str, b: &str) -> (r: Ordering)
    ensures
        r == ordering_from(versions_order(a@, b@)),
{
    ordering_of(order_versions(&chars_of(a), &chars_of(b)))
}

// ---------------------------------------------------------------------------
// Release dates of a list of releases
// ---------------------------------------------------------------------------

/// The date of release `i` when it is a concrete release with a date.
pub open spec fn stable_date(v: Seq<AvailableR>, i: int) -> Option<Seq<char>> {
    let c = AvailableCandidate { name: v[i].name, version: v[i].version, date: v[i].date };
    if stable_candidate(c) {
        opt_view(v[i].date)
    } else {
        None
    }
}

/// Whether `d` is the date of a concrete release and no such date is later.
pub open spec fn is_latest_date(v: Seq<AvailableR>, d: Seq<char>) -> bool {
    &&& exists|i: int| 0 <= i < v.len() && stable_date(v, i) == Some(d)
    &&& forall|i: int|
        0 <= i < v.len() && stable_date(v, i) is Some ==> str_order(stable_date(v, i).unwrap(), d)
            <= 0
}

/// The latest date among the concrete releases, if any has a date.
pub open spec fn latest_stable_date(v: Seq<AvailableR>) -> Option<Seq<char>> {
    if exists|i: int| 0 <= i < v.len() && stable_date(v, i) is Some {
        Some(choose|d: Seq<char>| is_latest_date(v, d))
    } else {
        None
    }
}

/// There is only one latest date.
pub proof fn lemma_latest_date_unique(v: Seq<AvailableR>, d: Seq<char>)
    requires
        is_latest_date(v, d),
    ensures
        latest_stable_date(v) == Some(d),
{
    let i = choose|i: int| 0 <= i < v.len() && stable_date(v, i) == Some(d);
    assert(stable_date(v, i) is Some);
    let e = choose|e: Seq<char>| is_latest_date(v, e);
    assert(is_latest_date(v, e));
    let k = choose|k: int| 0 <= k < v.len() && stable_date(v, k) == Some(e);
    assert(str_order(d, e) <= 0);
    assert(str_order(e, d) <= 0);
    lemma_str_order_antisymmetric(d, e);
}

/// The latest date among the concrete releases (dates compared as text), or
/// `None` when no concrete release has a date.
pub fn latest_available_release_date(versions: &[AvailableR]) -> (r: Option<String>)
    ensures
        opt_view(r) == latest_stable_date(versions@),
        r is None <==> forall|i: int| 0 <= i < versions@.len() ==> stable_date(versions@, i) is None,
        r matches Some(d) ==> {
            &&& exists|i: int| 0 <= i < versions@.len() && stable_date(versions@, i) == Some(d@)
            &&& forall|i: int|
                0 <= i < versions@.len() && stable_date(versions@, i) is Some ==> str_order(
                    stable_date(versions@, i).unwrap(),
                    d@,
                ) <= 0
        },
{
    let mut best: Option<Vec<char>> = None;
    let mut i: usize = 0;
    while i < versions.len()
        invariant
            i <= versions@.len(),
            best is None <==> forall|j: int| 0 <= j < i ==> stable_date(versions@, j) is None,
            best matches Some(d) ==> {
                &&& exists|j: int| 0 <= j < i && stable_date(versions@, j) == Some(d@)
                &&& forall|j: int|
                    0 <= j < i && stable_date(versions@, j) is Some ==> str_order(
                        stable_date(versions@, j).unwrap(),
                        d@,
                    ) <= 0
            },
        decreases versions@.len() - i,
    {
        let c = AvailableCandidate::from(&versions[i]);
        if stable_release_candidate(&c) {
            match &versions[i].date {
                Some(date) => {
                    let dd = chars_of(date.as_str());
                    assert(stable_date(versions@, i as int) == Some(dd@));
                    let replace = match &best {
                        None => true,
                        Some(b) => order_chars(b, &dd) <= 0,
                    };
                    if replace {
                        proof {
                            lemma_str_order_reflexive(dd@);
                            if let Some(b) = best {
                                assert forall|j: int|
                                    0 <= j < i + 1 && stable_date(versions@, j) is Some implies str_order(
                                    stable_date(versions@, j).unwrap(),
                                    dd@,
                                ) <= 0 by {
                                    if j < i {
                                        lemma_str_order_transitive(
                                            stable_date(versions@, j).unwrap(),
                                            b@,
                                            dd@,
                                        );
                                    }
                                }
                            }
                        }
                        best = Some(dd);
                    } else {
                        proof {
                            let b = best.unwrap();
                            lemma_str_order_antisymmetric(b@, dd@);
                        }
                    }
                },
                None => {},
            }
        }
        i += 1;
    }
    match best {
        Some(b) => {
            proof {
                lemma_latest_date_unique(versions@, b@);
            }
            Some(string_of(&b))
        },
        None => None,
    }
}


/// The file name of Rscript next to an R binary: `Rscript.exe` on
/// Windows, `Rscript` elsewhere.
pub fn rscript_file_name(platform: crate::paths::Platform) -> (r: &'static str)
    ensures
        r@ == if platform == crate::paths::Platform::Windows {
            "Rscript.exe"@
        } else {
            "Rscript"@
        },
{
    match platform {
        crate::paths::Platform::Windows => "Rscript.exe",
        _ => "Rscript",
    }
}

/// The message for an installation whose Rscript is missing next to the
/// R binary rig reported.
pub fn missing_rscript_error(version: &str, binary: &str, rscript: &str) -> (r: String)
    ensures
        r@ == "rig reported R "@ + version@ + " at `"@ + binary@ + "`, but `"@ + rscript@
            + "` does not exist"@,
{
    let mut v = chars_of("rig reported R ");
    extend_chars(&mut v, &chars_of(version));
    extend_chars(&mut v, &chars_of(" at `"));
    extend_chars(&mut v, &chars_of(binary));
    extend_chars(&mut v, &chars_of("`, but `"));
    extend_chars(&mut v, &chars_of(rscript));
    extend_chars(&mut v, &chars_of("` does not exist"));
    string_of(&v)
}

} // verus!
