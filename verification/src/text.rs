//! Character-level text helpers shared by the parsers of this crate.
//!
//! Text is handled as `Vec<char>` inside the library; the views of `str`
//! and `String` are `Seq<char>`, so every contract speaks of character
//! sequences.
use vstd::prelude::*;

use crate::rig::model::{
    lemma_str_order_antisymmetric, lemma_str_order_reflexive, lemma_str_order_transitive,
    order_chars, str_order,
};

verus! {

pub open spec fn is_digit(c: char) -> bool {
    '0' <= c && c <= '9'
}

pub open spec fn is_alpha(c: char) -> bool {
    ('a' <= c && c <= 'z') || ('A' <= c && c <= 'Z')
}

pub open spec fn is_alnum(c: char) -> bool {
    is_digit(c) || is_alpha(c)
}

/// The characters that carry Unicode's `White_Space` property, which is what
/// `char::is_whitespace` and `str::trim` test.
pub open spec fn is_white(c: char) -> bool {
    ||| c == '\t'
    ||| c == '\n'
    ||| c == '\u{0B}'
    ||| c == '\u{0C}'
    ||| c == '\r'
    ||| c == ' '
    ||| c == '\u{85}'
    ||| c == '\u{A0}'
    ||| c == '\u{1680}'
    ||| ('\u{2000}' <= c && c <= '\u{200A}')
    ||| c == '\u{2028}'
    ||| c == '\u{2029}'
    ||| c == '\u{202F}'
    ||| c == '\u{205F}'
    ||| c == '\u{3000}'
}

/// ASCII lowercase of one character.
pub open spec fn lower_char(c: char) -> char {
    if 'A' <= c && c <= 'Z' {
        ((c as u32) + 32) as char
    } else {
        c
    }
}

pub open spec fn lower(s: Seq<char>) -> Seq<char> {
    s.map_values(|c: char| lower_char(c))
}

pub open spec fn starts_with(s: Seq<char>, p: Seq<char>) -> bool {
    p.len() <= s.len() && s.subrange(0, p.len() as int) == p
}

pub open spec fn contains_char(s: Seq<char>, c: char) -> bool {
    exists|i: int| 0 <= i < s.len() && s[i] == c
}

/// Number of leading characters of `s` that satisfy whitespace.
pub open spec fn lead_white(s: Seq<char>) -> nat
    decreases s.len(),
{
    if s.len() > 0 && is_white(s[0]) {
        1 + lead_white(s.drop_first())
    } else {
        0
    }
}

/// Number of trailing characters of `s` that are whitespace.
pub open spec fn trail_white(s: Seq<char>) -> nat
    decreases s.len(),
{
    if s.len() > 0 && is_white(s.last()) {
        1 + trail_white(s.drop_last())
    } else {
        0
    }
}

pub open spec fn trim_start(s: Seq<char>) -> Seq<char> {
    s.skip(lead_white(s) as int)
}

pub open spec fn trim_end(s: Seq<char>) -> Seq<char> {
    s.take(s.len() - trail_white(s))
}

pub open spec fn trim(s: Seq<char>) -> Seq<char> {
    trim_end(trim_start(s))
}

/// `s` is empty once whitespace is trimmed.
pub open spec fn is_blank(s: Seq<char>) -> bool {
    forall|i: int| 0 <= i < s.len() ==> is_white(#[trigger] s[i])
}

pub proof fn lemma_lead_white_bound(s: Seq<char>)
    ensures
        lead_white(s) <= s.len(),
        forall|i: int| 0 <= i < lead_white(s) ==> is_white(#[trigger] s[i]),
        lead_white(s) < s.len() ==> !is_white(s[lead_white(s) as int]),
    decreases s.len(),
{
    if s.len() > 0 && is_white(s[0]) {
        lemma_lead_white_bound(s.drop_first());
        assert forall|i: int| 0 <= i < lead_white(s) implies is_white(#[trigger] s[i]) by {
            if i > 0 {
                assert(s[i] == s.drop_first()[i - 1]);
            }
        }
    }
}

pub proof fn lemma_trail_white_bound(s: Seq<char>)
    ensures
        trail_white(s) <= s.len(),
        forall|i: int| s.len() - trail_white(s) <= i < s.len() ==> is_white(#[trigger] s[i]),
        trail_white(s) < s.len() ==> !is_white(s[s.len() - trail_white(s) - 1]),
    decreases s.len(),
{
    if s.len() > 0 && is_white(s.last()) {
        lemma_trail_white_bound(s.drop_last());
        assert forall|i: int| s.len() - trail_white(s) <= i < s.len() implies is_white(
            #[trigger] s[i],
        ) by {
            if i < s.len() - 1 {
                assert(s[i] == s.drop_last()[i]);
            }
        }
    }
}

pub fn char_is_digit(c: char) -> (r: bool)
    ensures
        r == is_digit(c),
{
    '0' <= c && c <= '9'
}

pub fn char_is_alpha(c: char) -> (r: bool)
    ensures
        r == is_alpha(c),
{
    ('a' <= c && c <= 'z') || ('A' <= c && c <= 'Z')
}

pub fn char_is_alnum(c: char) -> (r: bool)
    ensures
        r == is_alnum(c),
{
    char_is_digit(c) || char_is_alpha(c)
}

pub fn char_is_white(c: char) -> (r: bool)
    ensures
        r == is_white(c),
{
    c == '\t' || c == '\n' || c == '\u{0B}' || c == '\u{0C}' || c == '\r' || c == ' ' || c
        == '\u{85}' || c == '\u{A0}' || c == '\u{1680}' || ('\u{2000}' <= c && c <= '\u{200A}')
        || c == '\u{2028}' || c == '\u{2029}' || c == '\u{202F}' || c == '\u{205F}' || c
        == '\u{3000}'
}

pub fn char_lower(c: char) -> (r: char)
    ensures
        r == lower_char(c),
{
    if 'A' <= c && c <= 'Z' {
        let n: u32 = c as u32;
        let b: u8 = n as u8;
        ((b + 32) as char)
    } else {
        c
    }
}

/// The characters of `s`, in order.
pub fn chars_of(s: &str) -> (v: Vec<char>)
    ensures
        v@ == s@,
{
    let mut v: Vec<char> = Vec::new();
    for c in it: s.chars()
        invariant
            v@ == it.seq().take(it.index() as int),
            it.seq() == s@,
    {
        v.push(c);
    }
    v
}

/// Appends `c` to `s`.
#[verifier::external_body]
fn push_char(s: &mut String, c: char)
    ensures
        final(s)@ == old(s)@.push(c),
{
    s.push(c);
}

/// The string holding the characters of `v`.
pub fn string_of(v: &[char]) -> (s: String)
    ensures
        s@ == v@,
{
    let mut s = String::new();
    let mut i: usize = 0;
    while i < v.len()
        invariant
            i <= v@.len(),
            s@ == v@.take(i as int),
        decreases v@.len() - i,
    {
        push_char(&mut s, v[i]);
        assert(v@.take(i as int).push(v@[i as int]) =~= v@.take(i + 1));
        i += 1;
    }
    assert(v@.take(v@.len() as int) =~= v@);
    s
}

/// A copy of the characters `v[from..to]`.
pub fn slice_vec(v: &[char], from: usize, to: usize) -> (r: Vec<char>)
    requires
        from <= to <= v@.len(),
    ensures
        r@ == v@.subrange(from as int, to as int),
{
    let mut r: Vec<char> = Vec::new();
    let mut i = from;
    while i < to
        invariant
            from <= i <= to <= v@.len(),
            r@ == v@.subrange(from as int, i as int),
        decreases to - i,
    {
        r.push(v[i]);
        assert(v@.subrange(from as int, i as int).push(v@[i as int]) =~= v@.subrange(
            from as int,
            i + 1,
        ));
        i += 1;
    }
    r
}

/// Whether the two character sequences are equal.
pub fn chars_eq(a: &[char], b: &[char]) -> (r: bool)
    ensures
        r == (a@ == b@),
{
    if a.len() != b.len() {
        return false;
    }
    let mut i: usize = 0;
    while i < a.len()
        invariant
            a@.len() == b@.len(),
            i <= a@.len(),
            forall|j: int| 0 <= j < i ==> a@[j] == b@[j],
        decreases a@.len() - i,
    {
        if a[i] != b[i] {
            return false;
        }
        i += 1;
    }
    assert(a@ =~= b@);
    true
}

/// Whether `s` begins with `p`.
pub fn has_prefix(s: &[char], p: &[char]) -> (r: bool)
    ensures
        r == starts_with(s@, p@),
{
    if p.len() > s.len() {
        return false;
    }
    let mut i: usize = 0;
    while i < p.len()
        invariant
            p@.len() <= s@.len(),
            i <= p@.len(),
            forall|j: int| 0 <= j < i ==> s@[j] == p@[j],
        decreases p@.len() - i,
    {
        if s[i] != p[i] {
            assert(s@.subrange(0, p@.len() as int)[i as int] == s@[i as int]);
            return false;
        }
        i += 1;
    }
    assert(s@.subrange(0, p@.len() as int) =~= p@);
    true
}

/// Whether `c` occurs in `s`.
pub fn has_char(s: &[char], c: char) -> (r: bool)
    ensures
        r == contains_char(s@, c),
{
    let mut i: usize = 0;
    while i < s.len()
        invariant
            i <= s@.len(),
            forall|j: int| 0 <= j < i ==> s@[j] != c,
        decreases s@.len() - i,
    {
        if s[i] == c {
            return true;
        }
        i += 1;
    }
    false
}

/// Index of the first non-whitespace character (or the length).
pub fn lead_white_len(s: &[char]) -> (n: usize)
    ensures
        n == lead_white(s@),
{
    proof {
        lemma_lead_white_bound(s@);
    }
    let mut i: usize = 0;
    assert(s@.skip(0) =~= s@);
    while i < s.len() && char_is_white(s[i])
        invariant
            i <= s@.len(),
            forall|j: int| 0 <= j < i ==> is_white(#[trigger] s@[j]),
            lead_white(s@) == i + lead_white(s@.skip(i as int)),
        decreases s@.len() - i,
    {
        assert(s@.skip(i as int).drop_first() =~= s@.skip(i + 1));
        i += 1;
    }
    i
}

/// Number of trailing whitespace characters.
pub fn trail_white_len(s: &[char]) -> (n: usize)
    ensures
        n == trail_white(s@),
{
    let mut k: usize = s.len();
    assert(s@.take(s@.len() as int) =~= s@);
    while k > 0 && char_is_white(s[k - 1])
        invariant
            k <= s@.len(),
            trail_white(s@) == (s@.len() - k) + trail_white(s@.take(k as int)),
        decreases k,
    {
        assert(s@.take(k as int).drop_last() =~= s@.take(k - 1));
        k -= 1;
    }
    (s.len() - k) as usize
}

/// `s` with leading and trailing whitespace removed.
pub fn trimmed(s: &[char]) -> (r: Vec<char>)
    ensures
        r@ == trim(s@),
{
    let a = lead_white_len(s);
    proof {
        lemma_lead_white_bound(s@);
    }
    let t = slice_vec(s, a, s.len());
    assert(t@ =~= trim_start(s@));
    let b = trail_white_len(&t);
    proof {
        lemma_trail_white_bound(t@);
    }
    let r = slice_vec(&t, 0, t.len() - b);
    assert(r@ =~= trim(s@));
    r
}

/// `s` with leading whitespace removed.
pub fn trimmed_start(s: &[char]) -> (r: Vec<char>)
    ensures
        r@ == trim_start(s@),
{
    let a = lead_white_len(s);
    proof {
        lemma_lead_white_bound(s@);
    }
    let t = slice_vec(s, a, s.len());
    assert(t@ =~= trim_start(s@));
    t
}

/// `s` with trailing whitespace removed.
pub fn trimmed_end(s: &[char]) -> (r: Vec<char>)
    ensures
        r@ == trim_end(s@),
{
    let b = trail_white_len(s);
    proof {
        lemma_trail_white_bound(s@);
    }
    slice_vec(s, 0, s.len() - b)
}

/// Whether `s` holds only whitespace.
pub fn all_white(s: &[char]) -> (r: bool)
    ensures
        r == is_blank(s@),
{
    let mut i: usize = 0;
    while i < s.len()
        invariant
            i <= s@.len(),
            forall|j: int| 0 <= j < i ==> is_white(#[trigger] s@[j]),
        decreases s@.len() - i,
    {
        if !char_is_white(s[i]) {
            return false;
        }
        i += 1;
    }
    true
}

/// ASCII lowercase of `s`.
pub fn lowered(s: &[char]) -> (r: Vec<char>)
    ensures
        r@ == lower(s@),
{
    let mut r: Vec<char> = Vec::new();
    let mut i: usize = 0;
    while i < s.len()
        invariant
            i <= s@.len(),
            r@ == lower(s@.take(i as int)),
        decreases s@.len() - i,
    {
        r.push(char_lower(s[i]));
        assert(lower(s@.take(i as int)).push(lower_char(s@[i as int])) =~= lower(
            s@.take(i + 1),
        ));
        i += 1;
    }
    assert(s@.take(s@.len() as int) =~= s@);
    r
}

/// Appends the characters of `b` to `a`.
pub fn extend_chars(a: &mut Vec<char>, b: &[char])
    ensures
        final(a)@ == old(a)@ + b@,
{
    let mut i: usize = 0;
    while i < b.len()
        invariant
            i <= b@.len(),
            a@ == old(a)@ + b@.take(i as int),
        decreases b@.len() - i,
    {
        a.push(b[i]);
        assert(old(a)@ + b@.take(i as int) + seq![b@[i as int]] =~= old(a)@ + b@.take(i + 1));
        i += 1;
    }
    assert(b@.take(b@.len() as int) =~= b@);
}


/// The pieces of `s` between occurrences of `c`, as `str::split(c)` yields
/// them: always at least one piece, empty pieces kept.
pub open spec fn split_on(s: Seq<char>, c: char) -> Seq<Seq<char>>
    decreases s.len(),
{
    if s.len() == 0 {
        seq![Seq::<char>::empty()]
    } else {
        let rest = split_on(s.drop_last(), c);
        if s.last() == c {
            rest.push(Seq::<char>::empty())
        } else {
            rest.update(rest.len() - 1, rest.last().push(s.last()))
        }
    }
}

pub proof fn lemma_split_on_nonempty(s: Seq<char>, c: char)
    ensures
        split_on(s, c).len() >= 1,
    decreases s.len(),
{
    if s.len() > 0 {
        lemma_split_on_nonempty(s.drop_last(), c);
    }
}

/// Text without `c` is a single piece.
pub proof fn lemma_split_on_absent(s: Seq<char>, c: char)
    requires
        !contains_char(s, c),
    ensures
        split_on(s, c) == seq![s],
    decreases s.len(),
{
    if s.len() > 0 {
        let d = s.drop_last();
        assert(!contains_char(d, c)) by {
            if contains_char(d, c) {
                let i = choose|i: int| 0 <= i < d.len() && d[i] == c;
                assert(s[i] == c);
            }
        }
        lemma_split_on_absent(d, c);
        assert(s.last() != c) by {
            assert(s[s.len() - 1] == s.last());
        }
        assert(d.push(s.last()) =~= s);
        let rest = split_on(d, c);
        assert(rest.update(rest.len() - 1, rest.last().push(s.last())) =~= seq![s]);
    } else {
        assert(s =~= Seq::<char>::empty());
    }
}

/// `s` split at every `c`.
pub fn split_chars(s: &[char], c: char) -> (r: Vec<Vec<char>>)
    ensures
        r@.len() == split_on(s@, c).len(),
        forall|i: int| 0 <= i < r@.len() ==> #[trigger] r@[i]@ == split_on(s@, c)[i],
{
    let mut done: Vec<Vec<char>> = Vec::new();
    let mut cur: Vec<char> = Vec::new();
    let mut i: usize = 0;
    assert(s@.take(0) =~= Seq::<char>::empty());
    while i < s.len()
        invariant
            i <= s@.len(),
            split_on(s@.take(i as int), c).len() == done@.len() + 1,
            forall|j: int| 0 <= j < done@.len() ==> #[trigger] done@[j]@ == split_on(
                s@.take(i as int),
                c,
            )[j],
            cur@ == split_on(s@.take(i as int), c).last(),
        decreases s@.len() - i,
    {
        let ghost prev = s@.take(i as int);
        assert(s@.take(i + 1).drop_last() =~= prev);
        proof {
            lemma_split_on_nonempty(prev, c);
        }
        if s[i] == c {
            done.push(cur);
            cur = Vec::new();
        } else {
            cur.push(s[i]);
        }
        i += 1;
    }
    assert(s@.take(s@.len() as int) =~= s@);
    done.push(cur);
    done
}

/// The number written by the decimal digits `s` (no sign, any length).
pub open spec fn digits_value(s: Seq<char>) -> nat
    decreases s.len(),
{
    if s.len() == 0 {
        0
    } else {
        digits_value(s.drop_last()) * 10 + ((s.last() as u32) - ('0' as u32)) as nat
    }
}

pub open spec fn all_digits(s: Seq<char>) -> bool {
    forall|i: int| 0 <= i < s.len() ==> is_digit(#[trigger] s[i])
}

/// What `str::parse::<u64>` accepts without a sign: one or more ASCII digits
/// whose value fits in 64 bits.
pub open spec fn parses_u64(s: Seq<char>) -> bool {
    s.len() > 0 && all_digits(s) && digits_value(s) <= u64::MAX
}

/// The value of the digits `s`, or `None` where `s` is empty, holds a
/// non-digit or overflows 64 bits.
pub fn parse_u64_digits(s: &[char]) -> (r: Option<u64>)
    ensures
        r is Some <==> parses_u64(s@),
        r matches Some(v) ==> v as nat == digits_value(s@),
{
    if s.len() == 0 {
        return None;
    }
    let mut v: u64 = 0;
    let mut i: usize = 0;
    while i < s.len()
        invariant
            i <= s@.len(),
            all_digits(s@.take(i as int)),
            v as nat == digits_value(s@.take(i as int)),
        decreases s@.len() - i,
    {
        let c = s[i];
        assert(s@.take(i + 1).drop_last() =~= s@.take(i as int));
        if !char_is_digit(c) {
            assert(!all_digits(s@));
            return None;
        }
        let d: u64 = ((c as u32) - ('0' as u32)) as u64;
        if v > (u64::MAX - d) / 10 {
            proof {
                assert(digits_value(s@.take(i + 1)) > u64::MAX);
                lemma_digits_prefix_bound(s@, i + 1);
            }
            return None;
        }
        v = v * 10 + d;
        i += 1;
    }
    assert(s@.take(s@.len() as int) =~= s@);
    Some(v)
}

/// A prefix of digits never has a larger value than the whole.
pub proof fn lemma_digits_prefix_bound(s: Seq<char>, k: int)
    requires
        0 <= k <= s.len(),
        all_digits(s.take(k)),
    ensures
        all_digits(s) ==> digits_value(s.take(k)) <= digits_value(s),
    decreases s.len() - k,
{
    if k < s.len() && all_digits(s) {
        assert(s.take(k + 1).drop_last() =~= s.take(k));
        lemma_digits_prefix_bound(s, k + 1);
    } else if k == s.len() {
        assert(s.take(k) =~= s);
    }
}

/// The decimal digits of `n`, as `format!("{n}")` writes them.
pub open spec fn decimal(n: nat) -> Seq<char>
    decreases n,
{
    if n < 10 {
        seq![(n + 48) as char]
    } else {
        decimal(n / 10).push(((n % 10) + 48) as char)
    }
}

/// The decimal representation of `n`.
pub fn decimal_chars(n: usize) -> (r: Vec<char>)
    ensures
        r@ == decimal(n as nat),
    decreases n,
{
    if n < 10 {
        let b: u8 = (n as u8) + 48;
        let mut r = Vec::new();
        r.push(b as char);
        r
    } else {
        let mut r = decimal_chars(n / 10);
        let b: u8 = ((n % 10) as u8) + 48;
        r.push(b as char);
        r
    }
}


/// The views of a list of strings.
pub open spec fn views(v: Seq<String>) -> Seq<Seq<char>> {
    v.map_values(|s: String| s@)
}

/// Whether `a` is the text `lit`.
pub fn eq_lit(a: &[char], lit: &str) -> (r: bool)
    ensures
        r == (a@ == lit@),
{
    chars_eq(a, &chars_of(lit))
}

/// Whether `a` starts with the text `lit`.
pub fn starts_lit(a: &[char], lit: &str) -> (r: bool)
    ensures
        r == starts_with(a@, lit@),
{
    has_prefix(a, &chars_of(lit))
}

/// `a` without the leading text `lit`, when it starts with it.
pub fn strip_lit(a: &[char], lit: &str) -> (r: Option<Vec<char>>)
    ensures
        r is Some <==> starts_with(a@, lit@),
        r matches Some(rest) ==> rest@ == a@.skip(lit@.len() as int),
{
    let l = chars_of(lit);
    if has_prefix(a, &l) {
        Some(slice_vec(a, l.len(), a.len()))
    } else {
        None
    }
}

/// The characters of each string.
pub fn chars_of_all(v: &[String]) -> (r: Vec<Vec<char>>)
    ensures
        r@.len() == v@.len(),
        forall|i: int| 0 <= i < v@.len() ==> #[trigger] r@[i]@ == v@[i]@,
{
    let mut r: Vec<Vec<char>> = Vec::new();
    let mut i: usize = 0;
    while i < v.len()
        invariant
            i <= v@.len(),
            r@.len() == i,
            forall|j: int| 0 <= j < i ==> #[trigger] r@[j]@ == v@[j]@,
        decreases v@.len() - i,
    {
        r.push(chars_of(v[i].as_str()));
        i += 1;
    }
    r
}

/// The strings of each character list.
pub fn strings_of_all(v: &[Vec<char>]) -> (r: Vec<String>)
    ensures
        r@.len() == v@.len(),
        forall|i: int| 0 <= i < v@.len() ==> #[trigger] r@[i]@ == v@[i]@,
{
    let mut r: Vec<String> = Vec::new();
    let mut i: usize = 0;
    while i < v.len()
        invariant
            i <= v@.len(),
            r@.len() == i,
            forall|j: int| 0 <= j < i ==> #[trigger] r@[j]@ == v@[j]@,
        decreases v@.len() - i,
    {
        r.push(string_of(&v[i]));
        i += 1;
    }
    r
}

/// `x` placed before the first element of `s` that it does not sort after.
pub open spec fn insert_sorted(x: Seq<char>, s: Seq<Seq<char>>) -> Seq<Seq<char>>
    decreases s.len(),
{
    if s.len() == 0 {
        seq![x]
    } else if str_order(x, s[0]) <= 0 {
        seq![x] + s
    } else {
        seq![s[0]] + insert_sorted(x, s.drop_first())
    }
}

/// The texts `s` in ascending character order, as `sort` on a list of
/// strings leaves them.
pub open spec fn sorted_texts(s: Seq<Seq<char>>) -> Seq<Seq<char>>
    decreases s.len(),
{
    if s.len() == 0 {
        Seq::empty()
    } else {
        insert_sorted(s.last(), sorted_texts(s.drop_last()))
    }
}

proof fn lemma_insert_at(x: Seq<char>, s: Seq<Seq<char>>, j: int)
    requires
        0 <= j <= s.len(),
        forall|k: int| 0 <= k < j ==> str_order(x, #[trigger] s[k]) > 0,
        j < s.len() ==> str_order(x, s[j]) <= 0,
    ensures
        insert_sorted(x, s) == s.take(j) + seq![x] + s.skip(j),
    decreases s.len(),
{
    if s.len() == 0 {
        assert(s.take(j) + seq![x] + s.skip(j) =~= seq![x]);
    } else if j == 0 {
        assert(s.take(0) + seq![x] + s.skip(0) =~= seq![x] + s);
    } else {
        let t = s.drop_first();
        assert forall|k: int| 0 <= k < j - 1 implies str_order(x, #[trigger] t[k]) > 0 by {
            assert(t[k] == s[k + 1]);
        }
        if j < s.len() {
            assert(t[j - 1] == s[j]);
        }
        lemma_insert_at(x, t, j - 1);
        assert(seq![s[0]] + (t.take(j - 1) + seq![x] + t.skip(j - 1)) =~= s.take(j) + seq![x]
            + s.skip(j));
    }
}

/// A copy of `v` sorted in ascending order.
pub fn sort_texts(v: &[String]) -> (r: Vec<String>)
    ensures
        views(r@) == sorted_texts(views(v@)),
{
    let mut out: Vec<String> = Vec::new();
    let mut i: usize = 0;
    while i < v.len()
        invariant
            i <= v@.len(),
            views(out@) == sorted_texts(views(v@.take(i as int))),
        decreases v@.len() - i,
    {
        let x = chars_of(v[i].as_str());
        let mut j: usize = 0;
        while j < out.len()
            invariant
                j <= out@.len(),
                x@ == v@[i as int]@,
                forall|k: int| 0 <= k < j ==> str_order(x@, #[trigger] views(out@)[k]) > 0,
            ensures
                j <= out@.len(),
                forall|k: int| 0 <= k < j ==> str_order(x@, #[trigger] views(out@)[k]) > 0,
                j < out@.len() ==> str_order(x@, views(out@)[j as int]) <= 0,
            decreases out@.len() - j,
        {
            let y = chars_of(out[j].as_str());
            if order_chars(x.as_slice(), y.as_slice()) <= 0 {
                break;
            }
            j += 1;
        }
        let ghost old_out = views(out@);
        proof {
            lemma_insert_at(x@, old_out, j as int);
            assert(views(v@.take(i + 1)).drop_last() =~= views(v@.take(i as int)));
            assert(views(v@.take(i + 1)).last() == x@);
        }
        out.insert(j, v[i].clone());
        assert(views(out@) =~= old_out.take(j as int) + seq![x@] + old_out.skip(j as int));
        i += 1;
    }
    assert(v@.take(v@.len() as int) =~= v@);
    out
}

/// An owned copy of `lit`.
pub fn lit(s: &str) -> (r: String)
    ensures
        r@ == s@,
{
    String::from_str(s)
}

/// Appends the characters of `s` to `v`.
pub fn append_str(v: &mut Vec<char>, s: &str)
    ensures
        final(v)@ == old(v)@ + s@,
{
    let c = chars_of(s);
    extend_chars(v, c.as_slice());
}

/// The number of leading ASCII digits of `s`.
pub open spec fn digit_run(s: Seq<char>) -> nat
    decreases s.len(),
{
    if s.len() == 0 || !is_digit(s[0]) {
        0
    } else {
        1 + digit_run(s.drop_first())
    }
}

/// `digit_run` is the first index that is not a digit.
pub proof fn lemma_digit_run_at(s: Seq<char>, i: int)
    requires
        0 <= i <= s.len(),
        all_digits(s.take(i)),
        i == s.len() || !is_digit(s[i]),
    ensures
        digit_run(s) == i,
    decreases i,
{
    if i > 0 {
        assert(is_digit(s.take(i)[0]));
        let t = s.drop_first();
        assert forall|k: int| 0 <= k < i - 1 implies is_digit(#[trigger] t.take(i - 1)[k]) by {
            assert(t.take(i - 1)[k] == s.take(i)[k + 1]);
        }
        if i < s.len() {
            assert(t[i - 1] == s[i]);
        }
        lemma_digit_run_at(t, i - 1);
    }
}

/// Why text is not a `u64`, as `ParseIntError` tells it.
#[derive(PartialEq, Eq, Structural, Clone, Copy, Debug)]
pub enum IntParseFailure {
    Empty,
    InvalidDigit,
    PosOverflow,
}

/// The digits `str::parse::<u64>` reads: everything after an optional `+`.
pub open spec fn unsigned_body(s: Seq<char>) -> Seq<char> {
    if s.len() > 0 && s[0] == '+' {
        s.drop_first()
    } else {
        s
    }
}

/// What `str::parse::<u64>` gives for `s`: an optional `+`, then ASCII
/// digits. Reading from the left, a value past `u64::MAX` fails as an
/// overflow, any other character as an invalid digit.
pub open spec fn parse_u64_outcome(s: Seq<char>) -> Result<nat, IntParseFailure> {
    let b = unsigned_body(s);
    let k = digit_run(b);
    if s.len() == 0 {
        Err(IntParseFailure::Empty)
    } else if b.len() == 0 {
        Err(IntParseFailure::InvalidDigit)
    } else if digits_value(b.take(k as int)) > u64::MAX {
        Err(IntParseFailure::PosOverflow)
    } else if k < b.len() {
        Err(IntParseFailure::InvalidDigit)
    } else {
        Ok(digits_value(b))
    }
}

/// `s` read as a `u64` the way `str::parse::<u64>` reads it.
pub fn parse_u64_text(s: &[char]) -> (r: Result<u64, IntParseFailure>)
    ensures
        match parse_u64_outcome(s@) {
            Ok(v) => r == Ok::<u64, IntParseFailure>(v as u64) && v <= u64::MAX,
            Err(e) => r == Err::<u64, IntParseFailure>(e),
        },
{
    if s.len() == 0 {
        return Err(IntParseFailure::Empty);
    }
    let start: usize = if s[0] == '+' { 1 } else { 0 };
    let ghost b = unsigned_body(s@);
    assert(b =~= s@.skip(start as int));
    if start == s.len() {
        return Err(IntParseFailure::InvalidDigit);
    }
    let mut v: u64 = 0;
    let mut i: usize = start;
    while i < s.len()
        invariant
            start <= i <= s@.len(),
            b == s@.skip(start as int),
            b == unsigned_body(s@),
            b.len() > 0,
            all_digits(b.take(i - start)),
            v as nat == digits_value(b.take(i - start)),
        decreases s@.len() - i,
    {
        let c = s[i];
        let ghost j: int = i - start;
        assert(b[j] == c);
        assert(b.take(j + 1).drop_last() =~= b.take(j));
        if !char_is_digit(c) {
            proof {
                lemma_digit_run_at(b, j);
                assert(unsigned_body(s@) == b);
                assert(digits_value(b.take(digit_run(b) as int)) <= u64::MAX);
            }
            return Err(IntParseFailure::InvalidDigit);
        }
        let d: u64 = ((c as u32) - ('0' as u32)) as u64;
        if v > (u64::MAX - d) / 10 {
            proof {
                assert(digits_value(b.take(j + 1)) > u64::MAX);
                let k = digit_run(b);
                lemma_digit_run_bound(b);
                assert(all_digits(b.take(j + 1)));
                if k < j + 1 {
                    assert(b.take(j + 1)[k as int] == b[k as int]);
                }
                assert(b.take(k as int).take(j + 1) =~= b.take(j + 1));
                lemma_digits_prefix_bound(b.take(k as int), j + 1);
                assert(unsigned_body(s@) == b);
                assert(digits_value(b.take(k as int)) > u64::MAX);
            }
            return Err(IntParseFailure::PosOverflow);
        }
        v = v * 10 + d;
        i += 1;
    }
    proof {
        assert(b.take(b.len() as int) =~= b);
        lemma_digit_run_at(b, b.len() as int);
    }
    Ok(v)
}

/// The leading digits counted by `digit_run` are digits, and the one after
/// them is not.
pub proof fn lemma_digit_run_bound(s: Seq<char>)
    ensures
        digit_run(s) <= s.len(),
        all_digits(s.take(digit_run(s) as int)),
        digit_run(s) < s.len() ==> !is_digit(s[digit_run(s) as int]),
    decreases s.len(),
{
    if s.len() > 0 && is_digit(s[0]) {
        let t = s.drop_first();
        lemma_digit_run_bound(t);
        let k: int = digit_run(t) as int;
        assert forall|m: int| 0 <= m < k + 1 implies is_digit(#[trigger] s.take(k + 1)[m]) by {
            if m > 0 {
                assert(s.take(k + 1)[m] == t.take(k)[m - 1]);
            }
        }
        if k < t.len() {
            assert(s[k + 1] == t[k]);
        }
    }
}

/// The text `ParseIntError` displays for each failure.
pub fn int_parse_failure_message(f: IntParseFailure) -> (r: &'static str)
    ensures
        r@ == int_parse_failure_text(f),
{
    match f {
        IntParseFailure::Empty => "cannot parse integer from empty string",
        IntParseFailure::InvalidDigit => "invalid digit found in string",
        IntParseFailure::PosOverflow => "number too large to fit in target type",
    }
}

pub open spec fn int_parse_failure_text(f: IntParseFailure) -> Seq<char> {
    match f {
        IntParseFailure::Empty => "cannot parse integer from empty string"@,
        IntParseFailure::InvalidDigit => "invalid digit found in string"@,
        IntParseFailure::PosOverflow => "number too large to fit in target type"@,
    }
}

/// The decimal digits of `n`.
pub fn decimal_text(n: u128) -> (r: Vec<char>)
    ensures
        r@ == decimal(n as nat),
    decreases n,
{
    if n < 10 {
        let b: u8 = (n as u8) + 48;
        let mut r = Vec::new();
        r.push(b as char);
        r
    } else {
        let mut r = decimal_text(n / 10);
        let b: u8 = ((n % 10) as u8) + 48;
        r.push(b as char);
        r
    }
}

/// The index of the first `c` in `s`, or the length of `s` where there is
/// none.
pub open spec fn char_index(s: Seq<char>, c: char) -> nat
    decreases s.len(),
{
    if s.len() == 0 || s[0] == c {
        0
    } else {
        1 + char_index(s.drop_first(), c)
    }
}

pub proof fn lemma_char_index(s: Seq<char>, c: char)
    ensures
        char_index(s, c) <= s.len(),
        forall|k: int| 0 <= k < char_index(s, c) ==> #[trigger] s[k] != c,
        char_index(s, c) < s.len() ==> s[char_index(s, c) as int] == c,
    decreases s.len(),
{
    if s.len() > 0 && s[0] != c {
        let t = s.drop_first();
        lemma_char_index(t, c);
        assert forall|k: int| 0 <= k < char_index(s, c) implies #[trigger] s[k] != c by {
            if k > 0 {
                assert(s[k] == t[k - 1]);
            }
        }
    }
}

/// Where the first `c` in `s` stands (`s.len()` where there is none).
pub fn find_char(s: &[char], c: char) -> (r: usize)
    ensures
        r == char_index(s@, c),
{
    let mut i: usize = 0;
    while i < s.len()
        invariant
            i <= s@.len(),
            forall|k: int| 0 <= k < i ==> #[trigger] s@[k] != c,
        ensures
            i <= s@.len(),
            forall|k: int| 0 <= k < i ==> #[trigger] s@[k] != c,
            i == s@.len() || s@[i as int] == c,
        decreases s@.len() - i,
    {
        if s[i] == c {
            break;
        }
        i += 1;
    }
    proof {
        lemma_char_index_at(s@, c, i as int);
    }
    i
}

pub proof fn lemma_char_index_at(s: Seq<char>, c: char, i: int)
    requires
        0 <= i <= s.len(),
        forall|k: int| 0 <= k < i ==> #[trigger] s[k] != c,
        i == s.len() || s[i] == c,
    ensures
        char_index(s, c) == i,
    decreases i,
{
    if i > 0 {
        let t = s.drop_first();
        assert(s[0] != c);
        assert forall|k: int| 0 <= k < i - 1 implies #[trigger] t[k] != c by {
            assert(t[k] == s[k + 1]);
        }
        if i < s.len() {
            assert(t[i - 1] == s[i]);
        }
        lemma_char_index_at(t, c, i - 1);
    }
}

/// The first line of `s` as `str::lines` yields it: up to the first `\n`,
/// without a `\r` just before that `\n`; empty for empty text.
pub open spec fn first_line(s: Seq<char>) -> Seq<char> {
    let k = char_index(s, '\n');
    let l = s.take(k as int);
    if k < s.len() && l.len() > 0 && l.last() == '\r' {
        l.drop_last()
    } else {
        l
    }
}

/// What follows the first line ending of `s` (empty where there is none).
pub open spec fn after_first_line(s: Seq<char>) -> Seq<char> {
    let k = char_index(s, '\n');
    if k < s.len() {
        s.skip(k as int + 1)
    } else {
        Seq::empty()
    }
}

/// The first line of `s` and the text after it.
pub fn split_first_line(s: &[char]) -> (r: (Vec<char>, Vec<char>))
    ensures
        r.0@ == first_line(s@),
        r.1@ == after_first_line(s@),
{
    let k = find_char(s, '\n');
    proof {
        lemma_char_index(s@, '\n');
    }
    let mut line = slice_vec(s, 0, k);
    assert(line@ =~= s@.take(k as int));
    if k < s.len() && line.len() > 0 && line[line.len() - 1] == '\r' {
        line.pop();
        assert(line@ =~= s@.take(k as int).drop_last());
    }
    let rest = if k < s.len() {
        let r = slice_vec(s, k + 1, s.len());
        assert(r@ =~= s@.skip(k + 1));
        r
    } else {
        Vec::new()
    };
    (line, rest)
}

/// The order `sort` puts texts in: by character, a prefix first.
pub open spec fn text_le(a: Seq<char>, b: Seq<char>) -> bool {
    str_order(a, b) <= 0
}

/// The text order is a total order.
pub proof fn lemma_text_le_total()
    ensures
        vstd::relations::total_ordering(|a: Seq<char>, b: Seq<char>| text_le(a, b)),
{
    let le = |a: Seq<char>, b: Seq<char>| text_le(a, b);
    assert forall|x: Seq<char>| #[trigger] le(x, x) by {
        lemma_str_order_reflexive(x);
    }
    assert forall|x: Seq<char>, y: Seq<char>| #[trigger] le(x, y) && #[trigger] le(y, x) implies x
        == y by {
        lemma_str_order_antisymmetric(x, y);
    }
    assert forall|x: Seq<char>, y: Seq<char>, z: Seq<char>| #[trigger] le(x, y) && #[trigger] le(
        y,
        z,
    ) implies le(x, z) by {
        lemma_str_order_transitive(x, y, z);
    }
    assert forall|x: Seq<char>, y: Seq<char>| #[trigger] le(x, y) || #[trigger] le(y, x) by {
        lemma_str_order_antisymmetric(x, y);
    }
}

/// Where `insert_sorted` places `x`: after the leading elements that sort
/// before it.
pub open spec fn insert_pos(x: Seq<char>, s: Seq<Seq<char>>) -> nat
    decreases s.len(),
{
    if s.len() == 0 || str_order(x, s[0]) <= 0 {
        0
    } else {
        1 + insert_pos(x, s.drop_first())
    }
}

pub proof fn lemma_insert_pos(x: Seq<char>, s: Seq<Seq<char>>)
    ensures
        insert_pos(x, s) <= s.len(),
        forall|k: int| 0 <= k < insert_pos(x, s) ==> str_order(x, #[trigger] s[k]) > 0,
        insert_pos(x, s) < s.len() ==> str_order(x, s[insert_pos(x, s) as int]) <= 0,
        insert_sorted(x, s) == s.insert(insert_pos(x, s) as int, x),
    decreases s.len(),
{
    if s.len() == 0 {
        assert(s.insert(0, x) =~= seq![x]);
    } else if str_order(x, s[0]) <= 0 {
        assert(s.insert(0, x) =~= seq![x] + s);
    } else {
        let t = s.drop_first();
        lemma_insert_pos(x, t);
        let p = insert_pos(x, t) as int;
        assert forall|k: int| 0 <= k < p + 1 implies str_order(x, #[trigger] s[k]) > 0 by {
            if k > 0 {
                assert(s[k] == t[k - 1]);
            }
        }
        if p < t.len() {
            assert(s[p + 1] == t[p]);
        }
        assert(s.insert(p + 1, x) =~= seq![s[0]] + t.insert(p, x));
    }
}

/// Inserting into a sorted list keeps it sorted and adds exactly `x`.
pub proof fn lemma_insert_sorted(x: Seq<char>, s: Seq<Seq<char>>)
    requires
        vstd::relations::sorted_by(s, |a: Seq<char>, b: Seq<char>| text_le(a, b)),
    ensures
        vstd::relations::sorted_by(insert_sorted(x, s), |a: Seq<char>, b: Seq<char>| text_le(a, b)),
        insert_sorted(x, s).to_multiset() == s.to_multiset().insert(x),
{
    broadcast use vstd::seq_lib::group_to_multiset_ensures;

    let le = |a: Seq<char>, b: Seq<char>| text_le(a, b);
    lemma_insert_pos(x, s);
    let p = insert_pos(x, s) as int;
    let r = s.insert(p, x);
    assert(r.to_multiset() == s.to_multiset().insert(x)) by {
        vstd::seq_lib::to_multiset_insert(s, p, x);
    }
    assert forall|i: int, j: int| 0 <= i < j < r.len() implies #[trigger] le(r[i], r[j]) by {
        if j < p {
            assert(le(s[i], s[j]));
        } else if j == p {
            lemma_str_order_antisymmetric(x, s[i]);
        } else if i > p {
            assert(le(s[i - 1], s[j - 1]));
        } else if i == p {
            assert(str_order(x, s[p]) <= 0);
            if j - 1 > p {
                assert(le(s[p], s[j - 1]));
                lemma_str_order_transitive(x, s[p], s[j - 1]);
            }
        } else {
            assert(le(s[i], s[j - 1]));
        }
    }
}

/// `sorted_texts` sorts: its result is ordered and holds the same texts.
pub proof fn lemma_sorted_texts(s: Seq<Seq<char>>)
    ensures
        vstd::relations::sorted_by(sorted_texts(s), |a: Seq<char>, b: Seq<char>| text_le(a, b)),
        sorted_texts(s).to_multiset() == s.to_multiset(),
    decreases s.len(),
{
    broadcast use vstd::seq_lib::group_to_multiset_ensures;

    if s.len() > 0 {
        lemma_sorted_texts(s.drop_last());
        lemma_insert_sorted(s.last(), sorted_texts(s.drop_last()));
        assert(s =~= s.drop_last().push(s.last()));
    } else {
        assert(s.to_multiset() =~= vstd::multiset::Multiset::empty());
    }
}

/// Sorting forgets the order texts came in: two lists that hold the same
/// texts sort to the same list.
pub proof fn lemma_sorted_texts_ignore_order(s1: Seq<Seq<char>>, s2: Seq<Seq<char>>)
    requires
        s1.to_multiset() == s2.to_multiset(),
    ensures
        sorted_texts(s1) == sorted_texts(s2),
{
    lemma_sorted_texts(s1);
    lemma_sorted_texts(s2);
    lemma_text_le_total();
    vstd::seq_lib::lemma_sorted_unique(
        sorted_texts(s1),
        sorted_texts(s2),
        |a: Seq<char>, b: Seq<char>| text_le(a, b),
    );
}

/// Whether `sub` occurs in `s`.
pub open spec fn contains_text(s: Seq<char>, sub: Seq<char>) -> bool {
    exists|i: int| 0 <= i && i + sub.len() <= s.len() && #[trigger] s.subrange(i, i + sub.len()) == sub
}

/// Whether `sub` occurs in `s`.
pub fn has_substring(s: &[char], sub: &[char]) -> (r: bool)
    ensures
        r == contains_text(s@, sub@),
{
    if sub.len() > s.len() {
        return false;
    }
    if sub.len() == 0 {
        assert(s@.subrange(0, 0int + sub@.len()) =~= sub@);
        return true;
    }
    let mut i: usize = 0;
    while i <= s.len() - sub.len()
        invariant
            0 < sub@.len() <= s@.len(),
            i <= s@.len() - sub@.len() + 1,
            forall|k: int| 0 <= k < i ==> #[trigger] s@.subrange(k, k + sub@.len()) != sub@,
        decreases s@.len() - i,
    {
        let mut j: usize = 0;
        let mut same = true;
        while j < sub.len()
            invariant
                i + sub@.len() <= s@.len(),
                s@.len() == s.len(),
                j <= sub@.len(),
                same == (forall|m: int| 0 <= m < j ==> s@[i + m] == sub@[m]),
            decreases sub@.len() - j,
        {
            if s[i + j] != sub[j] {
                same = false;
            }
            j += 1;
        }
        if same {
            assert(s@.subrange(i as int, i + sub@.len()) =~= sub@);
            return true;
        }
        proof {
            let m = choose|m: int| 0 <= m < sub@.len() && s@[i + m] != sub@[m];
            assert(s@.subrange(i as int, i + sub@.len())[m] != sub@[m]);
        }
        i += 1;
    }
    proof {
        assert forall|k: int| 0 <= k && k + sub@.len() <= s@.len() implies #[trigger] s@.subrange(
            k,
            k + sub@.len(),
        ) != sub@ by {
            assert(k < i);
        }
    }
    false
}

/// Text that starts and ends with a non-blank character is its own trim.
pub proof fn lemma_trim_plain(s: Seq<char>)
    requires
        s.len() > 0,
        !is_white(s[0]),
        !is_white(s.last()),
    ensures
        trim(s) == s,
{
    assert(lead_white(s) == 0);
    assert(trim_start(s) =~= s);
    assert(trail_white(s) == 0);
    assert(trim_end(s) =~= s);
}

/// Trimming twice is trimming once.
pub proof fn lemma_trim_idempotent(s: Seq<char>)
    ensures
        trim(trim(s)) == trim(s),
{
    lemma_lead_white_bound(s);
    let t = trim_start(s);
    lemma_trail_white_bound(t);
    let u = trim(s);
    if u.len() == 0 {
        assert(lead_white(u) == 0);
        assert(trim_start(u) =~= u);
        assert(trail_white(u) == 0);
        assert(trim_end(u) =~= u);
    } else {
        assert(u[0] == t[0]);
        assert(t[0] == s[lead_white(s) as int]);
        assert(u.last() == t[t.len() - trail_white(t) - 1]);
        lemma_trim_plain(u);
    }
}

pub proof fn lemma_after_first_line_shorter(s: Seq<char>)
    requires
        s.len() > 0,
    ensures
        after_first_line(s).len() < s.len(),
{
    lemma_char_index(s, '\n');
}

/// The lines of `s` as `str::lines` yields them.
pub open spec fn lines(s: Seq<char>) -> Seq<Seq<char>>
    decreases s.len(),
{
    if s.len() == 0 {
        Seq::empty()
    } else {
        proof {
            lemma_after_first_line_shorter(s);
        }
        seq![first_line(s)] + lines(after_first_line(s))
    }
}

/// The lines of `s`.
pub fn split_lines(s: &[char]) -> (r: Vec<Vec<char>>)
    ensures
        r@.len() == lines(s@).len(),
        forall|i: int| 0 <= i < r@.len() ==> #[trigger] r@[i]@ == lines(s@)[i],
{
    let mut done: Vec<Vec<char>> = Vec::new();
    let mut rest: Vec<char> = slice_vec(s, 0, s.len());
    assert(rest@ =~= s@);
    while rest.len() > 0
        invariant
            lines(s@) == done@.map_values(|v: Vec<char>| v@) + lines(rest@),
        decreases rest@.len(),
    {
        proof {
            lemma_after_first_line_shorter(rest@);
        }
        let (line, after) = split_first_line(rest.as_slice());
        let ghost before = done@;
        done.push(line);
        assert(done@.map_values(|v: Vec<char>| v@) =~= before.map_values(|v: Vec<char>| v@).push(
            first_line(rest@),
        ));
        assert(lines(rest@) =~= seq![first_line(rest@)] + lines(after_first_line(rest@)));
        rest = after;
    }
    assert(lines(rest@) =~= Seq::<Seq<char>>::empty());
    assert(lines(s@) =~= done@.map_values(|v: Vec<char>| v@));
    done
}

/// The lines of `s` with their line endings, as `BufRead::read_line`
/// returns them one after another.
pub open spec fn inclusive_lines(s: Seq<char>) -> Seq<Seq<char>>
    decreases s.len(),
{
    if s.len() == 0 {
        Seq::empty()
    } else {
        let k = char_index(s, '\n');
        if k < s.len() {
            proof {
                lemma_char_index(s, '\n');
            }
            seq![s.take(k as int + 1)] + inclusive_lines(s.skip(k as int + 1))
        } else {
            seq![s]
        }
    }
}

/// The lines of `s` with their line endings.
pub fn split_inclusive_lines(s: &[char]) -> (r: Vec<Vec<char>>)
    ensures
        r@.len() == inclusive_lines(s@).len(),
        forall|i: int| 0 <= i < r@.len() ==> #[trigger] r@[i]@ == inclusive_lines(s@)[i],
{
    let mut done: Vec<Vec<char>> = Vec::new();
    let mut rest: Vec<char> = slice_vec(s, 0, s.len());
    assert(rest@ =~= s@);
    while rest.len() > 0
        invariant
            inclusive_lines(s@) == done@.map_values(|v: Vec<char>| v@) + inclusive_lines(rest@),
        decreases rest@.len(),
    {
        let k = find_char(rest.as_slice(), '\n');
        proof {
            lemma_char_index(rest@, '\n');
        }
        let ghost before = done@;
        if k < rest.len() {
            let line = slice_vec(rest.as_slice(), 0, k + 1);
            let after = slice_vec(rest.as_slice(), k + 1, rest.len());
            assert(line@ =~= rest@.take(k as int + 1));
            assert(after@ =~= rest@.skip(k as int + 1));
            done.push(line);
            assert(done@.map_values(|v: Vec<char>| v@) =~= before.map_values(|v: Vec<char>| v@).push(
                rest@.take(k as int + 1),
            ));
            rest = after;
        } else {
            let line = slice_vec(rest.as_slice(), 0, rest.len());
            assert(line@ =~= rest@);
            assert(inclusive_lines(rest@) =~= seq![rest@]);
            done.push(line);
            assert(done@.map_values(|v: Vec<char>| v@) =~= before.map_values(|v: Vec<char>| v@).push(
                rest@,
            ));
            rest = Vec::new();
            assert(inclusive_lines(rest@) =~= Seq::<Seq<char>>::empty());
        }
    }
    assert(inclusive_lines(rest@) =~= Seq::<Seq<char>>::empty());
    assert(inclusive_lines(s@) =~= done@.map_values(|v: Vec<char>| v@));
    done
}

/// What follows `#| ` on a line, looking past leading blanks where
/// `trim_lead` is set.
pub open spec fn hashpipe_rest(line: Seq<char>, trim_lead: bool) -> Option<Seq<char>> {
    let l = if trim_lead {
        trim_start(line)
    } else {
        line
    };
    if starts_with(l, "#| "@) {
        Some(l.skip("#| "@.len() as int))
    } else {
        None
    }
}

/// The `#| ` frontmatter of the lines `ls`: the text after the markers of
/// the leading marked lines, line endings kept.
pub open spec fn hashpipe_block(ls: Seq<Seq<char>>, trim_lead: bool) -> Seq<char>
    decreases ls.len(),
{
    if ls.len() == 0 {
        Seq::empty()
    } else {
        match hashpipe_rest(ls[0], trim_lead) {
            Some(r) => r + hashpipe_block(ls.drop_first(), trim_lead),
            None => Seq::empty(),
        }
    }
}

/// The `#| ` frontmatter at the top of a script, after an optional `#!`
/// line.
pub open spec fn hashpipe_frontmatter(content: Seq<char>, trim_lead: bool) -> Seq<char> {
    let ls = inclusive_lines(content);
    if ls.len() > 0 && starts_with(ls[0], "#!"@) {
        hashpipe_block(ls.drop_first(), trim_lead)
    } else {
        hashpipe_block(ls, trim_lead)
    }
}

/// What follows `#| ` on `line`.
pub fn hashpipe_line(line: &[char], trim_lead: bool) -> (r: Option<Vec<char>>)
    ensures
        match hashpipe_rest(line@, trim_lead) {
            Some(t) => r matches Some(v) && v@ == t,
            None => r is None,
        },
{
    let l = if trim_lead {
        trimmed_start(line)
    } else {
        slice_vec(line, 0, line.len())
    };
    assert(!trim_lead ==> l@ =~= line@);
    strip_lit(l.as_slice(), "#| ")
}

/// The `#| ` frontmatter at the top of `content`.
pub fn hashpipe_frontmatter_text(content: &str, trim_lead: bool) -> (r: String)
    ensures
        r@ == hashpipe_frontmatter(content@, trim_lead),
{
    let ls = split_inclusive_lines(chars_of(content).as_slice());
    let ghost all = inclusive_lines(content@);
    let start: usize = if ls.len() > 0 && starts_lit(ls[0].as_slice(), "#!") {
        1
    } else {
        0
    };
    let ghost body = if start == 1 {
        all.drop_first()
    } else {
        all
    };
    assert(body =~= all.skip(start as int));
    let mut out: Vec<char> = Vec::new();
    let mut i: usize = start;
    while i < ls.len()
        invariant
            all == inclusive_lines(content@),
            ls@.len() == all.len(),
            forall|k: int| 0 <= k < ls@.len() ==> #[trigger] ls@[k]@ == all[k],
            start <= i <= ls@.len(),
            hashpipe_frontmatter(content@, trim_lead) == out@ + hashpipe_block(
                all.skip(i as int),
                trim_lead,
            ),
        decreases ls@.len() - i,
    {
        let ghost tail = all.skip(i as int);
        assert(tail[0] == all[i as int]);
        assert(tail.drop_first() =~= all.skip(i + 1));
        match hashpipe_line(ls[i].as_slice(), trim_lead) {
            Some(rest) => {
                extend_chars(&mut out, rest.as_slice());
            },
            None => {
                assert(hashpipe_block(tail, trim_lead) =~= Seq::<char>::empty());
                assert(out@ + Seq::<char>::empty() =~= out@);
                return string_of(out.as_slice());
            },
        }
        i += 1;
    }
    assert(all.skip(i as int) =~= Seq::<Seq<char>>::empty());
    assert(out@ + Seq::<char>::empty() =~= out@);
    string_of(out.as_slice())
}


/// Text that fits on one line: it holds no line break.
pub open spec fn single_line(s: Seq<char>) -> bool {
    !contains_char(s, '\n') && !contains_char(s, '\r')
}

/// A line followed by `\n` and more text splits back into that line and
/// the text after it.
pub proof fn lemma_first_line_of_joined(a: Seq<char>, b: Seq<char>)
    requires
        single_line(a),
    ensures
        first_line(a + seq!['\n'] + b) == a,
        after_first_line(a + seq!['\n'] + b) == b,
{
    let s = a + seq!['\n'] + b;
    assert forall|k: int| 0 <= k < a.len() implies #[trigger] s[k] != '\n' by {
        assert(s[k] == a[k]);
    }
    lemma_char_index_at(s, '\n', a.len() as int);
    assert(s.take(a.len() as int) =~= a);
    if a.len() > 0 {
        assert(a[a.len() - 1] != '\r');
    }
    assert(s.skip(a.len() as int + 1) =~= b);
}

/// The decimal digits of `n` are digits, and read back as `n`.
pub proof fn lemma_decimal_digits(n: nat)
    ensures
        decimal(n).len() > 0,
        all_digits(decimal(n)),
        digits_value(decimal(n)) == n,
    decreases n,
{
    if n >= 10 {
        lemma_decimal_digits(n / 10);
        let d = decimal(n / 10);
        let c = ((n % 10) + 48) as char;
        assert(decimal(n) == d.push(c));
        assert(d.push(c).drop_last() =~= d);
        assert forall|i: int| 0 <= i < d.push(c).len() implies is_digit(#[trigger] d.push(c)[i]) by {
            if i < d.len() {
                assert(d.push(c)[i] == d[i]);
            }
        }
        assert((c as u32) == (n % 10) + 48);
        assert(digits_value(d.push(c)) == digits_value(d) * 10 + (n % 10));
        assert((n / 10) * 10 + n % 10 == n) by (nonlinear_arith);
        assert(digits_value(decimal(n)) == n);
    } else {
        let c = (n + 48) as char;
        assert((c as u32) == n + 48);
        assert(decimal(n) == seq![c]);
        assert(seq![c].drop_last() =~= Seq::<char>::empty());
        assert(digits_value(Seq::<char>::empty()) == 0);
        assert(digits_value(seq![c]) == n);
    }
}

/// Reading the decimal text of a 64-bit value as `str::parse::<u64>` does
/// gives the value back.
pub proof fn lemma_parse_decimal(n: nat)
    requires
        n <= u64::MAX,
    ensures
        parse_u64_outcome(decimal(n)) == Ok::<nat, IntParseFailure>(n),
{
    lemma_decimal_digits(n);
    let s = decimal(n);
    assert(is_digit(s[0]));
    assert(unsigned_body(s) == s);
    assert(s.take(s.len() as int) =~= s);
    lemma_digit_run_at(s, s.len() as int);
}

} // verus!
