//! Version comparison: splitting a version string into its first three
//! numeric fields and deciding whether a published version is strictly newer
//! than the one a manifest currently declares.
//!
//! A version string is split on `.`, `-` and `+`; a missing or non-numeric
//! field counts as 0, and any fields past the third are ignored. This is a
//! deliberate simplification of full semantic-versioning precedence and must
//! be kept as it is.

use vstd::prelude::*;

use crate::text::str_to_chars;
use crate::toml_doc::{
    dep_entry_has_path, dep_entry_has_version, dep_entry_is_str, dep_entry_is_table,
    dep_entry_str, dep_entry_version_str, dep_exists, dep_has_path, dep_has_version,
    dep_is_str, dep_is_table, dep_present, dep_str, dep_version_is_str, dep_version_str,
    parse_doc, toml_parses,
};

verus! {

/// Outcome of comparing one package's current and latest versions.
#[derive(Debug, Clone)]
pub struct VersionReport {
    pub crate_name: String,
    pub current: Option<String>,
    pub latest: String,
    pub needs_update: bool,
}

/// The characters that end a numeric field of a version string.
pub open spec fn is_sep(c: char) -> bool {
    c == '.' || c == '-' || c == '+'
}

pub open spec fn is_digit_char(c: char) -> bool {
    '0' <= c && c <= '9'
}

pub open spec fn digit_val(c: char) -> int {
    c as int - '0' as int
}

/// Numeric value of a digit string, most significant digit first.
pub open spec fn digits_val(s: Seq<char>) -> int
    decreases s.len(),
{
    if s.len() == 0 {
        0
    } else {
        digits_val(s.drop_last()) * 10 + digit_val(s.last())
    }
}

pub open spec fn all_digits(s: Seq<char>) -> bool {
    forall|i: int| 0 <= i < s.len() ==> is_digit_char(#[trigger] s[i])
}

/// Value of one field: its digits read as a number when the field is a
/// non-empty digit string whose value fits in `u64`, and 0 otherwise.
pub open spec fn field_num(s: Seq<char>) -> u64 {
    if s.len() > 0 && all_digits(s) && digits_val(s) <= u64::MAX {
        digits_val(s) as u64
    } else {
        0
    }
}

/// Index of the first separator in `s`, or `s.len()` if there is none.
pub open spec fn sep_index(s: Seq<char>) -> int
    decreases s.len(),
{
    if s.len() == 0 {
        0
    } else if is_sep(s[0]) {
        0
    } else {
        1 + sep_index(s.skip(1))
    }
}

/// The (major, minor, patch) triple of a version string: the values of its
/// first three fields, with missing fields read as 0.
pub open spec fn semver_triple(s: Seq<char>) -> (u64, u64, u64) {
    let k1 = sep_index(s);
    let f1 = field_num(s.take(k1));
    if k1 >= s.len() {
        (f1, 0u64, 0u64)
    } else {
        let r1 = s.skip(k1 + 1);
        let k2 = sep_index(r1);
        let f2 = field_num(r1.take(k2));
        if k2 >= r1.len() {
            (f1, f2, 0u64)
        } else {
            let r2 = r1.skip(k2 + 1);
            let k3 = sep_index(r2);
            (f1, f2, field_num(r2.take(k3)))
        }
    }
}

/// Strict lexicographic order on version triples: `a` is newer than `b`.
pub open spec fn triple_newer(a: (u64, u64, u64), b: (u64, u64, u64)) -> bool {
    ||| a.0 > b.0
    ||| (a.0 == b.0 && a.1 > b.1)
    ||| (a.0 == b.0 && a.1 == b.1 && a.2 > b.2)
}

proof fn lemma_sep_index_bounds(s: Seq<char>)
    ensures
        0 <= sep_index(s) <= s.len(),
        sep_index(s) < s.len() ==> is_sep(s[sep_index(s)]),
        forall|i: int| 0 <= i < sep_index(s) ==> !is_sep(#[trigger] s[i]),
    decreases s.len(),
{
    if s.len() > 0 && !is_sep(s[0]) {
        lemma_sep_index_bounds(s.skip(1));
        assert forall|i: int| 0 <= i < sep_index(s) implies !is_sep(#[trigger] s[i]) by {
            if i >= 1 {
                assert(s.skip(1)[i - 1] == s[i]);
                assert(!is_sep(s.skip(1)[i - 1]));
            }
        }
    }
}

/// A position that has no separator before it and a separator (or the end)
/// at it is exactly `sep_index`.
proof fn lemma_sep_index_at(s: Seq<char>, k: int)
    requires
        0 <= k <= s.len(),
        forall|i: int| 0 <= i < k ==> !is_sep(#[trigger] s[i]),
        k < s.len() ==> is_sep(s[k]),
    ensures
        sep_index(s) == k,
    decreases s.len(),
{
    if k == 0 {
        if s.len() > 0 && !is_sep(s[0]) {
            lemma_sep_index_bounds(s.skip(1));
        }
    } else {
        assert(!is_sep(s[0]));
        assert(forall|i: int| 0 <= i < k - 1 ==> !is_sep(#[trigger] s.skip(1)[i]));
        assert(k - 1 < s.skip(1).len() ==> is_sep(s.skip(1)[k - 1]));
        lemma_sep_index_at(s.skip(1), k - 1);
    }
}

proof fn lemma_digits_val_nonneg(s: Seq<char>)
    requires
        all_digits(s),
    ensures
        digits_val(s) >= 0,
    decreases s.len(),
{
    if s.len() > 0 {
        assert(all_digits(s.drop_last()));
        lemma_digits_val_nonneg(s.drop_last());
    }
}

/// Extending a digit string can only grow its value.
proof fn lemma_digits_val_prefix(s: Seq<char>, i: int)
    requires
        all_digits(s),
        0 <= i <= s.len(),
    ensures
        digits_val(s.take(i)) <= digits_val(s),
    decreases s.len() - i,
{
    if i < s.len() {
        lemma_digits_val_prefix(s, i + 1);
        assert(s.take(i + 1).drop_last() =~= s.take(i));
        assert(all_digits(s.take(i)));
        lemma_digits_val_nonneg(s.take(i));
        assert(digits_val(s.take(i + 1)) == digits_val(s.take(i)) * 10 + digit_val(s[i]));
        assert(digits_val(s.take(i)) * 10 >= digits_val(s.take(i))) by (nonlinear_arith)
            requires digits_val(s.take(i)) >= 0;
    } else {
        assert(s.take(i) =~= s);
    }
}

/// Reads the numeric value of the field `cs[from..to]`, with 0 for an empty,
/// non-numeric or overflowing field.
fn field_value(cs: &Vec<char>, from: usize, to: usize) -> (r: u64)
    requires
        from <= to <= cs@.len(),
    ensures
        r == field_num(cs@.subrange(from as int, to as int)),
{
    let ghost field = cs@.subrange(from as int, to as int);
    let mut acc: u64 = 0;
    let mut valid: bool = true;
    let mut i: usize = from;
    while i < to
        invariant
            from <= i <= to <= cs@.len(),
            field == cs@.subrange(from as int, to as int),
            valid ==> all_digits(field.take(i - from)),
            valid ==> acc == digits_val(field.take(i - from)),
            !valid ==> field_num(field) == 0,
        decreases to - i,
    {
        let c = cs[i];
        assert(field[i - from] == c);
        if valid {
            if c < '0' || c > '9' {
                valid = false;
                assert(!all_digits(field));
            } else {
                let d: u64 = (c as u32 - 48) as u64;
                assert(d == digit_val(c));
                if acc > (u64::MAX - d) / 10 {
                    valid = false;
                    proof {
                        let p = (i + 1 - from) as int;
                        assert(field.take(p).drop_last() =~= field.take(p - 1));
                        assert(digits_val(field.take(p))
                            == digits_val(field.take(p - 1)) * 10 + digit_val(c));
                        assert(digits_val(field.take(p)) > u64::MAX) by (nonlinear_arith)
                            requires
                                digits_val(field.take(p))
                                    == digits_val(field.take(p - 1)) * 10 + digit_val(c),
                                digits_val(field.take(p - 1)) > (u64::MAX - digit_val(c)) / 10,
                                0 <= digit_val(c) <= 9;
                        if all_digits(field) {
                            lemma_digits_val_prefix(field, p);
                        }
                    }
                } else {
                    proof {
                        let p = (i + 1 - from) as int;
                        assert(field.take(p).drop_last() =~= field.take(p - 1));
                        assert(acc * 10 + d <= u64::MAX) by (nonlinear_arith)
                            requires
                                0 <= d <= 9,
                                0 <= acc <= (u64::MAX - d) / 10;
                    }
                    acc = acc * 10 + d;
                }
            }
        }
        i = i + 1;
    }
    if valid && to > from {
        assert(field.take(to - from) =~= field);
        acc
    } else {
        proof {
            if to == from {
                assert(field.len() == 0);
            }
        }
        0
    }
}

fn sep_char(c: char) -> (b: bool)
    ensures
        b == is_sep(c),
{
    c == '.' || c == '-' || c == '+'
}

/// Position of the first separator at or after `from`, or the end of `cs`
/// when none occurs.
fn find_sep(cs: &Vec<char>, from: usize) -> (k: usize)
    requires
        from <= cs@.len(),
    ensures
        from <= k <= cs@.len(),
        forall|i: int| from <= i < k ==> !is_sep(#[trigger] cs@[i]),
        k < cs@.len() ==> is_sep(cs@[k as int]),
        sep_index(cs@.skip(from as int)) == k - from,
{
    let n = cs.len();
    let mut k: usize = from;
    while k < n && !sep_char(cs[k])
        invariant
            from <= k <= n == cs@.len(),
            forall|i: int| from <= i < k ==> !is_sep(#[trigger] cs@[i]),
        decreases n - k,
    {
        k = k + 1;
    }
    proof {
        let s = cs@.skip(from as int);
        assert(forall|i: int| 0 <= i < k - from ==> !is_sep(#[trigger] s[i]));
        assert(k - from < s.len() ==> is_sep(s[k - from]));
        lemma_sep_index_at(s, k - from);
    }
    k
}

/// Splits a version string into its (major, minor, patch) triple.
///
/// Fields are delimited by `.`, `-` or `+`; a missing or non-numeric field
/// is 0, and anything past the third field is ignored.
pub fn parse_semver(v: &str) -> (r: (u64, u64, u64))
    ensures
        r == semver_triple(v@),
{
    let cs = str_to_chars(v);
    let n = cs.len();
    let k1 = find_sep(&cs, 0);
    proof {
        assert(cs@.skip(0) =~= cs@);
        assert(cs@.take(k1 as int) =~= cs@.subrange(0, k1 as int));
    }
    let f1 = field_value(&cs, 0, k1);
    if k1 >= n {
        return (f1, 0, 0);
    }
    let ghost r1 = cs@.skip(k1 + 1);
    let k2 = find_sep(&cs, k1 + 1);
    proof {
        assert(r1.take(k2 - (k1 + 1)) =~= cs@.subrange(k1 + 1, k2 as int));
    }
    let f2 = field_value(&cs, k1 + 1, k2);
    if k2 >= n {
        return (f1, f2, 0);
    }
    proof {
        assert(r1.skip(k2 - (k1 + 1) + 1) =~= cs@.skip(k2 + 1));
        assert(sep_index(r1) == k2 - (k1 + 1));
    }
    let ghost r2 = cs@.skip(k2 + 1);
    let k3 = find_sep(&cs, k2 + 1);
    proof {
        assert(r2.take(k3 - (k2 + 1)) =~= cs@.subrange(k2 + 1, k3 as int));
    }
    let f3 = field_value(&cs, k2 + 1, k3);
    (f1, f2, f3)
}

/// What reading the declared version of `name` out of the manifest text `t`
/// yields: the value of a bare-string entry, or the string value of a table
/// entry's `version` key — unless the table has a `path` key, in which case
/// the dependency is local and has no comparable version.
pub open spec fn read_current_spec(t: Seq<char>, name: Seq<char>) -> Option<Seq<char>> {
    if !toml_parses(t) {
        None
    } else if !dep_present(t, name) {
        None
    } else if dep_is_table(t, name) {
        if dep_has_path(t, name) {
            None
        } else if dep_has_version(t, name) && dep_version_is_str(t, name) {
            Some(dep_version_str(t, name))
        } else {
            None
        }
    } else if dep_is_str(t, name) {
        Some(dep_str(t, name))
    } else {
        None
    }
}

/// A dependency whose table entry has a `path` key is a local dependency and
/// is never reported with a version, whatever else the entry holds.
pub proof fn lemma_path_dep_reads_none(t: Seq<char>, name: Seq<char>)
    requires
        dep_is_table(t, name),
        dep_has_path(t, name),
    ensures
        read_current_spec(t, name) is None,
{
}

/// Reads the declared version of `dep_name` from a manifest text, handling
/// both `name = "1.2"` and `name = { version = "1.2", ... }`; a table entry
/// with a `path` key yields `None`.
pub fn current_dep_version(cargo_toml: &str, dep_name: &str) -> (r: Option<String>)
    ensures
        match r {
            Some(v) => read_current_spec(cargo_toml@, dep_name@) == Some(v@),
            None => read_current_spec(cargo_toml@, dep_name@) is None,
        },
{
    match parse_doc(cargo_toml) {
        None => None,
        Some(doc) => {
            if !dep_exists(&doc, dep_name) {
                None
            } else if dep_entry_is_table(&doc, dep_name) {
                if dep_entry_has_path(&doc, dep_name) {
                    None
                } else if dep_entry_has_version(&doc, dep_name) {
                    dep_entry_version_str(&doc, dep_name)
                } else {
                    None
                }
            } else if dep_entry_is_str(&doc, dep_name) {
                Some(dep_entry_str(&doc, dep_name))
            } else {
                None
            }
        },
    }
}

/// Decides whether `latest` is strictly newer than `current`, comparing the
/// two (major, minor, patch) triples lexicographically.
pub fn needs_update(current: &str, latest: &str) -> (r: bool)
    ensures
        r == triple_newer(semver_triple(latest@), semver_triple(current@)),
{
    let (ca, cb, cc) = parse_semver(current);
    let (la, lb, lc) = parse_semver(latest);
    la > ca || (la == ca && lb > cb) || (la == ca && lb == cb && lc > cc)
}

} // verus!
