//! Trusted boundary around `toml_edit`, the structural document engine used
//! to read and patch dependency manifests.
//!
//! A manifest is modelled through uninterpreted functions of its text: whether
//! it parses, what shape the entry for a given package has in the dependency
//! table, and what text comes out after one structural edit. Each wrapper
//! below performs one `toml_edit` operation and states its result over these
//! functions; everything that decides or combines results is verified code in
//! the callers.

use vstd::prelude::*;

verus! {

#[verifier::external_type_specification]
#[verifier::external_body]
pub struct ExDocumentMut(toml_edit::DocumentMut);

/// Whether `toml_edit` accepts `t` as a TOML document.
pub uninterp spec fn toml_parses(t: Seq<char>) -> bool;

/// What serializing the parsed document yields. `toml_edit` preserves every
/// byte of a document it parsed, so for an unedited document this is the
/// original text.
pub uninterp spec fn doc_text(d: toml_edit::DocumentMut) -> Seq<char>;

/// Whether the document holds a top-level `dependencies` table with an entry
/// for `name`.
pub uninterp spec fn dep_present(t: Seq<char>, name: Seq<char>) -> bool;

/// Whether the entry for `name` is a bare string, as in `name = "1.2"`.
pub uninterp spec fn dep_is_str(t: Seq<char>, name: Seq<char>) -> bool;

/// The value of that bare string.
pub uninterp spec fn dep_str(t: Seq<char>, name: Seq<char>) -> Seq<char>;

/// Whether the entry for `name` is a table, inline or block.
pub uninterp spec fn dep_is_table(t: Seq<char>, name: Seq<char>) -> bool;

/// Whether that table has a `path` key.
pub uninterp spec fn dep_has_path(t: Seq<char>, name: Seq<char>) -> bool;

/// Whether that table has a `version` key, of whatever kind.
pub uninterp spec fn dep_has_version(t: Seq<char>, name: Seq<char>) -> bool;

/// Whether the `version` key holds a string value.
pub uninterp spec fn dep_version_is_str(t: Seq<char>, name: Seq<char>) -> bool;

/// The value of that string.
pub uninterp spec fn dep_version_str(t: Seq<char>, name: Seq<char>) -> Seq<char>;

/// The text after replacing the bare-string entry for `name` with the string
/// `v` and serializing; every byte outside that entry's value (and the
/// value's own decoration, such as a trailing comment) is preserved.
pub uninterp spec fn with_dep_str(t: Seq<char>, name: Seq<char>, v: Seq<char>) -> Seq<char>;

/// The text after setting the `version` key of the table entry for `name` to
/// the string `v` and serializing; every other byte of the document is
/// preserved.
pub uninterp spec fn with_dep_version(t: Seq<char>, name: Seq<char>, v: Seq<char>) -> Seq<char>;

/// The entry for `name` reads the same in both texts.
pub open spec fn dep_unchanged(t1: Seq<char>, t2: Seq<char>, name: Seq<char>) -> bool {
    &&& dep_present(t1, name) == dep_present(t2, name)
    &&& dep_is_str(t1, name) == dep_is_str(t2, name)
    &&& dep_str(t1, name) == dep_str(t2, name)
    &&& dep_is_table(t1, name) == dep_is_table(t2, name)
    &&& dep_has_path(t1, name) == dep_has_path(t2, name)
    &&& dep_has_version(t1, name) == dep_has_version(t2, name)
    &&& dep_version_is_str(t1, name) == dep_version_is_str(t2, name)
    &&& dep_version_str(t1, name) == dep_version_str(t2, name)
}

/// Relies on `DocumentMut::from_str`: parses the text into an editable
/// document whose serialization reproduces the text byte for byte.
#[verifier::external_body]
pub(crate) fn parse_doc(s: &str) -> (r: Option<toml_edit::DocumentMut>)
    ensures
        match r {
            Some(d) => toml_parses(s@) && doc_text(d) == s@,
            None => !toml_parses(s@),
        },
{
    s.parse::<toml_edit::DocumentMut>().ok()
}

/// Relies on `DocumentMut`'s `Display` impl: serializes the document.
#[verifier::external_body]
pub(crate) fn render_doc(d: &toml_edit::DocumentMut) -> (r: String)
    ensures
        r@ == doc_text(*d),
{
    d.to_string()
}

/// Relies on `Table::get` and `Item::get`: whether the dependency table has
/// an entry for `name`.
#[verifier::external_body]
pub(crate) fn dep_exists(d: &toml_edit::DocumentMut, name: &str) -> (r: bool)
    ensures
        r == dep_present(doc_text(*d), name@),
{
    d.get("dependencies").and_then(|deps| deps.get(name)).is_some()
}

/// Relies on `Item::is_str`: whether the entry for `name` is a bare string.
#[verifier::external_body]
pub(crate) fn dep_entry_is_str(d: &toml_edit::DocumentMut, name: &str) -> (r: bool)
    requires
        dep_present(doc_text(*d), name@),
    ensures
        r == dep_is_str(doc_text(*d), name@),
{
    d.get("dependencies").unwrap().get(name).unwrap().is_str()
}

/// Relies on `Item::as_str`: the value of the bare-string entry for `name`.
#[verifier::external_body]
pub(crate) fn dep_entry_str(d: &toml_edit::DocumentMut, name: &str) -> (r: String)
    requires
        dep_present(doc_text(*d), name@),
        dep_is_str(doc_text(*d), name@),
    ensures
        r@ == dep_str(doc_text(*d), name@),
{
    d.get("dependencies").unwrap().get(name).unwrap().as_str().unwrap().to_owned()
}

/// Relies on `Item::is_inline_table` and `Item::is_table`: whether the entry
/// for `name` is a table of either kind.
#[verifier::external_body]
pub(crate) fn dep_entry_is_table(d: &toml_edit::DocumentMut, name: &str) -> (r: bool)
    requires
        dep_present(doc_text(*d), name@),
    ensures
        r == dep_is_table(doc_text(*d), name@),
{
    let item = d.get("dependencies").unwrap().get(name).unwrap();
    item.is_inline_table() || item.is_table()
}

/// Relies on `Item::get`: whether the table entry for `name` has a `path`
/// key.
#[verifier::external_body]
pub(crate) fn dep_entry_has_path(d: &toml_edit::DocumentMut, name: &str) -> (r: bool)
    requires
        dep_present(doc_text(*d), name@),
        dep_is_table(doc_text(*d), name@),
    ensures
        r == dep_has_path(doc_text(*d), name@),
{
    d.get("dependencies").unwrap().get(name).unwrap().get("path").is_some()
}

/// Relies on `Item::get`: whether the table entry for `name` has a `version`
/// key.
#[verifier::external_body]
pub(crate) fn dep_entry_has_version(d: &toml_edit::DocumentMut, name: &str) -> (r: bool)
    requires
        dep_present(doc_text(*d), name@),
        dep_is_table(doc_text(*d), name@),
    ensures
        r == dep_has_version(doc_text(*d), name@),
{
    d.get("dependencies").unwrap().get(name).unwrap().get("version").is_some()
}

/// Relies on `Item::as_str`: the string value of the `version` key of the
/// table entry for `name`, or `None` when the key holds something else.
#[verifier::external_body]
pub(crate) fn dep_entry_version_str(d: &toml_edit::DocumentMut, name: &str) -> (r: Option<
    String,
>)
    requires
        dep_present(doc_text(*d), name@),
        dep_is_table(doc_text(*d), name@),
        dep_has_version(doc_text(*d), name@),
    ensures
        match r {
            Some(v) => dep_version_is_str(doc_text(*d), name@) && v@ == dep_version_str(
                doc_text(*d),
                name@,
            ),
            None => !dep_version_is_str(doc_text(*d), name@),
        },
{
    match d.get("dependencies").unwrap().get(name).unwrap().get("version").unwrap().as_str() {
        Some(s) => Some(s.to_owned()),
        None => None,
    }
}

/// Relies on `Item::get_mut` and `toml_edit::value`: replaces the
/// bare-string entry for `name` with the string `ver`, touching nothing
/// else. The new serialization parses back to a document in which `name` is
/// a bare string holding exactly `ver`, and every other entry of the
/// dependency table reads as before.
#[verifier::external_body]
pub(crate) fn set_dep_string(d: &mut toml_edit::DocumentMut, name: &str, ver: &str)
    requires
        dep_present(doc_text(*old(d)), name@),
        dep_is_str(doc_text(*old(d)), name@),
    ensures
        doc_text(*final(d)) == with_dep_str(doc_text(*old(d)), name@, ver@),
        toml_parses(doc_text(*final(d))),
        dep_present(doc_text(*final(d)), name@),
        dep_is_str(doc_text(*final(d)), name@),
        !dep_is_table(doc_text(*final(d)), name@),
        dep_str(doc_text(*final(d)), name@) == ver@,
        forall|m: Seq<char>| m != name@ ==> dep_unchanged(
            doc_text(*old(d)),
            doc_text(*final(d)),
            m,
        ),
{
    let item = d.get_mut("dependencies").unwrap().get_mut(name).unwrap();
    *item = toml_edit::value(ver);
}

/// Relies on `Item::get_mut` and `toml_edit::value`: sets the `version` key
/// of the table entry for `name` to the string `ver`, touching nothing else.
/// The new serialization parses back to a document in which that entry is
/// still a table, with the same `path` key as before, whose `version` key
/// holds exactly `ver`; every other entry of the dependency table reads as
/// before.
#[verifier::external_body]
pub(crate) fn set_dep_table_version(d: &mut toml_edit::DocumentMut, name: &str, ver: &str)
    requires
        dep_present(doc_text(*old(d)), name@),
        dep_is_table(doc_text(*old(d)), name@),
        dep_has_version(doc_text(*old(d)), name@),
    ensures
        doc_text(*final(d)) == with_dep_version(doc_text(*old(d)), name@, ver@),
        toml_parses(doc_text(*final(d))),
        dep_present(doc_text(*final(d)), name@),
        !dep_is_str(doc_text(*final(d)), name@),
        dep_is_table(doc_text(*final(d)), name@),
        dep_has_path(doc_text(*final(d)), name@) == dep_has_path(doc_text(*old(d)), name@),
        dep_has_version(doc_text(*final(d)), name@),
        dep_version_is_str(doc_text(*final(d)), name@),
        dep_version_str(doc_text(*final(d)), name@) == ver@,
        forall|m: Seq<char>| m != name@ ==> dep_unchanged(
            doc_text(*old(d)),
            doc_text(*final(d)),
            m,
        ),
{
    let item = d.get_mut("dependencies").unwrap().get_mut(name).unwrap();
    *item.get_mut("version").unwrap() = toml_edit::value(ver);
}

} // verus!
