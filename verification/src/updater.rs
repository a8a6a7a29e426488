//! Format-preserving patching of the dependency version declared in a
//! manifest: the document is parsed, the one version value is changed in
//! place, and the document is serialized again, so comments, key order and
//! every unrelated entry come out byte-identical.

use vstd::prelude::*;

use crate::toml_doc::{
    dep_entry_has_version, dep_entry_is_str, dep_entry_is_table, dep_exists, dep_has_path,
    dep_has_version, dep_is_str, dep_is_table, dep_present, parse_doc, render_doc,
    set_dep_string, set_dep_table_version, toml_parses, with_dep_str, with_dep_version,
};
use crate::versions::read_current_spec;

verus! {

/// Why a manifest patch was refused.
#[derive(Debug, Clone, Copy, PartialEq, Eq, Structural)]
pub enum PatchError {
    /// The text is not a well-formed manifest document.
    Parse,
    /// The document has no dependency table, or the table has no entry for
    /// the named package.
    NotFound,
    /// The entry is neither a bare version string nor a table.
    Shape,
}

/// What patching the manifest text `t` yields: the text with the version of
/// `name` replaced by `v`, the text unchanged when the table entry has no
/// `version` key to rewrite, or the error naming what was wrong.
pub open spec fn patch_spec(t: Seq<char>, name: Seq<char>, v: Seq<char>) -> Result<
    Seq<char>,
    PatchError,
> {
    if !toml_parses(t) {
        Err(PatchError::Parse)
    } else if !dep_present(t, name) {
        Err(PatchError::NotFound)
    } else if dep_is_table(t, name) {
        if dep_has_version(t, name) {
            Ok(with_dep_version(t, name, v))
        } else {
            Ok(t)
        }
    } else if dep_is_str(t, name) {
        Ok(with_dep_str(t, name, v))
    } else {
        Err(PatchError::Shape)
    }
}

/// Rewrites the version of `dep_name` in a manifest text through a
/// structural edit of the parsed document, preserving all other content.
///
/// A bare-string entry is replaced by `new_version`; a table entry has its
/// `version` key set to `new_version`, or is left untouched when it has no
/// such key. After a successful patch of either kind (with no `path` key in
/// the way), reading the entry's version out of the result yields exactly
/// `new_version`.
pub fn patch_cargo_toml(content: &str, dep_name: &str, new_version: &str) -> (r: Result<
    String,
    PatchError,
>)
    ensures
        match r {
            Ok(out) => patch_spec(content@, dep_name@, new_version@) == Ok::<_, PatchError>(
                out@,
            ),
            Err(e) => patch_spec(content@, dep_name@, new_version@) == Err::<Seq<char>, _>(e),
        },
        r matches Ok(out) ==> ((dep_is_str(content@, dep_name@) && !dep_is_table(
            content@,
            dep_name@,
        )) ==> read_current_spec(out@, dep_name@) == Some(new_version@)),
        r matches Ok(out) ==> ((dep_is_table(content@, dep_name@) && dep_has_version(
            content@,
            dep_name@,
        ) && !dep_has_path(content@, dep_name@)) ==> read_current_spec(out@, dep_name@)
            == Some(new_version@)),
{
    match parse_doc(content) {
        None => Err(PatchError::Parse),
        Some(mut doc) => {
            if !dep_exists(&doc, dep_name) {
                Err(PatchError::NotFound)
            } else if dep_entry_is_table(&doc, dep_name) {
                if dep_entry_has_version(&doc, dep_name) {
                    set_dep_table_version(&mut doc, dep_name, new_version);
                    Ok(render_doc(&doc))
                } else {
                    Ok(render_doc(&doc))
                }
            } else if dep_entry_is_str(&doc, dep_name) {
                set_dep_string(&mut doc, dep_name, new_version);
                Ok(render_doc(&doc))
            } else {
                Err(PatchError::Shape)
            }
        },
    }
}

} // verus!
