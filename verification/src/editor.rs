//! The format-preserving editor: deletes entries from the
//! `workspace.dependencies` table of a manifest text while leaving every
//! other part of the document (formatting, comments, ordering) untouched,
//! through `toml_edit`'s round-trip-preserving document model.

use vstd::prelude::*;
use crate::model::{lemma_names_view_take_step, names_view, AuditError};

verus! {

#[verifier::external_type_specification]
#[verifier::external_body]
pub struct ExDocumentMut(toml_edit::DocumentMut);

/// Whether a text parses as an editable TOML document.
pub uninterp spec fn edit_parses(s: Seq<char>) -> bool;

/// The key set of the `workspace.dependencies` table of the parse of a
/// text, or `None` when that path is missing or one of its steps is not a
/// table.
pub uninterp spec fn edit_ws_names(s: Seq<char>) -> Option<Set<Seq<char>>>;

/// The key set of the `workspace.dependencies` table of an editable
/// document, or `None` when that path is missing or one of its steps is not
/// a table.
pub uninterp spec fn doc_ws_names(d: toml_edit::DocumentMut) -> Option<Set<Seq<char>>>;

/// Relies on `toml_edit`'s `DocumentMut::from_str`: parsing fails or yields
/// the document this text denotes, a function of the text alone.
#[verifier::external_body]
fn parse_editable(s: &str) -> (r: Option<toml_edit::DocumentMut>)
    ensures
        (r is Some) == edit_parses(s@),
        r matches Some(d) ==> doc_ws_names(d) == edit_ws_names(s@),
{
    match s.parse::<toml_edit::DocumentMut>() {
        Ok(d) => Some(d),
        Err(_) => None,
    }
}

/// Relies on `toml_edit`'s `Table::get` and `Item::as_table_like`: reports
/// whether the document holds a `workspace.dependencies` table.
#[verifier::external_body]
fn has_ws_table(doc: &toml_edit::DocumentMut) -> (r: bool)
    ensures
        r == (doc_ws_names(*doc) is Some),
{
    doc.get("workspace")
        .and_then(|w| w.as_table_like())
        .and_then(|w| w.get("dependencies"))
        .and_then(|d| d.as_table_like())
        .is_some()
}

/// Relies on `toml_edit`'s `TableLike::remove`: deletes exactly the named
/// entry of the `workspace.dependencies` table and reports whether the name
/// was present; no other entry is touched.
#[verifier::external_body]
fn remove_ws_entry(doc: &mut toml_edit::DocumentMut, name: &str) -> (r: bool)
    ensures
        match doc_ws_names(*old(doc)) {
            Option::None => !r && doc_ws_names(*final(doc)) == doc_ws_names(*old(doc)),
            Option::Some(ws) => r == ws.contains(name@) && doc_ws_names(*final(doc)) == Some(
                ws.remove(name@),
            ),
        },
{
    let table = doc
        .get_mut("workspace")
        .and_then(|w| w.as_table_like_mut())
        .and_then(|w| w.get_mut("dependencies"))
        .and_then(|d| d.as_table_like_mut());
    match table {
        Some(t) => t.remove(name).is_some(),
        None => false,
    }
}

/// The text an editable document renders to.
pub uninterp spec fn doc_render(d: toml_edit::DocumentMut) -> Seq<char>;

/// Relies on `toml_edit`'s display of `DocumentMut`: rendering is a function
/// of the document alone, the rendered text is valid TOML, and parsing it
/// back finds every key of a non-empty `workspace.dependencies` table again.
/// An empty key set may come back as an absent table instead: the renderer
/// hides a table that was never explicitly defined — one implied by a
/// deeper `[a.b.c]` header or written with dotted keys — once its last
/// entry is gone.
#[verifier::external_body]
fn render_document(doc: &toml_edit::DocumentMut) -> (r: String)
    ensures
        r@ == doc_render(*doc),
        edit_parses(r@),
        doc_ws_names(*doc) matches Some(ws) ==> (edit_ws_names(r@) == Some(ws) || (ws
            =~= Set::<Seq<char>>::empty() && edit_ws_names(r@) is None)),
{
    doc.to_string()
}

/// A removal list succeeds exactly when its names are pairwise distinct and
/// all present in the table: removal is sequential, and a name already
/// removed (or never declared) fails the step that asks for it.
pub open spec fn removable(names: Seq<Seq<char>>, ws: Set<Seq<char>>) -> bool {
    &&& forall|i: int| 0 <= i < names.len() ==> ws.contains(names[i])
    &&& forall|i: int, j: int| 0 <= i < j < names.len() ==> names[i] != names[j]
}

/// Rewrites the workspace manifest text with exactly the given names deleted
/// from the `workspace.dependencies` table; everything else in the document
/// — other entries, their order, comments and whitespace — the editable
/// document model keeps as it was. An empty removal list returns the text
/// unchanged, byte for byte. A `workspace.dependencies` table that was only
/// implied — by a deeper `[a.b.c]` header or dotted keys — and loses its
/// last entry disappears from the output altogether. Fails with a parse
/// error when the text is not TOML, a structure error when it has no
/// `workspace.dependencies` table, and a removal error when a given name is
/// not present at its removal step.
pub fn remove_deps_from_workspace(manifest_text: &str, deps: &Vec<String>) -> (r: Result<
    String,
    AuditError,
>)
    ensures
        !edit_parses(manifest_text@) ==> r == Err::<String, AuditError>(AuditError::Parse),
        edit_parses(manifest_text@) && edit_ws_names(manifest_text@) is None ==> r == Err::<
            String,
            AuditError,
        >(AuditError::Structure),
        edit_parses(manifest_text@) && edit_ws_names(manifest_text@) is Some && deps@.len()
            == 0 ==> (r matches Ok(out) && out@ == manifest_text@),
        edit_parses(manifest_text@) ==> (edit_ws_names(manifest_text@) matches Some(ws) ==> (
        if removable(names_view(deps@), ws) {
            match r {
                Ok(out) => edit_parses(out@) && (edit_ws_names(out@) == Some(
                    ws.difference(names_view(deps@).to_set()),
                ) || (ws.difference(names_view(deps@).to_set()) =~= Set::<Seq<char>>::empty()
                    && edit_ws_names(out@) is None)),
                Err(_) => false,
            }
        } else {
            r == Err::<String, AuditError>(AuditError::Removal)
        })),
{
    let mut doc = match parse_editable(manifest_text) {
        None => {
            return Err(AuditError::Parse);
        },
        Some(d) => d,
    };
    if !has_ws_table(&doc) {
        return Err(AuditError::Structure);
    }
    let ghost ws0 = edit_ws_names(manifest_text@)->Some_0;
    if deps.len() == 0 {
        proof {
            assert(names_view(deps@).to_set() =~= Set::<Seq<char>>::empty());
            assert(ws0.difference(names_view(deps@).to_set()) =~= ws0);
        }
        return Ok(manifest_text.to_owned());
    }
    proof {
        assert(names_view(deps@.take(0)).to_set() =~= Set::<Seq<char>>::empty());
        assert(ws0.difference(names_view(deps@.take(0)).to_set()) =~= ws0);
    }
    let mut i: usize = 0;
    while i < deps.len()
        invariant
            i <= deps@.len(),
            edit_parses(manifest_text@),
            edit_ws_names(manifest_text@) == Some(ws0),
            doc_ws_names(doc) == Some(
                ws0.difference(names_view(deps@.take(i as int)).to_set()),
            ),
            removable(names_view(deps@.take(i as int)), ws0),
        decreases deps@.len() - i,
    {
        let ghost cur = ws0.difference(names_view(deps@.take(i as int)).to_set());
        let name = &deps[i];
        let present = remove_ws_entry(&mut doc, name.as_str());
        if !present {
            proof {
                assert(!cur.contains(name@));
                assert(names_view(deps@)[i as int] == name@);
                if ws0.contains(name@) {
                    let k = choose|k: int|
                        0 <= k < names_view(deps@.take(i as int)).len() && names_view(
                            deps@.take(i as int),
                        )[k] == name@;
                    assert(names_view(deps@)[k] == name@);
                    assert(!removable(names_view(deps@), ws0));
                } else {
                    assert(!removable(names_view(deps@), ws0));
                }
            }
            return Err(AuditError::Removal);
        }
        proof {
            assert(cur.contains(name@));
            lemma_names_view_take_step(deps@, i as int);
            assert(cur.remove(name@) =~= ws0.difference(
                names_view(deps@.take(i + 1)).to_set(),
            ));
            let prefix = names_view(deps@.take(i as int));
            let next = names_view(deps@.take(i + 1));
            assert forall|k: int| 0 <= k < next.len() implies (if k < i {
                next[k] == prefix[k]
            } else {
                next[k] == name@
            }) by {
                assert(next[k] == deps@.take(i + 1)[k]@);
                if k < i {
                    assert(prefix[k] == deps@.take(i as int)[k]@);
                }
            }
            assert(removable(next, ws0)) by {
                assert forall|a: int, b: int| 0 <= a < b < next.len() implies next[a]
                    != next[b] by {
                    if b == i {
                        assert(!prefix.to_set().contains(name@));
                        assert(next[a] == prefix[a]);
                    }
                }
            }
        }
        i += 1;
    }
    proof {
        assert(deps@.take(i as int) =~= deps@);
    }
    let out = render_document(&doc);
    Ok(out)
}

} // verus!
