//! The audit pipeline: read the workspace declarations, collect every
//! package's references, compute the unused set, and either report it or
//! produce the fixed manifest text. All decisions are made here; the caller
//! only reads files beforehand and writes the fixed text afterwards.

use vstd::prelude::*;
use crate::calculator::{compute_unused, unused_names};
use crate::collector::{list_package_workspace_deps, pkg_refs_spec};
use crate::editor::{
    edit_parses, edit_ws_names, remove_deps_from_workspace, removable,
};
use crate::model::{
    clone_keys, lemma_names_view_add, names_view, table_keys, toml_doc_of, AuditError,
};
use crate::order::{lemma_sorted_distinct, strictly_sorted};
use crate::reader::{read_workspace_deps, read_ws_spec};

verus! {

/// What one audit run concludes.
#[derive(Debug)]
pub enum AuditOutcome {
    /// Every workspace-level declaration is referenced by some package.
    AllUsed,
    /// Some declarations are unused; the manifest was left untouched.
    UnusedFound { unused: Vec<String> },
    /// Some declarations were unused and have been deleted; the caller is to
    /// overwrite the manifest with the new text.
    Fixed { unused: Vec<String>, new_manifest: String },
}

/// The names every package of the run references, in discovery order, or
/// the first error any package manifest produces.
pub open spec fn refs_of_packages(texts: Seq<Seq<char>>) -> Result<Seq<Seq<char>>, AuditError>
    decreases texts.len(),
{
    if texts.len() == 0 {
        Ok(Seq::empty())
    } else {
        match refs_of_packages(texts.drop_last()) {
            Err(e) => Err(e),
            Ok(acc) => match pkg_refs_spec(toml_doc_of(texts.last())) {
                Err(e) => Err(e),
                Ok(ns) => Ok(acc + ns),
            },
        }
    }
}

/// The unused-name set of a run: the workspace-declared names minus every
/// name any package references — or the first error of the analysis phase.
pub open spec fn unused_of_run(ws_text: Seq<char>, pkg_texts: Seq<Seq<char>>) -> Result<
    Set<Seq<char>>,
    AuditError,
> {
    match read_ws_spec(toml_doc_of(ws_text)) {
        Err(e) => Err(e),
        Ok(entries) => match refs_of_packages(pkg_texts) {
            Err(e) => Err(e),
            Ok(refs) => Ok(unused_names(table_keys(entries).to_set(), refs.to_set())),
        },
    }
}

/// An analysis error in a prefix of the packages settles the whole run.
proof fn lemma_refs_error_extends(texts: Seq<Seq<char>>, j: int)
    requires
        0 <= j <= texts.len(),
        refs_of_packages(texts.take(j)) is Err,
    ensures
        refs_of_packages(texts) == refs_of_packages(texts.take(j)),
    decreases texts.len() - j,
{
    if j == texts.len() {
        assert(texts.take(j) =~= texts);
    } else {
        assert(texts.take(j + 1).drop_last() =~= texts.take(j));
        lemma_refs_error_extends(texts, j + 1);
    }
}

/// Audits one workspace: `workspace_text` is the workspace manifest,
/// `package_texts` the member package manifests in discovery order, and
/// `fix` whether unused declarations are to be deleted. When nothing is
/// unused the manifest text is never rewritten; when something is unused
/// the report lists it in strictly ascending order; with `fix`, the new
/// manifest differs from the old one exactly by the deleted entries.
#[verifier::loop_isolation(false)]
pub fn audit_workspace(workspace_text: &str, package_texts: &Vec<String>, fix: bool) -> (r:
    Result<AuditOutcome, AuditError>)
    ensures
        unused_of_run(workspace_text@, names_view(package_texts@)) matches Err(e) ==> r
            == Err::<AuditOutcome, AuditError>(e),
        unused_of_run(workspace_text@, names_view(package_texts@)) matches Ok(u) ==> {
            &&& (u =~= Set::<Seq<char>>::empty() ==> r == Ok::<AuditOutcome, AuditError>(
                AuditOutcome::AllUsed,
            ))
            &&& (!(u =~= Set::<Seq<char>>::empty()) && !fix ==> (r matches Ok(
                AuditOutcome::UnusedFound { unused },
            ) && strictly_sorted(names_view(unused@)) && names_view(unused@).to_set() == u))
            &&& (!(u =~= Set::<Seq<char>>::empty()) && fix ==> {
                &&& (!edit_parses(workspace_text@) ==> r == Err::<AuditOutcome, AuditError>(
                    AuditError::Parse,
                ))
                &&& (edit_parses(workspace_text@) && edit_ws_names(workspace_text@) is None
                    ==> r == Err::<AuditOutcome, AuditError>(AuditError::Structure))
                &&& (edit_parses(workspace_text@) ==> (edit_ws_names(workspace_text@) matches
                Some(ews) ==> (if u.subset_of(ews) {
                    r matches Ok(
                        AuditOutcome::Fixed { unused, new_manifest },
                    ) && strictly_sorted(names_view(unused@)) && names_view(unused@).to_set()
                        == u && edit_parses(new_manifest@) && (edit_ws_names(new_manifest@)
                        == Some(ews.difference(u)) || (ews.difference(u) =~= Set::<
                        Seq<char>,
                    >::empty() && edit_ws_names(new_manifest@) is None))
                } else {
                    r == Err::<AuditOutcome, AuditError>(AuditError::Removal)
                })))
            })
        },
{
    let ghost texts = names_view(package_texts@);
    let entries = match read_workspace_deps(workspace_text) {
        Err(e) => {
            return Err(e);
        },
        Ok(v) => v,
    };
    let ws_names = clone_keys(&entries);

    let mut refs: Vec<String> = Vec::new();
    let mut i: usize = 0;
    proof {
        assert(texts.take(0) =~= Seq::<Seq<char>>::empty());
        assert(names_view(refs@) =~= Seq::<Seq<char>>::empty());
    }
    while i < package_texts.len()
        invariant
            i <= package_texts@.len(),
            texts == names_view(package_texts@),
            refs_of_packages(texts.take(i as int)) == Ok::<Seq<Seq<char>>, AuditError>(
                names_view(refs@),
            ),
        decreases package_texts@.len() - i,
    {
        let pkg = &package_texts[i];
        proof {
            assert(texts[i as int] == pkg@);
            assert(texts.take(i + 1).drop_last() =~= texts.take(i as int));
            assert(texts.take(i + 1).last() == texts[i as int]);
        }
        match list_package_workspace_deps(pkg.as_str()) {
            Err(e) => {
                proof {
                    assert(refs_of_packages(texts.take(i + 1)) == Err::<
                        Seq<Seq<char>>,
                        AuditError,
                    >(e));
                    lemma_refs_error_extends(texts, i + 1);
                }
                return Err(e);
            },
            Ok(mut ks) => {
                proof {
                    lemma_names_view_add(refs@, ks@);
                }
                refs.append(&mut ks);
            },
        }
        i += 1;
    }
    proof {
        assert(texts.take(i as int) =~= texts);
    }

    let unused = compute_unused(&ws_names, &refs);
    let ghost u = unused_of_run(workspace_text@, texts)->Ok_0;
    proof {
        assert(names_view(unused@).to_set() == u);
    }
    if unused.len() == 0 {
        proof {
            assert(names_view(unused@).len() == 0);
            assert(u =~= Set::<Seq<char>>::empty());
        }
        return Ok(AuditOutcome::AllUsed);
    }
    proof {
        assert(names_view(unused@)[0] == unused@[0]@);
        assert(u.contains(unused@[0]@));
        assert(!(u =~= Set::<Seq<char>>::empty()));
    }
    if !fix {
        return Ok(AuditOutcome::UnusedFound { unused });
    }
    let ghost unused_seq = names_view(unused@);
    match remove_deps_from_workspace(workspace_text, &unused) {
        Err(e) => {
            proof {
                if edit_parses(workspace_text@) && edit_ws_names(workspace_text@) is Some {
                    let ews = edit_ws_names(workspace_text@)->Some_0;
                    lemma_sorted_distinct(unused_seq);
                    if u.subset_of(ews) {
                        assert forall|k: int|
                            0 <= k < unused_seq.len() implies ews.contains(unused_seq[k]) by {
                            assert(u.contains(unused_seq[k]));
                        }
                        assert(removable(unused_seq, ews));
                        assert(false);
                    } else {
                        let x = choose|x: Seq<char>| u.contains(x) && !ews.contains(x);
                        let k = choose|k: int|
                            0 <= k < unused_seq.len() && unused_seq[k] == x;
                        assert(!removable(unused_seq, ews));
                    }
                }
            }
            Err(e)
        },
        Ok(new_manifest) => {
            proof {
                let ews = edit_ws_names(workspace_text@)->Some_0;
                assert(removable(unused_seq, ews));
                assert(u.subset_of(ews)) by {
                    assert forall|x: Seq<char>| u.contains(x) implies ews.contains(x) by {
                        let k = choose|k: int|
                            0 <= k < unused_seq.len() && unused_seq[k] == x;
                    }
                }
                assert(ews.difference(unused_seq.to_set()) =~= ews.difference(u));
            }
            Ok(AuditOutcome::Fixed { unused, new_manifest })
        },
    }
}

} // verus!
