//! The package dependency collector: gathers every dependency name a member
//! package references, across the ordinary, development and build dependency
//! tables and every platform-conditional dependency table.

use vstd::prelude::*;
use crate::model::{
    clone_keys, find_entry, lemma_names_view_add, names_view, parse_toml_text, table_keys,
    table_lookup, toml_doc_of, AuditError, TomlNode,
};

verus! {

/// The keys contributed by one optional top-level dependency section: an
/// absent section contributes nothing, a present one must be a table.
pub open spec fn section_keys(v: Option<TomlNode>) -> Result<Seq<Seq<char>>, AuditError> {
    match v {
        Option::None => Ok(Seq::empty()),
        Option::Some(TomlNode::Table(es)) => Ok(table_keys(es@)),
        Option::Some(TomlNode::Leaf) => Err(AuditError::Structure),
    }
}

/// The names referenced by one entry of the `target` section: the keys of its
/// `dependencies` table, when the entry is a table that holds one. Entries of
/// any other shape contribute nothing, as condition values are opaque.
pub open spec fn cond_entry_refs(n: TomlNode) -> Seq<Seq<char>> {
    match n {
        TomlNode::Table(ct) => match table_lookup(ct@, "dependencies"@) {
            Some(TomlNode::Table(ds)) => table_keys(ds@),
            _ => Seq::empty(),
        },
        TomlNode::Leaf => Seq::empty(),
    }
}

/// The names referenced across all conditional entries, in entry order.
pub open spec fn cond_refs(tes: Seq<(String, TomlNode)>) -> Seq<Seq<char>>
    decreases tes.len(),
{
    if tes.len() == 0 {
        Seq::empty()
    } else {
        cond_refs(tes.drop_last()) + cond_entry_refs(tes.last().1)
    }
}

/// What collecting yields for a parsed package manifest: the keys of the
/// ordinary, development and build dependency tables, then the keys of every
/// conditional dependency table, in that order. A parse failure is a parse
/// error; one of the three sections or the `target` value not being a table
/// is a structure error.
pub open spec fn pkg_refs_spec(d: Option<TomlNode>) -> Result<Seq<Seq<char>>, AuditError> {
    match d {
        Option::None => Err(AuditError::Parse),
        Option::Some(doc) => match doc {
            TomlNode::Leaf => Err(AuditError::Structure),
            TomlNode::Table(es) => {
                let deps = section_keys(table_lookup(es@, "dependencies"@));
                let dev = section_keys(table_lookup(es@, "dev-dependencies"@));
                let build = section_keys(table_lookup(es@, "build-dependencies"@));
                if deps is Err || dev is Err || build is Err {
                    Err(AuditError::Structure)
                } else {
                    match table_lookup(es@, "target"@) {
                        Option::None => Ok(deps->Ok_0 + dev->Ok_0 + build->Ok_0),
                        Option::Some(TomlNode::Leaf) => Err(AuditError::Structure),
                        Option::Some(TomlNode::Table(tes)) => Ok(
                            deps->Ok_0 + dev->Ok_0 + build->Ok_0 + cond_refs(tes@),
                        ),
                    }
                }
            },
        },
    }
}

/// A name referenced by any single conditional entry is collected.
proof fn lemma_conditional_entry_collected(
    tes: Seq<(String, TomlNode)>,
    k: int,
    name: Seq<char>,
)
    requires
        0 <= k < tes.len(),
        cond_entry_refs(tes[k].1).contains(name),
    ensures
        cond_refs(tes).contains(name),
    decreases tes.len(),
{
    let a = cond_refs(tes.drop_last());
    let b = cond_entry_refs(tes.last().1);
    if k == tes.len() - 1 {
        let j = choose|j: int| 0 <= j < b.len() && b[j] == name;
        assert((a + b)[a.len() + j] == name);
    } else {
        assert(tes.drop_last()[k] == tes[k]);
        lemma_conditional_entry_collected(tes.drop_last(), k, name);
        let j = choose|j: int| 0 <= j < a.len() && a[j] == name;
        assert((a + b)[j] == name);
    }
}

/// Law of conditional-table completeness: a dependency name that appears in
/// the dependency table of any platform-conditional entry of a package
/// manifest is counted as referenced by that package, and is therefore never
/// part of the unused set, whatever the declared set is.
pub proof fn lemma_conditional_dep_not_unused(
    doc: TomlNode,
    ns: Seq<Seq<char>>,
    k: int,
    name: Seq<char>,
    declared: Set<Seq<char>>,
)
    requires
        pkg_refs_spec(Some(doc)) == Ok::<Seq<Seq<char>>, AuditError>(ns),
        doc is Table,
        table_lookup(doc.entries(), "target"@) matches Some(tn) && tn is Table && 0 <= k
            < tn.entries().len() && cond_entry_refs(tn.entries()[k].1).contains(name),
    ensures
        ns.to_set().contains(name),
        !crate::calculator::unused_names(declared, ns.to_set()).contains(name),
{
    let tn = table_lookup(doc.entries(), "target"@)->Some_0;
    let tes = tn.entries();
    lemma_conditional_entry_collected(tes, k, name);
    let head = section_keys(table_lookup(doc.entries(), "dependencies"@))->Ok_0 + section_keys(
        table_lookup(doc.entries(), "dev-dependencies"@),
    )->Ok_0 + section_keys(table_lookup(doc.entries(), "build-dependencies"@))->Ok_0;
    assert(ns == head + cond_refs(tes));
    let j = choose|j: int| 0 <= j < cond_refs(tes).len() && cond_refs(tes)[j] == name;
    assert(ns[head.len() + j] == name);
    assert(ns.to_set().contains(name));
}

/// Lists every dependency name the given package manifest references from
/// the shared workspace declarations; duplicates may occur and the caller
/// treats the list as a set.
pub fn list_package_workspace_deps(manifest_text: &str) -> (r: Result<Vec<String>, AuditError>)
    ensures
        match r {
            Ok(names) => pkg_refs_spec(toml_doc_of(manifest_text@)) matches Ok(ns) && names_view(
                names@,
            ) == ns,
            Err(e) => pkg_refs_spec(toml_doc_of(manifest_text@)) matches Err(e2) && e == e2,
        },
{
    let doc = match parse_toml_text(manifest_text) {
        None => {
            return Err(AuditError::Parse);
        },
        Some(d) => d,
    };
    let es = match &doc {
        TomlNode::Table(es) => es,
        TomlNode::Leaf => {
            return Err(AuditError::Structure);
        },
    };
    let mut names: Vec<String> = Vec::new();

    let mut ks = match find_entry(es, "dependencies") {
        None => Vec::new(),
        Some(TomlNode::Table(ds)) => clone_keys(ds),
        Some(TomlNode::Leaf) => {
            return Err(AuditError::Structure);
        },
    };
    proof {
        lemma_names_view_add(names@, ks@);
    }
    names.append(&mut ks);

    let mut ks = match find_entry(es, "dev-dependencies") {
        None => Vec::new(),
        Some(TomlNode::Table(ds)) => clone_keys(ds),
        Some(TomlNode::Leaf) => {
            return Err(AuditError::Structure);
        },
    };
    proof {
        lemma_names_view_add(names@, ks@);
    }
    names.append(&mut ks);

    let mut ks = match find_entry(es, "build-dependencies") {
        None => Vec::new(),
        Some(TomlNode::Table(ds)) => clone_keys(ds),
        Some(TomlNode::Leaf) => {
            return Err(AuditError::Structure);
        },
    };
    proof {
        lemma_names_view_add(names@, ks@);
    }
    names.append(&mut ks);

    let ghost base = names_view(names@);
    proof {
        assert(base == section_keys(table_lookup(es@, "dependencies"@))->Ok_0 + section_keys(
            table_lookup(es@, "dev-dependencies"@),
        )->Ok_0 + section_keys(table_lookup(es@, "build-dependencies"@))->Ok_0);
    }

    let tes = match find_entry(es, "target") {
        None => {
            return Ok(names);
        },
        Some(TomlNode::Table(tes)) => tes,
        Some(TomlNode::Leaf) => {
            return Err(AuditError::Structure);
        },
    };

    let mut i: usize = 0;
    while i < tes.len()
        invariant
            i <= tes@.len(),
            names_view(names@) == base + cond_refs(tes@.take(i as int)),
        decreases tes@.len() - i,
    {
        let ce = &tes[i];
        let mut ks = match &ce.1 {
            TomlNode::Table(ct) => match find_entry(ct, "dependencies") {
                Some(TomlNode::Table(ds)) => clone_keys(ds),
                _ => Vec::new(),
            },
            TomlNode::Leaf => Vec::new(),
        };
        proof {
            assert(names_view(ks@) == cond_entry_refs(tes@[i as int].1));
            lemma_names_view_add(names@, ks@);
        }
        names.append(&mut ks);
        proof {
            assert(tes@.take(i + 1).drop_last() =~= tes@.take(i as int));
            assert(tes@.take(i + 1).last() == tes@[i as int]);
            assert(cond_refs(tes@.take(i + 1)) == cond_refs(tes@.take(i as int))
                + cond_entry_refs(tes@[i as int].1));
            assert(names_view(names@) =~= base + cond_refs(tes@.take(i + 1)));
        }
        i += 1;
    }
    proof {
        assert(tes@.take(i as int) =~= tes@);
    }
    Ok(names)
}

} // verus!
