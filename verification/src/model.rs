//! The value model of a TOML manifest used by the analysis phase, and the
//! trusted parse step that builds it.

use vstd::prelude::*;

verus! {

/// A parsed TOML document reduced to what the dependency analysis reads:
/// tables with their keyed entries. Every non-table value (strings, numbers,
/// arrays, dates, ...) is a leaf, since dependency declarations are opaque to
/// the analysis: only names and table structure matter.
pub enum TomlNode {
    /// A TOML table: its entries in the order the parse yields them (with
    /// the toml crate's default map that is sorted key order), keys unique.
    Table(Vec<(String, TomlNode)>),
    /// Any non-table TOML value.
    Leaf,
}

/// Why an audit step failed.
#[derive(Clone, Copy, Debug, PartialEq, Eq, Structural)]
pub enum AuditError {
    /// The manifest text is not valid TOML.
    Parse,
    /// The manifest is valid TOML but a required section is missing or a
    /// dependency section is not a table.
    Structure,
    /// A name scheduled for removal is not present in the workspace
    /// dependency table; the removal set must come from that same table.
    Removal,
}

impl TomlNode {
    /// The entries of a table node.
    pub open spec fn entries(self) -> Seq<(String, TomlNode)>
        recommends
            self is Table,
    {
        self->Table_0@
    }
}

/// The value bound to `key` in the entry sequence of a table: the first
/// entry whose key matches, if any.
pub open spec fn table_lookup(es: Seq<(String, TomlNode)>, key: Seq<char>) -> Option<TomlNode>
    decreases es.len(),
{
    if es.len() == 0 {
        None
    } else if es[0].0@ == key {
        Some(es[0].1)
    } else {
        table_lookup(es.drop_first(), key)
    }
}

/// The keys of a table's entry sequence, in entry order.
pub open spec fn table_keys(es: Seq<(String, TomlNode)>) -> Seq<Seq<char>> {
    Seq::new(es.len(), |i: int| es[i].0@)
}

/// The views of a sequence of owned names.
pub open spec fn names_view(v: Seq<String>) -> Seq<Seq<char>> {
    Seq::new(v.len(), |i: int| v[i]@)
}

/// Removes and returns the value bound to `key`; the entries left behind
/// are no longer a table's contents and are meant to be dropped.
pub fn take_entry(es: &mut Vec<(String, TomlNode)>, key: &str) -> (r: Option<TomlNode>)
    ensures
        r == table_lookup(old(es)@, key@),
{
    let key_string: String = key.to_owned();
    let ghost es0 = old(es)@;
    let mut i: usize = 0;
    proof {
        assert(es0.skip(0) =~= es0);
    }
    while i < es.len()
        invariant
            es@ == es0,
            es0 == old(es)@,
            i <= es0.len(),
            key_string@ == key@,
            table_lookup(es0, key@) == table_lookup(es0.skip(i as int), key@),
        decreases es0.len() - i,
    {
        if es[i].0 == key_string {
            proof {
                assert(es0.skip(i as int)[0] == es0[i as int]);
                assert(table_lookup(es0, key@) == Some(es0[i as int].1));
            }
            let kv = es.swap_remove(i);
            proof {
                assert(kv == es0[i as int]);
                assert(table_lookup(es0, key@) == Some(kv.1));
            }
            return Some(kv.1);
        }
        proof {
            assert(es0.skip(i as int).drop_first() =~= es0.skip(i + 1));
        }
        i += 1;
    }
    proof {
        assert(es0.skip(i as int).len() == 0);
    }
    None
}

/// Looks up the value bound to `key` without consuming the entries.
pub fn find_entry<'a>(entries: &'a Vec<(String, TomlNode)>, key: &str) -> (r: Option<
    &'a TomlNode,
>)
    ensures
        match r {
            Some(n) => table_lookup(entries@, key@) == Some(*n),
            None => table_lookup(entries@, key@) is None,
        },
{
    let key_string: String = key.to_owned();
    let mut i: usize = 0;
    proof {
        assert(entries@.skip(0) =~= entries@);
    }
    while i < entries.len()
        invariant
            i <= entries@.len(),
            key_string@ == key@,
            table_lookup(entries@, key@) == table_lookup(entries@.skip(i as int), key@),
        decreases entries@.len() - i,
    {
        let e = &entries[i];
        if e.0 == key_string {
            return Some(&e.1);
        }
        proof {
            assert(entries@.skip(i as int).drop_first() =~= entries@.skip(i + 1));
        }
        i += 1;
    }
    proof {
        assert(entries@.skip(i as int).len() == 0);
    }
    None
}

/// Copies the keys of a table's entries, in entry order.
pub fn clone_keys(entries: &Vec<(String, TomlNode)>) -> (r: Vec<String>)
    ensures
        names_view(r@) == table_keys(entries@),
{
    let mut names: Vec<String> = Vec::new();
    let mut i: usize = 0;
    while i < entries.len()
        invariant
            i <= entries@.len(),
            names@.len() == i,
            forall|j: int| 0 <= j < i ==> names@[j]@ == entries@[j].0@,
        decreases entries@.len() - i,
    {
        let e = &entries[i];
        let name = e.0.clone();
        names.push(name);
        i += 1;
    }
    proof {
        assert forall|j: int| 0 <= j < names@.len() implies names_view(names@)[j] == table_keys(
            entries@,
        )[j] by {
            assert(names@[j]@ == entries@[j].0@);
        }
        assert(names_view(names@) =~= table_keys(entries@));
    }
    names
}

/// Viewing a concatenation of name sequences is the concatenation of the
/// views.
pub proof fn lemma_names_view_add(a: Seq<String>, b: Seq<String>)
    ensures
        names_view(a + b) == names_view(a) + names_view(b),
{
    assert forall|j: int| 0 <= j < (a + b).len() implies names_view(a + b)[j] == (names_view(a)
        + names_view(b))[j] by {
        if j < a.len() {
            assert((a + b)[j] == a[j]);
        } else {
            assert((a + b)[j] == b[j - a.len()]);
        }
    }
    assert(names_view(a + b) =~= names_view(a) + names_view(b));
}

/// The content set of the names added by one more entry.
pub proof fn lemma_names_view_take_step(v: Seq<String>, i: int)
    requires
        0 <= i < v.len(),
    ensures
        names_view(v.take(i + 1)).to_set() == names_view(v.take(i)).to_set().insert(v[i]@),
{
    let w = v.take(i + 1);
    let u = v.take(i);
    assert forall|x: Seq<char>|
        names_view(w).to_set().contains(x) <==> names_view(u).to_set().insert(v[i]@).contains(
        x,
    ) by {
        if names_view(w).to_set().contains(x) {
            let k = choose|k: int| 0 <= k < names_view(w).len() && names_view(w)[k] == x;
            assert(w[k] == v[k]);
            if k < i {
                assert(names_view(u)[k] == x);
            }
        }
        if names_view(u).to_set().insert(v[i]@).contains(x) {
            if x == v[i]@ {
                assert(names_view(w)[i] == x);
            } else {
                let k = choose|k: int| 0 <= k < names_view(u).len() && names_view(u)[k] == x;
                assert(u[k] == v[k]);
                assert(names_view(w)[k] == x);
            }
        }
    }
    assert(names_view(w).to_set() =~= names_view(u).to_set().insert(v[i]@));
}

/// The document that TOML parsing yields for a given text, reduced to the
/// model above, or `None` when the text is not valid TOML. Stating the TOML
/// grammar is out of scope; the parse result is a function of the text alone,
/// so it only gets a name here, given meaning by `parse_toml_text`.
pub uninterp spec fn toml_doc_of(s: Seq<char>) -> Option<TomlNode>;

#[verifier::external_type_specification]
#[verifier::external_body]
pub struct ExTomlValue(toml::Value);

/// Converts a parsed TOML value into the model: tables keep their entries in
/// order, everything else becomes a leaf.
#[verifier::external_body]
fn node_of_value(v: &toml::Value) -> TomlNode {
    match v {
        toml::Value::Table(t) => TomlNode::Table(
            t.iter().map(|(k, w)| (k.clone(), node_of_value(w))).collect(),
        ),
        _ => TomlNode::Leaf,
    }
}

/// Relies on `toml::from_str`: the parse result depends on the text alone,
/// and a successfully parsed document is a table at its root.
#[verifier::external_body]
pub fn parse_toml_text(s: &str) -> (r: Option<TomlNode>)
    ensures
        r == toml_doc_of(s@),
        r matches Some(doc) ==> doc is Table,
{
    match toml::from_str::<toml::Table>(s) {
        Ok(t) => Some(node_of_value(&toml::Value::Table(t))),
        Err(_) => None,
    }
}

} // verus!
