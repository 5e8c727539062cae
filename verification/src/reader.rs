//! The workspace dependency reader: extracts the entries of the
//! `workspace.dependencies` table from the workspace manifest text.

use vstd::prelude::*;
use crate::model::{
    parse_toml_text, table_lookup, take_entry, toml_doc_of, AuditError, TomlNode,
};

verus! {

/// What reading the workspace dependency table yields for a parsed document:
/// the entries of `workspace.dependencies`, a parse error when the document
/// did not parse, and a structure error when the path to that table is
/// missing or not a table.
pub open spec fn read_ws_spec(d: Option<TomlNode>) -> Result<
    Seq<(String, TomlNode)>,
    AuditError,
> {
    match d {
        Option::None => Err(AuditError::Parse),
        Option::Some(doc) => match doc {
            TomlNode::Leaf => Err(AuditError::Structure),
            TomlNode::Table(es) => match table_lookup(es@, "workspace"@) {
                Some(TomlNode::Table(wes)) => match table_lookup(wes@, "dependencies"@) {
                    Some(TomlNode::Table(des)) => Ok(des@),
                    _ => Err(AuditError::Structure),
                },
                _ => Err(AuditError::Structure),
            },
        },
    }
}

/// Reads the workspace-level dependency declarations out of the given
/// manifest text: every key/value pair of the `workspace.dependencies`
/// table, in table order.
pub fn read_workspace_deps(manifest_text: &str) -> (r: Result<
    Vec<(String, TomlNode)>,
    AuditError,
>)
    ensures
        match r {
            Ok(entries) => read_ws_spec(toml_doc_of(manifest_text@)) == Ok::<
                Seq<(String, TomlNode)>,
                AuditError,
            >(entries@),
            Err(e) => read_ws_spec(toml_doc_of(manifest_text@)) == Err::<
                Seq<(String, TomlNode)>,
                AuditError,
            >(e),
        },
{
    let doc = match parse_toml_text(manifest_text) {
        None => {
            return Err(AuditError::Parse);
        },
        Some(d) => d,
    };
    let mut es = match doc {
        TomlNode::Table(es) => es,
        TomlNode::Leaf => {
            return Err(AuditError::Structure);
        },
    };
    let mut wes = match take_entry(&mut es, "workspace") {
        Some(TomlNode::Table(wes)) => wes,
        _ => {
            return Err(AuditError::Structure);
        },
    };
    match take_entry(&mut wes, "dependencies") {
        Some(TomlNode::Table(des)) => Ok(des),
        _ => Err(AuditError::Structure),
    }
}

} // verus!
