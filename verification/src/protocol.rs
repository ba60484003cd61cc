//! The adapter protocol's query shapes.

use vstd::prelude::*;

verus! {

/// One retrieval request, as an adapter receives it.
pub enum Query {
    /// Look a symbol up by short name (`bare_name`) or by full stable id,
    /// optionally filtered by kind.
    Lookup { name: String, bare_name: bool, kind: Option<String> },
    /// Symbols that call the given symbol.
    Callers { sym_stable_id: String },
    /// Symbols the given symbol calls.
    Callees { sym_stable_id: String },
    /// Members the given symbol contains.
    ContainedBy { sym_stable_id: String },
    /// Symbols defined in a repo-relative file.
    FileSymbols { file_path: String },
    /// Implementors or overriders of the given symbol.
    Implementors { sym_stable_id: String },
    /// Symbols nothing refers to, optionally of one kind.
    Orphans { kind: Option<String> },
}

/// The content of a [`Query`].
pub enum QueryView {
    Lookup { name: Seq<char>, bare_name: bool, kind: Option<Seq<char>> },
    Callers { sym_stable_id: Seq<char> },
    Callees { sym_stable_id: Seq<char> },
    ContainedBy { sym_stable_id: Seq<char> },
    FileSymbols { file_path: Seq<char> },
    Implementors { sym_stable_id: Seq<char> },
    Orphans { kind: Option<Seq<char>> },
}

/// The characters of an optional string.
pub open spec fn opt_view(o: Option<String>) -> Option<Seq<char>> {
    match o {
        Some(s) => Some(s@),
        None => None,
    }
}

impl View for Query {
    type V = QueryView;

    open spec fn view(&self) -> QueryView {
        match self {
            Query::Lookup { name, bare_name, kind } => QueryView::Lookup {
                name: name@,
                bare_name: *bare_name,
                kind: opt_view(*kind),
            },
            Query::Callers { sym_stable_id } => QueryView::Callers { sym_stable_id: sym_stable_id@ },
            Query::Callees { sym_stable_id } => QueryView::Callees { sym_stable_id: sym_stable_id@ },
            Query::ContainedBy { sym_stable_id } => QueryView::ContainedBy { sym_stable_id: sym_stable_id@ },
            Query::FileSymbols { file_path } => QueryView::FileSymbols { file_path: file_path@ },
            Query::Implementors { sym_stable_id } => QueryView::Implementors { sym_stable_id: sym_stable_id@ },
            Query::Orphans { kind } => QueryView::Orphans { kind: opt_view(*kind) },
        }
    }
}

} // verus!
