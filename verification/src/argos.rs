//! Decisions of the graph-backed adapter. Answering a query takes one
//! lookup in the code graph; the adapter plans that lookup, the caller
//! performs it, and the symbols that come back are turned into the answer.

use vstd::prelude::*;
use crate::protocol::{Query, QueryView};
use crate::corpus::Corpus;
use crate::generators::{Generator, generated, lemma_exists_lookups_ask_exact_ids};
use crate::scoring::{Expected, score_model};
use crate::text::{views, eq_ignore_ascii_case, same_ignoring_ascii_case};

verus! {

/// The symbol kinds an orphan search can be restricted to.
#[derive(PartialEq, Eq, Structural, Clone, Copy, Debug)]
pub enum OrphanKind {
    Function,
    Struct,
    Trait,
    Enum,
    Module,
}

/// The restriction an orphan query's `kind` names, compared without ASCII case;
/// any other name restricts nothing.
pub open spec fn orphan_kind_spec(k: Seq<char>) -> Option<OrphanKind> {
    if eq_ignore_ascii_case(k, "function"@) {
        Some(OrphanKind::Function)
    } else if eq_ignore_ascii_case(k, "struct"@) {
        Some(OrphanKind::Struct)
    } else if eq_ignore_ascii_case(k, "trait"@) {
        Some(OrphanKind::Trait)
    } else if eq_ignore_ascii_case(k, "enum"@) {
        Some(OrphanKind::Enum)
    } else if eq_ignore_ascii_case(k, "module"@) {
        Some(OrphanKind::Module)
    } else {
        None
    }
}

/// The orphan-search restriction named by `k`.
pub fn orphan_kind(k: &str) -> (r: Option<OrphanKind>)
    ensures
        r == orphan_kind_spec(k@),
{
    if same_ignoring_ascii_case(k, "function") {
        Some(OrphanKind::Function)
    } else if same_ignoring_ascii_case(k, "struct") {
        Some(OrphanKind::Struct)
    } else if same_ignoring_ascii_case(k, "trait") {
        Some(OrphanKind::Trait)
    } else if same_ignoring_ascii_case(k, "enum") {
        Some(OrphanKind::Enum)
    } else if same_ignoring_ascii_case(k, "module") {
        Some(OrphanKind::Module)
    } else {
        None
    }
}

/// The one graph lookup that answering a query takes.
pub enum GraphLookup {
    /// Symbols whose short name is `name`.
    ByBareName { name: String },
    /// The symbol whose full id is `id`, if any.
    ByStableId { id: String },
    /// Callers of the symbol with full id `id`.
    Incoming { id: String },
    /// Symbols called by the symbol with full id `id`.
    OutgoingCalls { id: String },
    /// Members of the symbol with full id `id`.
    OutgoingContains { id: String },
    /// Symbols defined in the file `path`.
    InFile { path: String },
    /// Implementors of the symbol with full id `id`.
    ImplementorsOf { id: String },
    /// Symbols nothing refers to, optionally of one kind.
    Orphans { kind: Option<OrphanKind> },
}

/// The content of a [`GraphLookup`].
pub enum LookupView {
    ByBareName(Seq<char>),
    ByStableId(Seq<char>),
    Incoming(Seq<char>),
    OutgoingCalls(Seq<char>),
    OutgoingContains(Seq<char>),
    InFile(Seq<char>),
    ImplementorsOf(Seq<char>),
    Orphans(Option<OrphanKind>),
}

impl View for GraphLookup {
    type V = LookupView;

    open spec fn view(&self) -> LookupView {
        match self {
            GraphLookup::ByBareName { name } => LookupView::ByBareName(name@),
            GraphLookup::ByStableId { id } => LookupView::ByStableId(id@),
            GraphLookup::Incoming { id } => LookupView::Incoming(id@),
            GraphLookup::OutgoingCalls { id } => LookupView::OutgoingCalls(id@),
            GraphLookup::OutgoingContains { id } => LookupView::OutgoingContains(id@),
            GraphLookup::InFile { path } => LookupView::InFile(path@),
            GraphLookup::ImplementorsOf { id } => LookupView::ImplementorsOf(id@),
            GraphLookup::Orphans { kind } => LookupView::Orphans(*kind),
        }
    }
}

/// The lookup that answers `q`.
pub open spec fn plan_spec(q: Query) -> LookupView {
    match q {
        Query::Lookup { name, bare_name, kind } => if bare_name {
            LookupView::ByBareName(name@)
        } else {
            LookupView::ByStableId(name@)
        },
        Query::Callers { sym_stable_id } => LookupView::Incoming(sym_stable_id@),
        Query::Callees { sym_stable_id } => LookupView::OutgoingCalls(sym_stable_id@),
        Query::ContainedBy { sym_stable_id } => LookupView::OutgoingContains(sym_stable_id@),
        Query::FileSymbols { file_path } => LookupView::InFile(file_path@),
        Query::Implementors { sym_stable_id } => LookupView::ImplementorsOf(sym_stable_id@),
        Query::Orphans { kind } => LookupView::Orphans(
            match kind {
                Some(k) => orphan_kind_spec(k@),
                None => None,
            },
        ),
    }
}

/// Plans the graph lookup for `q`.
pub fn plan(q: &Query) -> (r: GraphLookup)
    ensures
        r@ == plan_spec(*q),
{
    match q {
        Query::Lookup { name, bare_name, .. } => if *bare_name {
            GraphLookup::ByBareName { name: name.clone() }
        } else {
            GraphLookup::ByStableId { id: name.clone() }
        },
        Query::Callers { sym_stable_id } => GraphLookup::Incoming { id: sym_stable_id.clone() },
        Query::Callees { sym_stable_id } => GraphLookup::OutgoingCalls { id: sym_stable_id.clone() },
        Query::ContainedBy { sym_stable_id } => GraphLookup::OutgoingContains { id: sym_stable_id.clone() },
        Query::FileSymbols { file_path } => GraphLookup::InFile { path: file_path.clone() },
        Query::Implementors { sym_stable_id } => GraphLookup::ImplementorsOf { id: sym_stable_id.clone() },
        Query::Orphans { kind } => GraphLookup::Orphans {
            kind: match kind {
                Some(k) => orphan_kind(k.as_str()),
                None => None,
            },
        },
    }
}

/// A symbol the lookup found: the name of its kind and its full id.
pub struct Found {
    pub kind_name: String,
    pub stable_id: String,
}

/// Whether a found symbol survives the query's kind filter.
pub open spec fn keeps(q: Query, f: Found) -> bool {
    match q {
        Query::Lookup { kind: Some(k), .. } => eq_ignore_ascii_case(f.kind_name@, k@),
        _ => true,
    }
}

/// The answer: the full ids of the found symbols that pass the kind filter,
/// in the order the lookup returned them; positions with no symbol are skipped.
pub open spec fn answer_spec(q: Query, found: Seq<Option<Found>>) -> Seq<Seq<char>>
    decreases found.len(),
{
    if found.len() == 0 {
        Seq::empty()
    } else {
        let prev = answer_spec(q, found.drop_last());
        match found.last() {
            Some(f) => if keeps(q, f) {
                prev.push(f.stable_id@)
            } else {
                prev
            },
            None => prev,
        }
    }
}

/// Turns the symbols found for `q` into the answer.
pub fn answer(q: &Query, found: &Vec<Option<Found>>) -> (r: Vec<String>)
    ensures
        views(r@) == answer_spec(*q, found@),
{
    let mut r: Vec<String> = Vec::new();
    let mut i: usize = 0;
    while i < found.len()
        invariant
            i <= found@.len(),
            views(r@) == answer_spec(*q, found@.take(i as int)),
        decreases found@.len() - i,
    {
        proof {
            assert(found@.take(i + 1).drop_last() =~= found@.take(i as int));
            assert(found@.take(i + 1).last() == found@[i as int]);
        }
        match &found[i] {
            Some(f) => {
                let keep = match q {
                    Query::Lookup { kind: Some(k), .. } => same_ignoring_ascii_case(f.kind_name.as_str(), k.as_str()),
                    _ => true,
                };
                if keep {
                    let ghost before = r@;
                    r.push(f.stable_id.clone());
                    proof {
                        assert(views(r@) =~= views(before).push(f.stable_id@));
                    }
                }
            },
            None => {},
        }
        i = i + 1;
    }
    proof {
        assert(found@.take(found@.len() as int) =~= found@);
    }
    r
}

/// The ids of every symbol the lookup found, in order.
pub open spec fn found_ids(found: Seq<Option<Found>>) -> Seq<Seq<char>>
    decreases found.len(),
{
    if found.len() == 0 {
        Seq::empty()
    } else {
        match found.last() {
            Some(f) => found_ids(found.drop_last()).push(f.stable_id@),
            None => found_ids(found.drop_last()),
        }
    }
}

/// The answer holds only ids of symbols the lookup found, and without a kind
/// filter it is exactly their ids, in order.
pub proof fn law_answer_only_found_ids(q: Query, found: Seq<Option<Found>>)
    ensures
        forall|i: int| 0 <= i < answer_spec(q, found).len() ==> found_ids(found).contains(#[trigger] answer_spec(q, found)[i]),
        !(q matches Query::Lookup { kind: Some(_), .. }) ==> answer_spec(q, found) == found_ids(found),
    decreases found.len(),
{
    if found.len() > 0 {
        law_answer_only_found_ids(q, found.drop_last());
        let prev = answer_spec(q, found.drop_last());
        let ids = found_ids(found.drop_last());
        let r = answer_spec(q, found);
        assert forall|i: int| 0 <= i < r.len() implies found_ids(found).contains(#[trigger] r[i]) by {
            if i < prev.len() {
                assert(r[i] == prev[i]);
                assert(ids.contains(prev[i]));
                let k = choose|k: int| 0 <= k < ids.len() && ids[k] == prev[i];
                assert(found_ids(found)[k] == ids[k]);
            } else {
                assert(found_ids(found)[ids.len() as int] == r[i]);
            }
        }
    }
}

/// A symbol that is in the graph is returned when asked for: for a
/// scenario of the exists-lookup generator, once the graph lookup finds the
/// symbol holding the asked id, the adapter plans a lookup of exactly that
/// id, answers with exactly that id, and the answer scores 1.
pub proof fn law_present_symbol_is_returned(
    c: Corpus,
    n: nat,
    cat: Seq<char>,
    sub: Seq<char>,
    q: Query,
    e: Expected,
    f: Found,
)
    requires
        generated(Generator::ExactSymbolExists, c, n, cat, sub) matches Some(v) && exists|i: int|
            0 <= i < v.len() && #[trigger] v[i].query == q@ && v[i].expected == e@,
        q matches Query::Lookup { name, .. } && f.stable_id@ == name@,
    ensures
        plan_spec(q) == LookupView::ByStableId(f.stable_id@),
        answer_spec(q, seq![Some(f)]) == seq![f.stable_id@],
        score_model(e, answer_spec(q, seq![Some(f)])).passes(),
{
    lemma_exists_lookups_ask_exact_ids(c, n, cat, sub);
    let v = generated(Generator::ExactSymbolExists, c, n, cat, sub)->0;
    let i = choose|i: int| 0 <= i < v.len() && #[trigger] v[i].query == q@ && v[i].expected == e@;
    assert(crate::generators::asks_for_exact_id(v[i].query, v[i].expected));
    let found = seq![Some(f)];
    assert(found.drop_last() =~= Seq::<Option<Found>>::empty());
    assert(found.last() == Some(f));
    match q {
        Query::Lookup { name, bare_name, kind } => {
            assert(kind is None);
            assert(!bare_name);
            assert(answer_spec(q, found.drop_last()) =~= Seq::<Seq<char>>::empty());
            assert(keeps(q, f));
            assert(answer_spec(q, found) =~= seq![f.stable_id@]);
        },
        _ => {},
    }
    match e {
        Expected::ExactSymbol { stable_id } => {
            assert(stable_id@ == f.stable_id@);
            let ret = seq![f.stable_id@];
            assert(ret.len() > 0 && ret[0] == stable_id@);
        },
        _ => {},
    }
}

/// Each query is answered from the relation it names: callers from the
/// incoming edges, callees from the outgoing call edges, members from the
/// outgoing containment edges, implementors from the implementation edges,
/// file symbols from the file, and lookups by short name or by full id.
pub proof fn law_plan_reads_named_relation(q: Query)
    ensures
        q matches Query::Callers { sym_stable_id } ==> plan_spec(q) == LookupView::Incoming(sym_stable_id@),
        q matches Query::Callees { sym_stable_id } ==> plan_spec(q) == LookupView::OutgoingCalls(sym_stable_id@),
        q matches Query::ContainedBy { sym_stable_id } ==> plan_spec(q) == LookupView::OutgoingContains(
            sym_stable_id@,
        ),
        q matches Query::Implementors { sym_stable_id } ==> plan_spec(q) == LookupView::ImplementorsOf(
            sym_stable_id@,
        ),
        q matches Query::FileSymbols { file_path } ==> plan_spec(q) == LookupView::InFile(file_path@),
        q matches Query::Lookup { name, bare_name: true, .. } ==> plan_spec(q) == LookupView::ByBareName(name@),
        q matches Query::Lookup { name, bare_name: false, .. } ==> plan_spec(q) == LookupView::ByStableId(name@),
        q matches Query::Orphans { kind: None } ==> plan_spec(q) == LookupView::Orphans(None),
        q matches Query::Orphans { kind: Some(k) } ==> plan_spec(q) == LookupView::Orphans(orphan_kind_spec(k@)),
{
}

} // verus!
