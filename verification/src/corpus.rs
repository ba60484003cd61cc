//! A plain-value snapshot of a code graph, as scenario generation reads it:
//! the symbol table, the file list, and the edges between symbols.

use vstd::prelude::*;
use crate::text::{views, str_eq, chars_of, has_sub, contains_text};

verus! {

broadcast use vstd::seq_lib::group_seq_properties;

/// The kind of a symbol, as far as scenario generation tells kinds apart.
#[derive(PartialEq, Eq, Structural, Clone, Copy, Debug)]
pub enum SymbolKind {
    Function,
    Struct,
    Trait,
    Enum,
    Module,
    File,
    Other,
}

/// One entry of the symbol table.
pub struct SymbolRecord {
    pub kind: SymbolKind,
    /// The symbol's full, unique id.
    pub stable_id: String,
    /// The symbol's short name.
    pub bare_name: String,
    /// The symbol's rendered signature.
    pub signature: String,
    /// The position of the defining file in the file list.
    pub file: u32,
}

/// A code graph. Every per-symbol list is indexed by symbol index; an index
/// past the end of a list has no edges.
pub struct Corpus {
    /// The symbol table; `None` where an index holds no readable symbol.
    pub symbols: Vec<Option<SymbolRecord>>,
    /// Repo-relative paths of the indexed files.
    pub files: Vec<String>,
    /// For each entry of `files`, the symbols defined in it (`None` when the
    /// graph does not know the file).
    pub file_symbols: Vec<Option<Vec<u32>>>,
    /// Callers of each symbol.
    pub incoming: Vec<Vec<u32>>,
    /// Symbols each symbol calls.
    pub calls: Vec<Vec<u32>>,
    /// Members of each symbol.
    pub contains: Vec<Vec<u32>>,
    /// Implementors of each symbol.
    pub implementors: Vec<Vec<u32>>,
    /// Functions nothing refers to.
    pub function_orphans: Vec<u32>,
    /// Symbols found by short name, for the names scenario generation asks about.
    pub bare_lookups: Vec<(String, Vec<u32>)>,
}

/// The symbol at index `i`, if there is one.
pub open spec fn sym(c: Corpus, i: int) -> Option<SymbolRecord> {
    if 0 <= i < c.symbols@.len() {
        c.symbols@[i]
    } else {
        None
    }
}

/// The full id of the symbol at `i`.
pub open spec fn sid(c: Corpus, i: int) -> Option<Seq<char>> {
    match sym(c, i) {
        Some(s) => Some(s.stable_id@),
        None => None,
    }
}

/// The short name of the symbol at `i`, empty when there is no symbol.
pub open spec fn bare(c: Corpus, i: int) -> Seq<char> {
    match sym(c, i) {
        Some(s) => s.bare_name@,
        None => Seq::empty(),
    }
}

/// Entry `i` of a per-symbol edge list; empty past the end.
pub open spec fn edges(v: Seq<Vec<u32>>, i: int) -> Seq<u32> {
    if 0 <= i < v.len() {
        v[i]@
    } else {
        Seq::empty()
    }
}

/// The first `n` items of `s` (all of them when there are fewer).
pub open spec fn first_n<A>(s: Seq<A>, n: nat) -> Seq<A> {
    if n < s.len() {
        s.take(n as int)
    } else {
        s
    }
}

/// Which of the symbols of a list count, when their ids are collected.
#[derive(PartialEq, Eq, Structural, Clone, Copy)]
pub enum IdFilter {
    /// Every symbol that exists.
    Any,
    /// Symbols whose id names a builder (`with_...` or `builder`).
    Builder,
    /// Symbols defined outside the file at this position.
    OtherFile(u32),
    /// Functions.
    Functions,
}

/// The id symbol `j` contributes under filter `f`, if any.
pub open spec fn kept_id(c: Corpus, f: IdFilter, j: int) -> Option<Seq<char>> {
    match sym(c, j) {
        None => None,
        Some(s) => {
            let keep = match f {
                IdFilter::Any => true,
                IdFilter::Builder => has_sub(s.stable_id@, "with_"@) || has_sub(s.stable_id@, "builder"@),
                IdFilter::OtherFile(t) => s.file != t,
                IdFilter::Functions => s.kind == SymbolKind::Function,
            };
            if keep {
                Some(s.stable_id@)
            } else {
                None
            }
        },
    }
}

/// The ids the symbols `idxs` contribute under filter `f`, in order.
pub open spec fn kept_ids(c: Corpus, idxs: Seq<u32>, f: IdFilter) -> Seq<Seq<char>>
    decreases idxs.len(),
{
    if idxs.len() == 0 {
        Seq::empty()
    } else {
        let prev = kept_ids(c, idxs.drop_last(), f);
        match kept_id(c, f, idxs.last() as int) {
            Some(id) => prev.push(id),
            None => prev,
        }
    }
}

/// The full ids of the symbols `idxs`, in order, skipping indices with no symbol.
pub open spec fn ids_of(c: Corpus, idxs: Seq<u32>) -> Seq<Seq<char>> {
    kept_ids(c, idxs, IdFilter::Any)
}

/// The symbols the graph finds for the short name `name`.
pub open spec fn bare_hits(c: Corpus, name: Seq<char>) -> Seq<u32> {
    bare_hits_in(c.bare_lookups@, name)
}

/// The hits recorded for `name` in `t` (the first entry for it wins).
pub open spec fn bare_hits_in(t: Seq<(String, Vec<u32>)>, name: Seq<char>) -> Seq<u32>
    decreases t.len(),
{
    if t.len() == 0 {
        Seq::empty()
    } else if t[0].0@ == name {
        t[0].1@
    } else {
        bare_hits_in(t.drop_first(), name)
    }
}

/// The full id of the symbol at `i`.
pub fn stable_id_at(c: &Corpus, i: u32) -> (r: Option<String>)
    ensures
        match r {
            Some(s) => sid(*c, i as int) == Some(s@),
            None => sid(*c, i as int) is None,
        },
{
    if (i as usize) < c.symbols.len() {
        match &c.symbols[i as usize] {
            Some(s) => Some(s.stable_id.clone()),
            None => None,
        }
    } else {
        None
    }
}

/// The short name of the symbol at `i` (empty when there is none).
pub fn bare_at(c: &Corpus, i: u32) -> (r: String)
    ensures
        r@ == bare(*c, i as int),
{
    if (i as usize) < c.symbols.len() {
        match &c.symbols[i as usize] {
            Some(s) => s.bare_name.clone(),
            None => String::new(),
        }
    } else {
        String::new()
    }
}

/// Entry `i` of the per-symbol edge list `v`.
pub fn edges_at(v: &Vec<Vec<u32>>, i: u32) -> (r: Vec<u32>)
    ensures
        r@ == edges(v@, i as int),
{
    let mut r: Vec<u32> = Vec::new();
    if (i as usize) < v.len() {
        let e = &v[i as usize];
        let mut j: usize = 0;
        while j < e.len()
            invariant
                j <= e@.len(),
                r@ == e@.take(j as int),
            decreases e@.len() - j,
        {
            r.push(e[j]);
            proof {
                assert(e@.take(j + 1) =~= e@.take(j as int).push(e@[j as int]));
            }
            j = j + 1;
        }
        proof {
            assert(e@.take(e@.len() as int) =~= e@);
        }
    }
    r
}

/// The first `k` ids the symbols `idxs` contribute under filter `f`.
pub fn first_ids(c: &Corpus, idxs: &[u32], f: IdFilter, k: usize) -> (r: Vec<String>)
    ensures
        views(r@) == first_n(kept_ids(*c, idxs@, f), k as nat),
{
    let mut r: Vec<String> = Vec::new();
    let mut j: usize = 0;
    while j < idxs.len() && r.len() < k
        invariant
            j <= idxs@.len(),
            views(r@) == kept_ids(*c, idxs@.take(j as int), f),
            r@.len() <= k,
        decreases idxs@.len() - j,
    {
        proof {
            assert(idxs@.take(j + 1).drop_last() =~= idxs@.take(j as int));
        }
        let i = idxs[j];
        if (i as usize) < c.symbols.len() {
            match &c.symbols[i as usize] {
                Some(s) => {
                    let keep = match f {
                        IdFilter::Any => true,
                        IdFilter::Builder => {
                            let v = chars_of(s.stable_id.as_str());
                            contains_text(v.as_slice(), "with_") || contains_text(v.as_slice(), "builder")
                        },
                        IdFilter::OtherFile(t) => s.file != t,
                        IdFilter::Functions => s.kind == SymbolKind::Function,
                    };
                    if keep {
                        let ghost before = r@;
                        r.push(s.stable_id.clone());
                        proof {
                            assert(views(r@) =~= views(before).push(s.stable_id@));
                        }
                    }
                },
                None => {},
            }
        }
        j = j + 1;
    }
    proof {
        lemma_kept_ids_prefix(*c, idxs@, f, j as int);
        if j == idxs@.len() {
            assert(idxs@.take(j as int) =~= idxs@);
        }
    }
    r
}

/// Every id the symbols `idxs` contribute under filter `f`.
pub fn all_ids(c: &Corpus, idxs: &[u32], f: IdFilter) -> (r: Vec<String>)
    ensures
        views(r@) == kept_ids(*c, idxs@, f),
{
    proof {
        lemma_kept_ids_prefix(*c, idxs@, f, idxs@.len() as int);
        assert(idxs@.take(idxs@.len() as int) =~= idxs@);
    }
    first_ids(c, idxs, f, idxs.len())
}

/// The ids of a prefix of `idxs` are a prefix of the ids of `idxs`, and
/// there are no more ids than symbols.
pub proof fn lemma_kept_ids_prefix(c: Corpus, idxs: Seq<u32>, f: IdFilter, j: int)
    requires
        0 <= j <= idxs.len(),
    ensures
        kept_ids(c, idxs.take(j), f).len() <= kept_ids(c, idxs, f).len(),
        kept_ids(c, idxs, f).len() <= idxs.len(),
        kept_ids(c, idxs.take(j), f) =~= kept_ids(c, idxs, f).take(kept_ids(c, idxs.take(j), f).len() as int),
    decreases idxs.len(),
{
    if idxs.len() > 0 {
        lemma_kept_ids_prefix(c, idxs.drop_last(), f, if j < idxs.len() { j } else { 0 });
    }
    if j == idxs.len() {
        assert(idxs.take(j) =~= idxs);
    } else {
        assert(idxs.drop_last().take(j) =~= idxs.take(j));
    }
}

/// The symbols the graph finds for the short name `name`.
pub fn bare_hits_of(c: &Corpus, name: &str) -> (r: Vec<u32>)
    ensures
        r@ == bare_hits(*c, name@),
{
    let t = &c.bare_lookups;
    let mut j: usize = 0;
    while j < t.len()
        invariant
            j <= t@.len(),
            t@ == c.bare_lookups@,
            bare_hits_in(t@, name@) == bare_hits_in(t@.skip(j as int), name@),
        decreases t@.len() - j,
    {
        proof {
            assert(t@.skip(j as int).drop_first() =~= t@.skip(j + 1));
            assert(t@.skip(j as int)[0] == t@[j as int]);
        }
        if str_eq(t[j].0.as_str(), name) {
            let v = &t[j].1;
            proof {
                assert(t@.skip(j as int).len() > 0);
                assert(bare_hits_in(t@.skip(j as int), name@) == v@);
                assert(bare_hits(*c, name@) == v@);
            }
            let mut r: Vec<u32> = Vec::new();
            let mut k: usize = 0;
            while k < v.len()
                invariant
                    k <= v@.len(),
                    r@ == v@.take(k as int),
                    bare_hits(*c, name@) == v@,
                decreases v@.len() - k,
            {
                r.push(v[k]);
                proof {
                    assert(v@.take(k + 1) =~= v@.take(k as int).push(v@[k as int]));
                }
                k = k + 1;
            }
            proof {
                assert(v@.take(v@.len() as int) =~= v@);
            }
            return r;
        }
        j = j + 1;
    }
    Vec::new()
}

} // verus!
