//! Lists of symbol identifiers: membership, first-occurrence deduplication
//! and the set sizes that scoring is defined over.

use vstd::prelude::*;
use crate::text::views;

verus! {

broadcast use vstd::seq_lib::group_seq_properties, vstd::set::group_set_axioms, vstd::seq_lib::seq_to_set_is_finite;

/// The set of identifiers held by a list of strings.
pub open spec fn id_set(v: Seq<String>) -> Set<Seq<char>> {
    views(v).to_set()
}

/// `s` with every element after its first occurrence removed.
pub open spec fn first_occurrences<A>(s: Seq<A>) -> Seq<A>
    decreases s.len(),
{
    if s.len() == 0 {
        s
    } else {
        let d = first_occurrences(s.drop_last());
        if d.contains(s.last()) {
            d
        } else {
            d.push(s.last())
        }
    }
}

/// Deduplication keeps no element twice, keeps every element, and so
/// has as many elements as the set of the input.
pub proof fn lemma_first_occurrences<A>(s: Seq<A>)
    ensures
        first_occurrences(s).no_duplicates(),
        first_occurrences(s).to_set() == s.to_set(),
        first_occurrences(s).len() == s.to_set().len(),
    decreases s.len(),
{
    if s.len() == 0 {
        assert(s.to_set() =~= Set::empty());
    } else {
        let p = s.drop_last();
        lemma_first_occurrences(p);
        let d = first_occurrences(p);
        assert(s =~= p.push(s.last()));
        assert(s.to_set() =~= p.to_set().insert(s.last()));
        if d.contains(s.last()) {
        } else {
            assert(d.push(s.last()).to_set() =~= d.to_set().insert(s.last()));
        }
    }
    first_occurrences(s).unique_seq_to_set();
}

proof fn lemma_views_take(v: Seq<String>, i: int)
    requires
        0 <= i < v.len(),
    ensures
        views(v.take(i + 1)) =~= views(v.take(i)).push(v[i]@),
        views(v).take(i + 1) =~= views(v).take(i).push(v[i]@),
{
}

/// Whether `x` occurs in `v`.
pub fn contains_id(v: &Vec<String>, x: &String) -> (r: bool)
    ensures
        r == views(v@).contains(x@),
{
    let mut i: usize = 0;
    while i < v.len()
        invariant
            i <= v@.len(),
            forall|j: int| 0 <= j < i ==> v@[j]@ != x@,
        decreases v@.len() - i,
    {
        if v[i] == *x {
            assert(views(v@)[i as int] == x@);
            return true;
        }
        i = i + 1;
    }
    proof {
        if views(v@).contains(x@) {
            let j = choose|j: int| 0 <= j < views(v@).len() && views(v@)[j] == x@;
            assert(v@[j]@ == x@);
        }
    }
    false
}

/// The identifiers of `v` in first-seen order, each once.
pub fn distinct(v: &Vec<String>) -> (r: Vec<String>)
    ensures
        views(r@) == first_occurrences(views(v@)),
{
    let mut r: Vec<String> = Vec::new();
    let mut i: usize = 0;
    while i < v.len()
        invariant
            i <= v@.len(),
            views(r@) == first_occurrences(views(v@).take(i as int)),
        decreases v@.len() - i,
    {
        proof {
            lemma_views_take(v@, i as int);
            assert(views(v@).take(i + 1).drop_last() =~= views(v@).take(i as int));
        }
        if !contains_id(&r, &v[i]) {
            let c = v[i].clone();
            r.push(c);
            proof {
                assert(views(r@) =~= views(r@.drop_last()).push(v@[i as int]@));
            }
        }
        i = i + 1;
    }
    proof {
        assert(views(v@).take(v@.len() as int) =~= views(v@));
    }
    r
}

/// The number of identifiers that occur both in `d` (which holds no
/// identifier twice) and in `w`.
pub fn count_common(d: &Vec<String>, w: &Vec<String>) -> (r: usize)
    requires
        views(d@).no_duplicates(),
    ensures
        r == id_set(d@).intersect(id_set(w@)).len(),
        r <= d@.len(),
{
    let mut c: usize = 0;
    let mut i: usize = 0;
    proof {
        assert(views(d@).take(0).to_set().intersect(id_set(w@)) =~= Set::empty());
    }
    while i < d.len()
        invariant
            i <= d@.len(),
            views(d@).no_duplicates(),
            c <= i,
            c == views(d@).take(i as int).to_set().intersect(id_set(w@)).len(),
        decreases d@.len() - i,
    {
        let ghost before = views(d@).take(i as int).to_set();
        proof {
            lemma_views_take(d@, i as int);
            assert(views(d@).take(i + 1).to_set() =~= before.insert(d@[i as int]@));
            assert(!before.contains(d@[i as int]@)) by {
                if before.contains(d@[i as int]@) {
                    let j = choose|j: int| 0 <= j < i && views(d@).take(i as int)[j] == d@[i as int]@;
                    assert(views(d@)[j] == views(d@)[i as int]);
                }
            }
        }
        if contains_id(w, &d[i]) {
            proof {
                assert(before.insert(d@[i as int]@).intersect(id_set(w@)) =~= before.intersect(
                    id_set(w@),
                ).insert(d@[i as int]@));
            }
            c = c + 1;
        } else {
            proof {
                assert(before.insert(d@[i as int]@).intersect(id_set(w@)) =~= before.intersect(
                    id_set(w@),
                ));
            }
        }
        i = i + 1;
    }
    proof {
        assert(views(d@).take(d@.len() as int) =~= views(d@));
    }
    c
}

} // verus!
