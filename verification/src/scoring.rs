//! Per-scenario scoring: compares what an adapter returned against a
//! scenario's expected clause. Every score is an exact fraction of counts.

use vstd::prelude::*;
use crate::text::{views, decimal, push_str, push_decimal};
use crate::ids::{id_set, first_occurrences, lemma_first_occurrences, distinct, count_common, contains_id};

verus! {

broadcast use vstd::seq_lib::group_seq_properties, vstd::set::group_set_axioms, vstd::seq_lib::seq_to_set_is_finite;

/// The expected clause of a scenario: which scoring rule applies and its gold answer.
pub enum Expected {
    /// The top-1 result must be `stable_id`.
    ExactSymbol { stable_id: String },
    /// `stable_id` must appear among the first `k` results.
    InTopK { k: u64, stable_id: String },
    /// The returned set must equal the set `stable_ids`.
    ExactSet { stable_ids: Vec<String> },
    /// Every id in `required` must be returned; extras do not count against.
    Contains { required: Vec<String> },
    /// An expected clause of a kind no rule knows.
    Unknown { kind: String },
}

/// The content of an [`Expected`] clause.
pub enum ExpectedView {
    ExactSymbol { stable_id: Seq<char> },
    InTopK { k: u64, stable_id: Seq<char> },
    ExactSet { stable_ids: Seq<Seq<char>> },
    Contains { required: Seq<Seq<char>> },
    Unknown { kind: Seq<char> },
}

impl View for Expected {
    type V = ExpectedView;

    open spec fn view(&self) -> ExpectedView {
        match self {
            Expected::ExactSymbol { stable_id } => ExpectedView::ExactSymbol { stable_id: stable_id@ },
            Expected::InTopK { k, stable_id } => ExpectedView::InTopK { k: *k, stable_id: stable_id@ },
            Expected::ExactSet { stable_ids } => ExpectedView::ExactSet { stable_ids: views(stable_ids@) },
            Expected::Contains { required } => ExpectedView::Contains { required: views(required@) },
            Expected::Unknown { kind } => ExpectedView::Unknown { kind: kind@ },
        }
    }
}

/// The outcome of one scoring rule, kept as the counts its value is made of.
pub enum Score {
    /// 1 on a hit, 0 otherwise.
    Binary { hit: bool },
    /// F1 of precision `common / returned` and recall `common / expected`,
    /// over distinct ids.
    SetOverlap { common: usize, returned: usize, expected: usize },
    /// The share `found / required` of distinct required ids that were returned.
    Coverage { found: usize, required: usize },
}

/// The mathematical content of a [`Score`].
pub enum ScoreModel {
    Binary(bool),
    SetOverlap(nat, nat, nat),
    Coverage(nat, nat),
}

impl ScoreModel {
    /// Numerator of the score value.
    pub open spec fn num(self) -> nat {
        match self {
            ScoreModel::Binary(hit) => if hit { 1 } else { 0 },
            ScoreModel::SetOverlap(c, r, e) => if r + e == 0 { 1 } else { 2 * c },
            ScoreModel::Coverage(h, q) => if q == 0 { 1 } else { h },
        }
    }

    /// Denominator of the score value (always positive).
    pub open spec fn den(self) -> nat {
        match self {
            ScoreModel::Binary(_) => 1,
            ScoreModel::SetOverlap(c, r, e) => if r + e == 0 { 1 } else { r + e },
            ScoreModel::Coverage(h, q) => if q == 0 { 1 } else { q },
        }
    }

    /// Precision as (numerator, denominator), where the rule reports one.
    pub open spec fn precision(self) -> Option<(nat, nat)> {
        match self {
            ScoreModel::SetOverlap(c, r, e) => if r + e == 0 {
                Some((1nat, 1nat))
            } else if r == 0 {
                Some((0nat, 1nat))
            } else {
                Some((c, r))
            },
            _ => None,
        }
    }

    /// Recall as (numerator, denominator), where the rule reports one.
    pub open spec fn recall(self) -> Option<(nat, nat)> {
        match self {
            ScoreModel::SetOverlap(c, r, e) => if r + e == 0 {
                Some((1nat, 1nat))
            } else if e == 0 {
                Some((0nat, 1nat))
            } else {
                Some((c, e))
            },
            _ => None,
        }
    }

    /// A scenario passes when its score is at least 0.999.
    pub open spec fn passes(self) -> bool {
        1000 * self.num() >= 999 * self.den()
    }
}

impl Score {
    pub open spec fn model(self) -> ScoreModel {
        match self {
            Score::Binary { hit } => ScoreModel::Binary(hit),
            Score::SetOverlap { common, returned, expected } => ScoreModel::SetOverlap(
                common as nat,
                returned as nat,
                expected as nat,
            ),
            Score::Coverage { found, required } => ScoreModel::Coverage(found as nat, required as nat),
        }
    }

    /// Whether the score is at least 0.999.
    pub fn passed(&self) -> (r: bool)
        ensures
            r == self.model().passes(),
    {
        match self {
            Score::Binary { hit } => *hit,
            Score::SetOverlap { common, returned, expected } => {
                if *returned as u128 + *expected as u128 == 0 {
                    true
                } else {
                    2000 * (*common as u128) >= 999 * (*returned as u128 + *expected as u128)
                }
            },
            Score::Coverage { found, required } => {
                if *required == 0 {
                    true
                } else {
                    1000 * (*found as u128) >= 999 * (*required as u128)
                }
            },
        }
    }
}

/// A scored scenario: the score and a note explaining a miss.
pub struct Scored {
    pub score: Score,
    pub notes: String,
}

/// The first `k` entries of `s` (all of `s` when it is shorter).
pub open spec fn top_k<A>(s: Seq<A>, k: nat) -> Seq<A> {
    if k < s.len() {
        s.take(k as int)
    } else {
        s
    }
}

/// The score the rule of `e` gives to the returned ids `ret`.
pub open spec fn score_model(e: Expected, ret: Seq<Seq<char>>) -> ScoreModel {
    match e {
        Expected::ExactSymbol { stable_id } => ScoreModel::Binary(
            ret.len() > 0 && ret[0] == stable_id@,
        ),
        Expected::InTopK { k, stable_id } => ScoreModel::Binary(
            top_k(ret, k as nat).contains(stable_id@),
        ),
        Expected::ExactSet { stable_ids } => ScoreModel::SetOverlap(
            ret.to_set().intersect(id_set(stable_ids@)).len(),
            ret.to_set().len(),
            id_set(stable_ids@).len(),
        ),
        Expected::Contains { required } => ScoreModel::Coverage(
            id_set(required@).intersect(ret.to_set()).len(),
            id_set(required@).len(),
        ),
        Expected::Unknown { kind } => ScoreModel::Binary(false),
    }
}

/// The note explaining a miss under the rule of `e` (empty on a hit).
pub open spec fn score_notes(e: Expected, ret: Seq<Seq<char>>) -> Seq<char> {
    match e {
        Expected::ExactSymbol { stable_id } => if ret.len() == 0 {
            "empty"@
        } else if ret[0] == stable_id@ {
            Seq::empty()
        } else {
            "top-1="@ + ret[0] + " wanted="@ + stable_id@
        },
        Expected::InTopK { k, stable_id } => if top_k(ret, k as nat).contains(stable_id@) {
            Seq::empty()
        } else {
            "missing "@ + stable_id@
        },
        Expected::ExactSet { stable_ids } => Seq::empty(),
        Expected::Contains { required } => {
            let h = id_set(required@).intersect(ret.to_set()).len();
            let q = id_set(required@).len();
            if q == 0 || 1000 * h > 999 * q {
                Seq::empty()
            } else {
                "hit "@ + decimal(h) + "/"@ + decimal(q)
            }
        },
        Expected::Unknown { kind } => "unknown expected.kind="@ + kind@,
    }
}

/// Scores the ids an adapter returned, in rank order, against `expected`.
pub fn score(expected: &Expected, returned: &Vec<String>) -> (r: Scored)
    ensures
        r.score.model() == score_model(*expected, views(returned@)),
        r.notes@ == score_notes(*expected, views(returned@)),
{
    match expected {
        Expected::ExactSymbol { stable_id } => {
            if returned.len() == 0 {
                let notes = String::from_str("empty");
                Scored { score: Score::Binary { hit: false }, notes }
            } else if returned[0] == *stable_id {
                Scored { score: Score::Binary { hit: true }, notes: String::new() }
            } else {
                let mut notes = String::from_str("top-1=");
                push_str(&mut notes, returned[0].as_str());
                push_str(&mut notes, " wanted=");
                push_str(&mut notes, stable_id.as_str());
                Scored { score: Score::Binary { hit: false }, notes }
            }
        },
        Expected::InTopK { k, stable_id } => {
            let ghost ret = views(returned@);
            let mut i: usize = 0;
            let mut hit = false;
            while i < returned.len() && (i as u64) < *k && !hit
                invariant
                    ret == views(returned@),
                    i <= returned@.len(),
                    i <= *k,
                    hit ==> top_k(ret, *k as nat).contains(stable_id@),
                    !hit ==> forall|j: int| 0 <= j < i ==> ret[j] != stable_id@,
                decreases returned@.len() - i,
            {
                if returned[i] == *stable_id {
                    hit = true;
                    proof {
                        assert(top_k(ret, *k as nat)[i as int] == ret[i as int]);
                    }
                }
                i = i + 1;
            }
            proof {
                if !hit && top_k(ret, *k as nat).contains(stable_id@) {
                    let j = choose|j: int| 0 <= j < top_k(ret, *k as nat).len() && top_k(ret, *k as nat)[j] == stable_id@;
                    assert(ret[j] == stable_id@);
                }
            }
            if hit {
                Scored { score: Score::Binary { hit: true }, notes: String::new() }
            } else {
                let mut notes = String::from_str("missing ");
                push_str(&mut notes, stable_id.as_str());
                Scored { score: Score::Binary { hit: false }, notes }
            }
        },
        Expected::ExactSet { stable_ids } => {
            let got = distinct(returned);
            let want = distinct(stable_ids);
            proof {
                lemma_first_occurrences(views(returned@));
                lemma_first_occurrences(views(stable_ids@));
            }
            let common = count_common(&got, stable_ids);
            proof {
                assert(id_set(got@) == views(returned@).to_set());
            }
            Scored {
                score: Score::SetOverlap { common, returned: got.len(), expected: want.len() },
                notes: String::new(),
            }
        },
        Expected::Contains { required } => {
            let req = distinct(required);
            proof {
                lemma_first_occurrences(views(required@));
            }
            let hit = count_common(&req, returned);
            let q = req.len();
            proof {
                assert(id_set(req@) == id_set(required@));
            }
            if q == 0 || 1000 * (hit as u128) > 999 * (q as u128) {
                Scored { score: Score::Coverage { found: hit, required: q }, notes: String::new() }
            } else {
                let mut notes = String::from_str("hit ");
                push_decimal(&mut notes, hit as u64);
                push_str(&mut notes, "/");
                push_decimal(&mut notes, q as u64);
                Scored { score: Score::Coverage { found: hit, required: q }, notes }
            }
        },
        Expected::Unknown { kind } => {
            let mut notes = String::from_str("unknown expected.kind=");
            push_str(&mut notes, kind.as_str());
            Scored { score: Score::Binary { hit: false }, notes }
        },
    }
}


/// Every score lies between 0 and 1: its denominator is positive and its
/// numerator does not exceed it; the same holds of precision and recall.
pub proof fn law_score_in_unit_interval(e: Expected, ret: Seq<Seq<char>>)
    ensures
        score_model(e, ret).den() > 0,
        score_model(e, ret).num() <= score_model(e, ret).den(),
        score_model(e, ret).precision() matches Some((n, d)) ==> 0 < d && n <= d,
        score_model(e, ret).recall() matches Some((n, d)) ==> 0 < d && n <= d,
{
    match e {
        Expected::ExactSet { stable_ids } => {
            vstd::set_lib::lemma_len_intersect(ret.to_set(), id_set(stable_ids@));
            assert(ret.to_set().intersect(id_set(stable_ids@)) =~= id_set(stable_ids@).intersect(ret.to_set()));
            vstd::set_lib::lemma_len_intersect(id_set(stable_ids@), ret.to_set());
        },
        Expected::Contains { required } => {
            vstd::set_lib::lemma_len_intersect(id_set(required@), ret.to_set());
        },
        _ => {},
    }
}

/// An exact-set scenario scores 1 exactly when the returned set equals the
/// expected set, whatever the order and repetitions of the returned ids.
pub proof fn law_exact_set_perfect_iff_same_set(stable_ids: Vec<String>, ret: Seq<Seq<char>>)
    ensures
        ({
            let m = score_model(Expected::ExactSet { stable_ids }, ret);
            m.num() == m.den() <==> ret.to_set() == id_set(stable_ids@)
        }),
{
    let r = ret.to_set();
    let w = id_set(stable_ids@);
    let i = r.intersect(w);
    vstd::set_lib::lemma_len_intersect(r, w);
    assert(r.intersect(w) =~= w.intersect(r));
    vstd::set_lib::lemma_len_intersect(w, r);
    if r.len() + w.len() > 0 && 2 * i.len() == r.len() + w.len() {
        assert(i.subset_of(r));
        assert(i.subset_of(w));
        vstd::set_lib::lemma_subset_equality(i, r);
        vstd::set_lib::lemma_subset_equality(i, w);
        assert(r =~= w);
    }
    if r == w {
        assert(i =~= r);
    }
    if r.len() + w.len() == 0 {
        r.lemma_len0_is_empty();
        w.lemma_len0_is_empty();
        assert(r =~= w);
    }
}

/// An adversarial scenario (nothing expected) scores 1 exactly when the
/// adapter returns nothing, and 0 otherwise.
pub proof fn law_empty_expected_set(stable_ids: Vec<String>, ret: Seq<Seq<char>>)
    requires
        stable_ids@.len() == 0,
    ensures
        ({
            let m = score_model(Expected::ExactSet { stable_ids }, ret);
            &&& ret.len() == 0 ==> m.num() == 1 && m.den() == 1
            &&& ret.len() > 0 ==> m.num() == 0
        }),
{
    assert(id_set(stable_ids@) =~= Set::empty());
    assert(ret.to_set().intersect(id_set(stable_ids@)) =~= Set::empty());
    ret.lemma_cardinality_of_empty_set_is_0();
}

/// Exact-set scoring is symmetric: exchanging the returned and the expected
/// ids leaves the score unchanged.
pub proof fn law_exact_set_symmetric(a: Vec<String>, b: Vec<String>)
    ensures
        score_model(Expected::ExactSet { stable_ids: b }, views(a@)).num()
            == score_model(Expected::ExactSet { stable_ids: a }, views(b@)).num(),
        score_model(Expected::ExactSet { stable_ids: b }, views(a@)).den()
            == score_model(Expected::ExactSet { stable_ids: a }, views(b@)).den(),
        score_model(Expected::ExactSet { stable_ids: b }, views(a@)).precision()
            == score_model(Expected::ExactSet { stable_ids: a }, views(b@)).recall(),
{
    assert(id_set(a@).intersect(id_set(b@)) =~= id_set(b@).intersect(id_set(a@)));
}

/// Set-valued rules ignore order and repetition: two returned lists with
/// the same ids get the same exact-set and contains scores.
pub proof fn law_set_rules_ignore_order(e: Expected, ret1: Seq<Seq<char>>, ret2: Seq<Seq<char>>)
    requires
        ret1.to_set() == ret2.to_set(),
        e is ExactSet || e is Contains,
    ensures
        score_model(e, ret1) == score_model(e, ret2),
        score_notes(e, ret1) == score_notes(e, ret2),
{
}

/// Under the contains rule extras do not penalize: returning more ids never
/// lowers the score, and returning every required id scores 1.
pub proof fn law_contains_monotone(required: Vec<String>, ret1: Seq<Seq<char>>, ret2: Seq<Seq<char>>)
    requires
        ret1.to_set().subset_of(ret2.to_set()),
    ensures
        ({
            let m1 = score_model(Expected::Contains { required }, ret1);
            let m2 = score_model(Expected::Contains { required }, ret2);
            &&& m1.den() == m2.den()
            &&& m1.num() <= m2.num()
        }),
        id_set(required@).subset_of(ret1.to_set()) ==> ({
            let m1 = score_model(Expected::Contains { required }, ret1);
            m1.num() == m1.den()
        }),
{
    let q = id_set(required@);
    assert(q.intersect(ret1.to_set()).subset_of(q.intersect(ret2.to_set())));
    vstd::set_lib::lemma_len_subset(q.intersect(ret1.to_set()), q.intersect(ret2.to_set()));
    if q.subset_of(ret1.to_set()) {
        assert(q.intersect(ret1.to_set()) =~= q);
    }
}

/// A top-1 hit is also a hit within the top `k` for every `k >= 1`.
pub proof fn law_top1_hit_is_top_k_hit(stable_id: String, k: u64, ret: Seq<Seq<char>>)
    requires
        k >= 1,
        score_model(Expected::ExactSymbol { stable_id }, ret).num() == 1,
    ensures
        score_model(Expected::InTopK { k, stable_id }, ret).num() == 1,
{
    assert(top_k(ret, k as nat)[0] == ret[0]);
}

/// A score passes exactly when it reaches 0.999 of its maximum: a passing
/// score is at least 999/1000 of its denominator, and any score that high,
/// a perfect one in particular, passes.
pub proof fn law_pass_threshold(m: ScoreModel)
    ensures
        m.passes() <==> 1000 * m.num() >= 999 * m.den(),
        m.num() == m.den() ==> m.passes(),
        m.num() < m.den() && m.den() < 1000 ==> !m.passes(),
{
    if m.num() < m.den() && m.den() < 1000 {
        assert(1000 * m.num() <= 1000 * m.den() - 1000) by (nonlinear_arith)
            requires
                m.num() < m.den(),
        ;
    }
}

/// A contains scenario answered with only part of fewer than a thousand
/// required ids does not pass, and neither does a miss of a single-answer rule.
pub proof fn law_partial_answers_fail(found: nat, required: nat)
    requires
        found < required,
        required < 1000,
    ensures
        !ScoreModel::Coverage(found, required).passes(),
        !ScoreModel::Binary(false).passes(),
        ScoreModel::Binary(true).passes(),
{
    law_pass_threshold(ScoreModel::Coverage(found, required));
}

/// The pass rule on the raw counts: a contains answer passes when it finds
/// at least 999 of every 1000 required ids (or nothing is required); an
/// exact-set answer passes when its F1, 2·common / (returned + expected),
/// is at least 0.999 (or both sets are empty).
pub proof fn law_pass_on_counts(found: nat, required: nat, common: nat, returned: nat, expected: nat)
    ensures
        ScoreModel::Coverage(found, required).passes() <==> (required == 0 || 1000 * found >= 999 * required),
        ScoreModel::SetOverlap(common, returned, expected).passes() <==> (returned + expected == 0 || 2000 * common
            >= 999 * (returned + expected)),
{
}

} // verus!
