//! The runner's bookkeeping: one outcome per scenario, and the report's
//! integer content (groups, pass counts, latency percentiles, tokens).

use vstd::prelude::*;
use vstd::string::StringSliceAdditionalSpecFns;
use vstd::utf8::encode_utf8;
use crate::text::{views, push_str, lex_lt, lex_less, chars_of, str_eq, replace_str, replace_all, law_lex_total, law_lex_transitive, law_lex_asymmetric};
use crate::scoring::{Expected, Score, ScoreModel, score, score_model, score_notes};
use crate::stats::{approx_tokens, approx_tokens_spec, sorted_copy, sorted_u64, percentile, percentile_spec};

verus! {

broadcast use vstd::seq_lib::group_seq_properties, vstd::set::group_set_axioms, vstd::seq_lib::seq_to_set_is_finite;

/// What the runner keeps of one scored scenario.
pub struct Outcome {
    pub scenario_id: String,
    pub category: String,
    pub gold_source: String,
    pub score: Score,
    pub latency_us: u64,
    pub returned_count: usize,
    pub tokens_estimate: u32,
    pub notes: String,
}

/// Number of bytes of the UTF-8 encoding of `s`, as `str::len` reports it.
pub open spec fn utf8_len(s: Seq<char>) -> usize {
    encode_utf8(s).len() as usize
}

/// Estimated tokens for a list of returned ids: the sum of the per-id estimates.
pub open spec fn token_total(ids: Seq<String>) -> nat
    decreases ids.len(),
{
    if ids.len() == 0 {
        0
    } else {
        token_total(ids.drop_last()) + approx_tokens_spec(utf8_len(ids.last()@) as nat)
    }
}

/// Estimated number of tokens the returned ids cost the agent.
pub fn tokens_estimate(returned: &Vec<String>) -> (t: u32)
    requires
        token_total(returned@) <= u32::MAX,
    ensures
        t == token_total(returned@),
{
    let mut t: u64 = 0;
    let mut i: usize = 0;
    while i < returned.len()
        invariant
            i <= returned@.len(),
            t == token_total(returned@.take(i as int)),
            token_total(returned@) <= u32::MAX,
        decreases returned@.len() - i,
    {
        proof {
            assert(returned@.take(i + 1).drop_last() =~= returned@.take(i as int));
            lemma_token_total_prefix(returned@, i + 1);
        }
        let st = returned[i].as_str();
        let n = st.len();
        proof {
            assert(st.spec_bytes() == encode_utf8(returned@[i as int]@));
            assert(returned@.take(i + 1).last() == returned@[i as int]);
        }
        let k = approx_tokens(n);
        t = t + k as u64;
        i = i + 1;
    }
    proof {
        assert(returned@.take(returned@.len() as int) =~= returned@);
    }
    t as u32
}

proof fn lemma_token_total_prefix(ids: Seq<String>, k: int)
    requires
        0 <= k <= ids.len(),
    ensures
        token_total(ids.take(k)) <= token_total(ids),
    decreases ids.len(),
{
    if k < ids.len() {
        assert(ids.drop_last().take(k) =~= ids.take(k));
        lemma_token_total_prefix(ids.drop_last(), k);
    } else {
        assert(ids.take(k) =~= ids);
    }
}

/// Scores one scenario's response and records it as an outcome. A response
/// that reports an error scores 0, whatever its results, and its note
/// carries the error message; otherwise the results are scored by the rule
/// of `expected`.
pub fn evaluate(
    scenario_id: String,
    category: String,
    gold_source: String,
    expected: &Expected,
    returned: &Vec<String>,
    error: &Option<String>,
    latency_us: u64,
) -> (o: Outcome)
    requires
        token_total(returned@) <= u32::MAX,
    ensures
        o.scenario_id == scenario_id,
        o.category == category,
        o.gold_source == gold_source,
        match error {
            Some(m) => {
                &&& o.score.model() == ScoreModel::Binary(false)
                &&& o.notes@ == "adapter error: "@ + m@
            },
            None => {
                &&& o.score.model() == score_model(*expected, views(returned@))
                &&& o.notes@ == score_notes(*expected, views(returned@))
            },
        },
        error is Some ==> o.score.model().num() == 0,
        o.latency_us == latency_us,
        o.returned_count == returned@.len(),
        o.tokens_estimate == token_total(returned@),
{
    let tokens = tokens_estimate(returned);
    let (sc, notes) = match error {
        Some(m) => {
            let mut n = String::from_str("adapter error: ");
            push_str(&mut n, m.as_str());
            (Score::Binary { hit: false }, n)
        },
        None => {
            let s = score(expected, returned);
            (s.score, s.notes)
        },
    };
    Outcome {
        scenario_id,
        category,
        gold_source,
        score: sc,
        latency_us,
        returned_count: returned.len(),
        tokens_estimate: tokens,
        notes,
    }
}

/// The weight of a category in the weighted accuracy, in hundredths.
pub open spec fn category_weight_spec(name: Seq<char>) -> Option<nat> {
    if name == "Completion"@ {
        Some(32)
    } else if name == "BugFix"@ {
        Some(22)
    } else if name == "Refactor"@ {
        Some(12)
    } else if name == "TestGen"@ {
        Some(10)
    } else if name == "FeatureAdd"@ {
        Some(10)
    } else if name == "ApiDiscovery"@ {
        Some(14)
    } else {
        None
    }
}

/// The weight of category `name` in hundredths, if it is a weighted category.
pub fn category_weight(name: &str) -> (w: Option<u32>)
    ensures
        w matches Some(x) ==> category_weight_spec(name@) == Some(x as nat),
        w is None ==> category_weight_spec(name@) is None,
{
    if str_eq(name, "Completion") {
        Some(32)
    } else if str_eq(name, "BugFix") {
        Some(22)
    } else if str_eq(name, "Refactor") {
        Some(12)
    } else if str_eq(name, "TestGen") {
        Some(10)
    } else if str_eq(name, "FeatureAdd") {
        Some(10)
    } else if str_eq(name, "ApiDiscovery") {
        Some(14)
    } else {
        None
    }
}

/// The six weighted categories share the whole weight: their weights
/// sum to one hundred hundredths.
pub proof fn law_category_weights_sum_to_one()
    ensures
        category_weight_spec("Completion"@)->0 + category_weight_spec("BugFix"@)->0
            + category_weight_spec("Refactor"@)->0 + category_weight_spec("TestGen"@)->0
            + category_weight_spec("FeatureAdd"@)->0 + category_weight_spec("ApiDiscovery"@)->0
            == 100,
{
    reveal_strlit("Completion");
    reveal_strlit("BugFix");
    reveal_strlit("Refactor");
    reveal_strlit("TestGen");
    reveal_strlit("FeatureAdd");
    reveal_strlit("ApiDiscovery");
    assert("Completion"@ != "BugFix"@) by { assert("Completion"@[0] != "BugFix"@[0]); }
    assert("Completion"@ != "Refactor"@) by { assert("Completion"@[0] != "Refactor"@[0]); }
    assert("BugFix"@ != "Refactor"@) by { assert("BugFix"@[0] != "Refactor"@[0]); }
    assert("Completion"@ != "TestGen"@) by { assert("Completion"@[0] != "TestGen"@[0]); }
    assert("BugFix"@ != "TestGen"@) by { assert("BugFix"@[0] != "TestGen"@[0]); }
    assert("Refactor"@ != "TestGen"@) by { assert("Refactor"@[0] != "TestGen"@[0]); }
    assert("Completion"@ != "FeatureAdd"@) by { assert("Completion"@[0] != "FeatureAdd"@[0]); }
    assert("BugFix"@ != "FeatureAdd"@) by { assert("BugFix"@[0] != "FeatureAdd"@[0]); }
    assert("Refactor"@ != "FeatureAdd"@) by { assert("Refactor"@[0] != "FeatureAdd"@[0]); }
    assert("TestGen"@ != "FeatureAdd"@) by { assert("TestGen"@[0] != "FeatureAdd"@[0]); }
    assert("Completion"@ != "ApiDiscovery"@) by { assert("Completion"@[0] != "ApiDiscovery"@[0]); }
    assert("BugFix"@ != "ApiDiscovery"@) by { assert("BugFix"@[0] != "ApiDiscovery"@[0]); }
    assert("Refactor"@ != "ApiDiscovery"@) by { assert("Refactor"@[0] != "ApiDiscovery"@[0]); }
    assert("TestGen"@ != "ApiDiscovery"@) by { assert("TestGen"@[0] != "ApiDiscovery"@[0]); }
    assert("FeatureAdd"@ != "ApiDiscovery"@) by { assert("FeatureAdd"@[0] != "ApiDiscovery"@[0]); }
}

/// The per-scenario audit file that sits beside the report: the report's
/// path with every ".json" replaced by ".jsonl".
pub fn audit_path(out_path: &str) -> (p: String)
    ensures
        p@ == replace_all(out_path@, ".json"@, ".jsonl"@),
{
    proof {
        reveal_strlit(".json");
    }
    replace_str(out_path, ".json", ".jsonl")
}


/// Which field of an outcome the report groups by.
pub enum GroupBy {
    Category,
    GoldSource,
}

/// The grouping key of an outcome.
pub open spec fn key_of(o: Outcome, g: GroupBy) -> Seq<char> {
    match g {
        GroupBy::Category => o.category@,
        GroupBy::GoldSource => o.gold_source@,
    }
}

/// The grouping keys of a list of outcomes.
pub open spec fn keys_of(os: Seq<Outcome>, g: GroupBy) -> Seq<Seq<char>> {
    os.map_values(|o: Outcome| key_of(o, g))
}

/// The positions, in increasing order, of the outcomes whose key is `name`.
pub open spec fn positions(os: Seq<Outcome>, g: GroupBy, name: Seq<char>) -> Seq<int>
    decreases os.len(),
{
    if os.len() == 0 {
        Seq::empty()
    } else {
        let p = positions(os.drop_last(), g, name);
        if key_of(os.last(), g) == name {
            p.push(os.len() - 1)
        } else {
            p
        }
    }
}

/// Every outcome is counted in exactly one group: the one its key names.
pub proof fn law_outcome_in_its_own_group(os: Seq<Outcome>, g: GroupBy, name: Seq<char>, i: int)
    requires
        0 <= i < os.len(),
    ensures
        positions(os, g, name).contains(i) <==> key_of(os[i], g) == name,
    decreases os.len(),
{
    lemma_positions_below(os, g, name);
    if i < os.len() - 1 {
        assert(os.drop_last()[i] == os[i]);
        law_outcome_in_its_own_group(os.drop_last(), g, name, i);
        let p = positions(os.drop_last(), g, name);
        if key_of(os.last(), g) == name {
            assert(p.push(os.len() - 1).contains(i) <==> p.contains(i));
        }
    } else {
        lemma_positions_below(os.drop_last(), g, name);
        let p = positions(os.drop_last(), g, name);
        assert(!p.contains(i));
        if key_of(os.last(), g) == name {
            assert(p.push(os.len() - 1)[p.len() as int] == i);
        }
    }
}

proof fn lemma_positions_below(os: Seq<Outcome>, g: GroupBy, name: Seq<char>)
    ensures
        forall|k: int| 0 <= k < positions(os, g, name).len() ==> 0 <= #[trigger] positions(os, g, name)[k] < os.len(),
    decreases os.len(),
{
    if os.len() > 0 {
        lemma_positions_below(os.drop_last(), g, name);
        let p = positions(os.drop_last(), g, name);
        if key_of(os.last(), g) == name {
            assert forall|k: int| 0 <= k < p.push(os.len() - 1).len() implies 0 <= #[trigger] p.push(os.len() - 1)[k] < os.len() by {
                if k < p.len() {
                    assert(p.push(os.len() - 1)[k] == p[k]);
                }
            }
        }
    }
}

/// The number of outcomes with key `name` that passed.
pub open spec fn passed_count(os: Seq<Outcome>, g: GroupBy, name: Seq<char>) -> nat
    decreases os.len(),
{
    if os.len() == 0 {
        0
    } else {
        passed_count(os.drop_last(), g, name) + if key_of(os.last(), g) == name
            && os.last().score.model().passes() {
            1nat
        } else {
            0nat
        }
    }
}

/// The number of outcomes with key `name` that report precision and recall
/// (those scored by set overlap).
pub open spec fn overlap_count(os: Seq<Outcome>, g: GroupBy, name: Seq<char>) -> nat
    decreases os.len(),
{
    if os.len() == 0 {
        0
    } else {
        overlap_count(os.drop_last(), g, name) + if key_of(os.last(), g) == name
            && os.last().score is SetOverlap {
            1nat
        } else {
            0nat
        }
    }
}

/// The outcomes that share one key.
pub struct Tally {
    pub name: String,
    /// Positions of the group's outcomes, in order.
    pub members: Vec<usize>,
    pub n: u32,
    /// Members whose score is at least 0.999.
    pub passed: u32,
    /// Members that report a precision.
    pub with_precision: u32,
    /// Members that report a recall.
    pub with_recall: u32,
}

/// Whether `names` is in strictly increasing lexicographic order.
pub open spec fn strictly_sorted(names: Seq<Seq<char>>) -> bool {
    forall|i: int, j: int| 0 <= i < j < names.len() ==> lex_lt(names[i], names[j])
}

/// The names of a list of tallies.
pub open spec fn tally_names(ts: Seq<Tally>) -> Seq<Seq<char>> {
    ts.map_values(|t: Tally| t.name@)
}

/// What one tally holds for the outcomes `os`.
pub open spec fn tally_of(t: Tally, os: Seq<Outcome>, g: GroupBy) -> bool {
    &&& t.members@.map_values(|m: usize| m as int) == positions(os, g, t.name@)
    &&& t.n as nat == positions(os, g, t.name@).len()
    &&& t.passed as nat == passed_count(os, g, t.name@)
    &&& t.with_precision as nat == overlap_count(os, g, t.name@)
    &&& t.with_recall as nat == overlap_count(os, g, t.name@)
}

proof fn lemma_counts_bounded(os: Seq<Outcome>, g: GroupBy, name: Seq<char>)
    ensures
        positions(os, g, name).len() <= os.len(),
        passed_count(os, g, name) <= os.len(),
        overlap_count(os, g, name) <= os.len(),
    decreases os.len(),
{
    if os.len() > 0 {
        lemma_counts_bounded(os.drop_last(), g, name);
    }
}

fn key_ref<'a>(o: &'a Outcome, g: &GroupBy) -> (r: &'a String)
    ensures
        r@ == key_of(*o, *g),
{
    match g {
        GroupBy::Category => &o.category,
        GroupBy::GoldSource => &o.gold_source,
    }
}

/// The distinct keys of `outcomes`, in increasing order.
fn sorted_keys(outcomes: &Vec<Outcome>, g: &GroupBy) -> (names: Vec<String>)
    ensures
        strictly_sorted(views(names@)),
        views(names@).to_set() == keys_of(outcomes@, *g).to_set(),
{
    let mut names: Vec<String> = Vec::new();
    let mut i: usize = 0;
    proof {
        assert(keys_of(outcomes@, *g).take(0).to_set() =~= views(names@).to_set());
    }
    while i < outcomes.len()
        invariant
            i <= outcomes@.len(),
            strictly_sorted(views(names@)),
            views(names@).to_set() == keys_of(outcomes@, *g).take(i as int).to_set(),
        decreases outcomes@.len() - i,
    {
        let key = key_ref(&outcomes[i], g);
        let kc = chars_of(key.as_str());
        let mut p: usize = 0;
        while p < names.len() && lex_less(chars_of(names[p].as_str()).as_slice(), kc.as_slice())
            invariant
                p <= names@.len(),
                kc@ == key@,
                forall|j: int| 0 <= j < p ==> lex_lt(names@[j]@, key@),
            decreases names@.len() - p,
        {
            p = p + 1;
        }
        let ghost before = views(names@);
        proof {
            assert(keys_of(outcomes@, *g).take(i + 1) =~= keys_of(outcomes@, *g).take(i as int).push(key@));
            assert(keys_of(outcomes@, *g).take(i + 1).to_set() =~= before.to_set().insert(key@));
        }
        if p < names.len() && names[p] == *key {
            proof {
                assert(before[p as int] == key@);
                assert(before.to_set().insert(key@) =~= before.to_set());
            }
        } else {
            let c = key.clone();
            names.insert(p, c);
            proof {
                let after = views(names@);
                assert(after =~= before.insert(p as int, key@));
                assert(after.to_set() =~= before.to_set().insert(key@)) by {
                    assert forall|x: Seq<char>| after.to_set().contains(x) <==> before.to_set().insert(key@).contains(x) by {
                        if after.to_set().contains(x) {
                            let j = choose|j: int| 0 <= j < after.len() && after[j] == x;
                            if j < p {
                                assert(before[j] == x);
                            } else if j > p {
                                assert(before[j - 1] == x);
                            }
                        }
                        if before.to_set().contains(x) {
                            let j = choose|j: int| 0 <= j < before.len() && before[j] == x;
                            if j < p {
                                assert(after[j] == x);
                            } else {
                                assert(after[j + 1] == x);
                            }
                        }
                        if x == key@ {
                            assert(after[p as int] == x);
                        }
                    }
                }
                if p < before.len() {
                    law_lex_total(before[p as int], key@);
                    assert(lex_lt(key@, before[p as int]));
                }
                assert forall|a: int, b: int| 0 <= a < b < after.len() implies lex_lt(after[a], after[b]) by {
                    if b < p {
                        assert(after[a] == before[a] && after[b] == before[b]);
                    } else if b == p {
                        assert(after[a] == before[a]);
                    } else if a == p {
                        assert(after[b] == before[b - 1]);
                        if b - 1 > p {
                            law_lex_transitive(key@, before[p as int], before[b - 1]);
                        }
                    } else if a < p {
                        assert(after[a] == before[a] && after[b] == before[b - 1]);
                    } else {
                        assert(after[a] == before[a - 1] && after[b] == before[b - 1]);
                    }
                }
            }
        }
        i = i + 1;
    }
    proof {
        assert(keys_of(outcomes@, *g).take(outcomes@.len() as int) =~= keys_of(outcomes@, *g));
    }
    names
}

/// The tally of the outcomes whose key is `name`.
fn tally_one(outcomes: &Vec<Outcome>, g: &GroupBy, name: String) -> (t: Tally)
    requires
        outcomes@.len() <= u32::MAX,
    ensures
        t.name == name,
        tally_of(t, outcomes@, *g),
{
    let mut members: Vec<usize> = Vec::new();
    let mut n: u32 = 0;
    let mut passed: u32 = 0;
    let mut overlap: u32 = 0;
    let mut i: usize = 0;
    while i < outcomes.len()
        invariant
            i <= outcomes@.len(),
            outcomes@.len() <= u32::MAX,
            members@.map_values(|m: usize| m as int) == positions(outcomes@.take(i as int), *g, name@),
            n as nat == positions(outcomes@.take(i as int), *g, name@).len(),
            passed as nat == passed_count(outcomes@.take(i as int), *g, name@),
            overlap as nat == overlap_count(outcomes@.take(i as int), *g, name@),
        decreases outcomes@.len() - i,
    {
        let ghost pre = outcomes@.take(i as int);
        let ghost cur = outcomes@.take(i + 1);
        proof {
            assert(cur.drop_last() =~= pre);
            assert(cur.last() == outcomes@[i as int]);
            lemma_counts_bounded(pre, *g, name@);
        }
        let o = &outcomes[i];
        if *key_ref(o, g) == name {
            members.push(i);
            n = n + 1;
            if o.score.passed() {
                passed = passed + 1;
            }
            match o.score {
                Score::SetOverlap { .. } => {
                    overlap = overlap + 1;
                },
                _ => {},
            }
            proof {
                assert(members@.map_values(|m: usize| m as int) =~= positions(pre, *g, name@).push(i as int));
            }
        }
        i = i + 1;
    }
    proof {
        assert(outcomes@.take(outcomes@.len() as int) =~= outcomes@);
    }
    Tally { name, members, n, passed, with_precision: overlap, with_recall: overlap }
}

/// The outcomes grouped by `g`: one tally per distinct key, in increasing
/// key order, as an ordered map from key to group would list them.
pub fn tally(outcomes: &Vec<Outcome>, g: &GroupBy) -> (ts: Vec<Tally>)
    requires
        outcomes@.len() <= u32::MAX,
    ensures
        strictly_sorted(tally_names(ts@)),
        tally_names(ts@).to_set() == keys_of(outcomes@, *g).to_set(),
        forall|i: int| 0 <= i < ts@.len() ==> tally_of(#[trigger] ts@[i], outcomes@, *g),
{
    let names = sorted_keys(outcomes, g);
    let mut ts: Vec<Tally> = Vec::new();
    let mut i: usize = 0;
    while i < names.len()
        invariant
            i <= names@.len(),
            outcomes@.len() <= u32::MAX,
            ts@.len() == i,
            forall|j: int| 0 <= j < i ==> ts@[j].name@ == names@[j]@,
            forall|j: int| 0 <= j < i ==> tally_of(#[trigger] ts@[j], outcomes@, *g),
        decreases names@.len() - i,
    {
        let t = tally_one(outcomes, g, names[i].clone());
        ts.push(t);
        i = i + 1;
    }
    proof {
        assert(tally_names(ts@) =~= views(names@));
    }
    ts
}

/// The latencies that enter the percentiles: every outcome's but the
/// first, whose cold start is excluded.
pub open spec fn latency_population(os: Seq<Outcome>) -> Seq<u64> {
    if os.len() == 0 {
        Seq::empty()
    } else {
        os.map_values(|o: Outcome| o.latency_us).drop_first()
    }
}

/// The sum of the outcomes' token estimates.
pub open spec fn tokens_sum(os: Seq<Outcome>) -> nat
    decreases os.len(),
{
    if os.len() == 0 {
        0
    } else {
        tokens_sum(os.drop_last()) + os.last().tokens_estimate as nat
    }
}

/// The integer content of a run's report.
pub struct Summary {
    pub per_category: Vec<Tally>,
    pub per_gold_source: Vec<Tally>,
    pub p50_latency_us: u64,
    pub p95_latency_us: u64,
    pub p99_latency_us: u64,
    pub total_tokens: u64,
}

/// Groups the outcomes by category and by gold source, and computes the
/// latency percentiles and the total token estimate of the run.
pub fn aggregate(outcomes: &Vec<Outcome>) -> (r: Summary)
    requires
        outcomes@.len() <= u32::MAX,
    ensures
        strictly_sorted(tally_names(r.per_category@)),
        tally_names(r.per_category@).to_set() == keys_of(outcomes@, GroupBy::Category).to_set(),
        forall|i: int| 0 <= i < r.per_category@.len()
            ==> tally_of(#[trigger] r.per_category@[i], outcomes@, GroupBy::Category),
        strictly_sorted(tally_names(r.per_gold_source@)),
        tally_names(r.per_gold_source@).to_set() == keys_of(outcomes@, GroupBy::GoldSource).to_set(),
        forall|i: int| 0 <= i < r.per_gold_source@.len()
            ==> tally_of(#[trigger] r.per_gold_source@[i], outcomes@, GroupBy::GoldSource),
        r.p50_latency_us == percentile_spec(sorted_u64(latency_population(outcomes@)), 50, 100),
        r.p95_latency_us == percentile_spec(sorted_u64(latency_population(outcomes@)), 95, 100),
        r.p99_latency_us == percentile_spec(sorted_u64(latency_population(outcomes@)), 99, 100),
        r.total_tokens == tokens_sum(outcomes@),
{
    let per_category = tally(outcomes, &GroupBy::Category);
    let per_gold_source = tally(outcomes, &GroupBy::GoldSource);

    let mut lats: Vec<u64> = Vec::new();
    let mut total: u64 = 0;
    let mut i: usize = 0;
    while i < outcomes.len()
        invariant
            i <= outcomes@.len(),
            outcomes@.len() <= u32::MAX,
            i >= 1 ==> lats@ == outcomes@.take(i as int).map_values(|o: Outcome| o.latency_us).drop_first(),
            i == 0 ==> lats@.len() == 0,
            total == tokens_sum(outcomes@.take(i as int)),
            total <= i * 0xffff_ffff,
        decreases outcomes@.len() - i,
    {
        proof {
            assert(outcomes@.take(i + 1).drop_last() =~= outcomes@.take(i as int));
        }
        if i >= 1 {
            lats.push(outcomes[i].latency_us);
            proof {
                assert(lats@ =~= outcomes@.take(i + 1).map_values(|o: Outcome| o.latency_us).drop_first());
            }
        } else {
            proof {
                assert(outcomes@.take(1).map_values(|o: Outcome| o.latency_us).drop_first() =~= lats@);
            }
        }
        total = total + outcomes[i].tokens_estimate as u64;
        i = i + 1;
    }
    proof {
        assert(outcomes@.take(outcomes@.len() as int) =~= outcomes@);
        if outcomes@.len() == 0 {
            assert(lats@ =~= latency_population(outcomes@));
        }
    }
    let sorted = sorted_copy(lats.as_slice());
    Summary {
        per_category,
        per_gold_source,
        p50_latency_us: percentile(sorted.as_slice(), 50, 100),
        p95_latency_us: percentile(sorted.as_slice(), 95, 100),
        p99_latency_us: percentile(sorted.as_slice(), 99, 100),
        total_tokens: total,
    }
}

} // verus!
