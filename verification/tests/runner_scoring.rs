use longmemcode::report::{aggregate, audit_path, category_weight, evaluate, tally, tokens_estimate, GroupBy, Outcome};
use longmemcode::scoring::{score, Expected, Score};
use longmemcode::stats::{approx_tokens, hex_of_bytes, percentile, sha256, sorted_copy};

fn ids(v: &[&str]) -> Vec<String> {
    v.iter().map(|s| s.to_string()).collect()
}

#[test]
fn exact_symbol_hit_and_miss() {
    let e = Expected::ExactSymbol { stable_id: "a".to_string() };
    let hit = score(&e, &ids(&["a", "b"]));
    assert!(matches!(hit.score, Score::Binary { hit: true }));
    assert_eq!(hit.notes, "");
    assert!(hit.score.passed());
    let miss = score(&e, &ids(&["b", "a"]));
    assert!(matches!(miss.score, Score::Binary { hit: false }));
    assert_eq!(miss.notes, "top-1=b wanted=a");
    assert!(!miss.score.passed());
    let empty = score(&e, &Vec::new());
    assert_eq!(empty.notes, "empty");
}

#[test]
fn in_top_k_looks_at_first_k_only() {
    let e = Expected::InTopK { k: 2, stable_id: "c".to_string() };
    let miss = score(&e, &ids(&["a", "b", "c"]));
    assert!(matches!(miss.score, Score::Binary { hit: false }));
    assert_eq!(miss.notes, "missing c");
    let hit = score(&e, &ids(&["a", "c"]));
    assert!(matches!(hit.score, Score::Binary { hit: true }));
}

#[test]
fn exact_set_counts_distinct_overlap() {
    let e = Expected::ExactSet { stable_ids: ids(&["a", "b"]) };
    let r = score(&e, &ids(&["a", "a", "c"]));
    match r.score {
        Score::SetOverlap { common, returned, expected } => {
            assert_eq!((common, returned, expected), (1, 2, 2));
        }
        _ => panic!("wrong rule"),
    }
    assert!(!r.score.passed());
    let perfect = score(&e, &ids(&["b", "a"]));
    assert!(perfect.score.passed());
}

#[test]
fn empty_expected_set_rewards_empty_answer_only() {
    let e = Expected::ExactSet { stable_ids: Vec::new() };
    let r = score(&e, &Vec::new());
    match r.score {
        Score::SetOverlap { common, returned, expected } => assert_eq!((common, returned, expected), (0, 0, 0)),
        _ => panic!("wrong rule"),
    }
    assert!(r.score.passed());
    let fabricated = score(&e, &ids(&["x"]));
    assert!(!fabricated.score.passed());
}

#[test]
fn contains_is_coverage_of_required() {
    let e = Expected::Contains { required: ids(&["a", "b", "c", "a"]) };
    let r = score(&e, &ids(&["a", "c", "z"]));
    match r.score {
        Score::Coverage { found, required } => assert_eq!((found, required), (2, 3)),
        _ => panic!("wrong rule"),
    }
    assert_eq!(r.notes, "hit 2/3");
    let all = score(&e, &ids(&["c", "b", "a", "q"]));
    assert_eq!(all.notes, "");
    assert!(all.score.passed());
    let none_required = score(&Expected::Contains { required: Vec::new() }, &Vec::new());
    assert!(none_required.score.passed());
}

#[test]
fn contains_is_monotone_in_returned() {
    let e = Expected::Contains { required: ids(&["a", "b"]) };
    let small = score(&e, &ids(&["a"]));
    let big = score(&e, &ids(&["a", "x", "b"]));
    match (small.score, big.score) {
        (Score::Coverage { found: f1, .. }, Score::Coverage { found: f2, .. }) => assert!(f1 <= f2),
        _ => panic!("wrong rule"),
    }
}

#[test]
fn set_rules_ignore_order_and_repeats() {
    let e = Expected::ExactSet { stable_ids: ids(&["a", "b", "c"]) };
    let r1 = score(&e, &ids(&["a", "d", "b"]));
    let r2 = score(&e, &ids(&["b", "b", "d", "a"]));
    match (r1.score, r2.score) {
        (
            Score::SetOverlap { common: c1, returned: p1, expected: e1 },
            Score::SetOverlap { common: c2, returned: p2, expected: e2 },
        ) => assert_eq!((c1, p1, e1), (c2, p2, e2)),
        _ => panic!("wrong rule"),
    }
}

#[test]
fn unknown_kind_scores_zero_with_note() {
    let e = Expected::Unknown { kind: "fuzzy".to_string() };
    let r = score(&e, &ids(&["a"]));
    assert!(matches!(r.score, Score::Binary { hit: false }));
    assert_eq!(r.notes, "unknown expected.kind=fuzzy");
}

#[test]
fn top1_hit_is_top_k_hit() {
    let ret = ids(&["a", "b"]);
    let top1 = score(&Expected::ExactSymbol { stable_id: "a".to_string() }, &ret);
    let topk = score(&Expected::InTopK { k: 3, stable_id: "a".to_string() }, &ret);
    assert!(top1.score.passed() && topk.score.passed());
}

#[test]
fn approx_tokens_is_a_quarter_rounded_up_at_least_one() {
    assert_eq!(approx_tokens(0), 1);
    assert_eq!(approx_tokens(1), 1);
    assert_eq!(approx_tokens(4), 1);
    assert_eq!(approx_tokens(5), 2);
    assert_eq!(approx_tokens(17), 5);
    assert_eq!(approx_tokens(400), 100);
}

#[test]
fn tokens_estimate_sums_per_id() {
    assert_eq!(tokens_estimate(&ids(&["abcdefgh", "x", ""])), 2 + 1 + 1);
}

#[test]
fn fingerprint_is_sha256_hex() {
    assert_eq!(sha256(b""), "e3b0c44298fc1c149afbf4c8996fb92427ae41e4649b934ca495991b7852b855");
    assert_eq!(sha256(b"abc"), "ba7816bf8f01cfea414140de5dae2223b00361a396177a9cb410ff61f20015ad");
    assert_eq!(hex_of_bytes(&[0x00, 0xab, 0x0f]), "00ab0f");
}

#[test]
fn percentile_picks_ceiling_rank() {
    let v = sorted_copy(&[50, 10, 40, 20, 30]);
    assert_eq!(v, vec![10, 20, 30, 40, 50]);
    assert_eq!(percentile(&v, 50, 100), 30);
    assert_eq!(percentile(&v, 95, 100), 50);
    assert_eq!(percentile(&v, 1, 100), 10);
    assert_eq!(percentile(&[], 50, 100), 0);
}

#[test]
fn percentile_is_monotone_and_a_member() {
    let v = sorted_copy(&[7, 3, 9, 1, 5, 5, 8]);
    let p50 = percentile(&v, 50, 100);
    let p95 = percentile(&v, 95, 100);
    let p99 = percentile(&v, 99, 100);
    assert!(p50 <= p95 && p95 <= p99);
    assert!(v.contains(&p50) && v.contains(&p99));
}

#[test]
fn category_weights_match_taxonomy() {
    assert_eq!(category_weight("Completion"), Some(32));
    assert_eq!(category_weight("BugFix"), Some(22));
    assert_eq!(category_weight("Refactor"), Some(12));
    assert_eq!(category_weight("TestGen"), Some(10));
    assert_eq!(category_weight("FeatureAdd"), Some(10));
    assert_eq!(category_weight("ApiDiscovery"), Some(14));
    assert_eq!(category_weight("Config"), None);
    let sum: u32 = ["Completion", "BugFix", "Refactor", "TestGen", "FeatureAdd", "ApiDiscovery"]
        .iter()
        .map(|c| category_weight(c).unwrap())
        .sum();
    assert_eq!(sum, 100);
}

#[test]
fn audit_path_sits_beside_report() {
    assert_eq!(audit_path("results/run.json"), "results/run.jsonl");
    assert_eq!(audit_path("out"), "out");
}

fn outcome(id: &str, cat: &str, gold: &str, e: &Expected, ret: &[&str], lat: u64) -> Outcome {
    evaluate(id.to_string(), cat.to_string(), gold.to_string(), e, &ids(ret), &None, lat)
}

#[test]
fn evaluate_records_the_outcome() {
    let e = Expected::ExactSymbol { stable_id: "abcd".to_string() };
    let o = outcome("s-000", "BugFix", "scip_roundtrip", &e, &["abcd", "efghi"], 1200);
    assert_eq!(o.scenario_id, "s-000");
    assert_eq!(o.returned_count, 2);
    assert_eq!(o.tokens_estimate, 1 + 2);
    assert_eq!(o.latency_us, 1200);
    assert!(o.score.passed());
}

#[test]
fn tallies_group_by_key_in_order() {
    let hit = Expected::ExactSymbol { stable_id: "a".to_string() };
    let os = vec![
        outcome("1", "Refactor", "scip_roundtrip", &hit, &["a"], 10),
        outcome("2", "BugFix", "adversarial", &hit, &["b"], 20),
        outcome("3", "Refactor", "scip_roundtrip", &hit, &["b"], 30),
        outcome("4", "BugFix", "scip_roundtrip", &Expected::ExactSet { stable_ids: Vec::new() }, &[], 40),
    ];
    let ts = tally(&os, &GroupBy::Category);
    assert_eq!(ts.len(), 2);
    assert_eq!(ts[0].name, "BugFix");
    assert_eq!(ts[0].members, vec![1, 3]);
    assert_eq!((ts[0].n, ts[0].passed, ts[0].with_precision), (2, 1, 1));
    assert_eq!(ts[1].name, "Refactor");
    assert_eq!((ts[1].n, ts[1].passed, ts[1].with_precision), (2, 1, 0));
    let total: u32 = ts.iter().map(|t| t.n).sum();
    assert_eq!(total as usize, os.len());
    let s = aggregate(&os);
    assert_eq!(s.per_gold_source.len(), 2);
    assert_eq!(s.per_gold_source[0].name, "adversarial");
    assert_eq!(s.p50_latency_us, 30);
    assert_eq!(s.p99_latency_us, 40);
    assert_eq!(s.total_tokens, 1 + 1 + 1);
}

#[test]
fn aggregate_of_nothing() {
    let s = aggregate(&Vec::new());
    assert!(s.per_category.is_empty());
    assert_eq!((s.p50_latency_us, s.p95_latency_us, s.total_tokens), (0, 0, 0));
}

#[test]
fn scores_stay_within_unit_interval() {
    let e = Expected::ExactSet { stable_ids: ids(&["a", "b", "c"]) };
    match score(&e, &ids(&["a", "x", "y", "z"])).score {
        Score::SetOverlap { common, returned, expected } => {
            assert!(2 * common <= returned + expected);
            assert_eq!((common, returned, expected), (1, 4, 3));
        }
        _ => panic!("wrong rule"),
    }
    match score(&Expected::Contains { required: ids(&["a", "b"]) }, &ids(&["a", "b", "c"])).score {
        Score::Coverage { found, required } => assert!(found <= required),
        _ => panic!("wrong rule"),
    }
}

#[test]
fn exact_set_is_symmetric() {
    let a = ids(&["a", "b", "c"]);
    let b = ids(&["b", "c", "d", "e"]);
    let ab = score(&Expected::ExactSet { stable_ids: a.clone() }, &b).score;
    let ba = score(&Expected::ExactSet { stable_ids: b }, &a).score;
    match (ab, ba) {
        (
            Score::SetOverlap { common: c1, returned: r1, expected: e1 },
            Score::SetOverlap { common: c2, returned: r2, expected: e2 },
        ) => {
            assert_eq!(c1, c2);
            assert_eq!((r1, e1), (e2, r2));
        }
        _ => panic!("wrong rule"),
    }
}

#[test]
fn error_response_scores_zero() {
    let e = Expected::ExactSet { stable_ids: Vec::new() };
    let o = evaluate(
        "s-001".to_string(),
        "ApiDiscovery".to_string(),
        "adversarial".to_string(),
        &e,
        &Vec::new(),
        &Some("boom".to_string()),
        10,
    );
    assert!(matches!(o.score, Score::Binary { hit: false }));
    assert!(!o.score.passed());
    assert_eq!(o.notes, "adapter error: boom");
    let ok = evaluate("s-002".to_string(), "ApiDiscovery".to_string(), "adversarial".to_string(), &e, &Vec::new(), &None, 10);
    assert!(ok.score.passed());
}
