use longmemcode::argos::{answer, orphan_kind, plan, Found, GraphLookup, OrphanKind};
use longmemcode::corpus::{Corpus, SymbolKind, SymbolRecord};
use longmemcode::generators::{candidates, generate, Cand, Generator};
use longmemcode::protocol::Query;
use longmemcode::ranking::{top_ranked, Rank};
use longmemcode::scoring::{score, Expected};
use longmemcode::taxonomy::{
    api_discovery_subtypes, bug_fix_subtypes, completion_subtypes, config_subtypes, control_flow_subtypes,
    feature_add_subtypes, generate_all, refactor_subtypes, subtype_budget, test_gen_subtypes, Category,
};

fn strings(v: &[&str]) -> Vec<String> {
    v.iter().map(|s| s.to_string()).collect()
}

fn rec(kind: SymbolKind, id: &str, bare: &str, sig: &str, file: u32) -> Option<SymbolRecord> {
    Some(SymbolRecord {
        kind,
        stable_id: id.to_string(),
        bare_name: bare.to_string(),
        signature: sig.to_string(),
        file,
    })
}

fn corpus() -> Corpus {
    let symbols = vec![
        rec(SymbolKind::Struct, "pkg/Foo#", "Foo", "struct Foo", 0),
        rec(SymbolKind::Function, "pkg/Foo#new().", "new", "fn new() -> Result<Foo>", 0),
        rec(SymbolKind::Function, "pkg/Foo#with_name().", "with_name", "async fn with_name()", 0),
        rec(SymbolKind::Function, "pkg/helper().", "helper", "fn helper() -> Option<u8>", 1),
        rec(SymbolKind::Enum, "pkg/Mode#", "Mode", "enum Mode", 1),
        rec(SymbolKind::Struct, "pkg/ParseError#", "ParseError", "struct ParseError", 1),
        rec(SymbolKind::Function, "tests/test_foo().", "test_foo", "fn test_foo()", 2),
        rec(SymbolKind::File, "pkg/lib.rs", "lib.rs", "", 0),
        None,
        rec(SymbolKind::Function, "pkg/register_routes().", "register_routes", "fn register_routes()", 1),
    ];
    Corpus {
        symbols,
        files: strings(&["src/lib.rs", "src/helpers.rs", "tests/test_foo.py"]),
        file_symbols: vec![Some(vec![0, 1, 2]), Some(vec![3, 4, 5, 9]), None],
        incoming: vec![vec![3], vec![3, 6], vec![], vec![6], vec![], vec![1, 3, 9], vec![], vec![], vec![], vec![6]],
        calls: vec![vec![], vec![], vec![], vec![1, 8], vec![], vec![], vec![1, 3], vec![], vec![], vec![]],
        contains: vec![vec![1, 2, 8], vec![], vec![], vec![], vec![], vec![], vec![], vec![], vec![], vec![]],
        implementors: vec![vec![], vec![], vec![], vec![], vec![], vec![], vec![], vec![], vec![], vec![]],
        function_orphans: vec![2, 8, 6],
        bare_lookups: vec![
            ("new".to_string(), vec![1, 8]),
            ("open".to_string(), vec![]),
            ("default".to_string(), vec![4]),
        ],
    }
}

#[test]
fn graph_adapter_plans_one_lookup() {
    let q = Query::Lookup { name: "new".to_string(), bare_name: true, kind: None };
    assert!(matches!(plan(&q), GraphLookup::ByBareName { name } if name == "new"));
    let q = Query::Lookup { name: "pkg/Foo#".to_string(), bare_name: false, kind: None };
    assert!(matches!(plan(&q), GraphLookup::ByStableId { id } if id == "pkg/Foo#"));
    let q = Query::Callees { sym_stable_id: "x".to_string() };
    assert!(matches!(plan(&q), GraphLookup::OutgoingCalls { id } if id == "x"));
    let q = Query::Orphans { kind: Some("Function".to_string()) };
    assert!(matches!(plan(&q), GraphLookup::Orphans { kind: Some(OrphanKind::Function) }));
    let q = Query::Orphans { kind: Some("class".to_string()) };
    assert!(matches!(plan(&q), GraphLookup::Orphans { kind: None }));
}

#[test]
fn orphan_kinds_ignore_ascii_case() {
    assert_eq!(orphan_kind("MODULE"), Some(OrphanKind::Module));
    assert_eq!(orphan_kind("trait"), Some(OrphanKind::Trait));
    assert_eq!(orphan_kind("Enum"), Some(OrphanKind::Enum));
    assert_eq!(orphan_kind("Struct"), Some(OrphanKind::Struct));
    assert_eq!(orphan_kind("functions"), None);
}

fn found(kind: &str, id: &str) -> Option<Found> {
    Some(Found { kind_name: kind.to_string(), stable_id: id.to_string() })
}

#[test]
fn graph_answer_filters_by_kind() {
    let got = vec![found("Struct", "a"), None, found("Function", "b"), found("STRUCT", "c")];
    let q = Query::Lookup { name: "x".to_string(), bare_name: true, kind: Some("struct".to_string()) };
    assert_eq!(answer(&q, &got), strings(&["a", "c"]));
    let q = Query::Lookup { name: "x".to_string(), bare_name: true, kind: None };
    assert_eq!(answer(&q, &got), strings(&["a", "b", "c"]));
    let q = Query::Callers { sym_stable_id: "x".to_string() };
    assert_eq!(answer(&q, &got), strings(&["a", "b", "c"]));
    assert!(answer(&q, &Vec::new()).is_empty());
}

#[test]
fn ranking_is_stable_by_count_descending() {
    let c = corpus();
    assert_eq!(top_ranked(&c, Rank::Callers, 0, 10), vec![5, 1, 0, 3, 9]);
    assert_eq!(top_ranked(&c, Rank::Callers, 0, 3), vec![5, 1, 0]);
    assert_eq!(top_ranked(&c, Rank::Callers, 1, 10), vec![5, 1]);
    assert_eq!(top_ranked(&c, Rank::Callees, 0, 10), vec![3, 6]);
    assert!(top_ranked(&c, Rank::Implementors, 0, 10).is_empty());
}

#[test]
fn candidate_lists() {
    let c = corpus();
    assert_eq!(candidates(Generator::LookupClassByName, &c, 5), vec![Cand::Sym(0), Cand::Sym(5)]);
    assert_eq!(
        candidates(Generator::LookupMethodOnType, &c, 5),
        vec![Cand::Member(0, 1), Cand::Member(0, 2), Cand::Member(0, 8)]
    );
    assert_eq!(candidates(Generator::ExceptionRaisers, &c, 5), vec![Cand::Sym(5)]);
    assert_eq!(candidates(Generator::DeadExportDetection, &c, 5), vec![Cand::Sym(2), Cand::Sym(6)]);
    assert_eq!(candidates(Generator::BareNameCollision, &c, 1).len(), 8);
    assert_eq!(candidates(Generator::ExactSymbolAbsent, &c, 3).len(), 3);
}

#[test]
fn class_lookup_scenarios() {
    let c = corpus();
    let v = generate(Generator::LookupClassByName, &c, 5, "Completion", "lookup_class_by_name").unwrap();
    assert_eq!(v.len(), 2);
    assert_eq!(v[0].id, "lookup_class_by_name-000");
    assert_eq!(v[0].category, "Completion");
    assert_eq!(v[0].sub_type, "lookup_class_by_name");
    assert_eq!(v[0].intent, "Agent importing class `Foo` — needs the canonical id");
    assert!(matches!(&v[0].query, Query::Lookup { name, bare_name: true, kind: Some(k) } if name == "Foo" && k == "struct"));
    assert!(matches!(&v[0].expected, Expected::Contains { required } if *required == strings(&["pkg/Foo#"])));
    assert_eq!(v[0].gold_source, "scip_roundtrip");
    assert_eq!(v[1].id, "lookup_class_by_name-001");
    let one = generate(Generator::LookupClassByName, &c, 1, "Completion", "lookup_class_by_name").unwrap();
    assert_eq!(one.len(), 1);
}

#[test]
fn numbering_by_position_leaves_gaps() {
    let c = corpus();
    let v = generate(Generator::DeadExportDetection, &c, 5, "Refactor", "dead_export_detection").unwrap();
    assert_eq!(v.len(), 2);
    assert_eq!(v[1].id, "dead_export_detection-001");
    assert!(matches!(&v[1].query, Query::Orphans { kind: Some(k) } if k == "function"));
    let m = generate(Generator::LookupMethodOnType, &c, 5, "Completion", "lookup_method_on_type").unwrap();
    assert_eq!(m.len(), 2);
    assert_eq!(m[1].id, "lookup_method_on_type-001");
    assert_eq!(m[1].intent, "Agent calling method `with_name` on its type");
}

#[test]
fn callers_scenarios_follow_the_ranking() {
    let c = corpus();
    let v = generate(Generator::CallSiteEnumeration, &c, 2, "Refactor", "call_site_enumeration").unwrap();
    assert_eq!(v.len(), 2);
    assert_eq!(v[0].intent, "Bug suspected in `ParseError` — enumerate callers");
    assert!(matches!(&v[0].query, Query::Callers { sym_stable_id } if sym_stable_id == "pkg/ParseError#"));
    assert!(matches!(&v[0].expected, Expected::Contains { required }
        if *required == strings(&["pkg/Foo#new().", "pkg/helper().", "pkg/register_routes()."])));
    assert_eq!(v[1].id, "call_site_enumeration-001");
}

#[test]
fn cross_module_callers_skip_same_file() {
    let c = corpus();
    let v = generate(Generator::CrossModuleCallers, &c, 10, "Refactor", "cross_module_callers").unwrap();
    assert_eq!(v.len(), 5);
    assert_eq!(v[0].intent, "Cross-module callers of `Foo`");
    assert!(matches!(&v[0].expected, Expected::Contains { required } if *required == strings(&["pkg/helper()."])));
    assert!(matches!(&v[1].expected, Expected::Contains { required }
        if *required == strings(&["pkg/helper().", "tests/test_foo()."])));
    assert!(matches!(&v[2].expected, Expected::Contains { required } if *required == strings(&["tests/test_foo()."])));
    assert!(matches!(&v[3].expected, Expected::Contains { required } if *required == strings(&["pkg/Foo#new()."])));
}

#[test]
fn signature_shapes() {
    let c = corpus();
    let w = generate(Generator::ErrorWrappingPattern, &c, 10, "BugFix", "error_wrapping_pattern").unwrap();
    assert_eq!(w.len(), 2);
    assert!(matches!(&w[1].expected, Expected::ExactSymbol { stable_id } if stable_id == "pkg/helper()."));
    let a = generate(Generator::AsyncSyncShape, &c, 10, "ControlFlow", "async_sync_shape").unwrap();
    assert_eq!(a.len(), 1);
    assert_eq!(a[0].intent, "Async shape: `with_name` is an async fn");
    assert!(matches!(&a[0].query, Query::Lookup { name, bare_name: false, kind: None } if name == "pkg/Foo#with_name()."));
}

#[test]
fn fabricated_scenarios_expect_nothing() {
    let c = corpus();
    let v = generate(Generator::ExactSymbolAbsent, &c, 7, "ApiDiscovery", "exact_symbol_absent").unwrap();
    assert_eq!(v.len(), 7);
    assert!(matches!(&v[5].query, Query::Lookup { name, bare_name: false, .. } if name == "fake::DoesNotExist#fabricated()"));
    for s in &v {
        assert_eq!(s.gold_source, "adversarial");
        assert!(matches!(&s.expected, Expected::ExactSet { stable_ids } if stable_ids.is_empty()));
    }
    let f = generate(Generator::FakeTypeAbsent, &c, 1, "ApiDiscovery", "fake_type_absent").unwrap();
    assert_eq!(f[0].intent, "Precision-layer: invented class name `QuantumTeleportManager` must not resolve");
}

#[test]
fn typo_swaps_third_and_fourth_characters() {
    let c = corpus();
    let v = generate(Generator::TypoDetection, &c, 2, "ApiDiscovery", "typo_detection").unwrap();
    assert_eq!(v.len(), 2);
    assert!(matches!(&v[0].query, Query::Lookup { name, bare_name: true, .. } if name == "wiht_name"));
    assert!(matches!(&v[1].query, Query::Lookup { name, .. } if name == "hepler"));
    assert_eq!(v[0].intent, "Typo `wiht_name` — should not resolve (adapter may return empty or fuzzy match)");
    assert_eq!(v[1].id, "typo_detection-001");
}

#[test]
fn typo_on_short_wide_name_cannot_be_made() {
    let mut c = corpus();
    c.symbols[0] = rec(SymbolKind::Struct, "pkg/日本#", "日本", "", 0);
    assert!(generate(Generator::TypoDetection, &c, 5, "ApiDiscovery", "typo_detection").is_none());
    assert!(generate(Generator::TypoDetection, &c, 0, "ApiDiscovery", "typo_detection").unwrap().is_empty());
}

#[test]
fn name_collisions_and_kinds() {
    let c = corpus();
    let v = generate(Generator::BareNameCollision, &c, 10, "ApiDiscovery", "bare_name_collision").unwrap();
    assert_eq!(v.len(), 1);
    assert_eq!(v[0].intent, "Ambiguity: `new` has 1 candidates — list them all");
    let k = generate(Generator::DisambiguateByKind, &c, 6, "ApiDiscovery", "disambiguate_by_kind").unwrap();
    assert_eq!(k.len(), 2);
    assert_eq!(k[1].id, "disambiguate_by_kind-004");
    assert!(matches!(&k[0].query, Query::Lookup { kind: Some(kind), .. } if kind == "function"));
}

#[test]
fn file_scenarios() {
    let c = corpus();
    let s = generate(Generator::ScopeRestrictedLookup, &c, 5, "ApiDiscovery", "scope_restricted_lookup").unwrap();
    assert_eq!(s.len(), 2);
    assert_eq!(s[0].intent, "Agent discovering siblings in `src/lib.rs`");
    assert!(matches!(&s[1].query, Query::FileSymbols { file_path } if file_path == "src/helpers.rs"));
    assert!(generate(Generator::ExistingTestsInFile, &c, 5, "TestGen", "existing_tests_in_file").unwrap().is_empty());
}

#[test]
fn name_pattern_scenarios() {
    let c = corpus();
    let t = generate(Generator::TestToProdMapping, &c, 5, "TestGen", "test_to_prod_mapping").unwrap();
    assert_eq!(t.len(), 1);
    assert_eq!(t[0].intent, "Map test `test_foo` back to its production target");
    let r = generate(Generator::DiWiringRegistration, &c, 5, "FeatureAdd", "di_wiring_registration").unwrap();
    assert_eq!(r.len(), 1);
    assert!(matches!(&r[0].expected, Expected::Contains { required } if *required == strings(&["tests/test_foo()."])));
    let p = generate(Generator::PublicApiSurface, &c, 3, "FeatureAdd", "public_api_surface").unwrap();
    assert_eq!(p.len(), 3);
    assert_eq!(p[2].intent, "Public API surface: `with_name`");
}

#[test]
fn exact_symbol_exists_skips_files() {
    let c = corpus();
    let v = generate(Generator::NamingConventionQuery, &c, 100, "ApiDiscovery", "naming_convention_query").unwrap();
    assert_eq!(v.len(), 8);
    assert!(v.iter().all(|s| !matches!(&s.expected, Expected::ExactSymbol { stable_id } if stable_id == "pkg/lib.rs")));
}

#[test]
fn subtype_tables() {
    let c = completion_subtypes();
    assert_eq!(c.len(), 6);
    assert_eq!(c[0], ("lookup_class_by_name", Generator::LookupClassByName));
    assert_eq!(bug_fix_subtypes().len(), 7);
    assert_eq!(refactor_subtypes()[1], ("call_site_enumeration", Generator::CallSiteEnumeration));
    assert_eq!(test_gen_subtypes().len(), 5);
    assert_eq!(feature_add_subtypes().len(), 5);
    assert_eq!(api_discovery_subtypes().len(), 12);
    assert_eq!(control_flow_subtypes()[1], ("exception_raisers", Generator::ExceptionRaisers));
    assert_eq!(config_subtypes().len(), 3);
}

#[test]
fn budgets_split_evenly_inside_a_category() {
    assert_eq!(subtype_budget(Category::Completion, 700), 32);
    assert_eq!(subtype_budget(Category::BugFix, 700), 18);
    assert_eq!(subtype_budget(Category::ApiDiscovery, 700), 8);
    assert_eq!(subtype_budget(Category::Config, 700), 9);
    assert_eq!(subtype_budget(Category::Refactor, 65), 1);
    assert_eq!(subtype_budget(Category::Completion, 0), 0);
}

#[test]
fn whole_scenario_set() {
    let c = corpus();
    let all = generate_all(&c, 700).unwrap();
    assert!(!all.is_empty());
    assert_eq!(all[0].category, "Completion");
    assert_eq!(all[all.len() - 1].category, "ControlFlow");
    let mut ids: Vec<&str> = all.iter().map(|s| s.id.as_str()).collect();
    ids.sort();
    let n = ids.len();
    ids.dedup();
    assert_eq!(ids.len(), n);
}

fn corpus2() -> Corpus {
    let symbols = vec![
        rec(SymbolKind::Struct, "p/Builder#", "Builder", "struct Builder", 0),
        rec(SymbolKind::Function, "p/Builder#with_port().", "with_port", "fn with_port(self) -> Self", 0),
        rec(SymbolKind::Function, "p/Builder#build().", "build", "fn build(self) -> Result<App>", 0),
        rec(SymbolKind::Trait, "p/Handler#", "Handler", "trait Handler", 1),
        rec(SymbolKind::Struct, "p/MockClient#", "MockClient", "struct MockClient", 2),
        rec(SymbolKind::Function, "p/assert_ok().", "assert_ok", "fn assert_ok()", 2),
        rec(SymbolKind::Function, "p/feature_enabled().", "feature_enabled", "fn feature_enabled() -> bool", 1),
        rec(SymbolKind::Enum, "p/Color#", "Color", "enum Color", 1),
        rec(SymbolKind::Other, "p/Color#Red.", "Red", "", 1),
        rec(SymbolKind::Struct, "p/IoException#", "IoException", "struct IoException", 1),
    ];
    let none = || vec![vec![]; 10];
    let mut incoming = none();
    incoming[2] = vec![5];
    incoming[6] = vec![5, 2];
    let mut calls = none();
    calls[2] = vec![6];
    calls[5] = vec![2, 6];
    let mut contains = none();
    contains[0] = vec![1, 2];
    contains[7] = vec![8];
    let mut implementors = none();
    implementors[3] = vec![0, 4];
    Corpus {
        symbols,
        files: strings(&["conftest.py", "app/Models.py", "config/settings.py"]),
        file_symbols: vec![Some(vec![4, 5]), Some(vec![3, 6, 7]), Some(vec![])],
        incoming,
        calls,
        contains,
        implementors,
        function_orphans: vec![1],
        bare_lookups: vec![("environ".to_string(), vec![6]), ("var".to_string(), vec![])],
    }
}

fn contains_ids(e: &Expected) -> Vec<String> {
    match e {
        Expected::Contains { required } => required.clone(),
        _ => panic!("not a contains clause"),
    }
}

#[test]
fn class_member_scenarios() {
    let c = corpus2();
    let b = generate(Generator::BuilderChainRecall, &c, 5, "Completion", "builder_chain_recall").unwrap();
    assert_eq!(b.len(), 1);
    assert_eq!(b[0].intent, "Agent chaining builder calls on `Builder`");
    assert_eq!(contains_ids(&b[0].expected), strings(&["p/Builder#with_port()."]));
    let m = generate(Generator::MethodsOfClass, &c, 5, "Refactor", "methods_of_class").unwrap();
    assert_eq!(m.len(), 1);
    assert_eq!(m[0].intent, "Rename audit on `Builder` — every method");
    assert!(matches!(&m[0].query, Query::ContainedBy { sym_stable_id } if sym_stable_id == "p/Builder#"));
    let f = generate(Generator::ClassFieldInvariants, &c, 5, "BugFix", "class_field_invariants").unwrap();
    assert_eq!(f[0].intent, "Agent understanding invariants of `Builder` — members");
    let e = generate(Generator::EnumVariantList, &c, 5, "Refactor", "enum_variant_list").unwrap();
    assert_eq!(e[0].intent, "Extending enum `Color` — list variants");
    assert_eq!(contains_ids(&e[0].expected), strings(&["p/Color#Red."]));
    let d = generate(Generator::DisambiguateByType, &c, 5, "ApiDiscovery", "disambiguate_by_type").unwrap();
    assert_eq!(d.len(), 2);
    assert_eq!(d[0].intent, "Disambiguate `with_port` on enclosing type `Builder`");
    let t = generate(Generator::NearestFeatureTemplate, &c, 2, "FeatureAdd", "nearest_feature_template").unwrap();
    assert_eq!(t[1].intent, "Agent scaffolding mirrored on `Handler`");
}

#[test]
fn graph_edge_scenarios() {
    let c = corpus2();
    let o = generate(Generator::PluginExtensionPoint, &c, 5, "FeatureAdd", "plugin_extension_point").unwrap();
    assert_eq!(o.len(), 1);
    assert_eq!(o[0].intent, "Agent refactoring `Handler` — find every override");
    assert!(matches!(&o[0].query, Query::Implementors { sym_stable_id } if sym_stable_id == "p/Handler#"));
    assert_eq!(contains_ids(&o[0].expected), strings(&["p/Builder#", "p/MockClient#"]));
    let k = generate(Generator::CalleesOfSymbol, &c, 5, "BugFix", "callees_of_symbol").unwrap();
    assert_eq!(k.len(), 2);
    assert_eq!(k[0].intent, "Bug downstream of `assert_ok` — enumerate callees");
    assert_eq!(contains_ids(&k[0].expected), strings(&["p/Builder#build().", "p/feature_enabled()."]));
    let h = generate(Generator::MultiHopImpact, &c, 5, "BugFix", "multi_hop_impact").unwrap();
    assert_eq!(h.len(), 1);
    assert_eq!(h[0].intent, "Multi-hop impact starting from `feature_enabled` (depth-1 approximation)");
    let ff = generate(Generator::FeatureFlagEnumUsage, &c, 5, "Config", "feature_flag_enum_usage").unwrap();
    assert_eq!(ff[0].intent, "Feature-flag usage: `feature_enabled`");
    assert_eq!(contains_ids(&ff[0].expected), strings(&["p/assert_ok().", "p/Builder#build()."]));
}

#[test]
fn short_name_scenarios() {
    let c = corpus2();
    let x = generate(Generator::ExceptionTypeDiscovery, &c, 5, "BugFix", "exception_type_discovery").unwrap();
    assert_eq!(x.len(), 1);
    assert_eq!(x[0].intent, "Agent triaging error — locate `IoException` type");
    assert!(matches!(&x[0].query, Query::Lookup { name, bare_name: true, kind: None } if name == "IoException"));
    let m = generate(Generator::MockPattern, &c, 5, "TestGen", "mock_pattern").unwrap();
    assert_eq!(m[0].intent, "Mock pattern example: `MockClient`");
    let a = generate(Generator::AssertionIdiom, &c, 5, "TestGen", "assertion_idiom").unwrap();
    assert_eq!(a[0].intent, "Assertion idiom: `assert_ok`");
    let e = generate(Generator::EnvVarCallSites, &c, 4, "Config", "env_var_call_sites").unwrap();
    assert_eq!(e.len(), 1);
    assert_eq!(e[0].id, "env_var_call_sites-001");
    assert_eq!(e[0].intent, "Env-var access point: `environ`");
}

#[test]
fn file_pattern_scenarios() {
    let c = corpus2();
    let f = generate(Generator::FixtureDiscovery, &c, 5, "TestGen", "fixture_discovery").unwrap();
    assert_eq!(f[0].intent, "Find shared fixtures in `conftest.py`");
    assert_eq!(contains_ids(&f[0].expected), strings(&["p/MockClient#", "p/assert_ok()."]));
    let s = generate(Generator::SchemaPartnerFile, &c, 5, "FeatureAdd", "schema_partner_file").unwrap();
    assert_eq!(s[0].intent, "Schema partner file: `app/Models.py`");
    assert!(generate(Generator::ConfigModuleImports, &c, 5, "Config", "config_module_imports").unwrap().is_empty());
}

#[test]
fn lookup_by_id_scenarios() {
    let c = corpus2();
    let p = generate(Generator::ImportPathResolution, &c, 3, "Completion", "import_path_resolution").unwrap();
    assert_eq!(p.len(), 3);
    assert_eq!(p[0].intent, "Agent needs the file path where `Builder` is defined");
    let s = generate(Generator::SignatureArityCheck, &c, 10, "ApiDiscovery", "signature_arity_check").unwrap();
    assert_eq!(s.len(), 4);
    assert_eq!(s[0].intent, "Agent verifying signature of `with_port` before calling it");
    let r = generate(Generator::ReturnsGivenShape, &c, 5, "ControlFlow", "returns_given_shape").unwrap();
    assert_eq!(r.len(), 1);
    assert_eq!(r[0].intent, "Type-shape: `build` returns a wrapped type");
    assert!(matches!(&r[0].expected, Expected::ExactSymbol { stable_id } if stable_id == "p/Builder#build()."));
}

#[test]
fn present_symbol_is_returned_when_asked_for() {
    let c = corpus();
    let v = generate(Generator::ExactSymbolExists, &c, 100, "ApiDiscovery", "exact_symbol_exists").unwrap();
    for s in v {
        let id = match &s.query {
            Query::Lookup { name, bare_name: false, kind: None } => name.clone(),
            _ => panic!("not a lookup by id"),
        };
        assert!(matches!(plan(&s.query), GraphLookup::ByStableId { id: ref i } if *i == id));
        let got = answer(&s.query, &vec![found("Whatever", &id)]);
        assert_eq!(got, vec![id.clone()]);
        assert!(score(&s.expected, &got).score.passed());
    }
}
