//! The benchmark's taxonomy: the categories, their shares of the scenario
//! budget, and the sub-types (with their generators) inside each.

use vstd::prelude::*;
use crate::corpus::Corpus;
use crate::scoring::ExpectedView;
use crate::generators::{Generator, generate, generated, law_generator_ids_distinct, steps, cands, by_count, asks_for_fabricated_id, law_absent_id_scenarios_are_adversarial, asks_for_callees, asks_for_callers, law_callees_scenarios_ask_for_callees, law_callers_scenarios_ask_for_callers, asks_for_invented_class, law_invented_class_scenarios_are_adversarial};
use crate::scenario::{Scenario, ScenarioView, scenario_views, scenario_id, emit, render, law_scenario_ids_identify};

verus! {

broadcast use vstd::seq_lib::group_seq_properties;

/// The views of a sub-type table.
pub open spec fn table_view(t: Seq<(&'static str, Generator)>) -> Seq<(Seq<char>, Generator)> {
    t.map_values(|e: (&'static str, Generator)| (e.0@, e.1))
}

/// The sub-types of the Completion category, with their generators.
pub open spec fn completion_table() -> Seq<(Seq<char>, Generator)> {
    seq![
        ("lookup_class_by_name"@, Generator::LookupClassByName),
        ("lookup_method_on_type"@, Generator::LookupMethodOnType),
        ("signature_recall"@, Generator::SignatureRecall),
        ("import_path_resolution"@, Generator::ImportPathResolution),
        ("cross_module_sibling"@, Generator::CrossModuleSibling),
        ("builder_chain_recall"@, Generator::BuilderChainRecall),
    ]
}

/// The sub-types of the Completion category, with their generators.
pub fn completion_subtypes() -> (r: Vec<(&'static str, Generator)>)
    ensures
        table_view(r@) == completion_table(),
{
    let mut r: Vec<(&'static str, Generator)> = Vec::new();
    r.push(("lookup_class_by_name", Generator::LookupClassByName));
    r.push(("lookup_method_on_type", Generator::LookupMethodOnType));
    r.push(("signature_recall", Generator::SignatureRecall));
    r.push(("import_path_resolution", Generator::ImportPathResolution));
    r.push(("cross_module_sibling", Generator::CrossModuleSibling));
    r.push(("builder_chain_recall", Generator::BuilderChainRecall));
    proof {
        assert(table_view(r@) =~= completion_table());
    }
    r
}

/// The sub-types of the BugFix category, with their generators.
pub open spec fn bug_fix_table() -> Seq<(Seq<char>, Generator)> {
    seq![
        ("callers_of_symbol"@, Generator::CallersOfSymbol),
        ("callees_of_symbol"@, Generator::CalleesOfSymbol),
        ("override_detection"@, Generator::OverrideDetection),
        ("multi_hop_impact"@, Generator::MultiHopImpact),
        ("exception_type_discovery"@, Generator::ExceptionTypeDiscovery),
        ("class_field_invariants"@, Generator::ClassFieldInvariants),
        ("error_wrapping_pattern"@, Generator::ErrorWrappingPattern),
    ]
}

/// The sub-types of the BugFix category, with their generators.
pub fn bug_fix_subtypes() -> (r: Vec<(&'static str, Generator)>)
    ensures
        table_view(r@) == bug_fix_table(),
{
    let mut r: Vec<(&'static str, Generator)> = Vec::new();
    r.push(("callers_of_symbol", Generator::CallersOfSymbol));
    r.push(("callees_of_symbol", Generator::CalleesOfSymbol));
    r.push(("override_detection", Generator::OverrideDetection));
    r.push(("multi_hop_impact", Generator::MultiHopImpact));
    r.push(("exception_type_discovery", Generator::ExceptionTypeDiscovery));
    r.push(("class_field_invariants", Generator::ClassFieldInvariants));
    r.push(("error_wrapping_pattern", Generator::ErrorWrappingPattern));
    proof {
        assert(table_view(r@) =~= bug_fix_table());
    }
    r
}

/// The sub-types of the Refactor category, with their generators.
pub open spec fn refactor_table() -> Seq<(Seq<char>, Generator)> {
    seq![
        ("methods_of_class"@, Generator::MethodsOfClass),
        ("call_site_enumeration"@, Generator::CallSiteEnumeration),
        ("enum_variant_list"@, Generator::EnumVariantList),
        ("trait_implementors"@, Generator::TraitImplementors),
        ("cross_module_callers"@, Generator::CrossModuleCallers),
        ("dead_export_detection"@, Generator::DeadExportDetection),
    ]
}

/// The sub-types of the Refactor category, with their generators.
pub fn refactor_subtypes() -> (r: Vec<(&'static str, Generator)>)
    ensures
        table_view(r@) == refactor_table(),
{
    let mut r: Vec<(&'static str, Generator)> = Vec::new();
    r.push(("methods_of_class", Generator::MethodsOfClass));
    r.push(("call_site_enumeration", Generator::CallSiteEnumeration));
    r.push(("enum_variant_list", Generator::EnumVariantList));
    r.push(("trait_implementors", Generator::TraitImplementors));
    r.push(("cross_module_callers", Generator::CrossModuleCallers));
    r.push(("dead_export_detection", Generator::DeadExportDetection));
    proof {
        assert(table_view(r@) =~= refactor_table());
    }
    r
}

/// The sub-types of the TestGen category, with their generators.
pub open spec fn test_gen_table() -> Seq<(Seq<char>, Generator)> {
    seq![
        ("existing_tests_in_file"@, Generator::ExistingTestsInFile),
        ("fixture_discovery"@, Generator::FixtureDiscovery),
        ("test_to_prod_mapping"@, Generator::TestToProdMapping),
        ("mock_pattern"@, Generator::MockPattern),
        ("assertion_idiom"@, Generator::AssertionIdiom),
    ]
}

/// The sub-types of the TestGen category, with their generators.
pub fn test_gen_subtypes() -> (r: Vec<(&'static str, Generator)>)
    ensures
        table_view(r@) == test_gen_table(),
{
    let mut r: Vec<(&'static str, Generator)> = Vec::new();
    r.push(("existing_tests_in_file", Generator::ExistingTestsInFile));
    r.push(("fixture_discovery", Generator::FixtureDiscovery));
    r.push(("test_to_prod_mapping", Generator::TestToProdMapping));
    r.push(("mock_pattern", Generator::MockPattern));
    r.push(("assertion_idiom", Generator::AssertionIdiom));
    proof {
        assert(table_view(r@) =~= test_gen_table());
    }
    r
}

/// The sub-types of the FeatureAdd category, with their generators.
pub open spec fn feature_add_table() -> Seq<(Seq<char>, Generator)> {
    seq![
        ("nearest_feature_template"@, Generator::NearestFeatureTemplate),
        ("plugin_extension_point"@, Generator::PluginExtensionPoint),
        ("di_wiring_registration"@, Generator::DiWiringRegistration),
        ("schema_partner_file"@, Generator::SchemaPartnerFile),
        ("public_api_surface"@, Generator::PublicApiSurface),
    ]
}

/// The sub-types of the FeatureAdd category, with their generators.
pub fn feature_add_subtypes() -> (r: Vec<(&'static str, Generator)>)
    ensures
        table_view(r@) == feature_add_table(),
{
    let mut r: Vec<(&'static str, Generator)> = Vec::new();
    r.push(("nearest_feature_template", Generator::NearestFeatureTemplate));
    r.push(("plugin_extension_point", Generator::PluginExtensionPoint));
    r.push(("di_wiring_registration", Generator::DiWiringRegistration));
    r.push(("schema_partner_file", Generator::SchemaPartnerFile));
    r.push(("public_api_surface", Generator::PublicApiSurface));
    proof {
        assert(table_view(r@) =~= feature_add_table());
    }
    r
}

/// The sub-types of the ApiDiscovery category, with their generators.
pub open spec fn api_discovery_table() -> Seq<(Seq<char>, Generator)> {
    seq![
        ("exact_symbol_exists"@, Generator::ExactSymbolExists),
        ("exact_symbol_absent"@, Generator::ExactSymbolAbsent),
        ("fake_type_absent"@, Generator::FakeTypeAbsent),
        ("typo_detection"@, Generator::TypoDetection),
        ("bare_name_collision"@, Generator::BareNameCollision),
        ("signature_arity_check"@, Generator::SignatureArityCheck),
        ("naming_convention_query"@, Generator::NamingConventionQuery),
        ("disambiguate_by_type"@, Generator::DisambiguateByType),
        ("disambiguate_by_kind"@, Generator::DisambiguateByKind),
        ("disambiguate_by_module"@, Generator::DisambiguateByModule),
        ("scope_restricted_lookup"@, Generator::ScopeRestrictedLookup),
        ("fuzzy_match_ranking"@, Generator::FuzzyMatchRanking),
    ]
}

/// The sub-types of the ApiDiscovery category, with their generators.
pub fn api_discovery_subtypes() -> (r: Vec<(&'static str, Generator)>)
    ensures
        table_view(r@) == api_discovery_table(),
{
    let mut r: Vec<(&'static str, Generator)> = Vec::new();
    r.push(("exact_symbol_exists", Generator::ExactSymbolExists));
    r.push(("exact_symbol_absent", Generator::ExactSymbolAbsent));
    r.push(("fake_type_absent", Generator::FakeTypeAbsent));
    r.push(("typo_detection", Generator::TypoDetection));
    r.push(("bare_name_collision", Generator::BareNameCollision));
    r.push(("signature_arity_check", Generator::SignatureArityCheck));
    r.push(("naming_convention_query", Generator::NamingConventionQuery));
    r.push(("disambiguate_by_type", Generator::DisambiguateByType));
    r.push(("disambiguate_by_kind", Generator::DisambiguateByKind));
    r.push(("disambiguate_by_module", Generator::DisambiguateByModule));
    r.push(("scope_restricted_lookup", Generator::ScopeRestrictedLookup));
    r.push(("fuzzy_match_ranking", Generator::FuzzyMatchRanking));
    proof {
        assert(table_view(r@) =~= api_discovery_table());
    }
    r
}

/// The sub-types of the ControlFlow category, with their generators.
pub open spec fn control_flow_table() -> Seq<(Seq<char>, Generator)> {
    seq![
        ("returns_given_shape"@, Generator::ReturnsGivenShape),
        ("exception_raisers"@, Generator::ExceptionRaisers),
        ("async_sync_shape"@, Generator::AsyncSyncShape),
    ]
}

/// The sub-types of the ControlFlow category, with their generators.
pub fn control_flow_subtypes() -> (r: Vec<(&'static str, Generator)>)
    ensures
        table_view(r@) == control_flow_table(),
{
    let mut r: Vec<(&'static str, Generator)> = Vec::new();
    r.push(("returns_given_shape", Generator::ReturnsGivenShape));
    r.push(("exception_raisers", Generator::ExceptionRaisers));
    r.push(("async_sync_shape", Generator::AsyncSyncShape));
    proof {
        assert(table_view(r@) =~= control_flow_table());
    }
    r
}

/// The sub-types of the Config category, with their generators.
pub open spec fn config_table() -> Seq<(Seq<char>, Generator)> {
    seq![
        ("env_var_call_sites"@, Generator::EnvVarCallSites),
        ("config_module_imports"@, Generator::ConfigModuleImports),
        ("feature_flag_enum_usage"@, Generator::FeatureFlagEnumUsage),
    ]
}

/// The sub-types of the Config category, with their generators.
pub fn config_subtypes() -> (r: Vec<(&'static str, Generator)>)
    ensures
        table_view(r@) == config_table(),
{
    let mut r: Vec<(&'static str, Generator)> = Vec::new();
    r.push(("env_var_call_sites", Generator::EnvVarCallSites));
    r.push(("config_module_imports", Generator::ConfigModuleImports));
    r.push(("feature_flag_enum_usage", Generator::FeatureFlagEnumUsage));
    proof {
        assert(table_view(r@) =~= config_table());
    }
    r
}

/// A category of the taxonomy.
#[derive(PartialEq, Eq, Structural, Clone, Copy, Debug)]
pub enum Category {
    Completion,
    BugFix,
    Refactor,
    TestGen,
    FeatureAdd,
    ApiDiscovery,
    ControlFlow,
    Config,
}

/// The categories, in the order scenarios are generated.
pub open spec fn categories() -> Seq<Category> {
    seq![Category::Completion, Category::BugFix, Category::Refactor, Category::TestGen, Category::FeatureAdd, Category::ApiDiscovery, Category::ControlFlow, Category::Config]
}

/// A category's name.
pub open spec fn category_label(k: Category) -> Seq<char> {
    match k {
        Category::Completion => "Completion"@,
        Category::BugFix => "BugFix"@,
        Category::Refactor => "Refactor"@,
        Category::TestGen => "TestGen"@,
        Category::FeatureAdd => "FeatureAdd"@,
        Category::ApiDiscovery => "ApiDiscovery"@,
        Category::ControlFlow => "ControlFlow"@,
        Category::Config => "Config"@,
    }
}

/// A category's share of the scenario budget, in percent.
pub open spec fn category_share(k: Category) -> nat {
    match k {
        Category::Completion => 28,
        Category::BugFix => 18,
        Category::Refactor => 10,
        Category::TestGen => 8,
        Category::FeatureAdd => 8,
        Category::ApiDiscovery => 15,
        Category::ControlFlow => 5,
        Category::Config => 4,
    }
}

/// A category's sub-types.
pub open spec fn category_table(k: Category) -> Seq<(Seq<char>, Generator)> {
    match k {
        Category::Completion => completion_table(),
        Category::BugFix => bug_fix_table(),
        Category::Refactor => refactor_table(),
        Category::TestGen => test_gen_table(),
        Category::FeatureAdd => feature_add_table(),
        Category::ApiDiscovery => api_discovery_table(),
        Category::ControlFlow => control_flow_table(),
        Category::Config => config_table(),
    }
}

/// A category's budget: its share of `target` scenarios, rounded to the
/// nearest whole number (halves up).
pub open spec fn category_budget(k: Category, target: nat) -> nat {
    (category_share(k) * target + 50) / 100
}

/// The budget of each sub-type of `k`: an equal share of the category's budget, rounded down.
pub open spec fn per_subtype(k: Category, target: nat) -> nat {
    category_budget(k, target) / category_table(k).len()
}

/// The scenarios of the sub-types `t`, each with budget `n`, one after another
/// (`None` as soon as one cannot be made).
pub open spec fn run_table(c: Corpus, cat: Seq<char>, t: Seq<(Seq<char>, Generator)>, n: nat) -> Option<Seq<ScenarioView>>
    decreases t.len(),
{
    if t.len() == 0 {
        Some(Seq::empty())
    } else {
        match run_table(c, cat, t.drop_last(), n) {
            None => None,
            Some(a) => match generated(t.last().1, c, n, cat, t.last().0) {
                None => None,
                Some(b) => Some(a + b),
            },
        }
    }
}

/// The scenarios of the categories `ks` for a target of `target` scenarios.
pub open spec fn run_categories(c: Corpus, ks: Seq<Category>, target: nat) -> Option<Seq<ScenarioView>>
    decreases ks.len(),
{
    if ks.len() == 0 {
        Some(Seq::empty())
    } else {
        let k = ks.last();
        match run_categories(c, ks.drop_last(), target) {
            None => None,
            Some(a) => match run_table(c, category_label(k), category_table(k), per_subtype(k, target)) {
                None => None,
                Some(b) => Some(a + b),
            },
        }
    }
}

/// The whole scenario set for a target of `target` scenarios.
pub open spec fn scenario_set(c: Corpus, target: nat) -> Option<Seq<ScenarioView>> {
    run_categories(c, categories(), target)
}

fn category_at(i: usize) -> (k: Category)
    requires
        i < 8,
    ensures
        k == categories()[i as int],
{
    match i {
        0 => Category::Completion,
        1 => Category::BugFix,
        2 => Category::Refactor,
        3 => Category::TestGen,
        4 => Category::FeatureAdd,
        5 => Category::ApiDiscovery,
        6 => Category::ControlFlow,
        _ => Category::Config,
    }
}

fn label_of(k: Category) -> (r: &'static str)
    ensures
        r@ == category_label(k),
{
    match k {
        Category::Completion => "Completion",
        Category::BugFix => "BugFix",
        Category::Refactor => "Refactor",
        Category::TestGen => "TestGen",
        Category::FeatureAdd => "FeatureAdd",
        Category::ApiDiscovery => "ApiDiscovery",
        Category::ControlFlow => "ControlFlow",
        Category::Config => "Config",
    }
}

fn share_of(k: Category) -> (r: u64)
    ensures
        r == category_share(k),
{
    match k {
        Category::Completion => 28,
        Category::BugFix => 18,
        Category::Refactor => 10,
        Category::TestGen => 8,
        Category::FeatureAdd => 8,
        Category::ApiDiscovery => 15,
        Category::ControlFlow => 5,
        Category::Config => 4,
    }
}

fn table_of(k: Category) -> (r: Vec<(&'static str, Generator)>)
    ensures
        table_view(r@) == category_table(k),
{
    match k {
        Category::Completion => completion_subtypes(),
        Category::BugFix => bug_fix_subtypes(),
        Category::Refactor => refactor_subtypes(),
        Category::TestGen => test_gen_subtypes(),
        Category::FeatureAdd => feature_add_subtypes(),
        Category::ApiDiscovery => api_discovery_subtypes(),
        Category::ControlFlow => control_flow_subtypes(),
        Category::Config => config_subtypes(),
    }
}

/// The budget of each sub-type of `k` for a target of `target` scenarios.
pub fn subtype_budget(k: Category, target: usize) -> (n: usize)
    ensures
        n == per_subtype(k, target as nat),
{
    let share = share_of(k);
    let t = table_of(k);
    let budget: u128 = ((share as u128) * (target as u128) + 50) / 100;
    proof {
        assert(budget <= target);
        assert(table_view(t@).len() == t@.len());
    }
    (budget as usize) / t.len()
}

/// Generates the scenarios of category `k` for a target of `target` scenarios.
pub fn generate_category(c: &Corpus, k: Category, target: usize) -> (r: Option<Vec<Scenario>>)
    requires
        c.symbols@.len() <= u32::MAX,
    ensures
        match r {
            Some(v) => run_table(*c, category_label(k), category_table(k), per_subtype(k, target as nat)) == Some(
                scenario_views(v@),
            ),
            None => run_table(*c, category_label(k), category_table(k), per_subtype(k, target as nat)) is None,
        },
{
    let label = label_of(k);
    let table = table_of(k);
    let n = subtype_budget(k, target);
    let ghost tv = table_view(table@);
    let mut all: Vec<Scenario> = Vec::new();
    let mut j: usize = 0;
    while j < table.len()
        invariant
            j <= table@.len(),
            tv == table_view(table@),
            tv == category_table(k),
            label@ == category_label(k),
            n == per_subtype(k, target as nat),
            tv.len() == table@.len(),
            run_table(*c, label@, tv.take(j as int), n as nat) == Some(scenario_views(all@)),
            c.symbols@.len() <= u32::MAX,
        decreases table@.len() - j,
    {
        proof {
            assert(tv.take(j + 1).drop_last() =~= tv.take(j as int));
            assert(tv.take(j + 1).last() == (table@[j as int].0@, table@[j as int].1));
        }
        let (sub, g) = table[j];
        match generate(g, c, n, label, sub) {
            None => {
                proof {
                    lemma_run_table_fails_on(*c, label@, tv, n as nat, j + 1);
                }
                return None;
            },
            Some(v) => {
                let ghost prev = all@;
                let ghost vv = v@;
                let mut v = v;
                all.append(&mut v);
                proof {
                    assert(scenario_views(all@) =~= scenario_views(prev) + scenario_views(vv));
                }
            },
        }
        j = j + 1;
    }
    proof {
        assert(tv.take(table@.len() as int) =~= tv);
    }
    Some(all)
}

/// Generates the whole scenario set for a target of `target` scenarios:
/// every sub-type of every category, in taxonomy order; `None` when a
/// generator meets a candidate it cannot handle.
pub fn generate_all(c: &Corpus, target: usize) -> (r: Option<Vec<Scenario>>)
    requires
        c.symbols@.len() <= u32::MAX,
    ensures
        match r {
            Some(v) => scenario_set(*c, target as nat) == Some(scenario_views(v@)),
            None => scenario_set(*c, target as nat) is None,
        },
{
    let mut all: Vec<Scenario> = Vec::new();
    let mut i: usize = 0;
    while i < 8
        invariant
            i <= 8,
            categories().len() == 8,
            run_categories(*c, categories().take(i as int), target as nat) == Some(scenario_views(all@)),
            c.symbols@.len() <= u32::MAX,
        decreases 8 - i,
    {
        let k = category_at(i);
        proof {
            assert(categories().take(i + 1).drop_last() =~= categories().take(i as int));
            assert(categories().take(i + 1).last() == k);
        }
        match generate_category(c, k, target) {
            None => {
                proof {
                    lemma_run_categories_fails_on(*c, categories(), target as nat, i + 1);
                }
                return None;
            },
            Some(v) => {
                let ghost prev = all@;
                let ghost vv = v@;
                let mut v = v;
                all.append(&mut v);
                proof {
                    assert(scenario_views(all@) =~= scenario_views(prev) + scenario_views(vv));
                }
            },
        }
        i = i + 1;
    }
    proof {
        assert(categories().take(8) =~= categories());
    }
    Some(all)
}

proof fn lemma_run_table_fails_on(c: Corpus, cat: Seq<char>, t: Seq<(Seq<char>, Generator)>, n: nat, j: int)
    requires
        0 < j <= t.len(),
        generated(t[j - 1].1, c, n, cat, t[j - 1].0) is None,
    ensures
        run_table(c, cat, t, n) is None,
    decreases t.len(),
{
    if j < t.len() {
        assert(t.drop_last()[j - 1] == t[j - 1]);
        lemma_run_table_fails_on(c, cat, t.drop_last(), n, j);
    } else {
        if run_table(c, cat, t.drop_last(), n) is Some {
        }
    }
}

proof fn lemma_run_categories_fails_on(c: Corpus, ks: Seq<Category>, target: nat, i: int)
    requires
        0 < i <= ks.len(),
        run_table(c, category_label(ks[i - 1]), category_table(ks[i - 1]), per_subtype(ks[i - 1], target)) is None,
    ensures
        run_categories(c, ks, target) is None,
    decreases ks.len(),
{
    if i < ks.len() {
        assert(ks.drop_last()[i - 1] == ks[i - 1]);
        lemma_run_categories_fails_on(c, ks.drop_last(), target, i);
    }
}


/// The names of a sub-type table, in order.
pub open spec fn table_names(t: Seq<(Seq<char>, Generator)>) -> Seq<Seq<char>> {
    t.map_values(|e: (Seq<char>, Generator)| e.0)
}

/// The sub-type names of the categories `ks`, category after category.
pub open spec fn names_of(ks: Seq<Category>) -> Seq<Seq<char>>
    decreases ks.len(),
{
    if ks.len() == 0 {
        Seq::empty()
    } else {
        names_of(ks.drop_last()) + table_names(category_table(ks.last()))
    }
}

/// Every sub-type of the taxonomy has a name of its own.
#[verifier::rlimit(100)]
pub proof fn law_subtype_names_distinct()
    ensures
        names_of(categories()).no_duplicates(),
{
    reveal_strlit("lookup_class_by_name");
    reveal_strlit("lookup_method_on_type");
    reveal_strlit("signature_recall");
    reveal_strlit("import_path_resolution");
    reveal_strlit("cross_module_sibling");
    reveal_strlit("builder_chain_recall");
    reveal_strlit("callers_of_symbol");
    reveal_strlit("callees_of_symbol");
    reveal_strlit("override_detection");
    reveal_strlit("multi_hop_impact");
    reveal_strlit("exception_type_discovery");
    reveal_strlit("class_field_invariants");
    reveal_strlit("error_wrapping_pattern");
    reveal_strlit("methods_of_class");
    reveal_strlit("call_site_enumeration");
    reveal_strlit("enum_variant_list");
    reveal_strlit("trait_implementors");
    reveal_strlit("cross_module_callers");
    reveal_strlit("dead_export_detection");
    reveal_strlit("existing_tests_in_file");
    reveal_strlit("fixture_discovery");
    reveal_strlit("test_to_prod_mapping");
    reveal_strlit("mock_pattern");
    reveal_strlit("assertion_idiom");
    reveal_strlit("nearest_feature_template");
    reveal_strlit("plugin_extension_point");
    reveal_strlit("di_wiring_registration");
    reveal_strlit("schema_partner_file");
    reveal_strlit("public_api_surface");
    reveal_strlit("exact_symbol_exists");
    reveal_strlit("exact_symbol_absent");
    reveal_strlit("fake_type_absent");
    reveal_strlit("typo_detection");
    reveal_strlit("bare_name_collision");
    reveal_strlit("signature_arity_check");
    reveal_strlit("naming_convention_query");
    reveal_strlit("disambiguate_by_type");
    reveal_strlit("disambiguate_by_kind");
    reveal_strlit("disambiguate_by_module");
    reveal_strlit("scope_restricted_lookup");
    reveal_strlit("fuzzy_match_ranking");
    reveal_strlit("returns_given_shape");
    reveal_strlit("exception_raisers");
    reveal_strlit("async_sync_shape");
    reveal_strlit("env_var_call_sites");
    reveal_strlit("config_module_imports");
    reveal_strlit("feature_flag_enum_usage");
    reveal_with_fuel(names_of, 9);
    let all: Seq<Seq<char>> = seq![
        "lookup_class_by_name"@,
        "lookup_method_on_type"@,
        "signature_recall"@,
        "import_path_resolution"@,
        "cross_module_sibling"@,
        "builder_chain_recall"@,
        "callers_of_symbol"@,
        "callees_of_symbol"@,
        "override_detection"@,
        "multi_hop_impact"@,
        "exception_type_discovery"@,
        "class_field_invariants"@,
        "error_wrapping_pattern"@,
        "methods_of_class"@,
        "call_site_enumeration"@,
        "enum_variant_list"@,
        "trait_implementors"@,
        "cross_module_callers"@,
        "dead_export_detection"@,
        "existing_tests_in_file"@,
        "fixture_discovery"@,
        "test_to_prod_mapping"@,
        "mock_pattern"@,
        "assertion_idiom"@,
        "nearest_feature_template"@,
        "plugin_extension_point"@,
        "di_wiring_registration"@,
        "schema_partner_file"@,
        "public_api_surface"@,
        "exact_symbol_exists"@,
        "exact_symbol_absent"@,
        "fake_type_absent"@,
        "typo_detection"@,
        "bare_name_collision"@,
        "signature_arity_check"@,
        "naming_convention_query"@,
        "disambiguate_by_type"@,
        "disambiguate_by_kind"@,
        "disambiguate_by_module"@,
        "scope_restricted_lookup"@,
        "fuzzy_match_ranking"@,
        "returns_given_shape"@,
        "exception_raisers"@,
        "async_sync_shape"@,
        "env_var_call_sites"@,
        "config_module_imports"@,
        "feature_flag_enum_usage"@
    ];
    assert(names_of(categories()) =~= all);
    assert("lookup_class_by_name"@.len() == 20);
    assert("lookup_method_on_type"@.len() == 21);
    assert("signature_recall"@.len() == 16);
    assert("import_path_resolution"@.len() == 22);
    assert("cross_module_sibling"@.len() == 20);
    assert("builder_chain_recall"@.len() == 20);
    assert("callers_of_symbol"@.len() == 17);
    assert("callees_of_symbol"@.len() == 17);
    assert("override_detection"@.len() == 18);
    assert("multi_hop_impact"@.len() == 16);
    assert("exception_type_discovery"@.len() == 24);
    assert("class_field_invariants"@.len() == 22);
    assert("error_wrapping_pattern"@.len() == 22);
    assert("methods_of_class"@.len() == 16);
    assert("call_site_enumeration"@.len() == 21);
    assert("enum_variant_list"@.len() == 17);
    assert("trait_implementors"@.len() == 18);
    assert("cross_module_callers"@.len() == 20);
    assert("dead_export_detection"@.len() == 21);
    assert("existing_tests_in_file"@.len() == 22);
    assert("fixture_discovery"@.len() == 17);
    assert("test_to_prod_mapping"@.len() == 20);
    assert("mock_pattern"@.len() == 12);
    assert("assertion_idiom"@.len() == 15);
    assert("nearest_feature_template"@.len() == 24);
    assert("plugin_extension_point"@.len() == 22);
    assert("di_wiring_registration"@.len() == 22);
    assert("schema_partner_file"@.len() == 19);
    assert("public_api_surface"@.len() == 18);
    assert("exact_symbol_exists"@.len() == 19);
    assert("exact_symbol_absent"@.len() == 19);
    assert("fake_type_absent"@.len() == 16);
    assert("typo_detection"@.len() == 14);
    assert("bare_name_collision"@.len() == 19);
    assert("signature_arity_check"@.len() == 21);
    assert("naming_convention_query"@.len() == 23);
    assert("disambiguate_by_type"@.len() == 20);
    assert("disambiguate_by_kind"@.len() == 20);
    assert("disambiguate_by_module"@.len() == 22);
    assert("scope_restricted_lookup"@.len() == 23);
    assert("fuzzy_match_ranking"@.len() == 19);
    assert("returns_given_shape"@.len() == 19);
    assert("exception_raisers"@.len() == 17);
    assert("async_sync_shape"@.len() == 16);
    assert("env_var_call_sites"@.len() == 18);
    assert("config_module_imports"@.len() == 21);
    assert("feature_flag_enum_usage"@.len() == 23);
    assert("cross_module_sibling"@[0] != "lookup_class_by_name"@[0]);
    assert("builder_chain_recall"@[0] != "lookup_class_by_name"@[0]);
    assert("builder_chain_recall"@[0] != "cross_module_sibling"@[0]);
    assert("callees_of_symbol"@[5] != "callers_of_symbol"@[5]);
    assert("multi_hop_impact"@[0] != "signature_recall"@[0]);
    assert("class_field_invariants"@[0] != "import_path_resolution"@[0]);
    assert("error_wrapping_pattern"@[0] != "import_path_resolution"@[0]);
    assert("error_wrapping_pattern"@[0] != "class_field_invariants"@[0]);
    assert("methods_of_class"@[0] != "signature_recall"@[0]);
    assert("methods_of_class"@[1] != "multi_hop_impact"@[1]);
    assert("call_site_enumeration"@[0] != "lookup_method_on_type"@[0]);
    assert("enum_variant_list"@[0] != "callers_of_symbol"@[0]);
    assert("enum_variant_list"@[0] != "callees_of_symbol"@[0]);
    assert("trait_implementors"@[0] != "override_detection"@[0]);
    assert("cross_module_callers"@[0] != "lookup_class_by_name"@[0]);
    assert("cross_module_callers"@[13] != "cross_module_sibling"@[13]);
    assert("cross_module_callers"@[0] != "builder_chain_recall"@[0]);
    assert("dead_export_detection"@[0] != "lookup_method_on_type"@[0]);
    assert("dead_export_detection"@[0] != "call_site_enumeration"@[0]);
    assert("existing_tests_in_file"@[0] != "import_path_resolution"@[0]);
    assert("existing_tests_in_file"@[0] != "class_field_invariants"@[0]);
    assert("existing_tests_in_file"@[1] != "error_wrapping_pattern"@[1]);
    assert("fixture_discovery"@[0] != "callers_of_symbol"@[0]);
    assert("fixture_discovery"@[0] != "callees_of_symbol"@[0]);
    assert("fixture_discovery"@[0] != "enum_variant_list"@[0]);
    assert("test_to_prod_mapping"@[0] != "lookup_class_by_name"@[0]);
    assert("test_to_prod_mapping"@[0] != "cross_module_sibling"@[0]);
    assert("test_to_prod_mapping"@[0] != "builder_chain_recall"@[0]);
    assert("test_to_prod_mapping"@[0] != "cross_module_callers"@[0]);
    assert("nearest_feature_template"@[0] != "exception_type_discovery"@[0]);
    assert("plugin_extension_point"@[0] != "import_path_resolution"@[0]);
    assert("plugin_extension_point"@[0] != "class_field_invariants"@[0]);
    assert("plugin_extension_point"@[0] != "error_wrapping_pattern"@[0]);
    assert("plugin_extension_point"@[0] != "existing_tests_in_file"@[0]);
    assert("di_wiring_registration"@[0] != "import_path_resolution"@[0]);
    assert("di_wiring_registration"@[0] != "class_field_invariants"@[0]);
    assert("di_wiring_registration"@[0] != "error_wrapping_pattern"@[0]);
    assert("di_wiring_registration"@[0] != "existing_tests_in_file"@[0]);
    assert("di_wiring_registration"@[0] != "plugin_extension_point"@[0]);
    assert("public_api_surface"@[0] != "override_detection"@[0]);
    assert("public_api_surface"@[0] != "trait_implementors"@[0]);
    assert("exact_symbol_exists"@[0] != "schema_partner_file"@[0]);
    assert("exact_symbol_absent"@[0] != "schema_partner_file"@[0]);
    assert("exact_symbol_absent"@[13] != "exact_symbol_exists"@[13]);
    assert("fake_type_absent"@[0] != "signature_recall"@[0]);
    assert("fake_type_absent"@[0] != "multi_hop_impact"@[0]);
    assert("fake_type_absent"@[0] != "methods_of_class"@[0]);
    assert("bare_name_collision"@[0] != "schema_partner_file"@[0]);
    assert("bare_name_collision"@[0] != "exact_symbol_exists"@[0]);
    assert("bare_name_collision"@[0] != "exact_symbol_absent"@[0]);
    assert("signature_arity_check"@[0] != "lookup_method_on_type"@[0]);
    assert("signature_arity_check"@[0] != "call_site_enumeration"@[0]);
    assert("signature_arity_check"@[0] != "dead_export_detection"@[0]);
    assert("disambiguate_by_type"@[0] != "lookup_class_by_name"@[0]);
    assert("disambiguate_by_type"@[0] != "cross_module_sibling"@[0]);
    assert("disambiguate_by_type"@[0] != "builder_chain_recall"@[0]);
    assert("disambiguate_by_type"@[0] != "cross_module_callers"@[0]);
    assert("disambiguate_by_type"@[0] != "test_to_prod_mapping"@[0]);
    assert("disambiguate_by_kind"@[0] != "lookup_class_by_name"@[0]);
    assert("disambiguate_by_kind"@[0] != "cross_module_sibling"@[0]);
    assert("disambiguate_by_kind"@[0] != "builder_chain_recall"@[0]);
    assert("disambiguate_by_kind"@[0] != "cross_module_callers"@[0]);
    assert("disambiguate_by_kind"@[0] != "test_to_prod_mapping"@[0]);
    assert("disambiguate_by_kind"@[16] != "disambiguate_by_type"@[16]);
    assert("disambiguate_by_module"@[0] != "import_path_resolution"@[0]);
    assert("disambiguate_by_module"@[0] != "class_field_invariants"@[0]);
    assert("disambiguate_by_module"@[0] != "error_wrapping_pattern"@[0]);
    assert("disambiguate_by_module"@[0] != "existing_tests_in_file"@[0]);
    assert("disambiguate_by_module"@[0] != "plugin_extension_point"@[0]);
    assert("disambiguate_by_module"@[2] != "di_wiring_registration"@[2]);
    assert("scope_restricted_lookup"@[0] != "naming_convention_query"@[0]);
    assert("fuzzy_match_ranking"@[0] != "schema_partner_file"@[0]);
    assert("fuzzy_match_ranking"@[0] != "exact_symbol_exists"@[0]);
    assert("fuzzy_match_ranking"@[0] != "exact_symbol_absent"@[0]);
    assert("fuzzy_match_ranking"@[0] != "bare_name_collision"@[0]);
    assert("returns_given_shape"@[0] != "schema_partner_file"@[0]);
    assert("returns_given_shape"@[0] != "exact_symbol_exists"@[0]);
    assert("returns_given_shape"@[0] != "exact_symbol_absent"@[0]);
    assert("returns_given_shape"@[0] != "bare_name_collision"@[0]);
    assert("returns_given_shape"@[0] != "fuzzy_match_ranking"@[0]);
    assert("exception_raisers"@[0] != "callers_of_symbol"@[0]);
    assert("exception_raisers"@[0] != "callees_of_symbol"@[0]);
    assert("exception_raisers"@[1] != "enum_variant_list"@[1]);
    assert("exception_raisers"@[0] != "fixture_discovery"@[0]);
    assert("async_sync_shape"@[0] != "signature_recall"@[0]);
    assert("async_sync_shape"@[0] != "multi_hop_impact"@[0]);
    assert("async_sync_shape"@[0] != "methods_of_class"@[0]);
    assert("async_sync_shape"@[0] != "fake_type_absent"@[0]);
    assert("env_var_call_sites"@[0] != "override_detection"@[0]);
    assert("env_var_call_sites"@[0] != "trait_implementors"@[0]);
    assert("env_var_call_sites"@[0] != "public_api_surface"@[0]);
    assert("config_module_imports"@[0] != "lookup_method_on_type"@[0]);
    assert("config_module_imports"@[1] != "call_site_enumeration"@[1]);
    assert("config_module_imports"@[0] != "dead_export_detection"@[0]);
    assert("config_module_imports"@[0] != "signature_arity_check"@[0]);
    assert("feature_flag_enum_usage"@[0] != "naming_convention_query"@[0]);
    assert("feature_flag_enum_usage"@[0] != "scope_restricted_lookup"@[0]);
    reveal_with_fuel(distinct_names, 48);
    reveal_with_fuel(listed, 48);
    assert(distinct_names(all));
    lemma_distinct_names(all);
}

/// Whether `x` is one of `s`.
pub open spec fn listed(x: Seq<char>, s: Seq<Seq<char>>) -> bool
    decreases s.len(),
{
    s.len() > 0 && (s.last() == x || listed(x, s.drop_last()))
}

/// Whether no name occurs twice in `s`.
pub open spec fn distinct_names(s: Seq<Seq<char>>) -> bool
    decreases s.len(),
{
    s.len() == 0 || (!listed(s.last(), s.drop_last()) && distinct_names(s.drop_last()))
}

proof fn lemma_listed(x: Seq<char>, s: Seq<Seq<char>>, i: int)
    requires
        0 <= i < s.len(),
        s[i] == x,
    ensures
        listed(x, s),
    decreases s.len(),
{
    if i < s.len() - 1 {
        lemma_listed(x, s.drop_last(), i);
    }
}

proof fn lemma_distinct_names(s: Seq<Seq<char>>)
    requires
        distinct_names(s),
    ensures
        s.no_duplicates(),
    decreases s.len(),
{
    if s.len() > 0 {
        lemma_distinct_names(s.drop_last());
        assert forall|i: int, j: int| 0 <= i < s.len() && 0 <= j < s.len() && i != j implies s[i] != s[j] by {
            if i < s.len() - 1 && j < s.len() - 1 {
                assert(s[i] == s.drop_last()[i] && s[j] == s.drop_last()[j]);
            } else if i == s.len() - 1 && s[i] == s[j] {
                lemma_listed(s.last(), s.drop_last(), j);
            } else if j == s.len() - 1 && s[i] == s[j] {
                lemma_listed(s.last(), s.drop_last(), i);
            }
        }
    }
}

/// Whether every scenario's id is an id of its own sub-type.
pub open spec fn ids_of_own_subtype(v: Seq<ScenarioView>) -> bool {
    forall|i: int| #![trigger v[i]] 0 <= i < v.len() ==> exists|slot: nat| #[trigger] scenario_id(v[i].sub_type, slot) == v[i].id
}

/// Whether no two scenarios share an id.
pub open spec fn ids_distinct(v: Seq<ScenarioView>) -> bool {
    forall|i: int, j: int| 0 <= i < j < v.len() ==> #[trigger] v[i].id != #[trigger] v[j].id
}

proof fn lemma_generated_ids(g: Generator, c: Corpus, n: nat, cat: Seq<char>, sub: Seq<char>)
    ensures
        generated(g, c, n, cat, sub) matches Some(v) ==> {
            &&& ids_of_own_subtype(v)
            &&& ids_distinct(v)
            &&& forall|i: int| 0 <= i < v.len() ==> #[trigger] v[i].sub_type == sub
        },
{
    law_generator_ids_distinct(g, c, n, cat, sub);
    if let Some(es) = emit(steps(g, c, cands(g, c, n)), by_count(g), n) {
        let v = render(cat, sub, es);
        assert forall|i: int| #![trigger v[i]] 0 <= i < v.len() implies exists|slot: nat| #[trigger] scenario_id(v[i].sub_type, slot) == v[i].id by {
            assert(scenario_id(v[i].sub_type, es[i].0) == v[i].id);
        }
    }
}

proof fn lemma_join_ids(a: Seq<ScenarioView>, b: Seq<ScenarioView>)
    requires
        ids_of_own_subtype(a),
        ids_of_own_subtype(b),
        ids_distinct(a),
        ids_distinct(b),
        forall|i: int, j: int| 0 <= i < a.len() && 0 <= j < b.len() ==> #[trigger] a[i].sub_type != #[trigger] b[j].sub_type,
    ensures
        ids_of_own_subtype(a + b),
        ids_distinct(a + b),
{
    let v = a + b;
    assert forall|i: int| #![trigger v[i]] 0 <= i < v.len() implies exists|slot: nat| #[trigger] scenario_id(v[i].sub_type, slot) == v[i].id by {
        if i < a.len() {
            assert(v[i] == a[i]);
        } else {
            assert(v[i] == b[i - a.len()]);
        }
    }
    assert forall|i: int, j: int| 0 <= i < j < v.len() implies #[trigger] v[i].id != #[trigger] v[j].id by {
        if j < a.len() {
            assert(v[i] == a[i] && v[j] == a[j]);
        } else if i >= a.len() {
            assert(v[i] == b[i - a.len()] && v[j] == b[j - a.len()]);
        } else {
            let x = a[i];
            let y = b[j - a.len()];
            assert(v[i] == x && v[j] == y);
            let sa = choose|slot: nat| #[trigger] scenario_id(x.sub_type, slot) == x.id;
            let sb = choose|slot: nat| #[trigger] scenario_id(y.sub_type, slot) == y.id;
            law_scenario_ids_identify(x.sub_type, sa, y.sub_type, sb);
        }
    }
}

proof fn lemma_run_table_ids(c: Corpus, cat: Seq<char>, t: Seq<(Seq<char>, Generator)>, n: nat)
    requires
        table_names(t).no_duplicates(),
    ensures
        run_table(c, cat, t, n) matches Some(v) ==> {
            &&& ids_of_own_subtype(v)
            &&& ids_distinct(v)
            &&& forall|i: int| 0 <= i < v.len() ==> table_names(t).contains(#[trigger] v[i].sub_type)
        },
    decreases t.len(),
{
    if t.len() > 0 {
        let tn = table_names(t);
        assert(table_names(t.drop_last()) =~= tn.drop_last());
        lemma_run_table_ids(c, cat, t.drop_last(), n);
        lemma_generated_ids(t.last().1, c, n, cat, t.last().0);
        if let Some(a) = run_table(c, cat, t.drop_last(), n) {
            if let Some(b) = generated(t.last().1, c, n, cat, t.last().0) {
                assert(tn.last() == t.last().0);
                assert forall|i: int, j: int| 0 <= i < a.len() && 0 <= j < b.len() implies #[trigger] a[i].sub_type != #[trigger] b[j].sub_type by {
                    assert(tn.drop_last().contains(a[i].sub_type));
                    let k = choose|k: int| 0 <= k < tn.drop_last().len() && tn.drop_last()[k] == a[i].sub_type;
                    assert(tn[k] == tn.drop_last()[k]);
                    assert(b[j].sub_type == tn[tn.len() - 1]);
                }
                lemma_join_ids(a, b);
                let v = a + b;
                assert forall|i: int| 0 <= i < v.len() implies tn.contains(#[trigger] v[i].sub_type) by {
                    if i < a.len() {
                        assert(v[i] == a[i]);
                        assert(tn.drop_last().contains(a[i].sub_type));
                        let k = choose|k: int| 0 <= k < tn.drop_last().len() && tn.drop_last()[k] == a[i].sub_type;
                        assert(tn[k] == tn.drop_last()[k]);
                    } else {
                        assert(v[i] == b[i - a.len()]);
                        assert(tn[tn.len() - 1] == v[i].sub_type);
                    }
                }
            }
        }
    }
}

proof fn lemma_run_categories_ids(c: Corpus, ks: Seq<Category>, target: nat)
    requires
        names_of(ks).no_duplicates(),
    ensures
        run_categories(c, ks, target) matches Some(v) ==> {
            &&& ids_of_own_subtype(v)
            &&& ids_distinct(v)
            &&& forall|i: int| 0 <= i < v.len() ==> names_of(ks).contains(#[trigger] v[i].sub_type)
        },
    decreases ks.len(),
{
    if ks.len() > 0 {
        let k = ks.last();
        let pre = names_of(ks.drop_last());
        let tn = table_names(category_table(k));
        let all = names_of(ks);
        assert(all == pre + tn);
        assert(pre.no_duplicates()) by {
            assert forall|i: int, j: int| 0 <= i < pre.len() && 0 <= j < pre.len() && i != j implies pre[i] != pre[j] by {
                assert(all[i] == pre[i] && all[j] == pre[j]);
            }
        }
        assert(tn.no_duplicates()) by {
            assert forall|i: int, j: int| 0 <= i < tn.len() && 0 <= j < tn.len() && i != j implies tn[i] != tn[j] by {
                assert(all[pre.len() + i] == tn[i] && all[pre.len() + j] == tn[j]);
            }
        }
        lemma_run_categories_ids(c, ks.drop_last(), target);
        lemma_run_table_ids(c, category_label(k), category_table(k), per_subtype(k, target));
        if let Some(a) = run_categories(c, ks.drop_last(), target) {
            if let Some(b) = run_table(c, category_label(k), category_table(k), per_subtype(k, target)) {
                assert forall|i: int, j: int| 0 <= i < a.len() && 0 <= j < b.len() implies #[trigger] a[i].sub_type != #[trigger] b[j].sub_type by {
                    assert(pre.contains(a[i].sub_type));
                    assert(tn.contains(b[j].sub_type));
                    let p = choose|p: int| 0 <= p < pre.len() && pre[p] == a[i].sub_type;
                    let q = choose|q: int| 0 <= q < tn.len() && tn[q] == b[j].sub_type;
                    assert(all[p] == pre[p] && all[pre.len() + q] == tn[q]);
                }
                lemma_join_ids(a, b);
                let v = a + b;
                assert forall|i: int| 0 <= i < v.len() implies all.contains(#[trigger] v[i].sub_type) by {
                    if i < a.len() {
                        assert(v[i] == a[i]);
                        assert(pre.contains(a[i].sub_type));
                        let p = choose|p: int| 0 <= p < pre.len() && pre[p] == a[i].sub_type;
                        assert(all[p] == pre[p]);
                    } else {
                        assert(v[i] == b[i - a.len()]);
                        assert(tn.contains(v[i].sub_type));
                        let q = choose|q: int| 0 <= q < tn.len() && tn[q] == v[i].sub_type;
                        assert(all[pre.len() + q] == tn[q]);
                    }
                }
            }
        }
    }
}

/// No two scenarios of the whole scenario set share an id, across all
/// categories and sub-types.
pub proof fn law_scenario_set_ids_distinct(c: Corpus, target: nat)
    ensures
        scenario_set(c, target) matches Some(v) ==> forall|i: int, j: int|
            0 <= i < j < v.len() ==> #[trigger] v[i].id != #[trigger] v[j].id,
{
    law_subtype_names_distinct();
    lemma_run_categories_ids(c, categories(), target);
}

/// The sub-types of the categories `ks` with their generators, category
/// after category.
pub open spec fn entries_of(ks: Seq<Category>) -> Seq<(Seq<char>, Generator)>
    decreases ks.len(),
{
    if ks.len() == 0 {
        Seq::empty()
    } else {
        entries_of(ks.drop_last()) + category_table(ks.last())
    }
}

/// Whether generator `g` makes scenario `s` for some budget and category.
#[verifier::opaque]
pub open spec fn made_by(c: Corpus, g: Generator, s: ScenarioView) -> bool {
    exists|n: nat, cat: Seq<char>|
        #[trigger] generated(g, c, n, cat, s.sub_type) matches Some(w) && w.contains(s)
}

proof fn lemma_run_table_origin(c: Corpus, cat: Seq<char>, t: Seq<(Seq<char>, Generator)>, n: nat)
    ensures
        run_table(c, cat, t, n) matches Some(v) ==> forall|i: int|
            #![trigger v[i]]
            0 <= i < v.len() ==> exists|j: int|
                0 <= j < t.len() && (#[trigger] t[j]).0 == v[i].sub_type && made_by(c, t[j].1, v[i]),
    decreases t.len(),
{
    if t.len() > 0 {
        lemma_run_table_origin(c, cat, t.drop_last(), n);
        lemma_generated_ids(t.last().1, c, n, cat, t.last().0);
        if let Some(a) = run_table(c, cat, t.drop_last(), n) {
            if let Some(b) = generated(t.last().1, c, n, cat, t.last().0) {
                let v = a + b;
                assert forall|i: int| #![trigger v[i]] 0 <= i < v.len() implies exists|j: int|
                    0 <= j < t.len() && (#[trigger] t[j]).0 == v[i].sub_type && made_by(c, t[j].1, v[i]) by {
                    if i < a.len() {
                        assert(v[i] == a[i]);
                        let j = choose|j: int| 0 <= j < t.drop_last().len() && (#[trigger] t.drop_last()[j]).0 == a[i].sub_type
                            && made_by(c, t.drop_last()[j].1, a[i]);
                        assert(t[j] == t.drop_last()[j]);
                    } else {
                        let k = i - a.len();
                        assert(v[i] == b[k]);
                        assert(b.contains(b[k]));
                        assert(generated(t.last().1, c, n, cat, b[k].sub_type) matches Some(w) && w.contains(b[k]));
                        reveal(made_by);
                        assert(t[t.len() - 1] == t.last());
                    }
                }
            }
        }
    }
}

/// Whether scenario `s` comes from entry `q` of the sub-type list `e`.
pub open spec fn from_entry(c: Corpus, e: Seq<(Seq<char>, Generator)>, q: int, s: ScenarioView) -> bool {
    0 <= q < e.len() && e[q].0 == s.sub_type && made_by(c, e[q].1, s)
}

proof fn lemma_run_categories_origin(c: Corpus, ks: Seq<Category>, target: nat, i: int)
    requires
        run_categories(c, ks, target) is Some,
        0 <= i < run_categories(c, ks, target)->0.len(),
    ensures
        exists|q: int| #[trigger] from_entry(c, entries_of(ks), q, run_categories(c, ks, target)->0[i]),
    decreases ks.len(),
{
    let k = ks.last();
    let pre = entries_of(ks.drop_last());
    let t = category_table(k);
    assert(entries_of(ks) == pre + t);
    let a = run_categories(c, ks.drop_last(), target)->0;
    let b = run_table(c, category_label(k), t, per_subtype(k, target))->0;
    let v = run_categories(c, ks, target)->0;
    assert(v == a + b);
    if i < a.len() {
        lemma_run_categories_origin(c, ks.drop_last(), target, i);
        assert(v[i] == a[i]);
        let q = choose|q: int| #[trigger] from_entry(c, pre, q, a[i]);
        assert(entries_of(ks)[q] == pre[q]);
        assert(from_entry(c, entries_of(ks), q, v[i]));
    } else {
        lemma_run_table_origin(c, category_label(k), t, per_subtype(k, target));
        assert(v[i] == b[i - a.len()]);
        let j = choose|j: int| 0 <= j < t.len() && (#[trigger] t[j]).0 == b[i - a.len()].sub_type
            && made_by(c, t[j].1, b[i - a.len()]);
        assert(entries_of(ks)[pre.len() + j] == t[j]);
        assert(from_entry(c, entries_of(ks), pre.len() + j, v[i]));
    }
}

proof fn lemma_entry_names(ks: Seq<Category>)
    ensures
        entries_of(ks).len() == names_of(ks).len(),
        forall|q: int| 0 <= q < entries_of(ks).len() ==> (#[trigger] entries_of(ks)[q]).0 == names_of(ks)[q],
    decreases ks.len(),
{
    if ks.len() > 0 {
        lemma_entry_names(ks.drop_last());
        let t = category_table(ks.last());
        let pe = entries_of(ks.drop_last());
        let pn = names_of(ks.drop_last());
        assert forall|q: int| 0 <= q < entries_of(ks).len() implies (#[trigger] entries_of(ks)[q]).0 == names_of(ks)[q] by {
            if q < pe.len() {
                assert(entries_of(ks)[q] == pe[q]);
                assert(names_of(ks)[q] == pn[q]);
            } else {
                assert(entries_of(ks)[q] == t[q - pe.len()]);
                assert(names_of(ks)[q] == table_names(t)[q - pe.len()]);
            }
        }
    }
}

proof fn lemma_known_entries()
    ensures
        entries_of(categories()).len() > 30,
        entries_of(categories())[6] == ("callers_of_symbol"@, Generator::CallersOfSymbol),
        entries_of(categories())[7] == ("callees_of_symbol"@, Generator::CalleesOfSymbol),
        entries_of(categories())[30] == ("exact_symbol_absent"@, Generator::ExactSymbolAbsent),
        entries_of(categories())[31] == ("fake_type_absent"@, Generator::FakeTypeAbsent),
{
    reveal_with_fuel(entries_of, 9);
    let all: Seq<(Seq<char>, Generator)> = seq![ ("lookup_class_by_name"@, Generator::LookupClassByName), ("lookup_method_on_type"@, Generator::LookupMethodOnType), ("signature_recall"@, Generator::SignatureRecall), ("import_path_resolution"@, Generator::ImportPathResolution), ("cross_module_sibling"@, Generator::CrossModuleSibling), ("builder_chain_recall"@, Generator::BuilderChainRecall), ("callers_of_symbol"@, Generator::CallersOfSymbol), ("callees_of_symbol"@, Generator::CalleesOfSymbol), ("override_detection"@, Generator::OverrideDetection), ("multi_hop_impact"@, Generator::MultiHopImpact), ("exception_type_discovery"@, Generator::ExceptionTypeDiscovery), ("class_field_invariants"@, Generator::ClassFieldInvariants), ("error_wrapping_pattern"@, Generator::ErrorWrappingPattern), ("methods_of_class"@, Generator::MethodsOfClass), ("call_site_enumeration"@, Generator::CallSiteEnumeration), ("enum_variant_list"@, Generator::EnumVariantList), ("trait_implementors"@, Generator::TraitImplementors), ("cross_module_callers"@, Generator::CrossModuleCallers), ("dead_export_detection"@, Generator::DeadExportDetection), ("existing_tests_in_file"@, Generator::ExistingTestsInFile), ("fixture_discovery"@, Generator::FixtureDiscovery), ("test_to_prod_mapping"@, Generator::TestToProdMapping), ("mock_pattern"@, Generator::MockPattern), ("assertion_idiom"@, Generator::AssertionIdiom), ("nearest_feature_template"@, Generator::NearestFeatureTemplate), ("plugin_extension_point"@, Generator::PluginExtensionPoint), ("di_wiring_registration"@, Generator::DiWiringRegistration), ("schema_partner_file"@, Generator::SchemaPartnerFile), ("public_api_surface"@, Generator::PublicApiSurface), ("exact_symbol_exists"@, Generator::ExactSymbolExists), ("exact_symbol_absent"@, Generator::ExactSymbolAbsent), ("fake_type_absent"@, Generator::FakeTypeAbsent), ("typo_detection"@, Generator::TypoDetection), ("bare_name_collision"@, Generator::BareNameCollision), ("signature_arity_check"@, Generator::SignatureArityCheck), ("naming_convention_query"@, Generator::NamingConventionQuery), ("disambiguate_by_type"@, Generator::DisambiguateByType), ("disambiguate_by_kind"@, Generator::DisambiguateByKind), ("disambiguate_by_module"@, Generator::DisambiguateByModule), ("scope_restricted_lookup"@, Generator::ScopeRestrictedLookup), ("fuzzy_match_ranking"@, Generator::FuzzyMatchRanking), ("returns_given_shape"@, Generator::ReturnsGivenShape), ("exception_raisers"@, Generator::ExceptionRaisers), ("async_sync_shape"@, Generator::AsyncSyncShape), ("env_var_call_sites"@, Generator::EnvVarCallSites), ("config_module_imports"@, Generator::ConfigModuleImports), ("feature_flag_enum_usage"@, Generator::FeatureFlagEnumUsage) ];
    assert(entries_of(categories()) =~= all);
    let e = entries_of(categories());
    let names = names_of(categories());
}

proof fn lemma_entry_origin(c: Corpus, target: nat, q0: int, i: int)
    requires
        scenario_set(c, target) is Some,
        0 <= i < scenario_set(c, target)->0.len(),
        0 <= q0 < entries_of(categories()).len(),
        scenario_set(c, target)->0[i].sub_type == entries_of(categories())[q0].0,
    ensures
        made_by(c, entries_of(categories())[q0].1, scenario_set(c, target)->0[i]),
{
    law_subtype_names_distinct();
    lemma_entry_names(categories());
    let e = entries_of(categories());
    let names = names_of(categories());
    let v = scenario_set(c, target)->0;
    lemma_run_categories_origin(c, categories(), target, i);
    let q = choose|q: int| #[trigger] from_entry(c, e, q, v[i]);
    assert(names[q] == e[q].0 && names[q0] == e[q0].0);
    assert(q == q0);
}

/// In the generated scenario set, every scenario of the sub-type
/// `exact_symbol_absent` is adversarial: it looks up one of the fabricated
/// full ids, expects the empty set, and its gold answer is marked adversarial.
pub proof fn law_absent_id_subtype_is_adversarial(c: Corpus, target: nat)
    ensures
        scenario_set(c, target) matches Some(v) ==> forall|i: int|
            0 <= i < v.len() && (#[trigger] v[i]).sub_type == "exact_symbol_absent"@ ==> {
                &&& v[i].gold_source == "adversarial"@
                &&& v[i].expected == (ExpectedView::ExactSet { stable_ids: Seq::empty() })
                &&& asks_for_fabricated_id(v[i].query)
            },
{
    lemma_known_entries();
    if let Some(v) = scenario_set(c, target) {
        assert forall|i: int| 0 <= i < v.len() && (#[trigger] v[i]).sub_type == "exact_symbol_absent"@ implies {
            &&& v[i].gold_source == "adversarial"@
            &&& v[i].expected == (ExpectedView::ExactSet { stable_ids: Seq::empty() })
            &&& asks_for_fabricated_id(v[i].query)
        } by {
            lemma_entry_origin(c, target, 30, i);
            reveal(made_by);
            let (n, cat) = choose|n: nat, cat: Seq<char>|
                #[trigger] generated(Generator::ExactSymbolAbsent, c, n, cat, v[i].sub_type) matches Some(w) && w.contains(v[i]);
            law_absent_id_scenarios_are_adversarial(c, n, cat, v[i].sub_type);
            let w = generated(Generator::ExactSymbolAbsent, c, n, cat, v[i].sub_type)->0;
            let k = choose|k: int| 0 <= k < w.len() && w[k] == v[i];
            assert(w[k] == v[i]);
        }
    }
}

/// In the generated scenario set, every scenario of the sub-type
/// `callees_of_symbol` queries the callees of the symbol it is about and is
/// graded against the first ids of that symbol's call edges.
pub proof fn law_callees_subtype_asks_for_callees(c: Corpus, target: nat)
    ensures
        scenario_set(c, target) matches Some(v) ==> forall|i: int|
            0 <= i < v.len() && (#[trigger] v[i]).sub_type == "callees_of_symbol"@ ==> asks_for_callees(
                c,
                v[i].query,
                v[i].expected,
            ),
{
    lemma_known_entries();
    if let Some(v) = scenario_set(c, target) {
        assert forall|i: int| 0 <= i < v.len() && (#[trigger] v[i]).sub_type == "callees_of_symbol"@ implies asks_for_callees(
            c,
            v[i].query,
            v[i].expected,
        ) by {
            lemma_entry_origin(c, target, 7, i);
            reveal(made_by);
            let (n, cat) = choose|n: nat, cat: Seq<char>|
                #[trigger] generated(Generator::CalleesOfSymbol, c, n, cat, v[i].sub_type) matches Some(w) && w.contains(v[i]);
            law_callees_scenarios_ask_for_callees(c, n, cat, v[i].sub_type);
            let w = generated(Generator::CalleesOfSymbol, c, n, cat, v[i].sub_type)->0;
            let k = choose|k: int| 0 <= k < w.len() && w[k] == v[i];
            assert(w[k] == v[i]);
        }
    }
}

/// In the generated scenario set, every scenario of the sub-type
/// `callers_of_symbol` queries the callers of the symbol it is about and is
/// graded against the first ids of that symbol's incoming edges.
pub proof fn law_callers_subtype_asks_for_callers(c: Corpus, target: nat)
    ensures
        scenario_set(c, target) matches Some(v) ==> forall|i: int|
            0 <= i < v.len() && (#[trigger] v[i]).sub_type == "callers_of_symbol"@ ==> asks_for_callers(
                c,
                v[i].query,
                v[i].expected,
            ),
{
    lemma_known_entries();
    if let Some(v) = scenario_set(c, target) {
        assert forall|i: int| 0 <= i < v.len() && (#[trigger] v[i]).sub_type == "callers_of_symbol"@ implies asks_for_callers(
            c,
            v[i].query,
            v[i].expected,
        ) by {
            lemma_entry_origin(c, target, 6, i);
            reveal(made_by);
            let (n, cat) = choose|n: nat, cat: Seq<char>|
                #[trigger] generated(Generator::CallersOfSymbol, c, n, cat, v[i].sub_type) matches Some(w) && w.contains(v[i]);
            law_callers_scenarios_ask_for_callers(Generator::CallersOfSymbol, c, n, cat, v[i].sub_type);
            let w = generated(Generator::CallersOfSymbol, c, n, cat, v[i].sub_type)->0;
            let k = choose|k: int| 0 <= k < w.len() && w[k] == v[i];
            assert(w[k] == v[i]);
        }
    }
}

/// In the generated scenario set, every scenario of the sub-type
/// `fake_type_absent` is adversarial: it looks up one of the invented class
/// names by short name, expects the empty set, and its gold answer is marked
/// adversarial.
pub proof fn law_invented_class_subtype_is_adversarial(c: Corpus, target: nat)
    ensures
        scenario_set(c, target) matches Some(v) ==> forall|i: int|
            0 <= i < v.len() && (#[trigger] v[i]).sub_type == "fake_type_absent"@ ==> {
                &&& v[i].gold_source == "adversarial"@
                &&& v[i].expected == (ExpectedView::ExactSet { stable_ids: Seq::empty() })
                &&& asks_for_invented_class(v[i].query)
            },
{
    lemma_known_entries();
    if let Some(v) = scenario_set(c, target) {
        assert forall|i: int| 0 <= i < v.len() && (#[trigger] v[i]).sub_type == "fake_type_absent"@ implies {
            &&& v[i].gold_source == "adversarial"@
            &&& v[i].expected == (ExpectedView::ExactSet { stable_ids: Seq::empty() })
            &&& asks_for_invented_class(v[i].query)
        } by {
            lemma_entry_origin(c, target, 31, i);
            reveal(made_by);
            let (n, cat) = choose|n: nat, cat: Seq<char>|
                #[trigger] generated(Generator::FakeTypeAbsent, c, n, cat, v[i].sub_type) matches Some(w) && w.contains(v[i]);
            law_invented_class_scenarios_are_adversarial(c, n, cat, v[i].sub_type);
            let w = generated(Generator::FakeTypeAbsent, c, n, cat, v[i].sub_type)->0;
            let k = choose|k: int| 0 <= k < w.len() && w[k] == v[i];
            assert(w[k] == v[i]);
        }
    }
}

} // verus!
