//! Per-sub-type scenario generators. A generator walks a list of candidates
//! taken from the code graph (symbols, members of classes, files, ranked
//! symbols, or fixed names), turns each into a scenario or skips it, and
//! numbers what it keeps (see [`emit`]).

use vstd::prelude::*;
use crate::protocol::{Query, QueryView};
use crate::scoring::{Expected, ExpectedView};
use crate::corpus::{
    Corpus, SymbolKind, IdFilter, sym, sid, bare, edges, first_n, kept_ids, ids_of, bare_hits, stable_id_at,
    bare_at, edges_at, first_ids, all_ids, bare_hits_of,
};
use crate::ranking::{Rank, ranked, top_ranked};
use crate::scenario::{law_scenario_ids_identify, Scenario, ScenarioView, Draft, DraftView, Step, StepView, emit, render, live, scenario_of, scenario_views, make_scenario};
use crate::text::{
    views, chars_of, framed, has_sub, ends_with_seq, lower_seq, contains_text, ends_with_text,
    starts_with_text, lower_chars, chars_eq, string_of, decimal, push_str, push_decimal,
};
use crate::report::utf8_len;
use vstd::string::StringSliceAdditionalSpecFns;
use vstd::utf8::encode_utf8;

verus! {

broadcast use vstd::seq_lib::group_seq_properties;

/// One scenario generator. Several sub-types share a generator.
#[derive(PartialEq, Eq, Structural, Clone, Copy, Debug)]
pub enum Generator {
    LookupClassByName,
    LookupMethodOnType,
    SignatureRecall,
    ImportPathResolution,
    CrossModuleSibling,
    BuilderChainRecall,
    CallersOfSymbol,
    CalleesOfSymbol,
    OverrideDetection,
    MultiHopImpact,
    ExceptionTypeDiscovery,
    ClassFieldInvariants,
    ErrorWrappingPattern,
    MethodsOfClass,
    CallSiteEnumeration,
    EnumVariantList,
    TraitImplementors,
    CrossModuleCallers,
    DeadExportDetection,
    ExistingTestsInFile,
    FixtureDiscovery,
    TestToProdMapping,
    MockPattern,
    AssertionIdiom,
    NearestFeatureTemplate,
    PluginExtensionPoint,
    DiWiringRegistration,
    SchemaPartnerFile,
    PublicApiSurface,
    ExactSymbolExists,
    ExactSymbolAbsent,
    FakeTypeAbsent,
    TypoDetection,
    BareNameCollision,
    SignatureArityCheck,
    NamingConventionQuery,
    DisambiguateByType,
    DisambiguateByKind,
    DisambiguateByModule,
    ScopeRestrictedLookup,
    FuzzyMatchRanking,
    ReturnsGivenShape,
    ExceptionRaisers,
    AsyncSyncShape,
    EnvVarCallSites,
    ConfigModuleImports,
    FeatureFlagEnumUsage,
}

/// The generator that does the work of `g`: a sub-type that reuses another
/// sub-type's generator delegates to it.
pub open spec fn base(g: Generator) -> Generator {
    match g {
        Generator::CallSiteEnumeration => Generator::CallersOfSymbol,
        Generator::TraitImplementors => Generator::OverrideDetection,
        Generator::PluginExtensionPoint => Generator::OverrideDetection,
        Generator::SignatureArityCheck => Generator::SignatureRecall,
        Generator::NamingConventionQuery => Generator::ExactSymbolExists,
        Generator::DisambiguateByModule => Generator::ExactSymbolExists,
        Generator::ScopeRestrictedLookup => Generator::CrossModuleSibling,
        Generator::FuzzyMatchRanking => Generator::TypoDetection,
        Generator::ExceptionRaisers => Generator::ExceptionTypeDiscovery,
        _ => g,
    }
}

/// The generator that does the work of `g`.
pub fn base_of(g: Generator) -> (r: Generator)
    ensures
        r == base(g),
{
    match g {
        Generator::CallSiteEnumeration => Generator::CallersOfSymbol,
        Generator::TraitImplementors => Generator::OverrideDetection,
        Generator::PluginExtensionPoint => Generator::OverrideDetection,
        Generator::SignatureArityCheck => Generator::SignatureRecall,
        Generator::NamingConventionQuery => Generator::ExactSymbolExists,
        Generator::DisambiguateByModule => Generator::ExactSymbolExists,
        Generator::ScopeRestrictedLookup => Generator::CrossModuleSibling,
        Generator::FuzzyMatchRanking => Generator::TypoDetection,
        Generator::ExceptionRaisers => Generator::ExceptionTypeDiscovery,
        _ => g,
    }
}

/// What a generator looks at.
#[derive(PartialEq, Eq, Structural, Clone, Copy, Debug)]
pub enum Cand {
    /// A symbol.
    Sym(u32),
    /// The file at this position of the file list.
    File(usize),
    /// A member (second) of a class (first).
    Member(u32, u32),
    /// Position in a fixed list of names.
    Slot(usize),
}

/// Which symbols a symbol list keeps.
#[derive(PartialEq, Eq, Structural, Clone, Copy, Debug)]
pub enum Pick {
    /// Structs and traits.
    Classes,
    Enums,
    Functions,
    /// Symbols whose short name ends with `Error` or `Exception`.
    ErrorNamed,
}

/// Whether symbol `i` belongs to the list `p`.
pub open spec fn picks(c: Corpus, p: Pick, i: int) -> bool {
    match p {
        Pick::Classes => sym(c, i) matches Some(s) && (s.kind == SymbolKind::Struct || s.kind == SymbolKind::Trait),
        Pick::Enums => sym(c, i) matches Some(s) && s.kind == SymbolKind::Enum,
        Pick::Functions => sym(c, i) matches Some(s) && s.kind == SymbolKind::Function,
        Pick::ErrorNamed => ends_with_seq(bare(c, i), "Error"@) || ends_with_seq(bare(c, i), "Exception"@),
    }
}

/// The symbols below index `k` that belong to the list `p`, in index order.
pub open spec fn picked(c: Corpus, p: Pick, k: nat) -> Seq<u32>
    decreases k,
{
    if k == 0 {
        Seq::empty()
    } else {
        let prev = picked(c, p, (k - 1) as nat);
        if picks(c, p, k - 1) {
            prev.push((k - 1) as u32)
        } else {
            prev
        }
    }
}

/// The classes of the graph, in index order.
pub open spec fn classes(c: Corpus) -> Seq<u32> {
    picked(c, Pick::Classes, c.symbols@.len())
}

/// The symbols `s` as candidates.
pub open spec fn as_syms(s: Seq<u32>) -> Seq<Cand> {
    s.map_values(|i: u32| Cand::Sym(i))
}

/// Every member of the classes `cls`, class by class, in edge order.
pub open spec fn members(c: Corpus, cls: Seq<u32>) -> Seq<Cand>
    decreases cls.len(),
{
    if cls.len() == 0 {
        Seq::empty()
    } else {
        let k = cls.last();
        members(c, cls.drop_last()) + edges(c.contains@, k as int).map_values(|d: u32| Cand::Member(k, d))
    }
}

/// The orphan functions that have an id, in order.
pub open spec fn orphans_with_ids(c: Corpus, os: Seq<u32>) -> Seq<Cand>
    decreases os.len(),
{
    if os.len() == 0 {
        Seq::empty()
    } else {
        let prev = orphans_with_ids(c, os.drop_last());
        if sid(c, os.last() as int) is Some {
            prev.push(Cand::Sym(os.last()))
        } else {
            prev
        }
    }
}

/// Positions `0 .. k` of a name list.
pub open spec fn slots(k: nat) -> Seq<Cand> {
    Seq::new(k, |i: int| Cand::Slot(i as usize))
}

/// Every symbol, in index order.
pub open spec fn every_symbol(c: Corpus) -> Seq<Cand> {
    Seq::new(c.symbols@.len(), |i: int| Cand::Sym(i as u32))
}

/// Every file, in list order.
pub open spec fn every_file(c: Corpus) -> Seq<Cand> {
    Seq::new(c.files@.len(), |i: int| Cand::File(i as usize))
}

/// The first `n` symbols ranked by relation `r` among those with more than `min` edges.
pub open spec fn top(c: Corpus, r: Rank, min: nat, n: nat) -> Seq<Cand> {
    as_syms(first_n(ranked(c, r, min, c.symbols@.len()), n))
}

/// The candidates generator `g` looks at, with budget `n`.
pub open spec fn cands(g: Generator, c: Corpus, n: nat) -> Seq<Cand> {
    match base(g) {
        Generator::LookupClassByName | Generator::BuilderChainRecall | Generator::ClassFieldInvariants
        | Generator::MethodsOfClass | Generator::NearestFeatureTemplate => as_syms(classes(c)),
        Generator::SignatureRecall => as_syms(picked(c, Pick::Functions, c.symbols@.len())),
        Generator::EnumVariantList => as_syms(picked(c, Pick::Enums, c.symbols@.len())),
        Generator::ExceptionTypeDiscovery => as_syms(picked(c, Pick::ErrorNamed, c.symbols@.len())),
        Generator::LookupMethodOnType | Generator::DisambiguateByType => members(c, classes(c)),
        Generator::CrossModuleSibling | Generator::ExistingTestsInFile | Generator::FixtureDiscovery
        | Generator::SchemaPartnerFile | Generator::ConfigModuleImports => every_file(c),
        Generator::CallersOfSymbol => top(c, Rank::Callers, 0, n),
        Generator::CalleesOfSymbol => top(c, Rank::Callees, 0, n),
        Generator::OverrideDetection => top(c, Rank::Implementors, 0, n),
        Generator::MultiHopImpact => top(c, Rank::Callers, 1, n),
        Generator::DeadExportDetection => orphans_with_ids(c, c.function_orphans@),
        Generator::ExactSymbolAbsent | Generator::FakeTypeAbsent | Generator::DisambiguateByKind
        | Generator::EnvVarCallSites => slots(n),
        Generator::BareNameCollision => slots(8),
        _ => every_symbol(c),
    }
}

/// Whether generator `g` numbers its scenarios by count (and stops at its
/// budget) rather than by candidate position (looking at its first `n` candidates).
pub open spec fn by_count(g: Generator) -> bool {
    match base(g) {
        Generator::LookupMethodOnType | Generator::ImportPathResolution | Generator::BuilderChainRecall
        | Generator::ErrorWrappingPattern | Generator::CrossModuleCallers | Generator::ExistingTestsInFile
        | Generator::FixtureDiscovery | Generator::TestToProdMapping | Generator::MockPattern
        | Generator::AssertionIdiom | Generator::DiWiringRegistration | Generator::SchemaPartnerFile
        | Generator::PublicApiSurface | Generator::ExactSymbolExists | Generator::TypoDetection
        | Generator::DisambiguateByType | Generator::ReturnsGivenShape | Generator::AsyncSyncShape
        | Generator::ConfigModuleImports | Generator::FeatureFlagEnumUsage => true,
        _ => false,
    }
}

// ── What a candidate becomes ──────────────────────────────────────

/// A lookup by full id.
pub open spec fn by_id(id: Seq<char>) -> QueryView {
    QueryView::Lookup { name: id, bare_name: false, kind: None }
}

/// A lookup by short name, optionally filtered by kind.
pub open spec fn by_name(name: Seq<char>, kind: Option<Seq<char>>) -> QueryView {
    QueryView::Lookup { name, bare_name: true, kind }
}

/// A scenario whose gold answer is read off the graph.
pub open spec fn found(intent: Seq<char>, q: QueryView, e: ExpectedView) -> StepView {
    StepView::Emit(DraftView { intent, query: q, expected: e, adversarial: false })
}

/// A scenario whose correct answer is nothing at all.
pub open spec fn fabricated(intent: Seq<char>, q: QueryView) -> StepView {
    StepView::Emit(
        DraftView {
            intent,
            query: q,
            expected: ExpectedView::ExactSet { stable_ids: Seq::empty() },
            adversarial: true,
        },
    )
}

/// A scenario asking for exactly the symbol `id` by its full id.
pub open spec fn exact_lookup(intent: Seq<char>, id: Seq<char>) -> StepView {
    found(intent, by_id(id), ExpectedView::ExactSymbol { stable_id: id })
}

/// The file at position `f` of the file list.
pub open spec fn file_at(c: Corpus, f: int) -> Seq<char> {
    if 0 <= f < c.files@.len() {
        c.files@[f]@
    } else {
        Seq::empty()
    }
}

/// A scenario listing the first `k` symbols of the file at position `f`,
/// introduced by `pre` / `post` around the file's path.
pub open spec fn file_step(c: Corpus, f: int, k: nat, pre: Seq<char>, post: Seq<char>) -> StepView {
    if !(0 <= f < c.file_symbols@.len()) {
        StepView::Skip
    } else {
        match c.file_symbols@[f] {
            None => StepView::Skip,
            Some(v) => {
                let syms = first_n(ids_of(c, v@), k);
                if syms.len() == 0 {
                    StepView::Skip
                } else {
                    found(
                        pre + file_at(c, f) + post,
                        QueryView::FileSymbols { file_path: file_at(c, f) },
                        ExpectedView::Contains { required: syms },
                    )
                }
            },
        }
    }
}

/// A scenario on the file at position `f`, made only when `cond` holds of
/// its path; `k`, `pre`, `post` as for [`file_step`].
pub open spec fn named_file_step(c: Corpus, f: int, cond: bool, k: nat, pre: Seq<char>, post: Seq<char>) -> StepView {
    if cond {
        file_step(c, f, k, pre, post)
    } else {
        StepView::Skip
    }
}

/// Whether the lower-cased path of file `f` contains `a` or `b`.
pub open spec fn path_mentions(c: Corpus, f: int, a: Seq<char>, b: Seq<char>) -> bool {
    has_sub(lower_seq(file_at(c, f)), a) || has_sub(lower_seq(file_at(c, f)), b)
}

/// A scenario on class `k` asking for its members, expecting the first `m`.
pub open spec fn members_step(c: Corpus, k: int, m: nat, pre: Seq<char>, post: Seq<char>) -> StepView {
    match sid(c, k) {
        None => StepView::Skip,
        Some(id) => {
            let ms = first_n(ids_of(c, edges(c.contains@, k)), m);
            if ms.len() == 0 {
                StepView::Skip
            } else {
                found(
                    pre + bare(c, k) + post,
                    QueryView::ContainedBy { sym_stable_id: id },
                    ExpectedView::Contains { required: ms },
                )
            }
        },
    }
}

/// A scenario on symbol `k` asking for its callers, expecting the first five;
/// with `need_some`, skipped when there are none.
pub open spec fn callers_step(c: Corpus, k: int, need_some: bool, pre: Seq<char>, post: Seq<char>) -> StepView {
    match sid(c, k) {
        None => StepView::Skip,
        Some(id) => {
            let cs = first_n(ids_of(c, edges(c.incoming@, k)), 5);
            if need_some && cs.len() == 0 {
                StepView::Skip
            } else {
                found(
                    pre + bare(c, k) + post,
                    QueryView::Callers { sym_stable_id: id },
                    ExpectedView::Contains { required: cs },
                )
            }
        },
    }
}

/// A scenario looking symbol `k` up by its short name `b`, expecting its id.
pub open spec fn named_lookup_step(c: Corpus, k: int, b: Seq<char>, pre: Seq<char>, post: Seq<char>) -> StepView {
    match sid(c, k) {
        None => StepView::Skip,
        Some(id) => found(pre + b + post, by_name(b, None), ExpectedView::Contains { required: seq![id] }),
    }
}

/// The signature of symbol `k` (empty when there is no symbol).
pub open spec fn signature(c: Corpus, k: int) -> Seq<char> {
    match sym(c, k) {
        Some(s) => s.signature@,
        None => Seq::empty(),
    }
}

/// A scenario asking for symbol `k` by its full id when `cond` holds of it.
pub open spec fn exact_step_if(c: Corpus, k: int, cond: bool, pre: Seq<char>, post: Seq<char>) -> StepView {
    if sym(c, k) is None || !cond {
        StepView::Skip
    } else {
        exact_lookup(pre + bare(c, k) + post, sid(c, k)->0)
    }
}

/// The full ids that must not resolve.
pub open spec fn fabricated_ids() -> Seq<Seq<char>> {
    seq![
        "fake::DoesNotExist#fabricated()"@,
        "scip-python fake pkg 0.0.0 fake/Nothing#"@,
        "does_not_exist_qualified_name"@,
        "::fabricated::path::"@,
        "Nothing at all"@,
    ]
}

/// The class names that must not resolve.
pub open spec fn fabricated_classes() -> Seq<Seq<char>> {
    seq![
        "QuantumTeleportManager"@,
        "ZZZ_NotARealClass"@,
        "BugFixBot9000"@,
        "__hallucinated__"@,
        "OverrideAllTheThings"@,
    ]
}

/// Short names that typically have many candidates.
pub open spec fn collision_names() -> Seq<Seq<char>> {
    seq!["new"@, "open"@, "get"@, "init"@, "read"@, "write"@, "close"@, "len"@]
}

/// Short names to narrow down to functions.
pub open spec fn common_names() -> Seq<Seq<char>> {
    seq!["new"@, "default"@, "open"@, "from"@]
}

/// Short names of environment-variable helpers.
pub open spec fn env_names() -> Seq<Seq<char>> {
    seq!["var"@, "environ"@, "getenv"@]
}

/// `b` with its third and fourth characters swapped.
pub open spec fn typo_of(b: Seq<char>) -> Seq<char> {
    b.update(2, b[3]).update(3, b[2])
}

/// Whether a lower-cased short name looks like a registration hook.
pub open spec fn is_registration(b: Seq<char>) -> bool {
    "register"@.is_prefix_of(b) || has_sub(b, "_register"@) || b == "register"@ || b == "add_route"@
}

/// Whether a signature wraps its result.
pub open spec fn wraps_result(sig: Seq<char>) -> bool {
    has_sub(sig, "Result<"@) || has_sub(sig, "Option<"@) || has_sub(sig, "-> Result"@) || has_sub(sig, "-> Option"@)
}

/// Whether a signature returns a `Result` or an `Option`.
pub open spec fn returns_wrapped(sig: Seq<char>) -> bool {
    has_sub(sig, "-> Result"@) || has_sub(sig, "-> Option"@)
}

/// Whether symbol kind `k` is part of a public API surface.
pub open spec fn api_kind(k: SymbolKind) -> bool {
    k == SymbolKind::Function || k == SymbolKind::Struct || k == SymbolKind::Trait || k == SymbolKind::Enum
}

/// What candidate `x` becomes under generator `g`.
pub open spec fn step(g: Generator, c: Corpus, x: Cand) -> StepView {
    match (base(g), x) {
        (Generator::LookupClassByName, Cand::Sym(k)) => {
            let b = bare(c, k as int);
            if b.len() == 0 {
                StepView::Skip
            } else {
                match sid(c, k as int) {
                    None => StepView::Skip,
                    Some(id) => found(
                        "Agent importing class `"@ + b + "` — needs the canonical id"@,
                        by_name(b, Some("struct"@)),
                        ExpectedView::Contains { required: seq![id] },
                    ),
                }
            }
        },
        (Generator::LookupMethodOnType, Cand::Member(_, m)) => {
            let b = bare(c, m as int);
            match sid(c, m as int) {
                None => StepView::Skip,
                Some(id) => if b.len() == 0 {
                    StepView::Skip
                } else {
                    found(
                        "Agent calling method `"@ + b + "` on its type"@,
                        by_name(b, None),
                        ExpectedView::Contains { required: seq![id] },
                    )
                },
            }
        },
        (Generator::SignatureRecall, Cand::Sym(k)) => match sid(c, k as int) {
            None => StepView::Skip,
            Some(id) => exact_lookup(
                "Agent verifying signature of `"@ + bare(c, k as int) + "` before calling it"@,
                id,
            ),
        },
        (Generator::ImportPathResolution, Cand::Sym(k)) => match sym(c, k as int) {
            None => StepView::Skip,
            Some(s) => if s.kind == SymbolKind::File || file_at(c, s.file as int).len() == 0 {
                StepView::Skip
            } else {
                exact_lookup(
                    "Agent needs the file path where `"@ + bare(c, k as int) + "` is defined"@,
                    s.stable_id@,
                )
            },
        },
        (Generator::CrossModuleSibling, Cand::File(f)) => file_step(
            c,
            f as int,
            5,
            "Agent discovering siblings in `"@,
            "`"@,
        ),
        (Generator::BuilderChainRecall, Cand::Sym(k)) => {
            let bs = first_n(kept_ids(c, edges(c.contains@, k as int), IdFilter::Builder), 3);
            if bs.len() == 0 {
                StepView::Skip
            } else {
                match sid(c, k as int) {
                    None => StepView::Skip,
                    Some(id) => found(
                        "Agent chaining builder calls on `"@ + bare(c, k as int) + "`"@,
                        QueryView::ContainedBy { sym_stable_id: id },
                        ExpectedView::Contains { required: bs },
                    ),
                }
            }
        },
        (Generator::CallersOfSymbol, Cand::Sym(k)) => callers_step(
            c,
            k as int,
            false,
            "Bug suspected in `"@,
            "` — enumerate callers"@,
        ),
        (Generator::CalleesOfSymbol, Cand::Sym(k)) => match sid(c, k as int) {
            None => StepView::Skip,
            Some(id) => found(
                "Bug downstream of `"@ + bare(c, k as int) + "` — enumerate callees"@,
                QueryView::Callees { sym_stable_id: id },
                ExpectedView::Contains { required: first_n(ids_of(c, edges(c.calls@, k as int)), 5) },
            ),
        },
        (Generator::OverrideDetection, Cand::Sym(k)) => match sid(c, k as int) {
            None => StepView::Skip,
            Some(id) => found(
                "Agent refactoring `"@ + bare(c, k as int) + "` — find every override"@,
                QueryView::Implementors { sym_stable_id: id },
                ExpectedView::Contains { required: first_n(ids_of(c, edges(c.implementors@, k as int)), 5) },
            ),
        },
        (Generator::MultiHopImpact, Cand::Sym(k)) => callers_step(
            c,
            k as int,
            false,
            "Multi-hop impact starting from `"@,
            "` (depth-1 approximation)"@,
        ),
        (Generator::ExceptionTypeDiscovery, Cand::Sym(k)) => named_lookup_step(
            c,
            k as int,
            bare(c, k as int),
            "Agent triaging error — locate `"@,
            "` type"@,
        ),
        (Generator::ClassFieldInvariants, Cand::Sym(k)) => members_step(
            c,
            k as int,
            5,
            "Agent understanding invariants of `"@,
            "` — members"@,
        ),
        (Generator::ErrorWrappingPattern, Cand::Sym(k)) => exact_step_if(
            c,
            k as int,
            wraps_result(signature(c, k as int)),
            "Example of error-wrapping pattern: `"@,
            "`"@,
        ),
        (Generator::MethodsOfClass, Cand::Sym(k)) => members_step(
            c,
            k as int,
            6,
            "Rename audit on `"@,
            "` — every method"@,
        ),
        (Generator::EnumVariantList, Cand::Sym(k)) => members_step(
            c,
            k as int,
            8,
            "Extending enum `"@,
            "` — list variants"@,
        ),
        (Generator::CrossModuleCallers, Cand::Sym(k)) => match sym(c, k as int) {
            None => StepView::Skip,
            Some(s) => {
                let inc = edges(c.incoming@, k as int);
                let cross = first_n(kept_ids(c, inc, IdFilter::OtherFile(s.file)), 5);
                if inc.len() == 0 || cross.len() == 0 {
                    StepView::Skip
                } else {
                    found(
                        "Cross-module callers of `"@ + bare(c, k as int) + "`"@,
                        QueryView::Callers { sym_stable_id: s.stable_id@ },
                        ExpectedView::Contains { required: cross },
                    )
                }
            },
        },
        (Generator::DeadExportDetection, Cand::Sym(k)) => match sid(c, k as int) {
            None => StepView::Skip,
            Some(id) => found(
                "Agent cleaning dead exports — symbol has no callers"@,
                QueryView::Orphans { kind: Some("function"@) },
                ExpectedView::Contains { required: seq![id] },
            ),
        },
        (Generator::ExistingTestsInFile, Cand::File(f)) => named_file_step(
            c,
            f as int,
            path_mentions(c, f as int, "test"@, "spec"@),
            8,
            "Agent writing a test — check existing in `"@,
            "`"@,
        ),
        (Generator::FixtureDiscovery, Cand::File(f)) => named_file_step(
            c,
            f as int,
            path_mentions(c, f as int, "conftest"@, "fixture"@),
            8,
            "Find shared fixtures in `"@,
            "`"@,
        ),
        (Generator::TestToProdMapping, Cand::Sym(k)) => if "test_"@.is_prefix_of(bare(c, k as int)) {
            named_lookup_step(c, k as int, bare(c, k as int), "Map test `"@, "` back to its production target"@)
        } else {
            StepView::Skip
        },
        (Generator::MockPattern, Cand::Sym(k)) => {
            let low = lower_seq(bare(c, k as int));
            if has_sub(low, "mock"@) || has_sub(low, "stub"@) {
                named_lookup_step(c, k as int, bare(c, k as int), "Mock pattern example: `"@, "`"@)
            } else {
                StepView::Skip
            }
        },
        (Generator::AssertionIdiom, Cand::Sym(k)) => if "assert"@.is_prefix_of(bare(c, k as int)) {
            named_lookup_step(c, k as int, bare(c, k as int), "Assertion idiom: `"@, "`"@)
        } else {
            StepView::Skip
        },
        (Generator::NearestFeatureTemplate, Cand::Sym(k)) => match sid(c, k as int) {
            None => StepView::Skip,
            Some(id) => exact_lookup("Agent scaffolding mirrored on `"@ + bare(c, k as int) + "`"@, id),
        },
        (Generator::DiWiringRegistration, Cand::Sym(k)) => if is_registration(lower_seq(bare(c, k as int))) {
            callers_step(c, k as int, false, "Find wiring call-sites for `"@, "`"@)
        } else {
            StepView::Skip
        },
        (Generator::SchemaPartnerFile, Cand::File(f)) => named_file_step(
            c,
            f as int,
            path_mentions(c, f as int, "schema"@, "model"@) || has_sub(lower_seq(file_at(c, f as int)), "migration"@),
            5,
            "Schema partner file: `"@,
            "`"@,
        ),
        (Generator::PublicApiSurface, Cand::Sym(k)) => {
            let b = bare(c, k as int);
            if "_"@.is_prefix_of(b) || b.len() == 0 {
                StepView::Skip
            } else {
                exact_step_if(
                    c,
                    k as int,
                    sym(c, k as int) matches Some(s) && api_kind(s.kind),
                    "Public API surface: `"@,
                    "`"@,
                )
            }
        },
        (Generator::ExactSymbolExists, Cand::Sym(k)) => match sym(c, k as int) {
            None => StepView::Skip,
            Some(s) => if s.kind == SymbolKind::File || s.stable_id@.len() == 0 {
                StepView::Skip
            } else {
                exact_lookup("Precision-layer: symbol exists, return the exact id"@, s.stable_id@)
            },
        },
        (Generator::ExactSymbolAbsent, Cand::Slot(i)) => fabricated(
            "Precision-layer: fabricated full id must return empty"@,
            by_id(fabricated_ids()[(i % 5) as int]),
        ),
        (Generator::FakeTypeAbsent, Cand::Slot(i)) => {
            let name = fabricated_classes()[(i % 5) as int];
            fabricated(
                "Precision-layer: invented class name `"@ + name + "` must not resolve"@,
                by_name(name, None),
            )
        },
        (Generator::TypoDetection, Cand::Sym(k)) => {
            let b = bare(c, k as int);
            if utf8_len(b) < 6 {
                StepView::Skip
            } else if b.len() < 4 {
                StepView::Fail
            } else if typo_of(b) == b {
                StepView::Skip
            } else {
                fabricated(
                    "Typo `"@ + typo_of(b) + "` — should not resolve (adapter may return empty or fuzzy match)"@,
                    by_name(typo_of(b), None),
                )
            }
        },
        (Generator::BareNameCollision, Cand::Slot(i)) => if i >= 8 {
            StepView::Skip
        } else {
            let name = collision_names()[i as int];
            let hits = ids_of(c, bare_hits(c, name));
            if hits.len() == 0 {
                StepView::Skip
            } else {
                found(
                    "Ambiguity: `"@ + name + "` has "@ + decimal(hits.len()) + " candidates — list them all"@,
                    by_name(name, None),
                    ExpectedView::Contains { required: hits },
                )
            }
        },
        (Generator::DisambiguateByType, Cand::Member(k, m)) => {
            let b = bare(c, m as int);
            match sid(c, m as int) {
                None => StepView::Skip,
                Some(id) => if b.len() == 0 {
                    StepView::Skip
                } else {
                    exact_lookup(
                        "Disambiguate `"@ + b + "` on enclosing type `"@ + bare(c, k as int) + "`"@,
                        id,
                    )
                },
            }
        },
        (Generator::DisambiguateByKind, Cand::Slot(i)) => {
            let name = common_names()[(i % 4) as int];
            let hits = kept_ids(c, bare_hits(c, name), IdFilter::Functions);
            if hits.len() == 0 {
                StepView::Skip
            } else {
                found(
                    "`"@ + name + "` filtered to function kind"@,
                    by_name(name, Some("function"@)),
                    ExpectedView::Contains { required: hits },
                )
            }
        },
        (Generator::ReturnsGivenShape, Cand::Sym(k)) => exact_step_if(
            c,
            k as int,
            returns_wrapped(signature(c, k as int)),
            "Type-shape: `"@,
            "` returns a wrapped type"@,
        ),
        (Generator::AsyncSyncShape, Cand::Sym(k)) => exact_step_if(
            c,
            k as int,
            "async"@.is_prefix_of(signature(c, k as int)),
            "Async shape: `"@,
            "` is an async fn"@,
        ),
        (Generator::EnvVarCallSites, Cand::Slot(i)) => {
            let name = env_names()[(i % 3) as int];
            let hits = ids_of(c, bare_hits(c, name));
            if hits.len() == 0 {
                StepView::Skip
            } else {
                found(
                    "Env-var access point: `"@ + name + "`"@,
                    by_name(name, None),
                    ExpectedView::Contains { required: hits },
                )
            }
        },
        (Generator::ConfigModuleImports, Cand::File(f)) => named_file_step(
            c,
            f as int,
            path_mentions(c, f as int, "config"@, "settings"@),
            5,
            "Config module: `"@,
            "`"@,
        ),
        (Generator::FeatureFlagEnumUsage, Cand::Sym(k)) => {
            let low = lower_seq(bare(c, k as int));
            if has_sub(low, "flag"@) || has_sub(low, "feature"@) {
                callers_step(c, k as int, true, "Feature-flag usage: `"@, "`"@)
            } else {
                StepView::Skip
            }
        },
        _ => StepView::Skip,
    }
}

/// The steps of the candidates `xs` under generator `g`.
pub open spec fn steps(g: Generator, c: Corpus, xs: Seq<Cand>) -> Seq<StepView> {
    xs.map_values(|x: Cand| step(g, c, x))
}

/// The scenarios generator `g` makes with budget `n` under `cat` / `sub`,
/// or `None` when a candidate it looks at cannot be handled.
pub open spec fn generated(g: Generator, c: Corpus, n: nat, cat: Seq<char>, sub: Seq<char>) -> Option<Seq<ScenarioView>> {
    match emit(steps(g, c, cands(g, c, n)), by_count(g), n) {
        Some(es) => Some(render(cat, sub, es)),
        None => None,
    }
}


// ── Building candidate lists ──────────────────────────────────────

/// Whether symbol `i` belongs to the list `p`.
fn picks_at(c: &Corpus, p: Pick, i: u32) -> (r: bool)
    ensures
        r == picks(*c, p, i as int),
{
    match p {
        Pick::ErrorNamed => {
            let b = bare_at(c, i);
            let v = chars_of(b.as_str());
            ends_with_text(v.as_slice(), "Error") || ends_with_text(v.as_slice(), "Exception")
        },
        _ => {
            if (i as usize) < c.symbols.len() {
                match &c.symbols[i as usize] {
                    Some(s) => match p {
                        Pick::Classes => s.kind == SymbolKind::Struct || s.kind == SymbolKind::Trait,
                        Pick::Enums => s.kind == SymbolKind::Enum,
                        _ => s.kind == SymbolKind::Function,
                    },
                    None => false,
                }
            } else {
                false
            }
        },
    }
}

/// The symbols that belong to the list `p`, in index order.
pub fn picked_symbols(c: &Corpus, p: Pick) -> (r: Vec<u32>)
    requires
        c.symbols@.len() <= u32::MAX,
    ensures
        r@ == picked(*c, p, c.symbols@.len()),
{
    let len = c.symbols.len();
    let mut r: Vec<u32> = Vec::new();
    let mut i: usize = 0;
    while i < len
        invariant
            len == c.symbols@.len(),
            len <= u32::MAX,
            i <= len,
            r@ == picked(*c, p, i as nat),
        decreases len - i,
    {
        if picks_at(c, p, i as u32) {
            r.push(i as u32);
        }
        i = i + 1;
    }
    r
}

fn sym_cands(s: &Vec<u32>) -> (r: Vec<Cand>)
    ensures
        r@ == as_syms(s@),
{
    let mut r: Vec<Cand> = Vec::new();
    let mut i: usize = 0;
    while i < s.len()
        invariant
            i <= s@.len(),
            r@ == as_syms(s@.take(i as int)),
        decreases s@.len() - i,
    {
        r.push(Cand::Sym(s[i]));
        proof {
            assert(as_syms(s@.take(i + 1)) =~= as_syms(s@.take(i as int)).push(Cand::Sym(s@[i as int])));
        }
        i = i + 1;
    }
    proof {
        assert(s@.take(s@.len() as int) =~= s@);
    }
    r
}

fn member_cands(c: &Corpus, cls: &Vec<u32>) -> (r: Vec<Cand>)
    ensures
        r@ == members(*c, cls@),
{
    let mut r: Vec<Cand> = Vec::new();
    let mut j: usize = 0;
    while j < cls.len()
        invariant
            j <= cls@.len(),
            r@ == members(*c, cls@.take(j as int)),
        decreases cls@.len() - j,
    {
        let k = cls[j];
        let es = edges_at(&c.contains, k);
        let ghost start = r@;
        let mut m: usize = 0;
        while m < es.len()
            invariant
                m <= es@.len(),
                r@ == start + es@.take(m as int).map_values(|d: u32| Cand::Member(k, d)),
            decreases es@.len() - m,
        {
            r.push(Cand::Member(k, es[m]));
            proof {
                assert(es@.take(m + 1).map_values(|d: u32| Cand::Member(k, d)) =~= es@.take(
                    m as int,
                ).map_values(|d: u32| Cand::Member(k, d)).push(Cand::Member(k, es@[m as int])));
            }
            m = m + 1;
        }
        proof {
            assert(es@.take(es@.len() as int) =~= es@);
            assert(cls@.take(j + 1).drop_last() =~= cls@.take(j as int));
            assert(cls@.take(j + 1).last() == k);
        }
        j = j + 1;
    }
    proof {
        assert(cls@.take(cls@.len() as int) =~= cls@);
    }
    r
}

fn orphan_cands(c: &Corpus) -> (r: Vec<Cand>)
    ensures
        r@ == orphans_with_ids(*c, c.function_orphans@),
{
    let os = &c.function_orphans;
    let mut r: Vec<Cand> = Vec::new();
    let mut j: usize = 0;
    while j < os.len()
        invariant
            os@ == c.function_orphans@,
            j <= os@.len(),
            r@ == orphans_with_ids(*c, os@.take(j as int)),
        decreases os@.len() - j,
    {
        proof {
            assert(os@.take(j + 1).drop_last() =~= os@.take(j as int));
            assert(os@.take(j + 1).last() == os@[j as int]);
        }
        if stable_id_at(c, os[j]).is_some() {
            r.push(Cand::Sym(os[j]));
        }
        j = j + 1;
    }
    proof {
        assert(os@.take(os@.len() as int) =~= os@);
    }
    r
}

fn slot_cands(k: usize) -> (r: Vec<Cand>)
    ensures
        r@ == slots(k as nat),
{
    let mut r: Vec<Cand> = Vec::new();
    let mut i: usize = 0;
    while i < k
        invariant
            i <= k,
            r@ == slots(i as nat),
        decreases k - i,
    {
        r.push(Cand::Slot(i));
        proof {
            assert(r@ =~= slots((i + 1) as nat));
        }
        i = i + 1;
    }
    r
}

fn symbol_cands(c: &Corpus) -> (r: Vec<Cand>)
    requires
        c.symbols@.len() <= u32::MAX,
    ensures
        r@ == every_symbol(*c),
{
    let len = c.symbols.len();
    let mut r: Vec<Cand> = Vec::new();
    let mut i: usize = 0;
    while i < len
        invariant
            len == c.symbols@.len(),
            len <= u32::MAX,
            i <= len,
            r@ =~= Seq::new(i as nat, |j: int| Cand::Sym(j as u32)),
        decreases len - i,
    {
        r.push(Cand::Sym(i as u32));
        i = i + 1;
    }
    r
}

fn file_cands(c: &Corpus) -> (r: Vec<Cand>)
    ensures
        r@ == every_file(*c),
{
    let len = c.files.len();
    let mut r: Vec<Cand> = Vec::new();
    let mut i: usize = 0;
    while i < len
        invariant
            len == c.files@.len(),
            i <= len,
            r@ =~= Seq::new(i as nat, |j: int| Cand::File(j as usize)),
        decreases len - i,
    {
        r.push(Cand::File(i));
        i = i + 1;
    }
    r
}

/// Whether generator `g` numbers its scenarios by count.
pub fn numbers_by_count(g: Generator) -> (r: bool)
    ensures
        r == by_count(g),
{
    match base_of(g) {
        Generator::LookupMethodOnType | Generator::ImportPathResolution | Generator::BuilderChainRecall
        | Generator::ErrorWrappingPattern | Generator::CrossModuleCallers | Generator::ExistingTestsInFile
        | Generator::FixtureDiscovery | Generator::TestToProdMapping | Generator::MockPattern
        | Generator::AssertionIdiom | Generator::DiWiringRegistration | Generator::SchemaPartnerFile
        | Generator::PublicApiSurface | Generator::ExactSymbolExists | Generator::TypoDetection
        | Generator::DisambiguateByType | Generator::ReturnsGivenShape | Generator::AsyncSyncShape
        | Generator::ConfigModuleImports | Generator::FeatureFlagEnumUsage => true,
        _ => false,
    }
}

/// The candidates generator `g` looks at, with budget `n`.
pub fn candidates(g: Generator, c: &Corpus, n: usize) -> (r: Vec<Cand>)
    requires
        c.symbols@.len() <= u32::MAX,
    ensures
        r@ == cands(g, *c, n as nat),
{
    match base_of(g) {
        Generator::LookupClassByName | Generator::BuilderChainRecall | Generator::ClassFieldInvariants
        | Generator::MethodsOfClass | Generator::NearestFeatureTemplate => {
            let cls = picked_symbols(c, Pick::Classes);
            sym_cands(&cls)
        },
        Generator::SignatureRecall => {
            let fs = picked_symbols(c, Pick::Functions);
            sym_cands(&fs)
        },
        Generator::EnumVariantList => {
            let es = picked_symbols(c, Pick::Enums);
            sym_cands(&es)
        },
        Generator::ExceptionTypeDiscovery => {
            let es = picked_symbols(c, Pick::ErrorNamed);
            sym_cands(&es)
        },
        Generator::LookupMethodOnType | Generator::DisambiguateByType => {
            let cls = picked_symbols(c, Pick::Classes);
            member_cands(c, &cls)
        },
        Generator::CrossModuleSibling | Generator::ExistingTestsInFile | Generator::FixtureDiscovery
        | Generator::SchemaPartnerFile | Generator::ConfigModuleImports => file_cands(c),
        Generator::CallersOfSymbol => {
            let t = top_ranked(c, Rank::Callers, 0, n);
            sym_cands(&t)
        },
        Generator::CalleesOfSymbol => {
            let t = top_ranked(c, Rank::Callees, 0, n);
            sym_cands(&t)
        },
        Generator::OverrideDetection => {
            let t = top_ranked(c, Rank::Implementors, 0, n);
            sym_cands(&t)
        },
        Generator::MultiHopImpact => {
            let t = top_ranked(c, Rank::Callers, 1, n);
            sym_cands(&t)
        },
        Generator::DeadExportDetection => orphan_cands(c),
        Generator::ExactSymbolAbsent | Generator::FakeTypeAbsent | Generator::DisambiguateByKind
        | Generator::EnvVarCallSites => slot_cands(n),
        Generator::BareNameCollision => slot_cands(8),
        _ => symbol_cands(c),
    }
}


// ── Making one scenario ───────────────────────────────────────────

fn id_lookup(id: String) -> (q: Query)
    ensures
        q@ == by_id(id@),
{
    Query::Lookup { name: id, bare_name: false, kind: None }
}

fn name_lookup(name: String, kind: Option<&str>) -> (q: Query)
    ensures
        q@ == by_name(
            name@,
            match kind {
                Some(k) => Some(k@),
                None => None,
            },
        ),
{
    let k = match kind {
        Some(k) => Some(String::from_str(k)),
        None => None,
    };
    Query::Lookup { name, bare_name: true, kind: k }
}

fn required(ids: Vec<String>) -> (e: Expected)
    ensures
        e@ == (ExpectedView::Contains { required: views(ids@) }),
{
    Expected::Contains { required: ids }
}

fn required_one(id: String) -> (e: Expected)
    ensures
        e@ == (ExpectedView::Contains { required: seq![id@] }),
{
    let ghost v = id@;
    let mut ids: Vec<String> = Vec::new();
    ids.push(id);
    proof {
        assert(views(ids@) =~= seq![v]);
    }
    Expected::Contains { required: ids }
}

fn found_step(intent: String, q: Query, e: Expected) -> (r: Step)
    ensures
        r@ == found(intent@, q@, e@),
{
    Step::Emit(Draft { intent, query: q, expected: e, adversarial: false })
}

fn exact_step(intent: String, id: String) -> (r: Step)
    ensures
        r@ == exact_lookup(intent@, id@),
{
    let q = id_lookup(id.clone());
    found_step(intent, q, Expected::ExactSymbol { stable_id: id })
}

fn fabricated_step(intent: String, q: Query) -> (r: Step)
    ensures
        r@ == fabricated(intent@, q@),
{
    let none: Vec<String> = Vec::new();
    proof {
        assert(views(none@) =~= Seq::<Seq<char>>::empty());
    }
    Step::Emit(Draft { intent, query: q, expected: Expected::ExactSet { stable_ids: none }, adversarial: true })
}

/// The path of the file at position `f`.
fn file_text(c: &Corpus, f: usize) -> (r: String)
    ensures
        r@ == file_at(*c, f as int),
{
    if f < c.files.len() {
        c.files[f].clone()
    } else {
        String::new()
    }
}

/// The signature of symbol `k`.
fn signature_text(c: &Corpus, k: u32) -> (r: String)
    ensures
        r@ == signature(*c, k as int),
{
    if (k as usize) < c.symbols.len() {
        match &c.symbols[k as usize] {
            Some(s) => s.signature.clone(),
            None => String::new(),
        }
    } else {
        String::new()
    }
}

/// Whether symbol `k` exists.
fn has_symbol(c: &Corpus, k: u32) -> (r: bool)
    ensures
        r == (sym(*c, k as int) is Some),
{
    (k as usize) < c.symbols.len() && c.symbols[k as usize].is_some()
}

/// `pre`, the short name of symbol `k`, then `post`.
fn about(c: &Corpus, k: u32, pre: &str, post: &str) -> (r: String)
    ensures
        r@ == pre@ + bare(*c, k as int) + post@,
{
    let b = bare_at(c, k);
    let v = chars_of(b.as_str());
    framed(pre, v.as_slice(), post)
}

fn file_step_at(c: &Corpus, f: usize, k: usize, pre: &str, post: &str) -> (r: Step)
    ensures
        r@ == file_step(*c, f as int, k as nat, pre@, post@),
{
    if f >= c.file_symbols.len() {
        return Step::Skip;
    }
    match &c.file_symbols[f] {
        None => Step::Skip,
        Some(v) => {
            let syms = first_ids(c, v.as_slice(), IdFilter::Any, k);
            if syms.len() == 0 {
                Step::Skip
            } else {
                let path = file_text(c, f);
                let pv = chars_of(path.as_str());
                let intent = framed(pre, pv.as_slice(), post);
                found_step(intent, Query::FileSymbols { file_path: path }, required(syms))
            }
        },
    }
}

/// Whether the lower-cased path of file `f` contains `a` or `b`.
fn path_mentions_at(c: &Corpus, f: usize, a: &str, b: &str) -> (r: bool)
    ensures
        r == path_mentions(*c, f as int, a@, b@),
{
    let path = file_text(c, f);
    let v = chars_of(path.as_str());
    let low = lower_chars(v.as_slice());
    contains_text(low.as_slice(), a) || contains_text(low.as_slice(), b)
}

fn members_step_at(c: &Corpus, k: u32, m: usize, pre: &str, post: &str) -> (r: Step)
    ensures
        r@ == members_step(*c, k as int, m as nat, pre@, post@),
{
    match stable_id_at(c, k) {
        None => Step::Skip,
        Some(id) => {
            let es = edges_at(&c.contains, k);
            let ms = first_ids(c, es.as_slice(), IdFilter::Any, m);
            if ms.len() == 0 {
                Step::Skip
            } else {
                found_step(about(c, k, pre, post), Query::ContainedBy { sym_stable_id: id }, required(ms))
            }
        },
    }
}

fn callers_step_at(c: &Corpus, k: u32, need_some: bool, pre: &str, post: &str) -> (r: Step)
    ensures
        r@ == callers_step(*c, k as int, need_some, pre@, post@),
{
    match stable_id_at(c, k) {
        None => Step::Skip,
        Some(id) => {
            let es = edges_at(&c.incoming, k);
            let cs = first_ids(c, es.as_slice(), IdFilter::Any, 5);
            if need_some && cs.len() == 0 {
                Step::Skip
            } else {
                found_step(about(c, k, pre, post), Query::Callers { sym_stable_id: id }, required(cs))
            }
        },
    }
}

fn named_lookup_at(c: &Corpus, k: u32, b: String, pre: &str, post: &str) -> (r: Step)
    ensures
        r@ == named_lookup_step(*c, k as int, b@, pre@, post@),
{
    match stable_id_at(c, k) {
        None => Step::Skip,
        Some(id) => {
            let v = chars_of(b.as_str());
            let intent = framed(pre, v.as_slice(), post);
            found_step(intent, name_lookup(b, None), required_one(id))
        },
    }
}

fn exact_if_at(c: &Corpus, k: u32, cond: bool, pre: &str, post: &str) -> (r: Step)
    ensures
        r@ == exact_step_if(*c, k as int, cond, pre@, post@),
{
    if !has_symbol(c, k) || !cond {
        return Step::Skip;
    }
    match stable_id_at(c, k) {
        Some(id) => exact_step(about(c, k, pre, post), id),
        None => Step::Skip,
    }
}

/// Whether `v` contains `a` or `b`.
fn mentions(v: &[char], a: &str, b: &str) -> (r: bool)
    ensures
        r == (has_sub(v@, a@) || has_sub(v@, b@)),
{
    contains_text(v, a) || contains_text(v, b)
}

fn fabricated_id(i: usize) -> (r: &'static str)
    ensures
        r@ == fabricated_ids()[(i % 5) as int],
{
    match i % 5 {
        0 => "fake::DoesNotExist#fabricated()",
        1 => "scip-python fake pkg 0.0.0 fake/Nothing#",
        2 => "does_not_exist_qualified_name",
        3 => "::fabricated::path::",
        _ => "Nothing at all",
    }
}

fn fabricated_class(i: usize) -> (r: &'static str)
    ensures
        r@ == fabricated_classes()[(i % 5) as int],
{
    match i % 5 {
        0 => "QuantumTeleportManager",
        1 => "ZZZ_NotARealClass",
        2 => "BugFixBot9000",
        3 => "__hallucinated__",
        _ => "OverrideAllTheThings",
    }
}

fn collision_name(i: usize) -> (r: &'static str)
    requires
        i < 8,
    ensures
        r@ == collision_names()[i as int],
{
    match i {
        0 => "new",
        1 => "open",
        2 => "get",
        3 => "init",
        4 => "read",
        5 => "write",
        6 => "close",
        _ => "len",
    }
}

fn common_name(i: usize) -> (r: &'static str)
    ensures
        r@ == common_names()[(i % 4) as int],
{
    match i % 4 {
        0 => "new",
        1 => "default",
        2 => "open",
        _ => "from",
    }
}

fn env_name(i: usize) -> (r: &'static str)
    ensures
        r@ == env_names()[(i % 3) as int],
{
    match i % 3 {
        0 => "var",
        1 => "environ",
        _ => "getenv",
    }
}


// ── Each generator's step ─────────────────────────────────────────

fn step_lookup_class(c: &Corpus, k: u32) -> (r: Step)
    ensures
        r@ == step(Generator::LookupClassByName, *c, Cand::Sym(k)),
{
    let b = bare_at(c, k);
    if b.as_str().is_empty() {
        return Step::Skip;
    }
    match stable_id_at(c, k) {
        None => Step::Skip,
        Some(id) => {
            let v = chars_of(b.as_str());
            let intent = framed("Agent importing class `", v.as_slice(), "` — needs the canonical id");
            found_step(intent, name_lookup(b, Some("struct")), required_one(id))
        },
    }
}

fn step_method_on_type(c: &Corpus, k: u32, m: u32) -> (r: Step)
    ensures
        r@ == step(Generator::LookupMethodOnType, *c, Cand::Member(k, m)),
{
    match stable_id_at(c, m) {
        None => Step::Skip,
        Some(id) => {
            let b = bare_at(c, m);
            if b.as_str().is_empty() {
                Step::Skip
            } else {
                let v = chars_of(b.as_str());
                let intent = framed("Agent calling method `", v.as_slice(), "` on its type");
                found_step(intent, name_lookup(b, None), required_one(id))
            }
        },
    }
}

fn step_signature_recall(c: &Corpus, k: u32) -> (r: Step)
    ensures
        r@ == step(Generator::SignatureRecall, *c, Cand::Sym(k)),
{
    match stable_id_at(c, k) {
        None => Step::Skip,
        Some(id) => exact_step(about(c, k, "Agent verifying signature of `", "` before calling it"), id),
    }
}

fn step_import_path(c: &Corpus, k: u32) -> (r: Step)
    ensures
        r@ == step(Generator::ImportPathResolution, *c, Cand::Sym(k)),
{
    if (k as usize) >= c.symbols.len() {
        return Step::Skip;
    }
    match &c.symbols[k as usize] {
        None => Step::Skip,
        Some(s) => {
            if s.kind == SymbolKind::File {
                return Step::Skip;
            }
            let file = file_text(c, s.file as usize);
            if file.as_str().is_empty() {
                Step::Skip
            } else {
                exact_step(
                    about(c, k, "Agent needs the file path where `", "` is defined"),
                    s.stable_id.clone(),
                )
            }
        },
    }
}

fn step_builder_chain(c: &Corpus, k: u32) -> (r: Step)
    ensures
        r@ == step(Generator::BuilderChainRecall, *c, Cand::Sym(k)),
{
    let es = edges_at(&c.contains, k);
    let bs = first_ids(c, es.as_slice(), IdFilter::Builder, 3);
    if bs.len() == 0 {
        return Step::Skip;
    }
    match stable_id_at(c, k) {
        None => Step::Skip,
        Some(id) => found_step(
            about(c, k, "Agent chaining builder calls on `", "`"),
            Query::ContainedBy { sym_stable_id: id },
            required(bs),
        ),
    }
}

fn step_callees(c: &Corpus, k: u32) -> (r: Step)
    ensures
        r@ == step(Generator::CalleesOfSymbol, *c, Cand::Sym(k)),
{
    match stable_id_at(c, k) {
        None => Step::Skip,
        Some(id) => {
            let es = edges_at(&c.calls, k);
            let cs = first_ids(c, es.as_slice(), IdFilter::Any, 5);
            found_step(
                about(c, k, "Bug downstream of `", "` — enumerate callees"),
                Query::Callees { sym_stable_id: id },
                required(cs),
            )
        },
    }
}

fn step_override(c: &Corpus, k: u32) -> (r: Step)
    ensures
        r@ == step(Generator::OverrideDetection, *c, Cand::Sym(k)),
{
    match stable_id_at(c, k) {
        None => Step::Skip,
        Some(id) => {
            let es = edges_at(&c.implementors, k);
            let cs = first_ids(c, es.as_slice(), IdFilter::Any, 5);
            found_step(
                about(c, k, "Agent refactoring `", "` — find every override"),
                Query::Implementors { sym_stable_id: id },
                required(cs),
            )
        },
    }
}

fn step_cross_module_callers(c: &Corpus, k: u32) -> (r: Step)
    ensures
        r@ == step(Generator::CrossModuleCallers, *c, Cand::Sym(k)),
{
    if (k as usize) >= c.symbols.len() {
        return Step::Skip;
    }
    match &c.symbols[k as usize] {
        None => Step::Skip,
        Some(s) => {
            let inc = edges_at(&c.incoming, k);
            if inc.len() == 0 {
                return Step::Skip;
            }
            let cross = first_ids(c, inc.as_slice(), IdFilter::OtherFile(s.file), 5);
            if cross.len() == 0 {
                Step::Skip
            } else {
                found_step(
                    about(c, k, "Cross-module callers of `", "`"),
                    Query::Callers { sym_stable_id: s.stable_id.clone() },
                    required(cross),
                )
            }
        },
    }
}

fn step_dead_export(c: &Corpus, k: u32) -> (r: Step)
    ensures
        r@ == step(Generator::DeadExportDetection, *c, Cand::Sym(k)),
{
    match stable_id_at(c, k) {
        None => Step::Skip,
        Some(id) => found_step(
            String::from_str("Agent cleaning dead exports — symbol has no callers"),
            Query::Orphans { kind: Some(String::from_str("function")) },
            required_one(id),
        ),
    }
}

fn step_prefixed_name(c: &Corpus, k: u32, g: Generator) -> (r: Step)
    requires
        g == Generator::TestToProdMapping || g == Generator::AssertionIdiom,
    ensures
        r@ == step(g, *c, Cand::Sym(k)),
{
    let b = bare_at(c, k);
    let v = chars_of(b.as_str());
    if g == Generator::TestToProdMapping {
        if starts_with_text(v.as_slice(), "test_") {
            named_lookup_at(c, k, b, "Map test `", "` back to its production target")
        } else {
            Step::Skip
        }
    } else {
        if starts_with_text(v.as_slice(), "assert") {
            named_lookup_at(c, k, b, "Assertion idiom: `", "`")
        } else {
            Step::Skip
        }
    }
}

fn step_mock(c: &Corpus, k: u32) -> (r: Step)
    ensures
        r@ == step(Generator::MockPattern, *c, Cand::Sym(k)),
{
    let b = bare_at(c, k);
    let v = chars_of(b.as_str());
    let low = lower_chars(v.as_slice());
    if mentions(low.as_slice(), "mock", "stub") {
        named_lookup_at(c, k, b, "Mock pattern example: `", "`")
    } else {
        Step::Skip
    }
}

fn step_nearest_feature(c: &Corpus, k: u32) -> (r: Step)
    ensures
        r@ == step(Generator::NearestFeatureTemplate, *c, Cand::Sym(k)),
{
    match stable_id_at(c, k) {
        None => Step::Skip,
        Some(id) => exact_step(about(c, k, "Agent scaffolding mirrored on `", "`"), id),
    }
}

fn step_di_wiring(c: &Corpus, k: u32) -> (r: Step)
    ensures
        r@ == step(Generator::DiWiringRegistration, *c, Cand::Sym(k)),
{
    let b = bare_at(c, k);
    let v = chars_of(b.as_str());
    let low = lower_chars(v.as_slice());
    let reg = starts_with_text(low.as_slice(), "register") || contains_text(low.as_slice(), "_register")
        || chars_eq(low.as_slice(), chars_of("register").as_slice()) || chars_eq(
        low.as_slice(),
        chars_of("add_route").as_slice(),
    );
    if reg {
        callers_step_at(c, k, false, "Find wiring call-sites for `", "`")
    } else {
        Step::Skip
    }
}

fn step_public_api(c: &Corpus, k: u32) -> (r: Step)
    ensures
        r@ == step(Generator::PublicApiSurface, *c, Cand::Sym(k)),
{
    let b = bare_at(c, k);
    let v = chars_of(b.as_str());
    if starts_with_text(v.as_slice(), "_") || v.len() == 0 {
        return Step::Skip;
    }
    let api = if (k as usize) < c.symbols.len() {
        match &c.symbols[k as usize] {
            Some(s) => s.kind == SymbolKind::Function || s.kind == SymbolKind::Struct || s.kind
                == SymbolKind::Trait || s.kind == SymbolKind::Enum,
            None => false,
        }
    } else {
        false
    };
    exact_if_at(c, k, api, "Public API surface: `", "`")
}

fn step_exact_exists(c: &Corpus, k: u32) -> (r: Step)
    ensures
        r@ == step(Generator::ExactSymbolExists, *c, Cand::Sym(k)),
{
    if (k as usize) >= c.symbols.len() {
        return Step::Skip;
    }
    match &c.symbols[k as usize] {
        None => Step::Skip,
        Some(s) => if s.kind == SymbolKind::File || s.stable_id.as_str().is_empty() {
            Step::Skip
        } else {
            exact_step(
                String::from_str("Precision-layer: symbol exists, return the exact id"),
                s.stable_id.clone(),
            )
        },
    }
}

fn step_typo(c: &Corpus, k: u32) -> (r: Step)
    ensures
        r@ == step(Generator::TypoDetection, *c, Cand::Sym(k)),
{
    let b = bare_at(c, k);
    let st = b.as_str();
    let n = st.len();
    proof {
        assert(st.spec_bytes() == encode_utf8(b@));
    }
    if n < 6 {
        return Step::Skip;
    }
    let v = chars_of(b.as_str());
    if v.len() < 4 {
        return Step::Fail;
    }
    let mut t = string_of(v.as_slice());
    let mut w = chars_of(t.as_str());
    let a2 = w[2];
    let a3 = w[3];
    w.set(2, a3);
    w.set(3, a2);
    proof {
        assert(w@ =~= typo_of(b@));
    }
    if chars_eq(w.as_slice(), v.as_slice()) {
        return Step::Skip;
    }
    t = string_of(w.as_slice());
    let intent = framed(
        "Typo `",
        w.as_slice(),
        "` — should not resolve (adapter may return empty or fuzzy match)",
    );
    fabricated_step(intent, name_lookup(t, None))
}

fn step_collision(c: &Corpus, i: usize) -> (r: Step)
    ensures
        r@ == step(Generator::BareNameCollision, *c, Cand::Slot(i)),
{
    if i >= 8 {
        return Step::Skip;
    }
    let name = collision_name(i);
    let hv = bare_hits_of(c, name);
    let hits = all_ids(c, hv.as_slice(), IdFilter::Any);
    if hits.len() == 0 {
        return Step::Skip;
    }
    let mut intent = String::from_str("Ambiguity: `");
    push_str(&mut intent, name);
    push_str(&mut intent, "` has ");
    push_decimal(&mut intent, hits.len() as u64);
    push_str(&mut intent, " candidates — list them all");
    proof {
        assert(views(hits@).len() == hits@.len());
    }
    found_step(intent, name_lookup(String::from_str(name), None), required(hits))
}

fn step_disambiguate_by_type(c: &Corpus, k: u32, m: u32) -> (r: Step)
    ensures
        r@ == step(Generator::DisambiguateByType, *c, Cand::Member(k, m)),
{
    match stable_id_at(c, m) {
        None => Step::Skip,
        Some(id) => {
            let b = bare_at(c, m);
            if b.as_str().is_empty() {
                Step::Skip
            } else {
                let v = chars_of(b.as_str());
                let head = framed("Disambiguate `", v.as_slice(), "` on enclosing type `");
                let owner = chars_of(bare_at(c, k).as_str());
                let intent = framed(head.as_str(), owner.as_slice(), "`");
                exact_step(intent, id)
            }
        },
    }
}

fn step_disambiguate_by_kind(c: &Corpus, i: usize) -> (r: Step)
    ensures
        r@ == step(Generator::DisambiguateByKind, *c, Cand::Slot(i)),
{
    let name = common_name(i);
    let hv = bare_hits_of(c, name);
    let hits = all_ids(c, hv.as_slice(), IdFilter::Functions);
    if hits.len() == 0 {
        return Step::Skip;
    }
    let nv = chars_of(name);
    let intent = framed("`", nv.as_slice(), "` filtered to function kind");
    found_step(intent, name_lookup(String::from_str(name), Some("function")), required(hits))
}

fn step_env_var(c: &Corpus, i: usize) -> (r: Step)
    ensures
        r@ == step(Generator::EnvVarCallSites, *c, Cand::Slot(i)),
{
    let name = env_name(i);
    let hv = bare_hits_of(c, name);
    let hits = all_ids(c, hv.as_slice(), IdFilter::Any);
    if hits.len() == 0 {
        return Step::Skip;
    }
    let nv = chars_of(name);
    let intent = framed("Env-var access point: `", nv.as_slice(), "`");
    found_step(intent, name_lookup(String::from_str(name), None), required(hits))
}

fn step_signature_shape(c: &Corpus, k: u32, g: Generator) -> (r: Step)
    requires
        g == Generator::ErrorWrappingPattern || g == Generator::ReturnsGivenShape || g
            == Generator::AsyncSyncShape,
    ensures
        r@ == step(g, *c, Cand::Sym(k)),
{
    let sig = signature_text(c, k);
    let v = chars_of(sig.as_str());
    if g == Generator::ErrorWrappingPattern {
        let w = mentions(v.as_slice(), "Result<", "Option<") || mentions(
            v.as_slice(),
            "-> Result",
            "-> Option",
        );
        exact_if_at(c, k, w, "Example of error-wrapping pattern: `", "`")
    } else if g == Generator::ReturnsGivenShape {
        let w = mentions(v.as_slice(), "-> Result", "-> Option");
        exact_if_at(c, k, w, "Type-shape: `", "` returns a wrapped type")
    } else {
        let w = starts_with_text(v.as_slice(), "async");
        exact_if_at(c, k, w, "Async shape: `", "` is an async fn")
    }
}

fn step_feature_flag(c: &Corpus, k: u32) -> (r: Step)
    ensures
        r@ == step(Generator::FeatureFlagEnumUsage, *c, Cand::Sym(k)),
{
    let b = bare_at(c, k);
    let v = chars_of(b.as_str());
    let low = lower_chars(v.as_slice());
    if mentions(low.as_slice(), "flag", "feature") {
        callers_step_at(c, k, true, "Feature-flag usage: `", "`")
    } else {
        Step::Skip
    }
}

fn step_file(c: &Corpus, f: usize, g: Generator) -> (r: Step)
    requires
        g == Generator::CrossModuleSibling || g == Generator::ExistingTestsInFile || g
            == Generator::FixtureDiscovery || g == Generator::SchemaPartnerFile || g
            == Generator::ConfigModuleImports,
    ensures
        r@ == step(g, *c, Cand::File(f)),
{
    if g == Generator::CrossModuleSibling {
        file_step_at(c, f, 5, "Agent discovering siblings in `", "`")
    } else if g == Generator::ExistingTestsInFile {
        if path_mentions_at(c, f, "test", "spec") {
            file_step_at(c, f, 8, "Agent writing a test — check existing in `", "`")
        } else {
            Step::Skip
        }
    } else if g == Generator::FixtureDiscovery {
        if path_mentions_at(c, f, "conftest", "fixture") {
            file_step_at(c, f, 8, "Find shared fixtures in `", "`")
        } else {
            Step::Skip
        }
    } else if g == Generator::SchemaPartnerFile {
        let path = file_text(c, f);
        let low = lower_chars(chars_of(path.as_str()).as_slice());
        if path_mentions_at(c, f, "schema", "model") || contains_text(low.as_slice(), "migration") {
            file_step_at(c, f, 5, "Schema partner file: `", "`")
        } else {
            Step::Skip
        }
    } else {
        if path_mentions_at(c, f, "config", "settings") {
            file_step_at(c, f, 5, "Config module: `", "`")
        } else {
            Step::Skip
        }
    }
}


/// What candidate `x` becomes under generator `g`.
pub fn step_of(g: Generator, c: &Corpus, x: &Cand) -> (r: Step)
    ensures
        r@ == step(g, *c, *x),
{
    let b = base_of(g);
    match (b, *x) {
        (Generator::LookupClassByName, Cand::Sym(k)) => step_lookup_class(c, k),
        (Generator::LookupMethodOnType, Cand::Member(k, m)) => step_method_on_type(c, k, m),
        (Generator::SignatureRecall, Cand::Sym(k)) => step_signature_recall(c, k),
        (Generator::ImportPathResolution, Cand::Sym(k)) => step_import_path(c, k),
        (Generator::CrossModuleSibling, Cand::File(f)) => step_file(c, f, b),
        (Generator::BuilderChainRecall, Cand::Sym(k)) => step_builder_chain(c, k),
        (Generator::CallersOfSymbol, Cand::Sym(k)) => callers_step_at(
            c,
            k,
            false,
            "Bug suspected in `",
            "` — enumerate callers",
        ),
        (Generator::CalleesOfSymbol, Cand::Sym(k)) => step_callees(c, k),
        (Generator::OverrideDetection, Cand::Sym(k)) => step_override(c, k),
        (Generator::MultiHopImpact, Cand::Sym(k)) => callers_step_at(
            c,
            k,
            false,
            "Multi-hop impact starting from `",
            "` (depth-1 approximation)",
        ),
        (Generator::ExceptionTypeDiscovery, Cand::Sym(k)) => {
            let name = bare_at(c, k);
            named_lookup_at(c, k, name, "Agent triaging error — locate `", "` type")
        },
        (Generator::ClassFieldInvariants, Cand::Sym(k)) => members_step_at(
            c,
            k,
            5,
            "Agent understanding invariants of `",
            "` — members",
        ),
        (Generator::ErrorWrappingPattern, Cand::Sym(k)) => step_signature_shape(c, k, b),
        (Generator::MethodsOfClass, Cand::Sym(k)) => members_step_at(c, k, 6, "Rename audit on `", "` — every method"),
        (Generator::EnumVariantList, Cand::Sym(k)) => members_step_at(c, k, 8, "Extending enum `", "` — list variants"),
        (Generator::CrossModuleCallers, Cand::Sym(k)) => step_cross_module_callers(c, k),
        (Generator::DeadExportDetection, Cand::Sym(k)) => step_dead_export(c, k),
        (Generator::ExistingTestsInFile, Cand::File(f)) => step_file(c, f, b),
        (Generator::FixtureDiscovery, Cand::File(f)) => step_file(c, f, b),
        (Generator::TestToProdMapping, Cand::Sym(k)) => step_prefixed_name(c, k, b),
        (Generator::MockPattern, Cand::Sym(k)) => step_mock(c, k),
        (Generator::AssertionIdiom, Cand::Sym(k)) => step_prefixed_name(c, k, b),
        (Generator::NearestFeatureTemplate, Cand::Sym(k)) => step_nearest_feature(c, k),
        (Generator::DiWiringRegistration, Cand::Sym(k)) => step_di_wiring(c, k),
        (Generator::SchemaPartnerFile, Cand::File(f)) => step_file(c, f, b),
        (Generator::PublicApiSurface, Cand::Sym(k)) => step_public_api(c, k),
        (Generator::ExactSymbolExists, Cand::Sym(k)) => step_exact_exists(c, k),
        (Generator::ExactSymbolAbsent, Cand::Slot(i)) => fabricated_step(
            String::from_str("Precision-layer: fabricated full id must return empty"),
            id_lookup(String::from_str(fabricated_id(i))),
        ),
        (Generator::FakeTypeAbsent, Cand::Slot(i)) => {
            let name = fabricated_class(i);
            let nv = chars_of(name);
            let intent = framed("Precision-layer: invented class name `", nv.as_slice(), "` must not resolve");
            fabricated_step(intent, name_lookup(String::from_str(name), None))
        },
        (Generator::TypoDetection, Cand::Sym(k)) => step_typo(c, k),
        (Generator::BareNameCollision, Cand::Slot(i)) => step_collision(c, i),
        (Generator::DisambiguateByType, Cand::Member(k, m)) => step_disambiguate_by_type(c, k, m),
        (Generator::DisambiguateByKind, Cand::Slot(i)) => step_disambiguate_by_kind(c, i),
        (Generator::ReturnsGivenShape, Cand::Sym(k)) => step_signature_shape(c, k, b),
        (Generator::AsyncSyncShape, Cand::Sym(k)) => step_signature_shape(c, k, b),
        (Generator::EnvVarCallSites, Cand::Slot(i)) => step_env_var(c, i),
        (Generator::ConfigModuleImports, Cand::File(f)) => step_file(c, f, b),
        (Generator::FeatureFlagEnumUsage, Cand::Sym(k)) => step_feature_flag(c, k),
        _ => Step::Skip,
    }
}

/// Once a prefix of the steps fails, so do all of them.
proof fn lemma_emit_fails_on(steps: Seq<StepView>, by: bool, n: nat, j: int)
    requires
        0 <= j <= steps.len(),
        emit(steps.take(j), by, n) is None,
    ensures
        emit(steps, by, n) is None,
    decreases steps.len(),
{
    if j == steps.len() {
        assert(steps.take(j) =~= steps);
    } else {
        assert(steps.drop_last().take(j) =~= steps.take(j));
        lemma_emit_fails_on(steps.drop_last(), by, n, j);
    }
}

/// The scenarios generator `g` makes with budget `n`, filed under `cat` /
/// `sub`; `None` when a candidate it looks at cannot be handled (a typo
/// candidate whose short name has six bytes but fewer than four characters).
pub fn generate(g: Generator, c: &Corpus, n: usize, cat: &str, sub: &str) -> (r: Option<Vec<Scenario>>)
    requires
        c.symbols@.len() <= u32::MAX,
    ensures
        match r {
            Some(v) => generated(g, *c, n as nat, cat@, sub@) == Some(scenario_views(v@)),
            None => generated(g, *c, n as nat, cat@, sub@) is None,
        },
{
    let xs = candidates(g, c, n);
    let by = numbers_by_count(g);
    let ghost all = steps(g, *c, xs@);
    let mut out: Vec<Scenario> = Vec::new();
    let ghost mut es: Seq<(nat, DraftView)> = Seq::empty();
    let mut pos: usize = 0;
    while pos < xs.len()
        invariant
            pos <= xs@.len(),
            xs@ == cands(g, *c, n as nat),
            by == by_count(g),
            all == steps(g, *c, xs@),
            emit(all.take(pos as int), by, n as nat) == Some(es),
            scenario_views(out@) == render(cat@, sub@, es),
            out@.len() == es.len(),
            es.len() <= pos,
        decreases xs@.len() - pos,
    {
        proof {
            assert(all.take(pos + 1).drop_last() =~= all.take(pos as int));
            assert(all.take(pos + 1).last() == step(g, *c, xs@[pos as int]));
        }
        let lv = if by {
            out.len() < n
        } else {
            pos < n
        };
        if lv {
            match step_of(g, c, &xs[pos]) {
                Step::Skip => {},
                Step::Emit(d) => {
                    let slot = if by {
                        out.len()
                    } else {
                        pos
                    };
                    let ghost dv = d@;
                    let sc = make_scenario(cat, sub, slot, d);
                    let ghost before = out@;
                    out.push(sc);
                    proof {
                        es = es.push((slot as nat, dv));
                        assert(scenario_views(out@) =~= scenario_views(before).push(sc@));
                        assert(render(cat@, sub@, es) =~= render(cat@, sub@, es.drop_last()).push(
                            scenario_of(cat@, sub@, slot as nat, dv),
                        ));
                    }
                },
                Step::Fail => {
                    proof {
                        lemma_emit_fails_on(all, by, n as nat, pos + 1);
                        assert(all =~= steps(g, *c, cands(g, *c, n as nat)));
                    }
                    return None;
                },
            }
        }
        pos = pos + 1;
    }
    proof {
        assert(all.take(xs@.len() as int) =~= all);
    }
    Some(out)
}


/// How `emit` numbers what it keeps: at most `n` scenarios, no more than
/// there are candidates, numbers below `n` and strictly increasing, and a
/// numbered-by-count generator numbers them `0, 1, 2, ...`.
pub proof fn lemma_emit_numbering(steps: Seq<StepView>, by: bool, n: nat)
    ensures
        emit(steps, by, n) matches Some(es) ==> {
            &&& es.len() <= n
            &&& es.len() <= steps.len()
            &&& forall|i: int| 0 <= i < es.len() ==> #[trigger] es[i].0 < n && es[i].0 < steps.len()
            &&& forall|i: int, j: int| 0 <= i < j < es.len() ==> #[trigger] es[i].0 < #[trigger] es[j].0
            &&& by ==> forall|i: int| 0 <= i < es.len() ==> #[trigger] es[i].0 == i
        },
    decreases steps.len(),
{
    if steps.len() > 0 {
        lemma_emit_numbering(steps.drop_last(), by, n);
    }
}

/// Every scenario generator `g` makes with budget `n` is numbered below `n`,
/// the numbers strictly increase (so no two scenarios share an id), there are
/// at most `n` of them, and a generator numbered by count numbers them
/// `0, 1, 2, ...` in order.
pub proof fn law_generator_numbering(g: Generator, c: Corpus, n: nat)
    ensures
        emit(steps(g, c, cands(g, c, n)), by_count(g), n) matches Some(es) ==> {
            &&& es.len() <= n
            &&& forall|i: int| 0 <= i < es.len() ==> #[trigger] es[i].0 < n
            &&& forall|i: int, j: int| 0 <= i < j < es.len() ==> #[trigger] es[i].0 < #[trigger] es[j].0
            &&& by_count(g) ==> forall|i: int| 0 <= i < es.len() ==> #[trigger] es[i].0 == i
        },
{
    lemma_emit_numbering(steps(g, c, cands(g, c, n)), by_count(g), n);
}

/// A generator never makes more scenarios than its budget.
pub proof fn law_generator_respects_budget(g: Generator, c: Corpus, n: nat, cat: Seq<char>, sub: Seq<char>)
    ensures
        generated(g, c, n, cat, sub) matches Some(v) ==> v.len() <= n,
{
    lemma_emit_numbering(steps(g, c, cands(g, c, n)), by_count(g), n);
}

proof fn lemma_step_adversarial(g: Generator, c: Corpus, x: Cand)
    ensures
        step(g, c, x) matches StepView::Emit(d) ==> (d.adversarial ==> d.expected == (ExpectedView::ExactSet {
            stable_ids: Seq::empty(),
        })),
{
}

proof fn lemma_emit_adversarial(steps: Seq<StepView>, by: bool, n: nat)
    requires
        forall|i: int| 0 <= i < steps.len() ==> (#[trigger] steps[i] matches StepView::Emit(d) ==> (d.adversarial
            ==> d.expected == (ExpectedView::ExactSet { stable_ids: Seq::empty() }))),
    ensures
        emit(steps, by, n) matches Some(es) ==> forall|i: int| 0 <= i < es.len() ==> (#[trigger] es[i].1.adversarial
            ==> es[i].1.expected == (ExpectedView::ExactSet { stable_ids: Seq::empty() })),
    decreases steps.len(),
{
    if steps.len() > 0 {
        assert(steps.last() == steps[steps.len() - 1]);
        lemma_emit_adversarial(steps.drop_last(), by, n);
    }
}

/// Every adversarial scenario (one whose gold answer is made up, such as a
/// fabricated id, an invented class name or a typo) expects an empty answer.
pub proof fn law_adversarial_scenarios_expect_nothing(
    g: Generator,
    c: Corpus,
    n: nat,
    cat: Seq<char>,
    sub: Seq<char>,
)
    ensures
        generated(g, c, n, cat, sub) matches Some(v) ==> forall|i: int|
            0 <= i < v.len() && #[trigger] v[i].gold_source == "adversarial"@ ==> v[i].expected == (ExpectedView::ExactSet {
                stable_ids: Seq::empty(),
            }),
{
    let xs = cands(g, c, n);
    let ss = steps(g, c, xs);
    assert forall|i: int| 0 <= i < ss.len() implies (#[trigger] ss[i] matches StepView::Emit(d) ==> (d.adversarial
        ==> d.expected == (ExpectedView::ExactSet { stable_ids: Seq::empty() }))) by {
        lemma_step_adversarial(g, c, xs[i]);
    }
    lemma_emit_adversarial(ss, by_count(g), n);
    reveal_strlit("adversarial");
    reveal_strlit("scip_roundtrip");
    assert("adversarial"@ != "scip_roundtrip"@) by {
        assert("adversarial"@.len() != "scip_roundtrip"@.len());
    }
}

/// No two scenarios a generator makes share an id.
pub proof fn law_generator_ids_distinct(g: Generator, c: Corpus, n: nat, cat: Seq<char>, sub: Seq<char>)
    ensures
        generated(g, c, n, cat, sub) matches Some(v) ==> forall|i: int, j: int|
            0 <= i < j < v.len() ==> #[trigger] v[i].id != #[trigger] v[j].id,
{
    let ss = steps(g, c, cands(g, c, n));
    lemma_emit_numbering(ss, by_count(g), n);
    if let Some(es) = emit(ss, by_count(g), n) {
        let v = render(cat, sub, es);
        assert forall|i: int, j: int| 0 <= i < j < v.len() implies #[trigger] v[i].id != #[trigger] v[j].id by {
            assert(es[i].0 < es[j].0);
            law_scenario_ids_identify(sub, es[i].0, sub, es[j].0);
        }
    }
}

/// Whether a scenario looks a symbol up by its full id and expects exactly
/// that id at the top.
pub open spec fn asks_for_exact_id(q: QueryView, e: ExpectedView) -> bool {
    &&& q matches QueryView::Lookup { name, bare_name: false, kind: None }
    &&& e == (ExpectedView::ExactSymbol { stable_id: q->Lookup_name })
}

proof fn lemma_emit_exact(steps: Seq<StepView>, by: bool, n: nat)
    requires
        forall|i: int| 0 <= i < steps.len() ==> (#[trigger] steps[i] matches StepView::Emit(d) ==> asks_for_exact_id(
            d.query,
            d.expected,
        )),
    ensures
        emit(steps, by, n) matches Some(es) ==> forall|i: int| 0 <= i < es.len() ==> asks_for_exact_id(
            #[trigger] es[i].1.query,
            es[i].1.expected,
        ),
    decreases steps.len(),
{
    if steps.len() > 0 {
        assert(steps.last() == steps[steps.len() - 1]);
        lemma_emit_exact(steps.drop_last(), by, n);
    }
}

/// Every scenario of the exists-lookup generator asks for a symbol by its
/// full id and expects exactly that id.
pub proof fn lemma_exists_lookups_ask_exact_ids(c: Corpus, n: nat, cat: Seq<char>, sub: Seq<char>)
    ensures
        generated(Generator::ExactSymbolExists, c, n, cat, sub) matches Some(v) ==> forall|i: int|
            0 <= i < v.len() ==> asks_for_exact_id(#[trigger] v[i].query, v[i].expected),
{
    let g = Generator::ExactSymbolExists;
    let xs = cands(g, c, n);
    let ss = steps(g, c, xs);
    assert forall|i: int| 0 <= i < ss.len() implies (#[trigger] ss[i] matches StepView::Emit(d) ==> asks_for_exact_id(
        d.query,
        d.expected,
    )) by {
        assert(ss[i] == step(g, c, xs[i]));
    }
    lemma_emit_exact(ss, by_count(g), n);
    if let Some(es) = emit(ss, by_count(g), n) {
        let v = render(cat, sub, es);
        assert forall|i: int| 0 <= i < v.len() implies asks_for_exact_id(#[trigger] v[i].query, v[i].expected) by {
            assert(v[i].query == es[i].1.query && v[i].expected == es[i].1.expected);
        }
    }
}

proof fn lemma_emit_satisfy(steps: Seq<StepView>, by: bool, n: nat, p: spec_fn(DraftView) -> bool)
    requires
        forall|i: int| 0 <= i < steps.len() ==> (#[trigger] steps[i] matches StepView::Emit(d) ==> p(d)),
    ensures
        emit(steps, by, n) matches Some(es) ==> forall|i: int| 0 <= i < es.len() ==> p(#[trigger] es[i].1),
    decreases steps.len(),
{
    if steps.len() > 0 {
        assert(steps.last() == steps[steps.len() - 1]);
        lemma_emit_satisfy(steps.drop_last(), by, n, p);
    }
}

/// What every scenario a generator emits satisfies, read off its steps:
/// each generated scenario is a draft satisfying `p`, numbered and filed.
pub proof fn lemma_generated_satisfy(
    g: Generator,
    c: Corpus,
    n: nat,
    cat: Seq<char>,
    sub: Seq<char>,
    p: spec_fn(DraftView) -> bool,
)
    requires
        forall|x: Cand| #[trigger] step(g, c, x) matches StepView::Emit(d) ==> p(d),
    ensures
        generated(g, c, n, cat, sub) matches Some(v) ==> forall|i: int|
            #![trigger v[i]]
            0 <= i < v.len() ==> exists|slot: nat, d: DraftView| p(d) && v[i] == #[trigger] scenario_of(cat, sub, slot, d),
{
    let xs = cands(g, c, n);
    let ss = steps(g, c, xs);
    assert forall|i: int| 0 <= i < ss.len() implies (#[trigger] ss[i] matches StepView::Emit(d) ==> p(d)) by {
        assert(ss[i] == step(g, c, xs[i]));
    }
    lemma_emit_satisfy(ss, by_count(g), n, p);
    if let Some(es) = emit(ss, by_count(g), n) {
        let v = render(cat, sub, es);
        assert forall|i: int| #![trigger v[i]] 0 <= i < v.len() implies exists|slot: nat, d: DraftView|
            p(d) && v[i] == #[trigger] scenario_of(cat, sub, slot, d) by {
            assert(p(es[i].1));
            assert(v[i] == scenario_of(cat, sub, es[i].0, es[i].1));
        }
    }
}

/// Whether a scenario asks for the callees of a symbol of the graph and
/// expects the first five ids of that symbol's call edges.
pub open spec fn asks_for_callees(c: Corpus, q: QueryView, e: ExpectedView) -> bool {
    &&& q is Callees
    &&& exists|k: int|
        sid(c, k) == Some(q->Callees_sym_stable_id) && e == (ExpectedView::Contains {
            required: first_n(ids_of(c, #[trigger] edges(c.calls@, k)), 5),
        })
}

/// Every scenario of the callees generator queries the callees of the
/// symbol it is about, and is graded against the first ids of that
/// symbol's call edges.
pub proof fn law_callees_scenarios_ask_for_callees(c: Corpus, n: nat, cat: Seq<char>, sub: Seq<char>)
    ensures
        generated(Generator::CalleesOfSymbol, c, n, cat, sub) matches Some(v) ==> forall|i: int|
            0 <= i < v.len() ==> asks_for_callees(c, #[trigger] v[i].query, v[i].expected),
{
    let p = |d: DraftView| asks_for_callees(c, d.query, d.expected);
    assert forall|x: Cand| (#[trigger] step(Generator::CalleesOfSymbol, c, x) matches StepView::Emit(d) ==> p(d)) by {
        if let Cand::Sym(k) = x {
            assert(edges(c.calls@, k as int) == edges(c.calls@, k as int));
        }
    }
    lemma_generated_satisfy(Generator::CalleesOfSymbol, c, n, cat, sub, p);
    if let Some(v) = generated(Generator::CalleesOfSymbol, c, n, cat, sub) {
        assert forall|i: int| 0 <= i < v.len() implies asks_for_callees(c, #[trigger] v[i].query, v[i].expected) by {
            let (slot, d) = choose|slot: nat, d: DraftView| p(d) && v[i] == #[trigger] scenario_of(cat, sub, slot, d);
        }
    }
}

/// Whether a scenario looks up one of the fabricated full ids.
pub open spec fn asks_for_fabricated_id(q: QueryView) -> bool {
    &&& q matches QueryView::Lookup { name, bare_name: false, kind: None }
    &&& fabricated_ids().contains(q->Lookup_name)
}

/// Every scenario of the absent-id generator is adversarial: it looks up
/// one of the fabricated full ids, expects the empty set, and its gold
/// answer is marked adversarial.
pub proof fn law_absent_id_scenarios_are_adversarial(c: Corpus, n: nat, cat: Seq<char>, sub: Seq<char>)
    ensures
        generated(Generator::ExactSymbolAbsent, c, n, cat, sub) matches Some(v) ==> forall|i: int|
            0 <= i < v.len() ==> {
                &&& (#[trigger] v[i]).gold_source == "adversarial"@
                &&& v[i].expected == (ExpectedView::ExactSet { stable_ids: Seq::empty() })
                &&& asks_for_fabricated_id(v[i].query)
            },
{
    let p = |d: DraftView|
        d.adversarial && d.expected == (ExpectedView::ExactSet { stable_ids: Seq::empty() })
            && asks_for_fabricated_id(d.query);
    assert forall|x: Cand| (#[trigger] step(Generator::ExactSymbolAbsent, c, x) matches StepView::Emit(d) ==> p(d)) by {
        if let Cand::Slot(i) = x {
            let k = (i % 5) as int;
            assert(0 <= k < 5);
            assert(fabricated_ids()[k] == fabricated_ids()[(i % 5) as int]);
        }
    }
    lemma_generated_satisfy(Generator::ExactSymbolAbsent, c, n, cat, sub, p);
}

/// Whether a scenario asks for the callers of a symbol of the graph and
/// expects the first five ids of that symbol's incoming edges.
pub open spec fn asks_for_callers(c: Corpus, q: QueryView, e: ExpectedView) -> bool {
    &&& q is Callers
    &&& exists|k: int|
        sid(c, k) == Some(q->Callers_sym_stable_id) && e == (ExpectedView::Contains {
            required: first_n(ids_of(c, #[trigger] edges(c.incoming@, k)), 5),
        })
}

/// Whether a scenario asks for the implementors of a symbol of the graph and
/// expects the first five ids of its implementors.
pub open spec fn asks_for_implementors(c: Corpus, q: QueryView, e: ExpectedView) -> bool {
    &&& q is Implementors
    &&& exists|k: int|
        sid(c, k) == Some(q->Implementors_sym_stable_id) && e == (ExpectedView::Contains {
            required: first_n(ids_of(c, #[trigger] edges(c.implementors@, k)), 5),
        })
}

/// Whether a scenario asks for the members of a symbol of the graph and
/// expects the first (at most `m`) ids of its members.
pub open spec fn asks_for_members(c: Corpus, q: QueryView, e: ExpectedView, m: nat) -> bool {
    &&& q is ContainedBy
    &&& exists|k: int|
        sid(c, k) == Some(q->ContainedBy_sym_stable_id) && e == (ExpectedView::Contains {
            required: first_n(ids_of(c, #[trigger] edges(c.contains@, k)), m),
        })
}

/// Every scenario of the callers generators (callers of a symbol,
/// multi-hop impact, wiring call-sites, feature-flag usage) asks for the
/// callers of the symbol it is about and expects the first ids of that
/// symbol's incoming edges.
pub proof fn law_callers_scenarios_ask_for_callers(g: Generator, c: Corpus, n: nat, cat: Seq<char>, sub: Seq<char>)
    requires
        base(g) == Generator::CallersOfSymbol || g == Generator::MultiHopImpact || g
            == Generator::DiWiringRegistration || g == Generator::FeatureFlagEnumUsage,
    ensures
        generated(g, c, n, cat, sub) matches Some(v) ==> forall|i: int|
            0 <= i < v.len() ==> asks_for_callers(c, #[trigger] v[i].query, v[i].expected),
{
    let p = |d: DraftView| asks_for_callers(c, d.query, d.expected);
    assert forall|x: Cand| (#[trigger] step(g, c, x) matches StepView::Emit(d) ==> p(d)) by {
        if let Cand::Sym(k) = x {
            assert(edges(c.incoming@, k as int) == edges(c.incoming@, k as int));
        }
    }
    lemma_generated_satisfy(g, c, n, cat, sub, p);
    if let Some(v) = generated(g, c, n, cat, sub) {
        assert forall|i: int| 0 <= i < v.len() implies asks_for_callers(c, #[trigger] v[i].query, v[i].expected) by {
            let (slot, d) = choose|slot: nat, d: DraftView| p(d) && v[i] == #[trigger] scenario_of(cat, sub, slot, d);
        }
    }
}

/// Every scenario of the override generators asks for the implementors of
/// the symbol it is about and expects the first ids of its implementors.
pub proof fn law_override_scenarios_ask_for_implementors(g: Generator, c: Corpus, n: nat, cat: Seq<char>, sub: Seq<char>)
    requires
        base(g) == Generator::OverrideDetection,
    ensures
        generated(g, c, n, cat, sub) matches Some(v) ==> forall|i: int|
            0 <= i < v.len() ==> asks_for_implementors(c, #[trigger] v[i].query, v[i].expected),
{
    let p = |d: DraftView| asks_for_implementors(c, d.query, d.expected);
    assert forall|x: Cand| (#[trigger] step(g, c, x) matches StepView::Emit(d) ==> p(d)) by {
        if let Cand::Sym(k) = x {
            assert(edges(c.implementors@, k as int) == edges(c.implementors@, k as int));
        }
    }
    lemma_generated_satisfy(g, c, n, cat, sub, p);
    if let Some(v) = generated(g, c, n, cat, sub) {
        assert forall|i: int| 0 <= i < v.len() implies asks_for_implementors(c, #[trigger] v[i].query, v[i].expected) by {
            let (slot, d) = choose|slot: nat, d: DraftView| p(d) && v[i] == #[trigger] scenario_of(cat, sub, slot, d);
        }
    }
}

/// Every scenario of the member generators asks for the members of the
/// symbol it is about and expects the first ids of its members: at most six
/// for a rename audit, five for field invariants, eight for enum variants.
pub proof fn law_member_scenarios_ask_for_members(g: Generator, c: Corpus, n: nat, cat: Seq<char>, sub: Seq<char>)
    requires
        g == Generator::MethodsOfClass || g == Generator::ClassFieldInvariants || g == Generator::EnumVariantList,
    ensures
        generated(g, c, n, cat, sub) matches Some(v) ==> forall|i: int|
            0 <= i < v.len() ==> asks_for_members(
                c,
                #[trigger] v[i].query,
                v[i].expected,
                if g == Generator::MethodsOfClass {
                    6
                } else if g == Generator::ClassFieldInvariants {
                    5
                } else {
                    8
                },
            ),
{
    let m: nat = if g == Generator::MethodsOfClass {
        6
    } else if g == Generator::ClassFieldInvariants {
        5
    } else {
        8
    };
    let p = |d: DraftView| asks_for_members(c, d.query, d.expected, m);
    assert forall|x: Cand| (#[trigger] step(g, c, x) matches StepView::Emit(d) ==> p(d)) by {
        if let Cand::Sym(k) = x {
            assert(edges(c.contains@, k as int) == edges(c.contains@, k as int));
        }
    }
    lemma_generated_satisfy(g, c, n, cat, sub, p);
    if let Some(v) = generated(g, c, n, cat, sub) {
        assert forall|i: int| 0 <= i < v.len() implies asks_for_members(c, #[trigger] v[i].query, v[i].expected, m) by {
            let (slot, d) = choose|slot: nat, d: DraftView| p(d) && v[i] == #[trigger] scenario_of(cat, sub, slot, d);
        }
    }
}

/// Whether a scenario looks up, by short name, one of the invented class names.
pub open spec fn asks_for_invented_class(q: QueryView) -> bool {
    &&& q matches QueryView::Lookup { name, bare_name: true, kind: None }
    &&& fabricated_classes().contains(q->Lookup_name)
}

/// Every scenario of the invented-class generator is adversarial: it looks
/// up one of the invented class names by short name, expects the empty set,
/// and its gold answer is marked adversarial.
pub proof fn law_invented_class_scenarios_are_adversarial(c: Corpus, n: nat, cat: Seq<char>, sub: Seq<char>)
    ensures
        generated(Generator::FakeTypeAbsent, c, n, cat, sub) matches Some(v) ==> forall|i: int|
            0 <= i < v.len() ==> {
                &&& (#[trigger] v[i]).gold_source == "adversarial"@
                &&& v[i].expected == (ExpectedView::ExactSet { stable_ids: Seq::empty() })
                &&& asks_for_invented_class(v[i].query)
            },
{
    let p = |d: DraftView|
        d.adversarial && d.expected == (ExpectedView::ExactSet { stable_ids: Seq::empty() })
            && asks_for_invented_class(d.query);
    assert forall|x: Cand| (#[trigger] step(Generator::FakeTypeAbsent, c, x) matches StepView::Emit(d) ==> p(d)) by {
        if let Cand::Slot(i) = x {
            let k = (i % 5) as int;
            assert(0 <= k < 5);
            assert(fabricated_classes()[k] == fabricated_classes()[(i % 5) as int]);
        }
    }
    lemma_generated_satisfy(Generator::FakeTypeAbsent, c, n, cat, sub, p);
}

} // verus!
