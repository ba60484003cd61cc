//! Benchmark scenarios and the rule by which a generator turns its
//! candidates into numbered scenarios.

use vstd::prelude::*;
use crate::protocol::{Query, QueryView};
use crate::scoring::{Expected, ExpectedView};
use crate::text::{decimal, decimal_padded, digit_char, push_str, push_decimal_padded};
use crate::scan::digits_value;

verus! {

/// One benchmark scenario: a query, the answer it is graded against, and
/// where that answer comes from.
pub struct Scenario {
    pub id: String,
    pub category: String,
    pub sub_type: String,
    pub intent: String,
    pub query: Query,
    pub expected: Expected,
    pub gold_source: String,
}

/// The content of a [`Scenario`].
pub struct ScenarioView {
    pub id: Seq<char>,
    pub category: Seq<char>,
    pub sub_type: Seq<char>,
    pub intent: Seq<char>,
    pub query: QueryView,
    pub expected: ExpectedView,
    pub gold_source: Seq<char>,
}

impl View for Scenario {
    type V = ScenarioView;

    open spec fn view(&self) -> ScenarioView {
        ScenarioView {
            id: self.id@,
            category: self.category@,
            sub_type: self.sub_type@,
            intent: self.intent@,
            query: self.query@,
            expected: self.expected@,
            gold_source: self.gold_source@,
        }
    }
}

/// The contents of a list of scenarios.
pub open spec fn scenario_views(v: Seq<Scenario>) -> Seq<ScenarioView> {
    v.map_values(|s: Scenario| s@)
}

/// A scenario before it is numbered and filed under its category.
pub struct Draft {
    pub intent: String,
    pub query: Query,
    pub expected: Expected,
    /// Whether the gold answer is made up to catch fabrication, rather
    /// than read off the graph.
    pub adversarial: bool,
}

/// The content of a [`Draft`].
pub struct DraftView {
    pub intent: Seq<char>,
    pub query: QueryView,
    pub expected: ExpectedView,
    pub adversarial: bool,
}

impl View for Draft {
    type V = DraftView;

    open spec fn view(&self) -> DraftView {
        DraftView {
            intent: self.intent@,
            query: self.query@,
            expected: self.expected@,
            adversarial: self.adversarial,
        }
    }
}

/// What one candidate yields: nothing, a scenario, or a failure (a
/// candidate the generator cannot handle; the run stops there).
pub enum Step {
    Skip,
    Emit(Draft),
    Fail,
}

/// The content of a [`Step`].
pub enum StepView {
    Skip,
    Emit(DraftView),
    Fail,
}

impl View for Step {
    type V = StepView;

    open spec fn view(&self) -> StepView {
        match self {
            Step::Skip => StepView::Skip,
            Step::Emit(d) => StepView::Emit(d@),
            Step::Fail => StepView::Fail,
        }
    }
}

/// The provenance label of a scenario's gold answer.
pub open spec fn gold_label(adversarial: bool) -> Seq<char> {
    if adversarial {
        "adversarial"@
    } else {
        "scip_roundtrip"@
    }
}

/// A scenario's id: its sub-type, a dash, and its number in at least three digits.
pub open spec fn scenario_id(sub: Seq<char>, slot: nat) -> Seq<char> {
    sub + "-"@ + decimal_padded(slot, 3)
}

/// The scenario a draft becomes under `cat` / `sub` with number `slot`.
pub open spec fn scenario_of(cat: Seq<char>, sub: Seq<char>, slot: nat, d: DraftView) -> ScenarioView {
    ScenarioView {
        id: scenario_id(sub, slot),
        category: cat,
        sub_type: sub,
        intent: d.intent,
        query: d.query,
        expected: d.expected,
        gold_source: gold_label(d.adversarial),
    }
}

/// Whether the candidate at position `pos`, with `made` scenarios already
/// made, is still looked at: a numbered-by-position generator looks at its
/// first `n` candidates, a numbered-by-count one stops once it has `n` scenarios.
pub open spec fn live(by_count: bool, n: nat, pos: nat, made: nat) -> bool {
    if by_count {
        made < n
    } else {
        pos < n
    }
}

/// The numbered drafts a generator makes from the steps of its candidates,
/// or `None` when a live candidate fails. A numbered-by-position generator
/// numbers a scenario by its candidate's position; a numbered-by-count one
/// by how many scenarios came before it.
pub open spec fn emit(steps: Seq<StepView>, by_count: bool, n: nat) -> Option<Seq<(nat, DraftView)>>
    decreases steps.len(),
{
    if steps.len() == 0 {
        Some(Seq::empty())
    } else {
        match emit(steps.drop_last(), by_count, n) {
            None => None,
            Some(prev) => {
                let pos = (steps.len() - 1) as nat;
                if !live(by_count, n, pos, prev.len()) {
                    Some(prev)
                } else {
                    match steps.last() {
                        StepView::Skip => Some(prev),
                        StepView::Emit(d) => Some(prev.push((if by_count { prev.len() } else { pos }, d))),
                        StepView::Fail => None,
                    }
                }
            },
        }
    }
}

/// The scenarios the numbered drafts `es` become under `cat` / `sub`.
pub open spec fn render(cat: Seq<char>, sub: Seq<char>, es: Seq<(nat, DraftView)>) -> Seq<ScenarioView> {
    es.map_values(|e: (nat, DraftView)| scenario_of(cat, sub, e.0, e.1))
}

proof fn lemma_digit_char_value(d: nat)
    requires
        d < 10,
    ensures
        (digit_char(d) as nat) - ('0' as nat) == d,
{
    if d == 0 {
    } else if d == 1 {
    } else if d == 2 {
    } else if d == 3 {
    } else if d == 4 {
    } else if d == 5 {
    } else if d == 6 {
    } else if d == 7 {
    } else if d == 8 {
    } else {
    }
}

proof fn lemma_decimal_value(n: nat)
    ensures
        digits_value(decimal(n)) == n,
    decreases n,
{
    if n < 10 {
        lemma_digit_char_value(n);
        let d = seq![digit_char(n)];
        assert(d.drop_last() =~= Seq::<char>::empty());
        assert(digits_value(d.drop_last()) == 0);
        assert(d.last() == digit_char(n));
        assert(digits_value(d) == digits_value(d.drop_last()) * 10 + ((d.last() as nat) - ('0' as nat)) as nat);
    } else {
        lemma_decimal_value(n / 10);
        lemma_digit_char_value(n % 10);
        let d = decimal(n);
        assert(d.drop_last() =~= decimal(n / 10));
        assert(d.last() == digit_char(n % 10));
        assert(digits_value(d) == digits_value(d.drop_last()) * 10 + ((d.last() as nat) - ('0' as nat)) as nat);
        assert((n / 10) * 10 + n % 10 == n);
    }
}

proof fn lemma_leading_zeros_value(z: Seq<char>, d: Seq<char>)
    requires
        forall|i: int| 0 <= i < z.len() ==> #[trigger] z[i] == '0',
    ensures
        digits_value(z + d) == digits_value(d),
    decreases z.len() + d.len(),
{
    if d.len() == 0 {
        assert(z + d =~= z);
        if z.len() > 0 {
            lemma_leading_zeros_value(z.drop_last(), d);
            assert(z.drop_last() + d =~= z.drop_last());
        }
    } else {
        lemma_leading_zeros_value(z, d.drop_last());
        assert((z + d).drop_last() =~= z + d.drop_last());
    }
}

/// Different numbers get different padded renderings.
proof fn lemma_decimal_padded_injective(a: nat, b: nat, w: nat)
    requires
        decimal_padded(a, w) == decimal_padded(b, w),
    ensures
        a == b,
{
    lemma_decimal_value(a);
    lemma_decimal_value(b);
    let da = decimal(a);
    let db = decimal(b);
    if da.len() < w {
        lemma_leading_zeros_value(Seq::new((w - da.len()) as nat, |i: int| '0'), da);
    }
    if db.len() < w {
        lemma_leading_zeros_value(Seq::new((w - db.len()) as nat, |i: int| '0'), db);
    }
}

proof fn lemma_digit_char_not_dash(d: nat)
    ensures
        digit_char(d) != '-',
{
}

proof fn lemma_decimal_no_dash(n: nat)
    ensures
        forall|i: int| 0 <= i < decimal(n).len() ==> #[trigger] decimal(n)[i] != '-',
    decreases n,
{
    lemma_digit_char_not_dash(n % 10);
    lemma_digit_char_not_dash(n);
    if n >= 10 {
        lemma_decimal_no_dash(n / 10);
        assert forall|i: int| 0 <= i < decimal(n).len() implies #[trigger] decimal(n)[i] != '-' by {
            if i < decimal(n / 10).len() {
                assert(decimal(n)[i] == decimal(n / 10)[i]);
            }
        }
    }
}

proof fn lemma_padded_no_dash(n: nat, w: nat)
    ensures
        forall|i: int| 0 <= i < decimal_padded(n, w).len() ==> #[trigger] decimal_padded(n, w)[i] != '-',
{
    lemma_decimal_no_dash(n);
    let d = decimal(n);
    if d.len() < w {
        let z = Seq::new((w - d.len()) as nat, |i: int| '0');
        assert forall|i: int| 0 <= i < decimal_padded(n, w).len() implies #[trigger] decimal_padded(n, w)[i] != '-' by {
            if i < z.len() {
                assert(decimal_padded(n, w)[i] == z[i]);
            } else {
                assert(decimal_padded(n, w)[i] == d[i - z.len()]);
            }
        }
    }
}

/// A scenario id names its sub-type and its number: equal ids mean the same
/// sub-type and the same number, so scenarios of different sub-types, or with
/// different numbers, never share an id.
pub proof fn law_scenario_ids_identify(s1: Seq<char>, a: nat, s2: Seq<char>, b: nat)
    ensures
        scenario_id(s1, a) == scenario_id(s2, b) ==> s1 == s2 && a == b,
{
    reveal_strlit("-");
    if scenario_id(s1, a) == scenario_id(s2, b) {
        let id = scenario_id(s1, a);
        let p1 = decimal_padded(a, 3);
        let p2 = decimal_padded(b, 3);
        lemma_padded_no_dash(a, 3);
        lemma_padded_no_dash(b, 3);
        let pre1 = s1 + "-"@;
        let pre2 = s2 + "-"@;
        assert("-"@.len() == 1 && "-"@[0] == '-');
        assert(pre1.len() == s1.len() + 1);
        assert(pre2.len() == s2.len() + 1);
        assert(id == pre1 + p1);
        assert(scenario_id(s2, b) == pre2 + p2);
        assert(id.len() == pre2.len() + p2.len());
        assert(id[s1.len() as int] == '-');
        assert(scenario_id(s2, b)[s2.len() as int] == '-');
        if s1.len() < s2.len() {
            assert((pre1 + p1)[s2.len() as int] == p1[s2.len() - pre1.len()]);
            assert(p1[s2.len() - pre1.len()] != '-');
        } else if s2.len() < s1.len() {
            assert((pre2 + p2)[s1.len() as int] == p2[s1.len() - pre2.len()]);
            assert(p2[s1.len() - pre2.len()] != '-');
        } else {
            assert(id.take(s1.len() as int) =~= s1);
            assert(scenario_id(s2, b).take(s2.len() as int) =~= s2);
            assert(id.skip(s1.len() + 1int) =~= p1);
            assert(scenario_id(s2, b).skip(s2.len() + 1int) =~= p2);
            lemma_decimal_padded_injective(a, b, 3);
        }
    }
}

/// Files `d` as scenario number `slot` of `cat` / `sub`.
pub fn make_scenario(cat: &str, sub: &str, slot: usize, d: Draft) -> (r: Scenario)
    requires
        slot <= u64::MAX,
    ensures
        r@ == scenario_of(cat@, sub@, slot as nat, d@),
{
    let mut id = String::from_str(sub);
    push_str(&mut id, "-");
    push_decimal_padded(&mut id, slot as u64, 3);
    let gold = if d.adversarial {
        String::from_str("adversarial")
    } else {
        String::from_str("scip_roundtrip")
    };
    Scenario {
        id,
        category: String::from_str(cat),
        sub_type: String::from_str(sub),
        intent: d.intent,
        query: d.query,
        expected: d.expected,
        gold_source: gold,
    }
}

} // verus!
