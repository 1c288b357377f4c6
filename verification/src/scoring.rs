//! Condition evaluation and multi-dimensional value scoring.
//!
//! A condition is `<path> <op> <number>` with the operator drawn, in that
//! order, from `>=`, `<=`, `>`, `<`, `==`, `!=` (each surrounded by single
//! spaces); a condition without an operator is true when its path resolves
//! to a positive value.  Numbers compare in thousandths, so the equality
//! tests tolerate fractions below one thousandth, and an unresolved path
//! always evaluates to false.

use vstd::prelude::*;

use crate::state::ProjectState;
use crate::strutil::{
    find_from, find_sub, lemma_find_from_some, occurs_at, parse_milli, spec_parse_milli, trim_str,
    trimmed,
};
use crate::types::{
    DimensionWeights, ModifierDimension, ModifierView, PrimerSection, SectionValue, SectionView,
    TokenCount, ValueModifier, ValueView, spec_weighted_score,
};
use vstd::string::StrSliceExecFns;

verus! {

/// A comparison operator of the condition grammar.
#[derive(Debug, Clone, Copy, PartialEq, Eq, Structural)]
pub enum CmpOp {
    Ge,
    Le,
    Gt,
    Lt,
    Eq,
    Ne,
}

/// The operator occurrence that condition parsing picks: operators are
/// tried in a fixed order and the first that occurs anywhere wins, so
/// `>=` is never misread as `>`.
pub open spec fn spec_find_op(c: Seq<char>) -> Option<(int, CmpOp)> {
    if find_from(c, " >= "@, 0) is Some {
        Some((find_from(c, " >= "@, 0)->Some_0, CmpOp::Ge))
    } else if find_from(c, " <= "@, 0) is Some {
        Some((find_from(c, " <= "@, 0)->Some_0, CmpOp::Le))
    } else if find_from(c, " > "@, 0) is Some {
        Some((find_from(c, " > "@, 0)->Some_0, CmpOp::Gt))
    } else if find_from(c, " < "@, 0) is Some {
        Some((find_from(c, " < "@, 0)->Some_0, CmpOp::Lt))
    } else if find_from(c, " == "@, 0) is Some {
        Some((find_from(c, " == "@, 0)->Some_0, CmpOp::Eq))
    } else if find_from(c, " != "@, 0) is Some {
        Some((find_from(c, " != "@, 0)->Some_0, CmpOp::Ne))
    } else {
        None
    }
}

/// The width, in characters, of an operator with its surrounding spaces.
pub open spec fn spec_op_len(op: CmpOp) -> int {
    match op {
        CmpOp::Ge => 4,
        CmpOp::Le => 4,
        CmpOp::Gt => 3,
        CmpOp::Lt => 3,
        CmpOp::Eq => 4,
        CmpOp::Ne => 4,
    }
}

/// Comparison of a state value and a literal, both in thousandths.
/// Equality within one thousandth counts as equal.
pub open spec fn spec_compare(actual_milli: int, expected_milli: int, op: CmpOp) -> bool {
    match op {
        CmpOp::Ge => actual_milli >= expected_milli,
        CmpOp::Le => actual_milli <= expected_milli,
        CmpOp::Gt => actual_milli > expected_milli,
        CmpOp::Lt => actual_milli < expected_milli,
        CmpOp::Eq => actual_milli == expected_milli,
        CmpOp::Ne => actual_milli != expected_milli,
    }
}

/// What a condition evaluates to against a state snapshot: parse the
/// first operator, resolve the left side as a path and the right side
/// as a number, and compare; without an operator the condition is true
/// when the whole string, as a path, resolves to a positive value.
/// An unresolved path or an unparsable number yields false.
pub open spec fn spec_evaluate(cond: Seq<char>, state: ProjectState) -> bool {
    let c = trimmed(cond);
    match spec_find_op(c) {
        Some((i, op)) => {
            let path = trimmed(c.subrange(0, i));
            let vstr = trimmed(c.subrange(i + spec_op_len(op), c.len() as int));
            match state.spec_get_value(path) {
                Some(a) => match spec_parse_milli(vstr) {
                    Some(e) => spec_compare(a * 1000, e, op),
                    None => false,
                },
                None => false,
            }
        },
        None => match state.spec_get_value(c) {
            Some(v) => v > 0,
            None => false,
        },
    }
}

fn compare_milli(actual: usize, expected: i64, op: CmpOp) -> (r: bool)
    ensures
        r == spec_compare(actual as int * 1000, expected as int, op),
{
    let a: i128 = actual as i128 * 1000;
    let e: i128 = expected as i128;
    match op {
        CmpOp::Ge => a >= e,
        CmpOp::Le => a <= e,
        CmpOp::Gt => a > e,
        CmpOp::Lt => a < e,
        CmpOp::Eq => a == e,
        CmpOp::Ne => a != e,
    }
}

/// Evaluates the operator branch of a condition: `c` is the trimmed
/// condition, the operator `op` starts at `i`.
#[verifier::loop_isolation(false)]
fn eval_with_op(c: &str, i: usize, op: CmpOp, state: &ProjectState) -> (r: bool)
    requires
        i + spec_op_len(op) <= c@.len(),
    ensures
        r == {
            let path = trimmed(c@.subrange(0, i as int));
            let vstr = trimmed(c@.subrange(i + spec_op_len(op), c@.len() as int));
            match state.spec_get_value(path) {
                Some(a) => match spec_parse_milli(vstr) {
                    Some(e) => spec_compare(a * 1000, e, op),
                    None => false,
                },
                None => false,
            }
        },
{
    let clen = c.unicode_len();
    let oplen: usize = match op {
        CmpOp::Ge => 4,
        CmpOp::Le => 4,
        CmpOp::Gt => 3,
        CmpOp::Lt => 3,
        CmpOp::Eq => 4,
        CmpOp::Ne => 4,
    };
    let path_part = c.substring_char(0, i);
    let path = trim_str(path_part);
    let vpart = c.substring_char(i + oplen, clen);
    let vstr = trim_str(vpart);
    match state.get_value(path) {
        Some(a) => match parse_milli(vstr) {
            Some(e) => compare_milli(a, e, op),
            None => false,
        },
        None => false,
    }
}

/// Evaluates a condition expression against project state, as
/// `spec_evaluate` describes.
pub fn evaluate_condition(condition: &str, state: &ProjectState) -> (r: bool)
    ensures
        r == spec_evaluate(condition@, *state),
{
    let c = trim_str(condition);
    if let Some(i) = find_sub(c, " >= ") {
        proof {
            lemma_find_from_some(c@, " >= "@, 0, i as int);
            reveal_strlit(" >= ");
        }
        return eval_with_op(c, i, CmpOp::Ge, state);
    }
    if let Some(i) = find_sub(c, " <= ") {
        proof {
            lemma_find_from_some(c@, " <= "@, 0, i as int);
            reveal_strlit(" <= ");
        }
        return eval_with_op(c, i, CmpOp::Le, state);
    }
    if let Some(i) = find_sub(c, " > ") {
        proof {
            lemma_find_from_some(c@, " > "@, 0, i as int);
            reveal_strlit(" > ");
        }
        return eval_with_op(c, i, CmpOp::Gt, state);
    }
    if let Some(i) = find_sub(c, " < ") {
        proof {
            lemma_find_from_some(c@, " < "@, 0, i as int);
            reveal_strlit(" < ");
        }
        return eval_with_op(c, i, CmpOp::Lt, state);
    }
    if let Some(i) = find_sub(c, " == ") {
        proof {
            lemma_find_from_some(c@, " == "@, 0, i as int);
            reveal_strlit(" == ");
        }
        return eval_with_op(c, i, CmpOp::Eq, state);
    }
    if let Some(i) = find_sub(c, " != ") {
        proof {
            lemma_find_from_some(c@, " != "@, 0, i as int);
            reveal_strlit(" != ");
        }
        return eval_with_op(c, i, CmpOp::Ne, state);
    }
    match state.get_value(c) {
        Some(v) => v > 0,
        None => false,
    }
}

/// A dimension value after an additive boost, clamped to 0 through 200.
pub open spec fn clamp_boost(v: int) -> int {
    if v < 0 {
        0
    } else if v > 200 {
        200
    } else {
        v
    }
}

/// Saturation to the 32-bit signed range.
pub open spec fn sat_i32(v: int) -> int {
    if v < -2147483648 {
        -2147483648
    } else if v > 2147483647 {
        2147483647
    } else {
        v
    }
}

/// `v` scaled by a factor given in tenths, truncated toward zero.
pub open spec fn mul_tenths(v: int, f: int) -> int {
    if v >= 0 {
        (v * f) / 10
    } else {
        -(((-v) * f) / 10)
    }
}

/// One modifier applied to one dimension value, in order add, then
/// multiply, then set: the add is clamped to 0 through 200, the multiply
/// saturates at the 32-bit range, the set is taken as given.
pub open spec fn spec_apply_dim(v: int, m: ModifierView) -> int {
    let v1 = match m.add {
        Some(a) => clamp_boost(v + a),
        None => v,
    };
    let v2 = match m.multiply {
        Some(f) => sat_i32(mul_tenths(v1, f as int)),
        None => v1,
    };
    match m.set {
        Some(s) => s as int,
        None => v2,
    }
}

/// One modifier applied to the dimension(s) it names.
pub open spec fn spec_apply_modifier(v: ValueView, m: ModifierView) -> ValueView {
    match m.dimension {
        ModifierDimension::Safety => ValueView {
            safety: spec_apply_dim(v.safety as int, m) as i32,
            ..v
        },
        ModifierDimension::Efficiency => ValueView {
            efficiency: spec_apply_dim(v.efficiency as int, m) as i32,
            ..v
        },
        ModifierDimension::Accuracy => ValueView {
            accuracy: spec_apply_dim(v.accuracy as int, m) as i32,
            ..v
        },
        ModifierDimension::Base => ValueView { base: spec_apply_dim(v.base as int, m) as i32, ..v },
        ModifierDimension::All => ValueView {
            safety: spec_apply_dim(v.safety as int, m) as i32,
            efficiency: spec_apply_dim(v.efficiency as int, m) as i32,
            accuracy: spec_apply_dim(v.accuracy as int, m) as i32,
            base: spec_apply_dim(v.base as int, m) as i32,
            ..v
        },
    }
}

/// The value after every modifier of `mods` whose condition holds has
/// been applied, in list order.
pub open spec fn spec_adjusted(v: ValueView, mods: Seq<ModifierView>, state: ProjectState) -> ValueView
    decreases mods.len(),
{
    if mods.len() == 0 {
        v
    } else {
        let prev = spec_adjusted(v, mods.drop_last(), state);
        if spec_evaluate(mods.last().condition, state) {
            spec_apply_modifier(prev, mods.last())
        } else {
            prev
        }
    }
}

proof fn lemma_mul_sat_bound(a: int, b: int)
    requires
        0 <= a <= 2147483648,
        0 <= b <= 4294967295,
    ensures
        0 <= a * b <= 2147483648 * 4294967295,
{
    assert(0 <= a * b <= 2147483648 * 4294967295) by (nonlinear_arith)
        requires
            0 <= a <= 2147483648,
            0 <= b <= 4294967295,
    ;
}

fn apply_dim(v: i32, m: &ValueModifier) -> (r: i32)
    ensures
        r as int == spec_apply_dim(v as int, m@),
{
    let mut x: i32 = v;
    if let Some(a) = m.add {
        let t: i64 = x as i64 + a as i64;
        x = if t < 0 {
            0
        } else if t > 200 {
            200
        } else {
            t as i32
        };
    }
    if let Some(f) = m.multiply {
        let neg = x < 0;
        let mag: i128 = if x >= 0 {
            x as i128
        } else {
            -(x as i128)
        };
        proof {
            lemma_mul_sat_bound(mag as int, f as int);
        }
        let prod: i128 = mag * (f as i128);
        let q: i128 = prod / 10;
        let signed: i128 = if neg {
            -q
        } else {
            q
        };
        x = if signed < -2147483648 {
            -2147483648
        } else if signed > 2147483647 {
            2147483647i128 as i32
        } else {
            signed as i32
        };
    }
    if let Some(s) = m.set {
        x = s;
    }
    x
}

/// Applies a modifier to the adjusted value, dimension by dimension.
fn apply_modifier(value: &mut SectionValue, modifier: &ValueModifier)
    ensures
        final(value)@ == spec_apply_modifier(old(value)@, modifier@),
{
    match modifier.dimension {
        ModifierDimension::Safety => {
            value.safety = apply_dim(value.safety, modifier);
        },
        ModifierDimension::Efficiency => {
            value.efficiency = apply_dim(value.efficiency, modifier);
        },
        ModifierDimension::Accuracy => {
            value.accuracy = apply_dim(value.accuracy, modifier);
        },
        ModifierDimension::Base => {
            value.base = apply_dim(value.base, modifier);
        },
        ModifierDimension::All => {
            value.safety = apply_dim(value.safety, modifier);
            value.efficiency = apply_dim(value.efficiency, modifier);
            value.accuracy = apply_dim(value.accuracy, modifier);
            value.base = apply_dim(value.base, modifier);
        },
    }
}

/// The estimated item count of a data source: the matching state
/// counter, 5 for an unknown source, capped by `max_items`.
pub open spec fn spec_item_count(
    source: Seq<char>,
    max_items: Option<usize>,
    state: ProjectState,
) -> int {
    let est: int = if source == "cache.domains"@ {
        state.domains.count as int
    } else if source == "cache.layers"@ {
        state.layers.count as int
    } else if source == "cache.constraints.by_lock_level"@ {
        state.constraints.protected_count as int
    } else if source == "vars.variables"@ {
        state.variables.count as int
    } else if source == "attempts.active"@ {
        state.attempts.active_count as int
    } else if source == "cache.hacks"@ {
        state.hacks.count as int
    } else if source == "cache.entryPoints"@ {
        state.entry_points.count as int
    } else {
        5
    };
    match max_items {
        Some(m) => if est < m as int {
            est
        } else {
            m as int
        },
        None => est,
    }
}

fn estimate_item_count(source: &str, max_items: Option<usize>, state: &ProjectState) -> (r: usize)
    ensures
        r as int == spec_item_count(source@, max_items, *state),
{
    let est: usize = if crate::strutil::str_eq(source, "cache.domains") {
        state.domains.count
    } else if crate::strutil::str_eq(source, "cache.layers") {
        state.layers.count
    } else if crate::strutil::str_eq(source, "cache.constraints.by_lock_level") {
        state.constraints.protected_count
    } else if crate::strutil::str_eq(source, "vars.variables") {
        state.variables.count
    } else if crate::strutil::str_eq(source, "attempts.active") {
        state.attempts.active_count
    } else if crate::strutil::str_eq(source, "cache.hacks") {
        state.hacks.count
    } else if crate::strutil::str_eq(source, "cache.entryPoints") {
        state.entry_points.count
    } else {
        5
    };
    match max_items {
        Some(m) => if est < m {
            est
        } else {
            m
        },
        None => est,
    }
}

/// Saturation to the `usize` range.
pub open spec fn sat_usize(v: int) -> int {
    if v > usize::MAX {
        usize::MAX as int
    } else if v < 0 {
        0
    } else {
        v
    }
}

/// The resolved token cost of a section: a fixed cost as declared; a
/// dynamic cost of 15 plus item count times per-item estimate (10 when
/// unspecified), saturating at the machine range; 30 for a dynamic
/// section without a data binding.
pub open spec fn spec_resolve_tokens(s: SectionView, state: ProjectState) -> int {
    match s.tokens {
        TokenCount::Fixed(n) => n as int,
        TokenCount::Dynamic => match s.data {
            Some(d) => {
                let c = spec_item_count(d.source, d.max_items, state);
                let it: int = match d.item_tokens {
                    Some(t) => t as int,
                    None => 10,
                };
                sat_usize(15 + c * it)
            },
            None => 30,
        },
    }
}

proof fn lemma_mul_usize_bound(a: int, b: int)
    requires
        0 <= a <= 0xffff_ffff_ffff_ffff,
        0 <= b <= 0xffff_ffff_ffff_ffff,
    ensures
        0 <= a * b <= 0xffff_ffff_ffff_ffff * 0xffff_ffff_ffff_ffff,
{
    assert(0 <= a * b <= 0xffff_ffff_ffff_ffff * 0xffff_ffff_ffff_ffff) by (nonlinear_arith)
        requires
            0 <= a <= 0xffff_ffff_ffff_ffff,
            0 <= b <= 0xffff_ffff_ffff_ffff,
    ;
}

fn resolve_token_count(section: &PrimerSection, state: &ProjectState) -> (r: usize)
    ensures
        r as int == spec_resolve_tokens(section@, *state),
{
    match section.tokens {
        TokenCount::Fixed(n) => n,
        TokenCount::Dynamic => match &section.data {
            Some(d) => {
                let c = estimate_item_count(d.source.as_str(), d.max_items, state);
                let it: usize = match d.item_tokens {
                    Some(t) => t,
                    None => 10,
                };
                proof {
                    lemma_mul_usize_bound(c as int, it as int);
                }
                let total: u128 = 15u128 + (c as u128) * (it as u128);
                if total > usize::MAX as u128 {
                    usize::MAX
                } else {
                    total as usize
                }
            },
            None => 30,
        },
    }
}

/// The value-per-token ratio in thousandths of a point per token:
/// the weighted score (in tenths) times 100, divided by the token cost,
/// truncated toward zero; 0 when the token cost is 0.
pub open spec fn spec_vpt(score: int, tokens: int) -> int {
    if tokens > 0 {
        if score >= 0 {
            (score * 100) / tokens
        } else {
            -(((-score) * 100) / tokens)
        }
    } else {
        0
    }
}

/// A section with its calculated values.
pub struct ScoredSection {
    /// The section as scored.
    pub section: PrimerSection,
    /// Adjusted value after modifiers.
    pub adjusted_value: SectionValue,
    /// Final weighted score, in tenths of a point.
    pub weighted_score: i64,
    /// Value per token, in thousandths of a point per token.
    pub value_per_token: i64,
    /// Token count, resolved if dynamic.
    pub tokens: usize,
    /// Whether conditionally required, with the condition met.
    pub is_conditionally_required: bool,
}

/// Mathematical image of a [`ScoredSection`].
pub struct ScoredView {
    pub section: SectionView,
    pub adjusted_value: ValueView,
    pub weighted_score: int,
    pub value_per_token: int,
    pub tokens: int,
    pub is_conditionally_required: bool,
}

impl View for ScoredSection {
    type V = ScoredView;

    open spec fn view(&self) -> ScoredView {
        ScoredView {
            section: self.section@,
            adjusted_value: self.adjusted_value@,
            weighted_score: self.weighted_score as int,
            value_per_token: self.value_per_token as int,
            tokens: self.tokens as int,
            is_conditionally_required: self.is_conditionally_required,
        }
    }
}

/// What scoring one section yields.
pub open spec fn spec_score_section(
    s: SectionView,
    state: ProjectState,
    weights: DimensionWeights,
    modifiers_enabled: bool,
) -> ScoredView {
    let adjusted = if modifiers_enabled {
        spec_adjusted(s.value, s.value.modifiers, state)
    } else {
        s.value
    };
    let score = spec_weighted_score(adjusted, weights);
    let tokens = spec_resolve_tokens(s, state);
    ScoredView {
        section: s,
        adjusted_value: adjusted,
        weighted_score: score,
        value_per_token: spec_vpt(score, tokens),
        tokens: tokens,
        is_conditionally_required: match s.required_if {
            Some(c) => spec_evaluate(c, state),
            None => false,
        },
    }
}

/// Every dimension of a value is a 32-bit quantity.
pub open spec fn dims_in_range(v: ValueView) -> bool {
    -2147483648 <= v.safety <= 2147483647 && -2147483648 <= v.efficiency <= 2147483647
        && -2147483648 <= v.accuracy <= 2147483647 && -2147483648 <= v.base <= 2147483647
}

proof fn lemma_score_bound(v: ValueView, w: DimensionWeights)
    requires
        dims_in_range(v),
        w.wf(),
    ensures
        -858993459200000 <= spec_weighted_score(v, w) <= 858993458800000,
{
    lemma_dim_weight_bound(v.safety as int, w.safety as int);
    lemma_dim_weight_bound(v.efficiency as int, w.efficiency as int);
    lemma_dim_weight_bound(v.accuracy as int, w.accuracy as int);
    lemma_dim_weight_bound(v.base as int, w.base as int);
}

proof fn lemma_dim_weight_bound(d: int, w: int)
    requires
        -2147483648 <= d <= 2147483647,
        0 <= w <= 100000,
    ensures
        -214748364800000 <= d * w <= 214748364700000,
{
    assert(-214748364800000 <= d * w <= 214748364700000) by (nonlinear_arith)
        requires
            -2147483648 <= d <= 2147483647,
            0 <= w <= 100000,
    ;
}

proof fn lemma_adjusted_in_range(v: ValueView, mods: Seq<ModifierView>, state: ProjectState)
    ensures
        dims_in_range(spec_adjusted(v, mods, state)) || !dims_in_range(v),
    decreases mods.len(),
{
    if mods.len() > 0 {
        lemma_adjusted_in_range(v, mods.drop_last(), state);
    }
}

/// Scores a single section: modifiers applied when enabled, the
/// weighted score, the resolved token cost, the value-per-token ratio
/// and the conditional-requirement flag.
pub fn score_section(
    section: &PrimerSection,
    state: &ProjectState,
    weights: &DimensionWeights,
    dynamic_modifiers_enabled: bool,
) -> (r: ScoredSection)
    requires
        weights.wf(),
    ensures
        r@ == spec_score_section(section@, *state, *weights, dynamic_modifiers_enabled),
{
    let mut adjusted = section.value.clone();
    if dynamic_modifiers_enabled {
        let ghost mods = section.value@.modifiers;
        let mut k: usize = 0;
        while k < section.value.modifiers.len()
            invariant
                weights.wf(),
                0 <= k <= section.value.modifiers@.len(),
                mods == section.value@.modifiers,
                mods.len() == section.value.modifiers@.len(),
                adjusted@ == spec_adjusted(
                    section.value@,
                    mods.subrange(0, k as int),
                    *state,
                ),
                adjusted@.modifiers == section.value@.modifiers,
            decreases section.value.modifiers@.len() - k,
        {
            proof {
                let pre = mods.subrange(0, k as int);
                let post = mods.subrange(0, k + 1);
                assert(post.drop_last() =~= pre);
                assert(post.last() == mods[k as int]);
            }
            let m = &section.value.modifiers[k];
            if evaluate_condition(m.condition.as_str(), state) {
                apply_modifier(&mut adjusted, m);
            }
            k += 1;
        }
        proof {
            assert(mods.subrange(0, mods.len() as int) =~= mods);
        }
    }
    proof {
        lemma_adjusted_in_range(section.value@, section.value@.modifiers, *state);
    }
    let weighted_score = adjusted.weighted_score(weights);
    let tokens = resolve_token_count(section, state);
    proof {
        lemma_score_bound(adjusted@, *weights);
        if tokens > 0 {
            let sc = weighted_score as int;
            let tk = tokens as int;
            if sc >= 0 {
                assert(0 <= (sc * 100) / tk <= sc * 100) by (nonlinear_arith)
                    requires
                        sc >= 0,
                        tk >= 1,
                ;
            } else {
                assert(0 <= ((-sc) * 100) / tk <= (-sc) * 100) by (nonlinear_arith)
                    requires
                        sc < 0,
                        tk >= 1,
                ;
            }
        }
    }
    let value_per_token: i64 = if tokens > 0 {
        if weighted_score >= 0 {
            ((weighted_score as i128 * 100) / (tokens as i128)) as i64
        } else {
            (-(((-(weighted_score as i128)) * 100) / (tokens as i128))) as i64
        }
    } else {
        0
    };
    let is_conditionally_required = match &section.required_if {
        Some(cond) => evaluate_condition(cond.as_str(), state),
        None => false,
    };
    ScoredSection {
        section: section.clone(),
        adjusted_value: adjusted,
        weighted_score,
        value_per_token,
        tokens,
        is_conditionally_required,
    }
}

/// Scores every section of a catalog against one state snapshot.
pub fn score_sections(
    sections: &Vec<PrimerSection>,
    state: &ProjectState,
    weights: &DimensionWeights,
    dynamic_modifiers_enabled: bool,
) -> (r: Vec<ScoredSection>)
    requires
        weights.wf(),
    ensures
        r@.len() == sections@.len(),
        forall|i: int|
            0 <= i < sections@.len() ==> #[trigger] r@[i]@ == spec_score_section(
                sections@[i]@,
                *state,
                *weights,
                dynamic_modifiers_enabled,
            ),
{
    let mut r: Vec<ScoredSection> = Vec::new();
    let mut i: usize = 0;
    while i < sections.len()
        invariant
            weights.wf(),
            0 <= i <= sections@.len(),
            r@.len() == i,
            forall|j: int|
                0 <= j < i ==> #[trigger] r@[j]@ == spec_score_section(
                    sections@[j]@,
                    *state,
                    *weights,
                    dynamic_modifiers_enabled,
                ),
        decreases sections@.len() - i,
    {
        r.push(score_section(&sections[i], state, weights, dynamic_modifiers_enabled));
        i += 1;
    }
    r
}


proof fn lemma_trim_back_keeps_head(s: Seq<char>)
    requires
        s.len() > 0,
        !crate::strutil::is_space_char(s[0]),
    ensures
        crate::strutil::trim_back(s).len() > 0,
        crate::strutil::trim_back(s)[0] == s[0],
    decreases s.len(),
{
    if crate::strutil::is_space_char(s.last()) {
        assert(s.len() > 1);
        assert(s.drop_last()[0] == s[0]);
        lemma_trim_back_keeps_head(s.drop_last());
    }
}

proof fn lemma_trim_keeps_head(s: Seq<char>)
    requires
        s.len() > 0,
        !crate::strutil::is_space_char(s[0]),
    ensures
        trimmed(s).len() > 0,
        trimmed(s)[0] == s[0],
{
    assert(crate::strutil::trim_front(s) == s);
    lemma_trim_back_keeps_head(s);
}

/// No queryable path of the snapshot table starts with the letter `u`,
/// so such a path never resolves.
proof fn lemma_u_path_unresolved(state: ProjectState, path: Seq<char>)
    requires
        path.len() == 0 || path[0] == 'u',
    ensures
        state.spec_get_value(path) is None,
{
    reveal_strlit("constraints.frozenCount");
    reveal_strlit("constraints.restrictedCount");
    reveal_strlit("constraints.approvalCount");
    reveal_strlit("constraints.testsRequiredCount");
    reveal_strlit("constraints.docsRequiredCount");
    reveal_strlit("constraints.protectedCount");
    reveal_strlit("constraints.totalCount");
    reveal_strlit("domains.count");
    reveal_strlit("layers.count");
    reveal_strlit("variables.count");
    reveal_strlit("attempts.activeCount");
    reveal_strlit("attempts.totalCount");
    reveal_strlit("hacks.count");
    reveal_strlit("hacks.expiredCount");
    reveal_strlit("entryPoints.count");
    reveal_strlit("stats.fileCount");
    reveal_strlit("stats.symbolCount");
    reveal_strlit("stats.lineCount");
    assert(path != "constraints.frozenCount"@);
    assert(path != "constraints.restrictedCount"@);
    assert(path != "constraints.approvalCount"@);
    assert(path != "constraints.testsRequiredCount"@);
    assert(path != "constraints.docsRequiredCount"@);
    assert(path != "constraints.protectedCount"@);
    assert(path != "constraints.totalCount"@);
    assert(path != "domains.count"@);
    assert(path != "layers.count"@);
    assert(path != "variables.count"@);
    assert(path != "attempts.activeCount"@);
    assert(path != "attempts.totalCount"@);
    assert(path != "hacks.count"@);
    assert(path != "hacks.expiredCount"@);
    assert(path != "entryPoints.count"@);
    assert(path != "stats.fileCount"@);
    assert(path != "stats.symbolCount"@);
    assert(path != "stats.lineCount"@);
}

/// The condition `unknown.path > 0` is false against every state
/// snapshot: whichever way the condition parses, its left side starts
/// with `u` and no queryable path does.
pub proof fn lemma_unknown_path_condition_false(state: ProjectState)
    ensures
        !spec_evaluate("unknown.path > 0"@, state),
{
    reveal_strlit("unknown.path > 0");
    let c0 = "unknown.path > 0"@;
    assert(!crate::strutil::is_space_char(c0[0]));
    assert(!crate::strutil::is_space_char(c0[15]));
    let c = trimmed(c0);
    lemma_trim_keeps_head(c0);
    assert(crate::strutil::trim_front(c0) == c0);
    crate::strutil::lemma_trim_back_subrange(c0, 16);
    assert(c0.subrange(0, 16) =~= c0);
    assert(c == c0);
    match spec_find_op(c) {
        Some((i, op)) => {
            assert(0 <= i && i <= c.len()) by {
                reveal_strlit(" >= ");
                reveal_strlit(" <= ");
                reveal_strlit(" > ");
                reveal_strlit(" < ");
                reveal_strlit(" == ");
                reveal_strlit(" != ");
                if find_from(c, " >= "@, 0) is Some {
                    lemma_find_from_some(c, " >= "@, 0, find_from(c, " >= "@, 0)->Some_0);
                } else if find_from(c, " <= "@, 0) is Some {
                    lemma_find_from_some(c, " <= "@, 0, find_from(c, " <= "@, 0)->Some_0);
                } else if find_from(c, " > "@, 0) is Some {
                    lemma_find_from_some(c, " > "@, 0, find_from(c, " > "@, 0)->Some_0);
                } else if find_from(c, " < "@, 0) is Some {
                    lemma_find_from_some(c, " < "@, 0, find_from(c, " < "@, 0)->Some_0);
                } else if find_from(c, " == "@, 0) is Some {
                    lemma_find_from_some(c, " == "@, 0, find_from(c, " == "@, 0)->Some_0);
                } else {
                    lemma_find_from_some(c, " != "@, 0, find_from(c, " != "@, 0)->Some_0);
                }
            }
            let lhs = c.subrange(0, i);
            if i == 0 {
                assert(lhs =~= Seq::<char>::empty());
                assert(trimmed(lhs) == lhs) by {
                    assert(crate::strutil::trim_front(lhs) == lhs);
                    assert(crate::strutil::trim_back(lhs) == lhs);
                }
                lemma_u_path_unresolved(state, trimmed(lhs));
            } else {
                assert(lhs[0] == 'u');
                assert(!crate::strutil::is_space_char(lhs[0]));
                lemma_trim_keeps_head(lhs);
                lemma_u_path_unresolved(state, trimmed(lhs));
            }
        },
        None => {
            lemma_u_path_unresolved(state, c);
        },
    }
}

/// Scoring is deterministic: two scored views computed from the same
/// section, state snapshot, weights and modifier flag are equal.  This
/// is the scoring stage of the pipeline's idempotence.
pub proof fn lemma_scoring_deterministic(
    a: ScoredView,
    b: ScoredView,
    s: SectionView,
    state: ProjectState,
    weights: DimensionWeights,
    modifiers_enabled: bool,
)
    requires
        a == spec_score_section(s, state, weights, modifiers_enabled),
        b == spec_score_section(s, state, weights, modifiers_enabled),
    ensures
        a == b,
{
}


/// The condition `constraints.frozenCount > 0` holds in exactly the
/// states whose frozen-file count is positive.
pub proof fn lemma_frozen_count_condition(state: ProjectState)
    ensures
        spec_evaluate("constraints.frozenCount > 0"@, state) == (state.constraints.frozen_count
            > 0),
{
    reveal_strlit("constraints.frozenCount > 0");
    reveal_strlit("constraints.frozenCount");
    reveal_strlit(" >= ");
    reveal_strlit(" <= ");
    reveal_strlit(" > ");
    reveal_strlit(" < ");
    reveal_strlit(" == ");
    reveal_strlit(" != ");
    reveal_strlit("0");
    let c0 = "constraints.frozenCount > 0"@;
    assert(c0.len() == 27);
    // the condition carries no leading or trailing space
    assert(!crate::strutil::is_space_char(c0[0]));
    assert(!crate::strutil::is_space_char(c0[26]));
    assert(crate::strutil::trim_front(c0) == c0);
    crate::strutil::lemma_trim_back_subrange(c0, 27);
    assert(c0.subrange(0, 27) =~= c0);
    let c = trimmed(c0);
    assert(c == c0);
    // the one `>` stands at index 24, so the two-character operators do
    // not occur and `>` is found first, at index 23
    assert forall|j: int| !occurs_at(c, " >= "@, j) by {
        if occurs_at(c, " >= "@, j) {
            assert(c.subrange(j, j + 4)[1] == c[j + 1]);
            assert(c.subrange(j, j + 4)[2] == c[j + 2]);
            assert(c[j + 1] == '>' && c[j + 2] == '=');
            assert(j + 1 == 24);
        }
    }
    assert forall|j: int| !occurs_at(c, " <= "@, j) by {
        if occurs_at(c, " <= "@, j) {
            assert(c.subrange(j, j + 4)[1] == c[j + 1]);
            assert(c[j + 1] == '<');
        }
    }
    crate::strutil::lemma_find_from_none(c, " >= "@, 0);
    crate::strutil::lemma_find_from_none(c, " <= "@, 0);
    assert(occurs_at(c, " > "@, 23)) by {
        assert(c.subrange(23, 26) =~= " > "@);
    }
    assert forall|j: int| 0 <= j < 23 implies !occurs_at(c, " > "@, j) by {
        if occurs_at(c, " > "@, j) {
            assert(c.subrange(j, j + 3)[1] == c[j + 1]);
            assert(c[j + 1] == '>');
            assert(j + 1 == 24);
        }
    }
    crate::strutil::lemma_find_from_at(c, " > "@, 23);
    assert(spec_find_op(c) == Some((23int, CmpOp::Gt)));
    // the left side is the frozen-count path, which resolves
    let lhs = c.subrange(0, 23);
    assert(lhs =~= "constraints.frozenCount"@);
    assert(!crate::strutil::is_space_char(lhs[0]));
    assert(crate::strutil::trim_front(lhs) == lhs);
    crate::strutil::lemma_trim_back_subrange(lhs, 23);
    assert(lhs.subrange(0, 23) =~= lhs);
    assert(trimmed(lhs) == "constraints.frozenCount"@);
    assert(state.spec_get_value(trimmed(lhs)) == Some(state.constraints.frozen_count));
    // the right side is the literal 0, which is 0 thousandths
    let rhs = c.subrange(26int, 27int);
    assert(rhs =~= "0"@);
    assert(!crate::strutil::is_space_char(rhs[0]));
    assert(crate::strutil::trim_front(rhs) == rhs);
    crate::strutil::lemma_trim_back_subrange(rhs, 1);
    assert(rhs.subrange(0, 1) =~= rhs);
    assert(trimmed(rhs) == "0"@);
    let v = trimmed(rhs);
    assert(crate::strutil::find_char(v, '.', 1) is None);
    assert(crate::strutil::find_char(v, '.', 0) is None) by {
        assert(v[0] != '.');
    }
    assert(crate::strutil::is_digit_char(v[0]));
    assert(crate::strutil::all_digits(v));
    assert(crate::strutil::digits_val(v) == 0) by {
        assert(v.drop_last() =~= Seq::<char>::empty());
        assert(crate::strutil::digits_val(Seq::<char>::empty()) == 0);
        assert(crate::strutil::digit_val(v.last()) == 0);
    }
    assert(spec_parse_milli(v) == Some(0int));
    // a count times one thousand is positive exactly when the count is
    assert(spec_evaluate(c0, state) == (state.constraints.frozen_count * 1000 > 0));
}

} // verus!
