//! Phase-based section selection under a token budget.
//!
//! Selection runs four ordered phases over the eligible sections:
//! required (or force-included), conditionally required, safety-critical
//! (within a 40% slice of the budget left at phase entry) and
//! value-optimized.  A section is included only after its dependencies,
//! and marks every section it conflicts with as excluded for the rest of
//! the run.  The selector never errors: what does not fit is left out.

use vstd::prelude::*;

use crate::scoring::ScoredSection;
use crate::state::contains_string;
use crate::strutil::str_eq;
use crate::types::{
    GeneratePrimerRequest, RequestView, SectionView, SelectedSection, SelectedView,
    SelectionReason,
};

verus! {

/// Result of section selection.
pub struct SelectionResult {
    /// Selected sections in inclusion order.
    pub selected: Vec<SelectedSection>,
    /// Total tokens used.
    pub tokens_used: usize,
    /// Eligible sections that were not selected.
    pub excluded_count: usize,
}

/// Capability compatibility: an all-of set must be wholly available and
/// takes precedence; otherwise an any-of set must intersect the
/// available capabilities; no requirement is always compatible.
pub open spec fn spec_cap_compatible(s: SectionView, caps: Seq<Seq<char>>) -> bool {
    if s.capabilities_all.len() > 0 {
        forall|i: int|
            0 <= i < s.capabilities_all.len() ==> caps.contains(#[trigger] s.capabilities_all[i])
    } else if s.capabilities.len() > 0 {
        exists|i: int| 0 <= i < s.capabilities.len() && caps.contains(#[trigger] s.capabilities[i])
    } else {
        true
    }
}

/// Category compatibility: the section's category must be in the
/// allow-list, if one is given.
pub open spec fn spec_cat_compatible(s: SectionView, cats: Option<Seq<Seq<char>>>) -> bool {
    match cats {
        Some(cs) => cs.contains(s.category),
        None => true,
    }
}

/// Tag compatibility: at least one tag must be in the allow-list, if one
/// is given.
pub open spec fn spec_tag_compatible(s: SectionView, tags: Option<Seq<Seq<char>>>) -> bool {
    match tags {
        Some(ts) => exists|i: int| 0 <= i < s.tags.len() && ts.contains(#[trigger] s.tags[i]),
        None => true,
    }
}

/// A section passes all three request filters.
pub open spec fn spec_eligible(s: SectionView, req: RequestView) -> bool {
    spec_cap_compatible(s, req.capabilities) && spec_cat_compatible(s, req.categories)
        && spec_tag_compatible(s, req.tags)
}

/// How many of the scored sections are eligible.
pub open spec fn count_eligible(scored: Seq<ScoredSection>, req: RequestView) -> int
    decreases scored.len(),
{
    if scored.len() == 0 {
        0
    } else {
        count_eligible(scored.drop_last(), req) + if spec_eligible(scored.last()@.section, req) {
            1int
        } else {
            0
        }
    }
}

/// Some eligible section carries the id `d`.
pub open spec fn spec_elig_has_id(scored: Seq<ScoredSection>, req: RequestView, d: Seq<char>) -> bool {
    exists|k: int|
        0 <= k < scored.len() && spec_eligible(#[trigger] scored[k]@.section, req)
            && scored[k]@.section.id == d
}

/// The views of the selected sections.
pub open spec fn sel_views(sel: Seq<SelectedSection>) -> Seq<SelectedView> {
    sel.map_values(|x: SelectedSection| x@)
}

/// The ids of the selected sections, in order.
pub open spec fn sel_ids(sv: Seq<SelectedView>) -> Seq<Seq<char>> {
    sv.map_values(|x: SelectedView| x.section.id)
}

/// The total token cost of a selection.
pub open spec fn sum_tokens(sv: Seq<SelectedView>) -> int
    decreases sv.len(),
{
    if sv.len() == 0 {
        0
    } else {
        sum_tokens(sv.drop_last()) + sv.last().tokens
    }
}

/// The eligible index list is correct: every entry is an eligible
/// section, and every eligible section has an entry.
pub open spec fn elig_ok(elig: Seq<usize>, scored: Seq<ScoredSection>, req: RequestView) -> bool {
    &&& forall|p: int|
        0 <= p < elig.len() ==> (#[trigger] elig[p]) < scored.len() && spec_eligible(
            scored[elig[p] as int]@.section,
            req,
        )
    &&& forall|k: int|
        0 <= k < scored.len() && spec_eligible(#[trigger] scored[k]@.section, req)
            ==> exists|p: int| 0 <= p < elig.len() && elig[p] == k
    &&& forall|p1: int, p2: int|
        0 <= p1 < p2 < elig.len() ==> (#[trigger] elig[p1]) < (#[trigger] elig[p2])
}

/// The views of a scored list.
pub open spec fn scored_views(s: Seq<ScoredSection>) -> Seq<crate::scoring::ScoredView> {
    s.map_values(|x: ScoredSection| x@)
}

/// How many scored views are eligible.
pub open spec fn count_eligible_v(scored: Seq<crate::scoring::ScoredView>, req: RequestView) -> int
    decreases scored.len(),
{
    if scored.len() == 0 {
        0
    } else {
        count_eligible_v(scored.drop_last(), req) + if spec_eligible(
            scored.last().section,
            req,
        ) {
            1int
        } else {
            0
        }
    }
}

/// Some eligible scored view carries the id `d`.
pub open spec fn elig_has_id_v(
    scored: Seq<crate::scoring::ScoredView>,
    req: RequestView,
    d: Seq<char>,
) -> bool {
    exists|k: int|
        0 <= k < scored.len() && spec_eligible(#[trigger] scored[k].section, req)
            && scored[k].section.id == d
}

/// Whether a section is a phase-one candidate: flagged required, or
/// named in the force-include list.
pub open spec fn is_required_cand(s: SectionView, req: RequestView) -> bool {
    s.required || req.force_include.contains(s.id)
}

/// Whether `k` is the first eligible phase-one candidate of the
/// catalog.
pub open spec fn first_required(
    scored: Seq<crate::scoring::ScoredView>,
    req: RequestView,
    k: int,
) -> bool {
    &&& 0 <= k < scored.len()
    &&& spec_eligible(scored[k].section, req)
    &&& is_required_cand(scored[k].section, req)
    &&& forall|k2: int|
        0 <= k2 < k ==> !(spec_eligible(#[trigger] scored[k2].section, req) && is_required_cand(
            scored[k2].section,
            req,
        ))
}

/// What each selection reason certifies about its section: a
/// `Required` section carries the flag, a forced one is on the force
/// list, a conditionally required one had its condition met at scoring
/// time and records that condition's text, a safety-critical one
/// scored an adjusted safety of at least 80, and a dependency names an
/// eligible section that depends on it.
pub open spec fn reason_ok(
    reason: crate::types::ReasonView,
    section: SectionView,
    scored: Seq<crate::scoring::ScoredView>,
    req: RequestView,
) -> bool {
    match reason {
        crate::types::ReasonView::Required => section.required,
        crate::types::ReasonView::ForcedInclude => req.force_include.contains(section.id),
        crate::types::ReasonView::ConditionallyRequired(text) => {
            &&& exists|k: int|
                0 <= k < scored.len() && spec_eligible(#[trigger] scored[k].section, req)
                    && scored[k].section == section && scored[k].is_conditionally_required
            &&& text == match section.required_if {
                Some(c) => c,
                None => "condition met"@,
            }
        },
        crate::types::ReasonView::SafetyCritical => exists|k: int|
            0 <= k < scored.len() && spec_eligible(#[trigger] scored[k].section, req)
                && scored[k].section == section && scored[k].adjusted_value.safety >= 80,
        crate::types::ReasonView::ValueOptimized => true,
        crate::types::ReasonView::Dependency(rid) => exists|k: int|
            0 <= k < scored.len() && spec_eligible(#[trigger] scored[k].section, req)
                && scored[k].section.id == rid && scored[k].section.depends_on.contains(
                section.id,
            ),
    }
}

/// Working state of one selection run.
struct SelCtx {
    selected: Vec<SelectedSection>,
    tokens_used: usize,
    included: Vec<String>,
    excluded: Vec<String>,
}

impl SelCtx {
    /// The selection invariant: tokens add up and stay in budget; the
    /// included-id list mirrors the selection; ids are unique; every
    /// conflict of a selected section is marked excluded, and everything
    /// excluded is such a conflict; no two selected sections conflict;
    /// dependencies precede their dependents whenever they are eligible
    /// at all; and every selected section is one of the eligible scored
    /// sections, with its score and cost.
    spec fn inv(self, scored: Seq<ScoredSection>, req: RequestView, budget: int) -> bool {
        let sv = sel_views(self.selected@);
        &&& sum_tokens(sv) == self.tokens_used as int
        &&& self.tokens_used as int <= budget
        &&& self.included.deep_view() == sel_ids(sv)
        &&& sel_ids(sv).no_duplicates()
        &&& forall|i: int, c: int|
            0 <= i < sv.len() && 0 <= c < sv[i].section.conflicts_with.len()
                ==> self.excluded.deep_view().contains(#[trigger] sv[i].section.conflicts_with[c])
        &&& forall|x: Seq<char>|
            self.excluded.deep_view().contains(x) ==> exists|i: int|
                0 <= i < sv.len() && (#[trigger] sv[i].section.conflicts_with).contains(x)
        &&& forall|i: int, j: int|
            0 <= i < sv.len() && 0 <= j < sv.len() && i != j ==> !(
            #[trigger] sv[i].section.conflicts_with).contains(#[trigger] sv[j].section.id)
        &&& forall|i: int, d: int|
            0 <= i < sv.len() && 0 <= d < sv[i].section.depends_on.len() && spec_elig_has_id(
                scored,
                req,
                #[trigger] sv[i].section.depends_on[d],
            ) ==> exists|j: int| 0 <= j < i && sel_ids(sv)[j] == sv[i].section.depends_on[d]
        &&& forall|i: int|
            0 <= i < sv.len() ==> exists|k: int|
                0 <= k < scored.len() && spec_eligible(#[trigger] scored[k]@.section, req)
                    && scored[k]@.section == (#[trigger] sv[i]).section && scored[k]@.weighted_score
                    == sv[i].score as int && scored[k]@.tokens == sv[i].tokens as int
        &&& forall|i: int|
            0 <= i < sv.len() ==> reason_ok(
                (#[trigger] sv[i]).selection_reason,
                sv[i].section,
                scored_views(scored),
                req,
            )
    }

    fn new() -> (r: Self)
        ensures
            r.selected@.len() == 0,
            r.tokens_used == 0,
            r.included@.len() == 0,
            r.excluded@.len() == 0,
    {
        SelCtx { selected: Vec::new(), tokens_used: 0, included: Vec::new(), excluded: Vec::new() }
    }

    proof fn lemma_empty_inv(self, scored: Seq<ScoredSection>, req: RequestView, budget: int)
        requires
            self.selected@.len() == 0,
            self.tokens_used == 0,
            self.included@.len() == 0,
            self.excluded@.len() == 0,
            budget >= 0,
        ensures
            self.inv(scored, req, budget),
    {
        assert(sel_views(self.selected@) =~= Seq::<SelectedView>::empty());
        assert(self.included.deep_view() =~= sel_ids(sel_views(self.selected@)));
        assert(self.excluded.deep_view() =~= Seq::<Seq<char>>::empty());
    }

    /// Whether the section `id` may still be included: not yet included,
    /// not conflict-excluded, and in conflict with nothing selected.
    #[verifier::loop_isolation(false)]
    fn admissible(&self, scored: &Vec<ScoredSection>, k: usize) -> (r: bool)
        requires
            k < scored@.len(),
        ensures
            r == ({
                let s = scored@[k as int]@.section;
                &&& !self.included.deep_view().contains(s.id)
                &&& !self.excluded.deep_view().contains(s.id)
                &&& forall|c: int|
                    0 <= c < s.conflicts_with.len() ==> !self.included.deep_view().contains(
                        #[trigger] s.conflicts_with[c],
                    )
            }),
    {
        let s = &scored[k].section;
        if contains_string(&self.included, s.id.as_str()) {
            return false;
        }
        if contains_string(&self.excluded, s.id.as_str()) {
            return false;
        }
        let ghost cw = scored@[k as int]@.section.conflicts_with;
        let mut c: usize = 0;
        while c < s.conflicts_with.len()
            invariant
                k < scored@.len(),
                s == &scored@[k as int].section,
                cw == scored@[k as int]@.section.conflicts_with,
                cw.len() == s.conflicts_with@.len(),
                forall|j: int| 0 <= j < cw.len() ==> cw[j] == s.conflicts_with@[j]@,
                0 <= c <= cw.len(),
                forall|j: int|
                    0 <= j < c ==> !self.included.deep_view().contains(#[trigger] cw[j]),
            decreases cw.len() - c,
        {
            if contains_string(&self.included, s.conflicts_with[c].as_str()) {
                proof {
                    assert(self.included.deep_view().contains(cw[c as int]));
                }
                return false;
            }
            c += 1;
        }
        true
    }

    /// Whether every eligible dependency of section `k` is already
    /// included.
    #[verifier::loop_isolation(false)]
    fn deps_satisfied(
        &self,
        scored: &Vec<ScoredSection>,
        elig: &Vec<usize>,
        k: usize,
        Ghost(req): Ghost<RequestView>,
    ) -> (r: bool)
        requires
            k < scored@.len(),
            elig_ok(elig@, scored@, req),
        ensures
            r == (forall|d: int|
                0 <= d < scored@[k as int]@.section.depends_on.len() && spec_elig_has_id(
                    scored@,
                    req,
                    #[trigger] scored@[k as int]@.section.depends_on[d],
                ) ==> self.included.deep_view().contains(
                    scored@[k as int]@.section.depends_on[d],
                )),
    {
        let s = &scored[k].section;
        let ghost deps = scored@[k as int]@.section.depends_on;
        let mut d: usize = 0;
        while d < s.depends_on.len()
            invariant
                k < scored@.len(),
                s == &scored@[k as int].section,
                elig_ok(elig@, scored@, req),
                deps == scored@[k as int]@.section.depends_on,
                deps.len() == s.depends_on@.len(),
                forall|j: int| 0 <= j < deps.len() ==> deps[j] == s.depends_on@[j]@,
                0 <= d <= deps.len(),
                forall|j: int|
                    0 <= j < d && spec_elig_has_id(scored@, req, #[trigger] deps[j])
                        ==> self.included.deep_view().contains(deps[j]),
            decreases deps.len() - d,
        {
            let dep = s.depends_on[d].as_str();
            match find_eligible_by_id(scored, elig, dep, Ghost(req)) {
                Some(k2) => {
                    proof {
                        assert(spec_eligible(scored@[k2 as int]@.section, req));
                        assert(spec_elig_has_id(scored@, req, deps[d as int]));
                    }
                    if !contains_string(&self.included, dep) {
                        return false;
                    }
                },
                None => {},
            }
            d += 1;
        }
        true
    }

    /// Whether section `k` fits in what is left of the budget.
    fn fits(&self, scored: &Vec<ScoredSection>, k: usize, budget: usize) -> (r: bool)
        requires
            k < scored@.len(),
            self.tokens_used <= budget,
        ensures
            r == (self.tokens_used + scored@[k as int]@.tokens <= budget),
    {
        scored[k].tokens <= budget - self.tokens_used
    }

    /// Appends section `k` to the selection: adds its cost, records its
    /// id, and marks everything it conflicts with as excluded.
    #[verifier::loop_isolation(false)]
    fn push_one(
        &mut self,
        scored: &Vec<ScoredSection>,
        k: usize,
        reason: SelectionReason,
        budget: usize,
        Ghost(req): Ghost<RequestView>,
    )
        requires
            old(self).inv(scored@, req, budget as int),
            k < scored@.len(),
            spec_eligible(scored@[k as int]@.section, req),
            !old(self).included.deep_view().contains(scored@[k as int]@.section.id),
            !old(self).excluded.deep_view().contains(scored@[k as int]@.section.id),
            forall|c: int|
                0 <= c < scored@[k as int]@.section.conflicts_with.len() ==> !old(self).included.deep_view().contains(
                    #[trigger] scored@[k as int]@.section.conflicts_with[c],
                ),
            forall|d: int|
                0 <= d < scored@[k as int]@.section.depends_on.len() && spec_elig_has_id(
                    scored@,
                    req,
                    #[trigger] scored@[k as int]@.section.depends_on[d],
                ) ==> old(self).included.deep_view().contains(
                    scored@[k as int]@.section.depends_on[d],
                ),
            old(self).tokens_used + scored@[k as int]@.tokens <= budget,
            reason_ok(reason@, scored@[k as int]@.section, scored_views(scored@), req),
        ensures
            final(self).inv(scored@, req, budget as int),
            sel_views(final(self).selected@) == sel_views(old(self).selected@).push(
                SelectedView {
                    section: scored@[k as int]@.section,
                    score: scored@[k as int].weighted_score,
                    tokens: scored@[k as int].tokens,
                    selection_reason: reason@,
                },
            ),
            final(self).tokens_used == old(self).tokens_used + scored@[k as int]@.tokens,
            final(self).included.deep_view() == old(self).included.deep_view().push(
                scored@[k as int]@.section.id,
            ),
            forall|x: Seq<char>|
                old(self).excluded.deep_view().contains(x)
                    ==> final(self).excluded.deep_view().contains(x),
            forall|x: Seq<char>|
                final(self).excluded.deep_view().contains(x)
                    ==> old(self).excluded.deep_view().contains(x)
                    || scored@[k as int]@.section.conflicts_with.contains(x),
    {
        let s = &scored[k];
        let entry = SelectedSection {
            section: s.section.clone(),
            score: s.weighted_score,
            tokens: s.tokens,
            selection_reason: reason,
        };
        let ghost old_sv = sel_views(self.selected@);
        let ghost old_incl = self.included.deep_view();
        let ghost old_excl = self.excluded.deep_view();
        let ghost entry_v = entry@;
        self.selected.push(entry);
        self.tokens_used = self.tokens_used + s.tokens;
        self.included.push(s.section.id.clone());
        proof {
            assert(sel_views(self.selected@) =~= old_sv.push(entry_v));
            assert(self.included.deep_view() =~= old_incl.push(scored@[k as int]@.section.id));
            assert(sel_ids(sel_views(self.selected@)) =~= sel_ids(old_sv).push(
                scored@[k as int]@.section.id,
            ));
            assert(sum_tokens(old_sv.push(entry_v)) == sum_tokens(old_sv) + entry_v.tokens) by {
                assert(old_sv.push(entry_v).drop_last() =~= old_sv);
            }
        }
        let ghost cw = scored@[k as int]@.section.conflicts_with;
        let ghost mid_sel = self.selected@;
        let ghost mid_tok = self.tokens_used;
        let ghost mid_incl = self.included@;
        let mut c: usize = 0;
        while c < s.section.conflicts_with.len()
            invariant
                k < scored@.len(),
                s == &scored@[k as int],
                cw == scored@[k as int]@.section.conflicts_with,
                cw.len() == s.section.conflicts_with@.len(),
                forall|j: int| 0 <= j < cw.len() ==> cw[j] == s.section.conflicts_with@[j]@,
                self.selected@ == mid_sel,
                self.tokens_used == mid_tok,
                self.included@ == mid_incl,
                0 <= c <= cw.len(),
                forall|j: int|
                    0 <= j < c ==> self.excluded.deep_view().contains(#[trigger] cw[j]),
                forall|x: Seq<char>|
                    old_excl.contains(x) ==> self.excluded.deep_view().contains(x),
                forall|x: Seq<char>|
                    self.excluded.deep_view().contains(x) ==> old_excl.contains(x) || cw.contains(
                        x,
                    ),
            decreases cw.len() - c,
        {
            let ghost pre = self.excluded.deep_view();
            self.excluded.push(s.section.conflicts_with[c].clone());
            proof {
                assert(self.excluded.deep_view() =~= pre.push(cw[c as int]));
                assert(cw.contains(cw[c as int]));
                assert forall|x: Seq<char>| pre.contains(x) implies self.excluded.deep_view()
                    .contains(x) by {
                    let i = choose|i: int| 0 <= i < pre.len() && pre[i] == x;
                    assert(self.excluded.deep_view()[i] == x);
                }
                assert(self.excluded.deep_view()[pre.len() as int] == cw[c as int]);
                assert(self.excluded.deep_view().contains(cw[c as int]));
                assert forall|j: int| 0 <= j <= c implies self.excluded.deep_view().contains(
                    #[trigger] cw[j],
                ) by {
                    if j < c {
                        assert(pre.contains(cw[j]));
                    }
                }
            }
            c += 1;
        }
        proof {
            let sv = sel_views(self.selected@);
            let n = old_sv.len() as int;
            assert(forall|i: int| 0 <= i < n ==> sv[i] == old_sv[i]);
            assert(sv[n] == entry_v);
            assert(entry_v.section == scored@[k as int]@.section);
            // uniqueness of the new id
            assert(sel_ids(sv).no_duplicates()) by {
                assert(forall|j: int| 0 <= j < n ==> sel_ids(old_sv)[j] == #[trigger] sel_ids(sv)[j]);
                assert(!old_incl.contains(entry_v.section.id));
                assert(forall|j: int| 0 <= j < n ==> sel_ids(sv)[j] != sel_ids(sv)[n]);
            }
            // pairwise conflicts: old against new comes from the exclusion
            // set, new against old from the admissibility check
            assert forall|j: int|
                0 <= j < n implies !(#[trigger] sv[j].section.conflicts_with).contains(
                entry_v.section.id,
            ) by {
                if sv[j].section.conflicts_with.contains(entry_v.section.id) {
                    let c2 = choose|c2: int|
                        0 <= c2 < sv[j].section.conflicts_with.len()
                            && sv[j].section.conflicts_with[c2] == entry_v.section.id;
                    assert(old_excl.contains(sv[j].section.conflicts_with[c2]));
                }
            }
            assert forall|j: int|
                0 <= j < n implies !entry_v.section.conflicts_with.contains(
                #[trigger] sv[j].section.id,
            ) by {
                if entry_v.section.conflicts_with.contains(sv[j].section.id) {
                    let c2 = choose|c2: int|
                        0 <= c2 < cw.len() && cw[c2] == sv[j].section.id;
                    assert(!old_incl.contains(cw[c2]));
                    assert(sel_ids(old_sv)[j] == sv[j].section.id);
                    assert(old_incl.contains(sv[j].section.id));
                }
            }
            // dependencies precede their dependents: old entries keep
            // their witnesses, the new entry's dependencies are in the
            // old included list by precondition
            assert forall|i: int, d: int|
                0 <= i < sv.len() && 0 <= d < sv[i].section.depends_on.len() && spec_elig_has_id(
                    scored@,
                    req,
                    #[trigger] sv[i].section.depends_on[d],
                ) implies exists|j: int|
                0 <= j < i && sel_ids(sv)[j] == sv[i].section.depends_on[d] by {
                let dep = sv[i].section.depends_on[d];
                if i < n {
                    assert(old_sv[i].section.depends_on[d] == dep);
                    let j = choose|j: int| 0 <= j < i && sel_ids(old_sv)[j] == dep;
                    assert(sel_ids(sv)[j] == dep);
                } else {
                    assert(old_incl.contains(dep));
                    let j = choose|j: int| 0 <= j < old_incl.len() && old_incl[j] == dep;
                    assert(sel_ids(sv)[j] == sel_ids(old_sv)[j]);
                    assert(sel_ids(sv)[j] == dep);
                }
            }
            // everything excluded is a conflict of something selected
            assert forall|x: Seq<char>|
                self.excluded.deep_view().contains(x) implies exists|i: int|
                0 <= i < sv.len() && (#[trigger] sv[i].section.conflicts_with).contains(x) by {
                if old_excl.contains(x) {
                    let i = choose|i: int|
                        0 <= i < old_sv.len() && (#[trigger] old_sv[i].section.conflicts_with)
                            .contains(x);
                    assert(sv[i].section.conflicts_with.contains(x));
                } else {
                    assert(cw.contains(x));
                    assert(sv[n].section.conflicts_with.contains(x));
                }
            }
            // the new entry is one of the eligible scored sections
            assert(0 <= k < scored@.len() && spec_eligible(scored@[k as int]@.section, req)
                && scored@[k as int]@.section == sv[n].section && scored@[k as int]@.weighted_score
                == sv[n].score as int && scored@[k as int]@.tokens == sv[n].tokens as int);
            assert(sum_tokens(sv) == self.tokens_used as int);
            assert(self.tokens_used as int <= budget as int);
            assert(self.included.deep_view() == sel_ids(sv)) by {
                assert(self.included.deep_view() =~= sel_ids(sv));
            }
            assert(sel_ids(sv).no_duplicates());
            assert(forall|i: int, c2: int|
                0 <= i < sv.len() && 0 <= c2 < sv[i].section.conflicts_with.len()
                    ==> self.excluded.deep_view().contains(
                    #[trigger] sv[i].section.conflicts_with[c2],
                ));
            assert(forall|i: int, j: int|
                0 <= i < sv.len() && 0 <= j < sv.len() && i != j ==> !(
                #[trigger] sv[i].section.conflicts_with).contains(#[trigger] sv[j].section.id));
            assert(forall|i: int, d: int|
                0 <= i < sv.len() && 0 <= d < sv[i].section.depends_on.len() && spec_elig_has_id(
                    scored@,
                    req,
                    #[trigger] sv[i].section.depends_on[d],
                ) ==> exists|j: int| 0 <= j < i && sel_ids(sv)[j] == sv[i].section.depends_on[d]);
            assert(forall|i: int|
                0 <= i < sv.len() ==> exists|kk: int|
                    0 <= kk < scored@.len() && spec_eligible(#[trigger] scored@[kk]@.section, req)
                        && scored@[kk]@.section == (#[trigger] sv[i]).section
                        && scored@[kk]@.weighted_score == sv[i].score as int
                        && scored@[kk]@.tokens == sv[i].tokens as int);
        }
    }
}

/// The first eligible section carrying the id `d`, as an index into the
/// scored list.
fn find_eligible_by_id(
    scored: &Vec<ScoredSection>,
    elig: &Vec<usize>,
    d: &str,
    Ghost(req): Ghost<RequestView>,
) -> (r: Option<usize>)
    requires
        elig_ok(elig@, scored@, req),
    ensures
        match r {
            Some(k) => k < scored@.len() && spec_eligible(scored@[k as int]@.section, req)
                && scored@[k as int]@.section.id == d@,
            None => !spec_elig_has_id(scored@, req, d@),
        },
{
    let mut p: usize = 0;
    while p < elig.len()
        invariant
            elig_ok(elig@, scored@, req),
            0 <= p <= elig@.len(),
            forall|q: int|
                0 <= q < p ==> scored@[elig@[q] as int]@.section.id != d@,
        decreases elig@.len() - p,
    {
        let k = elig[p];
        if str_eq(scored[k].section.id.as_str(), d) {
            return Some(k);
        }
        p += 1;
    }
    proof {
        if spec_elig_has_id(scored@, req, d@) {
            let k = choose|k: int|
                0 <= k < scored@.len() && spec_eligible(#[trigger] scored@[k]@.section, req)
                    && scored@[k]@.section.id == d@;
            let q = choose|q: int| 0 <= q < elig@.len() && elig@[q] == k;
            assert(scored@[elig@[q] as int]@.section.id == d@);
        }
    }
    None
}


/// The section is in conflict, in either direction, with something
/// already selected.
pub open spec fn conflict_blocked(sv: Seq<SelectedView>, s: SectionView) -> bool {
    exists|i: int|
        #![trigger sv[i]]
        0 <= i < sv.len() && (sv[i].section.conflicts_with.contains(s.id)
            || s.conflicts_with.contains(sv[i].section.id))
}

#[verifier::loop_isolation(false)]
fn is_capability_compatible(section: &ScoredSection, capabilities: &Vec<String>) -> (r: bool)
    ensures
        r == spec_cap_compatible(section@.section, capabilities.deep_view()),
{
    let s = &section.section;
    if s.capabilities_all.len() > 0 {
        let ghost call = section@.section.capabilities_all;
        let mut i: usize = 0;
        while i < s.capabilities_all.len()
            invariant
                0 <= i <= call.len(),
                forall|j: int|
                    0 <= j < i ==> capabilities.deep_view().contains(#[trigger] call[j]),
            decreases call.len() - i,
        {
            if !contains_string(capabilities, s.capabilities_all[i].as_str()) {
                proof {
                    assert(!capabilities.deep_view().contains(call[i as int]));
                }
                return false;
            }
            i += 1;
        }
        true
    } else if s.capabilities.len() > 0 {
        let ghost cany = section@.section.capabilities;
        let mut i: usize = 0;
        while i < s.capabilities.len()
            invariant
                0 <= i <= cany.len(),
                forall|j: int|
                    0 <= j < i ==> !capabilities.deep_view().contains(#[trigger] cany[j]),
            decreases cany.len() - i,
        {
            if contains_string(capabilities, s.capabilities[i].as_str()) {
                proof {
                    assert(capabilities.deep_view().contains(cany[i as int]));
                }
                return true;
            }
            i += 1;
        }
        false
    } else {
        true
    }
}

#[verifier::loop_isolation(false)]
fn is_category_compatible(section: &ScoredSection, categories: &Option<Vec<String>>) -> (r: bool)
    ensures
        r == spec_cat_compatible(
            section@.section,
            match categories {
                Some(v) => Some(v.deep_view()),
                None => None,
            },
        ),
{
    match categories {
        Some(cats) => contains_string(cats, section.section.category.as_str()),
        None => true,
    }
}

#[verifier::loop_isolation(false)]
fn is_tag_compatible(section: &ScoredSection, tags: &Option<Vec<String>>) -> (r: bool)
    ensures
        r == spec_tag_compatible(
            section@.section,
            match tags {
                Some(v) => Some(v.deep_view()),
                None => None,
            },
        ),
{
    match tags {
        Some(filter_tags) => {
            let s = &section.section;
            let ghost tv = section@.section.tags;
            let mut i: usize = 0;
            while i < s.tags.len()
                invariant
                    0 <= i <= tv.len(),
                    forall|j: int|
                        0 <= j < i ==> !filter_tags.deep_view().contains(#[trigger] tv[j]),
                decreases tv.len() - i,
            {
                if contains_string(filter_tags, s.tags[i].as_str()) {
                    proof {
                        assert(filter_tags.deep_view().contains(tv[i as int]));
                    }
                    return true;
                }
                i += 1;
            }
            false
        },
        None => true,
    }
}

#[verifier::loop_isolation(false)]
fn is_eligible(section: &ScoredSection, request: &GeneratePrimerRequest) -> (r: bool)
    ensures
        r == spec_eligible(section@.section, request@),
{
    is_capability_compatible(section, &request.capabilities) && is_category_compatible(
        section,
        &request.categories,
    ) && is_tag_compatible(section, &request.tags)
}

/// Builds the list of eligible indices, in catalog order.
#[verifier::loop_isolation(false)]
fn build_eligible(scored: &Vec<ScoredSection>, request: &GeneratePrimerRequest) -> (r: Vec<usize>)
    ensures
        elig_ok(r@, scored@, request@),
        r@.len() == count_eligible(scored@, request@),
{
    let mut r: Vec<usize> = Vec::new();
    let mut k: usize = 0;
    while k < scored.len()
        invariant
            0 <= k <= scored@.len(),
            forall|p: int|
                0 <= p < r@.len() ==> (#[trigger] r@[p]) < k && spec_eligible(
                    scored@[r@[p] as int]@.section,
                    request@,
                ),
            forall|p1: int, p2: int|
                0 <= p1 < p2 < r@.len() ==> (#[trigger] r@[p1]) < (#[trigger] r@[p2]),
            forall|k2: int|
                0 <= k2 < k && spec_eligible(#[trigger] scored@[k2]@.section, request@)
                    ==> exists|p: int| 0 <= p < r@.len() && r@[p] == k2,
            r@.len() == count_eligible(scored@.subrange(0, k as int), request@),
        decreases scored@.len() - k,
    {
        proof {
            let pre = scored@.subrange(0, k as int);
            let post = scored@.subrange(0, k + 1);
            assert(post.drop_last() =~= pre);
            assert(post.last() == scored@[k as int]);
        }
        let ghost r0 = r@;
        if is_eligible(&scored[k], request) {
            r.push(k);
            proof {
                let rl = r@.len() as int;
                assert(r@[rl - 1] == k);
                assert forall|k2: int|
                    0 <= k2 < k + 1 && spec_eligible(
                        #[trigger] scored@[k2]@.section,
                        request@,
                    ) implies exists|p: int| 0 <= p < r@.len() && r@[p] == k2 by {
                    if k2 < k {
                        let p = choose|p: int| 0 <= p < r0.len() && r0[p] == k2;
                        assert(r@[p] == k2);
                    } else {
                        assert(r@[rl - 1] == k2);
                    }
                }
            }
        }
        k += 1;
    }
    proof {
        assert(scored@.subrange(0, scored@.len() as int) =~= scored@);
    }
    r
}

/// Recursively includes the dependency chain of section `k`: each
/// dependency's own dependencies first, then the dependency itself if it
/// is admissible and fits; `fuel` bounds the depth, so a cyclic
/// dependency graph exhausts it instead of recursing forever.
#[verifier::loop_isolation(false)]
#[verifier::rlimit(100)]
fn include_dependencies(
    ctx: &mut SelCtx,
    scored: &Vec<ScoredSection>,
    elig: &Vec<usize>,
    k: usize,
    budget: usize,
    fuel: usize,
    Ghost(req): Ghost<RequestView>,
)
    requires
        old(ctx).inv(scored@, req, budget as int),
        elig_ok(elig@, scored@, req),
        k < scored@.len(),
        spec_eligible(scored@[k as int]@.section, req),
    ensures
        final(ctx).inv(scored@, req, budget as int),
        sel_views(old(ctx).selected@).is_prefix_of(sel_views(final(ctx).selected@)),
        forall|x: Seq<char>|
            old(ctx).included.deep_view().contains(x) ==> final(ctx).included.deep_view().contains(x),
        forall|x: Seq<char>|
            old(ctx).excluded.deep_view().contains(x) ==> final(ctx).excluded.deep_view().contains(x),
        final(ctx).tokens_used >= old(ctx).tokens_used,
        scored@[k as int]@.section.depends_on.len() == 0 ==> *final(ctx) == *old(ctx),
    decreases fuel, scored@.len(),
{
    let ghost orig = *ctx;
    let deps_len = scored[k].section.depends_on.len();
    let mut d: usize = 0;
    while d < deps_len
        invariant
            ctx.inv(scored@, req, budget as int),
            elig_ok(elig@, scored@, req),
            k < scored@.len(),
            deps_len == scored@[k as int].section.depends_on@.len(),
            0 <= d <= deps_len,
            sel_views(orig.selected@).is_prefix_of(sel_views(ctx.selected@)),
            forall|x: Seq<char>|
                orig.included.deep_view().contains(x) ==> ctx.included.deep_view().contains(x),
            forall|x: Seq<char>|
                orig.excluded.deep_view().contains(x) ==> ctx.excluded.deep_view().contains(x),
            ctx.tokens_used >= orig.tokens_used,
            deps_len == 0 ==> *ctx == orig,
        decreases deps_len - d,
    {
        let dep = scored[k].section.depends_on[d].as_str();
        if !contains_string(&ctx.included, dep) {
            match find_eligible_by_id(scored, elig, dep, Ghost(req)) {
                Some(k2) => {
                    if !contains_string(&ctx.excluded, dep) {
                        let ghost mid = *ctx;
                        if fuel > 0 {
                            include_dependencies(
                                ctx,
                                scored,
                                elig,
                                k2,
                                budget,
                                fuel - 1,
                                Ghost(req),
                            );
                        }
                        let requester = scored[k].section.id.clone();
                        proof {
                            let kv = scored_views(scored@);
                            assert(kv[k as int] == scored@[k as int]@);
                            assert(scored@[k as int]@.section.depends_on[d as int] == dep@);
                            assert(scored@[k as int]@.section.depends_on.contains(
                                scored@[k2 as int]@.section.id,
                            ));
                        }
                        let ghost mid2 = *ctx;
                        if ctx.admissible(scored, k2) {
                            if ctx.deps_satisfied(scored, elig, k2, Ghost(req)) {
                                if ctx.fits(scored, k2, budget) {
                                    ctx.push_one(
                                        scored,
                                        k2,
                                        SelectionReason::Dependency(requester),
                                        budget,
                                        Ghost(req),
                                    );
                                    proof {
                                        lemma_prefix_chain(
                                            sel_views(mid.selected@),
                                            sel_views(mid2.selected@),
                                            sel_views(ctx.selected@),
                                        );
                                        assert forall|x: Seq<char>|
                                            mid2.included.deep_view().contains(x) implies ctx
                                            .included.deep_view().contains(x) by {
                                            let i = choose|i: int|
                                                0 <= i < mid2.included.deep_view().len()
                                                    && mid2.included.deep_view()[i] == x;
                                            assert(ctx.included.deep_view()[i] == x);
                                        }
                                    }
                                }
                            }
                        }
                        proof {
                            lemma_prefix_chain(
                                sel_views(orig.selected@),
                                sel_views(mid.selected@),
                                sel_views(ctx.selected@),
                            );
                        }
                    }
                },
                None => {},
            }
        }
        d += 1;
    }
}

proof fn lemma_prefix_chain(a: Seq<SelectedView>, b: Seq<SelectedView>, c: Seq<SelectedView>)
    requires
        a.is_prefix_of(b),
        b.is_prefix_of(c) || c == b.push(c.last()) && c.len() == b.len() + 1,
    ensures
        a.is_prefix_of(c),
{
    assert(a =~= c.subrange(0, a.len() as int));
}

/// Considers one candidate: includes its dependency chain, then the
/// section itself if it is admissible, its eligible dependencies are all
/// in, and it fits in the remaining budget.  Returns whether the section
/// itself was included.
#[verifier::loop_isolation(false)]
#[verifier::rlimit(100)]
fn process_candidate(
    ctx: &mut SelCtx,
    scored: &Vec<ScoredSection>,
    elig: &Vec<usize>,
    k: usize,
    reason: SelectionReason,
    budget: usize,
    Ghost(req): Ghost<RequestView>,
) -> (pushed: bool)
    requires
        old(ctx).inv(scored@, req, budget as int),
        elig_ok(elig@, scored@, req),
        k < scored@.len(),
        spec_eligible(scored@[k as int]@.section, req),
        reason_ok(reason@, scored@[k as int]@.section, scored_views(scored@), req),
    ensures
        final(ctx).inv(scored@, req, budget as int),
        sel_views(old(ctx).selected@).is_prefix_of(sel_views(final(ctx).selected@)),
        forall|x: Seq<char>|
            old(ctx).included.deep_view().contains(x) ==> final(ctx).included.deep_view().contains(x),
        forall|x: Seq<char>|
            old(ctx).excluded.deep_view().contains(x) ==> final(ctx).excluded.deep_view().contains(x),
        final(ctx).tokens_used >= old(ctx).tokens_used,
        pushed ==> final(ctx).included.deep_view().contains(scored@[k as int]@.section.id)
            && final(ctx).tokens_used >= old(ctx).tokens_used + scored@[k as int]@.tokens,
        scored@[k as int]@.section.depends_on.len() == 0 ==> (final(ctx).included.deep_view().contains(scored@[k as int]@.section.id) || final(ctx).excluded.deep_view().contains(scored@[k as int]@.section.id) || conflict_blocked(
            sel_views(final(ctx).selected@),
            scored@[k as int]@.section,
        ) || final(ctx).tokens_used + scored@[k as int]@.tokens > budget),
        (old(ctx).included@.len() == 0 && old(ctx).excluded@.len() == 0 && scored@[k as int]@
            .section.depends_on.len() == 0 && old(ctx).tokens_used + scored@[k as int]@.tokens
            <= budget) ==> final(ctx).included.deep_view().contains(
            scored@[k as int]@.section.id,
        ),
{
    let ghost s = scored@[k as int]@.section;
    if !ctx.admissible(scored, k) {
        proof {
            let sv = sel_views(ctx.selected@);
            if !ctx.included.deep_view().contains(s.id) && !ctx.excluded.deep_view().contains(
                s.id,
            ) {
                if exists|c: int|
                    0 <= c < s.conflicts_with.len() && ctx.included.deep_view().contains(
                        #[trigger] s.conflicts_with[c],
                    ) {
                    let c = choose|c: int|
                        0 <= c < s.conflicts_with.len() && ctx.included.deep_view().contains(
                            #[trigger] s.conflicts_with[c],
                        );
                    let j = choose|j: int|
                        0 <= j < ctx.included.deep_view().len() && ctx.included.deep_view()[j]
                            == s.conflicts_with[c];
                    assert(sel_ids(sv)[j] == s.conflicts_with[c]);
                    assert(s.conflicts_with.contains(sv[j].section.id));
                    assert(0 <= j < sv.len() && (sv[j].section.conflicts_with.contains(s.id)
                        || s.conflicts_with.contains(sv[j].section.id)));
                    assert(conflict_blocked(sv, s));
                } else {
                    assert(forall|c: int|
                        0 <= c < s.conflicts_with.len() ==> !ctx.included.deep_view().contains(
                            #[trigger] s.conflicts_with[c],
                        ));
                    assert(false);
                }
            }
        }
        return false;
    }
    let ghost pre = *ctx;
    include_dependencies(ctx, scored, elig, k, budget, scored.len(), Ghost(req));
    if ctx.admissible(scored, k) {
        if ctx.deps_satisfied(scored, elig, k, Ghost(req)) {
            if ctx.fits(scored, k, budget) {
                let ghost mid = *ctx;
                ctx.push_one(scored, k, reason, budget, Ghost(req));
                proof {
                    lemma_prefix_chain(
                        sel_views(pre.selected@),
                        sel_views(mid.selected@),
                        sel_views(ctx.selected@),
                    );
                    assert(ctx.included.deep_view() == mid.included.deep_view().push(s.id));
                    assert(ctx.included.deep_view()[mid.included.deep_view().len() as int]
                        == s.id);
                    assert(ctx.included.deep_view().contains(s.id));
                    assert forall|x: Seq<char>|
                        mid.included.deep_view().contains(x) implies ctx.included.deep_view()
                        .contains(x) by {
                        let i = choose|i: int|
                            0 <= i < mid.included.deep_view().len() && mid.included.deep_view()[i]
                                == x;
                        assert(ctx.included.deep_view()[i] == x);
                    }
                }
                return true;
            }
        }
    }
    proof {
        // the section was not pushed: translate the failing guard into
        // one of the promised outcomes
        let sv = sel_views(ctx.selected@);
        if s.depends_on.len() == 0 {
            if !ctx.included.deep_view().contains(s.id) && !ctx.excluded.deep_view().contains(
                s.id,
            ) {
                if exists|c: int|
                    0 <= c < s.conflicts_with.len() && ctx.included.deep_view().contains(
                        #[trigger] s.conflicts_with[c],
                    ) {
                    let c = choose|c: int|
                        0 <= c < s.conflicts_with.len() && ctx.included.deep_view().contains(
                            #[trigger] s.conflicts_with[c],
                        );
                    let j = choose|j: int|
                        0 <= j < ctx.included.deep_view().len() && ctx.included.deep_view()[j]
                            == s.conflicts_with[c];
                    assert(sel_ids(sv)[j] == s.conflicts_with[c]);
                    assert(s.conflicts_with.contains(sv[j].section.id));
                    assert(0 <= j < sv.len() && (sv[j].section.conflicts_with.contains(s.id)
                        || s.conflicts_with.contains(sv[j].section.id)));
                    assert(conflict_blocked(sv, s));
                } else {
                    assert(ctx.tokens_used + scored@[k as int]@.tokens > budget);
                }
            }
        }
    }
    false
}


/// Whether candidate `a` orders strictly below candidate `b`: by
/// adjusted safety then weighted score in the safety phase, by
/// value-per-token in the value phase.
fn cmp_below(scored: &Vec<ScoredSection>, a: usize, b: usize, by_safety: bool) -> bool
    requires
        a < scored@.len(),
        b < scored@.len(),
{
    if by_safety {
        let sa = scored[a].adjusted_value.safety;
        let sb = scored[b].adjusted_value.safety;
        sa < sb || (sa == sb && scored[a].weighted_score < scored[b].weighted_score)
    } else {
        scored[a].value_per_token < scored[b].value_per_token
    }
}

/// Stable descending sort of candidate indices by insertion: the result
/// holds exactly the candidates of the input.
#[verifier::loop_isolation(false)]
fn sort_desc(v: &Vec<usize>, scored: &Vec<ScoredSection>, by_safety: bool) -> (r: Vec<usize>)
    requires
        forall|p: int| 0 <= p < v@.len() ==> (#[trigger] v@[p]) < scored@.len(),
    ensures
        r@.len() == v@.len(),
        forall|p: int| 0 <= p < r@.len() ==> (#[trigger] r@[p]) < scored@.len(),
        forall|x: usize| r@.contains(x) <==> v@.contains(x),
{
    let mut r: Vec<usize> = Vec::new();
    let mut i: usize = 0;
    while i < v.len()
        invariant
            0 <= i <= v@.len(),
            r@.len() == i,
            forall|p: int| 0 <= p < r@.len() ==> (#[trigger] r@[p]) < scored@.len(),
            forall|x: usize| r@.contains(x) <==> v@.subrange(0, i as int).contains(x),
        decreases v@.len() - i,
    {
        let x = v[i];
        let mut q: usize = 0;
        let ghost r0 = r@;
        while q < r.len() && !cmp_below(scored, r[q], x, by_safety)
            invariant
                0 <= q <= r@.len(),
                r@ == r0,
                x < scored@.len(),
            decreases r@.len() - q,
        {
            q += 1;
        }
        r.insert(q, x);
        proof {
            let pre = v@.subrange(0, i as int);
            let post = v@.subrange(0, i + 1);
            assert(post.drop_last() =~= pre);
            assert(post.last() == v@[i as int]);
            assert(r@ =~= r0.subrange(0, q as int) + seq![x] + r0.subrange(
                q as int,
                r0.len() as int,
            ));
            assert forall|y: usize| r@.contains(y) implies post.contains(y) by {
                let j = choose|j: int| 0 <= j < r@.len() && r@[j] == y;
                if j < q {
                    assert(r0[j] == y);
                    assert(r0.contains(y));
                    assert(pre.contains(y));
                    let j2 = choose|j2: int| 0 <= j2 < pre.len() && pre[j2] == y;
                    assert(post[j2] == y);
                } else if j == q {
                    assert(post[post.len() - 1] == y);
                } else {
                    assert(r0[j - 1] == y);
                    assert(r0.contains(y));
                    assert(pre.contains(y));
                    let j2 = choose|j2: int| 0 <= j2 < pre.len() && pre[j2] == y;
                    assert(post[j2] == y);
                }
            }
            assert forall|y: usize| post.contains(y) implies r@.contains(y) by {
                let j = choose|j: int| 0 <= j < post.len() && post[j] == y;
                if j < i {
                    assert(pre[j] == y);
                    assert(r0.contains(y));
                    let j2 = choose|j2: int| 0 <= j2 < r0.len() && r0[j2] == y;
                    if j2 < q {
                        assert(r@[j2] == y);
                    } else {
                        assert(r@[j2 + 1] == y);
                    }
                } else {
                    assert(y == x);
                    assert(r@[q as int] == y);
                }
            }
        }
        i += 1;
    }
    proof {
        assert(v@.subrange(0, v@.len() as int) =~= v@);
    }
    r
}

/// Phase one: sections flagged required or named in the force-include
/// list, in catalog order.
#[verifier::loop_isolation(false)]
fn phase_required(
    ctx: &mut SelCtx,
    scored: &Vec<ScoredSection>,
    elig: &Vec<usize>,
    request: &GeneratePrimerRequest,
    budget: usize,
    Ghost(req): Ghost<RequestView>,
)
    requires
        old(ctx).inv(scored@, req, budget as int),
        elig_ok(elig@, scored@, req),
        req == request@,
    ensures
        final(ctx).inv(scored@, req, budget as int),
        sel_views(old(ctx).selected@).is_prefix_of(sel_views(final(ctx).selected@)),
        forall|x: Seq<char>|
            old(ctx).included.deep_view().contains(x) ==> final(ctx).included.deep_view().contains(x),
        forall|x: Seq<char>|
            old(ctx).excluded.deep_view().contains(x) ==> final(ctx).excluded.deep_view().contains(x),
        final(ctx).tokens_used >= old(ctx).tokens_used,
        // every dependency-free phase-one candidate is selected,
        // conflict-blocked, or out of room
        forall|k: int|
            0 <= k < scored@.len() && spec_eligible(#[trigger] scored@[k]@.section, req)
                && is_required_cand(scored@[k]@.section, req) && scored@[k]@.section.depends_on.len()
                == 0 ==> final(ctx).included.deep_view().contains(scored@[k]@.section.id) || final(ctx).excluded.deep_view().contains(scored@[k]@.section.id) || conflict_blocked(
                sel_views(final(ctx).selected@),
                scored@[k]@.section,
            ) || final(ctx).tokens_used + scored@[k]@.tokens > budget,
        // from a fresh state, the first candidate is always taken when
        // it is dependency-free and fits the whole budget
        forall|k: int|
            first_required(scored_views(scored@), req, k) && scored@[k]@.section.depends_on.len()
                == 0 && old(ctx).included@.len() == 0 && old(ctx).excluded@.len() == 0 && old(ctx).tokens_used == 0 && scored@[k]@.tokens <= budget ==> final(ctx).included.deep_view().contains(scored@[k]@.section.id),
{
    let ghost orig = *ctx;
    let mut ci: usize = 0;
    while ci < elig.len()
        invariant
            ctx.inv(scored@, req, budget as int),
            elig_ok(elig@, scored@, req),
            req == request@,
            0 <= ci <= elig@.len(),
            sel_views(orig.selected@).is_prefix_of(sel_views(ctx.selected@)),
            forall|x: Seq<char>|
                orig.included.deep_view().contains(x) ==> ctx.included.deep_view().contains(x),
            forall|x: Seq<char>|
                orig.excluded.deep_view().contains(x) ==> ctx.excluded.deep_view().contains(x),
            ctx.tokens_used >= orig.tokens_used,
            forall|q: int|
                0 <= q < ci && is_required_cand(
                    scored@[elig@[q] as int]@.section,
                    req,
                ) && scored@[elig@[q] as int]@.section.depends_on.len() == 0
                    ==> ctx.included.deep_view().contains(
                    scored@[(#[trigger] elig@[q]) as int]@.section.id,
                ) || ctx.excluded.deep_view().contains(scored@[elig@[q] as int]@.section.id)
                    || conflict_blocked(
                    sel_views(ctx.selected@),
                    scored@[elig@[q] as int]@.section,
                ) || ctx.tokens_used + scored@[elig@[q] as int]@.tokens > budget,
            (forall|q: int|
                0 <= q < ci ==> !is_required_cand(
                    scored@[(#[trigger] elig@[q]) as int]@.section,
                    req,
                )) ==> *ctx == orig,
            forall|k: int|
                first_required(scored_views(scored@), req, k)
                    && scored@[k]@.section.depends_on.len() == 0 && orig.included@.len() == 0
                    && orig.excluded@.len() == 0 && orig.tokens_used == 0 && scored@[k]@.tokens
                    <= budget && (exists|p: int| 0 <= p < ci && elig@[p] == k)
                    ==> ctx.included.deep_view().contains(scored@[k]@.section.id),
        decreases elig@.len() - ci,
    {
        let k = elig[ci];
        let forced = contains_string(&request.force_include, scored[k].section.id.as_str());
        if scored[k].section.required || forced {
            let reason = if forced {
                SelectionReason::ForcedInclude
            } else {
                SelectionReason::Required
            };
            proof {
                let kv = scored_views(scored@);
                assert(kv[k as int] == scored@[k as int]@);
                // if nothing earlier was a candidate, this is the first
                // eligible candidate of the whole catalog
                if forall|q: int|
                    0 <= q < ci ==> !is_required_cand(
                        scored@[(#[trigger] elig@[q]) as int]@.section,
                        req,
                    ) {
                    assert forall|k2: int|
                        0 <= k2 < k implies !(spec_eligible(#[trigger] kv[k2].section, req)
                        && is_required_cand(kv[k2].section, req)) by {
                        if spec_eligible(kv[k2].section, req) {
                            assert(kv[k2] == scored@[k2]@);
                            let p = choose|p: int| 0 <= p < elig@.len() && elig@[p] == k2;
                            if p >= ci {
                                assert(elig@[ci as int] <= elig@[p]);
                            }
                            assert(p < ci);
                        }
                    }
                    assert(first_required(kv, req, k as int));
                }
            }
            let ghost mid = *ctx;
            process_candidate(ctx, scored, elig, k, reason, budget, Ghost(req));
            proof {
                lemma_prefix_trans(
                    sel_views(orig.selected@),
                    sel_views(mid.selected@),
                    sel_views(ctx.selected@),
                );
                assert forall|q: int|
                    0 <= q < ci + 1 && is_required_cand(
                        scored@[elig@[q] as int]@.section,
                        req,
                    ) && scored@[elig@[q] as int]@.section.depends_on.len() == 0
                        implies ctx.included.deep_view().contains(
                        scored@[(#[trigger] elig@[q]) as int]@.section.id,
                    ) || ctx.excluded.deep_view().contains(scored@[elig@[q] as int]@.section.id)
                        || conflict_blocked(
                        sel_views(ctx.selected@),
                        scored@[elig@[q] as int]@.section,
                    ) || ctx.tokens_used + scored@[elig@[q] as int]@.tokens > budget by {
                    let sq = scored@[elig@[q] as int]@.section;
                    if q < ci {
                        if conflict_blocked(sel_views(mid.selected@), sq) {
                            lemma_conflict_blocked_mono(
                                sel_views(mid.selected@),
                                sel_views(ctx.selected@),
                                sq,
                            );
                        }
                    } else {
                        assert(sq == scored@[k as int]@.section);
                    }
                }
                // the first-candidate clause: either an earlier candidate
                // already settled it, or this one is the first and was
                // taken from the fresh state
                assert forall|k2: int|
                    first_required(scored_views(scored@), req, k2)
                        && scored@[k2]@.section.depends_on.len() == 0 && orig.included@.len() == 0
                        && orig.excluded@.len() == 0 && orig.tokens_used == 0 && scored@[k2]@.tokens
                        <= budget && (exists|p: int| 0 <= p < ci + 1 && elig@[p] == k2)
                        implies ctx.included.deep_view().contains(scored@[k2]@.section.id) by {
                    let p = choose|p: int| 0 <= p < ci + 1 && elig@[p] == k2;
                    if p < ci {
                        assert(mid.included.deep_view().contains(scored@[k2]@.section.id));
                    } else {
                        assert(k2 == k as int);
                        assert(scored_views(scored@)[k2] == scored@[k2]@);
                        assert(is_required_cand(scored@[k2]@.section, req));
                        // nothing before position ci can be a candidate,
                        // so the state at entry to this iteration was the
                        // original fresh one
                        assert forall|q: int|
                            0 <= q < ci implies !is_required_cand(
                            scored@[(#[trigger] elig@[q]) as int]@.section,
                            req,
                        ) by {
                            if is_required_cand(scored@[elig@[q] as int]@.section, req) {
                                assert(elig@[q] < elig@[ci as int]);
                                assert(spec_eligible(
                                    scored_views(scored@)[elig@[q] as int].section,
                                    req,
                                ));
                                assert(!(spec_eligible(
                                    scored_views(scored@)[elig@[q] as int].section,
                                    req,
                                ) && is_required_cand(
                                    scored_views(scored@)[elig@[q] as int].section,
                                    req,
                                )));
                            }
                        }
                        assert(mid == orig);
                        assert(mid.tokens_used + scored@[k as int]@.tokens <= budget);
                    }
                }
            }
        }
        ci += 1;
    }
}

proof fn lemma_prefix_trans(a: Seq<SelectedView>, b: Seq<SelectedView>, c: Seq<SelectedView>)
    requires
        a.is_prefix_of(b),
        b.is_prefix_of(c),
    ensures
        a.is_prefix_of(c),
{
    assert(a =~= c.subrange(0, a.len() as int));
}

/// Phase two: sections whose `required_if` condition held at scoring
/// time and which are not yet included.
#[verifier::loop_isolation(false)]
fn phase_conditional(
    ctx: &mut SelCtx,
    scored: &Vec<ScoredSection>,
    elig: &Vec<usize>,
    budget: usize,
    Ghost(req): Ghost<RequestView>,
)
    requires
        old(ctx).inv(scored@, req, budget as int),
        elig_ok(elig@, scored@, req),
    ensures
        final(ctx).inv(scored@, req, budget as int),
        sel_views(old(ctx).selected@).is_prefix_of(sel_views(final(ctx).selected@)),
        forall|x: Seq<char>|
            old(ctx).included.deep_view().contains(x) ==> final(ctx).included.deep_view().contains(x),
        forall|x: Seq<char>|
            old(ctx).excluded.deep_view().contains(x) ==> final(ctx).excluded.deep_view().contains(x),
        final(ctx).tokens_used >= old(ctx).tokens_used,
        // every dependency-free conditionally required section is
        // selected, conflict-blocked, or out of room
        forall|k: int|
            0 <= k < scored@.len() && spec_eligible(#[trigger] scored@[k]@.section, req)
                && scored@[k]@.is_conditionally_required && scored@[k]@.section.depends_on.len()
                == 0 ==> final(ctx).included.deep_view().contains(scored@[k]@.section.id) || final(ctx).excluded.deep_view().contains(scored@[k]@.section.id) || conflict_blocked(
                sel_views(final(ctx).selected@),
                scored@[k]@.section,
            ) || final(ctx).tokens_used + scored@[k]@.tokens > budget,
{
    let ghost orig = *ctx;
    let mut ci: usize = 0;
    while ci < elig.len()
        invariant
            ctx.inv(scored@, req, budget as int),
            elig_ok(elig@, scored@, req),
            0 <= ci <= elig@.len(),
            sel_views(orig.selected@).is_prefix_of(sel_views(ctx.selected@)),
            forall|x: Seq<char>|
                orig.included.deep_view().contains(x) ==> ctx.included.deep_view().contains(x),
            forall|x: Seq<char>|
                orig.excluded.deep_view().contains(x) ==> ctx.excluded.deep_view().contains(x),
            ctx.tokens_used >= orig.tokens_used,
            forall|q: int|
                0 <= q < ci && scored@[elig@[q] as int]@.is_conditionally_required
                    && scored@[elig@[q] as int]@.section.depends_on.len() == 0
                    ==> ctx.included.deep_view().contains(
                    scored@[(#[trigger] elig@[q]) as int]@.section.id,
                ) || ctx.excluded.deep_view().contains(scored@[elig@[q] as int]@.section.id)
                    || conflict_blocked(
                    sel_views(ctx.selected@),
                    scored@[elig@[q] as int]@.section,
                ) || ctx.tokens_used + scored@[elig@[q] as int]@.tokens > budget,
        decreases elig@.len() - ci,
    {
        let k = elig[ci];
        if scored[k].is_conditionally_required && !contains_string(
            &ctx.included,
            scored[k].section.id.as_str(),
        ) {
            let reason_text = match &scored[k].section.required_if {
                Some(c) => c.clone(),
                None => String::from_str("condition met"),
            };
            proof {
                let kv = scored_views(scored@);
                assert(kv[k as int] == scored@[k as int]@);
                assert(kv[k as int].is_conditionally_required);
                assert(spec_eligible(kv[k as int].section, req));
            }
            let ghost mid = *ctx;
            process_candidate(
                ctx,
                scored,
                elig,
                k,
                SelectionReason::ConditionallyRequired(reason_text),
                budget,
                Ghost(req),
            );
            proof {
                lemma_prefix_trans(
                    sel_views(orig.selected@),
                    sel_views(mid.selected@),
                    sel_views(ctx.selected@),
                );
                assert forall|q: int|
                    0 <= q < ci + 1 && scored@[elig@[q] as int]@.is_conditionally_required
                        && scored@[elig@[q] as int]@.section.depends_on.len() == 0
                        implies ctx.included.deep_view().contains(
                        scored@[(#[trigger] elig@[q]) as int]@.section.id,
                    ) || ctx.excluded.deep_view().contains(scored@[elig@[q] as int]@.section.id)
                        || conflict_blocked(
                        sel_views(ctx.selected@),
                        scored@[elig@[q] as int]@.section,
                    ) || ctx.tokens_used + scored@[elig@[q] as int]@.tokens > budget by {
                    let sq = scored@[elig@[q] as int]@.section;
                    if q < ci {
                        if conflict_blocked(sel_views(mid.selected@), sq) {
                            lemma_conflict_blocked_mono(
                                sel_views(mid.selected@),
                                sel_views(ctx.selected@),
                                sq,
                            );
                        }
                    } else {
                        assert(sq == scored@[k as int]@.section);
                    }
                }
            }
        }
        ci += 1;
    }
    proof {
        assert forall|k: int|
            0 <= k < scored@.len() && spec_eligible(#[trigger] scored@[k]@.section, req)
                && scored@[k]@.is_conditionally_required && scored@[k]@.section.depends_on.len()
                == 0 implies ctx.included.deep_view().contains(scored@[k]@.section.id) || ctx
            .excluded.deep_view().contains(scored@[k]@.section.id) || conflict_blocked(
            sel_views(ctx.selected@),
            scored@[k]@.section,
        ) || ctx.tokens_used + scored@[k]@.tokens > budget by {
            let p = choose|p: int| 0 <= p < elig@.len() && elig@[p] == k;
            assert(0 <= p < ci);
        }
    }
}

/// Two fifths of `n`, the safety phase's share of the remaining budget.
fn two_fifths(n: usize) -> (r: usize)
    ensures
        r as int == (n as int * 2) / 5,
        r <= n,
{
    proof {
        assert(0 <= (n as int * 2) / 5 <= n as int) by (nonlinear_arith)
            requires
                n >= 0,
        ;
    }
    (((n as u128) * 2) / 5) as usize
}

/// Phase three: sections whose adjusted safety is at least 80, best
/// first, within two fifths of the budget remaining at phase entry.
#[verifier::loop_isolation(false)]
fn phase_safety(
    ctx: &mut SelCtx,
    scored: &Vec<ScoredSection>,
    elig: &Vec<usize>,
    budget: usize,
    Ghost(req): Ghost<RequestView>,
)
    requires
        old(ctx).inv(scored@, req, budget as int),
        elig_ok(elig@, scored@, req),
    ensures
        final(ctx).inv(scored@, req, budget as int),
        sel_views(old(ctx).selected@).is_prefix_of(sel_views(final(ctx).selected@)),
        forall|x: Seq<char>|
            old(ctx).included.deep_view().contains(x) ==> final(ctx).included.deep_view().contains(x),
        forall|x: Seq<char>|
            old(ctx).excluded.deep_view().contains(x) ==> final(ctx).excluded.deep_view().contains(x),
        final(ctx).tokens_used >= old(ctx).tokens_used,
{
    let ghost orig = *ctx;
    let mut cands: Vec<usize> = Vec::new();
    let mut ci: usize = 0;
    while ci < elig.len()
        invariant
            elig_ok(elig@, scored@, req),
            0 <= ci <= elig@.len(),
            forall|p: int|
                0 <= p < cands@.len() ==> (#[trigger] cands@[p]) < scored@.len() && spec_eligible(
                    scored@[cands@[p] as int]@.section,
                    req,
                ) && scored@[cands@[p] as int]@.adjusted_value.safety >= 80,
        decreases elig@.len() - ci,
    {
        let k = elig[ci];
        if scored[k].adjusted_value.safety >= 80 && !contains_string(
            &ctx.included,
            scored[k].section.id.as_str(),
        ) && !contains_string(&ctx.excluded, scored[k].section.id.as_str()) {
            cands.push(k);
        }
        ci += 1;
    }
    let sorted = sort_desc(&cands, scored, true);
    let remaining = budget - ctx.tokens_used;
    let safety_budget = two_fifths(remaining);
    let mut safety_tokens: usize = 0;
    let mut i: usize = 0;
    while i < sorted.len()
        invariant
            ctx.inv(scored@, req, budget as int),
            elig_ok(elig@, scored@, req),
            0 <= i <= sorted@.len(),
            safety_tokens <= ctx.tokens_used,
            sel_views(orig.selected@).is_prefix_of(sel_views(ctx.selected@)),
            forall|x: Seq<char>|
                orig.included.deep_view().contains(x) ==> ctx.included.deep_view().contains(x),
            forall|x: Seq<char>|
                orig.excluded.deep_view().contains(x) ==> ctx.excluded.deep_view().contains(x),
            ctx.tokens_used >= orig.tokens_used,
        decreases sorted@.len() - i,
    {
        if safety_tokens >= safety_budget {
            break;
        }
        let k = sorted[i];
        proof {
            assert(sorted@.contains(sorted@[i as int]));
            assert(cands@.contains(sorted@[i as int]));
            let p = choose|p: int| 0 <= p < cands@.len() && cands@[p] == sorted@[i as int];
            let kv = scored_views(scored@);
            assert(kv[k as int] == scored@[k as int]@);
            assert(kv[k as int].adjusted_value.safety >= 80);
            assert(spec_eligible(kv[k as int].section, req));
        }
        if ctx.admissible(scored, k) {
            if ctx.fits(scored, k, budget) {
                let ghost mid = *ctx;
                let pushed = process_candidate(
                    ctx,
                    scored,
                    elig,
                    k,
                    SelectionReason::SafetyCritical,
                    budget,
                    Ghost(req),
                );
                proof {
                    lemma_prefix_trans(
                        sel_views(orig.selected@),
                        sel_views(mid.selected@),
                        sel_views(ctx.selected@),
                    );
                }
                if pushed {
                    safety_tokens = safety_tokens + scored[k].tokens;
                }
            }
        }
        i += 1;
    }
}

/// Phase four: every remaining eligible section, best value-per-token
/// first, greedily while the budget lasts.
#[verifier::loop_isolation(false)]
#[verifier::rlimit(100)]
fn phase_value(
    ctx: &mut SelCtx,
    scored: &Vec<ScoredSection>,
    elig: &Vec<usize>,
    budget: usize,
    Ghost(req): Ghost<RequestView>,
)
    requires
        old(ctx).inv(scored@, req, budget as int),
        elig_ok(elig@, scored@, req),
    ensures
        final(ctx).inv(scored@, req, budget as int),
        sel_views(old(ctx).selected@).is_prefix_of(sel_views(final(ctx).selected@)),
        forall|x: Seq<char>|
            old(ctx).included.deep_view().contains(x) ==> final(ctx).included.deep_view().contains(x),
        forall|x: Seq<char>|
            old(ctx).excluded.deep_view().contains(x) ==> final(ctx).excluded.deep_view().contains(x),
        final(ctx).tokens_used >= old(ctx).tokens_used,
        forall|k: int|
            0 <= k < scored@.len() && spec_eligible(#[trigger] scored@[k]@.section, req)
                && scored@[k]@.section.depends_on.len() == 0 ==> final(ctx).included.deep_view().contains(scored@[k]@.section.id) || final(ctx).excluded.deep_view().contains(scored@[k]@.section.id) || conflict_blocked(
                sel_views(final(ctx).selected@),
                scored@[k]@.section,
            ) || final(ctx).tokens_used + scored@[k]@.tokens > budget || final(ctx).tokens_used >= budget,
{
    let ghost orig = *ctx;
    let mut cands: Vec<usize> = Vec::new();
    let mut ci: usize = 0;
    while ci < elig.len()
        invariant
            elig_ok(elig@, scored@, req),
            0 <= ci <= elig@.len(),
            forall|p: int|
                0 <= p < cands@.len() ==> (#[trigger] cands@[p]) < scored@.len() && spec_eligible(
                    scored@[cands@[p] as int]@.section,
                    req,
                ),
            forall|q: int|
                0 <= q < ci ==> ctx.included.deep_view().contains(
                    scored@[elig@[q] as int]@.section.id,
                ) || ctx.excluded.deep_view().contains(scored@[elig@[q] as int]@.section.id)
                    || cands@.contains(#[trigger] elig@[q]),
        decreases elig@.len() - ci,
    {
        let k = elig[ci];
        let ghost cands0 = cands@;
        if !contains_string(&ctx.included, scored[k].section.id.as_str()) && !contains_string(
            &ctx.excluded,
            scored[k].section.id.as_str(),
        ) {
            cands.push(k);
            proof {
                assert(cands@[cands@.len() - 1] == k);
                assert forall|q: int|
                    0 <= q < ci && cands0.contains(#[trigger] elig@[q]) implies cands@.contains(
                    elig@[q],
                ) by {
                    let p = choose|p: int| 0 <= p < cands0.len() && cands0[p] == elig@[q];
                    assert(cands@[p] == elig@[q]);
                }
            }
        }
        ci += 1;
    }
    let sorted = sort_desc(&cands, scored, false);
    let mut i: usize = 0;
    while i < sorted.len()
        invariant
            ctx.inv(scored@, req, budget as int),
            elig_ok(elig@, scored@, req),
            0 <= i <= sorted@.len(),
            sel_views(orig.selected@).is_prefix_of(sel_views(ctx.selected@)),
            forall|x: Seq<char>|
                orig.included.deep_view().contains(x) ==> ctx.included.deep_view().contains(x),
            forall|x: Seq<char>|
                orig.excluded.deep_view().contains(x) ==> ctx.excluded.deep_view().contains(x),
            ctx.tokens_used >= orig.tokens_used,
            forall|q: int|
                0 <= q < i && scored@[sorted@[q] as int]@.section.depends_on.len() == 0
                    ==> ctx.included.deep_view().contains(
                    scored@[(#[trigger] sorted@[q]) as int]@.section.id,
                ) || ctx.excluded.deep_view().contains(scored@[sorted@[q] as int]@.section.id)
                    || conflict_blocked(
                    sel_views(ctx.selected@),
                    scored@[sorted@[q] as int]@.section,
                ) || ctx.tokens_used + scored@[sorted@[q] as int]@.tokens > budget,
        decreases sorted@.len() - i,
    {
        if ctx.tokens_used >= budget {
            break;
        }
        let k = sorted[i];
        proof {
            assert(sorted@.contains(sorted@[i as int]));
            assert(cands@.contains(sorted@[i as int]));
            let p = choose|p: int| 0 <= p < cands@.len() && cands@[p] == sorted@[i as int];
        }
        let ghost head = *ctx;
        process_candidate(
            ctx,
            scored,
            elig,
            k,
            SelectionReason::ValueOptimized,
            budget,
            Ghost(req),
        );
        proof {
            lemma_prefix_trans(
                sel_views(orig.selected@),
                sel_views(head.selected@),
                sel_views(ctx.selected@),
            );
            assert forall|q: int|
                0 <= q < i + 1 && scored@[sorted@[q] as int]@.section.depends_on.len() == 0
                    implies ctx.included.deep_view().contains(
                    scored@[(#[trigger] sorted@[q]) as int]@.section.id,
                ) || ctx.excluded.deep_view().contains(scored@[sorted@[q] as int]@.section.id)
                    || conflict_blocked(
                    sel_views(ctx.selected@),
                    scored@[sorted@[q] as int]@.section,
                ) || ctx.tokens_used + scored@[sorted@[q] as int]@.tokens > budget by {
                let sq = scored@[sorted@[q] as int]@.section;
                if q < i {
                    if conflict_blocked(sel_views(head.selected@), sq) {
                        lemma_conflict_blocked_mono(
                            sel_views(head.selected@),
                            sel_views(ctx.selected@),
                            sq,
                        );
                    }
                } else {
                    assert(sq == scored@[k as int]@.section);
                }
            }
        }
        i += 1;
    }
    proof {
        assert forall|k: int|
            0 <= k < scored@.len() && spec_eligible(#[trigger] scored@[k]@.section, req)
                && scored@[k]@.section.depends_on.len() == 0 implies ctx
            .included.deep_view().contains(scored@[k]@.section.id) || ctx
            .excluded.deep_view().contains(scored@[k]@.section.id) || conflict_blocked(
            sel_views(ctx.selected@),
            scored@[k]@.section,
        ) || ctx.tokens_used + scored@[k]@.tokens > budget || ctx.tokens_used >= budget by {
            if !ctx.included.deep_view().contains(scored@[k]@.section.id)
                && !ctx.excluded.deep_view().contains(scored@[k]@.section.id)
                && !conflict_blocked(sel_views(ctx.selected@), scored@[k]@.section)
                && ctx.tokens_used < budget {
                let p = choose|p: int| 0 <= p < elig@.len() && elig@[p] == k;
                if cands@.contains(elig@[p]) {
                    assert(sorted@.contains(elig@[p]));
                    let q = choose|q: int| 0 <= q < sorted@.len() && sorted@[q] == elig@[p];
                    if q < i {
                        assert(ctx.tokens_used + scored@[sorted@[q] as int]@.tokens > budget);
                    } else {
                        assert(ctx.tokens_used >= budget);
                    }
                }
            }
        }
    }
}

proof fn lemma_conflict_blocked_mono(a: Seq<SelectedView>, b: Seq<SelectedView>, s: SectionView)
    requires
        a.is_prefix_of(b),
        conflict_blocked(a, s),
    ensures
        conflict_blocked(b, s),
{
    let j = choose|j: int|
        #![trigger a[j]]
        0 <= j < a.len() && (a[j].section.conflicts_with.contains(s.id)
            || s.conflicts_with.contains(a[j].section.id));
    assert(b[j] == a.subrange(0, a.len() as int)[j] || b[j] == b.subrange(0, a.len() as int)[j]);
    assert(a.subrange(0, a.len() as int) =~= a);
    assert(b[j] == a[j]);
}


proof fn lemma_count_views(s: Seq<ScoredSection>, req: RequestView)
    ensures
        count_eligible(s, req) == count_eligible_v(scored_views(s), req),
    decreases s.len(),
{
    if s.len() > 0 {
        lemma_count_views(s.drop_last(), req);
        assert(scored_views(s).drop_last() =~= scored_views(s.drop_last()));
        assert(scored_views(s).last() == s.last()@);
    } else {
        assert(scored_views(s).len() == 0);
    }
}

proof fn lemma_has_id_views(s: Seq<ScoredSection>, req: RequestView, d: Seq<char>)
    ensures
        spec_elig_has_id(s, req, d) == elig_has_id_v(scored_views(s), req, d),
{
    let sv = scored_views(s);
    if spec_elig_has_id(s, req, d) {
        let k = choose|k: int|
            0 <= k < s.len() && spec_eligible(#[trigger] s[k]@.section, req) && s[k]@.section.id
                == d;
        assert(sv[k] == s[k]@);
        assert(spec_eligible(sv[k].section, req) && sv[k].section.id == d);
    }
    if elig_has_id_v(sv, req, d) {
        let k = choose|k: int|
            0 <= k < sv.len() && spec_eligible(#[trigger] sv[k].section, req) && sv[k].section.id
                == d;
        assert(sv[k] == s[k]@);
        assert(spec_eligible(s[k]@.section, req) && s[k]@.section.id == d);
    }
}

/// Everything `select_sections` promises about its result, stated over
/// the views of the scored sections: the tokens used are the sum of the
/// selected costs and stay within the budget; no section repeats; no two
/// selected sections conflict in either direction; a selected section's
/// eligible dependencies are selected before it; every selected section
/// is one of the eligible scored sections, carrying its score, cost and
/// a reason its selection certifies; the excluded count is the number of
/// eligible sections not selected; a dependency-free eligible section in
/// conflict with nothing selected is only ever left out when the budget
/// has no room for it; for required, forced and conditionally required
/// sections not even exhaustion of the budget excuses the omission, only
/// genuine lack of room; and the first required or forced candidate of
/// the catalog, when dependency-free and within the whole budget, is
/// always selected.
pub open spec fn selection_post(
    scored: Seq<crate::scoring::ScoredView>,
    req: RequestView,
    sel: Seq<SelectedView>,
    tokens_used: int,
    excluded_count: int,
) -> bool {
    &&& 0 <= tokens_used <= req.token_budget
    &&& sum_tokens(sel) == tokens_used
    &&& sel_ids(sel).no_duplicates()
    &&& forall|i: int, j: int|
        0 <= i < sel.len() && 0 <= j < sel.len() && i != j ==> !(
        #[trigger] sel[i].section.conflicts_with).contains(#[trigger] sel[j].section.id)
    &&& forall|i: int, d: int|
        0 <= i < sel.len() && 0 <= d < sel[i].section.depends_on.len() && elig_has_id_v(
            scored,
            req,
            #[trigger] sel[i].section.depends_on[d],
        ) ==> exists|j: int| 0 <= j < i && sel_ids(sel)[j] == sel[i].section.depends_on[d]
    &&& forall|i: int|
        0 <= i < sel.len() ==> exists|k: int|
            0 <= k < scored.len() && spec_eligible(#[trigger] scored[k].section, req) && scored[k].section
                == (#[trigger] sel[i]).section && scored[k].weighted_score == sel[i].score as int
                && scored[k].tokens == sel[i].tokens as int
    &&& forall|i: int|
        0 <= i < sel.len() ==> reason_ok(
            (#[trigger] sel[i]).selection_reason,
            sel[i].section,
            scored,
            req,
        )
    &&& sel.len() <= count_eligible_v(scored, req)
    &&& excluded_count == count_eligible_v(scored, req) - sel.len()
    &&& forall|k: int|
        0 <= k < scored.len() && spec_eligible(#[trigger] scored[k].section, req)
            && scored[k].section.depends_on.len() == 0 && !sel_ids(sel).contains(
            scored[k].section.id,
        ) && !conflict_blocked(sel, scored[k].section) ==> tokens_used + scored[k].tokens
            > req.token_budget || tokens_used >= req.token_budget
    &&& forall|k: int|
        0 <= k < scored.len() && spec_eligible(#[trigger] scored[k].section, req)
            && (is_required_cand(scored[k].section, req) || scored[k].is_conditionally_required)
            && scored[k].section.depends_on.len() == 0 && !sel_ids(sel).contains(
            scored[k].section.id,
        ) && !conflict_blocked(sel, scored[k].section) ==> tokens_used + scored[k].tokens
            > req.token_budget
    &&& forall|k: int|
        first_required(scored, req, k) && scored[k].section.depends_on.len() == 0
            && scored[k].tokens <= req.token_budget ==> sel_ids(sel).contains(
            scored[k].section.id,
        )
}

/// Selects sections within the budget through the four phases; the
/// result meets every clause of `selection_post` over the scored views.
#[verifier::loop_isolation(false)]
#[verifier::rlimit(100)]
pub fn select_sections(
    scored: &Vec<ScoredSection>,
    request: &GeneratePrimerRequest,
) -> (r: SelectionResult)
    ensures
        selection_post(
            scored_views(scored@),
            request@,
            sel_views(r.selected@),
            r.tokens_used as int,
            r.excluded_count as int,
        ),
{
    let budget = request.token_budget;
    let elig = build_eligible(scored, request);
    let mut ctx = SelCtx::new();
    proof {
        ctx.lemma_empty_inv(scored@, request@, budget as int);
    }
    let ghost c0 = ctx;
    phase_required(&mut ctx, scored, &elig, request, budget, Ghost(request@));
    let ghost c1 = ctx;
    phase_conditional(&mut ctx, scored, &elig, budget, Ghost(request@));
    let ghost c2 = ctx;
    phase_safety(&mut ctx, scored, &elig, budget, Ghost(request@));
    let ghost c3 = ctx;
    phase_value(&mut ctx, scored, &elig, budget, Ghost(request@));
    proof {
        let req = request@;
        let skv = scored_views(scored@);
        let sv = sel_views(ctx.selected@);
        let ids = sel_ids(sv);
        lemma_prefix_trans(sel_views(c1.selected@), sel_views(c2.selected@), sel_views(c3.selected@));
        lemma_prefix_trans(sel_views(c1.selected@), sel_views(c3.selected@), sv);
        lemma_prefix_trans(sel_views(c2.selected@), sel_views(c3.selected@), sv);
        assert(forall|k: int| 0 <= k < skv.len() ==> #[trigger] skv[k] == scored@[k]@);
        // the distinct selected ids inject into the eligible list, which
        // bounds the selection by the eligible count
        let elig_ids = elig@.map_values(|u: usize| scored@[u as int]@.section.id);
        assert forall|i: int| 0 <= i < ids.len() implies elig_ids.to_set().contains(
            #[trigger] ids[i],
        ) by {
            let k = choose|k: int|
                0 <= k < scored@.len() && spec_eligible(#[trigger] scored@[k]@.section, req)
                    && scored@[k]@.section == sv[i].section && scored@[k]@.weighted_score
                    == sv[i].score as int && scored@[k]@.tokens == sv[i].tokens as int;
            let p = choose|p: int| 0 <= p < elig@.len() && elig@[p] == k;
            assert(elig_ids[p] == ids[i]);
            assert(elig_ids.contains(ids[i]));
        }
        assert(ids.to_set().subset_of(elig_ids.to_set())) by {
            assert forall|x: Seq<char>| ids.to_set().contains(x) implies elig_ids.to_set()
                .contains(x) by {
                let i = choose|i: int| 0 <= i < ids.len() && ids[i] == x;
            }
        }
        ids.unique_seq_to_set();
        elig_ids.lemma_cardinality_of_set();
        vstd::set_lib::lemma_len_subset(ids.to_set(), elig_ids.to_set());
        assert(ids.len() <= elig_ids.len());
        assert(ctx.selected@.len() == ids.len());
        lemma_count_views(scored@, req);
        // the dependency ordering, restated over views
        assert forall|i: int, d: int|
            0 <= i < sv.len() && 0 <= d < sv[i].section.depends_on.len() && elig_has_id_v(
                skv,
                req,
                #[trigger] sv[i].section.depends_on[d],
            ) implies exists|j: int| 0 <= j < i && sel_ids(sv)[j] == sv[i].section.depends_on[d] by {
            lemma_has_id_views(scored@, req, sv[i].section.depends_on[d]);
        }
        // the eligible source of each selected section, restated over views
        assert forall|i: int| 0 <= i < sv.len() implies exists|k: int|
            0 <= k < skv.len() && spec_eligible(#[trigger] skv[k].section, req) && skv[k].section
                == (#[trigger] sv[i]).section && skv[k].weighted_score == sv[i].score as int
                && skv[k].tokens == sv[i].tokens as int by {
            let k = choose|k: int|
                0 <= k < scored@.len() && spec_eligible(#[trigger] scored@[k]@.section, req)
                    && scored@[k]@.section == sv[i].section && scored@[k]@.weighted_score
                    == sv[i].score as int && scored@[k]@.tokens == sv[i].tokens as int;
            assert(skv[k] == scored@[k]@);
            assert(spec_eligible(skv[k].section, req));
        }
        // a section whose id the exclusion set holds is in conflict with
        // something selected
        assert forall|k: int|
            0 <= k < scored@.len() && ctx.excluded.deep_view().contains(
                #[trigger] scored@[k]@.section.id,
            ) implies conflict_blocked(sv, scored@[k]@.section) by {
            let i = choose|i: int|
                0 <= i < sv.len() && (#[trigger] sv[i].section.conflicts_with).contains(
                    scored@[k]@.section.id,
                );
            assert(0 <= i < sv.len() && (sv[i].section.conflicts_with.contains(
                scored@[k]@.section.id,
            ) || scored@[k]@.section.conflicts_with.contains(sv[i].section.id)));
        }
        // general progress: from the value phase
        assert forall|k: int|
            0 <= k < skv.len() && spec_eligible(#[trigger] skv[k].section, req)
                && skv[k].section.depends_on.len() == 0 && !ids.contains(skv[k].section.id)
                && !conflict_blocked(sv, skv[k].section) implies ctx.tokens_used as int
            + skv[k].tokens > budget as int || ctx.tokens_used >= budget by {
            assert(skv[k] == scored@[k]@);
        }
        // required and conditionally required sections: strict progress,
        // carried from the exits of phases one and two by monotonicity
        assert forall|k: int|
            0 <= k < skv.len() && spec_eligible(#[trigger] skv[k].section, req) && (
            is_required_cand(skv[k].section, req) || skv[k].is_conditionally_required)
                && skv[k].section.depends_on.len() == 0 && !ids.contains(skv[k].section.id)
                && !conflict_blocked(sv, skv[k].section) implies ctx.tokens_used as int
            + skv[k].tokens > budget as int by {
            assert(skv[k] == scored@[k]@);
            let s = scored@[k]@.section;
            if is_required_cand(s, req) {
                if c1.included.deep_view().contains(s.id) {
                    assert(ids.contains(s.id));
                } else if c1.excluded.deep_view().contains(s.id) {
                    assert(ctx.excluded.deep_view().contains(s.id));
                } else if conflict_blocked(sel_views(c1.selected@), s) {
                    lemma_conflict_blocked_mono(sel_views(c1.selected@), sv, s);
                } else {
                    assert(c1.tokens_used + scored@[k]@.tokens > budget);
                }
            } else {
                if c2.included.deep_view().contains(s.id) {
                    assert(ids.contains(s.id));
                } else if c2.excluded.deep_view().contains(s.id) {
                    assert(ctx.excluded.deep_view().contains(s.id));
                } else if conflict_blocked(sel_views(c2.selected@), s) {
                    lemma_conflict_blocked_mono(sel_views(c2.selected@), sv, s);
                } else {
                    assert(c2.tokens_used + scored@[k]@.tokens > budget);
                }
            }
        }
        // the first required candidate: taken in phase one from the
        // fresh state, and inclusion persists
        assert forall|k: int|
            first_required(skv, req, k) && skv[k].section.depends_on.len() == 0 && skv[k].tokens
                <= req.token_budget implies ids.contains(skv[k].section.id) by {
            assert(skv[k] == scored@[k]@);
            assert(c0.included@.len() == 0 && c0.excluded@.len() == 0 && c0.tokens_used == 0);
            assert(c1.included.deep_view().contains(scored@[k]@.section.id));
        }
    }
    let excluded_count = elig.len() - ctx.selected.len();
    let SelCtx { selected, tokens_used, included: _, excluded: _ } = ctx;
    SelectionResult { selected, tokens_used, excluded_count }
}

} // verus!
