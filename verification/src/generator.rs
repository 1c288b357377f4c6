//! The generator facade: one call scores the catalog against the cache,
//! selects under the budget, renders, and packages the result.

use vstd::prelude::*;

use crate::rendering::{PrimerRenderer, spec_render};
use crate::scoring::{ScoredView, score_sections, spec_score_section};
use crate::selection::{scored_views, sel_views, select_sections, selection_post};
use crate::state::{Cache, CacheView, ProjectState, is_state_of};
use crate::types::{
    GeneratePrimerRequest, OutputFormat, Preset, PrimerDefaults, PrimerResult, PrimerSection,
    RequestView, SelectedView, spec_default_request,
};

verus! {

/// The scored views of a catalog against one state snapshot.
pub open spec fn spec_scored_catalog(
    catalog: Seq<PrimerSection>,
    state: ProjectState,
    weights: crate::types::DimensionWeights,
    modifiers_enabled: bool,
) -> Seq<ScoredView> {
    catalog.map_values(|s: PrimerSection| spec_score_section(s@, state, weights, modifiers_enabled))
}

/// Everything one generation promises: against the state snapshot
/// derived from the cache, the catalog is scored with the preset's
/// weights and modifiers enabled, the selection meets every clause of
/// `selection_post` over those scored views, the content is the
/// rendering of the selected sections, and the budget is echoed back.
pub open spec fn generate_post(
    catalog: Seq<PrimerSection>,
    cache: CacheView,
    req: RequestView,
    content: Seq<char>,
    sel: Seq<SelectedView>,
    tokens_used: int,
    budget_echo: int,
    excluded_count: int,
) -> bool {
    &&& exists|state: ProjectState|
        #[trigger] is_state_of(state, cache) && selection_post(
            spec_scored_catalog(catalog, state, req.preset.spec_weights(), true),
            req,
            sel,
            tokens_used,
            excluded_count,
        )
    &&& content == spec_render(sel, cache, req.format)
    &&& budget_echo == req.token_budget
    &&& tokens_used <= req.token_budget
}

/// Primer generation failures: the catalog document could not be
/// parsed, or a result could not be serialized.
#[derive(Debug)]
pub enum PrimerError {
    ParseDefaults(String),
    Serialize(String),
}

/// The primer generator: an immutable section catalog, applied to one
/// cache snapshot and request per call.
pub struct PrimerGenerator {
    defaults: PrimerDefaults,
}

impl PrimerGenerator {
    /// The catalog this generator was constructed with.
    pub closed spec fn spec_defaults(&self) -> PrimerDefaults {
        self.defaults
    }

    /// Creates a generator over a catalog.
    pub fn with_defaults(defaults: PrimerDefaults) -> (r: Self)
        ensures
            r.spec_defaults() == defaults,
    {
        PrimerGenerator { defaults }
    }

    /// The section definitions of the catalog.
    pub fn sections(&self) -> (r: &Vec<PrimerSection>)
        ensures
            r@ == self.spec_defaults().sections@,
    {
        &self.defaults.sections
    }

    /// The whole catalog.
    pub fn defaults(&self) -> (r: &PrimerDefaults)
        ensures
            *r == self.spec_defaults(),
    {
        &self.defaults
    }

    /// Generates a primer: scores the catalog against the cache's state
    /// snapshot, selects under the budget, and renders, as
    /// `generate_post` describes.
    pub fn generate(&self, cache: &Cache, request: &GeneratePrimerRequest) -> (r: PrimerResult)
        ensures
            generate_post(
                self.spec_defaults().sections@,
                cache@,
                request@,
                r.content@,
                sel_views(r.sections@),
                r.tokens_used as int,
                r.token_budget as int,
                r.excluded_count as int,
            ),
    {
        let state = ProjectState::from_cache(cache);
        let weights = request.preset.weights();
        proof {
            assert(weights.wf());
        }
        let scored = score_sections(&self.defaults.sections, &state, &weights, true);
        proof {
            assert(scored_views(scored@) =~= spec_scored_catalog(
                self.spec_defaults().sections@,
                state,
                request@.preset.spec_weights(),
                true,
            ));
        }
        let selection = select_sections(&scored, request);
        let renderer = PrimerRenderer::new(request.format);
        let content = match renderer.render(&selection.selected, cache) {
            Ok(c) => c,
            Err(_) => {
                // the renderer's contract rules this arm out
                String::new()
            },
        };
        proof {
            assert(is_state_of(state, cache@));
        }
        PrimerResult {
            content,
            sections: selection.selected,
            tokens_used: selection.tokens_used,
            token_budget: request.token_budget,
            excluded_count: selection.excluded_count,
        }
    }

    /// Generates a primer with the default request.
    pub fn generate_default(&self, cache: &Cache) -> (r: PrimerResult)
        ensures
            generate_post(
                self.spec_defaults().sections@,
                cache@,
                spec_default_request(),
                r.content@,
                sel_views(r.sections@),
                r.tokens_used as int,
                r.token_budget as int,
                r.excluded_count as int,
            ),
    {
        let request: GeneratePrimerRequest = Default::default();
        self.generate(cache, &request)
    }

    /// Generates a primer with a custom budget over the default request.
    pub fn generate_with_budget(&self, cache: &Cache, budget: usize) -> (r: PrimerResult)
        ensures
            generate_post(
                self.spec_defaults().sections@,
                cache@,
                RequestView { token_budget: budget, ..spec_default_request() },
                r.content@,
                sel_views(r.sections@),
                r.tokens_used as int,
                r.token_budget as int,
                r.excluded_count as int,
            ),
    {
        let mut request: GeneratePrimerRequest = Default::default();
        request.token_budget = budget;
        self.generate(cache, &request)
    }

    /// Generates a primer with a custom budget and format over the
    /// default request.
    pub fn generate_with_format(&self, cache: &Cache, budget: usize, format: OutputFormat) -> (r:
        PrimerResult)
        ensures
            generate_post(
                self.spec_defaults().sections@,
                cache@,
                RequestView { token_budget: budget, format: format, ..spec_default_request() },
                r.content@,
                sel_views(r.sections@),
                r.tokens_used as int,
                r.token_budget as int,
                r.excluded_count as int,
            ),
    {
        let mut request: GeneratePrimerRequest = Default::default();
        request.token_budget = budget;
        request.format = format;
        self.generate(cache, &request)
    }

    /// Generates a primer with a custom budget and weight preset over
    /// the default request.
    pub fn generate_with_preset(&self, cache: &Cache, budget: usize, preset: Preset) -> (r:
        PrimerResult)
        ensures
            generate_post(
                self.spec_defaults().sections@,
                cache@,
                RequestView { token_budget: budget, preset: preset, ..spec_default_request() },
                r.content@,
                sel_views(r.sections@),
                r.tokens_used as int,
                r.token_budget as int,
                r.excluded_count as int,
            ),
    {
        let mut request: GeneratePrimerRequest = Default::default();
        request.token_budget = budget;
        request.preset = preset;
        self.generate(cache, &request)
    }
}

} // verus!
