//! Core data structures of the primer engine: the section catalog, value
//! dimensions and weights, requests and results.
//!
//! Fractional quantities are carried as scaled integers throughout: a
//! dimension weight of 15 stands for 1.5 (tenths), and a weighted score is
//! likewise expressed in tenths of a point.

use vstd::prelude::*;

use crate::strutil::lower_seq;

verus! {

/// Output format for primer rendering.
#[derive(Debug, Clone, Copy, PartialEq, Eq, Structural)]
pub enum OutputFormat {
    Markdown,
    Compact,
    Json,
}

/// The format chosen for a request string: `compact` and `json` are
/// recognised case-insensitively, anything else falls back to `Markdown`.
pub open spec fn spec_format_from(s: Seq<char>) -> OutputFormat {
    if lower_seq(s) == "compact"@ {
        OutputFormat::Compact
    } else if lower_seq(s) == "json"@ {
        OutputFormat::Json
    } else {
        OutputFormat::Markdown
    }
}

impl OutputFormat {
    pub fn from_str(s: &str) -> (r: Self)
        ensures
            r == spec_format_from(s@),
    {
        proof {
            reveal_strlit("compact");
            reveal_strlit("json");
            assert(lower_seq("compact"@) =~= "compact"@);
            assert(lower_seq("json"@) =~= "json"@);
        }
        if crate::strutil::eq_ignore_ascii(s, "compact") {
            OutputFormat::Compact
        } else if crate::strutil::eq_ignore_ascii(s, "json") {
            OutputFormat::Json
        } else {
            OutputFormat::Markdown
        }
    }
}

impl Default for OutputFormat {
    fn default() -> (r: Self)
        ensures
            r == OutputFormat::Markdown,
    {
        OutputFormat::Markdown
    }
}

/// Preset weight configurations for different use cases.
#[derive(Debug, Clone, Copy, PartialEq, Eq, Structural)]
pub enum Preset {
    Safe,
    Efficient,
    Accurate,
    Balanced,
}

/// The preset chosen for a request string: `safe`, `efficient` and
/// `accurate` are recognised case-insensitively, anything else falls back
/// to `Balanced`.
pub open spec fn spec_preset_from(s: Seq<char>) -> Preset {
    if lower_seq(s) == "safe"@ {
        Preset::Safe
    } else if lower_seq(s) == "efficient"@ {
        Preset::Efficient
    } else if lower_seq(s) == "accurate"@ {
        Preset::Accurate
    } else {
        Preset::Balanced
    }
}

impl Preset {
    pub fn from_str(s: &str) -> (r: Self)
        ensures
            r == spec_preset_from(s@),
    {
        proof {
            reveal_strlit("safe");
            reveal_strlit("efficient");
            reveal_strlit("accurate");
            assert(lower_seq("safe"@) =~= "safe"@);
            assert(lower_seq("efficient"@) =~= "efficient"@);
            assert(lower_seq("accurate"@) =~= "accurate"@);
        }
        if crate::strutil::eq_ignore_ascii(s, "safe") {
            Preset::Safe
        } else if crate::strutil::eq_ignore_ascii(s, "efficient") {
            Preset::Efficient
        } else if crate::strutil::eq_ignore_ascii(s, "accurate") {
            Preset::Accurate
        } else {
            Preset::Balanced
        }
    }

    /// The weight table of each preset, in tenths.
    pub open spec fn spec_weights(self) -> DimensionWeights {
        match self {
            Preset::Safe => DimensionWeights { safety: 25, efficiency: 8, accuracy: 10, base: 8 },
            Preset::Efficient => DimensionWeights {
                safety: 12,
                efficiency: 20,
                accuracy: 9,
                base: 8,
            },
            Preset::Accurate => DimensionWeights {
                safety: 12,
                efficiency: 9,
                accuracy: 20,
                base: 8,
            },
            Preset::Balanced => DimensionWeights {
                safety: 15,
                efficiency: 10,
                accuracy: 10,
                base: 10,
            },
        }
    }

    pub fn weights(&self) -> (r: DimensionWeights)
        ensures
            r == self.spec_weights(),
    {
        match self {
            Preset::Safe => DimensionWeights { safety: 25, efficiency: 8, accuracy: 10, base: 8 },
            Preset::Efficient => DimensionWeights {
                safety: 12,
                efficiency: 20,
                accuracy: 9,
                base: 8,
            },
            Preset::Accurate => DimensionWeights {
                safety: 12,
                efficiency: 9,
                accuracy: 20,
                base: 8,
            },
            Preset::Balanced => DimensionWeights {
                safety: 15,
                efficiency: 10,
                accuracy: 10,
                base: 10,
            },
        }
    }
}

impl Default for Preset {
    fn default() -> (r: Self)
        ensures
            r == Preset::Balanced,
    {
        Preset::Balanced
    }
}

/// Weights for multi-dimensional value calculation, in tenths:
/// a `safety` of 15 weights the safety dimension by 1.5.
#[derive(Debug, Clone, Copy, PartialEq, Eq, Structural)]
pub struct DimensionWeights {
    pub safety: u32,
    pub efficiency: u32,
    pub accuracy: u32,
    pub base: u32,
}

impl DimensionWeights {
    /// A valid catalog keeps every weight at or below 100000 tenths
    /// (a factor of ten thousand), which keeps all scores in range.
    pub open spec fn wf(self) -> bool {
        self.safety <= 100000 && self.efficiency <= 100000 && self.accuracy <= 100000
            && self.base <= 100000
    }
}

impl Default for DimensionWeights {
    /// The balanced preset: safety 1.5, the rest 1.0.
    fn default() -> (r: Self)
        ensures
            r == Preset::Balanced.spec_weights(),
    {
        DimensionWeights { safety: 15, efficiency: 10, accuracy: 10, base: 10 }
    }
}

/// Which dimension(s) a modifier adjusts.
#[derive(Debug, Clone, Copy, PartialEq, Eq, Structural)]
pub enum ModifierDimension {
    Safety,
    Efficiency,
    Accuracy,
    Base,
    All,
}

impl Default for ModifierDimension {
    fn default() -> (r: Self)
        ensures
            r == ModifierDimension::All,
    {
        ModifierDimension::All
    }
}

/// Conditional modifier that adjusts section value based on project state.
pub struct ValueModifier {
    /// Expression evaluated against project state.
    pub condition: String,
    /// Add this amount to the dimension.
    pub add: Option<i32>,
    /// Multiply the dimension by this factor, in tenths (15 stands for 1.5).
    pub multiply: Option<u32>,
    /// Override the dimension to this value.
    pub set: Option<i32>,
    /// Which dimension(s) to modify.
    pub dimension: ModifierDimension,
    /// Human-readable explanation.
    pub reason: Option<String>,
}

/// Mathematical image of a [`ValueModifier`].
pub struct ModifierView {
    pub condition: Seq<char>,
    pub add: Option<i32>,
    pub multiply: Option<u32>,
    pub set: Option<i32>,
    pub dimension: ModifierDimension,
    pub reason: Option<Seq<char>>,
}

impl View for ValueModifier {
    type V = ModifierView;

    open spec fn view(&self) -> ModifierView {
        ModifierView {
            condition: self.condition@,
            add: self.add,
            multiply: self.multiply,
            set: self.set,
            dimension: self.dimension,
            reason: match self.reason {
                Some(ref s) => Some(s@),
                None => None,
            },
        }
    }
}

impl Clone for ValueModifier {
    fn clone(&self) -> (res: Self)
        ensures
            res@ == self@,
    {
        ValueModifier {
            condition: self.condition.clone(),
            add: self.add,
            multiply: self.multiply,
            set: self.set,
            dimension: self.dimension,
            reason: clone_opt_string(&self.reason),
        }
    }
}

/// Multi-dimensional value scoring for section selection.  Dimensions
/// range over 0 to 100 in a valid catalog; modifiers may boost them.
pub struct SectionValue {
    pub safety: i32,
    pub efficiency: i32,
    pub accuracy: i32,
    pub base: i32,
    /// Dynamic modifiers based on project state.
    pub modifiers: Vec<ValueModifier>,
}

/// Mathematical image of a [`SectionValue`].
pub struct ValueView {
    pub safety: i32,
    pub efficiency: i32,
    pub accuracy: i32,
    pub base: i32,
    pub modifiers: Seq<ModifierView>,
}

impl View for SectionValue {
    type V = ValueView;

    open spec fn view(&self) -> ValueView {
        ValueView {
            safety: self.safety,
            efficiency: self.efficiency,
            accuracy: self.accuracy,
            base: self.base,
            modifiers: self.modifiers@.map_values(|m: ValueModifier| m@),
        }
    }
}

proof fn lemma_term_bound(d: int, w: int)
    requires
        -2147483648 <= d <= 2147483647,
        0 <= w <= 100000,
    ensures
        -214748364800000 <= d * w <= 214748364700000,
{
    assert(-214748364800000 <= d * w <= 214748364700000) by (nonlinear_arith)
        requires
            -2147483648 <= d <= 2147483647,
            0 <= w <= 100000,
    ;
}

/// The weighted score of a value, in tenths of a point: the sum over the
/// four dimensions of dimension times weight.
pub open spec fn spec_weighted_score(v: ValueView, w: DimensionWeights) -> int {
    v.safety * w.safety + v.efficiency * w.efficiency + v.accuracy * w.accuracy + v.base * w.base
}

impl SectionValue {
    /// Calculate the weighted score, in tenths of a point.
    pub fn weighted_score(&self, weights: &DimensionWeights) -> (r: i64)
        requires
            weights.wf(),
        ensures
            r == spec_weighted_score(self@, *weights),
    {
        proof {
            lemma_term_bound(self.safety as int, weights.safety as int);
            lemma_term_bound(self.efficiency as int, weights.efficiency as int);
            lemma_term_bound(self.accuracy as int, weights.accuracy as int);
            lemma_term_bound(self.base as int, weights.base as int);
        }
        (self.safety as i64) * (weights.safety as i64) + (self.efficiency as i64)
            * (weights.efficiency as i64) + (self.accuracy as i64) * (weights.accuracy as i64) + (
        self.base as i64) * (weights.base as i64)
    }
}

impl Clone for SectionValue {
    fn clone(&self) -> (res: Self)
        ensures
            res@ == self@,
    {
        let res = SectionValue {
            safety: self.safety,
            efficiency: self.efficiency,
            accuracy: self.accuracy,
            base: self.base,
            modifiers: clone_modifiers(&self.modifiers),
        };
        proof {
            assert(res@.modifiers =~= self@.modifiers);
        }
        res
    }
}

impl Default for SectionValue {
    fn default() -> (r: Self)
        ensures
            r.safety == 0 && r.efficiency == 0 && r.accuracy == 0 && r.base == 0,
            r@.modifiers.len() == 0,
    {
        let r = SectionValue { safety: 0, efficiency: 0, accuracy: 0, base: 0, modifiers: Vec::new() };
        proof {
            assert(r@.modifiers =~= Seq::<ModifierView>::empty());
        }
        r
    }
}

/// Token count specification: either fixed or derived from data.
#[derive(Debug, Clone, Copy, PartialEq, Eq, Structural)]
pub enum TokenCount {
    Fixed(usize),
    Dynamic,
}

impl TokenCount {
    pub fn is_dynamic(&self) -> (r: bool)
        ensures
            r == (*self is Dynamic),
    {
        match self {
            TokenCount::Dynamic => true,
            TokenCount::Fixed(_) => false,
        }
    }

    pub fn fixed_value(&self) -> (r: Option<usize>)
        ensures
            r == match *self {
                TokenCount::Fixed(n) => Some(n),
                TokenCount::Dynamic => None::<usize>,
            },
    {
        match self {
            TokenCount::Fixed(n) => Some(*n),
            TokenCount::Dynamic => None,
        }
    }
}

impl Default for TokenCount {
    fn default() -> (r: Self)
        ensures
            r == TokenCount::Fixed(30usize),
    {
        TokenCount::Fixed(30)
    }
}

/// Filter criteria of a data binding: keep only the listed values.
pub enum DataFilter {
    Include(Vec<String>),
}

/// Mathematical image of a [`DataFilter`].
pub enum FilterView {
    Include(Seq<Seq<char>>),
}

impl View for DataFilter {
    type V = FilterView;

    open spec fn view(&self) -> FilterView {
        match self {
            DataFilter::Include(v) => FilterView::Include(v.deep_view()),
        }
    }
}

impl Clone for DataFilter {
    fn clone(&self) -> (res: Self)
        ensures
            res@ == self@,
    {
        match self {
            DataFilter::Include(v) => DataFilter::Include(clone_strings(v)),
        }
    }
}

/// Sort order of a data binding.
#[derive(Debug, Clone, Copy, PartialEq, Eq, Structural)]
pub enum SortOrder {
    Asc,
    Desc,
}

impl Default for SortOrder {
    fn default() -> (r: Self)
        ensures
            r == SortOrder::Desc,
    {
        SortOrder::Desc
    }
}

/// What a data-bound section does when its data list is empty.
#[derive(Debug, Clone, Copy, PartialEq, Eq, Structural)]
pub enum EmptyBehavior {
    Exclude,
    Placeholder,
    Error,
}

impl Default for EmptyBehavior {
    fn default() -> (r: Self)
        ensures
            r == EmptyBehavior::Exclude,
    {
        EmptyBehavior::Exclude
    }
}

/// Data source configuration for dynamic sections.
pub struct SectionData {
    /// Data path, such as `cache.domains`.
    pub source: String,
    /// Fields to extract from each item.
    pub fields: Vec<String>,
    /// Filter criteria.
    pub filter: Option<DataFilter>,
    /// Field to sort by.
    pub sort_by: Option<String>,
    /// Sort order.
    pub sort_order: SortOrder,
    /// Maximum items to include.
    pub max_items: Option<usize>,
    /// Estimated tokens per item.
    pub item_tokens: Option<usize>,
    /// What to do when empty.
    pub empty_behavior: EmptyBehavior,
}

/// Mathematical image of a [`SectionData`].
pub struct DataView {
    pub source: Seq<char>,
    pub fields: Seq<Seq<char>>,
    pub filter: Option<FilterView>,
    pub sort_by: Option<Seq<char>>,
    pub sort_order: SortOrder,
    pub max_items: Option<usize>,
    pub item_tokens: Option<usize>,
    pub empty_behavior: EmptyBehavior,
}

impl View for SectionData {
    type V = DataView;

    open spec fn view(&self) -> DataView {
        DataView {
            source: self.source@,
            fields: self.fields.deep_view(),
            filter: match self.filter {
                Some(ref f) => Some(f@),
                None => None,
            },
            sort_by: match self.sort_by {
                Some(ref s) => Some(s@),
                None => None,
            },
            sort_order: self.sort_order,
            max_items: self.max_items,
            item_tokens: self.item_tokens,
            empty_behavior: self.empty_behavior,
        }
    }
}

impl Clone for SectionData {
    fn clone(&self) -> (res: Self)
        ensures
            res@ == self@,
    {
        SectionData {
            source: self.source.clone(),
            fields: clone_strings(&self.fields),
            filter: match &self.filter {
                Some(f) => Some(f.clone()),
                None => None,
            },
            sort_by: clone_opt_string(&self.sort_by),
            sort_order: self.sort_order,
            max_items: self.max_items,
            item_tokens: self.item_tokens,
            empty_behavior: self.empty_behavior,
        }
    }
}

/// Format template for rendering sections.
pub struct FormatTemplate {
    /// Template string for static sections.
    pub template: Option<String>,
    /// Header text before items, for list sections.
    pub header: Option<String>,
    /// Footer text after items.
    pub footer: Option<String>,
    /// Template for each item in a list.
    pub item_template: Option<String>,
    /// Separator between items.
    pub separator: String,
    /// Template when no items.
    pub empty_template: Option<String>,
}

/// Mathematical image of a [`FormatTemplate`].
pub struct TemplateView {
    pub template: Option<Seq<char>>,
    pub header: Option<Seq<char>>,
    pub footer: Option<Seq<char>>,
    pub item_template: Option<Seq<char>>,
    pub separator: Seq<char>,
    pub empty_template: Option<Seq<char>>,
}

impl View for FormatTemplate {
    type V = TemplateView;

    open spec fn view(&self) -> TemplateView {
        TemplateView {
            template: match self.template {
                Some(ref s) => Some(s@),
                None => None,
            },
            header: match self.header {
                Some(ref s) => Some(s@),
                None => None,
            },
            footer: match self.footer {
                Some(ref s) => Some(s@),
                None => None,
            },
            item_template: match self.item_template {
                Some(ref s) => Some(s@),
                None => None,
            },
            separator: self.separator@,
            empty_template: match self.empty_template {
                Some(ref s) => Some(s@),
                None => None,
            },
        }
    }
}

impl Clone for FormatTemplate {
    fn clone(&self) -> (res: Self)
        ensures
            res@ == self@,
    {
        FormatTemplate {
            template: clone_opt_string(&self.template),
            header: clone_opt_string(&self.header),
            footer: clone_opt_string(&self.footer),
            item_template: clone_opt_string(&self.item_template),
            separator: self.separator.clone(),
            empty_template: clone_opt_string(&self.empty_template),
        }
    }
}

impl Default for FormatTemplate {
    fn default() -> (r: Self)
        ensures
            r@.template is None && r@.header is None && r@.footer is None,
            r@.item_template is None && r@.empty_template is None,
            r@.separator.len() == 0,
    {
        FormatTemplate {
            template: None,
            header: None,
            footer: None,
            item_template: None,
            separator: String::new(),
            empty_template: None,
        }
    }
}

/// Format templates for the three output formats.
pub struct SectionFormats {
    pub markdown: Option<FormatTemplate>,
    pub compact: Option<FormatTemplate>,
    pub json: Option<FormatTemplate>,
}

/// Mathematical image of a [`SectionFormats`].
pub struct FormatsView {
    pub markdown: Option<TemplateView>,
    pub compact: Option<TemplateView>,
    pub json: Option<TemplateView>,
}

impl FormatsView {
    /// The template table entry for a format.
    pub open spec fn spec_get(self, format: OutputFormat) -> Option<TemplateView> {
        match format {
            OutputFormat::Markdown => self.markdown,
            OutputFormat::Compact => self.compact,
            OutputFormat::Json => self.json,
        }
    }
}

impl View for SectionFormats {
    type V = FormatsView;

    open spec fn view(&self) -> FormatsView {
        FormatsView {
            markdown: match self.markdown {
                Some(ref t) => Some(t@),
                None => None,
            },
            compact: match self.compact {
                Some(ref t) => Some(t@),
                None => None,
            },
            json: match self.json {
                Some(ref t) => Some(t@),
                None => None,
            },
        }
    }
}

impl SectionFormats {
    pub fn get(&self, format: OutputFormat) -> (r: Option<&FormatTemplate>)
        ensures
            match r {
                Some(t) => self@.spec_get(format) == Some(t@),
                None => self@.spec_get(format) is None,
            },
    {
        match format {
            OutputFormat::Markdown => self.markdown.as_ref(),
            OutputFormat::Compact => self.compact.as_ref(),
            OutputFormat::Json => self.json.as_ref(),
        }
    }
}

impl Clone for SectionFormats {
    fn clone(&self) -> (res: Self)
        ensures
            res@ == self@,
    {
        SectionFormats {
            markdown: match &self.markdown {
                Some(t) => Some(t.clone()),
                None => None,
            },
            compact: match &self.compact {
                Some(t) => Some(t.clone()),
                None => None,
            },
            json: match &self.json {
                Some(t) => Some(t.clone()),
                None => None,
            },
        }
    }
}

impl Default for SectionFormats {
    fn default() -> (r: Self)
        ensures
            r@.markdown is None && r@.compact is None && r@.json is None,
    {
        SectionFormats { markdown: None, compact: None, json: None }
    }
}

/// A primer section definition.
pub struct PrimerSection {
    /// Unique section identifier.
    pub id: String,
    /// Human-readable name.
    pub name: String,
    /// What this section provides.
    pub description: Option<String>,
    /// Category this section belongs to.
    pub category: String,
    /// Priority within category (lower means higher priority).
    pub priority: i32,
    /// Token cost for this section.
    pub tokens: TokenCount,
    /// Multi-dimensional value scoring.
    pub value: SectionValue,
    /// Always include regardless of budget.
    pub required: bool,
    /// Condition expression that makes this required.
    pub required_if: Option<String>,
    /// Required capabilities (any of these).
    pub capabilities: Vec<String>,
    /// Required capabilities (all of these).
    pub capabilities_all: Vec<String>,
    /// Section ids that must be included before this one.
    pub depends_on: Vec<String>,
    /// Section ids that cannot be included with this one.
    pub conflicts_with: Vec<String>,
    /// Data source for dynamic sections.
    pub data: Option<SectionData>,
    /// Format templates.
    pub formats: SectionFormats,
    /// Tags for filtering.
    pub tags: Vec<String>,
}

/// Mathematical image of a [`PrimerSection`].
pub struct SectionView {
    pub id: Seq<char>,
    pub name: Seq<char>,
    pub description: Option<Seq<char>>,
    pub category: Seq<char>,
    pub priority: i32,
    pub tokens: TokenCount,
    pub value: ValueView,
    pub required: bool,
    pub required_if: Option<Seq<char>>,
    pub capabilities: Seq<Seq<char>>,
    pub capabilities_all: Seq<Seq<char>>,
    pub depends_on: Seq<Seq<char>>,
    pub conflicts_with: Seq<Seq<char>>,
    pub data: Option<DataView>,
    pub formats: FormatsView,
    pub tags: Seq<Seq<char>>,
}

impl View for PrimerSection {
    type V = SectionView;

    open spec fn view(&self) -> SectionView {
        SectionView {
            id: self.id@,
            name: self.name@,
            description: match self.description {
                Some(ref s) => Some(s@),
                None => None,
            },
            category: self.category@,
            priority: self.priority,
            tokens: self.tokens,
            value: self.value@,
            required: self.required,
            required_if: match self.required_if {
                Some(ref s) => Some(s@),
                None => None,
            },
            capabilities: self.capabilities.deep_view(),
            capabilities_all: self.capabilities_all.deep_view(),
            depends_on: self.depends_on.deep_view(),
            conflicts_with: self.conflicts_with.deep_view(),
            data: match self.data {
                Some(ref d) => Some(d@),
                None => None,
            },
            formats: self.formats@,
            tags: self.tags.deep_view(),
        }
    }
}

impl Clone for PrimerSection {
    fn clone(&self) -> (res: Self)
        ensures
            res@ == self@,
    {
        PrimerSection {
            id: self.id.clone(),
            name: self.name.clone(),
            description: clone_opt_string(&self.description),
            category: self.category.clone(),
            priority: self.priority,
            tokens: self.tokens,
            value: self.value.clone(),
            required: self.required,
            required_if: clone_opt_string(&self.required_if),
            capabilities: clone_strings(&self.capabilities),
            capabilities_all: clone_strings(&self.capabilities_all),
            depends_on: clone_strings(&self.depends_on),
            conflicts_with: clone_strings(&self.conflicts_with),
            data: match &self.data {
                Some(d) => Some(d.clone()),
                None => None,
            },
            formats: self.formats.clone(),
            tags: clone_strings(&self.tags),
        }
    }
}

/// Parameters for primer generation.
pub struct GeneratePrimerRequest {
    /// Maximum token budget.
    pub token_budget: usize,
    /// Output format.
    pub format: OutputFormat,
    /// Preset weight configuration.
    pub preset: Preset,
    /// Available capabilities.
    pub capabilities: Vec<String>,
    /// Filter by categories.
    pub categories: Option<Vec<String>>,
    /// Filter by tags.
    pub tags: Option<Vec<String>>,
    /// Force include these section ids.
    pub force_include: Vec<String>,
}

/// Mathematical image of a [`GeneratePrimerRequest`].
pub struct RequestView {
    pub token_budget: usize,
    pub format: OutputFormat,
    pub preset: Preset,
    pub capabilities: Seq<Seq<char>>,
    pub categories: Option<Seq<Seq<char>>>,
    pub tags: Option<Seq<Seq<char>>>,
    pub force_include: Seq<Seq<char>>,
}

impl View for GeneratePrimerRequest {
    type V = RequestView;

    open spec fn view(&self) -> RequestView {
        RequestView {
            token_budget: self.token_budget,
            format: self.format,
            preset: self.preset,
            capabilities: self.capabilities.deep_view(),
            categories: match self.categories {
                Some(ref v) => Some(v.deep_view()),
                None => None,
            },
            tags: match self.tags {
                Some(ref v) => Some(v.deep_view()),
                None => None,
            },
            force_include: self.force_include.deep_view(),
        }
    }
}

/// Why a section was selected.
pub enum SelectionReason {
    Required,
    ConditionallyRequired(String),
    SafetyCritical,
    ValueOptimized,
    ForcedInclude,
    Dependency(String),
}

/// Mathematical image of a [`SelectionReason`].
pub enum ReasonView {
    Required,
    ConditionallyRequired(Seq<char>),
    SafetyCritical,
    ValueOptimized,
    ForcedInclude,
    Dependency(Seq<char>),
}

impl View for SelectionReason {
    type V = ReasonView;

    open spec fn view(&self) -> ReasonView {
        match self {
            SelectionReason::Required => ReasonView::Required,
            SelectionReason::ConditionallyRequired(s) => ReasonView::ConditionallyRequired(s@),
            SelectionReason::SafetyCritical => ReasonView::SafetyCritical,
            SelectionReason::ValueOptimized => ReasonView::ValueOptimized,
            SelectionReason::ForcedInclude => ReasonView::ForcedInclude,
            SelectionReason::Dependency(s) => ReasonView::Dependency(s@),
        }
    }
}

impl Clone for SelectionReason {
    fn clone(&self) -> (res: Self)
        ensures
            res@ == self@,
    {
        match self {
            SelectionReason::Required => SelectionReason::Required,
            SelectionReason::ConditionallyRequired(s) => SelectionReason::ConditionallyRequired(
                s.clone(),
            ),
            SelectionReason::SafetyCritical => SelectionReason::SafetyCritical,
            SelectionReason::ValueOptimized => SelectionReason::ValueOptimized,
            SelectionReason::ForcedInclude => SelectionReason::ForcedInclude,
            SelectionReason::Dependency(s) => SelectionReason::Dependency(s.clone()),
        }
    }
}

/// A section chosen by the selector.
pub struct SelectedSection {
    /// The section definition.
    pub section: PrimerSection,
    /// Calculated weighted score, in tenths of a point.
    pub score: i64,
    /// Actual token cost, after dynamic resolution.
    pub tokens: usize,
    /// Why this section was selected.
    pub selection_reason: SelectionReason,
}

/// Mathematical image of a [`SelectedSection`].
pub struct SelectedView {
    pub section: SectionView,
    pub score: i64,
    pub tokens: usize,
    pub selection_reason: ReasonView,
}

impl View for SelectedSection {
    type V = SelectedView;

    open spec fn view(&self) -> SelectedView {
        SelectedView {
            section: self.section@,
            score: self.score,
            tokens: self.tokens,
            selection_reason: self.selection_reason@,
        }
    }
}

/// Result of primer generation.
pub struct PrimerResult {
    /// Rendered primer content.
    pub content: String,
    /// Sections included.
    pub sections: Vec<SelectedSection>,
    /// Total tokens used.
    pub tokens_used: usize,
    /// Token budget of the request.
    pub token_budget: usize,
    /// Eligible sections that were not selected.
    pub excluded_count: usize,
}

/// Clones a vector of strings, preserving the view of every element.
pub fn clone_strings(v: &Vec<String>) -> (r: Vec<String>)
    ensures
        r@ == v@,
        r.deep_view() == v.deep_view(),
{
    let r = v.clone();
    proof {
        assert forall|i: int| 0 <= i < v@.len() implies r@[i] == v@[i] by {
            assert(cloned::<String>(v@[i], r@[i]));
        }
        assert(r@ =~= v@);
        assert(r.deep_view() =~= v.deep_view());
    }
    r
}

/// Clones an optional string, preserving its view.
pub fn clone_opt_string(v: &Option<String>) -> (r: Option<String>)
    ensures
        match v {
            Some(s) => r matches Some(t) && s@ == t@,
            None => r is None,
        },
{
    match v {
        Some(s) => Some(s.clone()),
        None => None,
    }
}

/// Clones a vector of modifiers, preserving the view of every element.
pub fn clone_modifiers(v: &Vec<ValueModifier>) -> (r: Vec<ValueModifier>)
    ensures
        r@.map_values(|m: ValueModifier| m@) == v@.map_values(|m: ValueModifier| m@),
{
    let mut r: Vec<ValueModifier> = Vec::new();
    let mut i: usize = 0;
    while i < v.len()
        invariant
            0 <= i <= v@.len(),
            r@.len() == i,
            forall|j: int| 0 <= j < i ==> #[trigger] r@[j]@ == v@[j]@,
        decreases v@.len() - i,
    {
        r.push(v[i].clone());
        i += 1;
    }
    proof {
        assert(r@.map_values(|m: ValueModifier| m@) =~= v@.map_values(|m: ValueModifier| m@));
    }
    r
}


/// The default request's view: budget 4000, markdown output, balanced
/// weights, the three basic capabilities, no filters.
pub open spec fn spec_default_request() -> RequestView {
    RequestView {
        token_budget: 4000,
        format: OutputFormat::Markdown,
        preset: Preset::Balanced,
        capabilities: seq!["shell"@, "file-read"@, "file-write"@],
        categories: None,
        tags: None,
        force_include: Seq::empty(),
    }
}

impl Default for GeneratePrimerRequest {
    /// The default request, as `spec_default_request` gives it.
    fn default() -> (r: Self)
        ensures
            r@ == spec_default_request(),
    {
        let mut capabilities: Vec<String> = Vec::new();
        capabilities.push(String::from_str("shell"));
        capabilities.push(String::from_str("file-read"));
        capabilities.push(String::from_str("file-write"));
        let force_include: Vec<String> = Vec::new();
        let r = GeneratePrimerRequest {
            token_budget: 4000,
            format: OutputFormat::Markdown,
            preset: Preset::Balanced,
            capabilities,
            categories: None,
            tags: None,
            force_include,
        };
        proof {
            assert(r@.capabilities =~= seq!["shell"@, "file-read"@, "file-write"@]);
            assert(r@.force_include =~= Seq::<Seq<char>>::empty());
            assert(r@ == spec_default_request());
        }
        r
    }
}

/// Category definition.
pub struct Category {
    pub id: String,
    pub name: String,
    pub description: Option<String>,
    pub priority: i32,
    pub color: Option<String>,
    pub icon: Option<String>,
    pub budget_constraints: Option<CategoryBudget>,
}

/// Budget bounds a category may declare; the percentage bounds are in
/// thousandths (permille).
#[derive(Debug, Clone, Copy, PartialEq, Eq, Structural)]
pub struct CategoryBudget {
    pub minimum: Option<usize>,
    pub maximum: Option<usize>,
    pub minimum_permille: Option<u32>,
    pub maximum_permille: Option<u32>,
}

impl Default for CategoryBudget {
    fn default() -> (r: Self)
        ensures
            r.minimum is None && r.maximum is None,
            r.minimum_permille is None && r.maximum_permille is None,
    {
        CategoryBudget { minimum: None, maximum: None, minimum_permille: None, maximum_permille: None }
    }
}

/// Capability definition.
pub struct Capability {
    pub id: String,
    pub name: String,
    pub description: Option<String>,
    pub tools: Vec<String>,
}

/// Metadata of a catalog definitions document.
pub struct PrimerMetadata {
    pub name: Option<String>,
    pub description: Option<String>,
    pub author: Option<String>,
    pub license: Option<String>,
    pub min_schema_version: Option<String>,
}

impl Default for PrimerMetadata {
    fn default() -> (r: Self)
        ensures
            r.name is None && r.description is None && r.author is None,
            r.license is None && r.min_schema_version is None,
    {
        PrimerMetadata {
            name: None,
            description: None,
            author: None,
            license: None,
            min_schema_version: None,
        }
    }
}

/// A declarative phase description of a selection strategy; informative
/// only, the engine runs its fixed four phases.
pub struct SelectionPhase {
    pub name: String,
    pub filter: PhaseFilter,
    pub sort: String,
    /// Share of the budget in thousandths (permille).
    pub budget_permille: Option<u32>,
}

/// Filter of a declarative selection phase.
pub struct PhaseFilter {
    pub required: Option<bool>,
    pub required_if: Option<bool>,
    pub safety_minimum: Option<i32>,
    pub categories: Option<Vec<String>>,
    pub tags: Option<Vec<String>>,
}

impl Default for PhaseFilter {
    fn default() -> (r: Self)
        ensures
            r.required is None && r.required_if is None && r.safety_minimum is None,
            r.categories is None && r.tags is None,
    {
        PhaseFilter {
            required: None,
            required_if: None,
            safety_minimum: None,
            categories: None,
            tags: None,
        }
    }
}

/// A declarative selection strategy; informative only.
pub struct SelectionStrategy {
    pub algorithm: String,
    pub weights: DimensionWeights,
    pub phases: Vec<SelectionPhase>,
    pub minimum_budget: usize,
    pub dynamic_modifiers_enabled: bool,
}

/// A complete catalog definitions document: capabilities, categories
/// and the section list.
pub struct PrimerDefaults {
    pub schema: Option<String>,
    pub version: String,
    pub metadata: Option<PrimerMetadata>,
    pub capabilities: Vec<Capability>,
    pub categories: Vec<Category>,
    pub sections: Vec<PrimerSection>,
    pub selection_strategy: Option<SelectionStrategy>,
}

} // verus!
