use primer_engine::generator::PrimerGenerator;
use primer_engine::rendering::RenderError;
use primer_engine::rendering::PrimerRenderer;
use primer_engine::scoring::evaluate_condition;
use primer_engine::selection::select_sections;
use primer_engine::scoring::score_sections;
use primer_engine::state::{
    Cache, CacheStats, ConstraintCounts, DomainCounts, DomainRecord, FileRecord, ProjectState,
};
use primer_engine::types::{
    DataFilter, DimensionWeights, EmptyBehavior, FormatTemplate, GeneratePrimerRequest,
    OutputFormat, Preset, PrimerDefaults, PrimerSection, SectionData, SectionFormats,
    SectionValue, SortOrder, TokenCount,
};

fn value(safety: i32, efficiency: i32, accuracy: i32, base: i32) -> SectionValue {
    SectionValue {
        safety,
        efficiency,
        accuracy,
        base,
        modifiers: vec![],
    }
}

fn section(id: &str, tokens: usize, required: bool, v: SectionValue) -> PrimerSection {
    PrimerSection {
        id: id.to_string(),
        name: id.to_string(),
        description: None,
        category: "core".to_string(),
        priority: 1,
        tokens: TokenCount::Fixed(tokens),
        value: v,
        required,
        required_if: None,
        capabilities: vec![],
        capabilities_all: vec![],
        depends_on: vec![],
        conflicts_with: vec![],
        data: None,
        formats: formats_for(id),
        tags: vec![],
    }
}

fn formats_for(id: &str) -> SectionFormats {
    SectionFormats {
        markdown: Some(FormatTemplate {
            template: Some(format!("## {}\nA verbose body for {}.", id, id)),
            header: None,
            footer: None,
            item_template: None,
            separator: "\n".to_string(),
            empty_template: None,
        }),
        compact: Some(FormatTemplate {
            template: Some(format!("{}", id)),
            header: None,
            footer: None,
            item_template: None,
            separator: " ".to_string(),
            empty_template: None,
        }),
        json: None,
    }
}

fn request(budget: usize) -> GeneratePrimerRequest {
    GeneratePrimerRequest {
        token_budget: budget,
        format: OutputFormat::Markdown,
        preset: Preset::Balanced,
        capabilities: vec![],
        categories: None,
        tags: None,
        force_include: vec![],
    }
}

fn catalog(sections: Vec<PrimerSection>) -> PrimerDefaults {
    PrimerDefaults {
        schema: None,
        version: "1.0".to_string(),
        metadata: None,
        capabilities: vec![],
        categories: vec![],
        sections,
        selection_strategy: None,
    }
}

fn sample_cache() -> Cache {
    Cache {
        files: vec![
            FileRecord {
                path: "src/main.rs".to_string(),
                layer: Some("app".to_string()),
                language: "Rust".to_string(),
            },
            FileRecord {
                path: "src/lib.rs".to_string(),
                layer: Some("core".to_string()),
                language: "Rust".to_string(),
            },
        ],
        symbol_count: 12,
        domains: vec![
            DomainRecord {
                name: "auth".to_string(),
                files: vec!["src/main.rs".to_string()],
                description: Some("authentication".to_string()),
            },
            DomainRecord {
                name: "api".to_string(),
                files: vec!["src/lib.rs".to_string(), "src/main.rs".to_string()],
                description: None,
            },
        ],
        constraints: None,
        stats: CacheStats {
            lines: 420,
            annotation_coverage_permille: 500,
        },
    }
}

// The condition evaluator on a live and an empty snapshot, and on a
// path outside the snapshot's table.
#[test]
fn condition_evaluator_on_frozen_count() {
    let mut state = ProjectState::default();
    state.constraints = ConstraintCounts {
        frozen_count: 5,
        ..Default::default()
    };
    assert!(evaluate_condition("constraints.frozenCount > 0", &state));

    let empty = ProjectState::default();
    assert!(!evaluate_condition("constraints.frozenCount > 0", &empty));
    assert!(!evaluate_condition("unknown.path > 0", &empty));
    assert!(!evaluate_condition("unknown.path > 0", &state));
}

// The worked weighted-score example: (100, 50, 75, 60) under balanced
// weights comes to 335 points, i.e. 3350 tenths.
#[test]
fn weighted_score_example() {
    let v = value(100, 50, 75, 60);
    let w = DimensionWeights::default();
    assert_eq!(v.weighted_score(&w), 3350);
}

// One required section of 20 tokens and one high-value optional section
// of 30 tokens: with budget 60 both fit; with budget 25 only the
// required one fits and at least one eligible section is excluded.
#[test]
fn end_to_end_budget_scenarios() {
    let make = || {
        vec![
            section("required", 20, true, value(10, 10, 10, 10)),
            section("optional", 30, false, value(90, 90, 90, 90)),
        ]
    };
    let state = ProjectState::default();
    let weights = Preset::Balanced.weights();

    let scored = score_sections(&make(), &state, &weights, true);
    let result = select_sections(&scored, &request(60));
    assert!(result.selected.iter().any(|s| s.section.id == "required"));
    assert!(result.selected.iter().any(|s| s.section.id == "optional"));
    assert!(result.tokens_used <= 60);

    let scored = score_sections(&make(), &state, &weights, true);
    let result = select_sections(&scored, &request(25));
    assert!(result.selected.iter().any(|s| s.section.id == "required"));
    assert!(!result.selected.iter().any(|s| s.section.id == "optional"));
    assert!(result.excluded_count >= 1);
    assert!(result.tokens_used <= 25);
}

// A section with `required_if = "domains.count > 3"` is included when
// the snapshot holds 4 domains and left out when it holds 2.
#[test]
fn required_if_follows_domain_count() {
    let make = || {
        let mut s = section("conditional", 20, false, value(0, 0, 0, 0));
        s.required_if = Some("domains.count > 3".to_string());
        vec![s]
    };
    let weights = Preset::Balanced.weights();

    let mut state = ProjectState::default();
    state.domains = DomainCounts {
        count: 4,
        names: vec![],
    };
    let scored = score_sections(&make(), &state, &weights, true);
    assert!(scored[0].is_conditionally_required);
    let result = select_sections(&scored, &request(100));
    assert!(result.selected.iter().any(|s| s.section.id == "conditional"));

    let mut state = ProjectState::default();
    state.domains = DomainCounts {
        count: 2,
        names: vec![],
    };
    let scored = score_sections(&make(), &state, &weights, true);
    assert!(!scored[0].is_conditionally_required);
    let result = select_sections(&scored, &request(100));
    // with an all-zero value the section brings nothing, but phase four
    // still packs it greedily; what matters is that it is no longer
    // conditionally required
    assert!(result
        .selected
        .iter()
        .filter(|s| s.section.id == "conditional")
        .all(|s| !matches!(
            s.selection_reason,
            primer_engine::types::SelectionReason::ConditionallyRequired(_)
        )));
}

// The compact format of the same selection never renders longer than
// the verbose format, the catalog's templates differing only in
// verbosity.
#[test]
fn compact_is_no_longer_than_markdown() {
    let sections = vec![
        section("alpha", 20, true, value(50, 50, 50, 50)),
        section("beta", 20, true, value(50, 50, 50, 50)),
    ];
    let cache = sample_cache();
    let gen = PrimerGenerator::with_defaults(catalog(sections));

    let verbose = gen.generate_with_format(&cache, 400, OutputFormat::Markdown);
    let compact = gen.generate_with_format(&cache, 400, OutputFormat::Compact);
    assert!(!verbose.content.is_empty());
    assert!(compact.content.len() <= verbose.content.len());
}

// Running the same generation twice yields identical output.
#[test]
fn generation_is_idempotent() {
    let sections = vec![
        section("alpha", 20, true, value(50, 50, 50, 50)),
        section("beta", 30, false, value(80, 70, 60, 50)),
    ];
    let cache = sample_cache();
    let gen = PrimerGenerator::with_defaults(catalog(sections));

    let first = gen.generate_with_budget(&cache, 100);
    let second = gen.generate_with_budget(&cache, 100);
    assert_eq!(first.content, second.content);
    assert_eq!(first.tokens_used, second.tokens_used);
    assert_eq!(first.excluded_count, second.excluded_count);
}

// Dependencies are selected before their dependents; a conflict marked
// by an included section keeps the other side out.
#[test]
fn dependencies_and_conflicts() {
    let mut a = section("a", 10, true, value(50, 50, 50, 50));
    a.depends_on = vec!["b".to_string()];
    let b = section("b", 10, false, value(10, 10, 10, 10));
    let mut c = section("c", 10, true, value(50, 50, 50, 50));
    c.conflicts_with = vec!["d".to_string()];
    let d = section("d", 10, false, value(99, 99, 99, 99));

    let state = ProjectState::default();
    let weights = Preset::Balanced.weights();
    let scored = score_sections(&vec![a, b, c, d], &state, &weights, true);
    let result = select_sections(&scored, &request(100));

    let pos = |id: &str| result.selected.iter().position(|s| s.section.id == id);
    let pa = pos("a").expect("a selected");
    let pb = pos("b").expect("b selected before a");
    assert!(pb < pa);
    assert!(pos("c").is_some());
    assert!(pos("d").is_none());
    assert_eq!(result.excluded_count, 4 - result.selected.len());
}

// A dependency that cannot fit keeps its dependent out as well.
#[test]
fn missing_dependency_excludes_dependent() {
    let mut a = section("a", 10, true, value(50, 50, 50, 50));
    a.depends_on = vec!["big".to_string()];
    let big = section("big", 500, false, value(10, 10, 10, 10));

    let state = ProjectState::default();
    let weights = Preset::Balanced.weights();
    let scored = score_sections(&vec![a, big], &state, &weights, true);
    let result = select_sections(&scored, &request(50));

    assert!(result.selected.is_empty());
    assert_eq!(result.excluded_count, 2);
}

// Forced inclusion by id, with its reason recorded.
#[test]
fn force_include_by_id() {
    let s = section("extra", 10, false, value(0, 0, 0, 0));
    let state = ProjectState::default();
    let weights = Preset::Balanced.weights();
    let scored = score_sections(&vec![s], &state, &weights, true);
    let mut req = request(100);
    req.force_include = vec!["extra".to_string()];
    let result = select_sections(&scored, &req);
    assert!(matches!(
        result.selected[0].selection_reason,
        primer_engine::types::SelectionReason::ForcedInclude
    ));
}

// A data-bound section over the domain source renders each item
// through its template, sorted by file count, largest first.
#[test]
fn domain_items_render_sorted() {
    let mut s = section("domains", 10, true, value(50, 50, 50, 50));
    s.data = Some(SectionData {
        source: "cache.domains".to_string(),
        fields: vec![],
        filter: None,
        sort_by: Some("fileCount".to_string()),
        sort_order: SortOrder::Desc,
        max_items: None,
        item_tokens: None,
        empty_behavior: EmptyBehavior::Exclude,
    });
    s.formats.markdown = Some(FormatTemplate {
        template: None,
        header: Some("Domains:\n".to_string()),
        footer: None,
        item_template: Some("- {{name}} ({{fileCount}} files)".to_string()),
        separator: "\n".to_string(),
        empty_template: None,
    });
    let renderer = PrimerRenderer::new(OutputFormat::Markdown);
    let out = renderer.render_section(&s, &sample_cache()).unwrap();
    assert_eq!(out, "Domains:\n- api (2 files)\n- auth (1 files)");
}

// The empty-data policies: exclusion yields an empty contribution, the
// error policy fails that section alone.
#[test]
fn empty_data_policies() {
    let mut s = section("empty", 10, true, value(50, 50, 50, 50));
    s.data = Some(SectionData {
        source: "cache.constraints.by_lock_level".to_string(),
        fields: vec![],
        filter: Some(DataFilter::Include(vec!["frozen".to_string()])),
        sort_by: None,
        sort_order: SortOrder::Desc,
        max_items: None,
        item_tokens: None,
        empty_behavior: EmptyBehavior::Exclude,
    });
    s.formats.markdown = Some(FormatTemplate {
        template: None,
        header: Some("Constraints:".to_string()),
        footer: None,
        item_template: Some("- {{path}}".to_string()),
        separator: "\n".to_string(),
        empty_template: Some("(none)".to_string()),
    });
    let renderer = PrimerRenderer::new(OutputFormat::Markdown);
    let cache = sample_cache();

    let out = renderer.render_section(&s, &cache).unwrap();
    assert_eq!(out, "");

    if let Some(d) = s.data.as_mut() {
        d.empty_behavior = EmptyBehavior::Placeholder;
    }
    let out = renderer.render_section(&s, &cache).unwrap();
    assert_eq!(out, "(none)");

    if let Some(d) = s.data.as_mut() {
        d.empty_behavior = EmptyBehavior::Error;
    }
    let err = renderer.render_section(&s, &cache);
    assert!(matches!(err, Err(RenderError::EmptyData(_))));
}

// A section without a template for the active format fails with the
// missing-format error and is skipped in the document join.
#[test]
fn missing_format_is_skipped() {
    let mut s = section("plain", 10, true, value(50, 50, 50, 50));
    s.formats.json = None;
    let renderer = PrimerRenderer::new(OutputFormat::Json);
    let err = renderer.render_section(&s, &sample_cache());
    assert!(matches!(err, Err(RenderError::MissingFormat(OutputFormat::Json))));
}

// The generator facade end to end: content is non-empty, the budget is
// respected and echoed back.
#[test]
fn test_generate_default() {
    let sections = vec![
        section("alpha", 20, true, value(50, 50, 50, 50)),
        section("beta", 30, false, value(80, 70, 60, 50)),
    ];
    let generator = PrimerGenerator::with_defaults(catalog(sections));
    let cache = sample_cache();

    let result = generator.generate_default(&cache);

    assert!(!result.content.is_empty());
    assert!(!result.sections.is_empty());
    assert!(result.tokens_used <= result.token_budget);
}

#[test]
fn test_generate_with_budget() {
    let sections = vec![
        section("alpha", 60, true, value(50, 50, 50, 50)),
        section("beta", 70, false, value(80, 70, 60, 50)),
    ];
    let generator = PrimerGenerator::with_defaults(catalog(sections));
    let cache = sample_cache();

    let result = generator.generate_with_budget(&cache, 100);

    assert!(result.tokens_used <= 100);
}

#[test]
fn test_generate_compact_format() {
    let sections = vec![section("alpha", 20, true, value(50, 50, 50, 50))];
    let generator = PrimerGenerator::with_defaults(catalog(sections));
    let cache = sample_cache();

    let result = generator.generate_with_format(&cache, 4000, OutputFormat::Compact);

    assert!(!result.content.is_empty());
}

// The number literal side of a condition: fractions count in
// thousandths, so 4.999 is below 5 and 5.000 equals 5.
#[test]
fn condition_fractional_literals() {
    let mut state = ProjectState::default();
    state.constraints = ConstraintCounts {
        frozen_count: 5,
        ..Default::default()
    };
    assert!(evaluate_condition("constraints.frozenCount > 4.999", &state));
    assert!(evaluate_condition("constraints.frozenCount == 5.000", &state));
    assert!(!evaluate_condition("constraints.frozenCount == 5.001", &state));
    assert!(evaluate_condition("constraints.frozenCount != 5.001", &state));
    // no operator: a bare path is true when its counter is positive
    assert!(evaluate_condition("constraints.frozenCount", &state));
    assert!(!evaluate_condition("domains.count", &state));
    // malformed numbers never hold
    assert!(!evaluate_condition("constraints.frozenCount > abc", &state));
}

// Preset parsing falls back to balanced.
#[test]
fn preset_from_str_cases() {
    assert_eq!(Preset::from_str("SAFE"), Preset::Safe);
    assert_eq!(Preset::from_str("efficient"), Preset::Efficient);
    assert_eq!(Preset::from_str("Accurate"), Preset::Accurate);
    assert_eq!(Preset::from_str("anything"), Preset::Balanced);
}

// The entry-point source: well-known entry files of the cache, rendered
// with their language.
#[test]
fn entry_point_items() {
    let mut s = section("entries", 10, true, value(50, 50, 50, 50));
    s.data = Some(SectionData {
        source: "cache.entryPoints".to_string(),
        fields: vec![],
        filter: None,
        sort_by: None,
        sort_order: SortOrder::Desc,
        max_items: Some(1),
        item_tokens: None,
        empty_behavior: EmptyBehavior::Exclude,
    });
    s.formats.markdown = Some(FormatTemplate {
        template: None,
        header: None,
        footer: None,
        item_template: Some("{{path}} [{{type}}]".to_string()),
        separator: "\n".to_string(),
        empty_template: None,
    });
    let renderer = PrimerRenderer::new(OutputFormat::Markdown);
    let out = renderer.render_section(&s, &sample_cache()).unwrap();
    assert_eq!(out, "src/main.rs [Rust]");
}
