use primer_engine::rendering::PrimerRenderer;
use primer_engine::scoring::{evaluate_condition, score_section, ScoredSection};
use primer_engine::selection::{select_sections, SelectionResult};
use primer_engine::state::{Cache, ConstraintCounts, DomainCounts, ProjectState};
use primer_engine::types::{
    DimensionWeights, FormatTemplate, GeneratePrimerRequest, ModifierDimension, OutputFormat,
    Preset, PrimerSection, SectionFormats, SectionValue, SelectionReason, TokenCount,
    ValueModifier,
};

fn create_test_state() -> ProjectState {
    ProjectState {
        constraints: ConstraintCounts {
            frozen_count: 5,
            restricted_count: 3,
            protected_count: 8,
            ..Default::default()
        },
        domains: DomainCounts {
            count: 4,
            names: vec!["auth".to_string(), "api".to_string()],
        },
        ..Default::default()
    }
}

fn plain_section(id: &str, tokens: usize, value: SectionValue) -> PrimerSection {
    PrimerSection {
        id: id.to_string(),
        name: id.to_string(),
        description: None,
        category: "test".to_string(),
        priority: 1,
        tokens: TokenCount::Fixed(tokens),
        value,
        required: false,
        required_if: None,
        capabilities: vec![],
        capabilities_all: vec![],
        depends_on: vec![],
        conflicts_with: vec![],
        data: None,
        formats: SectionFormats::default(),
        tags: vec![],
    }
}

#[test]
fn test_section_value_weighted_score() {
    let value = SectionValue {
        safety: 100,
        efficiency: 50,
        accuracy: 75,
        base: 60,
        modifiers: vec![],
    };

    let weights = DimensionWeights::default();
    let score = value.weighted_score(&weights);

    // safety: 100 * 1.5 = 150
    // efficiency: 50 * 1.0 = 50
    // accuracy: 75 * 1.0 = 75
    // base: 60 * 1.0 = 60
    // total: 335 points, carried in tenths
    assert_eq!(score, 3350);
}

#[test]
fn test_preset_weights() {
    let safe = Preset::Safe.weights();
    assert!(safe.safety > safe.efficiency);

    let efficient = Preset::Efficient.weights();
    assert!(efficient.efficiency > efficient.safety);
}

#[test]
fn test_output_format_from_str() {
    assert_eq!(OutputFormat::from_str("markdown"), OutputFormat::Markdown);
    assert_eq!(OutputFormat::from_str("COMPACT"), OutputFormat::Compact);
    assert_eq!(OutputFormat::from_str("json"), OutputFormat::Json);
    assert_eq!(OutputFormat::from_str("unknown"), OutputFormat::Markdown);
}

#[test]
fn test_evaluate_condition_greater() {
    let state = create_test_state();

    assert!(evaluate_condition("constraints.frozenCount > 0", &state));
    assert!(!evaluate_condition("constraints.frozenCount > 10", &state));
    assert!(evaluate_condition("constraints.frozenCount >= 5", &state));
    assert!(!evaluate_condition("constraints.frozenCount >= 6", &state));
}

#[test]
fn test_evaluate_condition_less() {
    let state = create_test_state();

    assert!(evaluate_condition("constraints.frozenCount < 10", &state));
    assert!(!evaluate_condition("constraints.frozenCount < 5", &state));
    assert!(evaluate_condition("constraints.frozenCount <= 5", &state));
}

#[test]
fn test_evaluate_condition_equal() {
    let state = create_test_state();

    assert!(evaluate_condition("constraints.frozenCount == 5", &state));
    assert!(!evaluate_condition("constraints.frozenCount == 6", &state));
    assert!(evaluate_condition("constraints.frozenCount != 6", &state));
}

#[test]
fn test_evaluate_condition_unknown_path() {
    let state = create_test_state();
    assert!(!evaluate_condition("unknown.path > 0", &state));
}

#[test]
fn test_score_section_with_modifiers() {
    let state = create_test_state();
    let weights = DimensionWeights::default();

    let section = plain_section(
        "test",
        20,
        SectionValue {
            safety: 50,
            efficiency: 50,
            accuracy: 50,
            base: 50,
            modifiers: vec![ValueModifier {
                condition: "constraints.frozenCount > 0".to_string(),
                add: Some(30),
                multiply: None,
                set: None,
                dimension: ModifierDimension::Safety,
                reason: Some("Has frozen files".to_string()),
            }],
        },
    );

    let scored = score_section(&section, &state, &weights, true);

    // Safety should be boosted from 50 to 80
    assert_eq!(scored.adjusted_value.safety, 80);
    // Other dimensions unchanged
    assert_eq!(scored.adjusted_value.efficiency, 50);
}

#[test]
fn test_score_section_modifier_not_applied() {
    let state = ProjectState::default(); // No frozen files
    let weights = DimensionWeights::default();

    let section = plain_section(
        "test",
        20,
        SectionValue {
            safety: 50,
            efficiency: 50,
            accuracy: 50,
            base: 50,
            modifiers: vec![ValueModifier {
                condition: "constraints.frozenCount > 0".to_string(),
                add: Some(30),
                multiply: None,
                set: None,
                dimension: ModifierDimension::Safety,
                reason: Some("Has frozen files".to_string()),
            }],
        },
    );

    let scored = score_section(&section, &state, &weights, true);

    // Modifier not applied - safety remains at 50
    assert_eq!(scored.adjusted_value.safety, 50);
}

fn create_test_section(id: &str, tokens: usize, safety: i32, required: bool) -> ScoredSection {
    let mut section = plain_section(
        id,
        tokens,
        SectionValue {
            safety,
            efficiency: 50,
            accuracy: 50,
            base: 50,
            modifiers: vec![],
        },
    );
    section.required = required;

    let weights = DimensionWeights::default();
    let weighted_score = section.value.weighted_score(&weights);

    ScoredSection {
        section,
        adjusted_value: SectionValue {
            safety,
            efficiency: 50,
            accuracy: 50,
            base: 50,
            modifiers: vec![],
        },
        weighted_score,
        value_per_token: weighted_score * 100 / tokens as i64,
        tokens,
        is_conditionally_required: false,
    }
}

fn plain_request(budget: usize) -> GeneratePrimerRequest {
    GeneratePrimerRequest {
        token_budget: budget,
        format: OutputFormat::Markdown,
        preset: Preset::Balanced,
        capabilities: vec![],
        categories: None,
        tags: None,
        force_include: vec![],
    }
}

#[test]
fn test_select_required_first() {
    let sections = vec![
        create_test_section("optional", 100, 50, false),
        create_test_section("required", 50, 50, true),
    ];

    let request = plain_request(200);

    let result = select_sections(&sections, &request);

    // Required section should be included first
    assert!(result.selected.iter().any(|s| s.section.id == "required"));
    assert!(matches!(
        result.selected[0].selection_reason,
        SelectionReason::Required
    ));
}

#[test]
fn test_select_within_budget() {
    let sections = vec![
        create_test_section("a", 100, 50, false),
        create_test_section("b", 100, 50, false),
        create_test_section("c", 100, 50, false),
    ];

    let request = plain_request(150);

    let result = select_sections(&sections, &request);

    // Should only include 1 section within budget
    assert_eq!(result.selected.len(), 1);
    assert!(result.tokens_used <= 150);
}

#[test]
fn test_safety_critical_prioritized() {
    let sections = vec![
        create_test_section("low_safety", 50, 30, false),
        create_test_section("high_safety", 50, 90, false),
    ];

    let request = plain_request(100);

    let result = select_sections(&sections, &request);

    // High safety section should be selected
    assert!(result.selected.iter().any(|s| s.section.id == "high_safety"));
}

#[test]
fn test_get_value() {
    let state = ProjectState {
        constraints: ConstraintCounts {
            frozen_count: 5,
            restricted_count: 3,
            protected_count: 8,
            ..Default::default()
        },
        domains: DomainCounts {
            count: 4,
            names: vec!["auth".to_string(), "api".to_string()],
        },
        ..Default::default()
    };

    assert_eq!(state.get_value("constraints.frozenCount"), Some(5));
    assert_eq!(state.get_value("constraints.protectedCount"), Some(8));
    assert_eq!(state.get_value("domains.count"), Some(4));
    assert_eq!(state.get_value("unknown.path"), None);
}

fn static_formats() -> SectionFormats {
    SectionFormats {
        markdown: Some(FormatTemplate {
            template: Some("This is a test section.".to_string()),
            header: None,
            footer: None,
            item_template: None,
            separator: "\n".to_string(),
            empty_template: None,
        }),
        compact: Some(FormatTemplate {
            template: Some("Test section".to_string()),
            header: None,
            footer: None,
            item_template: None,
            separator: " ".to_string(),
            empty_template: None,
        }),
        json: None,
    }
}

#[test]
fn test_render_static_section() {
    let renderer = PrimerRenderer::new(OutputFormat::Markdown);
    let cache = Cache::new();
    let mut section = plain_section("test", 20, SectionValue::default());
    section.formats = static_formats();

    let result = renderer.render_section(&section, &cache);
    assert!(result.is_ok());
    assert_eq!(result.unwrap(), "This is a test section.");
}

#[test]
fn test_render_compact_format() {
    let renderer = PrimerRenderer::new(OutputFormat::Compact);
    let cache = Cache::new();
    let mut section = plain_section("test", 20, SectionValue::default());
    section.formats = static_formats();

    let result = renderer.render_section(&section, &cache);
    assert!(result.is_ok());
    assert_eq!(result.unwrap(), "Test section");
}

#[test]
fn test_handlebars_template() {
    let renderer = PrimerRenderer::new(OutputFormat::Markdown);
    let data = vec![
        ("name".to_string(), "test-domain".to_string()),
        ("fileCount".to_string(), "42".to_string()),
    ];

    let result = renderer.render_template("**{{name}}** ({{fileCount}} files)", &data);
    assert!(result.is_ok());
    assert_eq!(result.unwrap(), "**test-domain** (42 files)");
}

fn used_tokens(result: &SelectionResult) -> usize {
    result.selected.iter().map(|s| s.tokens).sum()
}

#[test]
fn selection_tokens_add_up() {
    let sections = vec![
        create_test_section("a", 60, 50, true),
        create_test_section("b", 70, 50, false),
        create_test_section("c", 80, 50, false),
    ];
    let result = select_sections(&sections, &plain_request(140));
    assert_eq!(result.tokens_used, used_tokens(&result));
    assert!(result.tokens_used <= 140);
    assert_eq!(result.excluded_count, 3 - result.selected.len());
}
