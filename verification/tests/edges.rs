use primer_engine::rendering::PrimerRenderer;
use primer_engine::scoring::score_sections;
use primer_engine::selection::select_sections;
use primer_engine::state::{Cache, DomainRecord, ProjectState};
use primer_engine::types::{
    EmptyBehavior, FormatTemplate, GeneratePrimerRequest, OutputFormat, Preset, PrimerSection,
    SectionData, SectionFormats, SectionValue, SortOrder, TokenCount,
};

fn section(id: &str, tokens: usize, required: bool) -> PrimerSection {
    PrimerSection {
        id: id.to_string(),
        name: id.to_string(),
        description: None,
        category: "core".to_string(),
        priority: 1,
        tokens: TokenCount::Fixed(tokens),
        value: SectionValue {
            safety: 50,
            efficiency: 50,
            accuracy: 50,
            base: 50,
            modifiers: vec![],
        },
        required,
        required_if: None,
        capabilities: vec![],
        capabilities_all: vec![],
        depends_on: vec![],
        conflicts_with: vec![],
        data: None,
        formats: SectionFormats::default(),
        tags: vec![],
    }
}

fn request(budget: usize) -> GeneratePrimerRequest {
    GeneratePrimerRequest {
        token_budget: budget,
        format: OutputFormat::Markdown,
        preset: Preset::Balanced,
        capabilities: vec![],
        categories: None,
        tags: None,
        force_include: vec![],
    }
}

fn scored(
    sections: Vec<PrimerSection>,
) -> Vec<primer_engine::scoring::ScoredSection> {
    let state = ProjectState::default();
    let weights = Preset::Balanced.weights();
    score_sections(&sections, &state, &weights, true)
}

// An empty catalog selects nothing and excludes nothing.
#[test]
fn empty_catalog() {
    let result = select_sections(&scored(vec![]), &request(100));
    assert!(result.selected.is_empty());
    assert_eq!(result.tokens_used, 0);
    assert_eq!(result.excluded_count, 0);
}

// A zero budget admits only zero-cost sections.
#[test]
fn zero_budget() {
    let result = select_sections(
        &scored(vec![section("a", 10, true), section("free", 0, false)]),
        &request(0),
    );
    assert_eq!(result.tokens_used, 0);
    assert!(!result.selected.iter().any(|s| s.section.id == "a"));
}

// An impossible budget silently omits required sections rather than
// erroring.
#[test]
fn impossible_budget_omits_required() {
    let result = select_sections(&scored(vec![section("a", 100, true)]), &request(50));
    assert!(result.selected.is_empty());
    assert_eq!(result.excluded_count, 1);
}

// An all-of capability set takes precedence over an any-of set.
#[test]
fn capability_filters() {
    let mut any = section("any", 10, true);
    any.capabilities = vec!["x".to_string(), "y".to_string()];
    let mut all = section("all", 10, true);
    all.capabilities_all = vec!["x".to_string(), "y".to_string()];
    let mut both = section("both", 10, true);
    both.capabilities = vec!["x".to_string()];
    both.capabilities_all = vec!["x".to_string(), "y".to_string()];
    let free = section("free", 10, true);

    let mut req = request(100);
    req.capabilities = vec!["x".to_string()];
    let result = select_sections(&scored(vec![any, all, both, free]), &req);
    let has = |id: &str| result.selected.iter().any(|s| s.section.id == id);
    assert!(has("any"));
    assert!(!has("all"));
    // the all-of set wins over the satisfied any-of set
    assert!(!has("both"));
    assert!(has("free"));
}

// Category and tag allow-lists restrict eligibility.
#[test]
fn category_and_tag_filters() {
    let mut a = section("a", 10, true);
    a.category = "docs".to_string();
    let b = section("b", 10, true);
    let mut c = section("c", 10, true);
    c.tags = vec!["hot".to_string()];

    let mut req = request(100);
    req.categories = Some(vec!["core".to_string()]);
    let result = select_sections(&scored(vec![a.clone(), b.clone(), c.clone()]), &req);
    let has = |r: &primer_engine::selection::SelectionResult, id: &str| {
        r.selected.iter().any(|s| s.section.id == id)
    };
    assert!(!has(&result, "a"));
    assert!(has(&result, "b"));

    let mut req = request(100);
    req.tags = Some(vec!["hot".to_string()]);
    let result = select_sections(&scored(vec![a, b, c]), &req);
    assert!(!has(&result, "b"));
    assert!(has(&result, "c"));
}

// Items with equal sort keys keep their arrival order.
#[test]
fn stable_sort_on_equal_keys() {
    let cache = Cache {
        files: vec![],
        symbol_count: 0,
        domains: vec![
            DomainRecord {
                name: "first".to_string(),
                files: vec!["f".to_string()],
                description: None,
            },
            DomainRecord {
                name: "second".to_string(),
                files: vec!["g".to_string()],
                description: None,
            },
        ],
        constraints: None,
        stats: primer_engine::state::CacheStats {
            lines: 0,
            annotation_coverage_permille: 0,
        },
    };
    let mut s = section("domains", 10, true);
    s.data = Some(SectionData {
        source: "cache.domains".to_string(),
        fields: vec![],
        filter: None,
        sort_by: Some("fileCount".to_string()),
        sort_order: SortOrder::Desc,
        max_items: Some(1),
        item_tokens: None,
        empty_behavior: EmptyBehavior::Exclude,
    });
    s.formats.markdown = Some(FormatTemplate {
        template: None,
        header: None,
        footer: None,
        item_template: Some("{{name}}".to_string()),
        separator: ", ".to_string(),
        empty_template: None,
    });
    let renderer = PrimerRenderer::new(OutputFormat::Markdown);
    let out = renderer.render_section(&s, &cache).unwrap();
    // equal file counts: the first domain keeps its place, the cap drops
    // the second
    assert_eq!(out, "first");
}

// The structured format wraps the joined sections in array brackets.
#[test]
fn json_format_wraps_output() {
    let mut a = section("a", 10, true);
    a.formats.json = Some(FormatTemplate {
        template: Some("{\"id\": \"a\"}".to_string()),
        header: None,
        footer: None,
        item_template: None,
        separator: "\n".to_string(),
        empty_template: None,
    });
    let mut b = section("b", 10, true);
    b.formats.json = Some(FormatTemplate {
        template: Some("{\"id\": \"b\"}".to_string()),
        header: None,
        footer: None,
        item_template: None,
        separator: "\n".to_string(),
        empty_template: None,
    });
    let renderer = PrimerRenderer::new(OutputFormat::Json);
    let sections = scored(vec![a, b]);
    let result = select_sections(&sections, &request(100));
    let out = renderer.render(&result.selected, &Cache::new()).unwrap();
    assert_eq!(out, "[\n{\"id\": \"a\"},\n{\"id\": \"b\"}\n]");
}

// A section that renders to the empty string adds no stray separator.
#[test]
fn empty_contribution_adds_no_separator() {
    let mut a = section("a", 10, true);
    a.formats.markdown = Some(FormatTemplate {
        template: Some("body-a".to_string()),
        header: None,
        footer: None,
        item_template: None,
        separator: "\n".to_string(),
        empty_template: None,
    });
    let mut empty = section("empty", 10, true);
    empty.formats.markdown = Some(FormatTemplate {
        template: None,
        header: None,
        footer: None,
        item_template: None,
        separator: "\n".to_string(),
        empty_template: None,
    });
    let mut b = section("b", 10, true);
    b.formats.markdown = Some(FormatTemplate {
        template: Some("body-b".to_string()),
        header: None,
        footer: None,
        item_template: None,
        separator: "\n".to_string(),
        empty_template: None,
    });
    let renderer = PrimerRenderer::new(OutputFormat::Markdown);
    let sections = scored(vec![a, empty, b]);
    let result = select_sections(&sections, &request(100));
    let out = renderer.render(&result.selected, &Cache::new()).unwrap();
    assert_eq!(out, "body-a\n\nbody-b");
}
