use primer_engine::rendering::{PrimerRenderer, RenderError};
use primer_engine::scoring::score_section;
use primer_engine::state::{
    Cache, CacheStats, FileConstraint, FileRecord, LockLevel, MutationConstraint, ProjectState,
};
use primer_engine::strutil::{
    eq_ignore_ascii, find_sub, parse_milli, str_eq, str_lt, trim_str, u64_to_string,
};
use primer_engine::types::{
    DimensionWeights, EmptyBehavior, FormatTemplate, ModifierDimension, OutputFormat,
    PrimerSection, SectionData, SectionFormats, SectionValue, SortOrder, TokenCount,
    ValueModifier,
};

fn section_with(tokens: TokenCount, data: Option<SectionData>) -> PrimerSection {
    PrimerSection {
        id: "s".to_string(),
        name: "s".to_string(),
        description: None,
        category: "core".to_string(),
        priority: 1,
        tokens,
        value: SectionValue {
            safety: 10,
            efficiency: 10,
            accuracy: 10,
            base: 10,
            modifiers: vec![],
        },
        required: false,
        required_if: None,
        capabilities: vec![],
        capabilities_all: vec![],
        depends_on: vec![],
        conflicts_with: vec![],
        data,
        formats: SectionFormats::default(),
        tags: vec![],
    }
}

// A dynamic section costs 15 plus item count times the per-item
// estimate, with the item count looked up by source and capped.
#[test]
fn dynamic_token_cost_formula() {
    let mut state = ProjectState::default();
    state.domains.count = 4;
    let weights = DimensionWeights::default();

    let data = SectionData {
        source: "cache.domains".to_string(),
        fields: vec![],
        filter: None,
        sort_by: None,
        sort_order: SortOrder::Desc,
        max_items: Some(3),
        item_tokens: Some(7),
        empty_behavior: EmptyBehavior::Exclude,
    };
    let s = section_with(TokenCount::Dynamic, Some(data));
    let scored = score_section(&s, &state, &weights, true);
    // min(4, 3) items at 7 tokens each, over the base of 15
    assert_eq!(scored.tokens, 15 + 3 * 7);

    // an unknown source estimates five items of ten tokens
    let data = SectionData {
        source: "elsewhere".to_string(),
        fields: vec![],
        filter: None,
        sort_by: None,
        sort_order: SortOrder::Desc,
        max_items: None,
        item_tokens: None,
        empty_behavior: EmptyBehavior::Exclude,
    };
    let s = section_with(TokenCount::Dynamic, Some(data));
    let scored = score_section(&s, &state, &weights, true);
    assert_eq!(scored.tokens, 15 + 5 * 10);

    // a dynamic section without a data binding estimates 30
    let s = section_with(TokenCount::Dynamic, None);
    let scored = score_section(&s, &state, &weights, true);
    assert_eq!(scored.tokens, 30);

    // value per token in thousandths of a point: 60 points over 30 tokens
    assert_eq!(scored.weighted_score, 450);
    assert_eq!(scored.value_per_token, 450 * 100 / 30);
}

// Modifiers apply add, then multiply (in tenths), then set.
#[test]
fn modifier_order_add_multiply_set() {
    let state = ProjectState::default();
    let weights = DimensionWeights::default();
    let mut s = section_with(TokenCount::Fixed(10), None);
    s.value.modifiers = vec![ValueModifier {
        // a bare known path with value zero is false, so make one true:
        condition: "stats.fileCount >= 0".to_string(),
        add: Some(300),
        multiply: Some(15),
        set: None,
        dimension: ModifierDimension::Base,
        reason: None,
    }];
    let scored = score_section(&s, &state, &weights, true);
    // base 10 + 300 clamps to 200, then times 1.5 gives 300
    assert_eq!(scored.adjusted_value.base, 300);

    s.value.modifiers[0].set = Some(42);
    let scored = score_section(&s, &state, &weights, true);
    assert_eq!(scored.adjusted_value.base, 42);

    // disabled modifiers leave the value alone
    let scored = score_section(&s, &state, &weights, false);
    assert_eq!(scored.adjusted_value.base, 10);
}

// An unusable template fails that section with a template error.
#[test]
fn broken_template_fails_section() {
    let renderer = PrimerRenderer::new(OutputFormat::Markdown);
    let data = vec![("name".to_string(), "x".to_string())];
    let result = renderer.render_template("{{#each}}", &data);
    assert!(matches!(result, Err(RenderError::Template(_))));
}

// Constraint classification when deriving state from the cache.
#[test]
fn from_cache_counts_constraints() {
    let mk = |path: &str, level: Option<LockLevel>| FileConstraint {
        path: path.to_string(),
        mutation: level.map(|l| MutationConstraint {
            level: l,
            reason: None,
        }),
    };
    let cache = Cache {
        files: vec![
            FileRecord {
                path: "a.rs".to_string(),
                layer: Some("core".to_string()),
                language: "Rust".to_string(),
            },
            FileRecord {
                path: "b.rs".to_string(),
                layer: Some("core".to_string()),
                language: "Rust".to_string(),
            },
            FileRecord {
                path: "c.rs".to_string(),
                layer: Some("app".to_string()),
                language: "Rust".to_string(),
            },
            FileRecord {
                path: "d.md".to_string(),
                layer: None,
                language: "Markdown".to_string(),
            },
        ],
        symbol_count: 9,
        domains: vec![],
        constraints: Some(vec![
            mk("a.rs", Some(LockLevel::Frozen)),
            mk("b.rs", Some(LockLevel::Frozen)),
            mk("c.rs", Some(LockLevel::Restricted)),
            mk("d.md", Some(LockLevel::ApprovalRequired)),
            mk("e.rs", Some(LockLevel::TestsRequired)),
            mk("f.rs", Some(LockLevel::DocsRequired)),
            mk("g.rs", Some(LockLevel::Normal)),
            mk("h.rs", None),
        ]),
        stats: CacheStats {
            lines: 100,
            annotation_coverage_permille: 250,
        },
    };
    let state = ProjectState::from_cache(&cache);
    assert_eq!(state.constraints.frozen_count, 2);
    assert_eq!(state.constraints.restricted_count, 1);
    assert_eq!(state.constraints.approval_count, 1);
    assert_eq!(state.constraints.tests_required_count, 1);
    assert_eq!(state.constraints.docs_required_count, 1);
    assert_eq!(state.constraints.protected_count, 3);
    assert_eq!(state.constraints.total_count, 8);
    assert_eq!(state.layers.count, 2);
    assert_eq!(state.layers.names, vec!["core".to_string(), "app".to_string()]);
    assert_eq!(state.stats.file_count, 4);
    assert_eq!(state.stats.symbol_count, 9);
    assert_eq!(state.stats.line_count, 100);

    let state = state.with_variable_count(6).with_attempts(2, 5);
    assert_eq!(state.get_value("variables.count"), Some(6));
    assert_eq!(state.get_value("attempts.activeCount"), Some(2));
    assert_eq!(state.get_value("attempts.totalCount"), Some(5));
}

// The string helpers behind condition parsing and rendering.
#[test]
fn string_helpers() {
    assert!(str_eq("abc", "abc"));
    assert!(!str_eq("abc", "abd"));
    assert!(!str_eq("abc", "ab"));

    assert_eq!(find_sub("path >= 3", " >= "), Some(4));
    assert_eq!(find_sub("path >= 3", " <= "), None);

    assert_eq!(trim_str("  spaced out \t"), "spaced out");
    assert_eq!(trim_str("   "), "");
    assert_eq!(trim_str("solid"), "solid");

    assert!(eq_ignore_ascii("Compact", "compact"));
    assert!(!eq_ignore_ascii("Compact", "compact!"));

    assert!(str_lt("abc", "abd"));
    assert!(str_lt("ab", "abc"));
    assert!(!str_lt("b", "abc"));

    assert_eq!(u64_to_string(0), "0");
    assert_eq!(u64_to_string(907), "907");
    assert_eq!(u64_to_string(18446744073709551615), "18446744073709551615");

    assert_eq!(parse_milli("5"), Some(5000));
    assert_eq!(parse_milli("-2.5"), Some(-2500));
    assert_eq!(parse_milli("+0.75"), Some(750));
    assert_eq!(parse_milli(".5"), Some(500));
    assert_eq!(parse_milli("1.2345"), Some(1234));
    assert_eq!(parse_milli(""), None);
    assert_eq!(parse_milli("abc"), None);
    assert_eq!(parse_milli("1."), None);
    assert_eq!(parse_milli("1.2.3"), None);
}

// Token count accessors and defaults.
#[test]
fn token_count_accessors() {
    assert!(TokenCount::Dynamic.is_dynamic());
    assert!(!TokenCount::Fixed(7).is_dynamic());
    assert_eq!(TokenCount::Fixed(7).fixed_value(), Some(7));
    assert_eq!(TokenCount::Dynamic.fixed_value(), None);
    assert_eq!(TokenCount::default(), TokenCount::Fixed(30));
    assert_eq!(OutputFormat::default(), OutputFormat::Markdown);

    let formats = SectionFormats {
        markdown: Some(FormatTemplate::default()),
        compact: None,
        json: None,
    };
    assert!(formats.get(OutputFormat::Markdown).is_some());
    assert!(formats.get(OutputFormat::Compact).is_none());
}
