//! The category system: the built-in defaults, macro expansion over a
//! merged category map, and path normalization.

use captain_hook::roles::{
    default_categories, CategoryMap, PathNormalizer, PathPolicyConfig, RoleDefinition,
    RolesConfig,
};

fn strings(items: &[&str]) -> Vec<String> {
    items.iter().map(|s| s.to_string()).collect()
}

#[test]
fn default_categories_contains_expected_keys() {
    let cats = default_categories();
    let expected = [
        "source",
        "tests",
        "docs",
        "infra",
        "config_files",
        "devops",
        "test_config",
        "research_output",
        "architecture_output",
        "plans_output",
        "reviews_output",
        "security_reviews_output",
        "docs_output",
    ];
    for key in &expected {
        assert!(cats.contains_key(key), "missing category: {}", key);
    }
}

#[test]
fn default_categories_source_contains_src() {
    let cats = default_categories();
    let source = cats.get("source").unwrap();
    assert!(source.contains(&"src/**".to_string()));
    assert!(source.contains(&"lib/**".to_string()));
}

fn coder_config(categories: CategoryMap) -> RolesConfig {
    RolesConfig {
        categories,
        roles: vec![RoleDefinition {
            name: "coder".to_string(),
            description: "test coder".to_string(),
            paths: PathPolicyConfig {
                allow_write: strings(&["{{source}}", "{{config_files}}"]),
                deny_write: strings(&["{{tests}}"]),
                allow_read: strings(&["**"]),
            },
        }],
    }
}

#[test]
fn roles_expand_macros_over_defaults() {
    let mut config = coder_config(CategoryMap::new());
    config.expand_categories().unwrap();
    let coder = config.get_role("coder").unwrap();
    assert!(coder.paths.allow_write.contains(&"src/**".to_string()));
    assert!(coder.paths.allow_write.contains(&"lib/**".to_string()));
    assert!(coder.paths.allow_write.contains(&"Cargo.toml".to_string()));
    assert!(coder.paths.deny_write.contains(&"tests/**".to_string()));
}

#[test]
fn roles_preserve_raw_globs_alongside_macros() {
    let mut config = RolesConfig {
        categories: CategoryMap::new(),
        roles: vec![RoleDefinition {
            name: "custom".to_string(),
            description: "test".to_string(),
            paths: PathPolicyConfig {
                allow_write: strings(&["{{source}}", "custom-dir/**"]),
                deny_write: Vec::new(),
                allow_read: strings(&["**"]),
            },
        }],
    };
    config.expand_categories().unwrap();
    let custom = config.get_role("custom").unwrap();
    assert!(custom.paths.allow_write.contains(&"src/**".to_string()));
    assert!(
        custom.paths.allow_write.contains(&"custom-dir/**".to_string()),
        "raw globs should pass through unchanged"
    );
}

#[test]
fn roles_unknown_macro_is_hard_error() {
    let mut config = RolesConfig {
        categories: CategoryMap::new(),
        roles: vec![RoleDefinition {
            name: "bad".to_string(),
            description: "test".to_string(),
            paths: PathPolicyConfig {
                allow_write: strings(&["{{nonexistent_category}}"]),
                deny_write: Vec::new(),
                allow_read: strings(&["**"]),
            },
        }],
    };
    let result = config.expand_categories();
    assert!(result.is_err(), "unknown category should be a hard error");
    let err = result.err().unwrap().message();
    assert!(
        err.contains("nonexistent_category"),
        "error should mention the unknown category: {}",
        err
    );
}

#[test]
fn roles_user_categories_override_defaults() {
    let mut cats = CategoryMap::new();
    cats.push_entry("source", strings(&["app/**", "services/**"]));
    let mut config = coder_config(cats);
    config.expand_categories().unwrap();
    let coder = config.get_role("coder").unwrap();
    assert!(
        !coder.paths.allow_write.contains(&"src/**".to_string()),
        "default src/** should be overridden"
    );
    assert!(
        coder.paths.allow_write.contains(&"app/**".to_string()),
        "user override app/** should be present"
    );
    assert!(
        coder.paths.allow_write.contains(&"services/**".to_string()),
        "user override services/** should be present"
    );
}

#[test]
fn roles_empty_categories_use_defaults() {
    let mut config = coder_config(CategoryMap::new());
    config.expand_categories().unwrap();
    let coder = config.get_role("coder").unwrap();
    assert!(coder.paths.allow_write.contains(&"src/**".to_string()));
}

#[test]
fn normalizer_source_category() {
    let cats = default_categories();
    let normalizer = PathNormalizer::new(&cats).ok().unwrap();
    assert_eq!(normalizer.normalize("src/main.rs"), "source:main.rs");
    assert_eq!(normalizer.normalize("src/config/mod.rs"), "source:config/mod.rs");
    assert_eq!(normalizer.normalize("lib/utils.rs"), "source:utils.rs");
}

#[test]
fn normalizer_tests_category() {
    let cats = default_categories();
    let normalizer = PathNormalizer::new(&cats).ok().unwrap();
    assert_eq!(normalizer.normalize("tests/unit.rs"), "tests:unit.rs");
    assert_eq!(normalizer.normalize("test-fixtures/data.json"), "tests:data.json");
}

#[test]
fn normalizer_docs_specificity_ordering() {
    let cats = default_categories();
    let normalizer = PathNormalizer::new(&cats).ok().unwrap();
    assert_eq!(
        normalizer.normalize("docs/reviews/security/audit.md"),
        "security_reviews_output:audit.md"
    );
    assert_eq!(
        normalizer.normalize("docs/reviews/code-quality.md"),
        "reviews_output:code-quality.md"
    );
    assert_eq!(
        normalizer.normalize("docs/research/findings.md"),
        "research_output:findings.md"
    );
    assert_eq!(
        normalizer.normalize("docs/architecture/design.md"),
        "architecture_output:design.md"
    );
    assert_eq!(
        normalizer.normalize("docs/adr/0001-decision.md"),
        "architecture_output:0001-decision.md"
    );
    assert_eq!(normalizer.normalize("docs/plans/sprint-1.md"), "plans_output:sprint-1.md");
}

#[test]
fn normalizer_no_match_passthrough() {
    let cats = default_categories();
    let normalizer = PathNormalizer::new(&cats).ok().unwrap();
    assert_eq!(normalizer.normalize("random-file.txt"), "random-file.txt");
}

#[test]
fn normalizer_ci_category() {
    let cats = default_categories();
    let normalizer = PathNormalizer::new(&cats).ok().unwrap();
    assert_eq!(normalizer.normalize(".github/workflows/ci.yml"), "ci:workflows/ci.yml");
}

#[test]
fn normalizer_infra_category() {
    let cats = default_categories();
    let normalizer = PathNormalizer::new(&cats).ok().unwrap();
    assert_eq!(normalizer.normalize("terraform/main.tf"), "infra:main.tf");
    assert_eq!(normalizer.normalize("infra/network.tf"), "infra:network.tf");
}

#[test]
fn normalizer_file_level_patterns() {
    let cats = default_categories();
    let normalizer = PathNormalizer::new(&cats).ok().unwrap();
    let result = normalizer.normalize("Cargo.toml");
    assert!(
        result.starts_with("config_files:"),
        "Cargo.toml should match config_files category: {}",
        result
    );
}

#[test]
fn normalizer_custom_categories() {
    let mut cats = CategoryMap::new();
    cats.push_entry("mycode", strings(&["app/**", "services/**"]));
    let normalizer = PathNormalizer::new(&cats).ok().unwrap();
    assert_eq!(normalizer.normalize("app/main.rs"), "mycode:main.rs");
    assert_eq!(normalizer.normalize("services/auth/handler.rs"), "mycode:auth/handler.rs");
    assert_eq!(normalizer.normalize("src/main.rs"), "src/main.rs");
}

#[test]
fn normalizer_empty_categories() {
    let cats = CategoryMap::new();
    let normalizer = PathNormalizer::new(&cats).ok().unwrap();
    assert_eq!(normalizer.normalize("src/main.rs"), "src/main.rs");
}
