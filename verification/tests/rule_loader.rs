use kingfisher::cli::commands::rules::RuleSpecifierArgs;
use kingfisher::rule_loader::{LoadedRules, Rule, RuleLoader, RuleLoaderError};

fn test_rule(id: &str) -> Rule {
    Rule::new(id.to_string(), format!("Rule {id}"), "(?x)(test_secret)".to_string())
}

fn loaded_rules(enabled: Option<Vec<&str>>, excluded: Vec<&str>) -> LoadedRules {
    let rules = ["kingfisher.demo.1", "kingfisher.demo.2", "kingfisher.other.1"].iter().map(|id| test_rule(id)).collect();
    LoadedRules::new(
        rules,
        enabled.map(|ids| ids.into_iter().map(str::to_string).collect()),
        excluded.into_iter().map(str::to_string).collect(),
    )
}

fn resolved_ids(loaded: &LoadedRules) -> Vec<String> {
    loaded.resolve_enabled_rules().unwrap().into_iter().map(|r| r.id().to_string()).collect()
}

#[test]
fn resolves_all_rules_except_excluded_ids() {
    let loaded = loaded_rules(None, vec!["kingfisher.demo.1"]);
    let ids = resolved_ids(&loaded);

    assert_eq!(ids, vec!["kingfisher.demo.2", "kingfisher.other.1"]);
}

#[test]
fn applies_exclusions_after_enabled_selectors() {
    let loaded = loaded_rules(Some(vec!["kingfisher.demo"]), vec!["kingfisher.demo.1"]);
    let ids = resolved_ids(&loaded);

    assert_eq!(ids, vec!["kingfisher.demo.2"]);
}

#[test]
fn resolves_multiple_enabled_and_excluded_selectors() {
    let loaded = loaded_rules(
        Some(vec!["kingfisher.demo", "kingfisher.other"]),
        vec!["kingfisher.demo.1", "kingfisher.other.1"],
    );
    let ids = resolved_ids(&loaded);

    assert_eq!(ids, vec!["kingfisher.demo.2"]);
}

#[test]
fn unknown_exclusion_selector_is_an_error() {
    let loaded = loaded_rules(None, vec!["kingfisher.missing.1"]);

    assert!(loaded.resolve_enabled_rules().is_err());
}

#[test]
fn unknown_enabled_selector_names_the_selector() {
    let loaded = loaded_rules(Some(vec!["kingfisher.nope"]), vec![]);
    match loaded.resolve_enabled_rules() {
        Err(RuleLoaderError::UnknownRule(sel)) => assert_eq!(sel, "kingfisher.nope"),
        _ => panic!("expected an unknown-rule error"),
    }
}

#[test]
fn error_messages_match_their_variants() {
    assert_eq!(RuleLoaderError::BuiltinLoadError.message(), "Failed to load builtin rules");
    assert_eq!(RuleLoaderError::AdditionalPathLoadError.message(), "Failed to load rules from additional paths");
    assert_eq!(RuleLoaderError::UnknownRule("x.y".to_string()).message(), "Unknown rule: `x.y`");
}

#[test]
fn selectors_match_all_exact_ids_and_dotted_prefixes() {
    assert!(LoadedRules::selector_matches_rule("all", "kingfisher.aws.1"));
    assert!(LoadedRules::selector_matches_rule("kingfisher.aws.1", "kingfisher.aws.1"));
    assert!(LoadedRules::selector_matches_rule("kingfisher.aws", "kingfisher.aws.1"));
    assert!(LoadedRules::selector_matches_rule("kingfisher", "kingfisher.aws.1"));
    assert!(!LoadedRules::selector_matches_rule("kingfisher.aw", "kingfisher.aws.1"));
    assert!(!LoadedRules::selector_matches_rule("kingfisher.aws.1.2", "kingfisher.aws.1"));
    assert!(!LoadedRules::selector_matches_rule("", "kingfisher.aws.1"));
}

#[test]
fn each_rule_is_resolved_once_in_selector_order() {
    let loaded = loaded_rules(Some(vec!["kingfisher.other", "kingfisher", "kingfisher.demo.1"]), vec![]);
    let ids = resolved_ids(&loaded);

    assert_eq!(ids, vec!["kingfisher.other.1", "kingfisher.demo.1", "kingfisher.demo.2"]);
}

#[test]
fn table_is_ordered_by_id_and_later_rules_replace_earlier_ones() {
    let rules = vec![
        Rule::new("b.1".to_string(), "first b".to_string(), "p".to_string()),
        Rule::new("a.1".to_string(), "a".to_string(), "p".to_string()),
        Rule::new("b.1".to_string(), "second b".to_string(), "p".to_string()),
    ];
    let loaded = LoadedRules::new(rules, None, vec![]);
    assert_eq!(loaded.num_rules(), 2);
    let names: Vec<(&str, &str)> = loaded.iter_rules().iter().map(|r| (r.id(), r.name())).collect();
    assert_eq!(names, vec![("a.1", "a"), ("b.1", "second b")]);
    assert_eq!(loaded.id_to_rule().len(), 2);
}

#[test]
fn enabling_all_resets_to_every_rule() {
    let loader = RuleLoader::new().enable_rule_ids(vec!["kingfisher.demo".to_string(), "all".to_string()]);
    let loaded = loader.load(vec![test_rule("kingfisher.demo.1"), test_rule("kingfisher.other.1")], vec![]);
    assert_eq!(resolved_ids(&loaded), vec!["kingfisher.demo.1", "kingfisher.other.1"]);
}

#[test]
fn load_takes_builtins_and_custom_rules_as_configured() {
    let builtin = || vec![test_rule("kingfisher.demo.1")];
    let custom = || vec![test_rule("custom.1")];

    let only_builtin = RuleLoader::new().load(builtin(), custom());
    assert_eq!(only_builtin.num_rules(), 1);

    let both = RuleLoader::new().additional_rule_load_paths(vec!["rules/".to_string()]).load(builtin(), custom());
    assert_eq!(resolved_ids(&both), vec!["custom.1", "kingfisher.demo.1"]);

    let only_custom = RuleLoader::default()
        .load_builtins(false)
        .additional_rule_load_paths(vec!["rules/".to_string()])
        .load(builtin(), custom());
    assert_eq!(resolved_ids(&only_custom), vec!["custom.1"]);
    assert!(!RuleLoader::new().load_builtins(false).loads_builtins());
}

#[test]
fn loader_from_rule_specifiers_keeps_every_setting() {
    let specs = RuleSpecifierArgs {
        rules_path: vec!["a".to_string(), "b".to_string()],
        rule: vec!["kingfisher.demo".to_string()],
        exclude_rule: vec!["kingfisher.demo.1".to_string()],
        load_builtins: false,
    };
    let loader = RuleLoader::from_rule_specifiers(&specs);
    assert!(!loader.loads_builtins());
    assert_eq!(loader.additional_load_paths(), &vec!["a".to_string(), "b".to_string()]);
    let loaded = loader.load(vec![], vec![test_rule("kingfisher.demo.1"), test_rule("kingfisher.demo.2")]);
    assert_eq!(resolved_ids(&loaded), vec!["kingfisher.demo.2"]);
}

#[test]
fn excluded_selectors_accumulate() {
    let loader = RuleLoader::new()
        .exclude_rule_ids(vec!["kingfisher.demo.1".to_string()])
        .exclude_rule_ids(vec!["kingfisher.other".to_string()]);
    let loaded = loader.load(
        vec![test_rule("kingfisher.demo.1"), test_rule("kingfisher.demo.2"), test_rule("kingfisher.other.1")],
        vec![],
    );
    assert_eq!(resolved_ids(&loaded), vec!["kingfisher.demo.2"]);
}

#[test]
fn load_failures_name_the_source_that_failed() {
    let loader = RuleLoader::new().additional_rule_load_paths(vec!["rules/".to_string()]);
    match loader.load_sources(Err("no builtins"), Err("no files")) {
        Err((RuleLoaderError::BuiltinLoadError, cause)) => assert_eq!(cause, "no builtins"),
        _ => panic!("expected a builtin load error"),
    }
    match loader.load_sources(Ok(vec![test_rule("a.1")]), Err("no files")) {
        Err((RuleLoaderError::AdditionalPathLoadError, cause)) => assert_eq!(cause, "no files"),
        _ => panic!("expected an additional path load error"),
    }
    let loaded = loader.load_sources::<&str>(Ok(vec![test_rule("a.1")]), Ok(vec![test_rule("b.1")])).unwrap();
    assert_eq!(resolved_ids(&loaded), vec!["a.1", "b.1"]);
    let builtins_only = RuleLoader::new().load_sources(Ok(vec![test_rule("a.1")]), Err("never read")).unwrap();
    assert_eq!(builtins_only.num_rules(), 1);
    let custom_only = RuleLoader::new().load_builtins(false).load_sources(Err("never read"), Ok(vec![])).unwrap();
    assert_eq!(custom_only.num_rules(), 0);
}
