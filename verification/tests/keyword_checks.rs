use tunglang::keywords::KeywordRegistry;
use tunglang::keywords::KeywordType;
use tunglang::keywords::get_aliases_for;
use tunglang::keywords::register_keyword;
use tunglang::keywords::register_keyword_internal;
use tunglang::keywords::resolve_control_keyword;
use tunglang::keywords::resolve_function_name;
use tunglang::keywords::resolve_keyword;
use tunglang::parsing::ParserContext;
use tunglang::parsing::calculate_position;

fn sample_registry() -> KeywordRegistry {
    let mut registry = KeywordRegistry::new();
    register_keyword_internal(
        &mut registry,
        "print",
        KeywordType::Function,
        "Print values to the console",
        &vec!["print".to_string(), "tung".to_string()],
    );
    register_keyword_internal(
        &mut registry,
        "input",
        KeywordType::Function,
        "Read user input from the console",
        &vec!["input".to_string(), "sahur".to_string()],
    );
    register_keyword_internal(
        &mut registry,
        "if",
        KeywordType::Control,
        "Conditional if statement",
        &vec!["if".to_string(), "la_vaca".to_string()],
    );
    registry
}

#[test]
fn aliases_resolve_to_canonical_keywords() {
    let registry = sample_registry();
    let kw = resolve_keyword(&registry, "tung").unwrap();
    assert_eq!(kw.original_name, "print");
    assert!(matches!(kw.keyword_type, KeywordType::Function));
    assert!(resolve_keyword(&registry, "nope").is_none());
}

#[test]
fn function_names_resolve_only_function_aliases() {
    let registry = sample_registry();
    assert_eq!(resolve_function_name(&registry, "sahur"), "input");
    assert_eq!(resolve_function_name(&registry, "la_vaca"), "la_vaca");
    assert_eq!(resolve_function_name(&registry, "unknown"), "unknown");
}

#[test]
fn control_keywords_resolve_only_control_aliases() {
    let registry = sample_registry();
    assert_eq!(resolve_control_keyword(&registry, "la_vaca"), "if");
    assert_eq!(resolve_control_keyword(&registry, "tung"), "tung");
}

#[test]
fn registering_new_aliases() {
    let mut registry = sample_registry();
    register_keyword(
        &mut registry,
        "quit",
        KeywordType::Function,
        "Exit the program",
        &vec!["tralalelo".to_string()],
    )
    .unwrap();
    assert_eq!(resolve_function_name(&registry, "tralalelo"), "quit");
}

#[test]
fn alias_listing() {
    let registry = sample_registry();
    let aliases = get_aliases_for(&registry, "print");
    assert_eq!(aliases, vec!["print".to_string(), "tung".to_string()]);
    let none = get_aliases_for(&registry, "ghost");
    assert!(none.is_empty());
}

#[test]
fn rebinding_an_alias_overwrites_it() {
    let mut registry = sample_registry();
    register_keyword(
        &mut registry,
        "quit",
        KeywordType::Function,
        "Exit the program",
        &vec!["tung".to_string()],
    )
    .unwrap();
    assert_eq!(resolve_function_name(&registry, "tung"), "quit");
}

#[test]
fn source_positions() {
    let src = "ab\ncd";
    assert_eq!(calculate_position(src, 1, 1), 0);
    assert_eq!(calculate_position(src, 1, 2), 1);
    assert_eq!(calculate_position(src, 2, 1), 3);
    assert_eq!(calculate_position(src, 2, 2), 4);
    assert_eq!(calculate_position(src, 9, 1), 5);
}

#[test]
fn parser_context_holds_source() {
    let ctx = ParserContext::new("x = 1".to_string());
    assert_eq!(ctx.source, "x = 1");
}

#[test]
fn listing_keywords_by_category() {
    let registry = sample_registry();
    let functions = tunglang::keywords::list_keywords_by_type(&registry, KeywordType::Function);
    assert_eq!(functions.len(), 2);
    assert_eq!(functions[0].0, "print");
    assert_eq!(functions[0].1, vec!["print".to_string(), "tung".to_string()]);
    assert_eq!(functions[1].0, "input");
    let controls = tunglang::keywords::list_keywords_by_type(&registry, KeywordType::Control);
    assert_eq!(controls.len(), 1);
    assert_eq!(controls[0].0, "if");
    let none = tunglang::keywords::list_keywords_by_type(&registry, KeywordType::Operator);
    assert!(none.is_empty());
}
