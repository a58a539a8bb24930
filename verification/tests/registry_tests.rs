use corbel::lang::registry::{LanguageRegistry, RegistryError};
use corbel::lang::ts::Grammar;
use corbel::path::RelPath;
use corbel::symbol::FileParser;

#[test]
fn for_extension_finds_registered_language() {
    let mut registry = LanguageRegistry::new();
    registry.register(Grammar::Rust).unwrap();

    assert!(registry.for_extension("rs").is_some());
}

#[test]
fn for_extension_returns_none_for_unregistered() {
    let registry = LanguageRegistry::new();
    assert!(registry.for_extension("rs").is_none());
}

#[test]
fn for_extension_is_case_insensitive() {
    let mut registry = LanguageRegistry::new();
    registry.register(Grammar::Rust).unwrap();

    assert!(registry.for_extension("RS").is_some());
    assert!(registry.for_extension("Rs").is_some());
}

#[test]
fn multi_extension_language_resolves_all_extensions() {
    let mut registry = LanguageRegistry::new();
    registry.register(Grammar::JavaScript).unwrap();

    assert!(registry.for_extension("js").is_some());
    assert!(registry.for_extension("jsx").is_some());
    assert!(registry.for_extension("mjs").is_some());
    assert!(registry.for_extension("cjs").is_some());
}

#[test]
fn registering_duplicate_extension_returns_error() {
    let mut registry = LanguageRegistry::new();
    registry.register(Grammar::Rust).unwrap();

    let result = registry.register(Grammar::Rust);

    assert!(matches!(
        result,
        Err(RegistryError::ExtensionAlreadyRegistered { extension }) if extension == "rs"
    ));
}

#[test]
fn registering_duplicate_extension_message_names_it() {
    let mut registry = LanguageRegistry::new();
    registry.register(Grammar::Python).unwrap();
    let err = registry.register(Grammar::Python).unwrap_err();
    assert_eq!(err.to_string(), "extension \"py\" is already registered");
}

#[test]
fn for_path_returns_none_without_extension() {
    let mut registry = LanguageRegistry::new();
    registry.register(Grammar::Rust).unwrap();

    assert!(registry.for_path("Makefile").is_none());
}

#[test]
fn for_path_resolves_extension() {
    let mut registry = LanguageRegistry::new();
    registry.register(Grammar::Rust).unwrap();

    assert!(registry.for_path("src/main.rs").is_some());
}

#[test]
fn supported_extensions_lists_all_registered() {
    let mut registry = LanguageRegistry::new();
    registry.register(Grammar::Rust).unwrap();
    registry.register(Grammar::TypeScript).unwrap();
    registry.register(Grammar::Tsx).unwrap();

    let mut extensions = registry.supported_extensions();
    extensions.sort_unstable();

    assert_eq!(extensions, vec!["rs", "ts", "tsx"]);
}

#[test]
fn with_all_languages_reads_every_builtin_extension() {
    let registry = LanguageRegistry::with_all_languages();
    assert_eq!(registry.for_extension("rs"), Some(Grammar::Rust));
    assert_eq!(registry.for_extension("py"), Some(Grammar::Python));
    assert_eq!(registry.for_extension("ts"), Some(Grammar::TypeScript));
    assert_eq!(registry.for_extension("TSX"), Some(Grammar::Tsx));
    assert_eq!(registry.for_extension("cjs"), Some(Grammar::JavaScript));
    assert_eq!(registry.for_extension("go"), None);
    assert_eq!(registry.supported_extensions().len(), 8);
}

#[test]
fn parse_of_unknown_extension_is_empty() {
    let registry = LanguageRegistry::with_all_languages();
    let parsed = registry.parse(&RelPath::from_stored("notes.txt"), "fn main() {}");
    assert!(parsed.symbols.is_empty());
    assert!(parsed.references.is_empty());
    assert!(parsed.imports.is_empty());
}

#[test]
fn parse_of_rust_file_gives_symbols_references_and_imports() {
    let registry = LanguageRegistry::with_all_languages();
    let src = "use a::b::c;\n\nfn main() {\n    helper();\n}\n\nfn helper() {}\n";
    let parsed = registry.parse(&RelPath::from_stored("src/main.rs"), src);
    assert_eq!(parsed.symbols.len(), 2);
    assert_eq!(parsed.symbols[0].name, "main");
    assert_eq!(parsed.symbols[0].line, 3);
    assert_eq!(parsed.references.len(), 1);
    assert_eq!(parsed.references[0].callee_name, "helper");
    assert_eq!(parsed.references[0].caller_name.as_deref(), Some("main"));
    assert_eq!(parsed.imports.len(), 1);
    assert_eq!(parsed.imports[0].source_path, "a::b::c");
    assert_eq!(registry.extensions().len(), 8);
}
