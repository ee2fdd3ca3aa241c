use local_agent::domain_language::{
    clean_type_for_mermaid, clean_type_for_relationship, generate_domain_language, generate_mermaid as language_mermaid,
    is_domain_source, parse_lines, sort_entities, try_parse_entity_header, try_parse_field, Entity,
};
use local_agent::domain_model::{
    extract_relationships, extract_type_name, generate_ascii, generate_mermaid, is_model_source, parse_field,
    parse_file, parse_impl_for, parse_pub_enum, parse_pub_struct, parse_pub_trait, simplify_type, TypeKind, TypeMap,
};

fn lines(text: &[&str]) -> Vec<String> {
    text.iter().map(|s| s.to_string()).collect()
}

#[test]
fn entity_headers() {
    assert_eq!(try_parse_entity_header("pub struct Foo {"), Some(("struct".to_string(), "Foo".to_string())));
    assert_eq!(try_parse_entity_header("pub enum Mode"), Some(("enum".to_string(), "Mode".to_string())));
    assert_eq!(
        try_parse_entity_header("pub trait CacheStore: Send + Sync {"),
        Some(("trait".to_string(), "CacheStore".to_string()))
    );
    assert_eq!(try_parse_entity_header("fn main() {"), None);
    assert_eq!(try_parse_entity_header("struct Private {"), None);
}

#[test]
fn field_lines() {
    let f = try_parse_field("pub name: String,", "The name.").unwrap();
    assert_eq!((f.name.as_str(), f.field_type.as_str(), f.doc.as_str()), ("name", "String", "The name."));
    let f = try_parse_field("  parts: Vec<Part<'_>>,", "d").unwrap();
    assert_eq!(f.field_type, "Vec<Part>");
    assert!(try_parse_field(": u8", "d").is_none());
    assert!(try_parse_field("no colon here", "d").is_none());
}

#[test]
fn parse_lines_reads_documented_fields() {
    let src = lines(&[
        "/// A thing.",
        "/// Second line.",
        "pub struct Thing {",
        "    /// Its id.",
        "    pub id: u64,",
        "    helper: bool,",
        "    /// Its tags.",
        "    #[serde(default)]",
        "    pub tags: Vec<String>,",
        "}",
        "",
        "pub enum Empty;",
        "pub trait Act {",
        "    /// Runs.",
        "    fn run(&self);",
        "}",
    ]);
    let entities = parse_lines(&src);
    assert_eq!(entities.len(), 3);
    let thing = &entities[0];
    assert_eq!((thing.kind.as_str(), thing.name.as_str()), ("struct", "Thing"));
    assert_eq!(thing.doc, "A thing.\nSecond line.");
    assert_eq!(thing.fields.len(), 2);
    assert_eq!((thing.fields[0].name.as_str(), thing.fields[0].field_type.as_str()), ("id", "u64"));
    assert_eq!(thing.fields[0].doc, "Its id.");
    assert_eq!((thing.fields[1].name.as_str(), thing.fields[1].field_type.as_str()), ("tags", "Vec<String>"));
    assert_eq!(entities[1].name, "Empty;");
    assert!(entities[1].fields.is_empty());
    assert_eq!(entities[2].kind, "trait");
    assert!(entities[2].fields.is_empty());
}

fn entity(kind: &str, name: &str, doc: &str) -> Entity {
    Entity { kind: kind.into(), name: name.into(), doc: doc.into(), fields: Vec::new() }
}

#[test]
fn sorting_is_stable_by_name() {
    let sorted = sort_entities(vec![
        entity("struct", "b", "1"),
        entity("enum", "a", ""),
        entity("trait", "b", "2"),
        entity("struct", "B", ""),
    ]);
    let names: Vec<(String, String)> = sorted.iter().map(|e| (e.name.clone(), e.doc.clone())).collect();
    assert_eq!(
        names,
        vec![
            ("B".to_string(), "".to_string()),
            ("a".to_string(), "".to_string()),
            ("b".to_string(), "1".to_string()),
            ("b".to_string(), "2".to_string()),
        ]
    );
}

#[test]
fn language_document_text() {
    let src = lines(&["/// A box.", "pub struct Boxed {", "    /// Inner value.", "    pub inner: Option<Item>,", "}"]);
    let entities = parse_lines(&src);
    let text = generate_domain_language(&entities);
    assert_eq!(
        text,
        "# Domain Language\n\nAuto-generated vocabulary of domain entities from source code.\n\n## Boxed\n\n**Kind:** Struct\n\nA box.\n\n### Fields\n\n| Field | Type | Description |\n| ----- | ---- | ----------- |\n| `inner` | `Option<Item>` | Inner value. |\n\n"
    );
    let empty = generate_domain_language(&vec![entity("enum", "E", "")]);
    assert_eq!(
        empty,
        "# Domain Language\n\nAuto-generated vocabulary of domain entities from source code.\n\n## E\n\n**Kind:** Enum\n\n\n"
    );
}

#[test]
fn language_diagram_text() {
    let src = lines(&[
        "/// Holds \"items\".",
        "pub struct Holder {",
        "    /// The item.",
        "    pub item: Option<Item>,",
        "}",
        "pub enum Item {",
        "}",
    ]);
    let entities = sort_entities(parse_lines(&src));
    let text = language_mermaid(&entities);
    assert_eq!(
        text,
        "```mermaid\n%% Domain Model \u{2014} auto-generated from rustdoc\nclassDiagram\n\n  class Holder {\n    Holds \\\"items\\\".\n    Item : item\n  }\n\n  class Item {\n    <<enum>>\n  }\n\n  Holder --> \"item\" Item\n```\n"
    );
}

#[test]
fn type_cleaning() {
    assert_eq!(clean_type_for_mermaid("Option<Foo>"), "Foo");
    assert_eq!(clean_type_for_mermaid("Box<dyn Bar>"), "Bar");
    assert_eq!(clean_type_for_mermaid("Box<Baz>"), "Baz");
    assert_eq!(clean_type_for_mermaid("Vec<X>"), "Vec<X>");
    assert_eq!(clean_type_for_relationship("Vec<X>"), "Vec");
    assert_eq!(clean_type_for_relationship("Option<Foo>"), "Foo");
}

#[test]
fn source_file_filters() {
    assert!(is_domain_source("supervisor.rs"));
    assert!(!is_domain_source("lib.rs"));
    assert!(!is_domain_source("main.rs"));
    assert!(!is_domain_source("bin_tool.rs"));
    assert!(is_model_source("bin_tool.rs"));
    assert!(!is_model_source("main.rs"));
}

#[test]
fn type_simplification() {
    assert_eq!(simplify_type("String"), Some("String".to_string()));
    assert_eq!(simplify_type("Vec<crate::a::B>"), Some("Vec<B>".to_string()));
    assert_eq!(simplify_type("std::collections::HashMap<String, u32>"), Some("HashMap<String, u32>".to_string()));
    assert_eq!(simplify_type("HashMap<String, u32>"), Some("HashMap".to_string()));
    assert_eq!(simplify_type("Option<Foo>;"), Some("Option<Foo>".to_string()));
    assert_eq!(simplify_type("Mutex<Option<x::Y>>"), Some("Mutex<Option<Y>>".to_string()));
    assert_eq!(simplify_type("Box<dyn Fn(u8)>"), Some("Box<dyn Fn(u8)>".to_string()));
    assert_eq!(simplify_type("Vec<"), None);
    assert_eq!(simplify_type("Vec<é"), None);
}

#[test]
fn type_targets() {
    assert_eq!(extract_type_name("Box<dyn Store>"), Some("Store".to_string()));
    assert_eq!(extract_type_name("a::B"), Some("B".to_string()));
    assert_eq!(extract_type_name("Vec<Foo>"), Some("ec<Foo".to_string()));
    assert_eq!(extract_type_name("Plain"), Some("Plain".to_string()));
}

#[test]
fn declaration_lines() {
    assert_eq!(parse_pub_struct("pub struct Config {"), Some("Config".to_string()));
    assert_eq!(parse_pub_enum("pub enum Mode{"), Some("Mode".to_string()));
    assert_eq!(parse_pub_trait("pub trait Store: Send {"), Some("Store:".to_string()));
    assert_eq!(parse_pub_struct("pub struct {"), None);
    assert_eq!(parse_impl_for("impl Store for Config {"), Some(("Store".to_string(), "Config".to_string())));
    assert_eq!(parse_impl_for("impl Config {"), None);
    let f = parse_field("pub store: Box<dyn Store>,").unwrap().unwrap();
    assert_eq!((f.name.as_str(), f.ty.as_str()), ("store", "Box<dyn Store>"));
    assert!(parse_field("// comment: here").unwrap().is_none());
    assert!(parse_field("fn go(x: u8) {").unwrap().is_none());
    assert!(parse_field("bad: Vec<").is_err());
}

fn sample() -> Vec<String> {
    lines(&[
        "#[derive(Debug, Clone, Serialize)]",
        "pub struct Config {",
        "    pub name: String,",
        "    pub store: Box<dyn Store>,",
        "}",
        "pub enum Mode {",
        "    Fast,",
        "    // note",
        "    Slow,",
        "}",
        "pub trait Store",
        "{",
        "    fn get(&self, key: &str) -> Option<String>;",
        "    fn clear(&mut self);",
        "}",
        "impl Store for Config {",
        "}",
        "pub struct Tagged {",
        "    x: u8,",
        "    #[derive(Debug, Hash, Eq)]",
        "}",
    ])
}

#[test]
fn model_parse_reads_types() {
    let mut types = TypeMap::new();
    parse_file(&sample(), "m", &mut types).unwrap();
    let all = types.types();
    let names: Vec<&str> = all.iter().map(|t| t.name.as_str()).collect();
    assert_eq!(names, vec!["Config", "Mode", "Store", "Tagged"]);
    let config = &all[0];
    assert_eq!(config.kind, TypeKind::Struct);
    assert_eq!(config.module, "m");
    assert_eq!(config.fields.len(), 2);
    assert_eq!(config.fields[1].ty, "Box<dyn Store>");
    assert_eq!(config.implements, vec!["Store".to_string()]);
    assert_eq!(all[1].variants, vec!["Fast".to_string(), "Slow".to_string()]);
    let store = &all[2];
    assert_eq!(store.kind, TypeKind::Trait);
    assert_eq!(store.fields.len(), 2);
    assert_eq!((store.fields[0].name.as_str(), store.fields[0].ty.as_str()), ("get(&self, key: &str", "Option<String>"));
    assert_eq!((store.fields[1].name.as_str(), store.fields[1].ty.as_str()), ("clear(&mut self", "()"));
    assert_eq!(all[3].implements, vec!["Hash".to_string(), "Eq".to_string()]);
}

#[test]
fn model_parse_fails_where_slicing_fails() {
    let mut types = TypeMap::new();
    assert!(parse_file(&lines(&["pub struct S {", "    a: Vec<", "}"]), "m", &mut types).is_err());
}

#[test]
fn model_outputs() {
    let mut types = TypeMap::new();
    parse_file(&sample(), "m", &mut types).unwrap();
    let rels = extract_relationships(&types).unwrap();
    assert_eq!(rels.len(), 1);
    assert_eq!(rels[0].owner, "Config");
    assert_eq!(
        rels[0].targets,
        vec![("Store".to_string(), "implements".to_string()), ("Store".to_string(), "store".to_string())]
    );
    let mermaid = generate_mermaid(&types).unwrap();
    assert!(mermaid.starts_with("%% Domain Model \u{2014} local-agent\nclassDiagram\n\n  class Config {\n    String : name\n    Box<dyn Store> : store\n  }\n\n"));
    assert!(mermaid.contains("  class Mode {\n    <<Fast>>\n    <<Slow>>\n  }\n\n"));
    assert!(mermaid.contains("  class Store {\n    <<trait>>\n    get(&self, key: &str Option<String>\n    clear(&mut self ()\n  }\n\n"));
    assert!(mermaid.ends_with("  Config ..|> \"store\" : Store\n  Config ..|> Store\n"));
    let ascii = generate_ascii(&types, &rels);
    let rule = format!("+{}+\n", "-".repeat(26));
    let row = |l: &str| format!("| {}{} |\n", l, " ".repeat(26 - l.len()));
    let expected_config = format!(
        "{rule}{}{}{}{}{}{rule}  |--implements--> Store (via .implements)\n  |--has--> Store (via .store)\n\n",
        row("Config (struct)"),
        row("module: m"),
        row("  name : String"),
        row("  store : Box<dyn Store>"),
        row("  implements: Store"),
    );
    assert_eq!(row("Config (struct)"), "| Config (struct)            |\n");
    assert!(ascii.starts_with("=================================================================\n  Domain Model \u{2014} local-agent\n=================================================================\n\n"));
    assert!(ascii.contains(&expected_config));
}

#[test]
fn ascii_pads_by_bytes() {
    let mut types = TypeMap::new();
    parse_file(&lines(&["pub enum Ünit {", "}"]), "m", &mut types).unwrap();
    let ascii = generate_ascii(&types, &Vec::new());
    assert!(ascii.contains("+--------------+\n| \u{dc}nit (enum)   |\n| module: m      |\n+--------------+\n\n"));
}

#[test]
fn model_reads_impls_only_of_known_types() {
    let mut types = TypeMap::new();
    parse_file(&lines(&["impl Store for Later {", "}", "pub struct Later {", "}"]), "m", &mut types).unwrap();
    assert!(types.types()[0].implements.is_empty());
    parse_file(&lines(&["impl Store for Later {"]), "n", &mut types).unwrap();
    assert_eq!(types.types()[0].implements, vec!["Store".to_string()]);
}

#[test]
fn model_insert_replaces_same_name() {
    let mut types = TypeMap::new();
    parse_file(&lines(&["pub struct B {", "}", "pub struct A {", "}"]), "one", &mut types).unwrap();
    parse_file(&lines(&["pub enum B {", "    X,", "}"]), "two", &mut types).unwrap();
    let all = types.types();
    assert_eq!(all.len(), 2);
    assert_eq!((all[0].name.as_str(), all[1].name.as_str()), ("A", "B"));
    assert_eq!(all[1].kind, TypeKind::Enum);
    assert_eq!(all[1].module, "two");
}
