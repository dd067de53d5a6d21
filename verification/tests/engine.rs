use header_translator::config::Config;
use header_translator::model::{Statement, StrMap};
use header_translator::visit::{EntityInfo, VisitError, Visitor};

const ROOT: &str = "/sdk/System/Library/Frameworks";

fn configs_with(names: &[&str]) -> StrMap<Config> {
    let mut configs: StrMap<Config> = StrMap::new();
    for name in names {
        configs.insert(name.to_string(), Config::new(String::new()));
    }
    configs
}

fn stmt(content: &str, origin: &str) -> Statement {
    Statement::new(content.to_string(), origin.to_string())
}

fn in_foo(file: &str) -> String {
    format!("{}/Foo.framework/Headers/{}", ROOT, file)
}

#[test]
fn umbrella_then_declaration_end_to_end() {
    let configs = configs_with(&["Foo"]);
    let mut visitor = Visitor::new(&configs, ROOT.to_string());

    // The umbrella header includes Foo/Bar.h: the file "Bar" is created.
    let r = visitor.visit(
        &in_foo("Foo.h"),
        EntityInfo::Inclusion(Some("Foo/Bar.h".to_string())),
    );
    assert!(r.is_ok());

    // One declaration located in Bar.h.
    let r = visitor.visit(
        &in_foo("Bar.h"),
        EntityInfo::Declaration(vec![stmt("interface Bar", "Bar.h:10")]),
    );
    assert!(r.is_ok());

    let result = visitor.into_result();
    assert_eq!(result.len(), 1);
    let library = result.get("Foo").expect("library Foo");
    assert_eq!(library.files.len(), 1);
    let file = library.files.get("Bar").expect("file Bar");
    assert_eq!(file.statements.len(), 1);
    assert_eq!(file.statements[0].content, "interface Bar");
    // The self-named umbrella inclusion creates no "Foo" file entry.
    assert!(library.files.get("Foo").is_none());
}

#[test]
fn repeated_inclusion_is_idempotent() {
    let configs = configs_with(&["Foo"]);
    let mut visitor = Visitor::new(&configs, ROOT.to_string());
    let event = || EntityInfo::Inclusion(Some("Foo/Bar.h".to_string()));
    assert!(visitor.visit(&in_foo("Foo.h"), event()).is_ok());
    assert!(visitor.visit(&in_foo("Foo.h"), event()).is_ok());
    let result = visitor.into_result();
    let library = result.get("Foo").expect("library Foo");
    assert_eq!(library.files.len(), 1);
    assert!(library.files.get("Bar").is_some());
    assert_eq!(library.files.get("Bar").unwrap().statements.len(), 0);
}

#[test]
fn self_inclusion_creates_no_file() {
    let configs = configs_with(&["Foo"]);
    let mut visitor = Visitor::new(&configs, ROOT.to_string());
    let r = visitor.visit(
        &in_foo("Foo.h"),
        EntityInfo::Inclusion(Some("Foo/Foo.h".to_string())),
    );
    assert!(r.is_ok());
    let result = visitor.into_result();
    assert_eq!(result.get("Foo").unwrap().files.len(), 0);
}

#[test]
fn foreign_inclusion_is_ignored() {
    let configs = configs_with(&["Foo"]);
    let mut visitor = Visitor::new(&configs, ROOT.to_string());
    // An inclusion naming another framework creates nothing, even malformed.
    let r = visitor.visit(
        &in_foo("Foo.h"),
        EntityInfo::Inclusion(Some("Other".to_string())),
    );
    assert!(r.is_ok());
    let result = visitor.into_result();
    assert_eq!(result.get("Foo").unwrap().files.len(), 0);
}

#[test]
fn macro_definition_keeps_preprocessing_and_creates_nothing() {
    let configs = configs_with(&["Foo"]);
    let mut visitor = Visitor::new(&configs, ROOT.to_string());
    assert!(visitor.is_preprocessing());
    let r = visitor.visit(&in_foo("Bar.h"), EntityInfo::MacroDefinition);
    assert!(r.is_ok());
    assert!(visitor.is_preprocessing());
    let r = visitor.visit(&in_foo("Bar.h"), EntityInfo::MacroExpansion);
    assert!(r.is_ok());
    assert!(visitor.is_preprocessing());
    let result = visitor.into_result();
    assert_eq!(result.get("Foo").unwrap().files.len(), 0);
}

#[test]
fn declaration_ends_preprocessing() {
    let configs = configs_with(&["Foo"]);
    let mut visitor = Visitor::new(&configs, ROOT.to_string());
    assert!(visitor
        .visit(&in_foo("Foo.h"), EntityInfo::Inclusion(Some("Foo/Bar.h".to_string())))
        .is_ok());
    assert!(visitor.is_preprocessing());
    assert!(visitor
        .visit(&in_foo("Bar.h"), EntityInfo::Declaration(vec![stmt("a", "o")]))
        .is_ok());
    assert!(!visitor.is_preprocessing());
}

#[test]
fn declaration_for_never_included_file_is_fatal() {
    let configs = configs_with(&["Foo"]);
    let mut visitor = Visitor::new(&configs, ROOT.to_string());
    let r = visitor.visit(
        &in_foo("Bar.h"),
        EntityInfo::Declaration(vec![stmt("interface Bar", "o")]),
    );
    match r {
        Err(VisitError::MissingFile { library, file }) => {
            assert_eq!(library, "Foo");
            assert_eq!(file, "Bar");
        }
        _ => panic!("expected a missing-file violation"),
    }
}

#[test]
fn unconfigured_framework_is_skipped_entirely() {
    let configs = configs_with(&["Foo"]);
    let mut visitor = Visitor::new(&configs, ROOT.to_string());
    let path = format!("{}/Other.framework/Headers/Other.h", ROOT);
    let r = visitor.visit(&path, EntityInfo::Inclusion(Some("Other/X.h".to_string())));
    assert!(r.is_ok());
    let r = visitor.visit(&path, EntityInfo::Declaration(vec![stmt("x", "o")]));
    assert!(r.is_ok());
    let result = visitor.into_result();
    assert_eq!(result.len(), 1);
    assert_eq!(result.get("Foo").unwrap().files.len(), 0);
}

#[test]
fn libraries_are_preallocated_from_configs() {
    let configs = configs_with(&["Alpha", "Beta"]);
    let visitor = Visitor::new(&configs, ROOT.to_string());
    let result = visitor.into_result();
    assert_eq!(result.len(), 2);
    assert!(result.get("Alpha").is_some());
    assert!(result.get("Beta").is_some());
    assert!(result.get("Gamma").is_none());
}

#[test]
fn malformed_inclusion_for_own_framework_is_fatal() {
    let configs = configs_with(&["Foo"]);
    let mut visitor = Visitor::new(&configs, ROOT.to_string());
    let r = visitor.visit(&in_foo("Foo.h"), EntityInfo::Inclusion(Some("Foo".to_string())));
    assert!(matches!(r, Err(VisitError::Inclusion(_))));
    let r = visitor.visit(&in_foo("Foo.h"), EntityInfo::Inclusion(None));
    assert!(matches!(r, Err(VisitError::MissingInclusionName)));
}
