use header_translator::config::Config;
use header_translator::model::{File, Statement, StrMap};
use header_translator::validate::{compare_results, file_eq, library_eq, MismatchError};
use header_translator::visit::{EntityInfo, Visitor};

const ROOT: &str = "/sdk/System/Library/Frameworks";

fn configs_with(names: &[&str]) -> StrMap<Config> {
    let mut configs: StrMap<Config> = StrMap::new();
    for name in names {
        configs.insert(name.to_string(), Config::new(String::new()));
    }
    configs
}

fn stmt(content: &str, origin: &str) -> Statement {
    Statement::new(content.to_string(), origin.to_string())
}

fn run_one_pass(origin_tag: &str) -> StrMap<header_translator::model::Library> {
    let configs = configs_with(&["Foo", "Bar"]);
    let mut visitor = Visitor::new(&configs, ROOT.to_string());
    let foo_umbrella = format!("{}/Foo.framework/Headers/Foo.h", ROOT);
    let foo_decl = format!("{}/Foo.framework/Headers/Widget.h", ROOT);
    visitor
        .visit(&foo_umbrella, EntityInfo::Inclusion(Some("Foo/Widget.h".to_string())))
        .unwrap();
    visitor
        .visit(
            &foo_decl,
            EntityInfo::Declaration(vec![
                stmt("interface Widget", &format!("{origin_tag}:1")),
                stmt("method draw", &format!("{origin_tag}:2")),
            ]),
        )
        .unwrap();
    visitor.into_result()
}

#[test]
fn independent_equivalent_passes_compare_equal() {
    // Two passes with different diagnostic origins: the structural content
    // agrees, and origins are excluded from the comparison.
    let a = run_one_pass("x86_64");
    let b = run_one_pass("arm64");
    assert!(compare_results(&a, &b).is_ok());
}

#[test]
fn injected_statement_names_the_diverging_library() {
    let a = run_one_pass("x86_64");
    let mut visitor = {
        let configs = configs_with(&["Foo", "Bar"]);
        Visitor::new(&configs, ROOT.to_string())
    };
    let foo_umbrella = format!("{}/Foo.framework/Headers/Foo.h", ROOT);
    let foo_decl = format!("{}/Foo.framework/Headers/Widget.h", ROOT);
    visitor
        .visit(&foo_umbrella, EntityInfo::Inclusion(Some("Foo/Widget.h".to_string())))
        .unwrap();
    visitor
        .visit(
            &foo_decl,
            EntityInfo::Declaration(vec![
                stmt("interface Widget", "o:1"),
                stmt("method draw", "o:2"),
                stmt("method extra", "o:3"),
            ]),
        )
        .unwrap();
    let b = visitor.into_result();
    match compare_results(&a, &b) {
        Err(MismatchError::Divergence { library }) => assert_eq!(library, "Foo"),
        _ => panic!("expected a divergence naming Foo"),
    }
}

#[test]
fn differing_key_sets_are_their_own_error() {
    let a = run_one_pass("x86_64");
    let configs = configs_with(&["Foo"]);
    let b = Visitor::new(&configs, ROOT.to_string()).into_result();
    assert!(matches!(compare_results(&a, &b), Err(MismatchError::KeySetMismatch)));
}

#[test]
fn statement_equality_excludes_origin() {
    let a = stmt("interface Widget", "here");
    let b = stmt("interface Widget", "elsewhere");
    let c = stmt("interface Gadget", "here");
    assert!(a.same_content(&b));
    assert!(!a.same_content(&c));
}

#[test]
fn file_equality_is_ordered_statement_content() {
    let a = File { statements: vec![stmt("one", "x"), stmt("two", "y")] };
    let b = File { statements: vec![stmt("one", "p"), stmt("two", "q")] };
    let c = File { statements: vec![stmt("two", "p"), stmt("one", "q")] };
    let d = File { statements: vec![stmt("one", "p")] };
    assert!(file_eq(&a, &b));
    assert!(!file_eq(&a, &c));
    assert!(!file_eq(&a, &d));
}

#[test]
fn library_equality_is_keyed_not_ordered() {
    let mut a = header_translator::model::Library::new();
    let mut b = header_translator::model::Library::new();
    a.ensure_file("One");
    a.ensure_file("Two");
    b.ensure_file("Two");
    b.ensure_file("One");
    assert!(library_eq(&a, &b));
    let mut c = header_translator::model::Library::new();
    c.ensure_file("One");
    assert!(!library_eq(&a, &c));
}
