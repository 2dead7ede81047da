use constant_sandbox::namespace::{join_with, split};
use constant_sandbox::parser::{ruby_file, Definition, ExtractError, Relation, RubyFile, SyntaxNode};

fn constant(scope: Option<SyntaxNode>, name: &str, line: usize) -> SyntaxNode {
    SyntaxNode::Const { scope: scope.map(Box::new), name: String::from(name), line: Some(line) }
}

fn module(name: &str, begin: usize, end: usize, body: Option<SyntaxNode>) -> SyntaxNode {
    SyntaxNode::Module {
        name: Box::new(constant(None, name, 0)),
        keyword_begin: begin,
        end_end: end,
        body: body.map(Box::new),
    }
}

fn class(name: &str, superclass: Option<SyntaxNode>, body: Option<SyntaxNode>) -> SyntaxNode {
    SyntaxNode::Class {
        name: Box::new(constant(None, name, 0)),
        keyword_begin: 0,
        end_end: 0,
        superclass: superclass.map(Box::new),
        body: body.map(Box::new),
    }
}

fn other(children: Vec<SyntaxNode>) -> SyntaxNode {
    SyntaxNode::Other { children }
}

fn definition(namespace: &str, line: usize, lines: usize) -> Definition {
    Definition { namespace: String::from(namespace), file: String::from("a.rb"), line, lines }
}

fn relation(caller: &str, namespace: &str, line: usize) -> Relation {
    Relation {
        namespace: String::from(namespace),
        file: String::from("a.rb"),
        line,
        caller_namespace: String::from(caller),
    }
}

fn builtins() -> Vec<String> {
    vec![String::from("String"), String::from("File::SEPARATOR")]
}

fn strings(parts: &[&str]) -> Vec<String> {
    parts.iter().map(|p| String::from(*p)).collect()
}

#[test]
fn split_takes_separators_from_the_left() {
    assert_eq!(split("A::B::C"), strings(&["A", "B", "C"]));
    assert_eq!(split("A"), strings(&["A"]));
    assert_eq!(split(""), strings(&[""]));
    assert_eq!(split("::A"), strings(&["", "A"]));
    assert_eq!(split("A::"), strings(&["A", ""]));
    assert_eq!(split("A:::B"), strings(&["A", ":B"]));
    assert_eq!(split("A:B"), strings(&["A:B"]));
    assert_eq!(split("É::ß"), strings(&["É", "ß"]));
    assert_eq!(split("A::B"), "A::B".split("::").map(String::from).collect::<Vec<String>>());
}

#[test]
fn join_with_writes_a_prefix_and_one_more_segment() {
    let parts = strings(&["A", "B", "C"]);
    assert_eq!(join_with(&parts, 3, "X"), "A::B::C::X");
    assert_eq!(join_with(&parts, 1, "X"), "A::X");
    assert_eq!(join_with(&parts, 0, "X"), "X");
    assert_eq!(join_with(&strings(&[""]), 1, "X"), "::X");
}

#[test]
fn nested_definitions_carry_the_chain_of_enclosing_names() {
    let tree = module(
        "A",
        0,
        90,
        Some(other(vec![
            class("B", None, Some(module("C", 20, 40, None))),
            module("D", 50, 60, None),
        ])),
    );
    let found = ruby_file("a.rb", &Some(tree), &builtins()).unwrap();
    assert_eq!(
        found.definitions,
        vec![
            definition("A", 0, 90),
            definition("A::B", 0, 0),
            definition("A::B::C", 20, 40),
            definition("A::D", 50, 60),
        ]
    );
    assert_eq!(found.relations, vec![]);
}

#[test]
fn reference_is_written_from_the_outermost_qualifier() {
    let reference = constant(Some(constant(Some(constant(None, "A", 0)), "B", 0)), "C", 4);
    let tree = module("M", 0, 0, Some(module("N", 0, 0, Some(other(vec![reference])))));
    let found = ruby_file("a.rb", &Some(tree), &builtins()).unwrap();
    assert_eq!(found.relations, vec![relation("M::N", "A::B::C", 5)]);
}

#[test]
fn assignment_keeps_the_qualifiers_in_the_order_met() {
    let target = SyntaxNode::Casgn {
        scope: Some(Box::new(constant(Some(constant(None, "A", 0)), "B", 0))),
        name: String::from("C"),
        name_begin: 7,
        name_size: 1,
    };
    let tree = module("M", 0, 9, Some(target));
    let found = ruby_file("a.rb", &Some(tree), &builtins()).unwrap();
    assert_eq!(found.definitions, vec![definition("M", 0, 9), definition("M::B::A::C", 7, 1)]);
    assert_eq!(found.relations, vec![]);
}

#[test]
fn qualifier_chain_ends_at_the_first_node_that_is_no_constant() {
    let reference = constant(Some(constant(Some(other(vec![constant(None, "Hidden", 0)])), "B", 0)), "C", 0);
    let found = ruby_file("a.rb", &Some(reference), &builtins()).unwrap();
    assert_eq!(found.relations, vec![relation("", "B::C", 1)]);
}

#[test]
fn builtin_names_are_no_references() {
    let tree = other(vec![
        constant(None, "String", 0),
        constant(Some(constant(None, "File", 1)), "SEPARATOR", 1),
        constant(None, "File", 2),
        constant(Some(constant(None, "My", 3)), "String", 3),
    ]);
    let found = ruby_file("a.rb", &Some(tree), &builtins()).unwrap();
    assert_eq!(found.relations, vec![relation("", "File", 3), relation("", "My::String", 4)]);
}

#[test]
fn superclass_is_walked_inside_the_class_before_the_body() {
    let tree = class("B", Some(constant(None, "Base", 0)), Some(constant(None, "Used", 1)));
    let found = ruby_file("a.rb", &Some(tree), &builtins()).unwrap();
    assert_eq!(found.definitions, vec![definition("B", 0, 0)]);
    assert_eq!(found.relations, vec![relation("B", "Base", 1), relation("B", "Used", 2)]);
}

#[test]
fn module_name_gives_no_reference_and_drops_its_qualifiers() {
    let tree = SyntaxNode::Module {
        name: Box::new(constant(Some(constant(None, "A", 0)), "B", 0)),
        keyword_begin: 1,
        end_end: 2,
        body: Some(Box::new(constant(None, "X", 0))),
    };
    let found = ruby_file("a.rb", &Some(tree), &builtins()).unwrap();
    assert_eq!(found.definitions, vec![definition("B", 1, 2)]);
    assert_eq!(found.relations, vec![relation("B", "X", 1)]);
}

#[test]
fn file_without_a_tree_is_empty() {
    let found = ruby_file("a.rb", &None, &builtins()).unwrap();
    assert_eq!(found, RubyFile { definitions: vec![], relations: vec![] });
}

#[test]
fn name_that_is_no_constant_fails_the_file() {
    let tree = other(vec![
        module("A", 0, 0, None),
        SyntaxNode::Module {
            name: Box::new(other(vec![])),
            keyword_begin: 0,
            end_end: 0,
            body: None,
        },
    ]);
    assert_eq!(ruby_file("a.rb", &Some(tree), &builtins()), Err(ExtractError::NotAConst));
    let tree = SyntaxNode::Class {
        name: Box::new(module("A", 0, 0, None)),
        keyword_begin: 0,
        end_end: 0,
        superclass: None,
        body: None,
    };
    assert_eq!(ruby_file("a.rb", &Some(tree), &builtins()), Err(ExtractError::NotAConst));
}

#[test]
fn reference_without_a_usable_line_fails_the_file() {
    let tree = SyntaxNode::Const { scope: None, name: String::from("A"), line: None };
    assert_eq!(ruby_file("a.rb", &Some(tree), &builtins()), Err(ExtractError::NoLine));
    let tree = constant(None, "A", usize::MAX);
    assert_eq!(ruby_file("a.rb", &Some(tree), &builtins()), Err(ExtractError::LineTooLarge));
    let tree = SyntaxNode::Const { scope: None, name: String::from("String"), line: None };
    assert_eq!(ruby_file("a.rb", &Some(tree), &builtins()).unwrap().relations, vec![]);
}
