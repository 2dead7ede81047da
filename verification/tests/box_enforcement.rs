use constant_sandbox::parser::{Definition, Relation};
use constant_sandbox::ruby_box::{
    deserialize, enforce, enforce_box, enforce_within, matches_to_self, parse, serialize, BoxViolation,
    PatternError, RubyBox, ViolationDirection,
};

struct BoxConstraintTest {
    name: String,
    box_path: String,
    ruby_box: RubyBox,
    ignores: Vec<String>,
    defs: Vec<Definition>,
    rels: Vec<Relation>,
    violations: Vec<BoxViolation>,
}

impl BoxConstraintTest {
    pub fn new(name: &str, box_path: &str) -> BoxConstraintTest {
        BoxConstraintTest {
            name: String::from(name),
            box_path: String::from(box_path),
            ruby_box: RubyBox { imports: Vec::new(), exports: Vec::new() },
            ignores: Vec::new(),
            defs: Vec::new(),
            rels: Vec::new(),
            violations: Vec::new(),
        }
    }
}

fn relation(caller_namespace: &str, namespace: &str, file: &str) -> Relation {
    Relation {
        caller_namespace: String::from(caller_namespace),
        namespace: String::from(namespace),
        file: String::from(file),
        line: 0,
    }
}

fn definition(namespace: &str, file: &str) -> Definition {
    Definition { namespace: String::from(namespace), file: String::from(file), line: 0, lines: 0 }
}

fn empty_box() -> RubyBox {
    RubyBox { imports: Vec::new(), exports: Vec::new() }
}

fn exempt(caller: &str, reference: &str, defined: &[&str]) -> bool {
    let defs: Vec<Definition> = defined.iter().map(|d| definition(d, "lib/mod/mod.rb")).collect();
    let refs: Vec<&Definition> = defs.iter().collect();
    matches_to_self(&relation(caller, reference, "lib/mod/mod.rb"), &refs)
}

#[test]
fn enforces_box_constraints() {
    let mut tests: Vec<BoxConstraintTest> = Vec::new();
    {
        let mut test = BoxConstraintTest::new("single external reference", "lib/mod/box.yaml");
        test.defs.push(definition("A", "lib/mod/mod.rb"));
        test.rels.push(relation("A", "Z", "lib/mod/mod.rb"));
        test.violations.push(BoxViolation {
            dir: ViolationDirection::NonImportedReference,
            rel: test.rels[0].clone(),
        });
        tests.push(test);
    }
    {
        let mut test =
            BoxConstraintTest::new("single external reference defined import", "lib/mod/box.yaml");
        test.ruby_box.imports.push(String::from("Z"));
        test.defs.push(definition("A", "lib/mod/mod.rb"));
        test.rels.push(relation("A", "Z", "lib/mod/mod.rb"));
        tests.push(test);
    }
    {
        let mut test = BoxConstraintTest::new("single incoming reference", "lib/mod/box.yaml");
        test.defs.push(definition("A", "lib/mod/mod.rb"));
        test.defs.push(definition("B", "lib/mod2/mod.rb"));
        test.rels.push(relation("B", "A", "lib/mod2/mod.rb"));
        test.violations.push(BoxViolation {
            dir: ViolationDirection::NonExportedReference,
            rel: test.rels[0].clone(),
        });
        tests.push(test);
    }
    {
        let mut test = BoxConstraintTest::new("single incoming reference", "lib/mod/box.yaml");
        test.ruby_box.exports.push(String::from("A"));
        test.defs.push(definition("A", "lib/mod/mod.rb"));
        test.defs.push(definition("B", "lib/mod2/mod.rb"));
        test.rels.push(relation("B", "A", "lib/mod2/mod.rb"));
        tests.push(test);
    }
    {
        let mut test = BoxConstraintTest::new("internal reference ok", "lib/mod/box.yaml");
        test.defs.push(definition("A", "lib/mod/mod.rb"));
        test.defs.push(definition("A::B", "lib/mod/mod.rb"));
        test.rels.push(relation("A", "B", "lib/mod/mod.rb"));
        tests.push(test);
    }
    {
        let mut test = BoxConstraintTest::new("respect ignores", "lib/mod/box.yaml");
        test.ignores.push(String::from("lib/mod2/*.*"));
        test.defs.push(definition("A", "lib/mod/mod.rb"));
        test.defs.push(definition("B", "lib/mod2/mod.rb"));
        test.rels.push(relation("B", "A", "lib/mod2/mod.rb"));
        tests.push(test);
    }
    for test in tests {
        let results =
            enforce_box(&test.box_path, test.ruby_box, &test.defs, &test.rels, &test.ignores);
        assert_eq!(
            results.len(),
            test.violations.len(),
            "{}: expected {} results but found {}",
            test.name,
            test.violations.len(),
            results.len()
        );
        for v in test.violations {
            assert_eq!(
                results.iter().any(|r| r.rel == v.rel),
                true,
                "{}: expected to find {} but did not",
                test.name,
                v.rel.namespace
            );
        }
    }
}

#[test]
fn unexported_reference_is_reported() {
    let defs = vec![definition("A", "lib/mod/mod.src")];
    let rels = vec![relation("B", "A", "lib/mod2/mod.src")];
    let found = enforce_box("lib/mod/box.yml", empty_box(), &defs, &rels, &[]);
    assert_eq!(
        found,
        vec![BoxViolation {
            dir: ViolationDirection::NonExportedReference,
            rel: relation("B", "A", "lib/mod2/mod.src"),
        }]
    );
    let allowed = RubyBox { imports: Vec::new(), exports: vec![String::from("A")] };
    assert_eq!(enforce_box("lib/mod/box.yml", allowed, &defs, &rels, &[]), vec![]);
}

#[test]
fn unimported_reference_is_reported() {
    let defs: Vec<Definition> = Vec::new();
    let rels = vec![relation("A", "Z", "lib/mod/mod.src")];
    let found = enforce_box("lib/mod/box.yml", empty_box(), &defs, &rels, &[]);
    assert_eq!(
        found,
        vec![BoxViolation {
            dir: ViolationDirection::NonImportedReference,
            rel: relation("A", "Z", "lib/mod/mod.src"),
        }]
    );
    let allowed = RubyBox { imports: vec![String::from("Z")], exports: Vec::new() };
    assert_eq!(enforce_box("lib/mod/box.yml", allowed, &defs, &rels, &[]), vec![]);
}

#[test]
fn ignore_suppresses_the_export_check_only() {
    let defs = vec![definition("A", "lib/mod/mod.src")];
    let rels = vec![relation("B", "A", "lib/mod2/mod.src")];
    let ignores = vec![String::from("lib/mod2/*")];
    assert_eq!(enforce_box("lib/mod/box.yml", empty_box(), &defs, &rels, &ignores), vec![]);

    let inside = vec![relation("A", "Z", "lib/mod/mod.src")];
    let ignores = vec![String::from("lib/mod/*")];
    let found = enforce_box("lib/mod/box.yml", empty_box(), &defs, &inside, &ignores);
    assert_eq!(
        found,
        vec![BoxViolation {
            dir: ViolationDirection::NonImportedReference,
            rel: relation("A", "Z", "lib/mod/mod.src"),
        }]
    );
}

#[test]
fn reference_can_break_both_directions() {
    // Defined in the box, used from the box through a name that resolves to
    // nothing local: the export check matches by name, the import check by scope.
    let defs = vec![definition("P::Q::R::S::T", "lib/mod/a.rb"), definition("X", "lib/mod/a.rb")];
    let rels = vec![relation("P::Q::R::S::T", "X::Y", "lib/mod/a.rb"), relation("", "X", "lib/mod/b.rb")];
    let found = enforce_box("lib/mod/box.yml", empty_box(), &defs, &rels, &[]);
    assert_eq!(
        found,
        vec![
            BoxViolation {
                dir: ViolationDirection::NonExportedReference,
                rel: relation("", "X", "lib/mod/b.rb"),
            },
            BoxViolation {
                dir: ViolationDirection::NonImportedReference,
                rel: relation("P::Q::R::S::T", "X::Y", "lib/mod/a.rb"),
            },
        ]
    );
}

#[test]
fn path_without_parent_has_no_violations() {
    let defs = vec![definition("A", "lib/mod/mod.rb")];
    let rels = vec![relation("A", "Z", "lib/mod/mod.rb")];
    assert_eq!(enforce_box("", empty_box(), &defs, &rels, &[]), vec![]);
    assert_eq!(enforce_box("/", empty_box(), &defs, &rels, &[]), vec![]);
}

#[test]
fn box_directory_is_matched_by_whole_components() {
    let defs: Vec<Definition> = Vec::new();
    let rels = vec![relation("A", "Z", "lib/module/mod.rb"), relation("A", "Y", "lib/mod/sub/x.rb")];
    let found = enforce_box("lib/mod/box.yml", empty_box(), &defs, &rels, &[]);
    assert_eq!(found.len(), 1);
    assert_eq!(found[0].rel.namespace, "Y");
}

#[test]
fn self_match_one_drop() {
    assert!(exempt("A::B", "C", &["A::C"]));
}

#[test]
fn self_match_zero_drop() {
    assert!(exempt("A::B", "C", &["A::B::C"]));
}

#[test]
fn self_match_two_and_three_drops() {
    assert!(exempt("A::B::C", "X", &["A::X"]));
    assert!(exempt("A::B::C::D", "X", &["A::X"]));
    assert!(exempt("A::B::C", "X", &["X"]));
}

#[test]
fn self_match_caps_at_three_dropped_segments() {
    assert!(!exempt("A::B::C::D::E", "X", &["A::X"]));
    assert!(!exempt("A::B", "C", &["D", "A::B", "B::C"]));
    assert!(!exempt("A::B", "C", &[]));
}

#[test]
fn self_match_on_the_name_as_written() {
    assert!(exempt("W::X::Y::Z", "C", &["C"]));
    assert!(exempt("", "C", &["C"]));
    assert!(exempt("", "C", &["::C"]));
}

#[test]
fn enforce_reports_the_first_invalid_pattern() {
    let defs: Vec<Definition> = Vec::new();
    let rels: Vec<Relation> = Vec::new();
    let bad_import = RubyBox { imports: vec![String::from("A"), String::from("(")], exports: vec![String::from("(")] };
    assert_eq!(enforce("lib/box.yml", bad_import, &defs, &rels, &[]), Err(PatternError::Import(1)));
    let bad_export = RubyBox { imports: vec![String::from("A")], exports: vec![String::from("[")] };
    assert_eq!(
        enforce("lib/box.yml", bad_export, &defs, &rels, &[String::from("[")]),
        Err(PatternError::Export(0))
    );
    assert_eq!(
        enforce("lib/box.yml", empty_box(), &defs, &rels, &[String::from("a"), String::from("a**")]),
        Err(PatternError::Ignore(1))
    );
    let rels = vec![relation("A", "Z", "lib/mod.rb")];
    let found = enforce("lib/box.yml", empty_box(), &defs, &rels, &[String::from("*")]).unwrap();
    assert_eq!(found.len(), 1);
}

#[test]
fn patterns_are_searched_not_anchored() {
    let defs: Vec<Definition> = Vec::new();
    let rels = vec![
        relation("A", "Net::HTTP", "lib/mod/a.rb"),
        relation("A", "Http", "lib/mod/a.rb"),
        relation("A", "Other", "lib/mod/a.rb"),
    ];
    let b = RubyBox { imports: vec![String::from("^Net::"), String::from("t+p")], exports: Vec::new() };
    let found = enforce_box("lib/mod/box.yml", b, &defs, &rels, &[]);
    assert_eq!(found.len(), 1);
    assert_eq!(found[0].rel.namespace, "Other");
}

#[test]
fn parse_of_a_missing_document_is_the_empty_box() {
    assert_eq!(parse(None), Ok(empty_box()));
}

#[test]
fn parse_keeps_the_patterns() {
    let doc = Some((vec![String::from("A::.*"), String::from("B")], vec![String::from("^C$")]));
    let b = parse(doc).unwrap();
    assert_eq!(b.imports, vec![String::from("A::.*"), String::from("B")]);
    assert_eq!(b.exports, vec![String::from("^C$")]);
}

#[test]
fn parse_rejects_a_pattern_that_does_not_compile() {
    assert_eq!(
        parse(Some((vec![String::from("A"), String::from("B("), String::from("(")], Vec::new()))),
        Err(PatternError::Import(1))
    );
    assert_eq!(
        parse(Some((vec![String::from("A")], vec![String::from("*")]))),
        Err(PatternError::Export(0))
    );
}

#[test]
fn deserialize_accepts_or_names_the_first_failure() {
    assert_eq!(deserialize(vec![String::from("a|b")]), Ok(vec![String::from("a|b")]));
    assert_eq!(deserialize(Vec::new()), Ok(Vec::new()));
    assert_eq!(deserialize(vec![String::from("a"), String::from("a)")]), Err(1));
}

#[test]
fn round_trip_keeps_matching() {
    let b = RubyBox {
        imports: vec![String::from("^Net::"), String::from("Z")],
        exports: vec![String::from("A::B$")],
    };
    let again = parse(Some((serialize(&b.imports), serialize(&b.exports)))).unwrap();
    assert_eq!(again, b);
    let defs = vec![definition("A::B", "lib/mod/a.rb"), definition("A::BC", "lib/mod/a.rb")];
    let rels = vec![
        relation("A", "Net::HTTP", "lib/mod/a.rb"),
        relation("A", "Q", "lib/mod/a.rb"),
        relation("X", "A::B", "lib/x.rb"),
        relation("X", "A::BC", "lib/x.rb"),
    ];
    let first = enforce_box("lib/mod/box.yml", b, &defs, &rels, &[]);
    let second = enforce_box("lib/mod/box.yml", again, &defs, &rels, &[]);
    assert_eq!(first, second);
    assert_eq!(first.len(), 2);
    assert_eq!(first[0].rel.namespace, "A::BC");
    assert_eq!(first[1].rel.namespace, "Q");
}

#[test]
fn message_names_direction_namespace_file_and_line() {
    let mut rel = relation("A", "Z", "lib/mod/mod.rb");
    rel.line = 120;
    let inward = BoxViolation { dir: ViolationDirection::NonImportedReference, rel: rel.clone() };
    assert_eq!(inward.message(), "non imported reference Z found in lib/mod/mod.rb on line 120");
    rel.line = 0;
    let outward = BoxViolation { dir: ViolationDirection::NonExportedReference, rel: rel.clone() };
    assert_eq!(outward.message(), "non exported reference Z found in lib/mod/mod.rb on line 0");
    rel.line = 18446744073709551615;
    let far = BoxViolation { dir: ViolationDirection::NonExportedReference, rel };
    assert_eq!(
        far.message(),
        "non exported reference Z found in lib/mod/mod.rb on line 18446744073709551615"
    );
}

#[test]
fn enforce_within_takes_the_boundary_itself() {
    let defs = vec![definition("A", "lib/mod/mod.rb")];
    let rels = vec![relation("B", "A", "lib/mod2/mod.rb"), relation("A", "Z", "lib/mod/mod.rb")];
    let found = enforce_within("lib/mod", empty_box(), &defs, &rels, &[]);
    assert_eq!(found, enforce_box("lib/mod/box.yml", empty_box(), &defs, &rels, &[]));
    assert_eq!(found.len(), 2);
    assert_eq!(enforce_within("lib/mod3", empty_box(), &defs, &rels, &[]), vec![]);
    let everything = enforce_within("", empty_box(), &defs, &rels, &[]);
    assert_eq!(everything.len(), 2);
}
