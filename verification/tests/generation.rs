use constant_sandbox::corpus::merge;
use constant_sandbox::generator::{allow_list, derive_box, generate, insert_ascending, precedes};
use constant_sandbox::parser::{Definition, Relation, RubyFile};
use constant_sandbox::ruby_box::{
    enforce_box, BoxViolation, PatternError, RubyBox, ViolationDirection,
};

fn relation(caller_namespace: &str, namespace: &str, file: &str) -> Relation {
    Relation {
        caller_namespace: String::from(caller_namespace),
        namespace: String::from(namespace),
        file: String::from(file),
        line: 0,
    }
}

fn definition(namespace: &str, file: &str) -> Definition {
    Definition { namespace: String::from(namespace), file: String::from(file), line: 0, lines: 0 }
}

fn inward(namespace: &str) -> BoxViolation {
    BoxViolation {
        dir: ViolationDirection::NonImportedReference,
        rel: relation("A", namespace, "lib/mod/a.rb"),
    }
}

fn outward(namespace: &str) -> BoxViolation {
    BoxViolation {
        dir: ViolationDirection::NonExportedReference,
        rel: relation("B", namespace, "lib/b.rb"),
    }
}

fn strings(parts: &[&str]) -> Vec<String> {
    parts.iter().map(|p| String::from(*p)).collect()
}

#[test]
fn precedes_is_the_order_of_strings() {
    let samples = ["", "A", "AB", "B", "a", "A::B", "A:", "Z", "é", "z", "日本", "\u{10000}", "\u{ffff}"];
    for a in samples {
        for b in samples {
            assert_eq!(precedes(&String::from(a), &String::from(b)), a < b, "{:?} before {:?}", a, b);
        }
    }
    assert!(precedes(&String::from("A"), &String::from("AB")));
    assert!(!precedes(&String::from("AB"), &String::from("A")));
    assert!(!precedes(&String::from("A"), &String::from("A")));
    assert!(precedes(&String::from("Ab"), &String::from("B")));
}

#[test]
fn insert_ascending_keeps_order_and_skips_duplicates() {
    let mut list: Vec<String> = Vec::new();
    for item in ["M", "Z", "A", "M", "N", "A", "Z"] {
        insert_ascending(&mut list, &String::from(item));
    }
    assert_eq!(list, strings(&["A", "M", "N", "Z"]));
}

#[test]
fn allow_list_is_sorted_and_without_duplicates() {
    let violations = vec![inward("Z"), outward("Q"), inward("A::B"), inward("Z"), inward("A"), outward("B")];
    assert_eq!(
        allow_list(&violations, ViolationDirection::NonImportedReference),
        strings(&["A", "A::B", "Z"])
    );
    assert_eq!(
        allow_list(&violations, ViolationDirection::NonExportedReference),
        strings(&["B", "Q"])
    );
    assert_eq!(allow_list(&Vec::new(), ViolationDirection::NonExportedReference), strings(&[]));
}

#[test]
fn derive_box_sorts_each_direction() {
    let violations = vec![outward("Y"), inward("Z"), outward("X"), outward("Y")];
    let derived = derive_box(&violations);
    assert_eq!(derived, RubyBox { imports: strings(&["Z"]), exports: strings(&["X", "Y"]) });
}

#[test]
fn generated_box_leaves_no_violation() {
    let defs = vec![
        definition("Mod", "lib/mod/mod.rb"),
        definition("Mod::Inner", "lib/mod/inner.rb"),
        definition("Other", "lib/other.rb"),
    ];
    let rels = vec![
        relation("Other", "Mod::Inner", "lib/other.rb"),
        relation("Mod", "Other", "lib/mod/mod.rb"),
        relation("Mod", "Inner", "lib/mod/mod.rb"),
        relation("Other", "Mod", "lib/other.rb"),
        relation("Mod::Inner", "Other", "lib/mod/inner.rb"),
    ];
    let derived = generate("lib/mod/box.yml", &defs, &rels, &[]).unwrap();
    assert_eq!(
        derived,
        RubyBox { imports: strings(&["Other"]), exports: strings(&["Mod", "Mod::Inner"]) }
    );
    assert_eq!(enforce_box("lib/mod/box.yml", derived, &defs, &rels, &[]), vec![]);
}

#[test]
fn generate_respects_ignores_for_exports() {
    let defs = vec![definition("Mod", "lib/mod/mod.rb")];
    let rels = vec![relation("Spec", "Mod", "spec/mod_spec.rb"), relation("Mod", "Dep", "lib/mod/mod.rb")];
    let derived = generate("lib/mod/box.yml", &defs, &rels, &strings(&["spec/*"])).unwrap();
    assert_eq!(derived, RubyBox { imports: strings(&["Dep"]), exports: strings(&[]) });
}

#[test]
fn generate_reports_what_does_not_compile() {
    let defs = vec![definition("Mod", "lib/mod/mod.rb")];
    let rels = vec![relation("Mod", "Dep(", "lib/mod/mod.rb")];
    assert_eq!(
        generate("lib/mod/box.yml", &defs, &rels, &strings(&["[x"])),
        Err(PatternError::Ignore(0))
    );
    assert_eq!(generate("lib/mod/box.yml", &defs, &rels, &[]), Err(PatternError::Import(0)));
    let defs = vec![definition("Mo)d", "lib/mod/mod.rb")];
    let rels = vec![relation("X", "Mo)d", "lib/x.rb")];
    assert_eq!(generate("lib/mod/box.yml", &defs, &rels, &[]), Err(PatternError::Export(0)));
}

#[test]
fn merge_appends_file_after_file() {
    let first = RubyFile {
        definitions: vec![definition("A", "a.rb"), definition("A::B", "a.rb")],
        relations: vec![relation("A", "X", "a.rb")],
    };
    let second = RubyFile { definitions: vec![], relations: vec![relation("", "Y", "b.rb")] };
    let third = RubyFile { definitions: vec![definition("C", "c.rb")], relations: vec![] };
    let (defs, rels) = merge(vec![first, second, third]);
    assert_eq!(defs, vec![definition("A", "a.rb"), definition("A::B", "a.rb"), definition("C", "c.rb")]);
    assert_eq!(rels, vec![relation("A", "X", "a.rb"), relation("", "Y", "b.rb")]);
    let (defs, rels) = merge(Vec::new());
    assert_eq!(defs, vec![]);
    assert_eq!(rels, vec![]);
}

#[test]
fn merge_in_another_order_gives_the_same_findings() {
    let files = || {
        vec![
            RubyFile { definitions: vec![definition("A", "a.rb")], relations: vec![relation("A", "X", "a.rb")] },
            RubyFile { definitions: vec![definition("B", "b.rb")], relations: vec![relation("B", "A", "b.rb")] },
            RubyFile { definitions: vec![definition("A", "c.rb")], relations: vec![] },
        ]
    };
    let (defs, rels) = merge(files());
    let mut turned = files();
    turned.reverse();
    let (mut defs_turned, mut rels_turned) = merge(turned);
    assert_ne!(defs, defs_turned);
    defs_turned.reverse();
    rels_turned.reverse();
    assert_eq!(defs, defs_turned);
    assert_eq!(rels, rels_turned);
}
