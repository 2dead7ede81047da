//! Boxes and their enforcement.
//!
//! A box is the directory that holds its document, with two allow-lists of
//! regular expressions: the outside namespaces that code in the box may use
//! (imports) and the namespaces of the box that code elsewhere may use
//! (exports).

use crate::matching::{
    glob_compiles, glob_matches, glob_try_match, parent_of, path_is_under, path_parent,
    path_starts_with, regex_compiles, regex_matches, regex_try_match,
};
use crate::namespace::{candidate, join_with, segments, split, texts, without_last};
use crate::parser::{Definition, DefinitionView, Relation, RelationView, definition_views, relation_views};
use vstd::prelude::*;
use vstd::string::*;

verus! {

/// The allow-lists of a box, each pattern in the text it was written in.
#[derive(Debug, PartialEq, Eq)]
pub struct RubyBox {
    pub imports: Vec<String>,
    pub exports: Vec<String>,
}

/// What a `RubyBox` holds.
pub struct RubyBoxView {
    pub imports: Seq<Seq<char>>,
    pub exports: Seq<Seq<char>>,
}

impl View for RubyBox {
    type V = RubyBoxView;

    open spec fn view(&self) -> RubyBoxView {
        RubyBoxView { imports: texts(self.imports@), exports: texts(self.exports@) }
    }
}

/// Every pattern of the list is a regular expression that compiles.
pub open spec fn all_regex_compile(patterns: Seq<Seq<char>>) -> bool {
    forall|i: int| 0 <= i < patterns.len() ==> regex_compiles(#[trigger] patterns[i])
}

/// Every pattern of the list is a glob that compiles.
pub open spec fn all_glob_compile(patterns: Seq<Seq<char>>) -> bool {
    forall|i: int| 0 <= i < patterns.len() ==> glob_compiles(#[trigger] patterns[i])
}

/// Some regular expression of the list finds a match in `text`.
pub open spec fn any_regex_matches(patterns: Seq<Seq<char>>, text: Seq<char>) -> bool {
    exists|i: int| 0 <= i < patterns.len() && regex_matches(#[trigger] patterns[i], text)
}

/// Some glob of the list matches `text`.
pub open spec fn any_glob_matches(patterns: Seq<Seq<char>>, text: Seq<char>) -> bool {
    exists|i: int| 0 <= i < patterns.len() && glob_matches(#[trigger] patterns[i], text)
}

impl RubyBoxView {
    /// Both allow-lists hold only patterns that compile.
    pub open spec fn wf(self) -> bool {
        all_regex_compile(self.imports) && all_regex_compile(self.exports)
    }
}

impl RubyBox {
    /// Both allow-lists hold only patterns that compile.
    pub open spec fn wf(&self) -> bool {
        self@.wf()
    }
}

/// The two ways in which a reference can break a box.
#[derive(Debug, Clone, Copy, PartialEq, Eq, Structural)]
pub enum ViolationDirection {
    /// Code in the box uses an outside namespace that the box does not import.
    NonImportedReference,
    /// Code uses a namespace of the box that the box does not export.
    NonExportedReference,
}

/// A reference that breaks a box, and how.
#[derive(Debug, PartialEq, Eq)]
pub struct BoxViolation {
    pub dir: ViolationDirection,
    pub rel: Relation,
}

/// What a `BoxViolation` holds.
pub struct BoxViolationView {
    pub dir: ViolationDirection,
    pub rel: RelationView,
}

impl View for BoxViolation {
    type V = BoxViolationView;

    open spec fn view(&self) -> BoxViolationView {
        BoxViolationView { dir: self.dir, rel: self.rel@ }
    }
}

/// The contents of a sequence of violations.
pub open spec fn violation_views(violations: Seq<BoxViolation>) -> Seq<BoxViolationView> {
    violations.map_values(|v: BoxViolation| v@)
}

/// The contents of a sequence of borrowed definitions.
pub open spec fn borrowed_views(defs: Seq<&Definition>) -> Seq<DefinitionView> {
    defs.map_values(|d: &Definition| d@)
}

/// Some definition of `defs` has exactly this namespace.
pub open spec fn defined_in(defs: Seq<DefinitionView>, namespace: Seq<char>) -> bool {
    exists|i: int| 0 <= i < defs.len() && (#[trigger] defs[i]).namespace == namespace
}

/// The test that picks the definitions whose file lies under `dir`.
pub open spec fn lies_under(dir: Seq<char>) -> spec_fn(DefinitionView) -> bool {
    |d: DefinitionView| path_starts_with(d.file, dir)
}

/// The definitions whose file lies under `dir`, in their order.
pub open spec fn defs_in_box(defs: Seq<DefinitionView>, dir: Seq<char>) -> Seq<DefinitionView> {
    defs.filter(lies_under(dir))
}

/// The self-match test: the reference resolves to something that `defs`
/// define, either as it is written, or seen from the caller's own scope, or
/// from one of the three scopes above it that replace the caller's last one,
/// two or three segments.
pub open spec fn self_match(rel: RelationView, defs: Seq<DefinitionView>) -> bool {
    ||| defined_in(defs, rel.namespace)
    ||| defined_in(defs, candidate(rel.caller_namespace, rel.namespace, 1))
    ||| defined_in(defs, candidate(rel.caller_namespace, rel.namespace, 0))
    ||| defined_in(defs, candidate(rel.caller_namespace, rel.namespace, 2))
    ||| defined_in(defs, candidate(rel.caller_namespace, rel.namespace, 3))
}

/// A reference breaks the exports of a box whose definitions are `local`: its
/// file is not ignored, it names a namespace that the box defines, and no
/// export pattern matches that name.
pub open spec fn breaks_export(
    local: Seq<DefinitionView>,
    exports: Seq<Seq<char>>,
    ignores: Seq<Seq<char>>,
    rel: RelationView,
) -> bool {
    &&& !any_glob_matches(ignores, rel.file)
    &&& defined_in(local, rel.namespace)
    &&& !any_regex_matches(exports, rel.namespace)
}

/// A reference breaks the imports of the box at `dir`, whose definitions are
/// `local`: its file lies in the box, no import pattern matches the name, and
/// the name does not resolve to a definition of the box. Ignored files are
/// not left out here.
pub open spec fn breaks_import(
    dir: Seq<char>,
    local: Seq<DefinitionView>,
    imports: Seq<Seq<char>>,
    rel: RelationView,
) -> bool {
    &&& path_starts_with(rel.file, dir)
    &&& !any_regex_matches(imports, rel.namespace)
    &&& !self_match(rel, local)
}

/// `breaks_export` as a test on references.
pub open spec fn export_test(
    local: Seq<DefinitionView>,
    exports: Seq<Seq<char>>,
    ignores: Seq<Seq<char>>,
) -> spec_fn(RelationView) -> bool {
    |rel: RelationView| breaks_export(local, exports, ignores, rel)
}

/// `breaks_import` as a test on references.
pub open spec fn import_test(
    dir: Seq<char>,
    local: Seq<DefinitionView>,
    imports: Seq<Seq<char>>,
) -> spec_fn(RelationView) -> bool {
    |rel: RelationView| breaks_import(dir, local, imports, rel)
}

/// Turns a reference into a violation of the given direction.
pub open spec fn charge(dir: ViolationDirection) -> spec_fn(RelationView) -> BoxViolationView {
    |rel: RelationView| BoxViolationView { dir, rel }
}

/// One violation of direction `dir` for each reference that meets `test`, in
/// the order of the references.
pub open spec fn violations_of(
    dir: ViolationDirection,
    rels: Seq<RelationView>,
    test: spec_fn(RelationView) -> bool,
) -> Seq<BoxViolationView> {
    rels.filter(test).map_values(charge(dir))
}

/// The references that break the exports of the box, as violations.
pub open spec fn export_violations(
    local: Seq<DefinitionView>,
    exports: Seq<Seq<char>>,
    ignores: Seq<Seq<char>>,
    rels: Seq<RelationView>,
) -> Seq<BoxViolationView> {
    violations_of(
        ViolationDirection::NonExportedReference,
        rels,
        export_test(local, exports, ignores),
    )
}

/// The references that break the imports of the box, as violations.
pub open spec fn import_violations(
    dir: Seq<char>,
    local: Seq<DefinitionView>,
    imports: Seq<Seq<char>>,
    rels: Seq<RelationView>,
) -> Seq<BoxViolationView> {
    violations_of(
        ViolationDirection::NonImportedReference,
        rels,
        import_test(dir, local, imports),
    )
}

/// The violations of the box whose boundary is the directory `dir`: the
/// export violations followed by the import violations. A reference that
/// breaks both appears twice.
pub open spec fn violations_within(
    dir: Seq<char>,
    ruby_box: RubyBoxView,
    defs: Seq<DefinitionView>,
    rels: Seq<RelationView>,
    ignores: Seq<Seq<char>>,
) -> Seq<BoxViolationView> {
    export_violations(defs_in_box(defs, dir), ruby_box.exports, ignores, rels) + import_violations(
        dir,
        defs_in_box(defs, dir),
        ruby_box.imports,
        rels,
    )
}

/// The violations of the box whose document is at `box_path`: none where the
/// path has no parent directory; else those of the box whose boundary is the
/// parent directory.
pub open spec fn box_violations(
    box_path: Seq<char>,
    ruby_box: RubyBoxView,
    defs: Seq<DefinitionView>,
    rels: Seq<RelationView>,
    ignores: Seq<Seq<char>>,
) -> Seq<BoxViolationView> {
    match path_parent(box_path) {
        None => Seq::empty(),
        Some(dir) => violations_within(dir, ruby_box, defs, rels, ignores),
    }
}

/// Filtering one more element either appends it or changes nothing.
pub proof fn lemma_filter_step<A>(s: Seq<A>, test: spec_fn(A) -> bool, i: int)
    requires
        0 <= i < s.len(),
    ensures
        s.take(i + 1).filter(test) == if test(s[i]) {
            s.take(i).filter(test).push(s[i])
        } else {
            s.take(i).filter(test)
        },
{
    reveal(Seq::filter);
    assert(s.take(i + 1).drop_last() =~= s.take(i));
}

/// Whether some regular expression of `patterns` finds a match in `text`.
pub fn matches_any(patterns: &Vec<String>, text: &str) -> (found: bool)
    requires
        all_regex_compile(texts(patterns@)),
    ensures
        found == any_regex_matches(texts(patterns@), text@),
{
    let mut i: usize = 0;
    while i < patterns.len()
        invariant
            i <= patterns.len(),
            all_regex_compile(texts(patterns@)),
            forall|j: int| 0 <= j < i ==> !regex_matches(#[trigger] texts(patterns@)[j], text@),
        decreases patterns.len() - i,
    {
        assert(regex_compiles(texts(patterns@)[i as int]));
        match regex_try_match(patterns[i].as_str(), text) {
            Some(true) => {
                assert(regex_matches(texts(patterns@)[i as int], text@));
                return true;
            },
            _ => {},
        }
        i = i + 1;
    }
    false
}

/// Whether some glob of `ignores` matches `file`.
pub fn is_ignored(ignores: &[String], file: &str) -> (found: bool)
    requires
        all_glob_compile(texts(ignores@)),
    ensures
        found == any_glob_matches(texts(ignores@), file@),
{
    let mut i: usize = 0;
    while i < ignores.len()
        invariant
            i <= ignores.len(),
            all_glob_compile(texts(ignores@)),
            forall|j: int| 0 <= j < i ==> !glob_matches(#[trigger] texts(ignores@)[j], file@),
        decreases ignores.len() - i,
    {
        assert(glob_compiles(texts(ignores@)[i as int]));
        match glob_try_match(ignores[i].as_str(), file) {
            Some(true) => {
                assert(glob_matches(texts(ignores@)[i as int], file@));
                return true;
            },
            _ => {},
        }
        i = i + 1;
    }
    false
}

/// Whether some definition of `defs` has the namespace `namespace`.
pub fn defines(defs: &Vec<&Definition>, namespace: &String) -> (found: bool)
    ensures
        found == defined_in(borrowed_views(defs@), namespace@),
{
    let mut i: usize = 0;
    while i < defs.len()
        invariant
            i <= defs.len(),
            forall|j: int| 0 <= j < i ==> (#[trigger] borrowed_views(defs@)[j]).namespace != namespace@,
        decreases defs.len() - i,
    {
        if defs[i].namespace == *namespace {
            assert(borrowed_views(defs@)[i as int].namespace == namespace@);
            return true;
        }
        i = i + 1;
    }
    false
}

/// The self-match test on a reference and the definitions of a box: whether
/// the reference resolves to one of them without an import.
pub fn matches_to_self(rel: &Relation, defs: &Vec<&Definition>) -> (exempt: bool)
    ensures
        exempt == self_match(rel@, borrowed_views(defs@)),
{
    let parts = split(rel.caller_namespace.as_str());
    let n: usize = parts.len();
    let reference = rel.namespace.as_str();
    proof {
        let chain = segments(rel.caller_namespace@);
        assert(texts(parts@).len() == n);
        assert(without_last(chain, 0) =~= chain.take(n as int));
        assert(without_last(chain, 1) =~= chain.take(if n >= 1 { n - 1 } else { 0 }));
        assert(without_last(chain, 2) =~= chain.take(if n >= 2 { n - 2 } else { 0 }));
        assert(without_last(chain, 3) =~= chain.take(if n >= 3 { n - 3 } else { 0 }));
    }
    let ns1 = join_with(&parts, if n >= 1 { n - 1 } else { 0 }, reference);
    let ns2 = join_with(&parts, n, reference);
    let ns3 = join_with(&parts, if n >= 2 { n - 2 } else { 0 }, reference);
    let ns4 = join_with(&parts, if n >= 3 { n - 3 } else { 0 }, reference);
    defines(defs, &rel.namespace) || defines(defs, &ns1) || defines(defs, &ns2) || defines(
        defs,
        &ns3,
    ) || defines(defs, &ns4)
}

/// The definitions whose file lies under `dir`, in their order.
pub fn definitions_under<'a>(defs: &'a [Definition], dir: &str) -> (local: Vec<&'a Definition>)
    ensures
        borrowed_views(local@) == defs_in_box(definition_views(defs@), dir@),
{
    let mut local: Vec<&'a Definition> = Vec::new();
    let ghost all = definition_views(defs@);
    let mut i: usize = 0;
    proof {
        reveal(Seq::filter);
        assert(all.take(0).filter(lies_under(dir@)) =~= borrowed_views(local@));
    }
    while i < defs.len()
        invariant
            i <= defs.len(),
            all == definition_views(defs@),
            borrowed_views(local@) == all.take(i as int).filter(lies_under(dir@)),
        decreases defs.len() - i,
    {
        let def = &defs[i];
        proof {
            lemma_filter_step(all, lies_under(dir@), i as int);
        }
        if path_is_under(def.file.as_str(), dir) {
            let ghost before = borrowed_views(local@);
            local.push(def);
            assert(borrowed_views(local@) =~= before.push(def@));
        }
        i = i + 1;
    }
    assert(all.take(defs.len() as int) =~= all);
    local
}

/// The export check: the references, from files that are not ignored, to
/// what the box defines and does not export.
pub fn check_exports(
    local: &Vec<&Definition>,
    exports: &Vec<String>,
    ignores: &[String],
    rels: &[Relation],
) -> (violations: Vec<BoxViolation>)
    requires
        all_regex_compile(texts(exports@)),
        all_glob_compile(texts(ignores@)),
    ensures
        violation_views(violations@) == export_violations(
            borrowed_views(local@),
            texts(exports@),
            texts(ignores@),
            relation_views(rels@),
        ),
{
    let mut violations: Vec<BoxViolation> = Vec::new();
    let ghost all = relation_views(rels@);
    let ghost test = export_test(borrowed_views(local@), texts(exports@), texts(ignores@));
    let ghost dir = ViolationDirection::NonExportedReference;
    let mut i: usize = 0;
    proof {
        reveal(Seq::filter);
        assert(violations_of(dir, all.take(0), test) =~= violation_views(violations@));
    }
    while i < rels.len()
        invariant
            i <= rels.len(),
            all == relation_views(rels@),
            test == export_test(borrowed_views(local@), texts(exports@), texts(ignores@)),
            dir == ViolationDirection::NonExportedReference,
            all_regex_compile(texts(exports@)),
            all_glob_compile(texts(ignores@)),
            violation_views(violations@) == violations_of(dir, all.take(i as int), test),
        decreases rels.len() - i,
    {
        let rel = &rels[i];
        proof {
            lemma_filter_step(all, test, i as int);
        }
        if !is_ignored(ignores, rel.file.as_str()) && defines(local, &rel.namespace) && !matches_any(
            exports,
            rel.namespace.as_str(),
        ) {
            let ghost before = violation_views(violations@);
            violations.push(
                BoxViolation { dir: ViolationDirection::NonExportedReference, rel: rel.clone() },
            );
            assert(violation_views(violations@) =~= before.push(charge(dir)(rel@)));
            assert(violations_of(dir, all.take(i + 1), test) =~= before.push(charge(dir)(rel@)));
        }
        i = i + 1;
    }
    assert(all.take(rels.len() as int) =~= all);
    violations
}

/// The import check: the references from files of the box to what the box
/// neither imports nor defines within reach of the caller.
pub fn check_imports(
    dir: &str,
    local: &Vec<&Definition>,
    imports: &Vec<String>,
    rels: &[Relation],
) -> (violations: Vec<BoxViolation>)
    requires
        all_regex_compile(texts(imports@)),
    ensures
        violation_views(violations@) == import_violations(
            dir@,
            borrowed_views(local@),
            texts(imports@),
            relation_views(rels@),
        ),
{
    let mut violations: Vec<BoxViolation> = Vec::new();
    let ghost all = relation_views(rels@);
    let ghost test = import_test(dir@, borrowed_views(local@), texts(imports@));
    let ghost charged = ViolationDirection::NonImportedReference;
    let mut i: usize = 0;
    proof {
        reveal(Seq::filter);
        assert(violations_of(charged, all.take(0), test) =~= violation_views(violations@));
    }
    while i < rels.len()
        invariant
            i <= rels.len(),
            all == relation_views(rels@),
            test == import_test(dir@, borrowed_views(local@), texts(imports@)),
            charged == ViolationDirection::NonImportedReference,
            all_regex_compile(texts(imports@)),
            violation_views(violations@) == violations_of(charged, all.take(i as int), test),
        decreases rels.len() - i,
    {
        let rel = &rels[i];
        proof {
            lemma_filter_step(all, test, i as int);
        }
        if path_is_under(rel.file.as_str(), dir) && !(matches_any(imports, rel.namespace.as_str())
            || matches_to_self(rel, local)) {
            let ghost before = violation_views(violations@);
            violations.push(
                BoxViolation { dir: ViolationDirection::NonImportedReference, rel: rel.clone() },
            );
            assert(violation_views(violations@) =~= before.push(charge(charged)(rel@)));
            assert(violations_of(charged, all.take(i + 1), test) =~= before.push(
                charge(charged)(rel@),
            ));
        }
        i = i + 1;
    }
    assert(all.take(rels.len() as int) =~= all);
    violations
}

/// Checks the corpus against the box whose boundary is the directory `dir`.
/// The export violations come first, then the import violations, each in the
/// order of the references.
pub fn enforce_within(
    dir: &str,
    ruby_box: RubyBox,
    defs: &[Definition],
    rels: &[Relation],
    ignores: &[String],
) -> (violations: Vec<BoxViolation>)
    requires
        ruby_box.wf(),
        all_glob_compile(texts(ignores@)),
    ensures
        violation_views(violations@) == violations_within(
            dir@,
            ruby_box@,
            definition_views(defs@),
            relation_views(rels@),
            texts(ignores@),
        ),
{
    let local = definitions_under(defs, dir);
    let mut violations = check_exports(&local, &ruby_box.exports, ignores, rels);
    let mut inward = check_imports(dir, &local, &ruby_box.imports, rels);
    let ghost outward = violation_views(violations@);
    let ghost inward_views = violation_views(inward@);
    violations.append(&mut inward);
    assert(violation_views(violations@) =~= outward + inward_views);
    violations
}

/// Checks the corpus against the box whose document is at `box_path`. The
/// boundary is the parent directory of the document; without one there is
/// nothing to check.
pub fn enforce_box(
    box_path: &str,
    ruby_box: RubyBox,
    defs: &[Definition],
    rels: &[Relation],
    ignores: &[String],
) -> (violations: Vec<BoxViolation>)
    requires
        ruby_box.wf(),
        all_glob_compile(texts(ignores@)),
    ensures
        violation_views(violations@) == box_violations(
            box_path@,
            ruby_box@,
            definition_views(defs@),
            relation_views(rels@),
            texts(ignores@),
        ),
{
    match parent_of(box_path) {
        None => {
            let violations: Vec<BoxViolation> = Vec::new();
            assert(violation_views(violations@) =~= Seq::empty());
            violations
        },
        Some(dir) => enforce_within(dir.as_str(), ruby_box, defs, rels, ignores),
    }
}

/// A pattern that does not compile: the list that holds it and its place
/// there.
#[derive(Debug, Clone, Copy, PartialEq, Eq, Structural)]
pub enum PatternError {
    Import(usize),
    Export(usize),
    Ignore(usize),
}

/// The place of the first regular expression, from `i` on, that does not
/// compile.
pub open spec fn first_invalid_regex_from(patterns: Seq<Seq<char>>, i: int) -> Option<usize>
    decreases patterns.len() - i,
{
    if i < 0 || i >= patterns.len() {
        None
    } else if !regex_compiles(patterns[i]) {
        Some(i as usize)
    } else {
        first_invalid_regex_from(patterns, i + 1)
    }
}

/// The place of the first regular expression that does not compile.
pub open spec fn first_invalid_regex(patterns: Seq<Seq<char>>) -> Option<usize> {
    first_invalid_regex_from(patterns, 0)
}

/// The place of the first glob, from `i` on, that does not compile.
pub open spec fn first_invalid_glob_from(patterns: Seq<Seq<char>>, i: int) -> Option<usize>
    decreases patterns.len() - i,
{
    if i < 0 || i >= patterns.len() {
        None
    } else if !glob_compiles(patterns[i]) {
        Some(i as usize)
    } else {
        first_invalid_glob_from(patterns, i + 1)
    }
}

/// The place of the first glob that does not compile.
pub open spec fn first_invalid_glob(patterns: Seq<Seq<char>>) -> Option<usize> {
    first_invalid_glob_from(patterns, 0)
}

/// No regular expression is invalid from `i` on exactly when all of them
/// compile from there on.
pub proof fn lemma_first_invalid_regex(patterns: Seq<Seq<char>>, i: int)
    requires
        0 <= i,
    ensures
        first_invalid_regex_from(patterns, i).is_none() <==> forall|j: int|
            i <= j < patterns.len() ==> regex_compiles(#[trigger] patterns[j]),
    decreases patterns.len() - i,
{
    if i < patterns.len() {
        lemma_first_invalid_regex(patterns, i + 1);
    }
}

/// No glob is invalid from `i` on exactly when all of them compile from there
/// on.
pub proof fn lemma_first_invalid_glob(patterns: Seq<Seq<char>>, i: int)
    requires
        0 <= i,
    ensures
        first_invalid_glob_from(patterns, i).is_none() <==> forall|j: int|
            i <= j < patterns.len() ==> glob_compiles(#[trigger] patterns[j]),
    decreases patterns.len() - i,
{
    if i < patterns.len() {
        lemma_first_invalid_glob(patterns, i + 1);
    }
}

/// Looks for the first regular expression of the list that does not compile.
pub fn find_invalid_regex(patterns: &Vec<String>) -> (bad: Option<usize>)
    ensures
        bad == first_invalid_regex(texts(patterns@)),
        bad.is_none() == all_regex_compile(texts(patterns@)),
{
    let mut i: usize = 0;
    proof {
        lemma_first_invalid_regex(texts(patterns@), 0);
    }
    while i < patterns.len()
        invariant
            i <= patterns.len(),
            first_invalid_regex(texts(patterns@)) == first_invalid_regex_from(
                texts(patterns@),
                i as int,
            ),
        decreases patterns.len() - i,
    {
        if regex_try_match(patterns[i].as_str(), "").is_none() {
            return Some(i);
        }
        i = i + 1;
    }
    None
}

/// Looks for the first glob of the list that does not compile.
pub fn find_invalid_glob(patterns: &[String]) -> (bad: Option<usize>)
    ensures
        bad == first_invalid_glob(texts(patterns@)),
        bad.is_none() == all_glob_compile(texts(patterns@)),
{
    let mut i: usize = 0;
    proof {
        lemma_first_invalid_glob(texts(patterns@), 0);
    }
    while i < patterns.len()
        invariant
            i <= patterns.len(),
            first_invalid_glob(texts(patterns@)) == first_invalid_glob_from(
                texts(patterns@),
                i as int,
            ),
        decreases patterns.len() - i,
    {
        if glob_try_match(patterns[i].as_str(), "").is_none() {
            return Some(i);
        }
        i = i + 1;
    }
    None
}

/// Reads a list of patterns as it stands in a box document: the list itself
/// where every pattern compiles, else the place of the first that does not.
pub fn deserialize(patterns: Vec<String>) -> (res: Result<Vec<String>, usize>)
    ensures
        match res {
            Ok(list) => list == patterns && first_invalid_regex(texts(patterns@)).is_none()
                && all_regex_compile(texts(list@)),
            Err(i) => first_invalid_regex(texts(patterns@)) == Some(i),
        },
{
    match find_invalid_regex(&patterns) {
        Some(i) => Err(i),
        None => Ok(patterns),
    }
}

/// Writes a list of patterns as it stands in a box document: each pattern in
/// the text it was written in, in the order of the list.
pub fn serialize(patterns: &Vec<String>) -> (written: Vec<String>)
    ensures
        texts(written@) == texts(patterns@),
{
    let mut written: Vec<String> = Vec::new();
    let mut i: usize = 0;
    while i < patterns.len()
        invariant
            i <= patterns.len(),
            texts(written@) == texts(patterns@).take(i as int),
        decreases patterns.len() - i,
    {
        let ghost before = texts(written@);
        written.push(patterns[i].clone());
        assert(texts(written@) =~= before.push(patterns@[i as int]@));
        assert(texts(patterns@).take(i + 1) =~= before.push(patterns@[i as int]@));
        i = i + 1;
    }
    assert(texts(patterns@).take(patterns.len() as int) =~= texts(patterns@));
    written
}

/// The box that a document stands for. A document that could not be read
/// (`None`) stands for the empty box. One that was read gives its two lists,
/// unless a pattern does not compile: the imports are looked at first.
pub open spec fn parsed(document: Option<(Seq<Seq<char>>, Seq<Seq<char>>)>) -> Result<
    RubyBoxView,
    PatternError,
> {
    match document {
        None => Ok(RubyBoxView { imports: Seq::empty(), exports: Seq::empty() }),
        Some((imports, exports)) => match first_invalid_regex(imports) {
            Some(i) => Err(PatternError::Import(i)),
            None => match first_invalid_regex(exports) {
                Some(i) => Err(PatternError::Export(i)),
                None => Ok(RubyBoxView { imports, exports }),
            },
        },
    }
}

/// The two lists of a document as texts.
pub open spec fn document_view(document: Option<(Vec<String>, Vec<String>)>) -> Option<
    (Seq<Seq<char>>, Seq<Seq<char>>),
> {
    match document {
        None => None,
        Some((imports, exports)) => Some((texts(imports@), texts(exports@))),
    }
}

/// Makes the box of a document from its two lists, `imports` and `exports`,
/// or from `None` where the document is missing or malformed.
pub fn parse(document: Option<(Vec<String>, Vec<String>)>) -> (res: Result<RubyBox, PatternError>)
    ensures
        match res {
            Ok(ruby_box) => parsed(document_view(document)) == Ok::<RubyBoxView, PatternError>(
                ruby_box@,
            ) && ruby_box.wf(),
            Err(e) => parsed(document_view(document)) == Err::<RubyBoxView, PatternError>(e),
        },
{
    match document {
        None => {
            let ruby_box = RubyBox { imports: Vec::new(), exports: Vec::new() };
            assert(ruby_box@.imports =~= Seq::empty());
            assert(ruby_box@.exports =~= Seq::empty());
            Ok(ruby_box)
        },
        Some((imports, exports)) => {
            match deserialize(imports) {
                Err(i) => Err(PatternError::Import(i)),
                Ok(imports) => match deserialize(exports) {
                    Err(i) => Err(PatternError::Export(i)),
                    Ok(exports) => Ok(RubyBox { imports, exports }),
                },
            }
        },
    }
}

/// The first pattern that does not compile among the imports, the exports and
/// the ignore globs, looked at in this order.
pub open spec fn first_invalid_pattern(
    ruby_box: RubyBoxView,
    ignores: Seq<Seq<char>>,
) -> Option<PatternError> {
    match first_invalid_regex(ruby_box.imports) {
        Some(i) => Some(PatternError::Import(i)),
        None => match first_invalid_regex(ruby_box.exports) {
            Some(i) => Some(PatternError::Export(i)),
            None => match first_invalid_glob(ignores) {
                Some(i) => Some(PatternError::Ignore(i)),
                None => None,
            },
        },
    }
}

/// Checks the corpus against a box whose patterns, and the ignore globs, may
/// not compile. The first that does not is reported, and nothing is enforced;
/// else the outcome is that of `enforce_box`.
pub fn enforce(
    box_path: &str,
    ruby_box: RubyBox,
    defs: &[Definition],
    rels: &[Relation],
    ignores: &[String],
) -> (res: Result<Vec<BoxViolation>, PatternError>)
    ensures
        match first_invalid_pattern(ruby_box@, texts(ignores@)) {
            Some(e) => res == Err::<Vec<BoxViolation>, PatternError>(e),
            None => res matches Ok(violations) && violation_views(violations@) == box_violations(
                box_path@,
                ruby_box@,
                definition_views(defs@),
                relation_views(rels@),
                texts(ignores@),
            ),
        },
{
    if let Some(i) = find_invalid_regex(&ruby_box.imports) {
        return Err(PatternError::Import(i));
    }
    if let Some(i) = find_invalid_regex(&ruby_box.exports) {
        return Err(PatternError::Export(i));
    }
    if let Some(i) = find_invalid_glob(ignores) {
        return Err(PatternError::Ignore(i));
    }
    Ok(enforce_box(box_path, ruby_box, defs, rels, ignores))
}

/// A box that is written out as its two lists of patterns and read back is
/// the same box: it has the same patterns in the same order, so it matches
/// exactly the texts that the first one matched.
pub proof fn lemma_round_trip(ruby_box: RubyBoxView, probe: Seq<char>)
    requires
        ruby_box.wf(),
    ensures
        parsed(Some((ruby_box.imports, ruby_box.exports))) matches Ok(reread) && reread == ruby_box
            && any_regex_matches(reread.imports, probe) == any_regex_matches(
            ruby_box.imports,
            probe,
        ) && any_regex_matches(reread.exports, probe) == any_regex_matches(
            ruby_box.exports,
            probe,
        ),
{
    lemma_first_invalid_regex(ruby_box.imports, 0);
    lemma_first_invalid_regex(ruby_box.exports, 0);
}

/// The character of a decimal digit.
pub open spec fn digit(d: nat) -> char {
    if d == 0 {
        '0'
    } else if d == 1 {
        '1'
    } else if d == 2 {
        '2'
    } else if d == 3 {
        '3'
    } else if d == 4 {
        '4'
    } else if d == 5 {
        '5'
    } else if d == 6 {
        '6'
    } else if d == 7 {
        '7'
    } else if d == 8 {
        '8'
    } else {
        '9'
    }
}

/// A number written in decimal, without leading zeros.
pub open spec fn decimal(n: nat) -> Seq<char>
    decreases n,
{
    if n < 10 {
        seq![digit(n)]
    } else {
        decimal(n / 10).push(digit(n % 10))
    }
}

/// The words that name a direction in a message.
pub open spec fn direction_words(dir: ViolationDirection) -> Seq<char> {
    match dir {
        ViolationDirection::NonImportedReference => "non imported reference "@,
        ViolationDirection::NonExportedReference => "non exported reference "@,
    }
}

/// The message that reports a violation: the direction, the namespace that
/// was referred to, and the file and line of the reference.
pub open spec fn message_of(violation: BoxViolationView) -> Seq<char> {
    direction_words(violation.dir) + violation.rel.namespace + " found in "@ + violation.rel.file
        + " on line "@ + decimal(violation.rel.line as nat)
}

/// Appends `n` in decimal to `out`.
pub fn write_decimal(n: usize, out: &mut String)
    ensures
        final(out)@ == old(out)@ + decimal(n as nat),
    decreases n,
{
    if n >= 10 {
        write_decimal(n / 10, out);
    }
    let d: usize = n % 10;
    proof {
        reveal_strlit("0");
        reveal_strlit("1");
        reveal_strlit("2");
        reveal_strlit("3");
        reveal_strlit("4");
        reveal_strlit("5");
        reveal_strlit("6");
        reveal_strlit("7");
        reveal_strlit("8");
        reveal_strlit("9");
    }
    let text = if d == 0 {
        "0"
    } else if d == 1 {
        "1"
    } else if d == 2 {
        "2"
    } else if d == 3 {
        "3"
    } else if d == 4 {
        "4"
    } else if d == 5 {
        "5"
    } else if d == 6 {
        "6"
    } else if d == 7 {
        "7"
    } else if d == 8 {
        "8"
    } else {
        "9"
    };
    assert(text@ =~= seq![digit(d as nat)]);
    out.append(text);
    assert(out@ =~= old(out)@ + decimal(n as nat));
}

impl BoxViolation {
    /// The message that reports this violation.
    pub fn message(&self) -> (text: String)
        ensures
            text@ == message_of(self@),
    {
        let mut text = match self.dir {
            ViolationDirection::NonImportedReference => String::from_str("non imported reference "),
            ViolationDirection::NonExportedReference => String::from_str("non exported reference "),
        };
        text.append(self.rel.namespace.as_str());
        text.append(" found in ");
        text.append(self.rel.file.as_str());
        text.append(" on line ");
        write_decimal(self.rel.line, &mut text);
        text
    }
}

} // verus!
