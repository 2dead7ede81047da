//! The box generator: the allow-lists that would permit what a corpus does
//! today.

use crate::namespace::{characters, texts};
use crate::parser::{Definition, Relation, definition_views, relation_views};
use crate::ruby_box::{
    all_regex_compile, box_violations, enforce_box, find_invalid_glob, find_invalid_regex,
    first_invalid_glob, first_invalid_regex, violation_views, BoxViolation, BoxViolationView,
    PatternError, RubyBox, RubyBoxView, ViolationDirection,
};
use vstd::prelude::*;

verus! {

/// The order of strings: `a` comes before `b` when `a` is a proper prefix of
/// `b`, or has the smaller character at the first place where they differ.
pub open spec fn comes_before(a: Seq<char>, b: Seq<char>) -> bool
    decreases a.len(),
{
    if b.len() == 0 {
        false
    } else if a.len() == 0 {
        true
    } else if a[0] == b[0] {
        comes_before(a.drop_first(), b.drop_first())
    } else {
        (a[0] as int) < (b[0] as int)
    }
}

/// No string comes before itself.
pub proof fn lemma_order_irreflexive(a: Seq<char>)
    ensures
        !comes_before(a, a),
    decreases a.len(),
{
    if a.len() > 0 {
        lemma_order_irreflexive(a.drop_first());
    }
}

/// The order of strings is transitive.
pub proof fn lemma_order_transitive(a: Seq<char>, b: Seq<char>, c: Seq<char>)
    requires
        comes_before(a, b),
        comes_before(b, c),
    ensures
        comes_before(a, c),
    decreases a.len(),
{
    if a.len() > 0 && a[0] == b[0] && b[0] == c[0] {
        lemma_order_transitive(a.drop_first(), b.drop_first(), c.drop_first());
    }
}

/// Of two different strings one comes before the other.
pub proof fn lemma_order_total(a: Seq<char>, b: Seq<char>)
    requires
        a != b,
    ensures
        comes_before(a, b) || comes_before(b, a),
    decreases a.len(),
{
    if a.len() == 0 || b.len() == 0 {
        if a.len() == 0 && b.len() == 0 {
            assert(a =~= b);
        }
    } else if a[0] == b[0] {
        if a.drop_first() == b.drop_first() {
            assert(a =~= seq![a[0]] + a.drop_first());
            assert(b =~= seq![b[0]] + b.drop_first());
        }
        lemma_order_total(a.drop_first(), b.drop_first());
    }
}

/// Each string of the list comes before all that follow it: the list is
/// sorted and holds nothing twice.
pub open spec fn ascending(list: Seq<Seq<char>>) -> bool {
    forall|i: int, j: int| 0 <= i < j < list.len() ==> comes_before(list[i], list[j])
}

/// Some violation of direction `dir` is about the namespace `namespace`.
pub open spec fn charged(
    violations: Seq<BoxViolationView>,
    dir: ViolationDirection,
    namespace: Seq<char>,
) -> bool {
    exists|i: int|
        0 <= i < violations.len() && (#[trigger] violations[i]).dir == dir
            && violations[i].rel.namespace == namespace
}

/// `list` is the allow-list for the violations of direction `dir`: their
/// namespaces, each once, in ascending order.
pub open spec fn is_allow_list(
    list: Seq<Seq<char>>,
    violations: Seq<BoxViolationView>,
    dir: ViolationDirection,
) -> bool {
    &&& ascending(list)
    &&& forall|namespace: Seq<char>|
        list.contains(namespace) <==> charged(violations, dir, namespace)
}

/// Two ascending lists that hold the same strings are the same list.
pub proof fn lemma_ascending_unique(a: Seq<Seq<char>>, b: Seq<Seq<char>>)
    requires
        ascending(a),
        ascending(b),
        forall|s: Seq<char>| a.contains(s) <==> b.contains(s),
    ensures
        a == b,
    decreases a.len(),
{
    if a.len() == 0 {
        if b.len() > 0 {
            assert(b.contains(b[0]));
        }
        assert(a =~= b);
    } else {
        let x = a.last();
        assert(a.contains(x));
        let k = choose|k: int| 0 <= k < b.len() && b[k] == x;
        let y = b.last();
        assert(b.contains(y));
        let m = choose|m: int| 0 <= m < a.len() && a[m] == y;
        if x != y {
            assert(comes_before(b[k], b[b.len() - 1]));
            assert(comes_before(a[m], a[a.len() - 1]));
            lemma_order_transitive(x, y, x);
            lemma_order_irreflexive(x);
        }
        let front = a.drop_last();
        let other = b.drop_last();
        assert forall|s: Seq<char>| front.contains(s) <==> other.contains(s) by {
            if front.contains(s) {
                let i = choose|i: int| 0 <= i < front.len() && front[i] == s;
                assert(comes_before(a[i], a[a.len() - 1]));
                lemma_order_irreflexive(x);
                assert(a.contains(s));
                let j = choose|j: int| 0 <= j < b.len() && b[j] == s;
                assert(other[j] == s);
            }
            if other.contains(s) {
                let i = choose|i: int| 0 <= i < other.len() && other[i] == s;
                assert(comes_before(b[i], b[b.len() - 1]));
                lemma_order_irreflexive(y);
                assert(b.contains(s));
                let j = choose|j: int| 0 <= j < a.len() && a[j] == s;
                assert(front[j] == s);
            }
        }
        lemma_ascending_unique(front, other);
        assert(a =~= front.push(x));
        assert(b =~= other.push(y));
    }
}

/// The violations of a direction have one allow-list and no other.
pub proof fn lemma_allow_list_unique(
    a: Seq<Seq<char>>,
    b: Seq<Seq<char>>,
    violations: Seq<BoxViolationView>,
    dir: ViolationDirection,
)
    requires
        is_allow_list(a, violations, dir),
        is_allow_list(b, violations, dir),
    ensures
        a == b,
{
    lemma_ascending_unique(a, b);
}

/// Whether `a` comes before `b` in the order of strings.
pub fn precedes(a: &String, b: &String) -> (res: bool)
    ensures
        res == comes_before(a@, b@),
{
    let left = characters(a.as_str());
    let right = characters(b.as_str());
    let n: usize = left.len();
    let m: usize = right.len();
    let mut i: usize = 0;
    assert(a@.skip(0) =~= a@ && b@.skip(0) =~= b@);
    while i < n && i < m
        invariant
            i <= n,
            i <= m,
            n == a@.len(),
            m == b@.len(),
            left@ == a@,
            right@ == b@,
            comes_before(a@, b@) == comes_before(a@.skip(i as int), b@.skip(i as int)),
        decreases n - i,
    {
        let x = left[i];
        let y = right[i];
        assert(a@.skip(i as int)[0] == x && b@.skip(i as int)[0] == y);
        if x != y {
            return x < y;
        }
        assert(a@.skip(i as int).drop_first() =~= a@.skip(i + 1));
        assert(b@.skip(i as int).drop_first() =~= b@.skip(i + 1));
        i = i + 1;
    }
    i < m
}

/// Puts `item` into an ascending list at its place, unless the list holds it
/// already.
pub fn insert_ascending(list: &mut Vec<String>, item: &String)
    requires
        ascending(texts(old(list)@)),
    ensures
        ascending(texts(final(list)@)),
        forall|s: Seq<char>|
            texts(final(list)@).contains(s) <==> (texts(old(list)@).contains(s) || s == item@),
{
    let ghost before = texts(list@);
    let mut at: usize = 0;
    while at < list.len() && precedes(&list[at], item)
        invariant
            at <= list.len(),
            texts(list@) == before,
            forall|j: int| 0 <= j < at ==> comes_before(#[trigger] before[j], item@),
        decreases list.len() - at,
    {
        at = at + 1;
    }
    if at < list.len() && list[at] == *item {
        assert(before[at as int] == item@);
        return ;
    }
    proof {
        if at < list.len() {
            lemma_order_total(item@, before[at as int]);
            assert forall|j: int| at <= j < before.len() implies comes_before(
                item@,
                #[trigger] before[j],
            ) by {
                if j > at {
                    lemma_order_transitive(item@, before[at as int], before[j]);
                }
            }
        }
        list@.insert_ensures(at as int, *item);
        before.insert_ensures(at as int, item@);
    }
    list.insert(at, item.clone());
    proof {
        let after = texts(list@);
        let grown = before.insert(at as int, item@);
        assert(after =~= grown) by {
            assert(after.len() == grown.len());
            assert forall|k: int| 0 <= k < after.len() implies after[k] == grown[k] by {
                if k > at {
                    assert(grown[(k - 1) + 1] == before[k - 1]);
                }
            }
        }
        assert forall|i: int, j: int| 0 <= i < j < grown.len() implies comes_before(
            grown[i],
            grown[j],
        ) by {
            if i > at {
                assert(grown[(i - 1) + 1] == before[i - 1]);
            }
            if j > at {
                assert(grown[(j - 1) + 1] == before[j - 1]);
            }
        }
        assert forall|s: Seq<char>| grown.contains(s) <==> (before.contains(s) || s == item@) by {
            if grown.contains(s) {
                let k = choose|k: int| 0 <= k < grown.len() && grown[k] == s;
                if k > at {
                    assert(grown[(k - 1) + 1] == before[k - 1]);
                }
            }
            if before.contains(s) {
                let k = choose|k: int| 0 <= k < before.len() && before[k] == s;
                if k >= at {
                    assert(grown[k + 1] == s);
                } else {
                    assert(grown[k] == s);
                }
            }
            if s == item@ {
                assert(grown[at as int] == s);
            }
        }
    }
}

/// The allow-list for the violations of one direction.
pub fn allow_list(violations: &Vec<BoxViolation>, dir: ViolationDirection) -> (list: Vec<String>)
    ensures
        is_allow_list(texts(list@), violation_views(violations@), dir),
{
    let mut list: Vec<String> = Vec::new();
    let ghost all = violation_views(violations@);
    let mut i: usize = 0;
    while i < violations.len()
        invariant
            i <= violations.len(),
            all == violation_views(violations@),
            is_allow_list(texts(list@), all.take(i as int), dir),
        decreases violations.len() - i,
    {
        let ghost before = texts(list@);
        let ghost seen = all.take(i as int);
        let ghost next = all.take(i + 1);
        if violations[i].dir == dir {
            insert_ascending(&mut list, &violations[i].rel.namespace);
        }
        proof {
            let here = all[i as int];
            assert forall|s: Seq<char>| texts(list@).contains(s) <==> charged(next, dir, s) by {
                if charged(next, dir, s) {
                    let k = choose|k: int|
                        0 <= k < next.len() && (#[trigger] next[k]).dir == dir
                            && next[k].rel.namespace == s;
                    if k < i {
                        assert(seen[k] == next[k]);
                        assert(charged(seen, dir, s));
                    }
                }
                if charged(seen, dir, s) {
                    let k = choose|k: int|
                        0 <= k < seen.len() && (#[trigger] seen[k]).dir == dir
                            && seen[k].rel.namespace == s;
                    assert(next[k] == seen[k]);
                }
                if here.dir == dir && s == here.rel.namespace {
                    assert(next[i as int] == here);
                }
            }
        }
        i = i + 1;
    }
    assert(all.take(violations.len() as int) =~= all);
    list
}

/// The box that permits exactly what the violations are about: the
/// namespaces of the references that were not imported become its imports,
/// those of the references that were not exported its exports, each written
/// as a pattern as it stands.
pub fn derive_box(violations: &Vec<BoxViolation>) -> (derived: RubyBox)
    ensures
        is_allow_list(
            derived@.imports,
            violation_views(violations@),
            ViolationDirection::NonImportedReference,
        ),
        is_allow_list(
            derived@.exports,
            violation_views(violations@),
            ViolationDirection::NonExportedReference,
        ),
{
    let imports = allow_list(violations, ViolationDirection::NonImportedReference);
    let exports = allow_list(violations, ViolationDirection::NonExportedReference);
    RubyBox { imports, exports }
}

/// The box without any pattern.
pub open spec fn empty_box() -> RubyBoxView {
    RubyBoxView { imports: Seq::empty(), exports: Seq::empty() }
}

/// Generates the box for the document at `box_path`: the corpus is checked
/// against a box that allows nothing, and the box is derived from every
/// violation found. An ignore glob that does not compile is reported before
/// anything is checked; a namespace that is no pattern is reported in place
/// of the box.
pub fn generate(box_path: &str, defs: &[Definition], rels: &[Relation], ignores: &[String]) -> (res:
    Result<RubyBox, PatternError>)
    ensures
        match first_invalid_glob(texts(ignores@)) {
            Some(i) => res == Err::<RubyBox, PatternError>(PatternError::Ignore(i)),
            None => {
                let violations = box_violations(
                    box_path@,
                    empty_box(),
                    definition_views(defs@),
                    relation_views(rels@),
                    texts(ignores@),
                );
                match res {
                    Ok(derived) => {
                        &&& derived.wf()
                        &&& is_allow_list(
                            derived@.imports,
                            violations,
                            ViolationDirection::NonImportedReference,
                        )
                        &&& is_allow_list(
                            derived@.exports,
                            violations,
                            ViolationDirection::NonExportedReference,
                        )
                    },
                    Err(PatternError::Import(i)) => exists|list: Seq<Seq<char>>|
                        is_allow_list(list, violations, ViolationDirection::NonImportedReference)
                            && first_invalid_regex(list) == Some(i),
                    Err(PatternError::Export(i)) => exists|list: Seq<Seq<char>>|
                        is_allow_list(list, violations, ViolationDirection::NonExportedReference)
                            && first_invalid_regex(list) == Some(i),
                    Err(PatternError::Ignore(_)) => false,
                }
            },
        },
{
    if let Some(i) = find_invalid_glob(ignores) {
        return Err(PatternError::Ignore(i));
    }
    let nothing = RubyBox { imports: Vec::new(), exports: Vec::new() };
    assert(nothing@.imports =~= Seq::empty() && nothing@.exports =~= Seq::empty());
    assert(nothing@ == empty_box());
    let violations = enforce_box(box_path, nothing, defs, rels, ignores);
    let derived = derive_box(&violations);
    if let Some(i) = find_invalid_regex(&derived.imports) {
        return Err(PatternError::Import(i));
    }
    if let Some(i) = find_invalid_regex(&derived.exports) {
        return Err(PatternError::Export(i));
    }
    Ok(derived)
}

} // verus!
