//! The corpus of a scan: what the files yield, merged.

use crate::parser::{
    Definition, DefinitionView, Relation, RelationView, RubyFile, RubyFileView, definition_views,
    relation_views,
};
use vstd::prelude::*;
use vstd::seq_lib::*;

verus! {

/// The contents of a sequence of per-file results.
pub open spec fn file_views(files: Seq<RubyFile>) -> Seq<RubyFileView> {
    files.map_values(|f: RubyFile| f@)
}

/// The corpus of the files: the definitions of all of them and the relations
/// of all of them, file after file.
pub open spec fn merged(files: Seq<RubyFileView>) -> RubyFileView
    decreases files.len(),
{
    if files.len() == 0 {
        RubyFileView { definitions: Seq::empty(), relations: Seq::empty() }
    } else {
        let before = merged(files.drop_last());
        RubyFileView {
            definitions: before.definitions + files.last().definitions,
            relations: before.relations + files.last().relations,
        }
    }
}

/// Merges the results of the files of a scan into one corpus, in the order
/// in which they came in.
pub fn merge(results: Vec<RubyFile>) -> (corpus: (Vec<Definition>, Vec<Relation>))
    ensures
        definition_views(corpus.0@) == merged(file_views(results@)).definitions,
        relation_views(corpus.1@) == merged(file_views(results@)).relations,
{
    let ghost all = file_views(results@);
    let n: usize = results.len();
    let mut results = results;
    let mut waiting: Vec<RubyFile> = Vec::new();
    while results.len() > 0
        invariant
            results.len() + waiting.len() == n,
            all.len() == n,
            forall|j: int| 0 <= j < results.len() ==> (#[trigger] results@[j])@ == all[j],
            forall|j: int| 0 <= j < waiting.len() ==> (#[trigger] waiting@[j])@ == all[n - 1 - j],
        decreases results.len(),
    {
        match results.pop() {
            Some(file) => waiting.push(file),
            None => {},
        }
    }
    let mut defs: Vec<Definition> = Vec::new();
    let mut rels: Vec<Relation> = Vec::new();
    assert(all.take(0) =~= Seq::empty());
    assert(definition_views(defs@) =~= merged(all.take(0)).definitions);
    assert(relation_views(rels@) =~= merged(all.take(0)).relations);
    while waiting.len() > 0
        invariant
            waiting.len() <= n,
            all.len() == n,
            forall|j: int| 0 <= j < waiting.len() ==> (#[trigger] waiting@[j])@ == all[n - 1 - j],
            definition_views(defs@) == merged(all.take(n - waiting.len())).definitions,
            relation_views(rels@) == merged(all.take(n - waiting.len())).relations,
        decreases waiting.len(),
    {
        let ghost k = n - waiting.len();
        let ghost defs0 = definition_views(defs@);
        let ghost rels0 = relation_views(rels@);
        match waiting.pop() {
            Some(file) => {
                let mut file = file;
                assert(file@ == all[k]);
                assert(all.take(k + 1).drop_last() =~= all.take(k));
                defs.append(&mut file.definitions);
                rels.append(&mut file.relations);
                assert(definition_views(defs@) =~= defs0 + all[k].definitions);
                assert(relation_views(rels@) =~= rels0 + all[k].relations);
            },
            None => {},
        }
    }
    assert(all.take(n as int) =~= all);
    (defs, rels)
}

/// Taking one file out of the sequence takes its findings out of the corpus
/// and leaves the rest, counted with multiplicity.
pub proof fn lemma_merged_remove(files: Seq<RubyFileView>, k: int)
    requires
        0 <= k < files.len(),
    ensures
        merged(files).definitions.to_multiset() == merged(
            files.remove(k),
        ).definitions.to_multiset().add(files[k].definitions.to_multiset()),
        merged(files).relations.to_multiset() == merged(files.remove(k)).relations.to_multiset().add(
            files[k].relations.to_multiset(),
        ),
    decreases files.len(),
{
    let front = files.drop_last();
    lemma_multiset_commutative(merged(front).definitions, files.last().definitions);
    lemma_multiset_commutative(merged(front).relations, files.last().relations);
    if k == files.len() - 1 {
        assert(files.remove(k) =~= front);
    } else {
        let less = files.remove(k);
        assert(less.drop_last() =~= front.remove(k));
        assert(less.last() == files.last());
        lemma_merged_remove(front, k);
        lemma_multiset_commutative(merged(front.remove(k)).definitions, files.last().definitions);
        lemma_multiset_commutative(merged(front.remove(k)).relations, files.last().relations);
        assert(merged(files).definitions.to_multiset() =~= merged(
            less,
        ).definitions.to_multiset().add(files[k].definitions.to_multiset()));
        assert(merged(files).relations.to_multiset() =~= merged(less).relations.to_multiset().add(
            files[k].relations.to_multiset(),
        ));
    }
}

/// The corpus does not depend on the order in which the results of the files
/// come in: two sequences of the same results, in any two orders, merge into
/// the same definitions and the same relations, counted with multiplicity.
pub proof fn lemma_merge_order(first: Seq<RubyFileView>, second: Seq<RubyFileView>)
    requires
        first.to_multiset() == second.to_multiset(),
    ensures
        merged(first).definitions.to_multiset() == merged(second).definitions.to_multiset(),
        merged(first).relations.to_multiset() == merged(second).relations.to_multiset(),
    decreases first.len(),
{
    broadcast use group_to_multiset_ensures;

    first.to_multiset_ensures();
    second.to_multiset_ensures();
    if first.len() == 0 {
        assert(second.len() == 0);
    } else {
        let file = first.last();
        let front = first.drop_last();
        assert(first =~= front.push(file));
        assert(second.to_multiset().count(file) > 0);
        assert(second.contains(file));
        let k = choose|k: int| 0 <= k < second.len() && second[k] == file;
        let rest = second.remove(k);
        assert(front.to_multiset() =~= first.to_multiset().remove(file));
        assert(rest.to_multiset() =~= second.to_multiset().remove(file));
        lemma_merge_order(front, rest);
        lemma_merged_remove(second, k);
        lemma_multiset_commutative(merged(front).definitions, file.definitions);
        lemma_multiset_commutative(merged(front).relations, file.relations);
    }
}

} // verus!
