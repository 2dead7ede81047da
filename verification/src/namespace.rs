//! Namespaces as text: segments joined by `::`.

use vstd::prelude::*;
use vstd::std_specs::iter::IteratorSpec;
use vstd::string::*;

verus! {

/// The separator between two segments of a namespace.
pub open spec fn separator() -> Seq<char> {
    seq![':', ':']
}

/// A separator starts at position `i` of `s`.
pub open spec fn separator_at(s: Seq<char>, i: int) -> bool {
    0 <= i && i + 2 <= s.len() && s[i] == ':' && s[i + 1] == ':'
}

/// The segments of `s` that are still to come when the scan stands at `i` and
/// the segment under way began at `start`. Separators are taken from the left
/// and do not overlap.
pub open spec fn segments_from(s: Seq<char>, start: int, i: int) -> Seq<Seq<char>>
    recommends
        0 <= start <= i <= s.len(),
    decreases s.len() - i,
{
    if i >= s.len() {
        seq![s.subrange(start, s.len() as int)]
    } else if separator_at(s, i) {
        seq![s.subrange(start, i)] + segments_from(s, i + 2, i + 2)
    } else {
        segments_from(s, start, i + 1)
    }
}

/// The segments of a namespace. The empty namespace has one empty segment.
pub open spec fn segments(s: Seq<char>) -> Seq<Seq<char>> {
    segments_from(s, 0, 0)
}

/// The segments written out with a separator between each two neighbours.
pub open spec fn join(parts: Seq<Seq<char>>) -> Seq<char>
    decreases parts.len(),
{
    if parts.len() == 0 {
        Seq::empty()
    } else if parts.len() == 1 {
        parts[0]
    } else {
        join(parts.drop_last()) + separator() + parts.last()
    }
}

/// The texts that a vector of strings holds.
pub open spec fn texts(v: Seq<String>) -> Seq<Seq<char>> {
    v.map_values(|s: String| s@)
}

/// What is left of `parts` when its last `dropped` segments are removed;
/// removing from an empty chain leaves it empty.
pub open spec fn without_last(parts: Seq<Seq<char>>, dropped: nat) -> Seq<Seq<char>> {
    if parts.len() >= dropped {
        parts.take(parts.len() - dropped)
    } else {
        Seq::empty()
    }
}

/// The namespace that `reference` names when it is looked up from the scope
/// `dropped` levels above `caller`: the caller's chain without its last
/// `dropped` segments, then the reference.
pub open spec fn candidate(caller: Seq<char>, reference: Seq<char>, dropped: nat) -> Seq<char> {
    join(without_last(segments(caller), dropped).push(reference))
}

/// Joining a chain with one more segment appends a separator and the segment,
/// or gives the segment alone when the chain was empty.
pub proof fn lemma_join_push(parts: Seq<Seq<char>>, last: Seq<char>)
    ensures
        join(parts.push(last)) == if parts.len() == 0 {
            last
        } else {
            join(parts) + separator() + last
        },
{
    assert(parts.push(last).drop_last() =~= parts);
}

/// The characters of a string, in one pass over it.
pub fn characters(s: &str) -> (chars: Vec<char>)
    ensures
        chars@ == s@,
{
    let mut rest = s.chars();
    let mut chars: Vec<char> = Vec::new();
    assert(chars@ + rest.remaining() =~= s@);
    loop
        invariant
            rest.obeys_prophetic_iter_laws(),
            rest.decrease() is Some,
            chars@ + rest.remaining() == s@,
        ensures
            chars@ == s@,
        decreases rest.decrease()->0,
    {
        match rest.next() {
            Some(c) => {
                chars.push(c);
                assert(chars@ + rest.remaining() =~= s@);
            },
            None => {
                assert(chars@ =~= s@);
                break ;
            },
        }
    }
    chars
}

/// Splits a namespace into its segments.
pub fn split(s: &str) -> (parts: Vec<String>)
    ensures
        texts(parts@) == segments(s@),
{
    let chars = characters(s);
    let n: usize = chars.len();
    let mut parts: Vec<String> = Vec::new();
    let mut start: usize = 0;
    let mut i: usize = 0;
    assert(texts(parts@) + segments_from(s@, 0, 0) =~= segments(s@));
    while i < n
        invariant
            start <= i <= n,
            n == s@.len(),
            chars@ == s@,
            texts(parts@) + segments_from(s@, start as int, i as int) == segments(s@),
        decreases n - i,
    {
        if i + 1 < n && chars[i] == ':' && chars[i + 1] == ':' {
            let ghost before = texts(parts@);
            parts.push(String::from_str(s.substring_char(start, i)));
            assert(texts(parts@) =~= before.push(s@.subrange(start as int, i as int)));
            assert(texts(parts@) + segments_from(s@, i + 2, i + 2) =~= before + segments_from(
                s@,
                start as int,
                i as int,
            ));
            i = i + 2;
            start = i;
        } else {
            i = i + 1;
        }
    }
    let ghost before = texts(parts@);
    parts.push(String::from_str(s.substring_char(start, n)));
    assert(texts(parts@) =~= before.push(s@.subrange(start as int, n as int)));
    assert(texts(parts@) =~= before + segments_from(s@, start as int, i as int));
    parts
}

/// Writes the first `count` segments of `parts`, a separator between each two,
/// and then `last` as one more segment.
pub fn join_with(parts: &Vec<String>, count: usize, last: &str) -> (joined: String)
    requires
        count <= parts.len(),
    ensures
        joined@ == join(texts(parts@).take(count as int).push(last@)),
{
    let mut joined: String = String::new();
    let mut i: usize = 0;
    proof {
        reveal_strlit("::");
        assert("::"@ =~= separator());
    }
    while i < count
        invariant
            i <= count <= parts.len(),
            "::"@ == separator(),
            joined@ == if i == 0 {
                Seq::<char>::empty()
            } else {
                join(texts(parts@).take(i as int)) + separator()
            },
        decreases count - i,
    {
        proof {
            let done = texts(parts@).take(i as int);
            assert(texts(parts@).take(i + 1) =~= done.push(parts@[i as int]@));
            lemma_join_push(done, parts@[i as int]@);
        }
        joined.append(parts[i].as_str());
        joined.append("::");
        assert(joined@ =~= join(texts(parts@).take(i + 1)) + separator());
        i = i + 1;
    }
    proof {
        lemma_join_push(texts(parts@).take(count as int), last@);
    }
    joined.append(last);
    assert(joined@ =~= join(texts(parts@).take(count as int).push(last@)));
    joined
}

} // verus!
