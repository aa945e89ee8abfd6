//! The authors of an entry: its own, then its feed's, each person once.

use vstd::prelude::*;
use linked_hash_set::LinkedHashSet;
use crate::model::{Entry, Feed, Person};

verus! {

#[verifier::external_type_specification]
#[verifier::external_body]
#[verifier::reject_recursive_types(T)]
#[verifier::reject_recursive_types(S)]
pub struct ExLinkedHashSet<T, S>(LinkedHashSet<T, S>);

/// The people in an insertion-ordered set of people, oldest insertion first.
pub uninterp spec fn person_set_items(set: LinkedHashSet<Person>) -> Seq<(Seq<char>, Option<Seq<char>>, Option<Seq<char>>)>;

/// `s` without any occurrence of `x`.
pub open spec fn without<A>(s: Seq<A>, x: A) -> Seq<A>
    decreases s.len(),
{
    if s.len() == 0 {
        s
    } else if s.last() == x {
        without(s.drop_last(), x)
    } else {
        without(s.drop_last(), x).push(s.last())
    }
}

/// Calls `LinkedHashSet::new`, which makes an empty set.
#[verifier::external_body]
fn person_set_new() -> (set: LinkedHashSet<Person>)
    ensures
        person_set_items(set) == Seq::<(Seq<char>, Option<Seq<char>>, Option<Seq<char>>)>::empty(),
{
    LinkedHashSet::new()
}

/// Calls `LinkedHashSet::insert`, which puts `p` at the end of the order,
/// moving it there if an equal person was in the set already (people are
/// equal when their names, URIs and e-mail addresses are), and tells whether
/// it was not.
#[verifier::external_body]
fn person_set_insert(set: &mut LinkedHashSet<Person>, p: Person) -> (added: bool)
    ensures
        added == !person_set_items(*old(set)).contains(p@),
        person_set_items(*final(set)) == without(person_set_items(*old(set)), p@).push(p@),
{
    set.insert(p)
}

/// Calls `LinkedHashSet::iter`, which visits the set in its order, and copies
/// the people out.
#[verifier::external_body]
fn person_set_to_vec(set: &LinkedHashSet<Person>) -> (v: Vec<Person>)
    ensures
        v@.map_values(|p: Person| p@) == person_set_items(*set),
{
    set.iter().cloned().collect()
}

/// The distinct elements of `s`, each where it last occurs in `s`: the order in
/// which an insertion-ordered set that moves re-inserted elements to its end
/// holds them after inserting `s` in turn.
pub open spec fn insertion_order<A>(s: Seq<A>) -> Seq<A>
    decreases s.len(),
{
    if s.len() == 0 {
        s
    } else {
        without(insertion_order(s.drop_last()), s.last()).push(s.last())
    }
}

/// The people shown as the authors of `entry` of `feed`: those of the entry,
/// then those of the feed, each once, where it occurs last.
pub open spec fn entry_authors(feed: Feed, entry: Entry) -> Seq<(Seq<char>, Option<Seq<char>>, Option<Seq<char>>)> {
    insertion_order((entry.authors@ + feed.authors@).map_values(|p: Person| p@))
}

/// The authors shown for `entry` of `feed`.
pub fn collect_authors(feed: &Feed, entry: &Entry) -> (authors: Vec<Person>)
    ensures
        authors@.map_values(|p: Person| p@) == entry_authors(*feed, *entry),
{
    let ghost all = (entry.authors@ + feed.authors@).map_values(|p: Person| p@);
    let mut set = person_set_new();
    let mut i: usize = 0;
    while i < entry.authors.len()
        invariant
            i <= entry.authors.len(),
            all == (entry.authors@ + feed.authors@).map_values(|p: Person| p@),
            person_set_items(set) == insertion_order(all.take(i as int)),
        decreases entry.authors.len() - i,
    {
        let p = entry.authors[i].clone();
        person_set_insert(&mut set, p);
        proof {
            assert(all.take(i + 1).drop_last() =~= all.take(i as int));
            assert(all.take(i + 1).last() == entry.authors@[i as int]@);
        }
        i = i + 1;
    }
    let n = entry.authors.len();
    let mut j: usize = 0;
    while j < feed.authors.len()
        invariant
            j <= feed.authors.len(),
            n == entry.authors.len(),
            all == (entry.authors@ + feed.authors@).map_values(|p: Person| p@),
            person_set_items(set) == insertion_order(all.take(n + j)),
        decreases feed.authors.len() - j,
    {
        let p = feed.authors[j].clone();
        person_set_insert(&mut set, p);
        proof {
            assert(all.take(n + j + 1).drop_last() =~= all.take(n + j));
            assert(all.take(n + j + 1).last() == feed.authors@[j as int]@);
        }
        j = j + 1;
    }
    proof {
        assert(all.take(n + feed.authors.len()) =~= all);
    }
    person_set_to_vec(&set)
}

proof fn lemma_without<A>(s: Seq<A>, x: A)
    ensures
        !without(s, x).contains(x),
        forall|y: A| y != x ==> (without(s, x).contains(y) <==> s.contains(y)),
        s.no_duplicates() ==> without(s, x).no_duplicates(),
    decreases s.len(),
{
    if s.len() > 0 {
        let w = without(s.drop_last(), x);
        lemma_without(s.drop_last(), x);
        assert forall|y: A| y != x implies (without(s, x).contains(y) <==> s.contains(y)) by {
            if s.contains(y) {
                let k = choose|k: int| 0 <= k < s.len() && s[k] == y;
                if k < s.len() - 1 {
                    assert(s.drop_last()[k] == y);
                    assert(s.drop_last().contains(y));
                    assert(w.contains(y));
                    let m = choose|m: int| 0 <= m < w.len() && w[m] == y;
                    assert(without(s, x)[m] == y);
                } else {
                    assert(without(s, x)[w.len() as int] == y);
                }
            }
            if without(s, x).contains(y) && s.last() != x {
                let k = choose|k: int| 0 <= k < without(s, x).len() && without(s, x)[k] == y;
                if k < w.len() {
                    assert(w[k] == y);
                    assert(w.contains(y));
                    assert(s.drop_last().contains(y));
                    let m = choose|m: int| 0 <= m < s.drop_last().len() && s.drop_last()[m] == y;
                    assert(s[m] == y);
                } else {
                    assert(s[s.len() - 1] == y);
                }
            }
            if without(s, x).contains(y) && s.last() == x {
                assert(w.contains(y));
                assert(s.drop_last().contains(y));
                let m = choose|m: int| 0 <= m < s.drop_last().len() && s.drop_last()[m] == y;
                assert(s[m] == y);
            }
        }
        if s.last() != x {
            if without(s, x).contains(x) {
                let k = choose|k: int| 0 <= k < without(s, x).len() && without(s, x)[k] == x;
                assert(k < w.len());
                assert(w[k] == x);
            }
        }
        if s.no_duplicates() {
            assert(s.drop_last().no_duplicates());
            if s.last() != x {
                assert(!s.drop_last().contains(s.last()));
                assert(!w.contains(s.last()));
            }
        }
    }
}

/// Each author is shown once, and exactly the people among the authors of
/// the entry and of the feed are shown.
pub proof fn insertion_order_distinct<A>(s: Seq<A>)
    ensures
        insertion_order(s).no_duplicates(),
        forall|y: A| insertion_order(s).contains(y) <==> s.contains(y),
    decreases s.len(),
{
    if s.len() > 0 {
        let prev = insertion_order(s.drop_last());
        insertion_order_distinct(s.drop_last());
        lemma_without(prev, s.last());
        let w = without(prev, s.last());
        assert forall|y: A| insertion_order(s).contains(y) <==> s.contains(y) by {
            if y == s.last() {
                assert(insertion_order(s)[insertion_order(s).len() - 1] == y);
                assert(s[s.len() - 1] == y);
            } else {
                if s.contains(y) {
                    let k = choose|k: int| 0 <= k < s.len() && s[k] == y;
                    assert(s.drop_last()[k] == y);
                    assert(s.drop_last().contains(y));
                    assert(prev.contains(y));
                    assert(w.contains(y));
                    let m = choose|m: int| 0 <= m < w.len() && w[m] == y;
                    assert(insertion_order(s)[m] == y);
                }
                if insertion_order(s).contains(y) {
                    let m = choose|m: int| 0 <= m < insertion_order(s).len() && insertion_order(s)[m] == y;
                    assert(w[m] == y);
                    assert(w.contains(y));
                    assert(prev.contains(y));
                    assert(s.drop_last().contains(y));
                    let k = choose|k: int| 0 <= k < s.drop_last().len() && s.drop_last()[k] == y;
                    assert(s[k] == y);
                }
            }
        }
    }
}

/// Where `x` last occurs in `s`; -1 if it does not.
pub open spec fn last_index<A>(s: Seq<A>, x: A) -> int
    decreases s.len(),
{
    if s.len() == 0 {
        -1
    } else if s.last() == x {
        s.len() - 1
    } else {
        last_index(s.drop_last(), x)
    }
}

/// The elements of `r` come in the order of their last occurrences in `s`.
pub open spec fn ordered_by_last_occurrence<A>(r: Seq<A>, s: Seq<A>) -> bool {
    forall|i: int, j: int| 0 <= i < j < r.len() ==> last_index(s, #[trigger] r[i]) < last_index(s, #[trigger] r[j])
}

proof fn lemma_last_index_bound<A>(s: Seq<A>, x: A)
    ensures
        -1 <= last_index(s, x) < s.len(),
        s.contains(x) ==> 0 <= last_index(s, x),
    decreases s.len(),
{
    if s.len() > 0 {
        lemma_last_index_bound(s.drop_last(), x);
        if s.contains(x) && s.last() != x {
            let k = choose|k: int| 0 <= k < s.len() && s[k] == x;
            assert(s.drop_last()[k] == x);
        }
    }
}

proof fn lemma_without_ordered<A>(p: Seq<A>, x: A, s: Seq<A>)
    requires
        ordered_by_last_occurrence(p, s),
    ensures
        ordered_by_last_occurrence(without(p, x), s),
    decreases p.len(),
{
    if p.len() > 0 {
        let q = p.drop_last();
        assert(ordered_by_last_occurrence(q, s)) by {
            assert forall|i: int, j: int| 0 <= i < j < q.len() implies last_index(s, #[trigger] q[i]) < last_index(
                s,
                #[trigger] q[j],
            ) by {
                assert(q[i] == p[i] && q[j] == p[j]);
            }
        }
        lemma_without_ordered(q, x, s);
        lemma_without(q, x);
        let w = without(q, x);
        if p.last() != x {
            let r = w.push(p.last());
            assert forall|i: int, j: int| 0 <= i < j < r.len() implies last_index(s, #[trigger] r[i]) < last_index(
                s,
                #[trigger] r[j],
            ) by {
                if j < w.len() {
                    assert(r[i] == w[i] && r[j] == w[j]);
                } else {
                    assert(r[i] == w[i]);
                    assert(w.contains(w[i]));
                    assert(q.contains(w[i]));
                    let k = choose|k: int| 0 <= k < q.len() && q[k] == w[i];
                    assert(p[k] == w[i]);
                    assert(p[p.len() - 1] == r[j]);
                }
            }
        }
    }
}

/// The authors shown come in the order of their last occurrences among the
/// authors of the entry and then of the feed.
pub proof fn insertion_order_by_last_occurrence<A>(s: Seq<A>)
    ensures
        ordered_by_last_occurrence(insertion_order(s), s),
    decreases s.len(),
{
    if s.len() > 0 {
        let t = s.drop_last();
        let x = s.last();
        let prev = insertion_order(t);
        insertion_order_by_last_occurrence(t);
        lemma_without_ordered(prev, x, t);
        lemma_without(prev, x);
        insertion_order_distinct(t);
        let w = without(prev, x);
        let r = w.push(x);
        assert forall|i: int, j: int| 0 <= i < j < r.len() implies last_index(s, #[trigger] r[i]) < last_index(
            s,
            #[trigger] r[j],
        ) by {
            assert(r[i] == w[i]);
            assert(w.contains(w[i]));
            assert(w[i] != x);
            lemma_last_index_bound(t, w[i]);
            if j < w.len() {
                assert(r[j] == w[j]);
                assert(w.contains(w[j]));
                assert(w[j] != x);
            }
        }
    }
}

/// The authors shown for an entry are the people among the authors of the
/// entry and of its feed, each once, in the order of their last occurrences
/// among the entry's authors followed by the feed's.
pub proof fn entry_authors_law(feed: Feed, entry: Entry)
    ensures
        entry_authors(feed, entry).no_duplicates(),
        forall|p: (Seq<char>, Option<Seq<char>>, Option<Seq<char>>)|
            entry_authors(feed, entry).contains(p) <==> (entry.authors@ + feed.authors@).map_values(
                |q: Person| q@,
            ).contains(p),
        ordered_by_last_occurrence(
            entry_authors(feed, entry),
            (entry.authors@ + feed.authors@).map_values(|q: Person| q@),
        ),
{
    let all = (entry.authors@ + feed.authors@).map_values(|q: Person| q@);
    insertion_order_distinct(all);
    insertion_order_by_last_occurrence(all);
}

} // verus!
