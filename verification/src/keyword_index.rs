//! The inverted index of episodic memory: from the hash of a term to the
//! positions of the documents that hold the term.
//!
//! A document is the sequence of its term hashes. The index refers to documents
//! by position, once for each time the term occurs in the document, in the
//! order of the positions.

use vstd::prelude::*;
use std::collections::HashMap;

verus! {

broadcast use vstd::std_specs::hash::group_hash_axioms;

/// How often `item` occurs in `items`.
pub open spec fn count_of<T>(items: Seq<T>, item: T) -> nat
    decreases items.len(),
{
    if items.len() == 0 {
        0
    } else {
        count_of(items.drop_last(), item) + if items.last() == item {
            1nat
        } else {
            0nat
        }
    }
}

/// One position, `times` times over.
pub open spec fn repeated(position: usize, times: nat) -> Seq<usize> {
    Seq::new(times, |i: int| position)
}

/// The positions of the documents that hold `term`, in order, each as often
/// as the term occurs in the document.
pub open spec fn postings(docs: Seq<Seq<u64>>, term: u64) -> Seq<usize>
    decreases docs.len(),
{
    if docs.len() == 0 {
        Seq::empty()
    } else {
        postings(docs.drop_last(), term) + repeated((docs.len() - 1) as usize, count_of(docs.last(), term))
    }
}

/// The index of a sequence of documents: an entry for each term that occurs
/// in some document, holding the postings of the term.
pub open spec fn index_of(docs: Seq<Seq<u64>>) -> Map<u64, Seq<usize>> {
    Map::new(|term: u64| postings(docs, term).len() > 0, |term: u64| postings(docs, term))
}

/// What an index becomes when a document at `position` is added to it.
pub open spec fn with_document(index: Map<u64, Seq<usize>>, position: usize, terms: Seq<u64>) -> Map<
    u64,
    Seq<usize>,
> {
    Map::new(
        |term: u64| index.contains_key(term) || count_of(terms, term) > 0,
        |term: u64|
            (if index.contains_key(term) {
                index[term]
            } else {
                Seq::empty()
            }) + repeated(position, count_of(terms, term)),
    )
}

/// Counting in two sequences joined.
pub proof fn lemma_count_add<T>(left: Seq<T>, right: Seq<T>, item: T)
    ensures
        count_of(left + right, item) == count_of(left, item) + count_of(right, item),
    decreases right.len(),
{
    if right.len() > 0 {
        assert((left + right).drop_last() =~= left + right.drop_last());
        lemma_count_add(left, right.drop_last(), item);
    }
}

/// A position occurs in its own repetition as often as it is repeated, and
/// no other position occurs there.
pub proof fn lemma_count_repeated(position: usize, times: nat, item: usize)
    ensures
        count_of(repeated(position, times), item) == if item == position {
            times
        } else {
            0
        },
    decreases times,
{
    if times > 0 {
        assert(repeated(position, times).drop_last() =~= repeated(position, (times - 1) as nat));
        lemma_count_repeated(position, (times - 1) as nat, item);
    }
}

/// An item that is counted occurs.
pub proof fn lemma_counted_occurs<T>(items: Seq<T>, item: T)
    requires
        count_of(items, item) > 0,
    ensures
        items.contains(item),
    decreases items.len(),
{
    if items.last() != item {
        lemma_counted_occurs(items.drop_last(), item);
    }
}

/// An item that occurs is counted.
pub proof fn lemma_occurs_counted<T>(items: Seq<T>, at: int)
    requires
        0 <= at < items.len(),
    ensures
        count_of(items, items[at]) > 0,
    decreases items.len(),
{
    if at < items.len() - 1 {
        lemma_occurs_counted(items.drop_last(), at);
    }
}

/// Adding a document to the index of the documents before it gives the index
/// of all of them.
pub proof fn lemma_index_grows(docs: Seq<Seq<u64>>, terms: Seq<u64>)
    ensures
        with_document(index_of(docs), docs.len() as usize, terms) =~= index_of(docs.push(terms)),
{
    let longer = docs.push(terms);
    assert(longer.drop_last() =~= docs);
    assert forall|term: u64|
        postings(longer, term) == #[trigger] postings(docs, term) + repeated(
            docs.len() as usize,
            count_of(terms, term),
        ) by {}
    assert forall|term: u64| #[trigger]
        with_document(index_of(docs), docs.len() as usize, terms).contains_key(term) implies with_document(
        index_of(docs),
        docs.len() as usize,
        terms,
    )[term] == index_of(longer)[term] by {}
}

/// The index never refers past the last document.
pub proof fn lemma_postings_in_range(docs: Seq<Seq<u64>>, term: u64)
    requires
        docs.len() <= usize::MAX,
    ensures
        forall|k: int| 0 <= k < postings(docs, term).len() ==> (#[trigger] postings(docs, term)[k]) < docs.len(),
    decreases docs.len(),
{
    if docs.len() > 0 {
        let earlier = postings(docs.drop_last(), term);
        lemma_postings_in_range(docs.drop_last(), term);
        assert forall|k: int| 0 <= k < postings(docs, term).len() implies (#[trigger] postings(docs, term)[k])
            < docs.len() by {
            if k < earlier.len() {
                assert(postings(docs, term)[k] == earlier[k]);
            }
        }
    }
}

/// The postings of a term refer to a document exactly as often as the term
/// occurs in the document.
pub proof fn lemma_postings_count(docs: Seq<Seq<u64>>, term: u64, position: usize)
    requires
        docs.len() <= usize::MAX,
    ensures
        count_of(postings(docs, term), position) == if position < docs.len() {
            count_of(docs[position as int], term)
        } else {
            0
        },
    decreases docs.len(),
{
    if docs.len() > 0 {
        let shorter = docs.drop_last();
        lemma_postings_count(shorter, term, position);
        lemma_count_add(
            postings(shorter, term),
            repeated((docs.len() - 1) as usize, count_of(docs.last(), term)),
            position,
        );
        lemma_count_repeated((docs.len() - 1) as usize, count_of(docs.last(), term), position);
    }
}

/// Each document is found under each of its terms.
pub proof fn lemma_document_is_indexed(docs: Seq<Seq<u64>>, position: usize, term: u64)
    requires
        docs.len() <= usize::MAX,
        position < docs.len(),
        docs[position as int].contains(term),
    ensures
        index_of(docs).contains_key(term),
        index_of(docs)[term].contains(position),
{
    let at = choose|at: int| 0 <= at < docs[position as int].len() && docs[position as int][at] == term;
    lemma_occurs_counted(docs[position as int], at);
    lemma_postings_count(docs, term, position);
    lemma_counted_occurs(postings(docs, term), position);
}

/// An inverted index.
pub struct KeywordIndex {
    lists: HashMap<u64, Vec<usize>>,
}

impl View for KeywordIndex {
    type V = Map<u64, Seq<usize>>;

    closed spec fn view(&self) -> Map<u64, Seq<usize>> {
        Map::new(|term: u64| self.lists@.contains_key(term), |term: u64| self.lists@[term]@)
    }
}

impl KeywordIndex {
    /// An index of no documents.
    pub fn new() -> (index: Self)
        ensures
            index@ == index_of(Seq::empty()),
    {
        let index = KeywordIndex { lists: HashMap::new() };
        index
    }

    /// Forgets every document.
    pub fn clear(&mut self)
        ensures
            final(self)@ == index_of(Seq::empty()),
    {
        self.lists.clear();
    }

    /// The positions listed under a term.
    pub fn lookup(&self, term: u64) -> (found: Option<&Vec<usize>>)
        ensures
            match found {
                Some(list) => self@.contains_key(term) && self@[term] == list@,
                None => !self@.contains_key(term),
            },
    {
        self.lists.get(&term)
    }

    /// Lists `position` under each of `terms`, once for each occurrence.
    pub fn add_document(&mut self, position: usize, terms: &Vec<u64>)
        ensures
            final(self)@ == with_document(old(self)@, position, terms@),
    {
        let mut i: usize = 0;
        while i < terms.len()
            invariant
                i <= terms.len(),
                self@ == with_document(old(self)@, position, terms@.take(i as int)),
            decreases terms.len() - i,
        {
            let term = terms[i];
            let ghost before = self@;
            let mut list = match self.lists.remove(&term) {
                Some(list) => list,
                None => Vec::new(),
            };
            list.push(position);
            let ghost grown = list@;
            self.lists.insert(term, list);
            proof {
                assert(terms@.take(i + 1).drop_last() =~= terms@.take(i as int));
                let wanted = with_document(old(self)@, position, terms@.take(i + 1));
                assert forall|t: u64|
                    #![trigger self@.dom().contains(t)]
                    #![trigger wanted.dom().contains(t)]
                    self@.dom().contains(t) == wanted.dom().contains(t) && (self@.dom().contains(t) ==> self@[t]
                        == wanted[t]) by {
                    assert(count_of(terms@.take(i + 1), t) == count_of(terms@.take(i as int), t) + if term == t {
                        1nat
                    } else {
                        0nat
                    });
                    assert(before.contains_key(t) == (old(self)@.contains_key(t) || count_of(
                        terms@.take(i as int),
                        t,
                    ) > 0));
                    if t == term {
                        if before.contains_key(t) {
                            assert(grown =~= before[t].push(position));
                        }
                    } else {
                        if self@.contains_key(t) {
                            assert(self@[t] == before[t]);
                        }
                    }
                }
            }
            i += 1;
        }
        proof {
            assert(terms@.take(i as int) =~= terms@);
        }
    }
}

} // verus!
