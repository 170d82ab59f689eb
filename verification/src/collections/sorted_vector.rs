//! A vector whose items are kept in ascending order.
use std::cmp::Ordering;
use std::collections::hash_map::DefaultHasher;
use std::hash::{Hash, Hasher};
use vstd::laws_cmp::obeys_cmp;
use vstd::laws_eq::obeys_concrete_eq;
use vstd::prelude::*;
use vstd::relations::total_ordering;
use vstd::std_specs::cmp::{PartialEqSpec, PartialEqSpecImpl, PartialOrdIs, PartialOrdSpecImpl};

verus! {

/// The item type's comparison operators form a total order whose notion of
/// "equal" is identity of values.
pub open spec fn lawful_order<T: Ord>() -> bool {
    obeys_cmp::<T>() && obeys_concrete_eq::<T>()
}

/// `a` is ordered strictly before `b`.
pub open spec fn precedes<T: Ord>(a: T, b: T) -> bool {
    a.is_lt(&b)
}

/// `a` is not ordered after `b`.
pub open spec fn at_most<T: Ord>(a: T, b: T) -> bool {
    a.is_le(&b)
}

/// `s` is in ascending order (equal neighbours allowed).
pub open spec fn ascending<T: Ord>(s: Seq<T>) -> bool {
    forall|i: int, j: int| 0 <= i < j < s.len() ==> at_most(#[trigger] s[i], #[trigger] s[j])
}

/// Number of items of `s` that are ordered strictly before `item`.
pub open spec fn rank<T: Ord>(s: Seq<T>, item: T) -> nat
    decreases s.len(),
{
    if s.len() == 0 {
        0
    } else {
        rank(s.drop_last(), item) + if precedes(s.last(), item) {
            1nat
        } else {
            0nat
        }
    }
}

/// What a lawful order gives: `at_most` is a total order and `precedes` is
/// its strict part.
pub proof fn lemma_order_laws<T: Ord>()
    requires
        lawful_order::<T>(),
    ensures
        total_ordering(|a: T, b: T| at_most(a, b)),
        forall|a: T| #[trigger] at_most(a, a),
        forall|a: T, b: T| #[trigger] at_most(a, b) && #[trigger] at_most(b, a) ==> a == b,
        forall|a: T, b: T, c: T| #[trigger] at_most(a, b) && #[trigger] at_most(b, c) ==> at_most(a, c),
        forall|a: T, b: T| #[trigger] at_most(a, b) || #[trigger] at_most(b, a),
        forall|a: T, b: T| #[trigger] precedes(a, b) <==> at_most(a, b) && a != b,
        forall|a: T, b: T| #[trigger] precedes(a, b) <==> !at_most(b, a),
        T::obeys_eq_spec(),
        forall|a: T, b: T| #[trigger] a.eq_spec(&b) <==> a == b,
{
    reveal(vstd::laws_cmp::obeys_cmp_ord);
    reveal(vstd::laws_cmp::obeys_partial_cmp_spec_properties);
    reveal(obeys_concrete_eq);
}

/// `s` with `item` put in front of the first item that does not precede it.
pub open spec fn insert_sorted<T: Ord>(s: Seq<T>, item: T) -> Seq<T> {
    s.insert(rank(s, item) as int, item)
}

/// The ascending arrangement of `items`: each one inserted in turn, the last
/// of `items` first.
pub open spec fn sorted_of<T: Ord>(items: Seq<T>) -> Seq<T>
    decreases items.len(),
{
    if items.len() == 0 {
        Seq::empty()
    } else {
        insert_sorted(sorted_of(items.drop_first()), items.first())
    }
}

/// How one list stands to another in dictionary order.
#[derive(Clone, Copy, Debug, PartialEq, Eq, Structural)]
pub enum Relation {
    /// The first list comes before the second.
    Before,
    /// Both lists hold the same items.
    Same,
    /// The first list comes after the second.
    After,
}

/// Dictionary order of `a` against `b`: decided by the first position at
/// which they differ, a proper prefix coming first.
pub open spec fn lexicographic<T: Ord>(a: Seq<T>, b: Seq<T>) -> Relation
    decreases a.len(),
{
    if a.len() == 0 {
        if b.len() == 0 {
            Relation::Same
        } else {
            Relation::Before
        }
    } else if b.len() == 0 {
        Relation::After
    } else if precedes(a.first(), b.first()) {
        Relation::Before
    } else if precedes(b.first(), a.first()) {
        Relation::After
    } else {
        lexicographic(a.drop_first(), b.drop_first())
    }
}

/// If the items before position `p` all precede `item` and those from `p` on
/// do not, then `p` is the rank of `item`.
pub proof fn lemma_rank_is_partition_point<T: Ord>(s: Seq<T>, item: T, p: int)
    requires
        0 <= p <= s.len(),
        forall|i: int| 0 <= i < p ==> precedes(#[trigger] s[i], item),
        forall|i: int| p <= i < s.len() ==> !precedes(#[trigger] s[i], item),
    ensures
        rank(s, item) == p,
    decreases s.len(),
{
    if s.len() > 0 {
        let t = s.drop_last();
        if p == s.len() {
            lemma_rank_is_partition_point(t, item, p - 1);
        } else {
            lemma_rank_is_partition_point(t, item, p);
        }
    }
}

/// In an ascending sequence the rank of `item` splits the items that precede
/// it from those that do not.
pub proof fn lemma_rank_partitions<T: Ord>(s: Seq<T>, item: T)
    requires
        lawful_order::<T>(),
        ascending(s),
    ensures
        0 <= rank(s, item) <= s.len(),
        forall|i: int| 0 <= i < rank(s, item) ==> precedes(#[trigger] s[i], item),
        forall|i: int| rank(s, item) <= i < s.len() ==> !precedes(#[trigger] s[i], item),
    decreases s.len(),
{
    lemma_order_laws::<T>();
    if s.len() > 0 {
        let t = s.drop_last();
        lemma_rank_partitions(t, item);
        let r = rank(t, item);
        if !precedes(s.last(), item) {
            assert forall|i: int| 0 <= i < r implies precedes(#[trigger] s[i], item) by {
                assert(s[i] == t[i]);
            }
            assert forall|i: int| r <= i < s.len() implies !precedes(#[trigger] s[i], item) by {
                if i < s.len() - 1 {
                    assert(s[i] == t[i]);
                }
            }
        }
    }
}

/// Inserting an item at its rank keeps an ascending sequence ascending.
pub proof fn lemma_insert_at_rank_ascending<T: Ord>(s: Seq<T>, item: T)
    requires
        lawful_order::<T>(),
        ascending(s),
    ensures
        ascending(s.insert(rank(s, item) as int, item)),
{
    lemma_order_laws::<T>();
    lemma_rank_partitions(s, item);
}

/// The ascending arrangement of `items` is ascending and holds exactly the
/// items of `items`, each as often as `items` does.
pub proof fn lemma_sorted_of<T: Ord>(items: Seq<T>)
    requires
        lawful_order::<T>(),
    ensures
        ascending(sorted_of(items)),
        sorted_of(items).to_multiset() == items.to_multiset(),
        sorted_of(items).len() == items.len(),
    decreases items.len(),
{
    broadcast use vstd::seq_lib::group_to_multiset_ensures;

    if items.len() > 0 {
        let rest = items.drop_first();
        lemma_sorted_of(rest);
        let t = sorted_of(rest);
        lemma_rank_partitions(t, items.first());
        lemma_insert_at_rank_ascending(t, items.first());
        assert(items == seq![items.first()] + rest);
        vstd::seq_lib::lemma_multiset_commutative(seq![items.first()], rest);
    }
}

/// Two ascending sequences that hold the same items equally often are the same
/// sequence.
pub proof fn lemma_ascending_unique<T: Ord>(a: Seq<T>, b: Seq<T>)
    requires
        lawful_order::<T>(),
        ascending(a),
        ascending(b),
        a.to_multiset() == b.to_multiset(),
    ensures
        a == b,
{
    lemma_order_laws::<T>();
    let leq = |x: T, y: T| at_most(x, y);
    vstd::seq_lib::lemma_sorted_unique(a, b, leq);
}

/// The order in which items are inserted does not show in the result: any two
/// arrangements of the same items sort to one and the same sequence.
pub proof fn lemma_insertion_order_irrelevant<T: Ord>(p: Seq<T>, q: Seq<T>)
    requires
        lawful_order::<T>(),
        p.to_multiset() == q.to_multiset(),
    ensures
        sorted_of(p) == sorted_of(q),
{
    lemma_sorted_of(p);
    lemma_sorted_of(q);
    lemma_ascending_unique(sorted_of(p), sorted_of(q));
}

/// What sorted insertion does to the items held: one more `item`, and every
/// item that was there is still there.
pub proof fn lemma_insert_sorted_contents<T: Ord>(s: Seq<T>, item: T)
    requires
        lawful_order::<T>(),
        ascending(s),
    ensures
        ascending(insert_sorted(s, item)),
        insert_sorted(s, item).len() == s.len() + 1,
        insert_sorted(s, item).to_multiset() == s.to_multiset().insert(item),
        forall|x: T| #[trigger] insert_sorted(s, item).contains(x) <==> x == item || s.contains(x),
        s.no_duplicates() && !s.contains(item) ==> insert_sorted(s, item).no_duplicates(),
{
    broadcast use vstd::seq_lib::group_to_multiset_ensures;

    lemma_rank_partitions(s, item);
    lemma_insert_at_rank_ascending(s, item);
    let p = rank(s, item) as int;
    let r = s.insert(p, item);
    assert forall|x: T| #[trigger] r.contains(x) <==> x == item || s.contains(x) by {
        if x == item {
            assert(r[p] == x);
        }
        if s.contains(x) {
            let i = choose|i: int| 0 <= i < s.len() && s[i] == x;
            if i < p {
                assert(r[i] == x);
            } else {
                assert(r[i + 1] == x);
            }
        }
    }
}

/// Under a lawful order `==` on lists is decided, and two lists are equal
/// exactly when they hold the same sequence of items.
pub proof fn lemma_equality_is_identity<T: Ord>(a: &SortedVec<T>, b: &SortedVec<T>)
    requires
        lawful_order::<T>(),
    ensures
        <SortedVec<T> as PartialEqSpec>::obeys_eq_spec(),
        PartialEqSpec::eq_spec(a, b) <==> a@ == b@,
{
    lemma_order_laws::<T>();
    if PartialEqSpec::eq_spec(a, b) {
        assert(a@ =~= b@);
    }
}

/// A growable list that keeps its items in ascending order.
#[derive(Debug, Hash, Ord)]
pub struct SortedVec<T>(Vec<T>);

impl<T> View for SortedVec<T> {
    type V = Seq<T>;

    closed spec fn view(&self) -> Seq<T> {
        self.0@
    }
}

impl<T: Ord> SortedVec<T> {
    /// The items are in ascending order.
    pub open spec fn wf(&self) -> bool {
        ascending(self@)
    }

    /// An empty list.
    pub fn new() -> (s: Self)
        ensures
            s@ == Seq::<T>::empty(),
            s.wf(),
    {
        SortedVec(Vec::new())
    }

    /// Position of the first item that is not ordered before `item`: the
    /// place where `item` would be inserted.
    pub fn lower_bound(&self, item: &T) -> (pos: usize)
        requires
            lawful_order::<T>(),
            self.wf(),
        ensures
            pos == rank(self@, *item),
            pos <= self@.len(),
    {
        let mut lo: usize = 0;
        let mut hi: usize = self.0.len();
        while lo < hi
            invariant
                lawful_order::<T>(),
                self.wf(),
                lo <= hi <= self@.len(),
                self@ == self.0@,
                forall|i: int| 0 <= i < lo ==> precedes(#[trigger] self@[i], *item),
                forall|i: int| hi <= i < self@.len() ==> !precedes(#[trigger] self@[i], *item),
            decreases hi - lo,
        {
            let mid: usize = lo + (hi - lo) / 2;
            proof {
                lemma_order_laws::<T>();
            }
            if before(&self.0[mid], item) {
                lo = mid + 1;
            } else {
                hi = mid;
            }
        }
        proof {
            lemma_rank_is_partition_point(self@, *item, lo as int);
        }
        lo
    }

    /// Puts `item` in front of the first item that is not ordered before it.
    pub fn insert(&mut self, item: T)
        requires
            lawful_order::<T>(),
            old(self).wf(),
        ensures
            final(self).wf(),
            final(self)@ == insert_sorted(old(self)@, item),
    {
        let pos = self.lower_bound(&item);
        proof {
            lemma_insert_at_rank_ascending(self@, item);
        }
        self.0.insert(pos, item);
    }

    /// The items, in ascending order.
    pub fn as_slice(&self) -> (items: &[T])
        ensures
            items@ == self@,
    {
        self.0.as_slice()
    }

    /// Number of items held.
    pub fn len(&self) -> (n: usize)
        ensures
            n == self@.len(),
    {
        self.0.len()
    }

    /// Where `item` first occurs in the list, if it occurs at all.
    pub fn position(&self, item: &T) -> (found: Option<usize>)
        requires
            lawful_order::<T>(),
            self.wf(),
        ensures
            match found {
                Some(pos) => pos < self@.len() && self@[pos as int] == *item && pos == rank(
                    self@,
                    *item,
                ),
                None => !self@.contains(*item),
            },
    {
        let pos = self.lower_bound(item);
        proof {
            lemma_order_laws::<T>();
            lemma_rank_partitions(self@, *item);
        }
        if pos < self.0.len() && same(&self.0[pos], item) {
            Some(pos)
        } else {
            None
        }
    }

    /// Whether some item of the list equals `item`.
    pub fn contains(&self, item: &T) -> (found: bool)
        requires
            lawful_order::<T>(),
            self.wf(),
        ensures
            found == self@.contains(*item),
    {
        self.position(item).is_some()
    }

    /// The ascending arrangement of `items`.
    pub fn from_vec(items: Vec<T>) -> (s: Self)
        requires
            lawful_order::<T>(),
        ensures
            s.wf(),
            s@ == sorted_of(items@),
    {
        let mut items = items;
        let ghost all = items@;
        let mut out: SortedVec<T> = SortedVec::new();
        while items.len() > 0
            invariant
                lawful_order::<T>(),
                out.wf(),
                items@.len() <= all.len(),
                items@ == all.subrange(0, items@.len() as int),
                out@ == sorted_of(all.subrange(items@.len() as int, all.len() as int)),
            decreases items@.len(),
        {
            let ghost n = items@.len() as int;
            let item = items.pop().unwrap();
            proof {
                let tail = all.subrange(n - 1, all.len() as int);
                assert(tail.drop_first() == all.subrange(n, all.len() as int));
            }
            out.insert(item);
        }
        proof {
            assert(all.subrange(0, all.len() as int) == all);
        }
        out
    }

    /// Whether every item of this list also occurs in `other`.
    pub fn is_subset(&self, other: &Self) -> (r: bool)
        requires
            lawful_order::<T>(),
            self.wf(),
            other.wf(),
        ensures
            r == (forall|x: T| self@.contains(x) ==> other@.contains(x)),
    {
        let mut i: usize = 0;
        while i < self.0.len()
            invariant
                lawful_order::<T>(),
                other.wf(),
                i <= self@.len(),
                self@ == self.0@,
                forall|k: int| 0 <= k < i ==> other@.contains(#[trigger] self@[k]),
            decreases self@.len() - i,
        {
            if !other.contains(&self.0[i]) {
                return false;
            }
            i += 1;
        }
        true
    }
}

impl<T: Ord> PartialEq for SortedVec<T> {
    /// Two lists are equal when they hold equal items at every position.
    fn eq(&self, other: &Self) -> (r: bool) {
        self.0 == other.0
    }
}

impl<T: Ord> Eq for SortedVec<T> {

}

impl<T: Ord> PartialEqSpecImpl for SortedVec<T> {
    open spec fn obeys_eq_spec() -> bool {
        T::obeys_eq_spec()
    }

    open spec fn eq_spec(&self, other: &Self) -> bool {
        &&& self@.len() == other@.len()
        &&& forall|i: int| 0 <= i < self@.len() ==> (#[trigger] self@[i]).eq_spec(&other@[i])
    }
}

impl<T: Ord> std::ops::Index<usize> for SortedVec<T> {
    type Output = T;

    /// The item at position `index`, counted from the smallest.
    fn index(&self, index: usize) -> (item: &T)
        ensures
            *item == self@[index as int],
    {
        &self.0[index]
    }
}

impl<T: Ord> vstd::std_specs::core::IndexSpecImpl<usize> for SortedVec<T> {
    open spec fn index_req(&self, index: &usize) -> bool {
        *index < self@.len()
    }
}

impl<T: Ord + Clone> Clone for SortedVec<T> {
    /// A list of clones of the items, position by position.
    fn clone(&self) -> (res: Self)
        ensures
            res@.len() == self@.len(),
            forall|i: int| 0 <= i < self@.len() ==> cloned::<T>(#[trigger] self@[i], res@[i]),
    {
        SortedVec(self.0.clone())
    }
}

impl<T: Ord + Hash> SortedVec<T> {
    /// A digest of the items, taken with a freshly made standard hasher.
    pub fn compute_hash(&self) -> (digest: u64) {
        let mut hasher = DefaultHasher::new();
        feed_items(&self.0, &mut hasher);
        hasher.finish()
    }
}

/// Calls `Hash::hash` of the standard library on `items`, which writes the
/// number of items and then each item, in order, into `state` through the
/// items' own `Hash` impl. What a given `T` writes is up to that impl, so
/// nothing is claimed about the hasher's state afterwards.
#[verifier::external_body]
fn feed_items<T: Hash>(items: &Vec<T>, state: &mut DefaultHasher) {
    items.hash(state)
}

/// Dictionary order of two lists.
fn relation_of<T: Ord>(a: &Vec<T>, b: &Vec<T>) -> (r: Relation)
    ensures
        lawful_order::<T>() ==> r == lexicographic(a@, b@),
{
    let mut i: usize = 0;
    proof {
        assert(a@.skip(0) == a@);
        assert(b@.skip(0) == b@);
    }
    while i < a.len() && i < b.len()
        invariant
            i <= a@.len(),
            i <= b@.len(),
            lawful_order::<T>() ==> lexicographic(a@, b@) == lexicographic(
                a@.skip(i as int),
                b@.skip(i as int),
            ),
        decreases a@.len() - i,
    {
        proof {
            assert(a@.skip(i as int).drop_first() == a@.skip(i + 1));
            assert(b@.skip(i as int).drop_first() == b@.skip(i + 1));
        }
        if before(&a[i], &b[i]) {
            return Relation::Before;
        }
        if before(&b[i], &a[i]) {
            return Relation::After;
        }
        i += 1;
    }
    if i < b.len() {
        Relation::Before
    } else if i < a.len() {
        Relation::After
    } else {
        Relation::Same
    }
}

impl<T: Ord> PartialOrd for SortedVec<T> {
    /// Dictionary order over the items.
    fn partial_cmp(&self, other: &Self) -> (r: Option<Ordering>) {
        match relation_of(&self.0, &other.0) {
            Relation::Before => Some(Ordering::Less),
            Relation::Same => Some(Ordering::Equal),
            Relation::After => Some(Ordering::Greater),
        }
    }
}

impl<T: Ord> PartialOrdSpecImpl for SortedVec<T> {
    open spec fn obeys_partial_cmp_spec() -> bool {
        lawful_order::<T>()
    }

    open spec fn partial_cmp_spec(&self, other: &Self) -> Option<Ordering> {
        match lexicographic(self@, other@) {
            Relation::Before => Some(Ordering::Less),
            Relation::Same => Some(Ordering::Equal),
            Relation::After => Some(Ordering::Greater),
        }
    }
}

/// Whether `a` is ordered strictly before `b`.
fn before<T: Ord>(a: &T, b: &T) -> (r: bool)
    ensures
        lawful_order::<T>() ==> r == precedes(*a, *b),
{
    proof {
        reveal(vstd::laws_cmp::obeys_cmp_partial_ord);
    }
    *a < *b
}

/// Whether `a` and `b` are the same value.
fn same<T: Ord>(a: &T, b: &T) -> (r: bool)
    ensures
        lawful_order::<T>() ==> r == (*a == *b),
{
    proof {
        reveal(obeys_concrete_eq);
    }
    *a == *b
}

} // verus!
