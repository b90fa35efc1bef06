//! A bounded selection buffer: it accepts any number of scores but keeps
//! only the `max_size` smallest ones, evicting the largest element as soon
//! as the bound is exceeded.
//!
//! The scores come in with the orientation *smaller is better*: target
//! selection packs each candidate so that the best candidate carries the
//! smallest value, and ties are broken by the packed-in identity. Under
//! that orientation the buffer keeps the `max_size` best candidates and
//! every eviction removes the lowest-ranking one — the largest value held,
//! as [`lemma_bounded_insert_evicts_worst`] states. The buffer is kept as
//! a sorted vector, so its contents after every insertion are pinned down
//! exactly by [`bounded_insert`].
use vstd::prelude::*;

verus! {

/// `s` is sorted in ascending order.
pub open spec fn sorted(s: Seq<u128>) -> bool {
    forall|i: int, j: int| 0 <= i < j < s.len() ==> s[i] <= s[j]
}

/// `x` inserted into the sorted sequence `s`, before any equal elements.
pub open spec fn insert_sorted(s: Seq<u128>, x: u128) -> Seq<u128>
    decreases s.len(),
{
    if s.len() == 0 {
        seq![x]
    } else if x <= s[0] {
        seq![x] + s
    } else {
        seq![s[0]] + insert_sorted(s.skip(1), x)
    }
}

/// `x` inserted into the sorted sequence `s`, with the largest element
/// dropped again whenever the bound `max` is exceeded.
pub open spec fn bounded_insert(s: Seq<u128>, x: u128, max: nat) -> Seq<u128> {
    let t = insert_sorted(s, x);
    if t.len() > max {
        t.drop_last()
    } else {
        t
    }
}

/// Insertion grows the sequence by exactly one element.
pub proof fn lemma_insert_sorted_len(s: Seq<u128>, x: u128)
    ensures
        insert_sorted(s, x).len() == s.len() + 1,
    decreases s.len(),
{
    if s.len() > 0 && x > s[0] {
        lemma_insert_sorted_len(s.skip(1), x);
    }
}

/// Every element of the enlarged sequence is the new element or one of the
/// old ones.
pub proof fn lemma_insert_sorted_membership(s: Seq<u128>, x: u128, k: int)
    requires
        0 <= k < insert_sorted(s, x).len(),
    ensures
        insert_sorted(s, x)[k] == x || s.contains(insert_sorted(s, x)[k]),
    decreases s.len(),
{
    let t = insert_sorted(s, x);
    if s.len() == 0 {
    } else if x <= s[0] {
        if k >= 1 {
            assert(t[k] == s[k - 1]);
        }
    } else {
        if k >= 1 {
            lemma_insert_sorted_membership(s.skip(1), x, k - 1);
            let u = insert_sorted(s.skip(1), x);
            assert(t[k] == u[k - 1]);
            if u[k - 1] != x {
                let j = choose|j: int| 0 <= j < s.skip(1).len() && s.skip(1)[j] == u[k - 1];
                assert(s[j + 1] == u[k - 1]);
            }
        }
    }
}

/// A bounded insertion keeps the old count plus one, capped at the bound.
pub proof fn lemma_bounded_insert_len(s: Seq<u128>, x: u128, max: nat)
    requires
        s.len() <= max,
    ensures
        bounded_insert(s, x, max).len() == if s.len() + 1 > max {
            max as int
        } else {
            s.len() + 1int
        },
{
    lemma_insert_sorted_len(s, x);
}

/// Insertion into a sorted sequence keeps it sorted: the new element sits
/// exactly where the scan places it.
pub proof fn lemma_insert_sorted_stays_sorted(s: Seq<u128>, x: u128)
    requires
        sorted(s),
    ensures
        sorted(insert_sorted(s, x)),
    decreases s.len(),
{
    let t = insert_sorted(s, x);
    if s.len() == 0 {
    } else if x <= s[0] {
        assert(forall|j: int| 0 <= j < s.len() ==> s[0] <= #[trigger] s[j]);
    } else {
        let rest = s.skip(1);
        assert(forall|j1: int, j2: int| 0 <= j1 < j2 < rest.len() ==> rest[j1] <= rest[j2]);
        lemma_insert_sorted_stays_sorted(rest, x);
        let u = insert_sorted(rest, x);
        assert forall|a: int, b: int| 0 <= a < b < t.len() implies t[a] <= t[b] by {
            if a == 0 {
                assert(t[b] == u[b - 1]);
                lemma_insert_sorted_membership(rest, x, b - 1);
                if u[b - 1] != x {
                    let j = choose|j: int| 0 <= j < rest.len() && rest[j] == u[b - 1];
                    assert(s[0] <= s[j + 1]);
                }
            } else {
                assert(t[a] == u[a - 1] && t[b] == u[b - 1]);
            }
        }
    }
}

/// Eviction removes the lowest-ranking candidate and nothing else: every
/// element a bounded insertion keeps is at most the largest element of the
/// enlarged contents, which under the smaller-is-better orientation means
/// the kept candidates all rank at least as well as the evicted one.
pub proof fn lemma_bounded_insert_evicts_worst(s: Seq<u128>, x: u128, max: nat)
    requires
        sorted(s),
    ensures
        forall|k: int|
            0 <= k < bounded_insert(s, x, max).len() ==> #[trigger] bounded_insert(s, x, max)[k]
                <= insert_sorted(s, x).last(),
{
    lemma_insert_sorted_len(s, x);
    lemma_insert_sorted_stays_sorted(s, x);
}

/// Every kept element after a bounded insertion is the new element or one
/// of the old ones.
pub proof fn lemma_bounded_insert_membership(s: Seq<u128>, x: u128, max: nat, k: int)
    requires
        0 <= k < bounded_insert(s, x, max).len(),
    ensures
        bounded_insert(s, x, max)[k] == x || s.contains(bounded_insert(s, x, max)[k]),
{
    lemma_insert_sorted_len(s, x);
    let t = insert_sorted(s, x);
    if t.len() > max {
        assert(bounded_insert(s, x, max)[k] == t[k]);
    }
    lemma_insert_sorted_membership(s, x, k);
}

/// Inserting into a sorted sequence at the position found by a linear scan
/// yields exactly [`insert_sorted`].
proof fn lemma_insert_sorted_at(s: Seq<u128>, x: u128, i: int)
    requires
        sorted(s),
        0 <= i <= s.len(),
        forall|j: int| 0 <= j < i ==> s[j] < x,
        i < s.len() ==> x <= s[i],
    ensures
        insert_sorted(s, x) =~= s.insert(i, x),
    decreases s.len(),
{
    if s.len() == 0 {
        assert(insert_sorted(s, x) =~= s.insert(0, x));
    } else if i == 0 {
        assert(insert_sorted(s, x) == seq![x] + s);
        assert(seq![x] + s =~= s.insert(0, x));
    } else {
        assert(s[0] < x);
        let rest = s.skip(1);
        assert(forall|j: int| 0 <= j < i - 1 ==> rest[j] == s[j + 1] && s[j + 1] < x);
        assert(i - 1 < rest.len() ==> x <= rest[i - 1]);
        assert(forall|j1: int, j2: int| 0 <= j1 < j2 < rest.len() ==> rest[j1] <= rest[j2]);
        lemma_insert_sorted_at(rest, x, i - 1);
        assert(insert_sorted(s, x) == seq![s[0]] + insert_sorted(rest, x));
        assert(seq![s[0]] + rest.insert(i - 1, x) =~= s.insert(i, x));
    }
}

/// Insertion into a sorted sequence keeps it sorted.
proof fn lemma_insert_at_sorted(s: Seq<u128>, x: u128, i: int)
    requires
        sorted(s),
        0 <= i <= s.len(),
        forall|j: int| 0 <= j < i ==> s[j] < x,
        i < s.len() ==> x <= s[i],
    ensures
        sorted(s.insert(i, x)),
{
    let t = s.insert(i, x);
    assert forall|a: int, b: int| 0 <= a < b < t.len() implies t[a] <= t[b] by {
        if a < i && b < i {
            assert(t[a] == s[a] && t[b] == s[b]);
        } else if a < i && b == i {
            assert(t[a] == s[a] && t[b] == x);
        } else if a < i && b > i {
            assert(t[a] == s[a] && t[b] == s[b - 1]);
            assert(s[a] <= s[b - 1]);
        } else if a == i && b > i {
            assert(t[a] == x && t[b] == s[b - 1]);
            assert(i <= b - 1 < s.len());
            if i < b - 1 {
                assert(s[i] <= s[b - 1]);
            }
        } else {
            assert(a > i && b > i);
            assert(t[a] == s[a - 1] && t[b] == s[b - 1]);
        }
    }
}

/// A sorted sequence stays sorted when its last element is dropped.
proof fn lemma_drop_last_sorted(s: Seq<u128>)
    requires
        sorted(s),
        s.len() >= 1,
    ensures
        sorted(s.drop_last()),
{
}

/// Keeps the `max_size` smallest of the scores inserted so far. Scores are
/// packed `u128` values; the selection logic packs a strategy score into
/// the high bits and the creep's identity into the low bits, so the order
/// on the packed value is the order on scores with ties broken by identity.
pub struct TopN {
    items: Vec<u128>,
    max_size: usize,
}

impl View for TopN {
    type V = Seq<u128>;

    /// The kept scores, in ascending order.
    closed spec fn view(&self) -> Seq<u128> {
        self.items@
    }
}

impl TopN {
    /// The bound set at construction.
    pub closed spec fn spec_max_size(&self) -> nat {
        self.max_size as nat
    }

    /// The kept scores are sorted and never exceed the bound.
    pub closed spec fn wf(&self) -> bool {
        sorted(self.items@) && self.items@.len() <= self.max_size
    }

    /// An empty buffer that will keep at most `max_size` scores.
    pub fn new(max_size: usize) -> (r: TopN)
        ensures
            r.wf(),
            r@ == Seq::<u128>::empty(),
            r.spec_max_size() == max_size,
    {
        TopN { items: Vec::new(), max_size }
    }

    /// Adds `element`; when the buffer already holds `max_size` scores the
    /// largest of the enlarged contents is evicted again, so exactly the
    /// smallest scores survive.
    pub fn insert(&mut self, element: u128)
        requires
            old(self).wf(),
        ensures
            final(self).wf(),
            final(self)@ == bounded_insert(old(self)@, element, old(self).spec_max_size()),
            final(self).spec_max_size() == old(self).spec_max_size(),
    {
        let mut i: usize = 0;
        while i < self.items.len() && self.items[i] < element
            invariant
                i <= self.items@.len(),
                forall|j: int| 0 <= j < i ==> self.items@[j] < element,
                *self == *old(self),
            decreases self.items@.len() - i,
        {
            i = i + 1;
        }
        proof {
            lemma_insert_sorted_at(self.items@, element, i as int);
            lemma_insert_at_sorted(self.items@, element, i as int);
        }
        self.items.insert(i, element);
        if self.items.len() > self.max_size {
            proof {
                lemma_drop_last_sorted(self.items@);
            }
            self.items.pop();
        }
    }

    /// The kept scores; callers may not rely on any particular order,
    /// though today it is ascending.
    pub fn get(&self) -> (r: Vec<u128>)
        ensures
            r@ == self@,
    {
        let mut v: Vec<u128> = Vec::new();
        let mut i: usize = 0;
        while i < self.items.len()
            invariant
                i <= self.items@.len(),
                v@ =~= self.items@.take(i as int),
            decreases self.items@.len() - i,
        {
            v.push(self.items[i]);
            i = i + 1;
        }
        assert(v@ =~= self.items@);
        v
    }

    /// The kept scores in ascending order.
    pub fn get_sorted(&self) -> (r: Vec<u128>)
        requires
            self.wf(),
        ensures
            r@ == self@,
            sorted(r@),
    {
        self.get()
    }
}

} // verus!
