//! The ordered queue of pending fetches.

use vstd::prelude::*;
use crate::types::RequestItem;

verus! {

/// `q` with `item` taken out, the order of the others kept.
pub open spec fn without(q: Seq<RequestItem>, item: RequestItem) -> Seq<RequestItem> {
    if q.contains(item) {
        q.remove(q.index_of(item))
    } else {
        q
    }
}

/// `q` after `item` was appended: a request already pending keeps its place.
pub open spec fn pushed_back(q: Seq<RequestItem>, item: RequestItem) -> Seq<RequestItem> {
    if q.contains(item) {
        q
    } else {
        q.push(item)
    }
}

/// `q` after `item` was put first: a request already pending moves up.
pub open spec fn pushed_front(q: Seq<RequestItem>, item: RequestItem) -> Seq<RequestItem> {
    seq![item] + without(q, item)
}

/// Pending fetches, first to be sent first. No request is pending twice.
#[derive(Debug)]
pub struct RequestQueue {
    items: Vec<RequestItem>,
}

impl View for RequestQueue {
    type V = Seq<RequestItem>;

    closed spec fn view(&self) -> Seq<RequestItem> {
        self.items@
    }
}

/// Taking a request out of a queue without repeats leaves no repeats, and
/// leaves every other request in.
pub proof fn lemma_without(q: Seq<RequestItem>, item: RequestItem)
    requires
        q.no_duplicates(),
    ensures
        without(q, item).no_duplicates(),
        !without(q, item).contains(item),
        forall|other: RequestItem| other != item ==> (#[trigger] without(q, item).contains(other) <==> q.contains(other)),
{
    if q.contains(item) {
        let i = q.index_of(item);
        let r = q.remove(i);
        assert forall|a: int, b: int| 0 <= a < r.len() && 0 <= b < r.len() && a != b implies r[a] != r[b] by {
            let a0 = if a < i { a } else { a + 1 };
            let b0 = if b < i { b } else { b + 1 };
            assert(r[a] == q[a0] && r[b] == q[b0]);
        }
        if r.contains(item) {
            let a = r.index_of(item);
            let a0 = if a < i { a } else { a + 1 };
            assert(r[a] == q[a0]);
        }
        assert forall|other: RequestItem| other != item implies (#[trigger] r.contains(other) <==> q.contains(other)) by {
            if r.contains(other) {
                let a = r.index_of(other);
                let a0 = if a < i { a } else { a + 1 };
                assert(q[a0] == other);
            }
            if q.contains(other) {
                let b = q.index_of(other);
                let b0 = if b < i { b } else { b - 1 };
                assert(r[b0] == other);
            }
        }
    }
}

/// In a queue without repeats, a request is found where it stands.
pub proof fn lemma_index_of_unique(q: Seq<RequestItem>, i: int)
    requires
        q.no_duplicates(),
        0 <= i < q.len(),
    ensures
        q.contains(q[i]),
        q.index_of(q[i]) == i,
{
    assert(q.contains(q[i]));
    let j = q.index_of(q[i]);
    assert(0 <= j < q.len() && q[j] == q[i]);
}

/// Putting a request first keeps the queue free of repeats.
pub proof fn lemma_pushed_front_no_duplicates(q: Seq<RequestItem>, item: RequestItem)
    requires
        q.no_duplicates(),
    ensures
        pushed_front(q, item).no_duplicates(),
{
    lemma_without(q, item);
    let w = without(q, item);
    let r = pushed_front(q, item);
    assert forall|a: int, b: int| 0 <= a < r.len() && 0 <= b < r.len() && a != b implies r[a] != r[b] by {
        if a > 0 {
            assert(r[a] == w[a - 1]);
        }
        if b > 0 {
            assert(r[b] == w[b - 1]);
        }
    }
}

/// Taking out two requests gives the same queue in either order.
pub proof fn lemma_without_commutes(q: Seq<RequestItem>, x: RequestItem, y: RequestItem)
    requires
        q.no_duplicates(),
    ensures
        without(without(q, x), y) == without(without(q, y), x),
{
    lemma_without(q, x);
    lemma_without(q, y);
    if x != y && q.contains(x) && q.contains(y) {
        let i = q.index_of(x);
        let j = q.index_of(y);
        let qx = q.remove(i);
        let qy = q.remove(j);
        let j1 = if j < i { j } else { j - 1 };
        let i1 = if i < j { i } else { i - 1 };
        assert(qx[j1] == y);
        assert(qy[i1] == x);
        lemma_index_of_unique(qx, j1);
        lemma_index_of_unique(qy, i1);
        assert(qx.remove(j1) =~= qy.remove(i1));
    }
}

/// Taking out the request that was just put first undoes no more than
/// taking it out before would have.
pub proof fn lemma_without_pushed_front_same(q: Seq<RequestItem>, x: RequestItem)
    requires
        q.no_duplicates(),
    ensures
        without(pushed_front(q, x), x) == without(q, x),
{
    lemma_pushed_front_no_duplicates(q, x);
    let r = pushed_front(q, x);
    assert(r[0] == x);
    lemma_index_of_unique(r, 0);
    assert(r.remove(0) =~= without(q, x));
}

/// Taking out another request than the one put first leaves that one first.
pub proof fn lemma_without_pushed_front_other(q: Seq<RequestItem>, x: RequestItem, y: RequestItem)
    requires
        q.no_duplicates(),
        x != y,
    ensures
        without(pushed_front(q, x), y) == pushed_front(without(q, y), x),
{
    lemma_without(q, x);
    lemma_without(q, y);
    lemma_without_commutes(q, x, y);
    lemma_pushed_front_no_duplicates(q, x);
    let w = without(q, x);
    let r = pushed_front(q, x);
    if w.contains(y) {
        let k = w.index_of(y);
        assert(r[k + 1] == y);
        lemma_index_of_unique(r, k + 1);
        assert(r.remove(k + 1) =~= seq![x] + w.remove(k));
    } else {
        if r.contains(y) {
            let k = r.index_of(y);
            assert(k > 0);
            assert(w[k - 1] == y);
        }
    }
}

/// Taking a request out leaves the others in the order they were in.
pub proof fn lemma_without_keeps_order(q: Seq<RequestItem>, item: RequestItem, x: RequestItem, y: RequestItem)
    requires
        q.no_duplicates(),
        q.contains(x),
        q.contains(y),
        x != item,
        y != item,
        q.index_of(x) < q.index_of(y),
    ensures
        without(q, item).contains(x),
        without(q, item).contains(y),
        without(q, item).index_of(x) < without(q, item).index_of(y),
{
    lemma_without(q, item);
    if q.contains(item) {
        let i = q.index_of(item);
        let ix = q.index_of(x);
        let iy = q.index_of(y);
        let w = q.remove(i);
        let jx = if ix < i { ix } else { ix - 1 };
        let jy = if iy < i { iy } else { iy - 1 };
        assert(w[jx] == x);
        assert(w[jy] == y);
        lemma_index_of_unique(w, jx);
        lemma_index_of_unique(w, jy);
    }
}

/// A request that is put first stands before every other, and the others
/// stay in the order they were in.
pub proof fn lemma_pushed_front_keeps_order(q: Seq<RequestItem>, item: RequestItem, x: RequestItem, y: RequestItem)
    requires
        q.no_duplicates(),
        q.contains(x),
        q.contains(y),
        x != item,
        y != item,
        q.index_of(x) < q.index_of(y),
    ensures
        pushed_front(q, item).contains(x),
        pushed_front(q, item).contains(y),
        pushed_front(q, item).index_of(item) == 0,
        0 < pushed_front(q, item).index_of(x) < pushed_front(q, item).index_of(y),
{
    lemma_without_keeps_order(q, item, x, y);
    lemma_pushed_front_no_duplicates(q, item);
    let w = without(q, item);
    let r = pushed_front(q, item);
    let jx = w.index_of(x);
    let jy = w.index_of(y);
    assert(r[0] == item);
    assert(r[jx + 1] == x);
    assert(r[jy + 1] == y);
    lemma_index_of_unique(r, 0);
    lemma_index_of_unique(r, jx + 1);
    lemma_index_of_unique(r, jy + 1);
}

impl RequestQueue {
    /// The representation invariant: no request occurs twice.
    pub closed spec fn wf(&self) -> bool {
        self.items@.no_duplicates()
    }

    /// What the invariant means for the queue's value: no request occurs
    /// twice in it.
    pub proof fn lemma_wf_no_duplicates(&self)
        requires
            self.wf(),
        ensures
            self@.no_duplicates(),
    {
    }

    pub fn new() -> (q: Self)
        ensures
            q.wf(),
            q@ == Seq::<RequestItem>::empty(),
    {
        RequestQueue { items: Vec::new() }
    }

    fn position(&self, item: RequestItem) -> (r: Option<usize>)
        requires
            self.wf(),
        ensures
            match r {
                Some(i) => i < self@.len() && self@[i as int] == item && self@.contains(item) && self@.index_of(item)
                    == i,
                None => !self@.contains(item),
            },
    {
        let mut i: usize = 0;
        while i < self.items.len()
            invariant
                i <= self.items@.len(),
                self.items@.no_duplicates(),
                forall|j: int| 0 <= j < i ==> self.items@[j] != item,
            decreases self.items@.len() - i,
        {
            if self.items[i] == item {
                proof {
                    assert(self.items@.contains(item));
                    let j = self.items@.index_of(item);
                    assert(0 <= j < self.items@.len() && self.items@[j] == item);
                }
                return Some(i);
            }
            i = i + 1;
        }
        None
    }

    pub fn len(&self) -> (n: usize)
        ensures
            n == self@.len(),
    {
        self.items.len()
    }

    /// The pending requests, the next one first.
    pub fn to_vec(&self) -> (v: Vec<RequestItem>)
        ensures
            v@ == self@,
    {
        let mut v: Vec<RequestItem> = Vec::new();
        let mut i: usize = 0;
        while i < self.items.len()
            invariant
                i <= self.items@.len(),
                v@ == self.items@.take(i as int),
            decreases self.items@.len() - i,
        {
            v.push(self.items[i]);
            assert(self.items@.take(i + 1) =~= self.items@.take(i as int).push(self.items@[i as int]));
            i = i + 1;
        }
        assert(self.items@.take(i as int) =~= self.items@);
        v
    }

    pub fn contains(&self, item: RequestItem) -> (b: bool)
        requires
            self.wf(),
        ensures
            b == self@.contains(item),
    {
        self.position(item).is_some()
    }

    /// The request that the next fetch is made for.
    pub fn front(&self) -> (r: Option<RequestItem>)
        ensures
            r == (if self@.len() == 0 { None } else { Some(self@[0]) }),
    {
        if self.items.len() == 0 {
            None
        } else {
            Some(self.items[0])
        }
    }

    /// Takes the first request out for sending.
    pub fn pop_front(&mut self) -> (r: Option<RequestItem>)
        requires
            old(self).wf(),
        ensures
            final(self).wf(),
            old(self)@.len() == 0 ==> r is None && final(self)@ == old(self)@,
            old(self)@.len() > 0 ==> r == Some(old(self)@[0]) && final(self)@ == old(self)@.drop_first(),
    {
        if self.items.len() == 0 {
            None
        } else {
            let item = self.items.remove(0);
            proof {
                assert(self.items@ =~= old(self).items@.drop_first());
                assert forall|a: int, b: int|
                    0 <= a < self.items@.len() && 0 <= b < self.items@.len() && a != b implies self.items@[a]
                    != self.items@[b] by {
                    assert(self.items@[a] == old(self).items@[a + 1]);
                    assert(self.items@[b] == old(self).items@[b + 1]);
                }
            }
            Some(item)
        }
    }

    /// Appends a request, unless it is pending already.
    pub fn push_back(&mut self, item: RequestItem)
        requires
            old(self).wf(),
        ensures
            final(self).wf(),
            final(self)@ == pushed_back(old(self)@, item),
    {
        if self.position(item).is_none() {
            self.items.push(item);
        }
    }

    /// Puts a request first, moving it up if it is pending already.
    pub fn push_front(&mut self, item: RequestItem)
        requires
            old(self).wf(),
        ensures
            final(self).wf(),
            final(self)@ == pushed_front(old(self)@, item),
    {
        let _was: bool = self.remove(item);
        proof {
            lemma_without(old(self)@, item);
        }
        self.items.insert(0, item);
        proof {
            lemma_pushed_front_no_duplicates(old(self)@, item);
            assert(self.items@ =~= seq![item] + without(old(self)@, item));
        }
    }

    /// Takes a request out of the queue. Returns whether it was pending.
    pub fn remove(&mut self, item: RequestItem) -> (was_pending: bool)
        requires
            old(self).wf(),
        ensures
            final(self).wf(),
            final(self)@ == without(old(self)@, item),
            was_pending == old(self)@.contains(item),
    {
        proof {
            lemma_without(old(self)@, item);
        }
        match self.position(item) {
            Some(i) => {
                let _r = self.items.remove(i);
                true
            },
            None => false,
        }
    }
}

} // verus!
