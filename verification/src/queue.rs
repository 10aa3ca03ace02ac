//! Fixed-capacity containers: a first-in first-out queue on a ring buffer
//! and a list that never grows past its capacity.
//!
//! `SpscQueue<T, N>`: `N` is the length of the backing ring. One slot is
//! always left empty to tell a full ring from an empty one, so the queue
//! holds at most `N - 1` items.

use vstd::prelude::*;

verus! {

/// The ring slot that holds the item `i` places after the read index `r`.
pub open spec fn ring_slot(r: int, i: int, n: int) -> int {
    if r + i < n {
        r + i
    } else {
        r + i - n
    }
}

/// The number of items between the read index `r` and the write index `w`.
pub open spec fn ring_len(r: int, w: int, n: int) -> int {
    if r <= w {
        w - r
    } else {
        w + n - r
    }
}

/// The ring index after `i`, wrapping at `n`.
pub open spec fn ring_next(i: int, n: int) -> int {
    if i + 1 == n {
        0
    } else {
        i + 1
    }
}

/// What a push of `v` does to a queue holding `q` on a ring of `n` slots:
/// it appends `v` and succeeds while fewer than `n - 1` items are queued,
/// and otherwise leaves the queue as it is and fails.
pub open spec fn spec_push<T>(q: Seq<T>, n: int, v: T) -> (Seq<T>, bool) {
    if q.len() < n - 1 {
        (q.push(v), true)
    } else {
        (q, false)
    }
}

/// Pushing each of `vs` in turn: the final queue and each push's outcome.
pub open spec fn push_all<T>(q: Seq<T>, n: int, vs: Seq<T>) -> (Seq<T>, Seq<bool>)
    decreases vs.len(),
{
    if vs.len() == 0 {
        (q, Seq::empty())
    } else {
        let r = push_all(q, n, vs.drop_last());
        let p = spec_push(r.0, n, vs.last());
        (p.0, r.1.push(p.1))
    }
}

proof fn lemma_push_all_from_empty<T>(n: int, vs: Seq<T>)
    requires
        n >= 1,
    ensures
        push_all(Seq::<T>::empty(), n, vs).0 == vs.take(if vs.len() < n - 1 {
            vs.len() as int
        } else {
            n - 1
        }),
        push_all(Seq::<T>::empty(), n, vs).1 == Seq::new(vs.len(), |i: int| i < n - 1),
    decreases vs.len(),
{
    if vs.len() > 0 {
        let prev = vs.drop_last();
        lemma_push_all_from_empty(n, prev);
        let r = push_all(Seq::<T>::empty(), n, prev);
        if prev.len() < n - 1 {
            assert(r.0.push(vs.last()) =~= vs.take(vs.len() as int));
        } else {
            assert(r.0 =~= vs.take(n - 1));
        }
        assert(r.1.push(vs.len() - 1 < n - 1) =~= Seq::new(vs.len(), |i: int| i < n - 1));
    } else {
        assert(vs.take(0) =~= Seq::<T>::empty());
        assert(Seq::new(0, |i: int| i < n - 1) =~= Seq::<bool>::empty());
    }
}

/// A new queue on a ring of `n` slots takes exactly `n - 1` items: of `n`
/// pushes onto it, the first `n - 1` succeed and the last fails, and the
/// queue then holds the first `n - 1` items in order.
pub proof fn lemma_new_queue_holds_n_minus_one<T>(n: int, vs: Seq<T>)
    requires
        n >= 1,
        vs.len() == n,
    ensures
        push_all(Seq::<T>::empty(), n, vs).1 == Seq::new(n as nat, |i: int| i < n - 1),
        push_all(Seq::<T>::empty(), n, vs).0 == vs.take(n - 1),
{
    lemma_push_all_from_empty(n, vs);
}

/// A first-in first-out queue on a ring of `N` slots.
pub struct SpscQueue<T, const N: usize> {
    write_idx: usize,
    read_idx: usize,
    buf: Vec<Option<T>>,
}

impl<T, const N: usize> View for SpscQueue<T, N> {
    type V = Seq<T>;

    /// The queued items, oldest first.
    closed spec fn view(&self) -> Seq<T> {
        Seq::new(
            ring_len(self.read_idx as int, self.write_idx as int, N as int) as nat,
            |i: int| self.buf@[ring_slot(self.read_idx as int, i, N as int)]->0,
        )
    }
}

impl<T, const N: usize> SpscQueue<T, N> {
    /// The ring has `N` slots, both indices lie in it, and every slot
    /// between the read and the write index holds an item.
    pub closed spec fn wf(&self) -> bool {
        &&& self.buf@.len() == N
        &&& if N == 0 {
            self.write_idx == 0 && self.read_idx == 0
        } else {
            &&& self.write_idx < N
            &&& self.read_idx < N
            &&& forall|i: int|
                0 <= i < ring_len(self.read_idx as int, self.write_idx as int, N as int) ==> (
                #[trigger] self.buf@[ring_slot(self.read_idx as int, i, N as int)]) is Some
        }
    }

    /// An empty queue.
    pub fn new() -> (q: Self)
        ensures
            q.wf(),
            q@ == Seq::<T>::empty(),
    {
        let mut buf: Vec<Option<T>> = Vec::new();
        let mut i: usize = 0;
        while i < N
            invariant
                i <= N,
                buf@.len() == i,
            decreases N - i,
        {
            buf.push(None);
            i += 1;
        }
        let q = SpscQueue { write_idx: 0, read_idx: 0, buf };
        assert(q@ =~= Seq::<T>::empty());
        q
    }

    /// Producer side: appends `value` and returns `true`, or returns
    /// `false` and leaves the queue as it is when it already holds `N - 1`
    /// items.
    pub fn push(&mut self, value: T) -> (ok: bool)
        requires
            N > 0,
            old(self).wf(),
        ensures
            final(self).wf(),
            (final(self)@, ok) == spec_push(old(self)@, N as int, value),
            ok == (old(self)@.len() < N - 1),
            ok ==> final(self)@ == old(self)@.push(value),
            !ok ==> final(self)@ == old(self)@,
    {
        let w = self.write_idx;
        let r = self.read_idx;
        let next = if w + 1 == N {
            0
        } else {
            w + 1
        };
        if next == r {
            return false;
        }
        let ghost old_q = self@;
        let ghost old_buf = self.buf@;
        self.buf.set(w, Some(value));
        self.write_idx = next;
        proof {
            let len = ring_len(r as int, w as int, N as int);
            assert(ring_len(r as int, next as int, N as int) == len + 1);
            assert(ring_slot(r as int, len, N as int) == w);
            assert forall|i: int| 0 <= i < len implies #[trigger] ring_slot(r as int, i, N as int)
                != w as int by {}
            assert(self@ =~= old_q.push(value));
        }
        true
    }

    /// Consumer side: removes and returns the oldest item, or `None` when
    /// the queue is empty.
    pub fn pop(&mut self) -> (res: Option<T>)
        requires
            old(self).wf(),
        ensures
            final(self).wf(),
            old(self)@.len() == 0 ==> res is None && final(self)@ == old(self)@,
            old(self)@.len() > 0 ==> res == Some(old(self)@[0]) && final(self)@
                == old(self)@.drop_first(),
    {
        let r = self.read_idx;
        let w = self.write_idx;
        if r == w {
            return None;
        }
        let ghost old_q = self@;
        let ghost len = ring_len(r as int, w as int, N as int);
        assert(self.buf@[ring_slot(r as int, 0, N as int)] is Some);
        let mut slot: Option<T> = None;
        std::mem::swap(&mut slot, &mut self.buf[r]);
        let next = if r + 1 == N {
            0
        } else {
            r + 1
        };
        self.read_idx = next;
        proof {
            assert(ring_len(next as int, w as int, N as int) == len - 1);
            assert forall|i: int| 0 <= i < len - 1 implies #[trigger] ring_slot(next as int, i, N as int)
                == ring_slot(r as int, i + 1, N as int) && ring_slot(next as int, i, N as int)
                != r as int by {}
            assert forall|i: int| 0 <= i < len - 1 implies (#[trigger] self.buf@[ring_slot(
                next as int,
                i,
                N as int,
            )]) is Some by {
                assert(self.buf@[ring_slot(r as int, i + 1, N as int)] is Some);
            }
            assert(self@ =~= old_q.drop_first());
        }
        match slot {
            Some(v) => Some(v),
            None => None,
        }
    }
}

impl<T, const N: usize> Default for SpscQueue<T, N> {
    fn default() -> (q: Self)
        ensures
            q.wf(),
            q@ == Seq::<T>::empty(),
    {
        Self::new()
    }
}

/// A list of at most `N` items.
#[derive(Clone)]
pub struct BoundedList<T, const N: usize> {
    items: Vec<T>,
}

impl<T, const N: usize> View for BoundedList<T, N> {
    type V = Seq<T>;

    /// The items, in the order they were added.
    closed spec fn view(&self) -> Seq<T> {
        self.items@
    }
}

impl<T: Copy + Default, const N: usize> BoundedList<T, N> {
    /// Never more than `N` items.
    pub closed spec fn wf(&self) -> bool {
        self.items@.len() <= N
    }

    /// An empty list.
    pub fn new() -> (l: Self)
        ensures
            l.wf(),
            l@ == Seq::<T>::empty(),
    {
        BoundedList { items: Vec::new() }
    }

    /// A list holding a copy of `items`.
    pub fn from_slice(items: &[T]) -> (l: Self)
        requires
            items@.len() <= N,
        ensures
            l.wf(),
            l@ == items@,
    {
        let mut v: Vec<T> = Vec::new();
        let mut i: usize = 0;
        while i < items.len()
            invariant
                i <= items@.len(),
                v@ == items@.take(i as int),
            decreases items@.len() - i,
        {
            v.push(items[i]);
            i += 1;
            assert(v@ =~= items@.take(i as int));
        }
        assert(items@.take(items@.len() as int) =~= items@);
        BoundedList { items: v }
    }

    /// Adds `item` at the end; the list must have room for it.
    pub fn append_assume_capacity(&mut self, item: T)
        requires
            old(self).wf(),
            old(self)@.len() < N,
        ensures
            final(self).wf(),
            final(self)@ == old(self)@.push(item),
    {
        self.items.push(item);
    }

    /// The items, in order.
    pub fn as_slice(&self) -> (s: &[T])
        ensures
            s@ == self@,
    {
        self.items.as_slice()
    }
}

impl<T: Copy + Default, const N: usize> Default for BoundedList<T, N> {
    fn default() -> (l: Self)
        ensures
            l.wf(),
            l@ == Seq::<T>::empty(),
    {
        Self::new()
    }
}

/// Appending each of `xs` in turn.
pub open spec fn append_all<T>(l: Seq<T>, xs: Seq<T>) -> Seq<T>
    decreases xs.len(),
{
    if xs.len() == 0 {
        l
    } else {
        append_all(l, xs.drop_last()).push(xs.last())
    }
}

/// A run of appends adds the items at the end, in order: a list made from
/// `items` and then given `xs` one by one holds `items ++ xs`, which stays
/// within the capacity whenever `items.len() + xs.len() <= N`.
pub proof fn lemma_appends<T>(items: Seq<T>, xs: Seq<T>)
    ensures
        append_all(items, xs) == items + xs,
        append_all(items, xs).len() == items.len() + xs.len(),
    decreases xs.len(),
{
    if xs.len() == 0 {
        assert(items + xs =~= items);
    } else {
        lemma_appends(items, xs.drop_last());
        assert((items + xs.drop_last()).push(xs.last()) =~= items + xs);
    }
}

} // verus!
