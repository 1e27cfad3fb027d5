//! A fixed-capacity priority queue.
//!
//! The queue keeps `N` slots. Items that are pushed land on a stack that
//! grows downwards from the last slot; before an item is taken out, every
//! stacked item is moved into a binary heap that grows upwards from slot 0.
//! Whether the heap keeps the largest or the smallest key at its root is
//! chosen by the `Kind` parameter (`Max` or `Min`).
use vstd::prelude::*;
use core::marker::PhantomData;
use vstd::multiset::Multiset;

verus! {

broadcast use vstd::seq_lib::group_to_multiset_ensures, vstd::multiset::group_multiset_axioms;

/// Which end of the key order the queue hands out first.
#[derive(PartialEq, Eq, Structural, Debug, Clone, Copy)]
pub enum HeapKind {
    Max,
    Min,
}

/// Hands out the item with the smallest key first.
pub struct Min {}

/// Hands out the item with the largest key first.
pub struct Max {}

/// Selects the order of a queue.
pub trait Kind {
    spec fn spec_kind() -> HeapKind;

    fn kind() -> (k: HeapKind)
        ensures
            k == Self::spec_kind(),
    ;
}

impl Kind for Min {
    open spec fn spec_kind() -> HeapKind {
        HeapKind::Min
    }

    fn kind() -> (k: HeapKind) {
        HeapKind::Min
    }
}

impl Kind for Max {
    open spec fn spec_kind() -> HeapKind {
        HeapKind::Max
    }

    fn kind() -> (k: HeapKind) {
        HeapKind::Max
    }
}

/// An item that the queue can order: it is ranked by an integer key.
pub trait Keyed {
    spec fn order_key(&self) -> u64;

    fn key(&self) -> (k: u64)
        ensures
            k == self.order_key(),
    ;
}

impl Keyed for u8 {
    open spec fn order_key(&self) -> u64 {
        *self as u64
    }

    fn key(&self) -> (k: u64) {
        *self as u64
    }
}

impl Keyed for u32 {
    open spec fn order_key(&self) -> u64 {
        *self as u64
    }

    fn key(&self) -> (k: u64) {
        *self as u64
    }
}

impl Keyed for u64 {
    open spec fn order_key(&self) -> u64 {
        *self
    }

    fn key(&self) -> (k: u64) {
        *self
    }
}

/// `a` is handed out strictly before `b` in a queue of the given kind.
pub open spec fn ranks_before(kind: HeapKind, a: u64, b: u64) -> bool {
    match kind {
        HeapKind::Max => a > b,
        HeapKind::Min => a < b,
    }
}

/// No item of `items` is handed out strictly before `x`.
pub open spec fn is_first<T: Keyed>(kind: HeapKind, items: Multiset<T>, x: T) -> bool {
    forall|y: T| items.contains(y) ==> !ranks_before(kind, #[trigger] y.order_key(), x.order_key())
}

/// A queue of `u8` items orders them by their value: the item that a
/// `Max` queue hands out first is the largest of all it holds, and the one
/// that a `Min` queue hands out first is the smallest.
pub proof fn law_u8_first_by_value(items: Multiset<u8>, x: u8)
    ensures
        is_first(Max::spec_kind(), items, x) ==> forall|y: u8| #[trigger] items.contains(y) ==> y <= x,
        is_first(Min::spec_kind(), items, x) ==> forall|y: u8| #[trigger] items.contains(y) ==> x <= y,
{
    assert forall|y: u8| is_first(Max::spec_kind(), items, x) && #[trigger] items.contains(y) implies y <= x by {
        assert(!ranks_before(Max::spec_kind(), y.order_key(), x.order_key()));
    }
    assert forall|y: u8| is_first(Min::spec_kind(), items, x) && #[trigger] items.contains(y) implies x <= y by {
        assert(!ranks_before(Min::spec_kind(), y.order_key(), x.order_key()));
    }
}

/// A queue of `u32` items orders them by their value: the item that a
/// `Max` queue hands out first is the largest of all it holds, and the one
/// that a `Min` queue hands out first is the smallest.
pub proof fn law_u32_first_by_value(items: Multiset<u32>, x: u32)
    ensures
        is_first(Max::spec_kind(), items, x) ==> forall|y: u32| #[trigger] items.contains(y) ==> y <= x,
        is_first(Min::spec_kind(), items, x) ==> forall|y: u32| #[trigger] items.contains(y) ==> x <= y,
{
    assert forall|y: u32| is_first(Max::spec_kind(), items, x) && #[trigger] items.contains(y) implies y <= x by {
        assert(!ranks_before(Max::spec_kind(), y.order_key(), x.order_key()));
    }
    assert forall|y: u32| is_first(Min::spec_kind(), items, x) && #[trigger] items.contains(y) implies x <= y by {
        assert(!ranks_before(Min::spec_kind(), y.order_key(), x.order_key()));
    }
}

/// A queue of `u64` items orders them by their value: the item that a
/// `Max` queue hands out first is the largest of all it holds, and the one
/// that a `Min` queue hands out first is the smallest.
pub proof fn law_u64_first_by_value(items: Multiset<u64>, x: u64)
    ensures
        is_first(Max::spec_kind(), items, x) ==> forall|y: u64| #[trigger] items.contains(y) ==> y <= x,
        is_first(Min::spec_kind(), items, x) ==> forall|y: u64| #[trigger] items.contains(y) ==> x <= y,
{
    assert forall|y: u64| is_first(Max::spec_kind(), items, x) && #[trigger] items.contains(y) implies y <= x by {
        assert(!ranks_before(Max::spec_kind(), y.order_key(), x.order_key()));
    }
    assert forall|y: u64| is_first(Min::spec_kind(), items, x) && #[trigger] items.contains(y) implies x <= y by {
        assert(!ranks_before(Min::spec_kind(), y.order_key(), x.order_key()));
    }
}

/// Items leave a queue in priority order: once `x` has been taken out as
/// the first item of `items`, no item left behind ranks before it.
pub proof fn law_pops_in_order<T: Keyed>(kind: HeapKind, items: Multiset<T>, x: T, y: T)
    requires
        items.contains(x),
        is_first(kind, items, x),
        items.remove(x).contains(y),
    ensures
        !ranks_before(kind, y.order_key(), x.order_key()),
{
    assert(items.contains(y));
}

spec fn key_at<T: Keyed>(s: Seq<Option<T>>, i: int) -> u64 {
    s[i].unwrap().order_key()
}

spec fn parent_of(i: int) -> int {
    (i - 1) / 2
}

/// The slot `i` does not outrank its parent.
spec fn parent_ok<T: Keyed>(kind: HeapKind, s: Seq<Option<T>>, i: int) -> bool {
    !ranks_before(kind, key_at(s, i), key_at(s, parent_of(i)))
}

spec fn heap_ok<T: Keyed>(kind: HeapKind, s: Seq<Option<T>>, n: int) -> bool {
    forall|i: int| 0 < i < n ==> #[trigger] parent_ok(kind, s, i)
}

/// The heap order holds everywhere but between `up` and its parent, and the
/// parent of `up` does not rank below the children of `up`.
spec fn sift_up_ok<T: Keyed>(kind: HeapKind, s: Seq<Option<T>>, n: int, up: int) -> bool {
    &&& forall|i: int| 0 < i < n && i != up ==> #[trigger] parent_ok(kind, s, i)
    &&& up > 0 ==> forall|c: int|
        0 < c < n && parent_of(c) == up ==> !ranks_before(
            kind,
            #[trigger] key_at(s, c),
            key_at(s, parent_of(up)),
        )
}

/// The heap order holds everywhere but between `dn` and its children, and the
/// parent of `dn` does not rank below the children of `dn`.
spec fn sift_down_ok<T: Keyed>(kind: HeapKind, s: Seq<Option<T>>, n: int, dn: int) -> bool {
    &&& forall|i: int| 0 < i < n && parent_of(i) != dn ==> #[trigger] parent_ok(kind, s, i)
    &&& dn > 0 ==> forall|c: int|
        0 < c < n && parent_of(c) == dn ==> !ranks_before(
            kind,
            #[trigger] key_at(s, c),
            key_at(s, parent_of(dn)),
        )
}

spec fn swapped<T>(s: Seq<T>, i: int, j: int) -> Seq<T> {
    s.update(i, s[j]).update(j, s[i])
}

spec fn heap_part<T>(s: Seq<Option<T>>, n: int) -> Seq<T> {
    Seq::new(n as nat, |i: int| s[i].unwrap())
}

spec fn stack_part<T>(s: Seq<Option<T>>, cap: int, n: int) -> Seq<T> {
    Seq::new(n as nat, |i: int| s[cap - 1 - i].unwrap())
}

proof fn lemma_not_before_transitive(kind: HeapKind, a: u64, b: u64, c: u64)
    requires
        !ranks_before(kind, a, b),
        !ranks_before(kind, b, c),
    ensures
        !ranks_before(kind, a, c),
{
}

/// In a heap, no slot outranks the root.
proof fn lemma_root_first<T: Keyed>(kind: HeapKind, s: Seq<Option<T>>, n: int, j: int)
    requires
        heap_ok(kind, s, n),
        0 <= j < n,
    ensures
        !ranks_before(kind, key_at(s, j), key_at(s, 0)),
    decreases j,
{
    if j > 0 {
        assert(parent_ok(kind, s, j));
        lemma_root_first(kind, s, n, parent_of(j));
        lemma_not_before_transitive(kind, key_at(s, j), key_at(s, parent_of(j)), key_at(s, 0));
    }
}

proof fn lemma_swap_heap_part<T>(s: Seq<Option<T>>, n: int, i: int, j: int)
    requires
        0 <= i < n,
        0 <= j < n,
        n <= s.len(),
    ensures
        heap_part(swapped(s, i, j), n) =~= swapped(heap_part(s, n), i, j),
        heap_part(swapped(s, i, j), n).to_multiset() =~= heap_part(s, n).to_multiset(),
{
    let h = heap_part(s, n);
    assert(heap_part(swapped(s, i, j), n) =~= swapped(h, i, j));
    assert(h.update(i, h[j]).to_multiset() =~= h.to_multiset().insert(h[j]).remove(h[i]));
    assert(swapped(h, i, j).to_multiset() =~= h.update(i, h[j]).to_multiset().insert(h[i]).remove(
        h.update(i, h[j])[j],
    ));
}

proof fn lemma_sift_up_step<T: Keyed>(kind: HeapKind, s: Seq<Option<T>>, n: int, up: int)
    requires
        0 < up < n,
        n <= s.len(),
        sift_up_ok(kind, s, n, up),
        ranks_before(kind, key_at(s, up), key_at(s, parent_of(up))),
    ensures
        sift_up_ok(kind, swapped(s, up, parent_of(up)), n, parent_of(up)),
{
    let p = parent_of(up);
    let t = swapped(s, up, p);
    assert(key_at(t, p) == key_at(s, up));
    assert(key_at(t, up) == key_at(s, p));
    assert forall|i: int| 0 < i < n && i != p implies #[trigger] parent_ok(kind, t, i) by {
        if i == up {
        } else if parent_of(i) == up {
            assert(key_at(t, i) == key_at(s, i));
        } else if parent_of(i) == p {
            assert(key_at(t, i) == key_at(s, i));
            assert(parent_ok(kind, s, i));
        } else {
            assert(key_at(t, i) == key_at(s, i));
            assert(key_at(t, parent_of(i)) == key_at(s, parent_of(i)));
            assert(parent_ok(kind, s, i));
        }
    }
    if p > 0 {
        assert(parent_ok(kind, s, p));
        assert forall|c: int| 0 < c < n && parent_of(c) == p implies !ranks_before(
            kind,
            #[trigger] key_at(t, c),
            key_at(t, parent_of(p)),
        ) by {
            assert(key_at(t, parent_of(p)) == key_at(s, parent_of(p)));
            if c == up {
            } else {
                assert(key_at(t, c) == key_at(s, c));
                assert(parent_ok(kind, s, c));
            }
        }
    }
}

proof fn lemma_sift_up_done<T: Keyed>(kind: HeapKind, s: Seq<Option<T>>, n: int, up: int)
    requires
        0 <= up < n,
        sift_up_ok(kind, s, n, up),
        up == 0 || !ranks_before(kind, key_at(s, up), key_at(s, parent_of(up))),
    ensures
        heap_ok(kind, s, n),
{
    assert forall|i: int| 0 < i < n implies #[trigger] parent_ok(kind, s, i) by {
        if i == up {
        }
    }
}

proof fn lemma_sift_down_step<T: Keyed>(kind: HeapKind, s: Seq<Option<T>>, n: int, dn: int, c: int)
    requires
        0 <= dn < c < n,
        n <= s.len(),
        parent_of(c) == dn,
        sift_down_ok(kind, s, n, dn),
        forall|d: int|
            0 < d < n && parent_of(d) == dn ==> !ranks_before(
                kind,
                #[trigger] key_at(s, d),
                key_at(s, c),
            ),
        ranks_before(kind, key_at(s, c), key_at(s, dn)),
    ensures
        sift_down_ok(kind, swapped(s, dn, c), n, c),
{
    let t = swapped(s, dn, c);
    assert(key_at(t, dn) == key_at(s, c));
    assert(key_at(t, c) == key_at(s, dn));
    assert forall|i: int| 0 < i < n && parent_of(i) != c implies #[trigger] parent_ok(kind, t, i) by {
        if i == c {
        } else if i == dn {
            assert(key_at(t, parent_of(i)) == key_at(s, parent_of(i)));
        } else if parent_of(i) == dn {
            assert(key_at(t, i) == key_at(s, i));
        } else {
            assert(key_at(t, i) == key_at(s, i));
            assert(key_at(t, parent_of(i)) == key_at(s, parent_of(i)));
            assert(parent_ok(kind, s, i));
        }
    }
    assert forall|g: int| 0 < g < n && parent_of(g) == c implies !ranks_before(
        kind,
        #[trigger] key_at(t, g),
        key_at(t, parent_of(c)),
    ) by {
        assert(key_at(t, g) == key_at(s, g));
        assert(parent_ok(kind, s, g));
    }
}

proof fn lemma_sift_down_done<T: Keyed>(kind: HeapKind, s: Seq<Option<T>>, n: int, dn: int)
    requires
        0 <= dn,
        sift_down_ok(kind, s, n, dn),
        forall|d: int|
            0 < d < n && parent_of(d) == dn ==> !ranks_before(
                kind,
                #[trigger] key_at(s, d),
                key_at(s, dn),
            ),
    ensures
        heap_ok(kind, s, n),
{
    assert forall|i: int| 0 < i < n implies #[trigger] parent_ok(kind, s, i) by {
        if parent_of(i) == dn {
            assert(!ranks_before(kind, key_at(s, i), key_at(s, dn)));
        }
    }
}

/// A fixed-capacity priority queue of at most `N` items.
pub struct PriorityQueue<T, K, const N: usize> {
    slots: Vec<Option<T>>,
    stack_size: usize,
    heap_size: usize,
    _phantom: PhantomData<K>,
}

impl<T: Keyed, K: Kind, const N: usize> View for PriorityQueue<T, K, N> {
    type V = Multiset<T>;

    /// Every item in the queue, stacked or in the heap.
    closed spec fn view(&self) -> Multiset<T> {
        self.heap_items().to_multiset().add(self.stack_items().to_multiset())
    }
}

impl<T: Keyed, K: Kind, const N: usize> PriorityQueue<T, K, N> {
    /// The items of the heap, root first.
    pub closed spec fn heap_items(&self) -> Seq<T> {
        heap_part(self.slots@, self.heap_size as int)
    }

    /// The stacked items, in the order in which they were pushed.
    pub closed spec fn stack_items(&self) -> Seq<T> {
        stack_part(self.slots@, N as int, self.stack_size as int)
    }

    pub closed spec fn wf(&self) -> bool {
        &&& self.shape_ok()
        &&& heap_ok(K::spec_kind(), self.slots@, self.heap_size as int)
    }

    /// The slots hold the heap at the bottom and the stack at the top, and
    /// nothing in between.
    closed spec fn shape_ok(&self) -> bool {
        &&& self.slots@.len() == N
        &&& N <= isize::MAX
        &&& self.heap_size + self.stack_size <= N
        &&& forall|i: int| 0 <= i < self.heap_size ==> (#[trigger] self.slots@[i]) is Some
        &&& forall|i: int|
            self.heap_size <= i < N - self.stack_size ==> (#[trigger] self.slots@[i]) is None
        &&& forall|i: int| N - self.stack_size <= i < N ==> (#[trigger] self.slots@[i]) is Some
    }

    /// Every well-formed queue holds at most `N` items, and its heap is in
    /// order: no item ranks before its parent, so the root ranks first.
    pub proof fn law_heap_order(&self)
        requires
            self.wf(),
        ensures
            self@.len() == self.heap_items().len() + self.stack_items().len(),
            self.heap_items().len() + self.stack_items().len() <= N,
            forall|i: int|
                0 < i < self.heap_items().len() ==> !ranks_before(
                    K::spec_kind(),
                    (#[trigger] self.heap_items()[i]).order_key(),
                    self.heap_items()[(i - 1) / 2].order_key(),
                ),
            self.heap_items().len() > 0 ==> is_first(
                K::spec_kind(),
                self.heap_items().to_multiset(),
                self.heap_items()[0],
            ),
    {
        self.lemma_view_len();
        let h = self.heap_items();
        assert forall|i: int| 0 < i < h.len() implies !ranks_before(
            K::spec_kind(),
            (#[trigger] h[i]).order_key(),
            h[(i - 1) / 2].order_key(),
        ) by {
            assert(parent_ok(K::spec_kind(), self.slots@, i));
        }
        if h.len() > 0 {
            assert forall|y: T| h.to_multiset().contains(y) implies !ranks_before(
                K::spec_kind(),
                #[trigger] y.order_key(),
                h[0].order_key(),
            ) by {
                let j = choose|j: int| 0 <= j < h.len() && h[j] == y;
                lemma_root_first(K::spec_kind(), self.slots@, self.heap_size as int, j);
            }
        }
    }

    proof fn lemma_view_len(&self)
        requires
            self.wf(),
        ensures
            self@.len() == self.heap_items().len() + self.stack_items().len(),
            self.heap_items().len() == self.heap_size,
            self.stack_items().len() == self.stack_size,
    {
    }

    /// A well-formed queue holds at most `N` items.
    pub proof fn lemma_len_bound(&self)
        requires
            self.wf(),
        ensures
            self@.len() <= N,
    {
        self.lemma_view_len();
    }

    /// Makes an empty queue.
    pub fn new() -> (q: Self)
        requires
            N <= isize::MAX,
        ensures
            q.wf(),
            q@ =~= Multiset::<T>::empty(),
            q.heap_items() == Seq::<T>::empty(),
            q.stack_items() == Seq::<T>::empty(),
    {
        let mut slots: Vec<Option<T>> = Vec::new();
        let mut i: usize = 0;
        while i < N
            invariant
                i <= N,
                slots@.len() == i,
                forall|j: int| 0 <= j < i ==> (#[trigger] slots@[j]) is None,
            decreases N - i,
        {
            slots.push(None);
            i = i + 1;
        }
        let q = PriorityQueue { slots, stack_size: 0, heap_size: 0, _phantom: PhantomData };
        assert(q.heap_items() =~= Seq::<T>::empty());
        assert(q.stack_items() =~= Seq::<T>::empty());
        q
    }

    fn swap_slots(&mut self, i: usize, j: usize)
        requires
            i < old(self).slots@.len(),
            j < old(self).slots@.len(),
        ensures
            final(self).slots@ == swapped(old(self).slots@, i as int, j as int),
            final(self).heap_size == old(self).heap_size,
            final(self).stack_size == old(self).stack_size,
    {
        let mut first: Option<T> = None;
        self.slots.set_and_swap(i, &mut first);
        let mut second: Option<T> = None;
        self.slots.set_and_swap(j, &mut second);
        self.slots.set(i, second);
        self.slots.set(j, first);
        proof {
            assert(self.slots@ =~= swapped(old(self).slots@, i as int, j as int));
        }
    }

    fn get_node(&self, index: usize) -> (node: Node<'_, T, K, N>)
        ensures
            node.heap == self,
            node.pos == index,
    {
        Node::new(self, index)
    }

    fn get_root(&self) -> (node: Node<'_, T, K, N>)
        ensures
            node.heap == self,
            node.pos == 0,
    {
        self.get_node(0)
    }

    fn get_last(&self) -> (node: Node<'_, T, K, N>)
        requires
            self.heap_size > 0,
        ensures
            node.heap == self,
            node.pos == self.heap_size - 1,
    {
        self.get_node(self.heap_size - 1)
    }

    /// Puts `item` on the stack, if the queue has room for it.
    pub fn stack_push(&mut self, item: T) -> (r: Result<(), T>)
        requires
            old(self).wf(),
        ensures
            final(self).wf(),
            r is Ok <==> old(self).heap_items().len() + old(self).stack_items().len() < N,
            r is Ok ==> final(self).stack_items() == old(self).stack_items().push(item)
                && final(self).heap_items() == old(self).heap_items(),
            r is Err ==> r == Err::<(), T>(item) && *final(self) == *old(self),
    {
        proof {
            self.lemma_view_len();
        }
        if self.stack_size < N - self.heap_size {
            let index = N - self.stack_size - 1;
            self.slots.set(index, Some(item));
            self.stack_size = self.stack_size + 1;
            proof {
                assert(heap_part(self.slots@, self.heap_size as int) =~= heap_part(
                    old(self).slots@,
                    self.heap_size as int,
                ));
                assert(self.stack_items() =~= old(self).stack_items().push(item));
                assert forall|i: int| 0 < i < self.heap_size implies #[trigger] parent_ok(
                    K::spec_kind(),
                    self.slots@,
                    i,
                ) by {
                    assert(parent_ok(K::spec_kind(), old(self).slots@, i));
                }
            }
            Ok(())
        } else {
            Err(item)
        }
    }

    /// Puts `item` into the queue, or hands it back when the queue is full.
    pub fn push(&mut self, item: T) -> (r: Result<(), T>)
        requires
            old(self).wf(),
        ensures
            final(self).wf(),
            r is Ok <==> old(self)@.len() < N,
            r is Ok ==> final(self)@ == old(self)@.insert(item),
            r is Ok ==> final(self).stack_items() == old(self).stack_items().push(item)
                && final(self).heap_items() == old(self).heap_items(),
            r is Err ==> r == Err::<(), T>(item) && *final(self) == *old(self),
    {
        proof {
            self.lemma_view_len();
        }
        let available = N - self.heap_size - self.stack_size;
        if available > 0 {
            let r = self.stack_push(item);
            proof {
                assert(self@ =~= old(self)@.insert(item));
            }
            r
        } else {
            Err(item)
        }
    }

    /// A sender that pushes into this queue.
    pub fn get_sender(&mut self) -> (s: PrioritySender<'_, T, K, N>)
        ensures
            *s.queue == *old(self),
            *final(self) == *final(s.queue),
    {
        PrioritySender { queue: self }
    }

    /// Takes the item that was stacked last.
    pub fn pop_stack(&mut self) -> (r: Option<T>)
        requires
            old(self).wf(),
        ensures
            final(self).wf(),
            final(self).heap_items() == old(self).heap_items(),
            r is None <==> old(self).stack_items().len() == 0,
            r is None ==> *final(self) == *old(self),
            r is Some ==> r == Some(old(self).stack_items().last())
                && final(self).stack_items() == old(self).stack_items().drop_last(),
    {
        proof {
            self.lemma_view_len();
        }
        if self.stack_size > 0 {
            let index = N - self.stack_size;
            let mut item: Option<T> = None;
            self.slots.set_and_swap(index, &mut item);
            self.stack_size = self.stack_size - 1;
            proof {
                assert(heap_part(self.slots@, self.heap_size as int) =~= heap_part(
                    old(self).slots@,
                    self.heap_size as int,
                ));
                assert(self.stack_items() =~= old(self).stack_items().drop_last());
                assert forall|i: int| 0 < i < self.heap_size implies #[trigger] parent_ok(
                    K::spec_kind(),
                    self.slots@,
                    i,
                ) by {
                    assert(parent_ok(K::spec_kind(), old(self).slots@, i));
                }
            }
            item
        } else {
            None
        }
    }

    /// Puts `item` into the heap and restores the heap order.
    pub fn heap_insert(&mut self, item: T) -> (r: Result<(), T>)
        requires
            old(self).wf(),
            old(self).stack_items().len() == 0 || old(self).heap_items().len()
                + old(self).stack_items().len() < N,
        ensures
            final(self).wf(),
            final(self).stack_items() == old(self).stack_items(),
            r is Ok <==> old(self).heap_items().len() < N,
            r is Ok ==> final(self).heap_items().len() == old(self).heap_items().len() + 1
                && final(self).heap_items().to_multiset() == old(
                self,
            ).heap_items().to_multiset().insert(item),
            r is Err ==> r == Err::<(), T>(item) && *final(self) == *old(self),
    {
        proof {
            self.lemma_view_len();
        }
        let index = self.heap_size;
        if index < N {
            self.slots.set(index, Some(item));
            self.heap_size = self.heap_size + 1;
            let ghost kind = K::spec_kind();
            proof {
                assert(heap_part(self.slots@, self.heap_size as int) =~= old(
                    self,
                ).heap_items().push(item));
                assert(self.stack_items() =~= old(self).stack_items());
                assert forall|i: int| 0 < i < self.heap_size && i != index implies #[trigger] parent_ok(
                    kind,
                    self.slots@,
                    i,
                ) by {
                    assert(parent_ok(kind, old(self).slots@, i));
                }
            }
            let mut pos: usize = index;
            let mut done = false;
            while !done
                invariant
                    self.shape_ok(),
                    self.heap_size == old(self).heap_size + 1,
                    self.stack_size == old(self).stack_size,
                    kind == K::spec_kind(),
                    pos < self.heap_size,
                    self.stack_items() == old(self).stack_items(),
                    heap_part(self.slots@, self.heap_size as int).to_multiset() == old(
                        self,
                    ).heap_items().to_multiset().insert(item),
                    sift_up_ok(kind, self.slots@, self.heap_size as int, pos as int),
                    done ==> heap_ok(kind, self.slots@, self.heap_size as int),
                decreases pos + (if done { 0int } else { 1int }),
            {
                let node = self.get_node(pos);
                let parent = node.parent();
                let mut next: Option<usize> = None;
                if let Some(p) = parent {
                    if node.is_higher_priority(&p) {
                        next = Some(p.pos);
                    }
                }
                match next {
                    Some(ppos) => {
                        proof {
                            lemma_sift_up_step(kind, self.slots@, self.heap_size as int, pos as int);
                            lemma_swap_heap_part(
                                self.slots@,
                                self.heap_size as int,
                                pos as int,
                                ppos as int,
                            );
                        }
                        let ghost before = self.slots@;
                        self.swap_slots(pos, ppos);
                        proof {
                            assert(self.stack_items() =~= stack_part(before, N as int, self.stack_size as int));
                        }
                        pos = ppos;
                    },
                    None => {
                        proof {
                            lemma_sift_up_done(kind, self.slots@, self.heap_size as int, pos as int);
                        }
                        done = true;
                    },
                }
            }
            Ok(())
        } else {
            Err(item)
        }
    }

    fn take_root(&mut self) -> (r: Option<T>)
        requires
            old(self).wf(),
            old(self).heap_size > 0 || old(self).stack_size < N,
        ensures
            final(self).stack_size == old(self).stack_size,
            final(self).stack_items() == old(self).stack_items(),
            r is None <==> old(self).heap_size == 0,
            r is None ==> *final(self) == *old(self),
            r is Some ==> {
                &&& final(self).heap_size == old(self).heap_size - 1
                &&& final(self).slots@ == old(self).slots@.update(
                    0,
                    old(self).slots@[old(self).heap_size - 1],
                ).update(old(self).heap_size - 1, None)
                &&& final(self).shape_ok()
                &&& sift_down_ok(K::spec_kind(), final(self).slots@, final(self).heap_size as int, 0)
                &&& r == Some(old(self).heap_items()[0])
                &&& final(self).heap_items().to_multiset() == old(self).heap_items().to_multiset().remove(
                    old(self).heap_items()[0],
                )
            },
    {
        if self.slots[0].is_some() {
            let mut item: Option<T> = None;
            self.slots.set_and_swap(0, &mut item);
            let root = self.get_root().pos;
            let last = self.get_last().pos;
            self.swap_slots(last, root);
            self.heap_size = self.heap_size - 1;
            proof {
                let kind = K::spec_kind();
                let s0 = old(self).slots@;
                let n = old(self).heap_size as int;
                let s = self.slots@;
                let h0 = old(self).heap_items();
                assert(s[0] == s0[n - 1] || n == 1);
                assert forall|i: int| 0 < i < self.heap_size && parent_of(i) != 0 implies #[trigger] parent_ok(
                    kind,
                    s,
                    i,
                ) by {
                    assert(parent_ok(kind, s0, i));
                    assert(s[i] == s0[i]);
                    assert(s[parent_of(i)] == s0[parent_of(i)]);
                }
                assert(self.stack_items() =~= old(self).stack_items());
                if n == 1 {
                    assert(self.heap_items() =~= h0.drop_last());
                    assert(h0 =~= h0.drop_last().push(h0[0]));
                } else {
                    assert(self.heap_items() =~= h0.update(0, h0[n - 1]).drop_last());
                    let u = h0.update(0, h0[n - 1]);
                    let d = u.drop_last();
                    assert(u =~= d.push(h0[n - 1]));
                    assert(u.to_multiset() == h0.to_multiset().insert(h0[n - 1]).remove(h0[0]));
                    assert(d.push(h0[n - 1]).to_multiset() == d.to_multiset().insert(h0[n - 1]));
                    assert(h0.to_multiset().contains(h0[0]));
                    assert forall|x: T| #[trigger] d.to_multiset().count(x) == h0.to_multiset().remove(
                        h0[0],
                    ).count(x) by {
                        assert(d.to_multiset().insert(h0[n - 1]).count(x) == u.to_multiset().count(x));
                    }
                    assert(d.to_multiset() =~= h0.to_multiset().remove(h0[0]));
                }
                assert(self.shape_ok());
                assert(sift_down_ok(kind, s, self.heap_size as int, 0));
                assert(item == Some(h0[0]));
                assert(self.heap_items().to_multiset() == h0.to_multiset().remove(h0[0]));
            }
            item
        } else {
            None
        }
    }

    /// Takes the root of the heap and restores the heap order.
    pub fn heap_pop(&mut self) -> (r: Option<T>)
        requires
            old(self).wf(),
            old(self).heap_items().len() > 0 || old(self).stack_items().len() < N,
        ensures
            final(self).wf(),
            final(self).stack_items() == old(self).stack_items(),
            r is None <==> old(self).heap_items().len() == 0,
            r is None ==> *final(self) == *old(self),
            r matches Some(x) ==> {
                &&& x == old(self).heap_items()[0]
                &&& old(self).heap_items().to_multiset().contains(x)
                &&& final(self).heap_items().to_multiset() == old(
                    self,
                ).heap_items().to_multiset().remove(x)
                &&& is_first(K::spec_kind(), old(self).heap_items().to_multiset(), x)
            },
    {
        proof {
            self.lemma_view_len();
        }
        let ghost kind = K::spec_kind();
        let taken = self.take_root();
        match taken {
            Some(item) => {
                proof {
                    let h0 = old(self).heap_items();
                    assert forall|y: T| h0.to_multiset().contains(y) implies !ranks_before(
                        kind,
                        #[trigger] y.order_key(),
                        item.order_key(),
                    ) by {
                        let j = choose|j: int| 0 <= j < h0.len() && h0[j] == y;
                        lemma_root_first(kind, old(self).slots@, old(self).heap_size as int, j);
                    }
                    assert(h0.to_multiset().contains(h0[0]));
                }
                let ghost removed = self.heap_items().to_multiset();
                let mut pos: usize = 0;
                let mut done = false;
                while !done
                    invariant
                        self.shape_ok(),
                        self.stack_size == old(self).stack_size,
                        kind == K::spec_kind(),
                        pos == 0 || pos < self.heap_size,
                        N > 0,
                        self.stack_items() == old(self).stack_items(),
                        self.heap_items().to_multiset() == removed,
                        sift_down_ok(kind, self.slots@, self.heap_size as int, pos as int),
                        done ==> heap_ok(kind, self.slots@, self.heap_size as int),
                    decreases self.heap_size - pos + (if done { 0int } else { 1int }),
                {
                    let node = self.get_node(pos);
                    let child = node.highest_priority_child();
                    let mut next: Option<usize> = None;
                    if let Some(c) = child {
                        if c.is_higher_priority(&node) {
                            next = Some(c.pos);
                        }
                    }
                    match next {
                        Some(cpos) => {
                            proof {
                                lemma_sift_down_step(
                                    kind,
                                    self.slots@,
                                    self.heap_size as int,
                                    pos as int,
                                    cpos as int,
                                );
                                lemma_swap_heap_part(
                                    self.slots@,
                                    self.heap_size as int,
                                    pos as int,
                                    cpos as int,
                                );
                            }
                            let ghost before = self.slots@;
                            self.swap_slots(pos, cpos);
                            proof {
                                assert(self.stack_items() =~= stack_part(
                                    before,
                                    N as int,
                                    self.stack_size as int,
                                ));
                            }
                            pos = cpos;
                        },
                        None => {
                            proof {
                                lemma_sift_down_done(
                                    kind,
                                    self.slots@,
                                    self.heap_size as int,
                                    pos as int,
                                );
                            }
                            done = true;
                        },
                    }
                }
                Some(item)
            },
            None => None,
        }
    }

    fn move_to_heap(&mut self) -> (r: Result<(), ()>)
        requires
            old(self).wf(),
        ensures
            final(self).wf(),
            final(self)@ == old(self)@,
            r is Err <==> old(self).stack_items().len() == 0,
            r is Err ==> *final(self) == *old(self),
            r is Ok ==> final(self).stack_items().len() == old(self).stack_items().len() - 1,
    {
        proof {
            self.lemma_view_len();
        }
        let ghost h0 = self.heap_items();
        let ghost st0 = self.stack_items();
        if let Some(item) = self.pop_stack() {
            proof {
                self.lemma_view_len();
            }
            let _ = self.heap_insert(item);
            proof {
                assert(st0 =~= st0.drop_last().push(item));
                assert(self@ =~= old(self)@);
            }
            Ok(())
        } else {
            Err(())
        }
    }

    /// Moves every stacked item into the heap.
    pub fn sort(&mut self)
        requires
            old(self).wf(),
        ensures
            final(self).wf(),
            final(self)@ == old(self)@,
            final(self).stack_items().len() == 0,
            final(self).heap_items().to_multiset() == old(self).heap_items().to_multiset().add(
                old(self).stack_items().to_multiset(),
            ),
            old(self).stack_items().len() == 0 ==> *final(self) == *old(self),
    {
        let mut moved = true;
        while moved
            invariant
                self.wf(),
                self@ == old(self)@,
                !moved ==> self.stack_items().len() == 0,
                old(self).stack_items().len() == 0 ==> *self == *old(self),
            decreases self.stack_items().len() + (if moved { 1int } else { 0int }),
        {
            moved = self.move_to_heap().is_ok();
        }
        proof {
            assert(self.stack_items().to_multiset() =~= Multiset::<T>::empty());
            assert(self.heap_items().to_multiset() =~= self@);
        }
    }

    /// Takes the item that ranks first, after moving every stacked item
    /// into the heap.
    pub fn pop(&mut self) -> (r: Option<T>)
        requires
            old(self).wf(),
            N > 0,
        ensures
            final(self).wf(),
            final(self).stack_items().len() == 0,
            r is None <==> old(self)@.len() == 0,
            r is None ==> final(self)@ == old(self)@,
            r matches Some(x) ==> {
                &&& old(self)@.contains(x)
                &&& final(self)@ == old(self)@.remove(x)
                &&& is_first(K::spec_kind(), old(self)@, x)
            },
            old(self).stack_items().len() == 0 && old(self)@.len() > 0 ==> r == Some(
                old(self).heap_items()[0],
            ),
    {
        self.sort();
        proof {
            self.lemma_view_len();
            assert(self@ =~= self.heap_items().to_multiset());
        }
        let r = self.heap_pop();
        proof {
            self.lemma_view_len();
            assert(self@ =~= self.heap_items().to_multiset());
        }
        r
    }

    /// Gives access to the item that ranks first, after moving every stacked
    /// item into the heap; `None` when the queue is empty.
    pub fn peek_mut(&mut self) -> (r: Option<PeekMut<'_, T, K, N>>)
        requires
            old(self).wf(),
        ensures
            r is None <==> old(self)@.len() == 0,
            r is None ==> final(self).wf() && final(self)@ == old(self)@,
            r matches Some(p) ==> p.queue().wf() && p.queue()@ == old(self)@ && p.queue()@.len() > 0
                && p.queue().stack_items().len() == 0 && *final(self) == *final(p.queue),
    {
        self.sort();
        proof {
            self.lemma_view_len();
        }
        if self.heap_size > 0 {
            Some(PeekMut { queue: self })
        } else {
            None
        }
    }

    /// The number of items in the queue.
    pub fn len(&self) -> (r: usize)
        requires
            self.wf(),
        ensures
            r == self@.len(),
            r <= N,
    {
        proof {
            self.lemma_view_len();
        }
        self.heap_size + self.stack_size
    }

    /// The item that ranks first, in a queue whose items are all in the heap.
    pub fn peek_first(&self) -> (r: &T)
        requires
            self.wf(),
            self@.len() > 0,
            self.stack_items().len() == 0,
        ensures
            *r == self.heap_items()[0],
            self@.contains(*r),
            is_first(K::spec_kind(), self@, *r),
    {
        proof {
            self.lemma_view_len();
            assert(self@ =~= self.heap_items().to_multiset());
            let h = self.heap_items();
            assert forall|y: T| h.to_multiset().contains(y) implies !ranks_before(
                K::spec_kind(),
                #[trigger] y.order_key(),
                h[0].order_key(),
            ) by {
                let j = choose|j: int| 0 <= j < h.len() && h[j] == y;
                lemma_root_first(K::spec_kind(), self.slots@, self.heap_size as int, j);
            }
            assert(h.to_multiset().contains(h[0]));
        }
        self.get_root().item()
    }
}

/// Something that items can be sent to.
pub trait Sender {
    type Item;

    /// The receiving end is in a state to take items.
    spec fn can_send(&self) -> bool;

    /// Sends `item`, or hands it back when it cannot be taken.
    fn send(&mut self, item: Self::Item) -> Result<(), Self::Item>
        requires
            old(self).can_send(),
    ;
}

/// Sends items into a queue.
pub struct PrioritySender<'a, T, K, const N: usize> {
    pub queue: &'a mut PriorityQueue<T, K, N>,
}

impl<'a, T: Keyed, K: Kind, const N: usize> Sender for PrioritySender<'a, T, K, N> {
    type Item = T;

    open spec fn can_send(&self) -> bool {
        self.queue.wf()
    }

    /// Pushes `item` into the queue; see `PriorityQueue::push`.
    fn send(&mut self, item: T) -> (r: Result<(), T>)
        ensures
            final(self).queue.wf(),
            r is Ok <==> old(self).queue@.len() < N,
            r is Ok ==> final(self).queue@ == old(self).queue@.insert(item),
            r is Err ==> r == Err::<(), T>(item) && *final(self).queue == *old(self).queue,
            *final(final(self).queue) == *final(old(self).queue),
    {
        self.queue.push(item)
    }
}

/// Access to the first item of a non-empty queue.
pub struct PeekMut<'a, T, K, const N: usize> {
    pub queue: &'a mut PriorityQueue<T, K, N>,
}

impl<'a, T: Keyed, K: Kind, const N: usize> PeekMut<'a, T, K, N> {
    /// The queue as it is now.
    pub open spec fn queue(&self) -> PriorityQueue<T, K, N> {
        *self.queue
    }

    /// The item that ranks first.
    pub fn get(&self) -> (r: &T)
        requires
            self.queue().wf(),
            self.queue()@.len() > 0,
            self.queue().stack_items().len() == 0,
        ensures
            *r == self.queue().heap_items()[0],
            self.queue()@.contains(*r),
            is_first(K::spec_kind(), self.queue()@, *r),
    {
        self.queue.peek_first()
    }

    /// Takes the item that ranks first out of the queue.
    pub fn pop(&mut self) -> (r: T)
        requires
            old(self).queue().wf(),
            old(self).queue()@.len() > 0,
        ensures
            final(self).queue().wf(),
            old(self).queue()@.contains(r),
            final(self).queue()@ == old(self).queue()@.remove(r),
            is_first(K::spec_kind(), old(self).queue()@, r),
            final(self).queue().stack_items().len() == 0,
            old(self).queue().stack_items().len() == 0 ==> r == old(self).queue().heap_items()[0],
            *final(final(self).queue) == *final(old(self).queue),
    {
        proof {
            old(self).queue().lemma_view_len();
        }
        self.queue.pop().unwrap()
    }
}

/// A position in the heap of a queue.
struct Node<'a, T, K, const N: usize> {
    heap: &'a PriorityQueue<T, K, N>,
    pos: usize,
}

impl<'a, T: Keyed, K: Kind, const N: usize> Node<'a, T, K, N> {
    fn new(heap: &'a PriorityQueue<T, K, N>, pos: usize) -> (node: Self)
        ensures
            node.heap == heap,
            node.pos == pos,
    {
        Node { heap, pos }
    }

    fn get_node(&self, index: usize) -> (r: Option<Self>)
        ensures
            r is Some <==> index < self.heap.heap_size,
            r matches Some(n) ==> n.heap == self.heap && n.pos == index,
    {
        if index < self.heap.heap_size {
            Some(Node::new(self.heap, index))
        } else {
            None
        }
    }

    fn children(&self) -> (r: (Option<Self>, Option<Self>))
        requires
            self.heap.shape_ok(),
            self.pos < N,
        ensures
            r.0 is Some <==> 2 * self.pos + 1 < self.heap.heap_size,
            r.1 is Some <==> 2 * self.pos + 2 < self.heap.heap_size,
            r.0 matches Some(n) ==> n.heap == self.heap && n.pos == 2 * self.pos + 1,
            r.1 matches Some(n) ==> n.heap == self.heap && n.pos == 2 * self.pos + 2,
    {
        let left = 2 * self.pos + 1;
        let right = left + 1;
        (self.get_node(left), self.get_node(right))
    }

    /// The child that ranks first; of two equal children, the right one.
    fn highest_priority_child(&self) -> (r: Option<Self>)
        requires
            self.heap.shape_ok(),
            self.pos < N,
        ensures
            r is None <==> 2 * self.pos + 1 >= self.heap.heap_size,
            r matches Some(c) ==> {
                &&& c.heap == self.heap
                &&& 2 * self.pos + 2 == self.heap.heap_size ==> c.pos == 2 * self.pos + 1
                &&& 2 * self.pos + 2 < self.heap.heap_size ==> c.pos == if ranks_before(
                    K::spec_kind(),
                    key_at(self.heap.slots@, 2 * self.pos + 1),
                    key_at(self.heap.slots@, 2 * self.pos + 2),
                ) {
                    2 * self.pos + 1
                } else {
                    2 * self.pos + 2
                }
                &&& parent_of(c.pos as int) == self.pos
                &&& self.pos < c.pos < self.heap.heap_size
                &&& forall|d: int|
                    0 < d < self.heap.heap_size && parent_of(d) == self.pos ==> !ranks_before(
                        K::spec_kind(),
                        #[trigger] key_at(self.heap.slots@, d),
                        key_at(self.heap.slots@, c.pos as int),
                    )
            },
    {
        let (left, right) = self.children();
        if let Some(right) = right {
            let left = left.unwrap();
            if left.is_higher_priority(&right) {
                return Some(left);
            } else {
                return Some(right);
            }
        } else {
            if let Some(left) = left {
                return Some(left);
            }
        }
        None
    }

    fn parent(&self) -> (r: Option<Self>)
        requires
            self.heap.shape_ok(),
            self.pos < self.heap.heap_size,
        ensures
            r is Some <==> self.pos > 0,
            r matches Some(p) ==> p.heap == self.heap && p.pos == parent_of(self.pos as int),
    {
        if self.pos > 0 {
            let index = (self.pos - 1) / 2;
            self.get_node(index)
        } else {
            None
        }
    }

    fn item(&self) -> (r: &'a T)
        requires
            self.heap.shape_ok(),
            self.pos < self.heap.heap_size,
        ensures
            *r == self.heap.slots@[self.pos as int].unwrap(),
    {
        self.heap.slots[self.pos].as_ref().unwrap()
    }

    fn is_higher_priority(&self, other: &Self) -> (r: bool)
        requires
            self.heap.shape_ok(),
            self.heap == other.heap,
            self.pos < self.heap.heap_size,
            other.pos < self.heap.heap_size,
        ensures
            r == ranks_before(
                K::spec_kind(),
                key_at(self.heap.slots@, self.pos as int),
                key_at(self.heap.slots@, other.pos as int),
            ),
    {
        match K::kind() {
            HeapKind::Max => self.item().key() > other.item().key(),
            HeapKind::Min => self.item().key() < other.item().key(),
        }
    }
}

} // verus!
