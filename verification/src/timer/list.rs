//! A list kept in the order of its items' keys; items with equal keys keep
//! the order in which they were inserted.
use vstd::prelude::*;
use crate::priority_queue::Keyed;

verus! {

/// An item that is not in a list yet.
pub struct Node<T> {
    item: T,
}

impl<T> Node<T> {
    pub closed spec fn item(&self) -> T {
        self.item
    }

    pub fn new(item: T) -> (n: Self)
        ensures
            n.item() == item,
    {
        Node { item }
    }

    pub fn get_item(&self) -> (r: &T)
        ensures
            *r == self.item(),
    {
        &self.item
    }
}

/// The keys of `s` never decrease.
pub open spec fn sorted<T: Keyed>(s: Seq<T>) -> bool {
    forall|i: int, j: int| 0 <= i < j < s.len() ==> s[i].order_key() <= s[j].order_key()
}

/// The first index, from `i` on, of an item of `s` whose key exceeds `k`;
/// the length of `s` if there is none.
pub open spec fn first_greater<T: Keyed>(s: Seq<T>, k: u64, i: int) -> int
    decreases s.len() - i,
{
    if i >= s.len() || i < 0 {
        s.len() as int
    } else if s[i].order_key() > k {
        i
    } else {
        first_greater(s, k, i + 1)
    }
}

/// In a sorted list, an item is inserted after every item whose key is at
/// most its own and before every other, so items of equal keys come out in
/// the order in which they went in.
pub proof fn law_insert_after_equals<T: Keyed>(s: Seq<T>, k: u64)
    requires
        sorted(s),
    ensures
        0 <= first_greater(s, k, 0) <= s.len(),
        forall|i: int| 0 <= i < first_greater(s, k, 0) ==> (#[trigger] s[i]).order_key() <= k,
        forall|i: int| first_greater(s, k, 0) <= i < s.len() ==> (#[trigger] s[i]).order_key() > k,
{
    lemma_first_greater(s, k, 0);
}

proof fn lemma_first_greater<T: Keyed>(s: Seq<T>, k: u64, from: int)
    requires
        sorted(s),
        0 <= from <= s.len(),
        forall|i: int| 0 <= i < from ==> (#[trigger] s[i]).order_key() <= k,
    ensures
        from <= first_greater(s, k, from) <= s.len(),
        forall|i: int| 0 <= i < first_greater(s, k, from) ==> (#[trigger] s[i]).order_key() <= k,
        forall|i: int| first_greater(s, k, from) <= i < s.len() ==> (#[trigger] s[i]).order_key() > k,
    decreases s.len() - from,
{
    if from < s.len() {
        if s[from].order_key() > k {
            assert forall|i: int| from <= i < s.len() implies (#[trigger] s[i]).order_key() > k by {
                if i > from {
                    assert(s[from].order_key() <= s[i].order_key());
                }
            }
        } else {
            lemma_first_greater(s, k, from + 1);
        }
    }
}

/// The items, in order of their keys.
pub struct List<T> {
    items: Vec<T>,
}

impl<T: Keyed> View for List<T> {
    type V = Seq<T>;

    closed spec fn view(&self) -> Seq<T> {
        self.items@
    }
}

impl<T: Keyed> List<T> {
    pub open spec fn wf(&self) -> bool {
        sorted(self@)
    }

    pub fn new() -> (l: Self)
        ensures
            l.wf(),
            l@ == Seq::<T>::empty(),
    {
        List { items: Vec::new() }
    }

    /// Inserts the node's item after every item whose key is at most its
    /// own.
    pub fn insert(&mut self, new_node: Node<T>)
        requires
            old(self).wf(),
        ensures
            final(self).wf(),
            final(self)@ == old(self)@.insert(
                first_greater(old(self)@, new_node.item().order_key(), 0),
                new_node.item(),
            ),
    {
        let key = new_node.item.key();
        let mut pos: usize = 0;
        let len = self.items.len();
        while pos < len && self.items[pos].key() <= key
            invariant
                pos <= len,
                len == self.items@.len(),
                self.items@ == old(self).items@,
                forall|i: int| 0 <= i < pos ==> (#[trigger] self.items@[i]).order_key() <= key,
                first_greater(self.items@, key, 0) == first_greater(self.items@, key, pos as int),
            decreases len - pos,
        {
            pos = pos + 1;
        }
        let ghost old_items = self.items@;
        let x = new_node.item;
        self.items.insert(pos, x);
        proof {
            assert forall|i: int| pos <= i < old_items.len() implies (
            #[trigger] old_items[i]).order_key() > key by {
                if pos < len {
                    assert(old_items[pos as int].order_key() > key);
                    if i > pos {
                        assert(old_items[pos as int].order_key() <= old_items[i].order_key());
                    }
                }
            }
            let s = self.items@;
            assert(s == old_items.insert(pos as int, x));
            assert forall|i: int, j: int| 0 <= i < j < s.len() implies s[i].order_key()
                <= s[j].order_key() by {
                if i < pos && j < pos {
                } else if i < pos && j == pos {
                } else if i < pos {
                    assert(s[j] == old_items[j - 1]);
                } else if i == pos {
                    assert(s[j] == old_items[j - 1]);
                } else {
                    assert(s[i] == old_items[i - 1]);
                    assert(s[j] == old_items[j - 1]);
                }
            }
            assert(first_greater(old_items, key, pos as int) == pos);
        }
    }

    /// Access to the first item; `None` when the list is empty.
    pub fn peek_mut(&mut self) -> (r: Option<PeekMut<'_, T>>)
        requires
            old(self).wf(),
        ensures
            r is None <==> old(self)@.len() == 0,
            r is None ==> *final(self) == *old(self),
            r matches Some(p) ==> *p.list == *old(self) && *final(self) == *final(p.list),
    {
        if self.items.len() == 0 {
            None
        } else {
            Some(PeekMut { list: self })
        }
    }

    /// Takes out the first item: one of least key, inserted before any
    /// other of that key.
    pub fn pop(&mut self) -> (r: Option<T>)
        requires
            old(self).wf(),
        ensures
            final(self).wf(),
            r is None <==> old(self)@.len() == 0,
            r is None ==> final(self)@ == old(self)@,
            r matches Some(x) ==> x == old(self)@[0] && final(self)@ == old(self)@.drop_first(),
    {
        if self.items.len() == 0 {
            None
        } else {
            let x = self.items.remove(0);
            proof {
                assert(self@ =~= old(self)@.drop_first());
                assert forall|i: int, j: int| 0 <= i < j < self@.len() implies self@[i].order_key()
                    <= self@[j].order_key() by {
                    assert(self@[i] == old(self)@[i + 1]);
                    assert(self@[j] == old(self)@[j + 1]);
                }
            }
            Some(x)
        }
    }
}

/// Access to the first item of a non-empty list.
pub struct PeekMut<'a, T> {
    pub list: &'a mut List<T>,
}

impl<'a, T: Keyed> PeekMut<'a, T> {
    /// The first item.
    pub fn get(&self) -> (r: &T)
        requires
            self.list@.len() > 0,
        ensures
            *r == old(self.list)@[0],
    {
        &self.list.items[0]
    }

    /// Takes the first item out of the list.
    pub fn pop(self) -> (r: T)
        requires
            self.list.wf(),
            self.list@.len() > 0,
        ensures
            r == old(self.list)@[0],
            final(self.list).wf(),
            final(self.list)@ == old(self.list)@.drop_first(),
    {
        self.list.pop().unwrap()
    }
}

} // verus!
