//! A singly linked list with a head and a tail pointer, each behind its own
//! lock. Nodes live in an arena of slots; a pointer is the index of a slot,
//! and a freed slot is reused by a later push.

use vstd::prelude::*;
use crate::atom_lock::AtomicLock;

verus! {

/// A pointer to a node: the index of its slot, or null.
#[derive(Clone, Copy, PartialEq, Eq, Structural)]
pub struct LinkPtr {
    ptr: Option<usize>,
}

impl LinkPtr {
    pub closed spec fn target(&self) -> Option<usize> {
        self.ptr
    }

    /// Allocates `link` in `nodes` and points at it.
    pub fn new<T>(nodes: &mut Nodes<T>, link: Link<T>) -> (p: LinkPtr)
        requires
            old(nodes).wf(),
        ensures
            final(nodes).wf(),
            p.target() matches Some(i) && old(nodes).is_free(i) && stored_at(
                old(nodes).slots(),
                final(nodes).slots(),
                i,
            ) && final(nodes).slots()[i as int] == Some(link),
            final(nodes).free_set() == old(nodes).free_set().remove(p.target()->0),
    {
        let alloc = nodes.allocate(link);
        Self::from_raw(Some(alloc))
    }

    /// A pointer to the slot `link_ptr`, or null.
    pub fn from_raw(link_ptr: Option<usize>) -> (p: LinkPtr)
        ensures
            p.target() == link_ptr,
    {
        LinkPtr { ptr: link_ptr }
    }

    /// The null pointer.
    pub fn null() -> (p: LinkPtr)
        ensures
            p.target() is None,
    {
        LinkPtr { ptr: None }
    }

    pub fn is_null(&self) -> (b: bool)
        ensures
            b == (self.target() is None),
    {
        self.load_ptr().is_none()
    }

    fn load_ptr(&self) -> (p: Option<usize>)
        ensures
            p == self.target(),
    {
        self.ptr
    }

    fn store_ptr(&mut self, ptr: Option<usize>)
        ensures
            final(self).target() == ptr,
    {
        self.ptr = ptr;
    }

    /// Points at what `other` points at.
    pub fn equalize(&mut self, other: &LinkPtr)
        ensures
            final(self).target() == other.target(),
    {
        let addy = other.load_ptr();
        self.store_ptr(addy);
    }
}

/// A node: its value and the pointer to the next node.
pub struct Link<T> {
    next: LinkPtr,
    value: T,
}

impl<T> Link<T> {
    pub closed spec fn next_target(&self) -> Option<usize> {
        self.next.target()
    }

    pub closed spec fn item(&self) -> T {
        self.value
    }

    /// Allocates a node with no successor; returns its slot.
    pub fn new_no_next(nodes: &mut Nodes<T>, value: T) -> (i: usize)
        requires
            old(nodes).wf(),
        ensures
            final(nodes).wf(),
            old(nodes).is_free(i),
            final(nodes).free_set() == old(nodes).free_set().remove(i),
            stored_at(old(nodes).slots(), final(nodes).slots(), i),
            final(nodes).slots()[i as int] matches Some(l) && l.item() == value && l.next_target() is None,
    {
        Self::from_parts(nodes, value, LinkPtr::null())
    }

    /// Allocates a node whose successor is the slot `raw_next`; returns its slot.
    pub fn new_with_next(nodes: &mut Nodes<T>, value: T, raw_next: Option<usize>) -> (i: usize)
        requires
            old(nodes).wf(),
        ensures
            final(nodes).wf(),
            old(nodes).is_free(i),
            final(nodes).free_set() == old(nodes).free_set().remove(i),
            stored_at(old(nodes).slots(), final(nodes).slots(), i),
            final(nodes).slots()[i as int] matches Some(l) && l.item() == value && l.next_target() == raw_next,
    {
        Self::from_parts(nodes, value, LinkPtr::from_raw(raw_next))
    }

    fn from_parts(nodes: &mut Nodes<T>, value: T, next: LinkPtr) -> (i: usize)
        requires
            old(nodes).wf(),
        ensures
            final(nodes).wf(),
            old(nodes).is_free(i),
            final(nodes).free_set() == old(nodes).free_set().remove(i),
            stored_at(old(nodes).slots(), final(nodes).slots(), i),
            final(nodes).slots()[i as int] matches Some(l) && l.item() == value && l.next_target() == next.target(),
    {
        nodes.allocate(Link { value, next })
    }
}

/// `new` is `old` with slot `i` filled: an existing slot, or one more at the
/// end; every other slot is unchanged.
pub open spec fn stored_at<T>(old: Seq<Option<Link<T>>>, new: Seq<Option<Link<T>>>, i: usize) -> bool {
    &&& i <= old.len()
    &&& new.len() == (if i < old.len() { old.len() } else { old.len() + 1 })
    &&& forall|j: int| 0 <= j < old.len() && j != i ==> #[trigger] new[j] == old[j]
}

/// The arena of node slots, with the list of the free ones.
pub struct Nodes<T> {
    slots: Vec<Option<Link<T>>>,
    free: Vec<usize>,
}

impl<T> Nodes<T> {
    pub closed spec fn slots(&self) -> Seq<Option<Link<T>>> {
        self.slots@
    }

    pub closed spec fn free_set(&self) -> Set<usize> {
        self.free@.to_set()
    }

    /// A slot that a new node may take: empty, or past the end.
    pub open spec fn is_free(&self, i: usize) -> bool {
        i >= self.slots().len() || self.slots()[i as int] is None
    }

    pub closed spec fn wf(&self) -> bool {
        &&& self.free@.no_duplicates()
        &&& forall|k: int| 0 <= k < self.free@.len() ==> #[trigger] self.free@[k] < self.slots@.len()
            && self.slots@[self.free@[k] as int] is None
    }

    pub fn new() -> (n: Nodes<T>)
        ensures
            n.wf(),
            n.slots() == Seq::<Option<Link<T>>>::empty(),
    {
        Nodes { slots: Vec::new(), free: Vec::new() }
    }

    /// Stores `link` in a free slot, reusing one if any; returns the slot.
    fn allocate(&mut self, link: Link<T>) -> (i: usize)
        requires
            old(self).wf(),
        ensures
            final(self).wf(),
            old(self).is_free(i),
            final(self).free_set() == old(self).free_set().remove(i),
            stored_at(old(self).slots(), final(self).slots(), i),
            final(self).slots()[i as int] == Some(link),
    {
        match self.free.pop() {
            Some(i) => {
                proof {
                    assert(old(self).free@[old(self).free@.len() - 1] == i);
                    assert(self.free@ == old(self).free@.drop_last());
                }
                self.slots.set(i, Some(link));
                proof {
                    assert forall|k: int| 0 <= k < self.free@.len() implies #[trigger] self.free@[k]
                        < self.slots@.len() && self.slots@[self.free@[k] as int] is None by {
                        assert(self.free@[k] == old(self).free@[k]);
                        assert(self.free@[k] != i);
                    }
                    assert(self.free@.to_set() =~= old(self).free@.to_set().remove(i)) by {
                        assert forall|x: usize| old(self).free@.to_set().contains(x) && x != i implies
                            self.free@.to_set().contains(x) by {
                            let k = choose|k: int| 0 <= k < old(self).free@.len() && old(self).free@[k] == x;
                            assert(k != old(self).free@.len() - 1);
                            assert(self.free@[k] == x);
                        }
                        assert forall|x: usize| self.free@.to_set().contains(x) implies x != i by {
                            let k = choose|k: int| 0 <= k < self.free@.len() && self.free@[k] == x;
                            assert(old(self).free@[k] == x);
                        }
                    }
                }
                i
            },
            None => {
                assert(self.free@ =~= Seq::<usize>::empty());
                let i = self.slots.len();
                self.slots.push(Some(link));
                proof {
                    assert(self.free@.to_set() =~= old(self).free@.to_set().remove(i));
                }
                i
            },
        }
    }

    /// Takes the node out of slot `i`, which becomes free.
    fn release(&mut self, i: usize) -> (link: Link<T>)
        requires
            old(self).wf(),
            i < old(self).slots().len(),
            old(self).slots()[i as int] is Some,
        ensures
            final(self).wf(),
            Some(link) == old(self).slots()[i as int],
            final(self).slots() == old(self).slots().update(i as int, None),
            final(self).free_set() == old(self).free_set().insert(i),
    {
        self.slots.push(None);
        let taken = self.slots.swap_remove(i);
        proof {
            assert(self.slots@ =~= old(self).slots@.update(i as int, None));
            assert(!old(self).free@.contains(i)) by {
                if old(self).free@.contains(i) {
                    let k = choose|k: int| 0 <= k < old(self).free@.len() && old(self).free@[k] == i;
                    assert(old(self).slots@[old(self).free@[k] as int] is None);
                }
            }
        }
        self.free.push(i);
        proof {
            assert(self.free@ == old(self).free@.push(i));
            assert(self.free@.to_set() =~= old(self).free@.to_set().insert(i)) by {
                assert(self.free@[self.free@.len() - 1] == i);
                assert forall|x: usize| old(self).free@.to_set().contains(x) implies
                    self.free@.to_set().contains(x) by {
                    let k = choose|k: int| 0 <= k < old(self).free@.len() && old(self).free@[k] == x;
                    assert(self.free@[k] == x);
                }
                assert forall|x: usize| self.free@.to_set().contains(x) && x != i implies
                    old(self).free@.to_set().contains(x) by {
                    let k = choose|k: int| 0 <= k < self.free@.len() && self.free@[k] == x;
                    assert(old(self).free@[k] == x);
                }
            }
            assert forall|k: int| 0 <= k < self.free@.len() implies #[trigger] self.free@[k]
                < self.slots@.len() && self.slots@[self.free@[k] as int] is None by {
                if k < old(self).free@.len() {
                    assert(self.free@[k] == old(self).free@[k]);
                }
            }
        }
        taken.unwrap()
    }
}


/// A list that pushes and pops at its front.
pub struct LinkyList<T> {
    head: AtomicLock<LinkPtr>,
    tail: AtomicLock<LinkPtr>,
    nodes: Nodes<T>,
    order: Ghost<Seq<usize>>,
}

impl<T> LinkyList<T> {
    /// The slots of the nodes, from the head to the tail.
    pub closed spec fn chain(&self) -> Seq<usize> {
        self.order@
    }

    /// The values of the list, from the head to the tail.
    pub closed spec fn view(&self) -> Seq<T> {
        self.order@.map_values(|i: usize| self.nodes.slots()[i as int]->0.item())
    }

    /// The nodes form one chain from the head to the tail, each linked to
    /// the next, and the locks are free between operations.
    pub closed spec fn wf(&self) -> bool {
        let order = self.order@;
        let slots = self.nodes.slots();
        &&& self.nodes.wf()
        &&& self.head.wf() && !self.head.is_locked()
        &&& self.tail.wf() && !self.tail.is_locked()
        &&& order.no_duplicates()
        &&& forall|k: int|
            0 <= k < order.len() ==> #[trigger] order[k] < slots.len() && slots[order[k] as int] is Some
        &&& forall|k: int|
            0 <= k < order.len() ==> (#[trigger] slots[order[k] as int])->0.next_target() == (if k + 1
                < order.len() {
                Some(order[k + 1])
            } else {
                None
            })
        &&& self.head.value().target() == (if order.len() > 0 {
            Some(order[0])
        } else {
            None
        })
        &&& self.tail.value().target() == (if order.len() > 0 {
            Some(order[order.len() - 1])
        } else {
            None
        })
    }

    /// The slot that the head points at.
    pub closed spec fn head_target(&self) -> Option<usize> {
        self.head.value().target()
    }

    /// The slot that the tail points at.
    pub closed spec fn tail_target(&self) -> Option<usize> {
        self.tail.value().target()
    }

    /// The slot that the node in slot `i` links to.
    pub closed spec fn next_of(&self, i: usize) -> Option<usize> {
        self.nodes.slots()[i as int]->0.next_target()
    }

    /// The value of the node in slot `i`.
    pub closed spec fn value_at(&self, i: usize) -> T {
        self.nodes.slots()[i as int]->0.item()
    }

    /// The shape of a well-formed list: the head is null exactly when the
    /// tail is, exactly when the list is empty. Otherwise the head points at
    /// the first node of the chain and the tail at the last; following the
    /// links from the head visits the nodes of the chain in order, each
    /// holding the value at its place, and ends at the tail, whose link is
    /// null. The chain has one node per value and no node twice.
    pub proof fn lemma_shape(&self)
        requires
            self.wf(),
        ensures
            self.chain().len() == self.view().len(),
            self.chain().no_duplicates(),
            (self.head_target() is None) == (self.tail_target() is None),
            (self.head_target() is None) == (self.view().len() == 0),
            self.view().len() > 0 ==> self.head_target() == Some(self.chain()[0])
                && self.tail_target() == Some(self.chain().last()),
            forall|k: int|
                0 <= k < self.chain().len() - 1 ==> self.next_of(#[trigger] self.chain()[k])
                    == Some(self.chain()[k + 1]),
            self.view().len() > 0 ==> self.next_of(self.chain().last()) is None,
            forall|k: int|
                0 <= k < self.chain().len() ==> self.value_at(#[trigger] self.chain()[k])
                    == self.view()[k],
    {
        let order = self.order@;
        let slots = self.nodes.slots();
        assert forall|k: int| 0 <= k < order.len() - 1 implies self.next_of(#[trigger] order[k])
            == Some(order[k + 1]) by {
            assert(slots[order[k] as int]->0.next_target() == Some(order[k + 1]));
        }
        if order.len() > 0 {
            let k = order.len() - 1;
            assert(slots[order[k] as int]->0.next_target() is None);
        }
    }

    /// `push_front`: the value comes first, before all that was there, in a
    /// new node at the head of the chain; the nodes that were there stay
    /// in place, and the tail moves only when the list was empty.
    pub open spec fn push_front_post(self, l: Self, value: T) -> bool {
        &&& l.view() == seq![value] + self.view()
        &&& l.chain().len() == self.chain().len() + 1
        &&& l.chain().drop_first() == self.chain()
        &&& l.head_target() == Some(l.chain()[0])
        &&& self.view().len() > 0 ==> l.tail_target() == self.tail_target()
        &&& self.view().len() == 0 ==> l.tail_target() == l.head_target()
    }

    /// `pop_front`: the first value leaves the list and is returned;
    /// an empty list gives `None` and stays empty.
    pub open spec fn pop_front_post(self, l: Self, r: Option<T>) -> bool {
        &&& self.view().len() == 0 ==> r is None && l.view() == self.view()
        &&& self.view().len() > 0 ==> r == Some(self.view()[0]) && l.view()
            == self.view().drop_first()
    }

    /// An empty list.
    pub fn new() -> (l: Self)
        ensures
            l.wf(),
            l.view() == Seq::<T>::empty(),
    {
        let l = LinkyList {
            head: AtomicLock::new(LinkPtr::null()),
            tail: AtomicLock::new(LinkPtr::null()),
            nodes: Nodes::new(),
            order: Ghost(Seq::empty()),
        };
        assert(l.view() =~= Seq::<T>::empty());
        l
    }

    /// Puts `value` at the front.
    pub fn push_front(&mut self, value: T)
        requires
            old(self).wf(),
        ensures
            final(self).wf(),
            old(self).push_front_post(*final(self), value),
    {
        let ghost order = self.order@;
        let ghost slots0 = self.nodes.slots();
        self.head.lock();
        self.tail.lock();
        let idx;
        if self.head.get().is_null() {
            idx = Link::new_no_next(&mut self.nodes, value);
            self.head.set(LinkPtr::from_raw(Some(idx)));
            self.tail.set(LinkPtr::from_raw(Some(idx)));
            self.tail.unlock();
            self.head.unlock();
        } else {
            self.tail.unlock();
            let next = self.head.get().load_ptr();
            idx = Link::new_with_next(&mut self.nodes, value, next);
            self.head.set(LinkPtr::from_raw(Some(idx)));
            self.head.unlock();
        }
        proof {
            let slots = self.nodes.slots();
            assert forall|k: int| 0 <= k < order.len() implies #[trigger] order[k] != idx by {
                assert(slots0[order[k] as int] is Some);
            }
            self.order@ = seq![idx] + order;
            let o = self.order@;
            assert forall|k: int| 0 < k < o.len() implies slots[o[k] as int] == slots0[o[k] as int] by {
                assert(o[k] == order[k - 1]);
            }
            assert(o.no_duplicates()) by {
                assert forall|a: int, b: int| 0 <= a < o.len() && 0 <= b < o.len() && a != b implies o[a]
                    != o[b] by {
                    if a > 0 && b > 0 {
                        assert(o[a] == order[a - 1] && o[b] == order[b - 1]);
                    } else if a == 0 {
                        assert(o[b] == order[b - 1]);
                    } else {
                        assert(o[a] == order[a - 1]);
                    }
                }
            }
            assert forall|k: int| 0 <= k < o.len() implies #[trigger] o[k] < slots.len()
                && slots[o[k] as int] is Some by {
                if k > 0 {
                    assert(o[k] == order[k - 1]);
                }
            }
            assert forall|k: int| 0 <= k < o.len() implies (#[trigger] slots[o[k] as int])->0.next_target()
                == (if k + 1 < o.len() {
                Some(o[k + 1])
            } else {
                None
            }) by {
                if k > 0 {
                    assert(o[k] == order[k - 1]);
                    assert(slots0[order[k - 1] as int]->0.next_target() == (if k < order.len() {
                        Some(order[k])
                    } else {
                        None
                    }));
                }
            }
            assert(o.drop_first() =~= order);
            assert(self.view() =~= seq![value] + old(self).view()) by {
                assert forall|k: int| 0 < k < o.len() implies #[trigger] self.view()[k] == old(
                    self,
                ).view()[k - 1] by {
                    assert(o[k] == order[k - 1]);
                }
            }
        }
    }

    /// Takes the value at the front, if any.
    pub fn pop_front(&mut self) -> (r: Option<T>)
        requires
            old(self).wf(),
        ensures
            final(self).wf(),
            old(self).pop_front_post(*final(self), r),
    {
        let ghost order = self.order@;
        let ghost slots0 = self.nodes.slots();
        self.head.lock();
        if self.head.get().is_null() {
            self.head.unlock();
            None
        } else {
            self.tail.lock();
            let idx = self.head.get().load_ptr().unwrap();
            assert(idx == order[0]);
            let reclaimed = self.nodes.release(idx);
            if reclaimed.next.is_null() {
                self.tail.set(LinkPtr::null());
            }
            self.tail.unlock();
            self.head.set(LinkPtr::from_raw(reclaimed.next.load_ptr()));
            self.head.unlock();
            proof {
                let slots = self.nodes.slots();
                self.order@ = order.drop_first();
                let o = self.order@;
                assert forall|k: int| 0 <= k < o.len() implies #[trigger] o[k] == order[k + 1] && slots[o[k] as int]
                    == slots0[o[k] as int] by {
                    assert(order[k + 1] != order[0]);
                }
                assert(self.view() =~= old(self).view().drop_first());
            }
            Some(reclaimed.value)
        }
    }
}

} // verus!
