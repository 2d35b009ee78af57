//! A persistent singly linked list.
//!
//! `prepend` is the only way to extend a list; it returns a new list whose
//! head holds the new element and whose tail shares the nodes of the list it
//! was built from. No node is ever mutated after it is created, so every list
//! that was ever constructed keeps its value for as long as it is alive.

use std::rc::Rc;
use vstd::prelude::*;
use vstd::std_specs::cmp::PartialEqSpec;
use vstd::std_specs::cmp::PartialEqSpecImpl;

verus! {

/// One link of a non-empty chain: an element and the rest of the chain.
///
/// Every node holds a value, so a value-less node can never sit inside a
/// chain; the empty list is the one list without any node at all.
#[derive(Debug)]
pub struct Node<T> {
    pub value: T,
    pub next: Option<Rc<Node<T>>>,
}

/// An immutable singly linked list: an ordered, 0-indexed sequence of
/// elements, extended only by [`ImmutableList::prepend`], which leaves the
/// list it was called on untouched and shares its nodes.
///
/// The view of a list (`l@`) is the sequence of its elements, the most
/// recently prepended element first.
#[derive(Debug)]
pub struct ImmutableList<T> {
    pub head: Option<Rc<Node<T>>>,
}

impl<T> Node<T> {
    /// The elements of the chain that starts at this node, this node's first.
    pub open spec fn elems(self) -> Seq<T>
        decreases self,
    {
        seq![self.value] + (match self.next {
            Some(rest) => rest.elems(),
            None => Seq::<T>::empty(),
        })
    }
}

/// The elements hanging off an owned link, head first; an absent link holds
/// nothing.
pub open spec fn chain_elems<T>(head: Option<Rc<Node<T>>>) -> Seq<T> {
    match head {
        Some(node) => node.elems(),
        None => Seq::<T>::empty(),
    }
}

/// The elements still ahead of a borrowed link, head first.
pub open spec fn cursor_elems<T>(current: Option<&Node<T>>) -> Seq<T> {
    match current {
        Some(node) => node.elems(),
        None => Seq::<T>::empty(),
    }
}

impl<T> View for ImmutableList<T> {
    type V = Seq<T>;

    open spec fn view(&self) -> Seq<T> {
        chain_elems(self.head)
    }
}

/// A cursor over a list: a read-only, non-owning view of the chain that
/// yields one element at a time, from the most recently prepended element to
/// the least recently prepended one.
///
/// The view of a cursor (`it@`) is the sequence of the elements it has not
/// yielded yet; a fresh cursor's view is the whole list's view, an exhausted
/// cursor's view is empty and stays empty.
#[derive(Debug)]
pub struct IterList<'a, T> {
    pub current: Option<&'a Node<T>>,
}

impl<'a, T> View for IterList<'a, T> {
    type V = Seq<T>;

    open spec fn view(&self) -> Seq<T> {
        cursor_elems(self.current)
    }
}

/// Borrows the node an owned link points at, if any.
fn head_ref<'a, T>(head: &'a Option<Rc<Node<T>>>) -> (r: Option<&'a Node<T>>)
    ensures
        cursor_elems(r) == chain_elems(*head),
{
    match head {
        Some(node) => Some(&**node),
        None => None,
    }
}

impl<T: Clone> ImmutableList<T> {
    /// The canonical empty list: no node, no elements.
    pub fn new() -> (r: Self)
        ensures
            r@ == Seq::<T>::empty(),
            r@.len() == 0,
    {
        ImmutableList { head: None }
    }

    /// The number of elements, counted by walking the chain; nothing is
    /// cached. A list that exists in memory is never longer than the address
    /// space, which is what the precondition records.
    pub fn len(&self) -> (n: usize)
        requires
            self@.len() <= usize::MAX,
        ensures
            n == self@.len(),
    {
        let mut n: usize = 0;
        let mut cur: &Option<Rc<Node<T>>> = &self.head;
        loop
            invariant
                n + chain_elems(*cur).len() == self@.len(),
                self@.len() <= usize::MAX,
            decreases chain_elems(*cur).len(),
        {
            match cur {
                Some(node) => {
                    n = n + 1;
                    cur = &node.next;
                },
                None => {
                    return n;
                },
            }
        }
    }

    /// The element at position `i`, where position 0 is the most recently
    /// prepended element, or nothing when `i` is out of range. The element is
    /// found exactly as iteration finds it: a cursor is advanced `i` times
    /// and the value it yields next is the answer, so `index` agrees with
    /// [`ImmutableList::iter`] position for position.
    pub fn index(&self, i: usize) -> (r: Option<&T>)
        ensures
            i < self@.len() ==> (r matches Some(v) && *v == self@[i as int]),
            i >= self@.len() ==> r is None,
    {
        let mut it = self.iter();
        let mut k: usize = 0;
        proof {
            assert(self@.skip(0) =~= self@);
        }
        loop
            invariant
                k <= i,
                it@ == self@.skip(k as int),
                k <= self@.len(),
            decreases i - k,
        {
            match it.next() {
                Some(v) => {
                    if k == i {
                        return Some(v);
                    }
                    k = k + 1;
                    proof {
                        assert(self@.skip(k - 1).skip(1) =~= self@.skip(k as int));
                    }
                },
                None => {
                    return None;
                },
            }
        }
    }

    /// True exactly when the list holds no element.
    pub fn is_empty(&self) -> (r: bool)
        ensures
            r == (self@.len() == 0),
    {
        self.head.is_none()
    }

    /// Returns a new list holding `value` in front of all of `self`'s
    /// elements. The list prepended to is only borrowed: it keeps every
    /// element at its position (they reappear at positions `1..` of the new
    /// list), and the new list shares its nodes instead of copying them.
    pub fn prepend(&self, value: T) -> (r: Self)
        ensures
            r@ == seq![value] + self@,
            r@.len() == self@.len() + 1,
            r@[0] == value,
            r@.skip(1) == self@,
    {
        let next = match &self.head {
            Some(node) => Some(node.clone()),
            None => None,
        };
        let r = ImmutableList { head: Some(Rc::new(Node { value, next })) };
        proof {
            assert(r@.skip(1) =~= self@);
        }
        r
    }

    /// A fresh cursor positioned at the head; the list itself is neither
    /// consumed nor changed, and any number of cursors may run over it at
    /// once.
    pub fn iter<'a>(&'a self) -> (it: IterList<'a, T>)
        ensures
            it@ == self@,
    {
        IterList { current: head_ref(&self.head) }
    }
}

impl<T: Clone> Clone for ImmutableList<T> {
    /// An independent logical copy: same elements, same order. Only the
    /// handle on the chain is duplicated; the nodes themselves are shared
    /// with the original, never copied element by element.
    fn clone(&self) -> (r: Self)
        ensures
            r@ == self@,
    {
        ImmutableList {
            head: match &self.head {
                Some(node) => Some(node.clone()),
                None => None,
            },
        }
    }
}

impl<'a, T> Clone for IterList<'a, T> {
    /// An independent cursor standing at the same position; advancing one
    /// does not move the other.
    fn clone(&self) -> (r: Self)
        ensures
            r == *self,
    {
        IterList { current: self.current }
    }
}

impl<T: PartialEq> PartialEqSpecImpl for ImmutableList<T> {
    open spec fn obeys_eq_spec() -> bool {
        T::obeys_eq_spec()
    }

    open spec fn eq_spec(&self, other: &Self) -> bool {
        self@.len() == other@.len() && (forall|j: int|
            0 <= j < self@.len() ==> self@[j].eq_spec(&other@[j]))
    }
}

impl<T: PartialEq> PartialEq for ImmutableList<T> {
    /// Structural, value-based equality: two lists are equal exactly when
    /// they hold equal elements at every position, whether or not they share
    /// any node.
    fn eq(&self, other: &Self) -> (r: bool) {
        let mut a = head_ref(&self.head);
        let mut b = head_ref(&other.head);
        let ghost s = self@;
        let ghost t = other@;
        let ghost mut k: int = 0;
        proof {
            assert(s.skip(0) =~= s);
            assert(t.skip(0) =~= t);
        }
        loop
            invariant
                0 <= k <= s.len(),
                k <= t.len(),
                cursor_elems(a) == s.skip(k),
                cursor_elems(b) == t.skip(k),
                s == self@,
                t == other@,
                T::obeys_eq_spec() ==> (forall|j: int| 0 <= j < k ==> s[j].eq_spec(&t[j])),
            decreases s.len() - k,
        {
            match (a, b) {
                (Some(x), Some(y)) => {
                    if x.value == y.value {
                        a = head_ref(&x.next);
                        b = head_ref(&y.next);
                        proof {
                            k = k + 1;
                            assert(s.skip(k - 1) == seq![x.value] + chain_elems(x.next));
                            assert(t.skip(k - 1) == seq![y.value] + chain_elems(y.next));
                            assert(s.skip(k - 1).skip(1) =~= s.skip(k));
                            assert(t.skip(k - 1).skip(1) =~= t.skip(k));
                            assert(s.skip(k - 1).skip(1) =~= chain_elems(x.next));
                            assert(t.skip(k - 1).skip(1) =~= chain_elems(y.next));
                            assert(s.skip(k - 1)[0] == x.value && t.skip(k - 1)[0] == y.value);
                            assert(s[k - 1] == s.skip(k - 1)[0] && t[k - 1] == t.skip(k - 1)[0]);
                        }
                    } else {
                        proof {
                            assert(s.skip(k) == seq![x.value] + chain_elems(x.next));
                            assert(t.skip(k) == seq![y.value] + chain_elems(y.next));
                            assert(s.skip(k).len() > 0 && t.skip(k).len() > 0);
                            assert(s.skip(k)[0] == x.value && t.skip(k)[0] == y.value);
                            assert(s[k] == s.skip(k)[0] && t[k] == t.skip(k)[0]);
                        }
                        return false;
                    }
                },
                (None, None) => {
                    return true;
                },
                (Some(x), None) => {
                    proof {
                        assert(s.skip(k) == seq![x.value] + chain_elems(x.next));
                        assert(s.len() > k && t.len() == k);
                    }
                    return false;
                },
                (None, Some(y)) => {
                    proof {
                        assert(t.skip(k) == seq![y.value] + chain_elems(y.next));
                        assert(t.len() > k && s.len() == k);
                    }
                    return false;
                },
            }
        }
    }
}

impl<'a, T: Clone> IterList<'a, T> {
    /// Yields the element the cursor stands on and advances past it; once
    /// the chain is exhausted, every further call yields nothing.
    pub fn next(&mut self) -> (r: Option<&'a T>)
        ensures
            old(self)@.len() > 0 ==> (r matches Some(v) && *v == old(self)@[0] && final(self)@
                == old(self)@.skip(1)),
            old(self)@.len() == 0 ==> (r is None && final(self)@ == old(self)@),
    {
        match self.current {
            Some(node) => {
                self.current = head_ref(&node.next);
                proof {
                    assert(self@ =~= old(self)@.skip(1));
                }
                Some(&node.value)
            },
            None => None,
        }
    }
}

/// Prepend preserves the original: a new list `m` built by `prepend`, whose
/// view its contract gives as `v` in front of `l`'s elements, carries every
/// element of `l` unchanged, shifted one position towards the tail. `prepend`
/// itself only borrows `l`, so `l`'s own view — and with it everything
/// `len`, `index` and `iter` return for `l` — is what it was before the call.
pub proof fn lemma_prepend_preserves_original<T>(l: ImmutableList<T>, v: T, m: ImmutableList<T>)
    requires
        m@ == seq![v] + l@,
    ensures
        m@.skip(1) == l@,
        forall|i: int| 0 <= i < l@.len() ==> m@[i + 1] == l@[i],
{
    assert(m@.skip(1) =~= l@);
}

/// Head element after prepend: a new list built by `prepend` holds the
/// prepended value at position 0, so `index(0)` on it returns exactly that
/// value.
pub proof fn lemma_head_after_prepend<T>(l: ImmutableList<T>, v: T, m: ImmutableList<T>)
    requires
        m@ == seq![v] + l@,
    ensures
        m@.len() > 0,
        m@[0] == v,
{
}

/// Index/iterator agreement: a cursor that has yielded `i` elements of `l`
/// has `l@.skip(i)` left, so the value it yields next is `l@.skip(i)[0]` —
/// and that is `l@[i]`, the value `index(i)` returns.
pub proof fn lemma_index_iter_agree<T>(l: ImmutableList<T>, i: int)
    requires
        0 <= i < l@.len(),
    ensures
        l@.skip(i).len() > 0,
        l@.skip(i)[0] == l@[i],
{
}

/// Structural equality: two lists that hold the same sequence of elements
/// are equal under `eq_spec`, however each of them was built and whether or
/// not they share any node — provided the elements' own equality relates
/// every value to itself, as any well-behaved `PartialEq` does.
pub proof fn lemma_structural_equality<T: PartialEq>(l1: ImmutableList<T>, l2: ImmutableList<T>)
    requires
        l1@ == l2@,
        forall|x: T| #[trigger] x.eq_spec(&x),
    ensures
        PartialEqSpec::eq_spec(&l1, &l2),
{
    assert forall|j: int| 0 <= j < l1@.len() implies l1@[j].eq_spec(&l2@[j]) by {
        assert(l1@[j] == l2@[j]);
        assert(l1@[j].eq_spec(&l1@[j]));
    }
}

} // verus!
