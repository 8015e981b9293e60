//! A singly linked list: a chain of nodes, each owning a value and its
//! successor, with insertion at both ends, removal at both ends, and a
//! first-match lookup.

use vstd::prelude::*;
use vstd::std_specs::cmp::PartialEqSpec;

verus! {

/// One element of the chain: a value, and the exclusively owned successor
/// node (`None` marks the last node of the chain).
pub struct SinglyLinkedListNode<T: Copy> {
    pub value: T,
    pub next: Option<Box<SinglyLinkedListNode<T>>>,
}

impl<T: Copy> SinglyLinkedListNode<T> {
    /// The values held by the chain that starts at `n`, head to tail.
    pub open spec fn chain_view(n: Option<Box<SinglyLinkedListNode<T>>>) -> Seq<T>
        decreases n,
    {
        match n {
            None => Seq::empty(),
            Some(node) => seq![node.value] + Self::chain_view(node.next),
        }
    }

    /// The nodes of the chain that starts at `n`, head to tail.
    pub open spec fn chain_nodes(n: Option<Box<SinglyLinkedListNode<T>>>) -> Seq<
        SinglyLinkedListNode<T>,
    >
        decreases n,
    {
        match n {
            None => Seq::empty(),
            Some(node) => seq![*node] + Self::chain_nodes(node.next),
        }
    }

    /// The chain that starts at `n` is well formed: each node's `next` owns
    /// the node that follows it, and the last node — the tail — has no
    /// successor.
    pub open spec fn chain_well_formed(n: Option<Box<SinglyLinkedListNode<T>>>) -> bool {
        let ns = Self::chain_nodes(n);
        &&& (forall|i: int|
            0 <= i < ns.len() - 1 ==> ((#[trigger] ns[i]).next matches Some(b) && *b == ns[i + 1]))
        &&& (ns.len() > 0 ==> ns.last().next is None)
    }

    /// Law: every chain is well formed, and its nodes hold exactly the
    /// chain's values in order. Single ownership of each node by its
    /// predecessor makes this hold of every reachable chain, so it holds
    /// after any interleaving of insertions and deletions.
    pub proof fn lemma_chain_well_formed(n: Option<Box<SinglyLinkedListNode<T>>>)
        ensures
            Self::chain_well_formed(n),
            Self::chain_nodes(n).len() == Self::chain_view(n).len(),
            forall|i: int|
                0 <= i < Self::chain_nodes(n).len() ==> (#[trigger] Self::chain_nodes(n)[i]).value
                    == Self::chain_view(n)[i],
        decreases n,
    {
        match n {
            None => {},
            Some(node) => {
                Self::lemma_chain_well_formed(node.next);
                assert(Self::chain_nodes(n) =~= seq![*node] + Self::chain_nodes(node.next));
                assert(Self::chain_view(n) =~= seq![node.value] + Self::chain_view(node.next));
                let ns = Self::chain_nodes(n);
                let rest = Self::chain_nodes(node.next);
                assert forall|i: int| 0 <= i < ns.len() - 1 implies ((#[trigger] ns[i]).next
                    matches Some(b) && *b == ns[i + 1]) by {
                    if i == 0 {
                        assert(rest.len() > 0);
                        if node.next is Some {
                            assert(rest[0] == *node.next.unwrap());
                        }
                    } else {
                        assert(ns[i] == rest[i - 1]);
                        assert(ns[i + 1] == rest[i]);
                    }
                }
            },
        }
    }

    /// A fresh node holding `value`, not yet linked to any successor.
    pub fn new(value: T) -> (r: Self)
        ensures
            r.value == value,
            r.next is None,
            r@ == seq![value],
    {
        Self { value, next: None }
    }
}

impl<T: Copy> View for SinglyLinkedListNode<T> {
    type V = Seq<T>;

    /// The values of the chain that starts at this node, head to tail.
    open spec fn view(&self) -> Seq<T> {
        seq![self.value] + SinglyLinkedListNode::chain_view(self.next)
    }
}

/// A singly linked sequence container. `head` owns the first node of the
/// chain; the last node of the chain is the tail, and its `next` is `None`.
pub struct SinglyLinkedList<T: Copy + PartialEq> {
    pub head: Option<Box<SinglyLinkedListNode<T>>>,
}

impl<T: Copy + PartialEq> View for SinglyLinkedList<T> {
    type V = Seq<T>;

    /// The values of the list, head to tail.
    open spec fn view(&self) -> Seq<T> {
        SinglyLinkedListNode::chain_view(self.head)
    }
}

impl<T: Copy + PartialEq> SinglyLinkedList<T> {
    /// An empty list.
    pub fn new() -> (r: Self)
        ensures
            r@ == Seq::<T>::empty(),
    {
        Self { head: None }
    }

    /// Inserts `val` at the front of the list. Always succeeds.
    pub fn prepend(&mut self, val: T) -> (r: bool)
        ensures
            r == true,
            final(self)@ == seq![val] + old(self)@,
    {
        let node = SinglyLinkedListNode { value: val, next: self.head.take() };
        self.head = Some(Box::new(node));
        true
    }

    /// Removes the first value of the list and returns it, or returns `None`
    /// and leaves the list empty when there is nothing to remove.
    pub fn delete_head(&mut self) -> (r: Option<T>)
        ensures
            old(self)@.len() == 0 ==> r is None && final(self)@ == old(self)@,
            old(self)@.len() > 0 ==> r == Some(old(self)@[0]) && final(self)@ == old(self)@.drop_first(),
    {
        match self.head.take() {
            None => None,
            Some(node) => {
                let node = *node;
                self.head = node.next;
                proof {
                    assert(self@ =~= old(self)@.drop_first());
                }
                Some(node.value)
            },
        }
    }

    /// Inserts `val` at the back of the list. Always succeeds.
    pub fn append(&mut self, val: T) -> (r: bool)
        ensures
            r == true,
            final(self)@ == old(self)@ + seq![val],
    {
        match self.head.take() {
            None => {
                self.head = Some(Box::new(SinglyLinkedListNode::new(val)));
                proof {
                    assert(self@ =~= old(self)@ + seq![val]);
                }
            },
            Some(node) => {
                self.head = Some(Self::chain_append(node, val));
                proof {
                    assert(self@ =~= old(self)@ + seq![val]);
                }
            },
        }
        true
    }

    /// Walks to the end of the chain that starts at `node` and links a new
    /// node holding `val` after its last node.
    fn chain_append(node: Box<SinglyLinkedListNode<T>>, val: T) -> (r: Box<
        SinglyLinkedListNode<T>,
    >)
        ensures
            r@ == node@ + seq![val],
        decreases node,
    {
        let ghost entry = *node;
        let mut node = node;
        match node.next.take() {
            None => {
                node.next = Some(Box::new(SinglyLinkedListNode::new(val)));
                proof {
                    assert(node@ =~= entry@ + seq![val]);
                }
                node
            },
            Some(rest) => {
                node.next = Some(Self::chain_append(rest, val));
                proof {
                    assert(node@ =~= entry@ + seq![val]);
                }
                node
            },
        }
    }

    /// Removes the last value of the list and returns it, or returns `None`
    /// and leaves the list empty when there is nothing to remove.
    pub fn delete_tail(&mut self) -> (r: Option<T>)
        ensures
            old(self)@.len() == 0 ==> r is None && final(self)@ == old(self)@,
            old(self)@.len() > 0 ==> r == Some(old(self)@.last()) && final(self)@ == old(
                self,
            )@.drop_last(),
    {
        match self.head.take() {
            None => None,
            Some(node) => {
                let (rest, last) = Self::chain_pop_last(node);
                self.head = rest;
                proof {
                    assert(self@ =~= old(self)@.drop_last());
                }
                Some(last)
            },
        }
    }

    /// Unlinks the last node of the chain that starts at `node` and returns
    /// the shortened chain together with the unlinked node's value.
    fn chain_pop_last(node: Box<SinglyLinkedListNode<T>>) -> (r: (
        Option<Box<SinglyLinkedListNode<T>>>,
        T,
    ))
        ensures
            SinglyLinkedListNode::chain_view(r.0) == node@.drop_last(),
            r.1 == node@.last(),
        decreases node,
    {
        let node = *node;
        match node.next {
            None => (None, node.value),
            Some(rest) => {
                let ghost rest_entry = rest;
                let (shorter, last) = Self::chain_pop_last(rest);
                proof {
                    assert(seq![node.value] + rest_entry@.drop_last() =~= (seq![node.value]
                        + rest_entry@).drop_last());
                }
                (
                    Some(
                        Box::new(
                            SinglyLinkedListNode { value: node.value, next: shorter },
                        ),
                    ),
                    last,
                )
            },
        }
    }

    /// The value held by the tail, the last node of the chain, or `None`
    /// when the list is empty.
    pub fn tail(&self) -> (r: Option<T>)
        ensures
            self@.len() == 0 ==> r is None,
            self@.len() > 0 ==> r == Some(self@.last()),
    {
        match &self.head {
            None => None,
            Some(node) => Some(Self::chain_last(node)),
        }
    }

    /// The value of the last node of the chain that starts at `node`.
    fn chain_last(node: &Box<SinglyLinkedListNode<T>>) -> (r: T)
        ensures
            r == node@.last(),
        decreases node,
    {
        match &node.next {
            None => node.value,
            Some(rest) => Self::chain_last(rest),
        }
    }

    /// The first element of `s`, head to tail, that `T`'s equality accepts
    /// as equal to `val`, or `None` when there is no such element.
    pub open spec fn seq_find(s: Seq<T>, val: T) -> Option<T>
        decreases s.len(),
    {
        if s.len() == 0 {
            None
        } else if s[0].eq_spec(&val) {
            Some(s[0])
        } else {
            Self::seq_find(s.drop_first(), val)
        }
    }

    /// Scans the list head to tail and returns the first value equal to
    /// `val`, or `None` when no value matches or the list is empty.
    ///
    /// The result is pinned down whenever `T`'s equality is known to agree
    /// with its specification (`obeys_eq_spec`); what `==` answers for other
    /// value types is up to their own `PartialEq` implementation.
    pub fn find(&self, val: T) -> (r: Option<T>)
        ensures
            T::obeys_eq_spec() ==> r == Self::seq_find(self@, val),
    {
        Self::chain_find(&self.head, val)
    }

    /// Scans the chain that starts at `n` and returns its first value equal
    /// to `val`, or `None`.
    fn chain_find(n: &Option<Box<SinglyLinkedListNode<T>>>, val: T) -> (r: Option<T>)
        ensures
            T::obeys_eq_spec() ==> r == Self::seq_find(
                SinglyLinkedListNode::chain_view(*n),
                val,
            ),
        decreases n,
    {
        match n {
            None => None,
            Some(node) => {
                let found = node.value == val;
                if found {
                    proof {
                        assert(SinglyLinkedListNode::chain_view(*n)[0] == node.value);
                    }
                    Some(node.value)
                } else {
                    let r = Self::chain_find(&node.next, val);
                    proof {
                        assert(SinglyLinkedListNode::chain_view(*n).drop_first()
                            =~= SinglyLinkedListNode::chain_view(node.next));
                    }
                    r
                }
            },
        }
    }

    /// Law: whenever the list is non-empty, the tail is reachable from
    /// `head` by following `next` — each node's `next` owns the node after
    /// it — and the tail's `next` is `None`. This holds of every list value,
    /// so it holds after any interleaving of `append`, `prepend`,
    /// `delete_head` and `delete_tail`.
    pub proof fn lemma_well_formed(l: SinglyLinkedList<T>)
        ensures
            SinglyLinkedListNode::chain_well_formed(l.head),
            SinglyLinkedListNode::chain_nodes(l.head).len() == l@.len(),
            forall|i: int|
                0 <= i < l@.len() ==> (#[trigger] SinglyLinkedListNode::chain_nodes(
                    l.head,
                )[i]).value == l@[i],
            l@.len() > 0 ==> SinglyLinkedListNode::chain_nodes(l.head).last().next is None,
    {
        SinglyLinkedListNode::lemma_chain_well_formed(l.head);
    }

    /// The contents of a list after the values of `vs`, first to last, are
    /// appended to an initially empty list: what `append`'s contract gives
    /// after each call in turn.
    pub open spec fn view_after_appends(vs: Seq<T>) -> Seq<T>
        decreases vs.len(),
    {
        if vs.len() == 0 {
            Seq::empty()
        } else {
            Self::view_after_appends(vs.drop_last()) + seq![vs.last()]
        }
    }

    /// The contents of a list after the values of `vs`, first to last, are
    /// prepended to an initially empty list: what `prepend`'s contract gives
    /// after each call in turn.
    pub open spec fn view_after_prepends(vs: Seq<T>) -> Seq<T>
        decreases vs.len(),
    {
        if vs.len() == 0 {
            Seq::empty()
        } else {
            seq![vs.last()] + Self::view_after_prepends(vs.drop_last())
        }
    }

    /// The values returned by calling `delete_tail` on a list whose contents
    /// are `s` until the list is empty: by `delete_tail`'s contract, each
    /// call returns the last value and leaves the rest.
    pub open spec fn tail_drain(s: Seq<T>) -> Seq<T>
        decreases s.len(),
    {
        if s.len() == 0 {
            Seq::empty()
        } else {
            seq![s.last()] + Self::tail_drain(s.drop_last())
        }
    }

    /// The values returned by calling `delete_head` on a list whose contents
    /// are `s` until the list is empty: by `delete_head`'s contract, each
    /// call returns the first value and leaves the rest.
    pub open spec fn head_drain(s: Seq<T>) -> Seq<T>
        decreases s.len(),
    {
        if s.len() == 0 {
            Seq::empty()
        } else {
            seq![s[0]] + Self::head_drain(s.drop_first())
        }
    }

    /// Law: appending values v1..vn to an empty list leaves contents
    /// v1..vn, and deleting the tail n times then returns vn, ..., v1 —
    /// newest first — one value per deletion, so the list ends empty.
    pub proof fn lemma_append_then_delete_tail(vs: Seq<T>)
        ensures
            Self::view_after_appends(vs) == vs,
            Self::tail_drain(vs) == vs.reverse(),
            Self::tail_drain(vs).len() == vs.len(),
        decreases vs.len(),
    {
        if vs.len() == 0 {
            assert(Self::view_after_appends(vs) =~= vs);
            assert(Self::tail_drain(vs) =~= vs.reverse());
        } else {
            Self::lemma_append_then_delete_tail(vs.drop_last());
            assert(Self::view_after_appends(vs) =~= vs);
            assert(Self::tail_drain(vs) =~= vs.reverse());
        }
    }

    /// Law: prepending values v1..vn to an empty list leaves contents
    /// vn..v1, and deleting the head n times then returns vn, ..., v1 —
    /// newest first — one value per deletion, so the list ends empty.
    pub proof fn lemma_prepend_then_delete_head(vs: Seq<T>)
        ensures
            Self::view_after_prepends(vs) == vs.reverse(),
            Self::head_drain(vs.reverse()) == vs.reverse(),
            Self::head_drain(vs.reverse()).len() == vs.len(),
        decreases vs.len(),
    {
        Self::lemma_view_after_prepends_reverses(vs);
        Self::lemma_head_drain_identity(vs.reverse());
    }

    /// Prepending the values of `vs` in order builds their reverse.
    pub proof fn lemma_view_after_prepends_reverses(vs: Seq<T>)
        ensures
            Self::view_after_prepends(vs) == vs.reverse(),
        decreases vs.len(),
    {
        if vs.len() == 0 {
            assert(Self::view_after_prepends(vs) =~= vs.reverse());
        } else {
            Self::lemma_view_after_prepends_reverses(vs.drop_last());
            assert(Self::view_after_prepends(vs) =~= vs.reverse());
        }
    }

    /// Draining a list from the head returns its contents in order.
    pub proof fn lemma_head_drain_identity(s: Seq<T>)
        ensures
            Self::head_drain(s) == s,
        decreases s.len(),
    {
        if s.len() == 0 {
            assert(Self::head_drain(s) =~= s);
        } else {
            Self::lemma_head_drain_identity(s.drop_first());
            assert(Self::head_drain(s) =~= s);
        }
    }

    /// Law: a lookup among duplicates returns the first match. When `s[i]`
    /// equals `val` and no element before position `i` does, the lookup
    /// returns exactly the element at `i`.
    pub proof fn lemma_find_first_occurrence(s: Seq<T>, val: T, i: int)
        requires
            0 <= i < s.len(),
            s[i].eq_spec(&val),
            forall|j: int| 0 <= j < i ==> !(#[trigger] s[j]).eq_spec(&val),
        ensures
            Self::seq_find(s, val) == Some(s[i]),
        decreases s.len(),
    {
        if i > 0 {
            assert forall|j: int| 0 <= j < i - 1 implies !(#[trigger] s.drop_first()[j]).eq_spec(
                &val,
            ) by {
                assert(s.drop_first()[j] == s[j + 1]);
            }
            Self::lemma_find_first_occurrence(s.drop_first(), val, i - 1);
        }
    }

    /// Law: a lookup for a value that no element equals returns `None`.
    pub proof fn lemma_find_absent(s: Seq<T>, val: T)
        requires
            forall|j: int| 0 <= j < s.len() ==> !(#[trigger] s[j]).eq_spec(&val),
        ensures
            Self::seq_find(s, val) is None,
        decreases s.len(),
    {
        if s.len() > 0 {
            assert forall|j: int|
                0 <= j < s.drop_first().len() implies !(#[trigger] s.drop_first()[j]).eq_spec(
                &val,
            ) by {
                assert(s.drop_first()[j] == s[j + 1]);
            }
            Self::lemma_find_absent(s.drop_first(), val);
        }
    }
}

} // verus!
