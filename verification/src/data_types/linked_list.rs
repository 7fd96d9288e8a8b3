use vstd::prelude::*;

verus! {

/// A stack of free memory blocks, each identified by its address.
///
/// The most recently pushed block is the head of the list. The view lists the
/// blocks from the oldest (index 0) to the head (last index).
pub struct LinkedList {
    nodes: Vec<usize>,
}

/// A handle on one node of a list, obtained while walking the list with
/// [`LinkedList::iter_mut`]; it remembers where the node stands in the list.
pub struct ListNode {
    index: usize,
    value: usize,
}

/// A walk over the blocks of a list, from the head to the oldest block.
pub struct Iter {
    nodes: Vec<usize>,
    remaining: usize,
}

/// A walk over the nodes of a list, from the head to the oldest node, that
/// hands out [`ListNode`]s through which a node can be unlinked.
pub struct IterMut {
    nodes: Vec<usize>,
    remaining: usize,
}

impl View for LinkedList {
    type V = Seq<usize>;

    closed spec fn view(&self) -> Seq<usize> {
        self.nodes@
    }
}

/// Popping right after pushing `node` onto a list whose contents are `s`
/// gives `node` back and leaves the list as it was.
pub proof fn lemma_push_pop(s: Seq<usize>, node: usize)
    ensures
        s.push(node).len() > 0,
        s.push(node).last() == node,
        s.push(node).drop_last() == s,
{
    assert(s.push(node).drop_last() =~= s);
}

impl LinkedList {
    /// An empty list.
    pub fn new() -> (list: Self)
        ensures
            list@ == Seq::<usize>::empty(),
    {
        LinkedList { nodes: Vec::new() }
    }

    /// Makes `node` the new head of the list.
    pub fn push(&mut self, node: usize)
        ensures
            final(self)@ == old(self)@.push(node),
    {
        self.nodes.push(node);
    }

    /// Unlinks the head of the list and returns it, or `None` when the list is empty.
    pub fn pop(&mut self) -> (item: Option<usize>)
        ensures
            old(self)@.len() == 0 ==> item is None && final(self)@ == old(self)@,
            old(self)@.len() > 0 ==> item == Some(old(self)@.last())
                && final(self)@ == old(self)@.drop_last(),
    {
        if self.is_empty() {
            None
        } else {
            self.nodes.pop()
        }
    }

    /// Whether the list holds no block.
    pub fn is_empty(&self) -> (empty: bool)
        ensures
            empty == (self@.len() == 0),
    {
        self.nodes.len() == 0
    }

    /// A walk over the blocks, from the head to the oldest block.
    pub fn iter(&self) -> (it: Iter)
        ensures
            it.wf(),
            it.remaining() == self@,
    {
        Iter { nodes: self.nodes.clone(), remaining: self.nodes.len() }
    }

    /// A walk over the nodes, from the head to the oldest node, that allows
    /// unlinking the node it stands on.
    pub fn iter_mut(&mut self) -> (it: IterMut)
        ensures
            it.wf(),
            it.remaining() == old(self)@,
            final(self)@ == old(self)@,
    {
        IterMut { nodes: self.nodes.clone(), remaining: self.nodes.len() }
    }
}

impl Iter {
    /// The blocks not handed out yet; the next one is the last of them.
    pub closed spec fn remaining(&self) -> Seq<usize> {
        self.nodes@.subrange(0, self.remaining as int)
    }

    /// The walk stands within the blocks it was made from.
    pub closed spec fn wf(&self) -> bool {
        self.remaining <= self.nodes@.len()
    }

    /// The next block, or `None` once every block was handed out.
    pub fn next(&mut self) -> (item: Option<usize>)
        requires
            old(self).wf(),
        ensures
            old(self).remaining().len() == 0 ==> item is None && final(self).remaining()
                == old(self).remaining(),
            old(self).remaining().len() > 0 ==> item == Some(old(self).remaining().last())
                && final(self).remaining() == old(self).remaining().drop_last(),
            final(self).wf(),
    {
        if self.remaining == 0 {
            None
        } else {
            self.remaining = self.remaining - 1;
            Some(self.nodes[self.remaining])
        }
    }
}

impl IterMut {
    /// The nodes not handed out yet; the next one is the last of them.
    pub closed spec fn remaining(&self) -> Seq<usize> {
        self.nodes@.subrange(0, self.remaining as int)
    }

    /// The position of every node not handed out yet is unchanged.
    pub closed spec fn wf(&self) -> bool {
        self.remaining <= self.nodes@.len()
    }

    /// The next node, or `None` once every node was handed out.
    pub fn next(&mut self) -> (node: Option<ListNode>)
        requires
            old(self).wf(),
        ensures
            final(self).wf(),
            old(self).remaining().len() == 0 ==> node is None && final(self).remaining()
                == old(self).remaining(),
            old(self).remaining().len() > 0 ==> (node matches Some(n) && n.spec_value()
                == old(self).remaining().last() && n.position() == old(self).remaining().len() - 1
                && final(self).remaining() == old(self).remaining().drop_last()),
    {
        if self.remaining == 0 {
            None
        } else {
            self.remaining = self.remaining - 1;
            Some(ListNode { index: self.remaining, value: self.nodes[self.remaining] })
        }
    }
}

impl ListNode {
    /// The block this node stands for.
    pub closed spec fn spec_value(&self) -> usize {
        self.value
    }

    /// Where the node stands in the list (0 is the oldest block).
    pub closed spec fn position(&self) -> int {
        self.index as int
    }

    /// The block this node stands for.
    pub fn value(&self) -> (v: usize)
        ensures
            v == self.spec_value(),
    {
        self.value
    }

    /// Unlinks this node from `list` and returns its block.
    pub fn pop(self, list: &mut LinkedList) -> (v: usize)
        requires
            0 <= self.position() < old(list)@.len(),
            old(list)@[self.position()] == self.spec_value(),
        ensures
            v == self.spec_value(),
            final(list)@ == old(list)@.remove(self.position()),
    {
        list.nodes.remove(self.index);
        self.value
    }
}

} // verus!
