//! The nodes of a radix tree, and the slabs that they are kept in.

use vstd::prelude::*;

verus! {

/// A place for a value in a slab.
#[derive(Debug)]
pub struct Slot<T> {
    pub value: Option<T>,
    pub occupied: bool,
    pub next_free: Option<SlotPtr>,
}

/// Where in a slab a slot is.
#[derive(Debug, Clone, Copy, PartialEq, Eq, Structural)]
pub struct SlotPtr {
    pub chunk: usize,
    pub slot: usize,
}

impl<T> Slot<T> {
    /// A slot that holds nothing.
    pub fn new() -> (slot: Self)
        ensures
            slot.vacant(),
    {
        Slot { value: None, occupied: false, next_free: None }
    }

    /// The slot holds nothing.
    pub open spec fn vacant(&self) -> bool {
        self.value is None && !self.occupied && self.next_free is None
    }
}

/// Slots, which are made `CHUNK_SIZE` at a time.
#[derive(Debug)]
pub struct ChunkSlab<T, const CHUNK_SIZE: usize> {
    pub chunks: Vec<Vec<Slot<T>>>,
    /// The slots that hold nothing.
    pub free: Vec<SlotPtr>,
}

impl<T, const CHUNK_SIZE: usize> ChunkSlab<T, CHUNK_SIZE> {
    /// The free slots are there, and hold nothing.
    pub open spec fn wf(&self) -> bool {
        &&& forall|c: int|
            0 <= c < self.chunks@.len() ==> (#[trigger] self.chunks@[c])@.len() == CHUNK_SIZE
        &&& forall|i: int|
            0 <= i < self.free@.len() ==> {
                let at = #[trigger] self.free@[i];
                &&& at.chunk < self.chunks@.len()
                &&& at.slot < CHUNK_SIZE
                &&& self.chunks@[at.chunk as int]@[at.slot as int].vacant()
            }
    }

    /// A slab without slots: the first are made when they are needed.
    pub fn new() -> (slab: Self)
        ensures
            slab.wf(),
            slab.chunks@.len() == 0,
            slab.free@.len() == 0,
    {
        ChunkSlab { chunks: Vec::new(), free: Vec::new() }
    }

    /// Makes `CHUNK_SIZE` more slots, all of them free.
    pub fn allocate_chunk(&mut self)
        requires
            old(self).wf(),
        ensures
            final(self).wf(),
            final(self).chunks@.len() == old(self).chunks@.len() + 1,
            final(self).chunks@.drop_last() == old(self).chunks@,
            final(self).free@ == old(self).free@ + Seq::new(
                CHUNK_SIZE as nat,
                |i: int| SlotPtr { chunk: old(self).chunks@.len() as usize, slot: i as usize },
            ),
    {
        let ghost before = self.free@;
        let chunk_index = self.chunks.len();
        let mut chunk: Vec<Slot<T>> = Vec::new();
        let mut i: usize = 0;
        while i < CHUNK_SIZE
            invariant
                i <= CHUNK_SIZE,
                chunk@.len() == i,
                forall|j: int| 0 <= j < i ==> (#[trigger] chunk@[j]).vacant(),
                self.chunks == old(self).chunks,
                chunk_index == self.chunks@.len(),
                self.free@ == before + Seq::new(
                    i as nat,
                    |j: int| SlotPtr { chunk: chunk_index, slot: j as usize },
                ),
            decreases CHUNK_SIZE - i,
        {
            chunk.push(Slot::new());
            self.free.push(SlotPtr { chunk: chunk_index, slot: i });
            i = i + 1;
            proof {
                assert(self.free@ =~= before + Seq::new(
                    i as nat,
                    |j: int| SlotPtr { chunk: chunk_index, slot: j as usize },
                ));
            }
        }
        self.chunks.push(chunk);
        proof {
            assert(self.chunks@.drop_last() =~= old(self).chunks@);
            assert forall|k: int| 0 <= k < self.free@.len() implies {
                let at = #[trigger] self.free@[k];
                &&& at.chunk < self.chunks@.len()
                &&& at.slot < CHUNK_SIZE
                &&& self.chunks@[at.chunk as int]@[at.slot as int].vacant()
            } by {
                if k < before.len() {
                    assert(self.free@[k] == before[k]);
                }
            }
        }
    }
}

/// Names a node.
#[derive(Debug, Clone, Copy, PartialEq, Eq, Structural)]
pub struct NodePtr {
    pub ptr: usize,
}

/// Names a leaf.
#[derive(Debug, Clone, Copy, PartialEq, Eq, Structural)]
pub struct LeafPtr(pub NodePtr);

/// What every inner node has.
#[derive(Debug)]
pub struct NodeHeader {
    pub label: Vec<u8>,
    pub children: u16,
    pub terminal: Option<LeafPtr>,
}

/// Children that are found by a search through their edges.
#[derive(Debug)]
pub struct LinearChild<const INDEXES: usize> {
    pub edges: [u8; INDEXES],
    pub children: [Option<NodePtr>; INDEXES],
}

impl<const INDEXES: usize> LinearChild<INDEXES> {
    /// No children.
    pub fn new() -> (child: Self)
        ensures
            forall|i: int| 0 <= i < INDEXES ==> #[trigger] child.edges@[i] == 0,
            forall|i: int| 0 <= i < INDEXES ==> (#[trigger] child.children@[i]) is None,
    {
        LinearChild { edges: [0u8; INDEXES], children: [None; INDEXES] }
    }
}

/// Children that are found through a table of edges.
#[derive(Debug)]
pub struct IndexedChild<const INDEXES: usize, const CHILDREN: usize> {
    pub edges: [u8; INDEXES],
    pub children: [Option<NodePtr>; CHILDREN],
}

impl<const INDEXES: usize, const CHILDREN: usize> IndexedChild<INDEXES, CHILDREN> {
    /// No children.
    pub fn new() -> (child: Self)
        ensures
            forall|i: int| 0 <= i < INDEXES ==> #[trigger] child.edges@[i] == 0,
            forall|i: int| 0 <= i < CHILDREN ==> (#[trigger] child.children@[i]) is None,
    {
        IndexedChild { edges: [0u8; INDEXES], children: [None; CHILDREN] }
    }
}

/// Children that are found by their edge itself.
#[derive(Debug)]
pub struct DirectChild<const CHILD_LEN: usize> {
    pub children: [Option<NodePtr>; CHILD_LEN],
}

impl<const CHILD_LEN: usize> DirectChild<CHILD_LEN> {
    /// No children.
    pub fn new() -> (child: Self)
        ensures
            forall|i: int| 0 <= i < CHILD_LEN ==> (#[trigger] child.children@[i]) is None,
    {
        DirectChild { children: [None; CHILD_LEN] }
    }
}

/// A leaf.
#[derive(Debug)]
pub struct Leaf<T> {
    pub key: Vec<u8>,
    pub value: T,
}

/// An inner node.
#[derive(Debug)]
pub struct Node<C> {
    pub header: NodeHeader,
    pub children: C,
}

impl<C> Node<C> {
    /// A node without a label, with these children.
    pub fn new(children: C) -> (node: Self)
        ensures
            node.header.label@.len() == 0,
            node.header.children == 0,
            node.header.terminal is None,
            node.children == children,
    {
        Node { header: NodeHeader { label: Vec::new(), children: 0, terminal: None }, children }
    }
}

pub type Node4 = Node<LinearChild<4>>;

impl Default for Node4 {
    fn default() -> (node: Self)
        ensures
            node.header.label@.len() == 0,
            node.header.children == 0,
            node.header.terminal is None,
            forall|i: int| 0 <= i < 4 ==> #[trigger] node.children.edges@[i] == 0,
            forall|i: int| 0 <= i < 4 ==> (#[trigger] node.children.children@[i]) is None,
    {
        Node::new(LinearChild::new())
    }
}

pub type Node16 = Node<LinearChild<16>>;

impl Default for Node16 {
    fn default() -> (node: Self)
        ensures
            node.header.label@.len() == 0,
            node.header.children == 0,
            node.header.terminal is None,
            forall|i: int| 0 <= i < 16 ==> #[trigger] node.children.edges@[i] == 0,
            forall|i: int| 0 <= i < 16 ==> (#[trigger] node.children.children@[i]) is None,
    {
        Node::new(LinearChild::new())
    }
}

pub type Node48 = Node<IndexedChild<48, 256>>;

impl Default for Node48 {
    fn default() -> (node: Self)
        ensures
            node.header.label@.len() == 0,
            node.header.children == 0,
            node.header.terminal is None,
            forall|i: int| 0 <= i < 48 ==> #[trigger] node.children.edges@[i] == 0,
            forall|i: int| 0 <= i < 256 ==> (#[trigger] node.children.children@[i]) is None,
    {
        Node::new(IndexedChild::new())
    }
}

pub type Node256 = Node<DirectChild<256>>;

impl Default for Node256 {
    fn default() -> (node: Self)
        ensures
            node.header.label@.len() == 0,
            node.header.children == 0,
            node.header.terminal is None,
            forall|i: int| 0 <= i < 256 ==> (#[trigger] node.children.children@[i]) is None,
    {
        Node::new(DirectChild::new())
    }
}

/// What a node is.
#[derive(Debug, Clone, Copy, PartialEq, Eq, Structural)]
pub enum NodeKind {
    Node4,
    Node16,
    Node48,
    Node256,
    Leaf,
}

/// The slabs of a tree, one for each kind of node.
#[derive(Debug)]
pub struct NodeStore<T> {
    pub node4: ChunkSlab<Node4, 12>,
    pub node16: ChunkSlab<Node16, 12>,
    pub node48: ChunkSlab<Node48, 8>,
    pub node256: ChunkSlab<Node256, 2>,
    pub leaf: ChunkSlab<Leaf<T>, 16>,
}

impl<T> NodeStore<T> {
    /// Slabs without slots.
    pub fn new() -> (store: Self)
        ensures
            store.node4.wf() && store.node4.chunks@.len() == 0 && store.node4.free@.len() == 0,
            store.node16.wf() && store.node16.chunks@.len() == 0 && store.node16.free@.len() == 0,
            store.node48.wf() && store.node48.chunks@.len() == 0 && store.node48.free@.len() == 0,
            store.node256.wf() && store.node256.chunks@.len() == 0 && store.node256.free@.len() == 0,
            store.leaf.wf() && store.leaf.chunks@.len() == 0 && store.leaf.free@.len() == 0,
    {
        NodeStore {
            node4: ChunkSlab::new(),
            node16: ChunkSlab::new(),
            node48: ChunkSlab::new(),
            node256: ChunkSlab::new(),
            leaf: ChunkSlab::new(),
        }
    }
}

} // verus!
