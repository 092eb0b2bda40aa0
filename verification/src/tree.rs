//! The tree gives access to all the nodes and attributes created by the
//! analysis units: an append-only arena of nodes with parent/child links,
//! addressed by stable ids or by slash-delimited name paths from the root.
//!
//! The arena only ever grows. A slot's index is its identity: ids are handed
//! out at insertion and never reused, and removal marks a whole subtree as
//! removed and detaches it, leaving every slot in place. Parent links always
//! point to older slots, so no cycle can ever form.

use vstd::prelude::*;
use crate::error::RustructError;
use crate::node::Node;
use crate::text::{
    lemma_lex_le_total,
    lemma_lex_le_trans,
    lower_lex_le,
    seq_views,
    spec_lex_le,
    spec_lower,
    spec_split_char,
    split_on_char,
    str_eq,
};

verus! {

/// The stable identifier of a node within one tree instance. Ids are assigned
/// at insertion and never reused; a removed node keeps its slot.
#[derive(Debug, Clone, Copy, PartialEq, Eq, Structural, Hash)]
pub struct TreeNodeId {
    /// Index of the node's slot in the arena.
    pub index: usize,
}

#[derive(Debug)]
struct Slot {
    node: Node,
    parent: Option<usize>,
    children: Vec<usize>,
    removed: bool,
}

/// The arena of nodes. One slot per node ever inserted; the root sits in the
/// first slot and is named `root`.
#[derive(Debug)]
pub struct Tree {
    slots: Vec<Slot>,
    /// The id of the root node.
    pub root_id: TreeNodeId,
}

impl Tree {
    /// The number of slots ever created, removed ones included.
    pub closed spec fn spec_len(&self) -> int {
        self.slots@.len() as int
    }

    /// The node held in slot `i`.
    pub closed spec fn spec_node(&self, i: int) -> Node {
        self.slots@[i].node
    }

    /// The name of the node in slot `i`.
    pub open spec fn spec_node_name(&self, i: int) -> Seq<char> {
        self.spec_node(i).spec_name()
    }

    /// The attribute store of the node in slot `i`.
    pub open spec fn spec_store_of(&self, i: int) -> Seq<crate::attribute::Attribute> {
        self.spec_node(i).spec_store()
    }

    /// The parent link of slot `i`.
    pub closed spec fn spec_parent_of(&self, i: int) -> Option<int> {
        match self.slots@[i].parent {
            Some(p) => Some(p as int),
            None => None,
        }
    }

    /// The child list of slot `i`, in insertion order.
    pub closed spec fn spec_children_of(&self, i: int) -> Seq<int> {
        self.slots@[i].children@.map_values(|c: usize| c as int)
    }

    /// Whether slot `i` is marked removed.
    pub closed spec fn spec_removed(&self, i: int) -> bool {
        self.slots@[i].removed
    }

    /// The id of the root node, as stored in the `root_id` field.
    pub closed spec fn spec_root_id(&self) -> TreeNodeId {
        self.root_id
    }

    /// Structural soundness of the arena: the root sits in slot zero with no
    /// parent, parent links point to strictly older slots, child lists and
    /// parent links mirror each other, child lists hold no duplicates, the
    /// children of one node carry pairwise distinct names, and a removed
    /// node's parent, if any, is removed as well.
    pub open spec fn wf(&self) -> bool {
        &&& self.spec_root_id().index == 0
        &&& self.spec_len() >= 1
        &&& self.spec_parent_of(0) is None
        &&& forall|i: int|
            0 <= i < self.spec_len() ==> match #[trigger] self.spec_parent_of(i) {
                Some(p) => 0 <= p < i,
                None => true,
            }
        &&& forall|i: int, k: int|
            0 <= i < self.spec_len() && 0 <= k < self.spec_children_of(i).len() ==> {
                let c = #[trigger] self.spec_children_of(i)[k];
                &&& i < c < self.spec_len()
                &&& self.spec_parent_of(c) == Some(i)
            }
        &&& forall|i: int, k1: int, k2: int|
            0 <= i < self.spec_len() && 0 <= k1 < self.spec_children_of(i).len() && 0 <= k2
                < self.spec_children_of(i).len() && k1 != k2 ==> #[trigger] self.spec_children_of(
                i,
            )[k1] != #[trigger] self.spec_children_of(i)[k2]
        &&& forall|i: int, k1: int, k2: int|
            0 <= i < self.spec_len() && 0 <= k1 < self.spec_children_of(i).len() && 0 <= k2
                < self.spec_children_of(i).len() && k1 != k2 ==> self.spec_node_name(
                #[trigger] self.spec_children_of(i)[k1],
            ) != self.spec_node_name(#[trigger] self.spec_children_of(i)[k2])
        &&& forall|j: int|
            0 < j < self.spec_len() ==> match #[trigger] self.spec_parent_of(j) {
                Some(p) => self.spec_children_of(p).contains(j),
                None => true,
            }
        &&& forall|j: int|
            0 <= j < self.spec_len() ==> match #[trigger] self.spec_parent_of(j) {
                Some(p) => self.spec_removed(j) <==> self.spec_removed(p),
                None => true,
            }
    }

    /// Create the tree and the root node.
    pub fn new() -> (r: Tree)
        ensures
            r.wf(),
            r.spec_len() == 1,
            r.spec_node_name(0) == "root"@,
            r.spec_store_of(0) == Seq::<crate::attribute::Attribute>::empty(),
            !r.spec_removed(0),
            r.spec_children_of(0) == Seq::<int>::empty(),
            r.spec_root_id() == (TreeNodeId { index: 0 }),
    {
        let root_node = Node::new("root");
        let mut slots: Vec<Slot> = Vec::new();
        slots.push(Slot { node: root_node, parent: None, children: Vec::new(), removed: false });
        let r = Tree { slots, root_id: TreeNodeId { index: 0 } };
        proof {
            assert(r.spec_children_of(0) =~= Seq::<int>::empty());
        }
        r
    }

    /// The number of nodes in the tree, removed ones included.
    pub fn count(&self) -> (r: usize)
        ensures
            r == self.spec_len(),
    {
        self.slots.len()
    }

    /// Create a detached node in the arena and return its id.
    pub fn new_node(&mut self, node: Node) -> (id: TreeNodeId)
        requires
            old(self).wf(),
        ensures
            final(self).wf(),
            id.index == old(self).spec_len(),
            final(self).spec_len() == old(self).spec_len() + 1,
            final(self).unchanged_below(*old(self), old(self).spec_len()),
            final(self).spec_node(id.index as int) == node,
            final(self).spec_parent_of(id.index as int) is None,
            final(self).spec_children_of(id.index as int) == Seq::<int>::empty(),
            !final(self).spec_removed(id.index as int),
    {
        let id = TreeNodeId { index: self.slots.len() };
        self.slots.push(Slot { node, parent: None, children: Vec::new(), removed: false });
        proof {
            let ghost n = old(self).spec_len();
            assert(self.slots@.len() == n + 1);
            assert forall|i: int| 0 <= i < n implies #[trigger] self.spec_node(i) == old(
                self,
            ).spec_node(i) by {
                assert(self.slots@[i] == old(self).slots@[i]);
            }
            assert forall|i: int| 0 <= i < n implies #[trigger] self.spec_parent_of(i) == old(
                self,
            ).spec_parent_of(i) by {
                assert(self.slots@[i] == old(self).slots@[i]);
            }
            assert forall|i: int| 0 <= i < n implies #[trigger] self.spec_children_of(i) == old(
                self,
            ).spec_children_of(i) by {
                assert(self.slots@[i] == old(self).slots@[i]);
            }
            assert forall|i: int| 0 <= i < n implies #[trigger] self.spec_removed(i) == old(
                self,
            ).spec_removed(i) by {
                assert(self.slots@[i] == old(self).slots@[i]);
            }
            assert forall|i: int| 0 <= i < n implies #[trigger] self.spec_node_name(i) == old(
                self,
            ).spec_node_name(i) by {
                assert(self.slots@[i] == old(self).slots@[i]);
            }
            assert(self.spec_children_of(n) =~= Seq::<int>::empty());
            assert(self.spec_parent_of(n) is None);
            assert(!self.spec_removed(n));
            assert(self.wf());
        }
        id
    }

    /// All of `other`'s slots kept their contents and links, except that the
    /// child list of `parent` may differ.
    pub open spec fn unchanged_below_but_children(&self, other: Tree, parent: int) -> bool {
        &&& self.spec_root_id() == other.spec_root_id()
        &&& forall|i: int|
            #![all_triggers]
            0 <= i < other.spec_len() ==> {
                &&& self.spec_node(i) == other.spec_node(i)
                &&& self.spec_parent_of(i) == other.spec_parent_of(i)
                &&& self.spec_removed(i) == other.spec_removed(i)
                &&& (i != parent ==> self.spec_children_of(i) == other.spec_children_of(i))
            }
    }

    /// All slots below `n` kept their contents and links.
    pub open spec fn unchanged_below(&self, other: Tree, n: int) -> bool {
        &&& self.spec_root_id() == other.spec_root_id()
        &&& forall|i: int|
            0 <= i < n ==> {
                &&& #[trigger] self.spec_node(i) == other.spec_node(i)
                &&& self.spec_parent_of(i) == other.spec_parent_of(i)
                &&& self.spec_children_of(i) == other.spec_children_of(i)
                &&& self.spec_removed(i) == other.spec_removed(i)
            }
    }

    /// The position of the first child of `parent` named `name`, within the
    /// child list, together with the child's slot.
    pub open spec fn spec_first_child_named(&self, parent: int, name: Seq<char>) -> Option<int> {
        spec_first_match(*self, self.spec_children_of(parent), name)
    }

    /// Whether some child of `parent` is named `name`.
    pub open spec fn spec_has_child_named(&self, parent: int, name: Seq<char>) -> bool {
        self.spec_first_child_named(parent, name) is Some
    }

    /// Add `node` as a child of `parent_id` and return the new id. Fails on a
    /// stale or unknown parent and when the parent already has a child of the
    /// same name.
    pub fn add_child(&mut self, parent_id: TreeNodeId, node: Node) -> (r: Result<
        TreeNodeId,
        RustructError,
    >)
        requires
            old(self).wf(),
        ensures
            final(self).wf(),
            match r {
                Ok(id) => {
                    &&& 0 <= parent_id.index < old(self).spec_len()
                    &&& !old(self).spec_removed(parent_id.index as int)
                    &&& !old(self).spec_has_child_named(parent_id.index as int, node.spec_name())
                    &&& id.index == old(self).spec_len()
                    &&& final(self).spec_len() == old(self).spec_len() + 1
                    &&& final(self).spec_node(id.index as int) == node
                    &&& final(self).spec_parent_of(id.index as int) == Some(
                        parent_id.index as int,
                    )
                    &&& !final(self).spec_removed(id.index as int)
                    &&& final(self).spec_children_of(id.index as int) == Seq::<int>::empty()
                    &&& final(self).spec_children_of(parent_id.index as int) == old(
                        self,
                    ).spec_children_of(parent_id.index as int).push(id.index as int)
                    &&& forall|i: int|
                        0 <= i < old(self).spec_len() ==> {
                            &&& #[trigger] final(self).spec_node(i) == old(self).spec_node(i)
                            &&& final(self).spec_parent_of(i) == old(self).spec_parent_of(i)
                            &&& final(self).spec_removed(i) == old(self).spec_removed(i)
                            &&& i != parent_id.index ==> final(self).spec_children_of(i) == old(
                                self,
                            ).spec_children_of(i)
                        }
                    &&& final(self).spec_root_id() == old(self).spec_root_id()
                },
                Err(e) => {
                    &&& *final(self) == *old(self)
                    &&& (e is StaleParent <==> (parent_id.index >= old(self).spec_len() || old(
                        self,
                    ).spec_removed(parent_id.index as int)))
                    &&& (e is DuplicateNodeName <==> (parent_id.index < old(self).spec_len()
                        && !old(self).spec_removed(parent_id.index as int) && old(
                        self,
                    ).spec_has_child_named(parent_id.index as int, node.spec_name())))
                },
            },
            (r is Err) <==> (parent_id.index >= old(self).spec_len() || old(self).spec_removed(
                parent_id.index as int,
            ) || old(self).spec_has_child_named(parent_id.index as int, node.spec_name())),
    {
        if parent_id.index >= self.slots.len() || self.slots[parent_id.index].removed {
            return Err(RustructError::StaleParent);
        }
        let name = node.name();
        if self.find_child_named(parent_id.index, name.as_str()).is_some() {
            return Err(RustructError::DuplicateNodeName);
        }
        let id = TreeNodeId { index: self.slots.len() };
        let ghost pre = *self;
        self.slots.push(Slot {
            node,
            parent: Some(parent_id.index),
            children: Vec::new(),
            removed: false,
        });
        self.slots[parent_id.index].children.push(id.index);
        proof {
            let ghost pi = parent_id.index as int;
            let ghost n = pre.spec_len();
            lemma_first_match_none_no_hit(pre, pre.spec_children_of(pi), node.spec_name());
            assert(self.slots@.len() == n + 1);
            assert forall|i: int| 0 <= i < n implies #[trigger] self.spec_node(i) == pre.spec_node(
                i,
            ) by {
                if i != pi {
                    assert(self.slots@[i] == pre.slots@[i]);
                }
            }
            assert forall|i: int| 0 <= i < n implies #[trigger] self.spec_parent_of(i)
                == pre.spec_parent_of(i) by {
                if i != pi {
                    assert(self.slots@[i] == pre.slots@[i]);
                }
            }
            assert forall|i: int| 0 <= i < n implies #[trigger] self.spec_removed(i)
                == pre.spec_removed(i) by {
                if i != pi {
                    assert(self.slots@[i] == pre.slots@[i]);
                }
            }
            assert forall|i: int| 0 <= i < n implies #[trigger] self.spec_node_name(i)
                == pre.spec_node_name(i) by {
                if i != pi {
                    assert(self.slots@[i] == pre.slots@[i]);
                }
            }
            assert forall|i: int| 0 <= i < n && i != pi implies #[trigger] self.spec_children_of(i)
                == pre.spec_children_of(i) by {
                assert(self.slots@[i] == pre.slots@[i]);
            }
            assert(self.spec_children_of(pi) =~= pre.spec_children_of(pi).push(id.index as int));
            assert(self.spec_children_of(id.index as int) =~= Seq::<int>::empty());
            assert(self.spec_node(id.index as int) == node);
            assert(self.spec_node_name(id.index as int) == node.spec_name());
            assert(self.spec_parent_of(id.index as int) == Some(pi));
            assert(!self.spec_removed(id.index as int));
            assert(self.wf()) by {
                assert forall|i: int, k: int|
                    0 <= i < self.spec_len() && 0 <= k < self.spec_children_of(i).len() implies {
                    let c = #[trigger] self.spec_children_of(i)[k];
                    &&& i < c < self.spec_len()
                    &&& self.spec_parent_of(c) == Some(i)
                } by {
                    if i == pi {
                        let cs = pre.spec_children_of(pi);
                        if k < cs.len() {
                            assert(self.spec_children_of(i)[k] == cs[k]);
                            assert(pi < cs[k] < n);
                            assert(self.spec_parent_of(cs[k]) == pre.spec_parent_of(cs[k]));
                        } else {
                            assert(self.spec_children_of(i)[k] == id.index as int);
                        }
                    } else if i < n {
                        assert(self.spec_children_of(i) == pre.spec_children_of(i));
                        let c = self.spec_children_of(i)[k];
                        assert(pre.spec_parent_of(c) == Some(i));
                        assert(self.spec_parent_of(c) == pre.spec_parent_of(c));
                    } else {
                        assert(self.spec_children_of(i).len() == 0);
                    }
                }
                assert forall|i: int, k1: int, k2: int|
                    0 <= i < self.spec_len() && 0 <= k1 < self.spec_children_of(i).len() && 0 <= k2
                        < self.spec_children_of(i).len() && k1 != k2 implies #[trigger] self.spec_children_of(
                    i,
                )[k1] != #[trigger] self.spec_children_of(i)[k2] by {
                    if i == pi {
                        let cs = pre.spec_children_of(pi);
                        if k1 < cs.len() && k2 < cs.len() {
                        } else {
                            assert(forall|k: int| 0 <= k < cs.len() ==> #[trigger] cs[k] < n);
                        }
                    } else if i < n {
                        assert(self.spec_children_of(i) == pre.spec_children_of(i));
                    }
                }
                assert forall|i: int, k1: int, k2: int|
                    0 <= i < self.spec_len() && 0 <= k1 < self.spec_children_of(i).len() && 0 <= k2
                        < self.spec_children_of(i).len() && k1 != k2 implies self.spec_node_name(
                    #[trigger] self.spec_children_of(i)[k1],
                ) != self.spec_node_name(#[trigger] self.spec_children_of(i)[k2]) by {
                    if i == pi {
                        let cs = pre.spec_children_of(pi);
                        if k1 < cs.len() && k2 < cs.len() {
                            assert(pre.spec_node_name(cs[k1]) != pre.spec_node_name(cs[k2]));
                        } else if k1 < cs.len() {
                            assert(self.spec_children_of(i)[k2] == id.index as int);
                            assert(pre.spec_node_name(cs[k1]) != node.spec_name());
                        } else if k2 < cs.len() {
                            assert(self.spec_children_of(i)[k1] == id.index as int);
                            assert(pre.spec_node_name(cs[k2]) != node.spec_name());
                        }
                    } else if i < n {
                        assert(self.spec_children_of(i) == pre.spec_children_of(i));
                        let cs = pre.spec_children_of(i);
                        assert(pre.spec_node_name(cs[k1]) != pre.spec_node_name(cs[k2]));
                    }
                }
                assert forall|j: int|
                    0 < j < self.spec_len() implies match #[trigger] self.spec_parent_of(j) {
                    Some(p) => self.spec_children_of(p).contains(j),
                    None => true,
                } by {
                    if j < n {
                        match pre.spec_parent_of(j) {
                            Some(p) => {
                                let cs = pre.spec_children_of(p);
                                let k = choose|k: int| 0 <= k < cs.len() && cs[k] == j;
                                if p == pi {
                                    assert(self.spec_children_of(p)[k] == j);
                                } else {
                                    assert(self.spec_children_of(p) == cs);
                                }
                                assert(self.spec_children_of(p).contains(j));
                            },
                            None => {},
                        }
                    } else {
                        let cs = self.spec_children_of(pi);
                        assert(cs[cs.len() - 1] == j);
                        assert(cs.contains(j));
                    }
                }
            }
        }
        Ok(id)
    }

    /// Find the position of the first live child of `parent` bearing `name`.
    fn find_child_named(&self, parent: usize, name: &str) -> (r: Option<usize>)
        requires
            self.wf(),
            parent < self.spec_len(),
        ensures
            match r {
                Some(k) => {
                    &&& 0 <= k < self.spec_children_of(parent as int).len()
                    &&& self.spec_first_child_named(parent as int, name@) == Some(k as int)
                },
                None => self.spec_first_child_named(parent as int, name@) is None,
            },
    {
        let n = self.slots[parent].children.len();
        let mut k: usize = 0;
        while k < n
            invariant
                self.wf(),
                parent < self.spec_len(),
                k <= n,
                n == self.spec_children_of(parent as int).len(),
                forall|j: int|
                    0 <= j < k ==> self.spec_node_name(
                        self.spec_children_of(parent as int)[j],
                    ) != name@,
            decreases n - k,
        {
            let c = self.slots[parent].children[k];
            assert(c == self.spec_children_of(parent as int)[k as int]);
            assert(parent < c < self.spec_len());
            let child_name = self.slots[c].node.name();
            if str_eq(child_name.as_str(), name) {
                proof {
                    lemma_first_match_found(
                        *self,
                        self.spec_children_of(parent as int),
                        name@,
                        k as int,
                    );
                }
                return Some(k);
            }
            k = k + 1;
        }
        proof {
            lemma_first_match_none_no_hit_rev(
                *self,
                self.spec_children_of(parent as int),
                name@,
            );
        }
        None
    }
}

impl Tree {
    /// The parent of a node, if it has one.
    pub fn parent_id(&self, node_id: TreeNodeId) -> (r: Option<TreeNodeId>)
        requires
            node_id.index < self.spec_len(),
        ensures
            match (r, self.spec_parent_of(node_id.index as int)) {
                (Some(id), Some(p)) => id.index == p,
                (None, None) => true,
                _ => false,
            },
    {
        match self.slots[node_id.index].parent {
            Some(p) => Some(TreeNodeId { index: p }),
            None => None,
        }
    }

    /// The ids of a node's children, in insertion order.
    pub fn children_id(&self, node_id: TreeNodeId) -> (r: Vec<TreeNodeId>)
        requires
            node_id.index < self.spec_len(),
        ensures
            r@.len() == self.spec_children_of(node_id.index as int).len(),
            forall|k: int|
                0 <= k < r@.len() ==> r@[k].index == self.spec_children_of(
                    node_id.index as int,
                )[k],
    {
        let mut ids: Vec<TreeNodeId> = Vec::new();
        let n = self.slots[node_id.index].children.len();
        let mut k: usize = 0;
        while k < n
            invariant
                k <= n,
                node_id.index < self.spec_len(),
                n == self.spec_children_of(node_id.index as int).len(),
                ids@.len() == k,
                forall|j: int|
                    0 <= j < k ==> ids@[j].index == self.spec_children_of(
                        node_id.index as int,
                    )[j],
            decreases n - k,
        {
            ids.push(TreeNodeId { index: self.slots[node_id.index].children[k] });
            k = k + 1;
        }
        ids
    }

    /// The names of a node's children, in insertion order.
    pub fn children_name(&self, node_id: TreeNodeId) -> (r: Vec<String>)
        requires
            self.wf(),
            node_id.index < self.spec_len(),
        ensures
            r@.len() == self.spec_children_of(node_id.index as int).len(),
            forall|k: int|
                0 <= k < r@.len() ==> r@[k]@ == self.spec_node_name(
                    self.spec_children_of(node_id.index as int)[k],
                ),
    {
        let mut names: Vec<String> = Vec::new();
        let n = self.slots[node_id.index].children.len();
        let mut k: usize = 0;
        while k < n
            invariant
                k <= n,
                self.wf(),
                node_id.index < self.spec_len(),
                n == self.spec_children_of(node_id.index as int).len(),
                names@.len() == k,
                forall|j: int|
                    0 <= j < k ==> names@[j]@ == self.spec_node_name(
                        self.spec_children_of(node_id.index as int)[j],
                    ),
            decreases n - k,
        {
            let c = self.slots[node_id.index].children[k];
            assert(c == self.spec_children_of(node_id.index as int)[k as int]);
            names.push(self.slots[c].node.name());
            k = k + 1;
        }
        names
    }

    /// Whether a node has at least one child.
    pub fn has_children(&self, node_id: TreeNodeId) -> (r: bool)
        requires
            node_id.index < self.spec_len(),
        ensures
            r <==> self.spec_children_of(node_id.index as int).len() > 0,
    {
        self.slots[node_id.index].children.len() > 0
    }

    /// The node stored under an id; nothing if the id is unknown or the node
    /// was removed.
    pub fn get_node_from_id(&self, node_id: TreeNodeId) -> (r: Option<&Node>)
        ensures
            match r {
                Some(node) => {
                    &&& node_id.index < self.spec_len()
                    &&& !self.spec_removed(node_id.index as int)
                    &&& *node == self.spec_node(node_id.index as int)
                },
                None => node_id.index >= self.spec_len() || self.spec_removed(
                    node_id.index as int,
                ),
            },
    {
        if node_id.index >= self.slots.len() {
            return None;
        }
        if self.slots[node_id.index].removed {
            return None;
        }
        Some(&self.slots[node_id.index].node)
    }

    /// Remove a node and its whole subtree: every node below it is marked
    /// removed and the subtree is detached from its parent. Slots stay in
    /// place, so sibling ids remain valid.
    pub fn remove(&mut self, node_id: TreeNodeId)
        requires
            old(self).wf(),
            node_id.index < old(self).spec_len(),
        ensures
            final(self).wf(),
            final(self).spec_len() == old(self).spec_len(),
            final(self).spec_root_id() == old(self).spec_root_id(),
            forall|i: int|
                0 <= i < old(self).spec_len() ==> #[trigger] final(self).spec_node(i) == old(
                    self,
                ).spec_node(i),
            forall|i: int|
                0 <= i < old(self).spec_len() ==> (#[trigger] final(self).spec_removed(i) <==> (
                old(self).spec_removed(i) || spec_in_subtree(
                    *old(self),
                    node_id.index as int,
                    i,
                ))),
            forall|i: int|
                0 <= i < old(self).spec_len() && i != node_id.index
                    ==> #[trigger] final(self).spec_parent_of(i) == old(self).spec_parent_of(i),
            old(self).spec_removed(node_id.index as int) ==> *final(self) == *old(self),
            !old(self).spec_removed(node_id.index as int) ==> final(self).spec_parent_of(
                node_id.index as int,
            ) is None,
            forall|i: int|
                0 <= i < old(self).spec_len() && (old(self).spec_removed(node_id.index as int)
                    || old(self).spec_parent_of(node_id.index as int) != Some(i))
                    ==> #[trigger] final(self).spec_children_of(i) == old(
                    self,
                ).spec_children_of(i),
            !old(self).spec_removed(node_id.index as int) ==> match old(self).spec_parent_of(
                node_id.index as int,
            ) {
                Some(p) => final(self).spec_children_of(p) == old(self).spec_children_of(
                    p,
                ).remove(old(self).spec_children_of(p).index_of(node_id.index as int)),
                None => true,
            },
    {
        let a = node_id.index;
        if self.slots[a].removed {
            proof {
                lemma_in_subtree_removed(*self, a as int);
            }
            return ;
        }
        let ghost pre = *self;
        // detach the subtree from its parent
        let a_parent = self.slots[a].parent;
        if let Some(p) = a_parent {
            let cs_len = self.slots[p].children.len();
            let ghost cs = self.spec_children_of(p as int);
            proof {
                assert(cs.contains(a as int));
            }
            let mut pos: usize = 0;
            while pos < cs_len && self.slots[p].children[pos] != a
                invariant
                    self.wf(),
                    *self == pre,
                    p < a < self.spec_len(),
                    cs == self.spec_children_of(p as int),
                    cs_len == cs.len(),
                    pos <= cs_len,
                    cs.contains(a as int),
                    forall|j: int| 0 <= j < pos ==> cs[j] != a as int,
                decreases cs_len - pos,
            {
                pos = pos + 1;
            }
            proof {
                if pos == cs_len {
                    let k = choose|k: int| 0 <= k < cs.len() && cs[k] == a as int;
                    assert(false);
                }
                assert forall|j: int| 0 <= j < cs.len() && j != pos as int implies cs[j]
                    != a as int by {
                    assert(self.spec_children_of(p as int)[j] != self.spec_children_of(
                        p as int,
                    )[pos as int]);
                }
                lemma_index_of_unique(cs, a as int, pos as int);
            }
            self.slots[p].children.remove(pos);
            self.slots[a].parent = None;
            proof {
                assert forall|i: int| 0 <= i < pre.spec_len() && i != p implies {
                    &&& #[trigger] self.spec_children_of(i) == pre.spec_children_of(i)
                } by {
                    if i != a {
                        assert(self.slots@[i] == pre.slots@[i]);
                    }
                }
                assert forall|i: int| 0 <= i < pre.spec_len() implies #[trigger] self.spec_node(i)
                    == pre.spec_node(i) && self.spec_removed(i) == pre.spec_removed(i) by {
                    if i != a && i != p {
                        assert(self.slots@[i] == pre.slots@[i]);
                    }
                }
                assert forall|i: int| 0 <= i < pre.spec_len() && i != a implies
                    #[trigger] self.spec_parent_of(i) == pre.spec_parent_of(i) by {
                    if i != p {
                        assert(self.slots@[i] == pre.slots@[i]);
                    }
                }
                assert forall|k: int|
                    0 <= k < self.spec_children_of(p as int).len() implies #[trigger] self
                    .spec_children_of(p as int)[k] == cs.remove(pos as int)[k] by {}
                assert(self.spec_children_of(p as int) =~= cs.remove(pos as int));
            }
        }
        let ghost mid = *self;
        // mark the subtree, oldest slot first; a parent is always older than
        // its children, so by the time a slot is visited its parent is final
        assert(a < self.slots.len());
        self.slots[a].removed = true;
        let mut i: usize = a + 1;
        proof {
            assert forall|j: int| 0 <= j < mid.spec_len() && j != a as int implies
                #[trigger] self.spec_removed(j) == mid.spec_removed(j) by {
                assert(self.slots@[j] == mid.slots@[j]);
            }
            assert forall|j: int| 0 <= j < mid.spec_len() implies #[trigger] self.spec_node(j)
                == mid.spec_node(j) && self.spec_parent_of(j) == mid.spec_parent_of(j)
                && self.spec_children_of(j) == mid.spec_children_of(j) by {
                if j != a as int {
                    assert(self.slots@[j] == mid.slots@[j]);
                } else {
                    assert(self.slots@[j].parent == mid.slots@[j].parent);
                    assert(self.slots@[j].node == mid.slots@[j].node);
                    assert(self.slots@[j].children == mid.slots@[j].children);
                }
            }
            assert forall|j: int| 0 <= j < i as int implies (#[trigger] self.spec_removed(j) <==> (
                pre.spec_removed(j) || spec_in_subtree(pre, a as int, j))) by {
                if j < a as int && spec_in_subtree(pre, a as int, j) {
                    lemma_in_subtree_ge(pre, a as int, j);
                }
            }
        }
        while i < self.slots.len()
            invariant
                pre.wf(),
                a < i,
                a < pre.spec_len(),
                !pre.spec_removed(a as int),
                self.spec_len() == pre.spec_len(),
                self.spec_root_id() == pre.spec_root_id(),
                mark_links_frame(mid, *self),
                mid.spec_len() == pre.spec_len(),
                forall|j: int|
                    0 <= j < pre.spec_len() ==> #[trigger] mid.spec_node(j) == pre.spec_node(j),
                forall|j: int|
                    0 <= j < pre.spec_len() ==> #[trigger] mid.spec_removed(j)
                        == pre.spec_removed(j),
                forall|j: int|
                    0 <= j < pre.spec_len() && j != a as int ==> #[trigger] mid.spec_parent_of(j)
                        == pre.spec_parent_of(j),
                mid.spec_parent_of(a as int) is None,
                forall|j: int|
                    0 <= j < i as int ==> (#[trigger] self.spec_removed(j) <==> (
                    pre.spec_removed(j) || spec_in_subtree(pre, a as int, j))),
                forall|j: int|
                    i as int <= j < pre.spec_len() ==> #[trigger] self.spec_removed(j)
                        == pre.spec_removed(j),
            decreases self.slots@.len() - i,
        {
            let ghost before = *self;
            proof {
                assert(self.spec_parent_of(i as int) == pre.spec_parent_of(i as int));
                match pre.spec_parent_of(i as int) {
                    Some(p) => {
                        assert(0 <= p < i as int);
                    },
                    None => {},
                }
            }
            let par = self.slots[i].parent;
            let marked = if let Some(p) = par {
                assert(p < i);
                self.slots[p].removed
            } else {
                false
            };
            if marked {
                self.slots[i].removed = true;
            }
            proof {
                assert forall|j: int| 0 <= j < pre.spec_len() && j != i as int implies
                    #[trigger] self.spec_removed(j) == before.spec_removed(j) by {
                    assert(self.slots@[j] == before.slots@[j]);
                }
                assert forall|j: int| 0 <= j < pre.spec_len() implies #[trigger] self.spec_node(j)
                    == before.spec_node(j) && self.spec_parent_of(j) == before.spec_parent_of(j)
                    && self.spec_children_of(j) == before.spec_children_of(j) by {
                    if j != i as int {
                        assert(self.slots@[j] == before.slots@[j]);
                    } else {
                        assert(self.slots@[j].parent == before.slots@[j].parent);
                        assert(self.slots@[j].node == before.slots@[j].node);
                        assert(self.slots@[j].children == before.slots@[j].children);
                    }
                }
                // the freshly decided slot obeys the subtree equivalence
                assert(self.spec_removed(i as int) <==> (pre.spec_removed(i as int)
                    || spec_in_subtree(pre, a as int, i as int))) by {
                    match pre.spec_parent_of(i as int) {
                        Some(p) => {
                            assert(0 <= p < i as int);
                            assert(marked == before.spec_removed(p));
                            assert(before.spec_removed(p) <==> (pre.spec_removed(p)
                                || spec_in_subtree(pre, a as int, p)));
                            assert(spec_in_subtree(pre, a as int, i as int) <==> (i as int == a
                                || spec_in_subtree(pre, a as int, p)));
                            if pre.spec_removed(p) {
                                assert(pre.spec_removed(i as int));
                            }
                            if marked {
                                assert(self.spec_removed(i as int));
                            } else {
                                assert(self.spec_removed(i as int) == before.spec_removed(
                                    i as int,
                                ));
                                assert(before.spec_removed(i as int) == pre.spec_removed(
                                    i as int,
                                ));
                            }
                        },
                        None => {
                            assert(!marked);
                            assert(!spec_in_subtree(pre, a as int, i as int));
                            assert(self.spec_removed(i as int) == before.spec_removed(i as int));
                            assert(before.spec_removed(i as int) == pre.spec_removed(i as int));
                        },
                    }
                }
            }
            i = i + 1;
        }
        proof {
            lemma_marked_tree_wf(pre, mid, *self, a as int);
        }
    }
}

impl Tree {
    /// Walk `segs` down from `cur`, taking at each step the first child whose
    /// name equals the segment.
    pub open spec fn spec_resolve_from(self, cur: int, segs: Seq<Seq<char>>) -> Option<int>
        decreases segs.len(),
    {
        if segs.len() == 0 {
            Some(cur)
        } else {
            match self.spec_first_child_named(cur, segs[0]) {
                Some(k) => self.spec_resolve_from(
                    self.spec_children_of(cur)[k],
                    segs.drop_first(),
                ),
                None => None,
            }
        }
    }

    /// The segments of a node path: split on `/`, one leading and one
    /// trailing empty segment dropped.
    pub open spec fn spec_path_segments(path: Seq<char>) -> Seq<Seq<char>> {
        let raw = spec_split_char(path, '/');
        let t1 = if raw.len() > 0 && raw[0].len() == 0 {
            raw.drop_first()
        } else {
            raw
        };
        if t1.len() > 0 && t1.last().len() == 0 {
            t1.drop_last()
        } else {
            t1
        }
    }

    /// What `get_node_id` resolves a path to: the first segment must read
    /// `root`, the rest are matched against child names.
    pub open spec fn spec_get_node_id(self, path: Seq<char>) -> Option<int> {
        let segs = Self::spec_path_segments(path);
        if segs.len() == 0 {
            None
        } else if segs[0] != "root"@ {
            None
        } else {
            self.spec_resolve_from(0, segs.drop_first())
        }
    }

    /// What `find_node_from_id` resolves a path to: every segment is matched
    /// against child names, starting from `from`.
    pub open spec fn spec_find_node_from_id(self, from: int, path: Seq<char>) -> Option<int> {
        let raw = spec_split_char(path, '/');
        let t1 = if raw.len() > 0 && raw[0].len() == 0 {
            raw.drop_first()
        } else {
            raw
        };
        if t1.len() == 0 {
            None
        } else {
            let segs = if t1.last().len() == 0 {
                t1.drop_last()
            } else {
                t1
            };
            self.spec_resolve_from(from, segs)
        }
    }

    /// Resolve path segments by exact child-name match, starting from `from`.
    fn resolve_segments(&self, from: usize, segs: &Vec<String>, start: usize) -> (r: Option<
        TreeNodeId,
    >)
        requires
            self.wf(),
            from < self.spec_len(),
            start <= segs@.len(),
        ensures
            match (r, self.spec_resolve_from(from as int, seq_views(segs@).skip(start as int))) {
                (Some(id), Some(c)) => id.index == c && c < self.spec_len(),
                (None, None) => true,
                _ => false,
            },
    {
        let mut cur: usize = from;
        let mut i: usize = start;
        let n = segs.len();
        while i < n
            invariant
                self.wf(),
                cur < self.spec_len(),
                start <= i <= n,
                n == segs@.len(),
                self.spec_resolve_from(from as int, seq_views(segs@).skip(start as int)) == self
                    .spec_resolve_from(cur as int, seq_views(segs@).skip(i as int)),
            decreases n - i,
        {
            let ghost segs_now = seq_views(segs@).skip(i as int);
            proof {
                assert(segs_now[0] == segs@[i as int]@);
                assert(segs_now.drop_first() =~= seq_views(segs@).skip(i as int + 1));
            }
            match self.find_child_named(cur, segs[i].as_str()) {
                Some(k) => {
                    let c = self.slots[cur].children[k];
                    proof {
                        assert(c == self.spec_children_of(cur as int)[k as int]);
                    }
                    cur = c;
                },
                None => {
                    return None;
                },
            }
            i = i + 1;
        }
        proof {
            assert(seq_views(segs@).skip(n as int) =~= Seq::<Seq<char>>::empty());
        }
        Some(TreeNodeId { index: cur })
    }

    /// The id a path resolves to. The path is split on `/`, one leading and
    /// one trailing empty segment are dropped, the first segment must read
    /// `root`, and each further segment selects the first child of that name.
    pub fn get_node_id(&self, pathes: &str) -> (r: Option<TreeNodeId>)
        requires
            self.wf(),
        ensures
            match (r, self.spec_get_node_id(pathes@)) {
                (Some(id), Some(c)) => id.index == c && c < self.spec_len(),
                (None, None) => true,
                _ => false,
            },
    {
        let mut segs = split_on_char(pathes, '/');
        proof {
            crate::text::lemma_split_char_len(pathes@, '/');
        }
        if segs.len() > 0 && segs[0].as_str().unicode_len() == 0 {
            segs.remove(0);
            proof {
                assert(seq_views(segs@) =~= spec_split_char(pathes@, '/').drop_first());
            }
        }
        if segs.len() == 0 {
            return None;
        }
        if segs[segs.len() - 1].as_str().unicode_len() == 0 {
            let ghost before = seq_views(segs@);
            segs.remove(segs.len() - 1);
            proof {
                assert(seq_views(segs@) =~= before.drop_last());
            }
        }
        proof {
            assert(seq_views(segs@) =~= Self::spec_path_segments(pathes@));
        }
        if segs.len() == 0 {
            return None;
        }
        if !str_eq(segs[0].as_str(), "root") {
            return None;
        }
        proof {
            assert(seq_views(segs@).skip(1) =~= Self::spec_path_segments(pathes@).drop_first());
        }
        self.resolve_segments(0, &segs, 1)
    }

    /// Search for a node matching `path`, starting from the node `from_id`;
    /// every segment is matched against child names.
    pub fn find_node_from_id(&self, from_id: TreeNodeId, path: &str) -> (r: Option<TreeNodeId>)
        requires
            self.wf(),
            from_id.index < self.spec_len(),
        ensures
            match (r, self.spec_find_node_from_id(from_id.index as int, path@)) {
                (Some(id), Some(c)) => id.index == c && c < self.spec_len(),
                (None, None) => true,
                _ => false,
            },
    {
        let ghost raw = spec_split_char(path@, '/');
        let mut segs = split_on_char(path, '/');
        proof {
            crate::text::lemma_split_char_len(path@, '/');
            assert(seq_views(segs@) =~= raw);
        }
        let ghost t1 = if raw.len() > 0 && raw[0].len() == 0 {
            raw.drop_first()
        } else {
            raw
        };
        if segs.len() > 0 && segs[0].as_str().unicode_len() == 0 {
            segs.remove(0);
            proof {
                assert(seq_views(segs@) =~= raw.drop_first());
            }
        }
        proof {
            assert(seq_views(segs@) == t1);
        }
        if segs.len() == 0 {
            return None;
        }
        if segs[segs.len() - 1].as_str().unicode_len() == 0 {
            segs.remove(segs.len() - 1);
            proof {
                assert(seq_views(segs@) =~= t1.drop_last());
            }
        }
        proof {
            assert(seq_views(segs@).skip(0) =~= seq_views(segs@));
        }
        self.resolve_segments(from_id.index, &segs, 0)
    }

    /// The node a path resolves to; nothing when the path does not resolve or
    /// the node it reaches was removed.
    pub fn get_node(&self, path: &str) -> (r: Option<&Node>)
        requires
            self.wf(),
        ensures
            match (r, self.spec_get_node_id(path@)) {
                (Some(node), Some(c)) => !self.spec_removed(c) && *node == self.spec_node(c),
                (None, Some(c)) => self.spec_removed(c),
                (None, None) => true,
                _ => false,
            },
    {
        match self.get_node_id(path) {
            Some(node_id) => self.get_node_from_id(node_id),
            None => None,
        }
    }
}

impl Tree {
    /// The full path of slot `i`: the names along the parent chain, each
    /// preceded by a slash.
    pub open spec fn spec_path_of(self, i: int) -> Seq<char>
        decreases i,
    {
        match self.spec_parent_of(i) {
            Some(p) => if 0 <= p < i {
                self.spec_path_of(p) + seq!['/'] + self.spec_node_name(i)
            } else {
                seq!['/'] + self.spec_node_name(i)
            },
            None => seq!['/'] + self.spec_node_name(i),
        }
    }

    /// Whether slot `i` and all its ancestors are live.
    pub open spec fn spec_chain_live(self, i: int) -> bool
        decreases i,
    {
        &&& !self.spec_removed(i)
        &&& match self.spec_parent_of(i) {
            Some(p) => 0 <= p < i && self.spec_chain_live(p),
            None => true,
        }
    }

    /// The full path of a node, walking parent links up to the root; nothing
    /// if the node or one of its ancestors was removed, or the id is unknown.
    pub fn node_path(&self, node_id: TreeNodeId) -> (r: Option<String>)
        requires
            self.wf(),
        ensures
            match r {
                Some(path) => {
                    &&& node_id.index < self.spec_len()
                    &&& self.spec_chain_live(node_id.index as int)
                    &&& path@ == self.spec_path_of(node_id.index as int)
                },
                None => node_id.index >= self.spec_len() || !self.spec_chain_live(
                    node_id.index as int,
                ),
            },
    {
        if node_id.index >= self.slots.len() {
            return None;
        }
        // collect the names from the node up to its topmost ancestor
        let mut names: Vec<String> = Vec::new();
        let ghost mut chain: Seq<int> = Seq::empty();
        let mut cur: usize = node_id.index;
        loop
            invariant_except_break
                self.wf(),
                cur < self.spec_len(),
                names@.len() == chain.len(),
                forall|k: int| 0 <= k < chain.len() ==> 0 <= #[trigger] chain[k] < self.spec_len(),
                forall|k: int| 0 <= k < chain.len() ==> names@[k]@ == self.spec_node_name(chain[k]),
                forall|k: int|
                    0 < k < chain.len() ==> self.spec_parent_of(#[trigger] chain[k - 1]) == Some(
                        chain[k],
                    ),
                chain.len() > 0 ==> chain[0] == node_id.index as int && self.spec_parent_of(
                    chain.last(),
                ) == Some(cur as int),
                chain.len() == 0 ==> cur == node_id.index,
                forall|k: int| 0 <= k < chain.len() ==> !self.spec_removed(#[trigger] chain[k]),
                chain.len() > 0 ==> (self.spec_chain_live(node_id.index as int) <==> self
                    .spec_chain_live(cur as int)),
            ensures
                self.wf(),
                names@.len() == chain.len(),
                chain.len() > 0,
                chain[0] == node_id.index as int,
                forall|k: int| 0 <= k < chain.len() ==> 0 <= #[trigger] chain[k] < self.spec_len(),
                forall|k: int| 0 <= k < chain.len() ==> names@[k]@ == self.spec_node_name(chain[k]),
                forall|k: int|
                    0 < k < chain.len() ==> self.spec_parent_of(#[trigger] chain[k - 1]) == Some(
                        chain[k],
                    ),
                self.spec_parent_of(chain.last()) is None,
                self.spec_chain_live(node_id.index as int),
            decreases cur,
        {
            if self.slots[cur].removed {
                proof {
                    if chain.len() == 0 {
                        assert(!self.spec_chain_live(node_id.index as int));
                    }
                }
                return None;
            }
            let ghost chain0 = chain;
            names.push(self.slots[cur].node.name());
            proof {
                chain = chain.push(cur as int);
                assert forall|k: int| 0 < k < chain.len() implies self.spec_parent_of(
                    #[trigger] chain[k - 1],
                ) == Some(chain[k]) by {
                    if k < chain0.len() {
                        assert(chain[k - 1] == chain0[k - 1]);
                        assert(chain[k] == chain0[k]);
                    } else {
                        assert(chain[k] == cur as int);
                        if chain0.len() > 0 {
                            assert(chain[k - 1] == chain0.last());
                        }
                    }
                }
            }
            match self.slots[cur].parent {
                Some(p) => {
                    proof {
                        assert(self.spec_parent_of(cur as int) == Some(p as int));
                        assert(self.spec_chain_live(cur as int) <==> self.spec_chain_live(
                            p as int,
                        ));
                    }
                    cur = p;
                },
                None => {
                    proof {
                        assert(self.spec_parent_of(chain.last()) is None);
                        assert(self.spec_chain_live(cur as int));
                    }
                    break ;
                },
            }
        }
        // build the path from the topmost ancestor down
        let mut path = String::new();
        let mut j: usize = names.len();
        while j > 0
            invariant
                self.wf(),
                names@.len() == chain.len(),
                j <= chain.len(),
                chain.len() > 0,
                forall|k: int| 0 <= k < chain.len() ==> 0 <= #[trigger] chain[k] < self.spec_len(),
                forall|k: int| 0 <= k < chain.len() ==> names@[k]@ == self.spec_node_name(chain[k]),
                forall|k: int|
                    0 < k < chain.len() ==> self.spec_parent_of(#[trigger] chain[k - 1]) == Some(
                        chain[k],
                    ),
                self.spec_parent_of(chain.last()) is None,
                j < chain.len() ==> path@ == self.spec_path_of(chain[j as int]),
                j == chain.len() ==> path@ == Seq::<char>::empty(),
            decreases j,
        {
            j = j - 1;
            path.push('/');
            path.append(names[j].as_str());
            proof {
                if j as int == chain.len() - 1 {
                    assert(path@ =~= seq!['/'] + self.spec_node_name(chain[j as int]));
                } else {
                    assert(self.spec_parent_of(chain[j as int]) == Some(chain[j as int + 1]));
                    assert(path@ =~= self.spec_path_of(chain[j as int + 1]) + seq!['/']
                        + self.spec_node_name(chain[j as int]));
                }
            }
        }
        Some(path)
    }
}

/// Whether the parent chain of slot `j` starts at or passes through slot `a`.
pub open spec fn spec_in_subtree(t: Tree, a: int, j: int) -> bool
    decreases j,
{
    if j == a {
        true
    } else if j <= 0 {
        false
    } else {
        match t.spec_parent_of(j) {
            Some(p) => 0 <= p < j && spec_in_subtree(t, a, p),
            None => false,
        }
    }
}

/// A subtree only holds slots at or above its root's index.
proof fn lemma_in_subtree_ge(t: Tree, a: int, j: int)
    requires
        0 <= a,
        spec_in_subtree(t, a, j),
    ensures
        j >= a,
    decreases j,
{
    if j != a {
        match t.spec_parent_of(j) {
            Some(p) => {
                lemma_in_subtree_ge(t, a, p);
            },
            None => {},
        }
    }
}

/// Below a removed slot, every slot of the subtree is removed as well.
proof fn lemma_in_subtree_removed_one(t: Tree, a: int, j: int)
    requires
        t.wf(),
        0 <= a < t.spec_len(),
        t.spec_removed(a),
        0 <= j < t.spec_len(),
        spec_in_subtree(t, a, j),
    ensures
        t.spec_removed(j),
    decreases j,
{
    if j != a {
        match t.spec_parent_of(j) {
            Some(p) => {
                lemma_in_subtree_removed_one(t, a, p);
            },
            None => {},
        }
    }
}

/// Below a removed slot, the whole subtree is removed.
proof fn lemma_in_subtree_removed(t: Tree, a: int)
    requires
        t.wf(),
        0 <= a < t.spec_len(),
        t.spec_removed(a),
    ensures
        forall|j: int|
            0 <= j < t.spec_len() && spec_in_subtree(t, a, j) ==> #[trigger] t.spec_removed(j),
{
    assert forall|j: int|
        0 <= j < t.spec_len() && spec_in_subtree(t, a, j) implies #[trigger] t.spec_removed(
        j,
    ) by {
        lemma_in_subtree_removed_one(t, a, j);
    }
}

/// In a sequence where `x` occurs only at `pos`, `index_of` yields `pos`.
proof fn lemma_index_of_unique(cs: Seq<int>, x: int, pos: int)
    requires
        0 <= pos < cs.len(),
        cs[pos] == x,
        forall|j: int| 0 <= j < cs.len() && j != pos ==> cs[j] != x,
    ensures
        cs.index_of(x) == pos,
{
    assert(cs.contains(x));
    let i = cs.index_of(x);
    assert(0 <= i < cs.len() && cs[i] == x) by {
        assert(exists|k: int| 0 <= k < cs.len() && cs[k] == x);
    }
}

/// The marking phase leaves every link and every node in place.
spec fn mark_links_frame(mid: Tree, cur: Tree) -> bool {
    &&& cur.spec_len() == mid.spec_len()
    &&& cur.spec_root_id() == mid.spec_root_id()
    &&& forall|j: int|
        #![all_triggers]
        0 <= j < mid.spec_len() ==> {
            &&& cur.spec_node(j) == mid.spec_node(j)
            &&& cur.spec_parent_of(j) == mid.spec_parent_of(j)
            &&& cur.spec_children_of(j) == mid.spec_children_of(j)
        }
}

/// After detaching the subtree at `a` and marking it, the arena is sound
/// again.
proof fn lemma_marked_tree_wf(pre: Tree, mid: Tree, cur: Tree, a: int)
    requires
        pre.wf(),
        0 <= a < pre.spec_len(),
        !pre.spec_removed(a),
        mid.spec_len() == pre.spec_len(),
        mid.spec_root_id() == pre.spec_root_id(),
        forall|j: int| 0 <= j < pre.spec_len() ==> #[trigger] mid.spec_node(j) == pre.spec_node(j),
        forall|j: int|
            0 <= j < pre.spec_len() && j != a ==> #[trigger] mid.spec_parent_of(j)
                == pre.spec_parent_of(j),
        mid.spec_parent_of(a) is None,
        match pre.spec_parent_of(a) {
            Some(p) => {
                &&& forall|j: int|
                    0 <= j < pre.spec_len() && j != p ==> #[trigger] mid.spec_children_of(j)
                        == pre.spec_children_of(j)
                &&& mid.spec_children_of(p) == pre.spec_children_of(p).remove(
                    pre.spec_children_of(p).index_of(a),
                )
            },
            None => forall|j: int|
                0 <= j < pre.spec_len() ==> #[trigger] mid.spec_children_of(j)
                    == pre.spec_children_of(j),
        },
        mark_links_frame(mid, cur),
        forall|j: int|
            0 <= j < pre.spec_len() ==> (#[trigger] cur.spec_removed(j) <==> (pre.spec_removed(j)
                || spec_in_subtree(pre, a, j))),
    ensures
        cur.wf(),
{
    let n = pre.spec_len();
    assert forall|j: int| 0 <= j < n implies #[trigger] cur.spec_node_name(j)
        == pre.spec_node_name(j) by {
        assert(cur.spec_node(j) == pre.spec_node(j));
    }
    assert forall|j: int| 0 <= j < n && j != a implies #[trigger] cur.spec_parent_of(j)
        == pre.spec_parent_of(j) by {}
    assert(cur.spec_parent_of(a) is None);
    // where there is a detach parent, relate its new child list to the old one
    match pre.spec_parent_of(a) {
        Some(p) => {
            let cs = pre.spec_children_of(p);
            let pos = cs.index_of(a);
            assert(cs.contains(a)) by {
                assert(0 < a < n);
            }
            assert(0 <= pos < cs.len() && cs[pos] == a) by {
                assert(exists|k: int| 0 <= k < cs.len() && cs[k] == a);
            }
            let ds = cur.spec_children_of(p);
            assert(ds == cs.remove(pos));
            assert(ds.len() == cs.len() - 1);
            assert forall|k: int| 0 <= k < ds.len() implies #[trigger] ds[k] == (if k < pos {
                cs[k]
            } else {
                cs[k + 1]
            }) by {}
            assert forall|k: int| 0 <= k < ds.len() implies ds[k] != a by {
                if k < pos {
                    assert(cs[k] != a);
                } else {
                    assert(cs[k + 1] != a);
                }
            }
        },
        None => {},
    }
    assert(cur.wf()) by {
        assert(cur.spec_root_id().index == 0);
        assert(cur.spec_parent_of(0) is None) by {
            if a != 0 {
                assert(cur.spec_parent_of(0) == pre.spec_parent_of(0));
            }
        }
        assert forall|i: int, k: int|
            0 <= i < cur.spec_len() && 0 <= k < cur.spec_children_of(i).len() implies {
            let c = #[trigger] cur.spec_children_of(i)[k];
            &&& i < c < cur.spec_len()
            &&& cur.spec_parent_of(c) == Some(i)
        } by {
            let c = cur.spec_children_of(i)[k];
            match pre.spec_parent_of(a) {
                Some(p) => {
                    if i == p {
                        let cs = pre.spec_children_of(p);
                        let pos = cs.index_of(a);
                        assert(cur.spec_children_of(i)[k] == (if k < pos {
                            cs[k]
                        } else {
                            cs[k + 1]
                        }));
                        assert(c != a);
                        assert(pre.spec_parent_of(c) == Some(i));
                        assert(cur.spec_parent_of(c) == Some(i));
                    } else {
                        assert(cur.spec_children_of(i) == pre.spec_children_of(i));
                        assert(pre.spec_parent_of(c) == Some(i));
                        assert(c != a);
                        assert(cur.spec_parent_of(c) == Some(i));
                    }
                },
                None => {
                    assert(cur.spec_children_of(i) == pre.spec_children_of(i));
                    assert(pre.spec_parent_of(c) == Some(i));
                    assert(c != a) by {
                        if c == a {
                            assert(pre.spec_parent_of(a) is None);
                        }
                    }
                    assert(cur.spec_parent_of(c) == Some(i));
                },
            }
        }
        assert forall|i: int, k1: int, k2: int|
            0 <= i < cur.spec_len() && 0 <= k1 < cur.spec_children_of(i).len() && 0 <= k2
                < cur.spec_children_of(i).len() && k1 != k2 implies #[trigger] cur.spec_children_of(
            i,
        )[k1] != #[trigger] cur.spec_children_of(i)[k2] by {
            match pre.spec_parent_of(a) {
                Some(p) => {
                    if i == p {
                        let cs = pre.spec_children_of(p);
                        let pos = cs.index_of(a);
                        let o1: int = if k1 < pos { k1 } else { k1 + 1 };
                        let o2: int = if k2 < pos { k2 } else { k2 + 1 };
                        assert(cur.spec_children_of(i)[k1] == cs[o1]);
                        assert(cur.spec_children_of(i)[k2] == cs[o2]);
                        assert(o1 != o2);
                        assert(cs[o1] != cs[o2]);
                    } else {
                        assert(cur.spec_children_of(i) == pre.spec_children_of(i));
                    }
                },
                None => {
                    assert(cur.spec_children_of(i) == pre.spec_children_of(i));
                },
            }
        }
        assert forall|i: int, k1: int, k2: int|
            0 <= i < cur.spec_len() && 0 <= k1 < cur.spec_children_of(i).len() && 0 <= k2
                < cur.spec_children_of(i).len() && k1 != k2 implies cur.spec_node_name(
            #[trigger] cur.spec_children_of(i)[k1],
        ) != cur.spec_node_name(#[trigger] cur.spec_children_of(i)[k2]) by {
            match pre.spec_parent_of(a) {
                Some(p) => {
                    if i == p {
                        let cs = pre.spec_children_of(p);
                        let pos = cs.index_of(a);
                        let o1: int = if k1 < pos { k1 } else { k1 + 1 };
                        let o2: int = if k2 < pos { k2 } else { k2 + 1 };
                        assert(cur.spec_children_of(i)[k1] == cs[o1]);
                        assert(cur.spec_children_of(i)[k2] == cs[o2]);
                        assert(pre.spec_node_name(cs[o1]) != pre.spec_node_name(cs[o2]));
                        assert(0 <= cs[o1] < n && 0 <= cs[o2] < n);
                    } else {
                        assert(cur.spec_children_of(i) == pre.spec_children_of(i));
                        let c1 = pre.spec_children_of(i)[k1];
                        let c2 = pre.spec_children_of(i)[k2];
                        assert(pre.spec_node_name(c1) != pre.spec_node_name(c2));
                        assert(0 <= c1 < n && 0 <= c2 < n);
                    }
                },
                None => {
                    assert(cur.spec_children_of(i) == pre.spec_children_of(i));
                    let c1 = pre.spec_children_of(i)[k1];
                    let c2 = pre.spec_children_of(i)[k2];
                    assert(pre.spec_node_name(c1) != pre.spec_node_name(c2));
                    assert(0 <= c1 < n && 0 <= c2 < n);
                },
            }
        }
        assert forall|j: int|
            0 < j < cur.spec_len() implies match #[trigger] cur.spec_parent_of(j) {
            Some(q) => cur.spec_children_of(q).contains(j),
            None => true,
        } by {
            if j != a {
                match pre.spec_parent_of(j) {
                    Some(q) => {
                        let cs = pre.spec_children_of(q);
                        let k = choose|k: int| 0 <= k < cs.len() && cs[k] == j;
                        let detach = pre.spec_parent_of(a);
                        if detach == Some(q) {
                            let pos = cs.index_of(a);
                            assert(cs[pos] == a);
                            assert(k != pos);
                            let nk: int = if k < pos { k } else { k - 1 };
                            assert(cur.spec_children_of(q)[nk] == cs[k]);
                            assert(cur.spec_children_of(q).contains(j));
                        } else {
                            assert(cur.spec_children_of(q) == cs);
                            assert(cur.spec_children_of(q).contains(j));
                        }
                    },
                    None => {},
                }
            }
        }
        assert forall|j: int|
            0 <= j < cur.spec_len() implies match #[trigger] cur.spec_parent_of(j) {
            Some(q) => cur.spec_removed(j) <==> cur.spec_removed(q),
            None => true,
        } by {
            if j != a {
                match pre.spec_parent_of(j) {
                    Some(q) => {
                        assert(cur.spec_parent_of(j) == Some(q));
                        assert(0 <= q < j);
                        assert(pre.spec_removed(j) <==> pre.spec_removed(q));
                        assert(spec_in_subtree(pre, a, j) <==> (j == a || spec_in_subtree(
                            pre,
                            a,
                            q,
                        )));
                    },
                    None => {},
                }
            }
        }
    }
}

/// The position of the first entry of `cs` (a list of slot indices of `t`)
/// whose node is named `name`.
pub open spec fn spec_first_match(t: Tree, cs: Seq<int>, name: Seq<char>) -> Option<int>
    decreases cs.len(),
{
    if cs.len() == 0 {
        None
    } else if t.spec_node_name(cs[0]) == name {
        Some(0)
    } else {
        match spec_first_match(t, cs.drop_first(), name) {
            Some(k) => Some(k + 1),
            None => None,
        }
    }
}

/// A scan that stops at position `k` computes `spec_first_match`.
proof fn lemma_first_match_found(t: Tree, cs: Seq<int>, name: Seq<char>, k: int)
    requires
        0 <= k < cs.len(),
        t.spec_node_name(cs[k]) == name,
        forall|j: int| 0 <= j < k ==> t.spec_node_name(cs[j]) != name,
    ensures
        spec_first_match(t, cs, name) == Some(k),
    decreases cs.len(),
{
    if k > 0 {
        assert(cs.drop_first()[k - 1] == cs[k]);
        assert forall|j: int| 0 <= j < k - 1 implies t.spec_node_name(cs.drop_first()[j])
            != name by {
            assert(cs.drop_first()[j] == cs[j + 1]);
        }
        lemma_first_match_found(t, cs.drop_first(), name, k - 1);
    }
}

/// A scan with no hit means `spec_first_match` finds none either.
proof fn lemma_first_match_none_no_hit_rev(t: Tree, cs: Seq<int>, name: Seq<char>)
    requires
        forall|j: int| 0 <= j < cs.len() ==> t.spec_node_name(cs[j]) != name,
    ensures
        spec_first_match(t, cs, name) is None,
    decreases cs.len(),
{
    if cs.len() > 0 {
        assert forall|j: int| 0 <= j < cs.drop_first().len() implies t.spec_node_name(
            cs.drop_first()[j],
        ) != name by {
            assert(cs.drop_first()[j] == cs[j + 1]);
        }
        lemma_first_match_none_no_hit_rev(t, cs.drop_first(), name);
    }
}

/// When `spec_first_match` finds none, no entry bears the name.
proof fn lemma_first_match_none_no_hit(t: Tree, cs: Seq<int>, name: Seq<char>)
    requires
        spec_first_match(t, cs, name) is None,
    ensures
        forall|j: int| 0 <= j < cs.len() ==> t.spec_node_name(cs[j]) != name,
    decreases cs.len(),
{
    if cs.len() > 0 {
        lemma_first_match_none_no_hit(t, cs.drop_first(), name);
        assert forall|j: int| 0 <= j < cs.len() implies t.spec_node_name(cs[j]) != name by {
            if j > 0 {
                assert(cs.drop_first()[j - 1] == cs[j]);
            }
        }
    }
}

impl Tree {
    /// Whether the parent chain of slot `i` reaches the root slot.
    pub open spec fn spec_rooted(self, i: int) -> bool
        decreases i,
    {
        if i == 0 {
            true
        } else {
            match self.spec_parent_of(i) {
                Some(p) => 0 <= p < i && self.spec_rooted(p),
                None => false,
            }
        }
    }

    /// Whether every name along the parent chain of slot `i` is a usable path
    /// segment: non-empty and free of slashes.
    pub open spec fn spec_chain_ok(self, i: int) -> bool
        decreases i,
    {
        &&& spec_valid_segment(self.spec_node_name(i))
        &&& match self.spec_parent_of(i) {
            Some(p) => 0 <= p < i && self.spec_chain_ok(p),
            None => true,
        }
    }

    /// The names along the parent chain of slot `i`, topmost ancestor first.
    pub open spec fn spec_chain_names(self, i: int) -> Seq<Seq<char>>
        decreases i,
    {
        match self.spec_parent_of(i) {
            Some(p) => if 0 <= p < i {
                self.spec_chain_names(p).push(self.spec_node_name(i))
            } else {
                seq![self.spec_node_name(i)]
            },
            None => seq![self.spec_node_name(i)],
        }
    }
}

/// Whether a name can serve as one segment of a path: non-empty and without
/// slashes.
pub open spec fn spec_valid_segment(name: Seq<char>) -> bool {
    &&& name.len() > 0
    &&& forall|k: int| 0 <= k < name.len() ==> name[k] != '/'
}

/// Splitting `a + "/" + b` on slashes, for a slash-free `b`, appends `b` as
/// one further segment.
proof fn lemma_split_append_seg(a: Seq<char>, b: Seq<char>)
    requires
        forall|k: int| 0 <= k < b.len() ==> b[k] != '/',
    ensures
        spec_split_char(a + seq!['/'] + b, '/') == spec_split_char(a, '/').push(b),
    decreases b.len(),
{
    crate::text::lemma_split_char_len(a, '/');
    if b.len() == 0 {
        let s = a + seq!['/'] + b;
        assert(s =~= a.push('/'));
        assert(s.len() == a.len() + 1);
        assert(s.drop_last() =~= a);
        assert(s.last() == '/');
        assert(b =~= Seq::<char>::empty());
        assert(spec_split_char(s, '/') == spec_split_char(s.drop_last(), '/').push(
            Seq::<char>::empty(),
        ));
        assert(spec_split_char(s, '/') =~= spec_split_char(a, '/').push(b));
    } else {
        let s = a + seq!['/'] + b;
        let s0 = a + seq!['/'] + b.drop_last();
        assert(s.drop_last() =~= s0);
        assert(s.last() == b.last());
        assert(b.last() != '/');
        lemma_split_append_seg(a, b.drop_last());
        let rest = spec_split_char(s0, '/');
        crate::text::lemma_split_char_len(s0, '/');
        assert(rest == spec_split_char(a, '/').push(b.drop_last()));
        assert(rest.last() == b.drop_last());
        assert(spec_split_char(s, '/') == rest.update(rest.len() - 1, rest.last().push(b.last())));
        assert(rest.last().push(b.last()) =~= b);
        assert(rest.update(rest.len() - 1, b) =~= spec_split_char(a, '/').push(b));
    }
}

/// The full path of a rooted node splits into one empty lead segment followed
/// by the chain of names.
proof fn lemma_path_splits_into_chain(t: Tree, i: int)
    requires
        t.wf(),
        0 <= i < t.spec_len(),
        t.spec_rooted(i),
        t.spec_chain_ok(i),
    ensures
        spec_split_char(t.spec_path_of(i), '/') == seq![Seq::<char>::empty()].add(
            t.spec_chain_names(i),
        ),
    decreases i,
{
    if i == 0 {
        let name = t.spec_node_name(0);
        assert(t.spec_path_of(0) =~= Seq::<char>::empty() + seq!['/'] + name);
        lemma_split_append_seg(Seq::<char>::empty(), name);
        assert(spec_split_char(Seq::<char>::empty(), '/') =~= seq![Seq::<char>::empty()]);
        assert(spec_split_char(t.spec_path_of(0), '/') =~= seq![Seq::<char>::empty()].add(
            seq![name],
        ));
    } else {
        let p = t.spec_parent_of(i).unwrap();
        lemma_path_splits_into_chain(t, p);
        lemma_split_append_seg(t.spec_path_of(p), t.spec_node_name(i));
        assert(spec_split_char(t.spec_path_of(i), '/') =~= seq![Seq::<char>::empty()].add(
            t.spec_chain_names(i),
        ));
    }
}

/// Under distinct sibling names, the first child bearing the name of a known
/// child is that child itself.
proof fn lemma_first_match_hits_child(t: Tree, parent: int, c: int)
    requires
        t.wf(),
        0 <= parent < t.spec_len(),
        0 <= c < t.spec_len(),
        t.spec_parent_of(c) == Some(parent),
    ensures
        match t.spec_first_child_named(parent, t.spec_node_name(c)) {
            Some(k) => 0 <= k < t.spec_children_of(parent).len() && t.spec_children_of(parent)[k]
                == c,
            None => false,
        },
{
    let cs = t.spec_children_of(parent);
    assert(c != 0);
    assert(cs.contains(c));
    let k = choose|k: int| 0 <= k < cs.len() && cs[k] == c;
    assert forall|j: int| 0 <= j < k implies t.spec_node_name(cs[j]) != t.spec_node_name(
        cs[k],
    ) by {}
    lemma_first_match_found(t, cs, t.spec_node_name(c), k);
}

/// Resolving one further segment walks one step down.
proof fn lemma_resolve_push(t: Tree, cur: int, segs: Seq<Seq<char>>, x: Seq<char>)
    ensures
        t.spec_resolve_from(cur, segs.push(x)) == (match t.spec_resolve_from(cur, segs) {
            Some(mid) => match t.spec_first_child_named(mid, x) {
                Some(k) => Some(t.spec_children_of(mid)[k]),
                None => None,
            },
            None => None,
        }),
    decreases segs.len(),
{
    let s1 = segs.push(x);
    if segs.len() == 0 {
        assert(s1.len() == 1);
        assert(s1[0] == x);
        assert(s1.drop_first() =~= Seq::<Seq<char>>::empty());
        match t.spec_first_child_named(cur, x) {
            Some(k) => {
                assert(t.spec_resolve_from(cur, s1) == t.spec_resolve_from(
                    t.spec_children_of(cur)[k],
                    s1.drop_first(),
                ));
                assert(t.spec_resolve_from(t.spec_children_of(cur)[k], s1.drop_first()) == Some(
                    t.spec_children_of(cur)[k],
                ));
            },
            None => {
                assert(t.spec_resolve_from(cur, s1) is None);
            },
        }
        assert(t.spec_resolve_from(cur, segs) == Some(cur));
    } else {
        assert(s1[0] == segs[0]);
        assert(s1.drop_first() =~= segs.drop_first().push(x));
        match t.spec_first_child_named(cur, segs[0]) {
            Some(k) => {
                lemma_resolve_push(t, t.spec_children_of(cur)[k], segs.drop_first(), x);
                assert(t.spec_resolve_from(cur, s1) == t.spec_resolve_from(
                    t.spec_children_of(cur)[k],
                    segs.drop_first().push(x),
                ));
                assert(t.spec_resolve_from(cur, segs) == t.spec_resolve_from(
                    t.spec_children_of(cur)[k],
                    segs.drop_first(),
                ));
            },
            None => {
                assert(t.spec_resolve_from(cur, s1) is None);
                assert(t.spec_resolve_from(cur, segs) is None);
            },
        }
    }
}

/// The chain of names of a rooted node, taken from below the root, resolves
/// back to the node.
proof fn lemma_chain_resolves(t: Tree, i: int)
    requires
        t.wf(),
        0 <= i < t.spec_len(),
        t.spec_rooted(i),
    ensures
        t.spec_chain_names(i).len() >= 1,
        t.spec_chain_names(i)[0] == t.spec_node_name(0),
        t.spec_chain_names(i).last() == t.spec_node_name(i),
        t.spec_resolve_from(0, t.spec_chain_names(i).drop_first()) == Some(i),
    decreases i,
{
    if i == 0 {
        assert(t.spec_chain_names(0) =~= seq![t.spec_node_name(0)]);
        assert(t.spec_chain_names(0).drop_first() =~= Seq::<Seq<char>>::empty());
    } else {
        let p = t.spec_parent_of(i).unwrap();
        lemma_chain_resolves(t, p);
        let names = t.spec_chain_names(p);
        assert(t.spec_chain_names(i) == names.push(t.spec_node_name(i)));
        assert(t.spec_chain_names(i).drop_first() =~= names.drop_first().push(
            t.spec_node_name(i),
        ));
        lemma_resolve_push(t, 0, names.drop_first(), t.spec_node_name(i));
        lemma_first_match_hits_child(t, p, i);
        let k = t.spec_first_child_named(p, t.spec_node_name(i)).unwrap();
        assert(t.spec_children_of(p)[k] == i);
        assert(t.spec_chain_names(i)[0] == names[0]);
    }
}

/// A rooted node whose tree carries the canonical root name, and whose chain
/// of names holds usable segments, is found again under its own full path:
/// resolving `node_path` of the node yields exactly its id. In particular a
/// freshly added child is found under `node_path(parent) + "/" + name`.
pub proof fn lemma_path_resolves_to_self(t: Tree, i: int)
    requires
        t.wf(),
        0 <= i < t.spec_len(),
        t.spec_rooted(i),
        t.spec_chain_ok(i),
        t.spec_node_name(0) == "root"@,
    ensures
        t.spec_get_node_id(t.spec_path_of(i)) == Some(i),
        match t.spec_parent_of(i) {
            Some(p) => t.spec_path_of(i) == t.spec_path_of(p) + seq!['/'] + t.spec_node_name(i),
            None => true,
        },
{
    lemma_path_splits_into_chain(t, i);
    lemma_chain_resolves(t, i);
    let raw = spec_split_char(t.spec_path_of(i), '/');
    let names = t.spec_chain_names(i);
    assert(raw == seq![Seq::<char>::empty()].add(names));
    assert(raw[0].len() == 0);
    assert(raw.drop_first() =~= names);
    assert(names.last() == t.spec_node_name(i));
    assert(names.last().len() > 0) by {
        assert(spec_valid_segment(t.spec_node_name(i)));
    }
    assert(Tree::spec_path_segments(t.spec_path_of(i)) == names);
    assert(names[0] == "root"@);
}

impl Tree {
    /// The nodes stored under a node's children, in insertion order.
    pub fn children(&self, node_id: TreeNodeId) -> (r: Vec<&Node>)
        requires
            self.wf(),
            node_id.index < self.spec_len(),
        ensures
            r@.len() == self.spec_children_of(node_id.index as int).len(),
            forall|k: int|
                0 <= k < r@.len() ==> *r@[k] == self.spec_node(
                    self.spec_children_of(node_id.index as int)[k],
                ),
    {
        let mut nodes: Vec<&Node> = Vec::new();
        let n = self.slots[node_id.index].children.len();
        let mut k: usize = 0;
        while k < n
            invariant
                k <= n,
                self.wf(),
                node_id.index < self.spec_len(),
                n == self.spec_children_of(node_id.index as int).len(),
                nodes@.len() == k,
                forall|j: int|
                    0 <= j < k ==> *nodes@[j] == self.spec_node(
                        self.spec_children_of(node_id.index as int)[j],
                    ),
            decreases n - k,
        {
            let c = self.slots[node_id.index].children[k];
            assert(c == self.spec_children_of(node_id.index as int)[k as int]);
            nodes.push(&self.slots[c].node);
            k = k + 1;
        }
        nodes
    }

    /// Attach an already created node as a child of `parent_id`. The child
    /// must be detached, younger than its parent, and must not clash with a
    /// sibling's name; otherwise the tree is left unchanged and an error
    /// comes back.
    pub fn add_child_from_id(&mut self, parent_id: TreeNodeId, node_id: TreeNodeId) -> (r: Result<
        (),
        RustructError,
    >)
        requires
            old(self).wf(),
        ensures
            final(self).wf(),
            match r {
                Ok(()) => {
                    &&& parent_id.index < old(self).spec_len()
                    &&& node_id.index < old(self).spec_len()
                    &&& parent_id.index < node_id.index
                    &&& !old(self).spec_removed(parent_id.index as int)
                    &&& !old(self).spec_removed(node_id.index as int)
                    &&& old(self).spec_parent_of(node_id.index as int) is None
                    &&& node_id.index != 0
                    &&& !old(self).spec_has_child_named(
                        parent_id.index as int,
                        old(self).spec_node_name(node_id.index as int),
                    )
                    &&& final(self).spec_len() == old(self).spec_len()
                    &&& final(self).spec_root_id() == old(self).spec_root_id()
                    &&& final(self).spec_parent_of(node_id.index as int) == Some(
                        parent_id.index as int,
                    )
                    &&& final(self).spec_children_of(parent_id.index as int) == old(
                        self,
                    ).spec_children_of(parent_id.index as int).push(node_id.index as int)
                    &&& forall|i: int|
                        0 <= i < old(self).spec_len() ==> {
                            &&& #[trigger] final(self).spec_node(i) == old(self).spec_node(i)
                            &&& final(self).spec_removed(i) == old(self).spec_removed(i)
                            &&& (i != node_id.index ==> final(self).spec_parent_of(i) == old(
                                self,
                            ).spec_parent_of(i))
                            &&& (i != parent_id.index ==> final(self).spec_children_of(i) == old(
                                self,
                            ).spec_children_of(i))
                        }
                },
                Err(_) => *final(self) == *old(self),
            },
    {
        if parent_id.index >= self.slots.len() || node_id.index >= self.slots.len() {
            return Err(RustructError::StaleParent);
        }
        if parent_id.index >= node_id.index || node_id.index == 0 {
            return Err(RustructError::StaleParent);
        }
        if self.slots[parent_id.index].removed || self.slots[node_id.index].removed {
            return Err(RustructError::StaleParent);
        }
        if self.slots[node_id.index].parent.is_some() {
            return Err(RustructError::StaleParent);
        }
        let name = self.slots[node_id.index].node.name();
        if self.find_child_named(parent_id.index, name.as_str()).is_some() {
            return Err(RustructError::DuplicateNodeName);
        }
        let ghost pre = *self;
        let ghost pi = parent_id.index as int;
        let ghost ci = node_id.index as int;
        self.slots[node_id.index].parent = Some(parent_id.index);
        self.slots[parent_id.index].children.push(node_id.index);
        proof {
            let n = pre.spec_len();
            lemma_first_match_none_no_hit(pre, pre.spec_children_of(pi), pre.spec_node_name(ci));
            assert(self.slots@.len() == n);
            assert forall|i: int| 0 <= i < n implies #[trigger] self.spec_node(i) == pre.spec_node(
                i,
            ) by {
                if i != pi && i != ci {
                    assert(self.slots@[i] == pre.slots@[i]);
                }
            }
            assert forall|i: int| 0 <= i < n implies #[trigger] self.spec_node_name(i)
                == pre.spec_node_name(i) by {
                assert(self.spec_node(i) == pre.spec_node(i));
            }
            assert forall|i: int| 0 <= i < n implies #[trigger] self.spec_removed(i)
                == pre.spec_removed(i) by {
                if i != pi && i != ci {
                    assert(self.slots@[i] == pre.slots@[i]);
                }
            }
            assert forall|i: int| 0 <= i < n && i != ci implies #[trigger] self.spec_parent_of(i)
                == pre.spec_parent_of(i) by {
                if i != pi {
                    assert(self.slots@[i] == pre.slots@[i]);
                }
            }
            assert forall|i: int| 0 <= i < n && i != pi implies #[trigger] self.spec_children_of(i)
                == pre.spec_children_of(i) by {
                if i != ci {
                    assert(self.slots@[i] == pre.slots@[i]);
                }
            }
            assert(self.spec_parent_of(ci) == Some(pi));
            assert(self.spec_children_of(pi) =~= pre.spec_children_of(pi).push(ci));
            assert(self.wf()) by {
                assert forall|i: int, k: int|
                    0 <= i < self.spec_len() && 0 <= k < self.spec_children_of(i).len() implies {
                    let c = #[trigger] self.spec_children_of(i)[k];
                    &&& i < c < self.spec_len()
                    &&& self.spec_parent_of(c) == Some(i)
                } by {
                    if i == pi {
                        let cs = pre.spec_children_of(pi);
                        if k < cs.len() {
                            assert(self.spec_children_of(i)[k] == cs[k]);
                            assert(cs[k] != ci) by {
                                if cs[k] == ci {
                                    assert(pre.spec_parent_of(ci) == Some(pi));
                                }
                            }
                            assert(self.spec_parent_of(cs[k]) == pre.spec_parent_of(cs[k]));
                        } else {
                            assert(self.spec_children_of(i)[k] == ci);
                        }
                    } else {
                        assert(self.spec_children_of(i) == pre.spec_children_of(i));
                        let c = self.spec_children_of(i)[k];
                        assert(pre.spec_parent_of(c) == Some(i));
                        assert(c != ci) by {
                            if c == ci {
                                assert(pre.spec_parent_of(ci) == Some(i));
                            }
                        }
                        assert(self.spec_parent_of(c) == pre.spec_parent_of(c));
                    }
                }
                assert forall|i: int, k1: int, k2: int|
                    0 <= i < self.spec_len() && 0 <= k1 < self.spec_children_of(i).len() && 0 <= k2
                        < self.spec_children_of(i).len() && k1 != k2 implies #[trigger] self.spec_children_of(
                    i,
                )[k1] != #[trigger] self.spec_children_of(i)[k2] by {
                    if i == pi {
                        let cs = pre.spec_children_of(pi);
                        if k1 < cs.len() && k2 < cs.len() {
                        } else {
                            assert forall|k: int| 0 <= k < cs.len() implies #[trigger] cs[k]
                                != ci by {
                                if cs[k] == ci {
                                    assert(pre.spec_parent_of(ci) == Some(pi));
                                }
                            }
                        }
                    } else {
                        assert(self.spec_children_of(i) == pre.spec_children_of(i));
                    }
                }
                assert forall|i: int, k1: int, k2: int|
                    0 <= i < self.spec_len() && 0 <= k1 < self.spec_children_of(i).len() && 0 <= k2
                        < self.spec_children_of(i).len() && k1 != k2 implies self.spec_node_name(
                    #[trigger] self.spec_children_of(i)[k1],
                ) != self.spec_node_name(#[trigger] self.spec_children_of(i)[k2]) by {
                    if i == pi {
                        let cs = pre.spec_children_of(pi);
                        if k1 < cs.len() && k2 < cs.len() {
                            assert(pre.spec_node_name(cs[k1]) != pre.spec_node_name(cs[k2]));
                        } else if k1 < cs.len() {
                            assert(self.spec_children_of(i)[k2] == ci);
                            assert(pre.spec_node_name(cs[k1]) != pre.spec_node_name(ci));
                        } else if k2 < cs.len() {
                            assert(self.spec_children_of(i)[k1] == ci);
                            assert(pre.spec_node_name(cs[k2]) != pre.spec_node_name(ci));
                        }
                    } else {
                        assert(self.spec_children_of(i) == pre.spec_children_of(i));
                        let cs = pre.spec_children_of(i);
                        assert(pre.spec_node_name(cs[k1]) != pre.spec_node_name(cs[k2]));
                    }
                }
                assert forall|j: int|
                    0 < j < self.spec_len() implies match #[trigger] self.spec_parent_of(j) {
                    Some(q) => self.spec_children_of(q).contains(j),
                    None => true,
                } by {
                    if j == ci {
                        let cs = self.spec_children_of(pi);
                        assert(cs[cs.len() - 1] == j);
                        assert(cs.contains(j));
                    } else {
                        match pre.spec_parent_of(j) {
                            Some(q) => {
                                let cs = pre.spec_children_of(q);
                                let k = choose|k: int| 0 <= k < cs.len() && cs[k] == j;
                                if q == pi {
                                    assert(self.spec_children_of(q)[k] == j);
                                } else {
                                    assert(self.spec_children_of(q) == cs);
                                }
                                assert(self.spec_children_of(q).contains(j));
                            },
                            None => {},
                        }
                    }
                }
                assert forall|j: int|
                    0 <= j < self.spec_len() implies match #[trigger] self.spec_parent_of(j) {
                    Some(q) => self.spec_removed(j) <==> self.spec_removed(q),
                    None => true,
                } by {
                    if j == ci {
                        assert(!pre.spec_removed(ci) && !pre.spec_removed(pi));
                    } else {
                        match pre.spec_parent_of(j) {
                            Some(q) => {
                                assert(pre.spec_removed(j) <==> pre.spec_removed(q));
                            },
                            None => {},
                        }
                    }
                }
            }
        }
        Ok(())
    }

    /// Exactly the subtree below `base`, listed in increasing id order.
    pub open spec fn spec_descendant_list(self, base: int, ids: Seq<TreeNodeId>) -> bool {
        &&& forall|k1: int, k2: int|
            0 <= k1 < k2 < ids.len() ==> #[trigger] ids[k1].index < #[trigger] ids[k2].index
        &&& forall|k: int|
            0 <= k < ids.len() ==> spec_in_subtree(self, base, #[trigger] ids[k].index as int)
                && ids[k].index < self.spec_len()
        &&& forall|j: int|
            0 <= j < self.spec_len() && spec_in_subtree(self, base, j) ==> exists|k: int|
                0 <= k < ids.len() && #[trigger] ids[k].index == j
    }

    /// The ids of a node and all its descendants, in increasing id order. The
    /// start is the root, or the node a path resolves to; nothing when the
    /// path does not resolve.
    pub fn children_rec(&self, root: Option<&str>) -> (r: Option<Vec<TreeNodeId>>)
        requires
            self.wf(),
        ensures
            match r {
                Some(ids) => {
                    let base = match root {
                        Some(path) => self.spec_get_node_id(path@).unwrap(),
                        None => 0,
                    };
                    &&& (match root {
                        Some(path) => self.spec_get_node_id(path@) is Some,
                        None => true,
                    })
                    &&& self.spec_descendant_list(base, ids@)
                },
                None => root is Some && self.spec_get_node_id(root.unwrap()@) is None,
            },
    {
        let base: usize = match root {
            Some(path) => match self.get_node_id(path) {
                Some(id) => id.index,
                None => {
                    return None;
                },
            },
            None => self.root_id.index,
        };
        let n = self.slots.len();
        let mut inside: Vec<bool> = Vec::new();
        let mut j: usize = 0;
        while j < n
            invariant
                j <= n,
                self.wf(),
                base < self.spec_len(),
                n == self.spec_len(),
                inside@.len() == j,
                forall|k: int|
                    0 <= k < j ==> (#[trigger] inside@[k] <==> spec_in_subtree(
                        *self,
                        base as int,
                        k,
                    )),
            decreases n - j,
        {
            let is_in: bool = if j == base {
                true
            } else {
                match self.slots[j].parent {
                    Some(p) => {
                        assert(self.spec_parent_of(j as int) == Some(p as int));
                        assert(0 <= (p as int) < j as int);
                        inside[p]
                    },
                    None => false,
                }
            };
            proof {
                if j != base {
                    match self.spec_parent_of(j as int) {
                        Some(p) => {},
                        None => {
                            assert(!spec_in_subtree(*self, base as int, j as int));
                        },
                    }
                }
            }
            inside.push(is_in);
            j = j + 1;
        }
        let mut ids: Vec<TreeNodeId> = Vec::new();
        let mut j: usize = 0;
        while j < n
            invariant
                j <= n,
                self.wf(),
                base < self.spec_len(),
                n == self.spec_len(),
                inside@.len() == n,
                forall|k: int|
                    0 <= k < n ==> (#[trigger] inside@[k] <==> spec_in_subtree(
                        *self,
                        base as int,
                        k,
                    )),
                forall|k1: int, k2: int|
                    0 <= k1 < k2 < ids@.len() ==> #[trigger] ids@[k1].index
                        < #[trigger] ids@[k2].index,
                forall|k: int| 0 <= k < ids@.len() ==> #[trigger] ids@[k].index < j,
                forall|k: int|
                    0 <= k < ids@.len() ==> spec_in_subtree(
                        *self,
                        base as int,
                        #[trigger] ids@[k].index as int,
                    ),
                forall|i: int|
                    0 <= i < j && spec_in_subtree(*self, base as int, i) ==> exists|k: int|
                        0 <= k < ids@.len() && #[trigger] ids@[k].index == i,
            decreases n - j,
        {
            let ghost ids0 = ids@;
            if inside[j] {
                ids.push(TreeNodeId { index: j });
            }
            proof {
                assert forall|i: int|
                    0 <= i <= j as int && spec_in_subtree(*self, base as int, i) implies exists|
                    k: int,
                |
                    0 <= k < ids@.len() && #[trigger] ids@[k].index == i by {
                    if i == j as int {
                        assert(inside@[j as int]);
                        assert(ids@[ids@.len() - 1].index == j);
                    } else {
                        let k = choose|k: int| 0 <= k < ids0.len() && #[trigger] ids0[k].index == i;
                        assert(ids@[k] == ids0[k]);
                        assert(ids@[k].index == i);
                    }
                }
            }
            j = j + 1;
        }
        proof {
            assert(self.spec_descendant_list(base as int, ids@));
        }
        Some(ids)
    }
}

/// What a listing reports of one child: its name, its id, and whether it has
/// children of its own.
#[derive(Debug)]
pub struct ChildInfo {
    /// The child's name.
    pub name: String,
    /// The child's id.
    pub id: TreeNodeId,
    /// Whether the child has children itself.
    pub has_children: bool,
}

/// Whether a child listing is ordered by ASCII-lowercased name.
pub open spec fn spec_child_infos_sorted(r: Seq<ChildInfo>) -> bool {
    forall|k1: int, k2: int|
        0 <= k1 < k2 < r.len() ==> spec_lex_le(
            spec_lower(#[trigger] r[k1].name@),
            spec_lower(#[trigger] r[k2].name@),
        )
}

impl Tree {
    /// Whether `info` describes the child in slot `c` of this tree.
    pub open spec fn spec_child_info_of(&self, info: ChildInfo, c: int) -> bool {
        &&& info.id.index == c
        &&& info.name@ == self.spec_node_name(c)
        &&& (info.has_children <==> self.spec_children_of(c).len() > 0)
    }

    /// One entry per child of the node, ordered by ASCII-lowercased name:
    /// each child's name, id and whether it has children of its own. The
    /// listed ids are exactly the node's children.
    #[verifier::rlimit(100)]
    pub fn children_id_name(&self, node_id: TreeNodeId) -> (r: Vec<ChildInfo>)
        requires
            self.wf(),
            node_id.index < self.spec_len(),
        ensures
            r@.len() == self.spec_children_of(node_id.index as int).len(),
            spec_child_infos_sorted(r@),
            forall|k: int|
                0 <= k < r@.len() ==> self.spec_child_info_of(
                    #[trigger] r@[k],
                    r@[k].id.index as int,
                ) && r@[k].id.index < self.spec_len(),
            spec_info_ids(r@).to_multiset() == self.spec_children_of(
                node_id.index as int,
            ).to_multiset(),
    {
        broadcast use vstd::seq_lib::group_seq_lib_default;

        let ghost cs = self.spec_children_of(node_id.index as int);
        let n = self.slots[node_id.index].children.len();
        let mut infos: Vec<ChildInfo> = Vec::new();
        let mut t: usize = 0;
        proof {
            assert(spec_info_ids(infos@) =~= Seq::<int>::empty());
            assert(cs.take(0) =~= Seq::<int>::empty());
        }
        while t < n
            invariant
                self.wf(),
                node_id.index < self.spec_len(),
                cs == self.spec_children_of(node_id.index as int),
                t <= n,
                n == cs.len(),
                infos@.len() == t,
                spec_child_infos_sorted(infos@),
                forall|k: int|
                    0 <= k < infos@.len() ==> self.spec_child_info_of(
                        #[trigger] infos@[k],
                        infos@[k].id.index as int,
                    ) && infos@[k].id.index < self.spec_len(),
                spec_info_ids(infos@).to_multiset() == cs.take(t as int).to_multiset(),
            decreases n - t,
        {
            let c = self.slots[node_id.index].children[t];
            proof {
                assert(c == cs[t as int]);
                assert((node_id.index as int) < c < self.spec_len());
            }
            let name = self.slots[c].node.name();
            let has_children = self.slots[c].children.len() > 0;
            let info = ChildInfo { name, id: TreeNodeId { index: c }, has_children };
            // find the first position whose entry sorts strictly after the
            // new one, and put the new entry there
            let mut p: usize = 0;
            let len = infos.len();
            while p < len && lower_lex_le(infos[p].name.as_str(), info.name.as_str())
                invariant
                    p <= len,
                    len == infos@.len(),
                    forall|k: int|
                        0 <= k < p ==> spec_lex_le(
                            spec_lower(#[trigger] infos@[k].name@),
                            spec_lower(info.name@),
                        ),
                decreases len - p,
            {
                p = p + 1;
            }
            proof {
                if p < len {
                    lemma_lex_le_total(spec_lower(infos@[p as int].name@), spec_lower(info.name@));
                }
            }
            let ghost before = infos@;
            infos.insert(p, info);
            proof {
                let now = infos@;
                assert(now == before.insert(p as int, info));
                assert forall|k: int| 0 <= k < now.len() implies #[trigger] now[k] == (if k
                    < p as int {
                    before[k]
                } else if k == p as int {
                    info
                } else {
                    before[k - 1]
                }) by {}
                assert(spec_child_infos_sorted(now)) by {
                    assert forall|k1: int, k2: int|
                        0 <= k1 < k2 < now.len() implies spec_lex_le(
                        spec_lower(#[trigger] now[k1].name@),
                        spec_lower(#[trigger] now[k2].name@),
                    ) by {
                        if k1 == p as int {
                            lemma_lex_le_total(
                                spec_lower(before[p as int].name@),
                                spec_lower(info.name@),
                            );
                            if k2 - 1 > p as int {
                                lemma_lex_le_trans(
                                    spec_lower(info.name@),
                                    spec_lower(before[p as int].name@),
                                    spec_lower(before[k2 - 1].name@),
                                );
                            }
                        }
                    }
                }
                // one new id joins the collection
                assert(spec_info_ids(now) =~= spec_info_ids(before).insert(p as int, c as int));
                let mapped = spec_info_ids(before);
                let extended = mapped.insert(p as int, c as int);
                mapped.to_multiset_ensures();
                extended.to_multiset_ensures();
                assert(extended.remove(p as int) =~= mapped);
                assert(extended[p as int] == c as int);
                assert(extended.to_multiset().remove(c as int) == mapped.to_multiset());
                assert(extended.to_multiset().count(c as int) > 0) by {
                    assert(extended.contains(c as int));
                }
                assert(extended.to_multiset() =~= mapped.to_multiset().insert(c as int));
                cs.take(t as int).to_multiset_ensures();
                assert(cs.take(t as int + 1) =~= cs.take(t as int).push(c as int));
                assert(cs.take(t as int + 1).to_multiset() =~= cs.take(
                    t as int,
                ).to_multiset().insert(c as int));
            }
            t = t + 1;
        }
        proof {
            assert(cs.take(n as int) =~= cs);
        }
        infos
    }
}

/// The ids named by a child listing, in listing order.
pub open spec fn spec_info_ids(r: Seq<ChildInfo>) -> Seq<int> {
    r.map_values(|info: ChildInfo| info.id.index as int)
}

/// Two trees that agree on names and parent links up to slot `i` give that/// Two trees that agree on names and parent links up to slot `i` give that
/// slot the same path, the same rootedness and the same chain of names.
proof fn lemma_path_of_eq(t1: Tree, t2: Tree, i: int)
    requires
        0 <= i,
        forall|j: int| 0 <= j <= i ==> #[trigger] t1.spec_node_name(j) == t2.spec_node_name(j),
        forall|j: int| 0 <= j <= i ==> #[trigger] t1.spec_parent_of(j) == t2.spec_parent_of(j),
    ensures
        t1.spec_path_of(i) == t2.spec_path_of(i),
        t1.spec_rooted(i) == t2.spec_rooted(i),
        t1.spec_chain_ok(i) == t2.spec_chain_ok(i),
    decreases i,
{
    match t1.spec_parent_of(i) {
        Some(p) => {
            if 0 <= p < i {
                lemma_path_of_eq(t1, t2, p);
            }
        },
        None => {},
    }
}

/// A path whose last segment names no child of the node the rest of the path
/// reaches resolves to nothing.
pub proof fn lemma_no_such_child_lookup_fails(t: Tree, p: int, name: Seq<char>)
    requires
        t.wf(),
        0 <= p < t.spec_len(),
        t.spec_rooted(p),
        t.spec_chain_ok(p),
        t.spec_node_name(0) == "root"@,
        spec_valid_segment(name),
        t.spec_first_child_named(p, name) is None,
    ensures
        t.spec_get_node_id(t.spec_path_of(p) + seq!['/'] + name) is None,
{
    lemma_path_splits_into_chain(t, p);
    lemma_chain_resolves(t, p);
    lemma_split_append_seg(t.spec_path_of(p), name);
    let path = t.spec_path_of(p) + seq!['/'] + name;
    let names = t.spec_chain_names(p);
    let raw = spec_split_char(path, '/');
    assert(raw == (seq![Seq::<char>::empty()].add(names)).push(name));
    assert(raw[0].len() == 0);
    assert(raw.drop_first() =~= names.push(name));
    assert(raw.drop_first().last() == name);
    assert(Tree::spec_path_segments(path) == names.push(name));
    assert(names.push(name)[0] == names[0]);
    assert(names[0] == "root"@);
    lemma_resolve_push(t, 0, names.drop_first(), name);
    assert(names.push(name).drop_first() =~= names.drop_first().push(name));
}

/// Removing a node strips it from its parent's children, so the path that
/// found it resolves to nothing afterwards, while a live sibling is left
/// unremoved and thus still answers under its own id. `pre` and `post` are
/// the tree before and after `remove`, related as `remove` ensures.
pub proof fn lemma_remove_child_effects(pre: Tree, post: Tree, c: int, sib: int)
    requires
        pre.wf(),
        post.wf(),
        0 <= c < pre.spec_len(),
        0 <= sib < pre.spec_len(),
        sib != c,
        pre.spec_parent_of(c) is Some,
        !pre.spec_removed(c),
        !pre.spec_removed(sib),
        pre.spec_parent_of(sib) == pre.spec_parent_of(c) || pre.spec_parent_of(sib) is None,
        pre.spec_rooted(c),
        pre.spec_chain_ok(c),
        pre.spec_node_name(0) == "root"@,
        post.spec_len() == pre.spec_len(),
        forall|j: int|
            0 <= j < pre.spec_len() ==> #[trigger] post.spec_node(j) == pre.spec_node(j),
        forall|j: int|
            0 <= j < pre.spec_len() && j != c ==> #[trigger] post.spec_parent_of(j)
                == pre.spec_parent_of(j),
        forall|j: int|
            0 <= j < pre.spec_len() ==> (#[trigger] post.spec_removed(j) <==> (pre.spec_removed(j)
                || spec_in_subtree(pre, c, j))),
        post.spec_children_of(pre.spec_parent_of(c).unwrap()) == pre.spec_children_of(
            pre.spec_parent_of(c).unwrap(),
        ).remove(pre.spec_children_of(pre.spec_parent_of(c).unwrap()).index_of(c)),
    ensures
        post.spec_get_node_id(pre.spec_path_of(pre.spec_parent_of(c).unwrap()) + seq!['/']
            + pre.spec_node_name(c)) is None,
        !post.spec_removed(sib),
{
    let p = pre.spec_parent_of(c).unwrap();
    let name = pre.spec_node_name(c);
    assert(0 <= p < c);
    assert forall|j: int| 0 <= j < pre.spec_len() implies #[trigger] post.spec_node_name(j)
        == pre.spec_node_name(j) by {
        assert(post.spec_node(j) == pre.spec_node(j));
    }
    // the sibling is not inside the removed subtree
    assert(!spec_in_subtree(pre, c, sib)) by {
        if spec_in_subtree(pre, c, sib) {
            match pre.spec_parent_of(sib) {
                Some(q) => {
                    assert(q == p);
                    if spec_in_subtree(pre, c, p) {
                        lemma_in_subtree_ge(pre, c, p);
                    }
                },
                None => {},
            }
        }
    }
    // the parent's chain is untouched, so its path still resolves to it
    lemma_path_of_eq(post, pre, p);
    assert(pre.spec_chain_ok(p)) by {
        assert(pre.spec_chain_ok(c));
    }
    assert(post.spec_rooted(p));
    assert(post.spec_chain_ok(p));
    assert(post.spec_node_name(0) == "root"@);
    // no child of that name is left under the parent
    let cs = pre.spec_children_of(p);
    let pos = cs.index_of(c);
    assert(cs.contains(c)) by {
        assert(0 < c < pre.spec_len());
    }
    assert(0 <= pos < cs.len() && cs[pos] == c) by {
        assert(exists|k: int| 0 <= k < cs.len() && cs[k] == c);
    }
    let ds = post.spec_children_of(p);
    assert(ds == cs.remove(pos));
    assert forall|k: int| 0 <= k < ds.len() implies post.spec_node_name(#[trigger] ds[k])
        != name by {
        let o: int = if k < pos {
            k
        } else {
            k + 1
        };
        assert(ds[k] == cs[o]);
        assert(o != pos);
        assert(pre.spec_node_name(cs[o]) != pre.spec_node_name(cs[pos]));
        assert(0 <= cs[o] < pre.spec_len());
    }
    lemma_first_match_none_no_hit_rev(post, ds, name);
    assert(spec_valid_segment(name)) by {
        assert(pre.spec_chain_ok(c));
    }
    lemma_no_such_child_lookup_fails(post, p, name);
    assert(post.spec_path_of(p) == pre.spec_path_of(p));
}

/// A path designating one attribute within one node, written
/// `nodePath:attributeName`.
#[derive(Debug, Clone)]
pub struct AttributePath {
    /// The node holding the attribute.
    pub node_id: TreeNodeId,
    /// The name of the attribute within that node's store.
    pub attribute_name: String,
}

impl AttributePath {
    /// Build an attribute path from the `nodePath:attributeName` syntax;
    /// nothing unless the text holds exactly one colon and the node path
    /// resolves.
    pub fn new(tree: &Tree, path: &str) -> (r: Option<AttributePath>)
        requires
            tree.wf(),
        ensures
            match r {
                Some(ap) => {
                    &&& spec_split_char(path@, ':').len() == 2
                    &&& tree.spec_get_node_id(spec_split_char(path@, ':')[0]) == Some(
                        ap.node_id.index as int,
                    )
                    &&& ap.attribute_name@ == spec_split_char(path@, ':')[1]
                },
                None => spec_split_char(path@, ':').len() != 2 || tree.spec_get_node_id(
                    spec_split_char(path@, ':')[0],
                ) is None,
            },
    {
        let splitted = split_on_char(path, ':');
        if splitted.len() != 2 {
            return None;
        }
        match tree.get_node_id(splitted[0].as_str()) {
            Some(node_id) => {
                let attribute_name = splitted[1].clone();
                Some(AttributePath { node_id, attribute_name })
            },
            None => None,
        }
    }

    /// The node the path points into.
    pub fn get_node<'a>(&self, tree: &'a Tree) -> (r: Option<&'a Node>)
        ensures
            match r {
                Some(node) => {
                    &&& self.node_id.index < tree.spec_len()
                    &&& !tree.spec_removed(self.node_id.index as int)
                    &&& *node == tree.spec_node(self.node_id.index as int)
                },
                None => self.node_id.index >= tree.spec_len() || tree.spec_removed(
                    self.node_id.index as int,
                ),
            },
    {
        tree.get_node_from_id(self.node_id)
    }

    /// The value of the attribute the path designates: the first attribute of
    /// that name in the node's store.
    pub fn get_value<'a>(&self, tree: &'a Tree) -> (r: Option<&'a crate::value::Value>)
        ensures
            match r {
                Some(v) => {
                    &&& self.node_id.index < tree.spec_len()
                    &&& !tree.spec_removed(self.node_id.index as int)
                    &&& {
                        let store = tree.spec_node(self.node_id.index as int).spec_store();
                        match crate::attribute::spec_first_named(store, self.attribute_name@) {
                            Some(k) => *v == store[k].spec_value(),
                            None => false,
                        }
                    }
                },
                None => self.node_id.index >= tree.spec_len() || tree.spec_removed(
                    self.node_id.index as int,
                ) || crate::attribute::spec_first_named(
                    tree.spec_node(self.node_id.index as int).spec_store(),
                    self.attribute_name@,
                ) is None,
            },
    {
        match tree.get_node_from_id(self.node_id) {
            Some(node) => node.value().get_value(self.attribute_name.as_str()),
            None => None,
        }
    }
}

} // verus!
