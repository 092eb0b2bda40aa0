//! A small analysis unit for exercising the engine: it counts its runs and
//! plants a fixed pair of nodes under a chosen parent. The JSON plumbing and
//! the dynamically computed attributes around it belong to the unverified
//! shell; this module holds the unit's decisions against the tree.

use vstd::prelude::*;
use crate::error::{RustructError, RustructErrorView};
use crate::node::Node;
use crate::tree::{Tree, TreeNodeId};
use crate::value::Value;

verus! {

/// The counting unit itself.
#[derive(Debug)]
pub struct Dummy {
    count: u32,
}

impl Default for Dummy {
    /// A fresh unit has run zero times.
    fn default() -> (r: Dummy)
        ensures
            r.spec_count() == 0,
    {
        Dummy { count: 0 }
    }
}

/// The argument the unit expects, as plain values.
#[derive(Debug)]
pub struct Arguments {
    /// A file name the unit pretends to parse.
    pub file_name: String,
    /// An offset the unit pretends to start at.
    pub offset: u32,
    /// The node under which the unit plants its nodes.
    pub parent: Option<TreeNodeId>,
}

/// What the unit reports back.
#[derive(Debug)]
pub struct Results {
    /// How many times this unit instance has run.
    pub count: u32,
}

/// The fixed node pair the unit plants: a `Dummy` node holding one offset
/// attribute under the parent, and a `DummyStatic` child holding three fixed
/// attributes under it, at the next two fresh ids.
pub open spec fn spec_dummy_nodes_added(pre: Tree, post: Tree, parent: int) -> bool {
    let d = pre.spec_len();
    let s = pre.spec_len() + 1;
    &&& post.spec_len() == pre.spec_len() + 2
    &&& post.unchanged_below_but_children(pre, parent)
    &&& post.spec_node_name(d) == "Dummy"@
    &&& post.spec_parent_of(d) == Some(parent)
    &&& !post.spec_removed(d)
    &&& post.spec_store_of(d).len() == 1
    &&& post.spec_store_of(d)[0].spec_name() == "offset"@
    &&& post.spec_store_of(d)[0].spec_value() == Value::U64(0x1000)
    &&& post.spec_children_of(parent) == pre.spec_children_of(parent).push(d)
    &&& post.spec_node_name(s) == "DummyStatic"@
    &&& post.spec_parent_of(s) == Some(d)
    &&& !post.spec_removed(s)
    &&& post.spec_children_of(d) == seq![s]
    &&& post.spec_store_of(s).len() == 3
    &&& post.spec_store_of(s)[0].spec_name() == "a"@
    &&& post.spec_store_of(s)[0].spec_value() == Value::U8(255)
    &&& post.spec_store_of(s)[1].spec_name() == "b"@
    &&& post.spec_store_of(s)[1].spec_value() == Value::U64(0x1000)
    &&& post.spec_store_of(s)[2].spec_name() == "c"@
    &&& (post.spec_store_of(s)[2].spec_value() matches Value::String(c) && c@ == "dummy"@)
}

/// The three fixed attributes of the static node.
pub struct DummyStatic {
    /// A one-byte value.
    pub a: u8,
    /// An eight-byte value.
    pub b: u64,
    /// A text value.
    pub c: String,
}

impl DummyStatic {
    /// Hold the three fixed values.
    pub fn new(a: u8, b: u64, c: String) -> (r: DummyStatic)
        ensures
            r.a == a,
            r.b == b,
            r.c@ == c@,
    {
        DummyStatic { a, b, c }
    }

    /// A node named `DummyStatic` carrying the three values as attributes.
    pub fn new_node(&self) -> (r: Node)
        ensures
            r.spec_name() == "DummyStatic"@,
            r.spec_store().len() == 3,
            r.spec_store()[0].spec_name() == "a"@,
            r.spec_store()[0].spec_value() == Value::U8(self.a),
            r.spec_store()[1].spec_name() == "b"@,
            r.spec_store()[1].spec_value() == Value::U64(self.b),
            r.spec_store()[2].spec_name() == "c"@,
            (r.spec_store()[2].spec_value() matches Value::String(c) && c@ == self.c@),
    {
        let mut node = Node::new("DummyStatic");
        node.add_attribute("a", Value::U8(self.a), None);
        node.add_attribute("b", Value::U64(self.b), None);
        let text = self.c.clone();
        node.add_attribute("c", Value::String(text), None);
        proof {
            assert(node.spec_store()[0] == node.spec_store().subrange(0, 2)[0]);
            assert(node.spec_store().subrange(0, 2)[0] == node.spec_store().subrange(0, 2).subrange(
                0,
                1,
            )[0]);
        }
        node
    }
}

impl Dummy {
    /// How many times this unit instance has run.
    pub closed spec fn spec_count(&self) -> u32 {
        self.count
    }

    /// Plant the fixed node pair under `parent_id`: a `Dummy` node with one
    /// offset attribute, and a `DummyStatic` child below it. Fails on a stale
    /// parent, or when the parent already has a child named `Dummy` — the
    /// mark that this unit already ran there.
    pub fn create_nodes(&self, parent_id: TreeNodeId, tree: &mut Tree) -> (r: Result<
        (),
        RustructError,
    >)
        requires
            old(tree).wf(),
        ensures
            final(tree).wf(),
            match r {
                Ok(()) => {
                    &&& parent_id.index < old(tree).spec_len()
                    &&& !old(tree).spec_removed(parent_id.index as int)
                    &&& !old(tree).spec_has_child_named(parent_id.index as int, "Dummy"@)
                    &&& spec_dummy_nodes_added(*old(tree), *final(tree), parent_id.index as int)
                },
                Err(e) => {
                    &&& *final(tree) == *old(tree)
                    &&& (e@ == RustructErrorView::StaleParent <==> (parent_id.index >= old(
                        tree,
                    ).spec_len() || old(tree).spec_removed(parent_id.index as int)))
                    &&& (e@ == RustructErrorView::DuplicateNodeName <==> (parent_id.index < old(
                        tree,
                    ).spec_len() && !old(tree).spec_removed(parent_id.index as int) && old(
                        tree,
                    ).spec_has_child_named(parent_id.index as int, "Dummy"@)))
                },
            },
            (r is Err) <==> (parent_id.index >= old(tree).spec_len() || old(tree).spec_removed(
                parent_id.index as int,
            ) || old(tree).spec_has_child_named(parent_id.index as int, "Dummy"@)),
    {
        let mut dummy_node = Node::new("Dummy");
        dummy_node.add_attribute("offset", Value::U64(0x1000), None);
        let dummy_node_id = match tree.add_child(parent_id, dummy_node) {
            Ok(dummy_node_id) => dummy_node_id,
            Err(err) => {
                return Err(err);
            },
        };
        let ghost mid = *tree;
        let dummy_static = DummyStatic::new(255, 0x1000, "dummy".to_owned()).new_node();
        proof {
            assert(mid.spec_children_of(dummy_node_id.index as int) =~= Seq::<int>::empty());
        }
        let static_id = match tree.add_child(dummy_node_id, dummy_static) {
            Ok(id) => id,
            Err(_) => {
                proof {
                    assert(mid.spec_first_child_named(dummy_node_id.index as int, "DummyStatic"@)
                        is None);
                }
                vstd::pervasive::unreached()
            },
        };
        proof {
            let pre = *old(tree);
            let d = pre.spec_len();
            assert(dummy_node_id.index == d);
            assert(static_id.index == d + 1);
            assert(tree.spec_children_of(d) =~= seq![static_id.index as int]);
            assert(tree.unchanged_below_but_children(pre, parent_id.index as int)) by {
                assert forall|i: int|
                    #![all_triggers]
                    0 <= i < pre.spec_len() implies {
                    &&& tree.spec_node(i) == pre.spec_node(i)
                    &&& tree.spec_parent_of(i) == pre.spec_parent_of(i)
                    &&& tree.spec_removed(i) == pre.spec_removed(i)
                    &&& (i != parent_id.index ==> tree.spec_children_of(i) == pre.spec_children_of(
                        i,
                    ))
                } by {
                    assert(mid.spec_node(i) == pre.spec_node(i));
                    assert(mid.spec_parent_of(i) == pre.spec_parent_of(i));
                    assert(mid.spec_removed(i) == pre.spec_removed(i));
                    assert(tree.spec_node(i) == mid.spec_node(i));
                    assert(tree.spec_parent_of(i) == mid.spec_parent_of(i));
                    assert(tree.spec_removed(i) == mid.spec_removed(i));
                    assert(tree.spec_children_of(i) == mid.spec_children_of(i));
                    if i != parent_id.index {
                        assert(mid.spec_children_of(i) == pre.spec_children_of(i));
                    }
                }
            }
            assert(tree.spec_node(d) == mid.spec_node(d));
            assert(tree.spec_children_of(parent_id.index as int) == mid.spec_children_of(
                parent_id.index as int,
            ));
        }
        Ok(())
    }

    /// One run of the unit: count it, then plant the nodes under the parent
    /// named in the argument. Without a parent the argument is rejected; the
    /// run counter advances on every run, accepted or not.
    pub fn run(&mut self, argument: Arguments, tree: &mut Tree) -> (r: Result<
        Results,
        RustructError,
    >)
        requires
            old(tree).wf(),
            old(self).spec_count() < u32::MAX,
        ensures
            final(tree).wf(),
            final(self).spec_count() == old(self).spec_count() + 1,
            match r {
                Ok(results) => {
                    &&& results.count == final(self).spec_count()
                    &&& argument.parent is Some
                    &&& spec_dummy_nodes_added(
                        *old(tree),
                        *final(tree),
                        argument.parent.unwrap().index as int,
                    )
                },
                Err(e) => {
                    &&& *final(tree) == *old(tree)
                    &&& (argument.parent is None ==> e@ == RustructErrorView::ArgumentNotFound(
                        "parent"@,
                    ))
                },
            },
            (r is Ok) <==> (argument.parent matches Some(parent) && parent.index < old(
                tree,
            ).spec_len() && !old(tree).spec_removed(parent.index as int) && !old(
                tree,
            ).spec_has_child_named(parent.index as int, "Dummy"@)),
    {
        self.count = self.count + 1;
        let parent = match argument.parent {
            Some(parent) => parent,
            None => {
                return Err(RustructError::ArgumentNotFound("parent"));
            },
        };
        match self.create_nodes(parent, tree) {
            Ok(()) => Ok(Results { count: self.count }),
            Err(err) => Err(err),
        }
    }
}

} // verus!
