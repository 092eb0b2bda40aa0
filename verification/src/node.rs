//! Node is the unit of the tree: a named wrapper around one attribute store.

use vstd::prelude::*;
use crate::attribute::{Attribute, Attributes};
use crate::value::Value;

verus! {

/// One element of the tree: a name over a mutable attribute store.
#[derive(Debug)]
pub struct Node {
    name: String,
    store: Attributes,
}

impl Node {
    /// The node's name.
    pub closed spec fn spec_name(&self) -> Seq<char> {
        self.name@
    }

    /// The node's attribute store, as a sequence of attributes.
    pub closed spec fn spec_store(&self) -> Seq<Attribute> {
        self.store@
    }

    /// A node with the given name and an empty attribute store.
    pub fn new(name: &str) -> (r: Node)
        ensures
            r.spec_name() == name@,
            r.spec_store() == Seq::<Attribute>::empty(),
    {
        Node { name: name.to_owned(), store: Attributes::new() }
    }

    /// The node's attribute store.
    pub fn value(&self) -> (r: &Attributes)
        ensures
            r@ == self.spec_store(),
    {
        &self.store
    }

    /// The node's name.
    pub fn name(&self) -> (r: String)
        ensures
            r@ == self.spec_name(),
    {
        self.name.clone()
    }

    /// Append an attribute to the node's store.
    pub fn add_attribute(&mut self, name: &str, value: Value, descr: Option<&str>)
        ensures
            final(self).spec_name() == old(self).spec_name(),
            final(self).spec_store().len() == old(self).spec_store().len() + 1,
            final(self).spec_store().subrange(0, old(self).spec_store().len() as int) == old(
                self,
            ).spec_store(),
            final(self).spec_store().last().spec_name() == name@,
            final(self).spec_store().last().spec_value() == value,
            descr is None <==> final(self).spec_store().last().spec_description() is None,
    {
        self.store.add_attribute(name, value, descr);
    }

    /// Append a batch of attributes to the node's store, in order.
    pub fn add_attributes(&mut self, attr: Vec<(&str, Value, Option<&str>)>)
        ensures
            final(self).spec_name() == old(self).spec_name(),
            final(self).spec_store().len() == old(self).spec_store().len() + attr@.len(),
            final(self).spec_store().subrange(0, old(self).spec_store().len() as int) == old(
                self,
            ).spec_store(),
            forall|i: int|
                0 <= i < attr@.len() ==> {
                    &&& final(self).spec_store()[old(self).spec_store().len() + i].spec_name()
                        == attr@[i].0@
                    &&& final(self).spec_store()[old(self).spec_store().len() + i].spec_value()
                        == attr@[i].1
                },
    {
        self.store.add_attributes(attr);
    }
}

} // verus!
