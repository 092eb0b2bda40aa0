//! Attributes are the base element stored in the tree by the analysis units.
//! Each [`Attribute`] carries a name, a [`Value`] and an optional description.

use vstd::prelude::*;
use crate::text::{i64_string, spec_i64_string, spec_u64_string, str_eq, u64_string};
use crate::value::{MapEntry, Value, ValueTypeId, spec_type_id};

verus! {

broadcast use vstd::std_specs::vec::group_vec_axioms;

/// A named, optionally described value.
#[derive(Debug)]
pub struct Attribute {
    name: String,
    value: Value,
    description: Option<String>,
}

impl Attribute {
    /// Build an attribute from its name, value and description.
    pub fn new(name: &str, value: Value, description: Option<&str>) -> (r: Attribute)
        ensures
            r.spec_name() == name@,
            r.spec_value() == value,
            match (r.spec_description(), description) {
                (Some(d), Some(given)) => d == given@,
                (None, None) => true,
                _ => false,
            },
    {
        match description {
            Some(description) => Attribute {
                name: name.to_owned(),
                value,
                description: Some(description.to_owned()),
            },
            None => Attribute { name: name.to_owned(), value, description: None },
        }
    }

    /// The lookup key of this attribute.
    pub fn name(&self) -> (r: &str)
        ensures
            r@ == self.spec_name(),
    {
        self.name.as_str()
    }

    /// The name as a spec-level sequence of characters.
    pub closed spec fn spec_name(&self) -> Seq<char> {
        self.name@
    }

    /// The stored value.
    pub fn value(&self) -> (r: &Value)
        ensures
            *r == self.spec_value(),
    {
        &self.value
    }

    /// The stored value at the spec level.
    pub closed spec fn spec_value(&self) -> Value {
        self.value
    }

    /// The tag of the stored value.
    pub fn type_id(&self) -> (r: ValueTypeId)
        ensures
            r == spec_type_id(self.spec_value()),
    {
        self.value.type_id()
    }

    /// The description, if one was given.
    pub fn description(&self) -> (r: Option<&str>)
        ensures
            match (r, self.spec_description()) {
                (Some(d), Some(stored)) => d@ == stored,
                (None, None) => true,
                _ => false,
            },
    {
        match &self.description {
            Some(description) => Some(description.as_str()),
            None => None,
        }
    }

    /// This attribute as one line of text: the quoted name, a colon, and
    /// the value's debug rendering.
    pub fn display_string(&self) -> (r: String)
        ensures
            r@ == spec_attribute_display(*self),
    {
        attribute_display_string(self)
    }

    /// The description at the spec level.
    pub closed spec fn spec_description(&self) -> Option<Seq<char>> {
        match self.description {
            Some(d) => Some(d@),
            None => None,
        }
    }
}

/// An ordered collection of attributes. Duplicate names are accepted;
/// lookups return the first match.
#[derive(Debug)]
pub struct Attributes {
    attributes: Vec<Attribute>,
}

impl View for Attributes {
    type V = Seq<Attribute>;

    closed spec fn view(&self) -> Seq<Attribute> {
        self.attributes@
    }
}

impl Attributes {
    /// The index of the first attribute with the given name, if any.
    pub open spec fn spec_index_of(&self, name: Seq<char>) -> Option<int> {
        spec_first_named(self@, name)
    }

    /// An empty collection.
    pub fn new() -> (r: Attributes)
        ensures
            r@ == Seq::<Attribute>::empty(),
    {
        Attributes { attributes: Vec::new() }
    }

    /// The names of all stored attributes, in order.
    pub fn names(&self) -> (r: Vec<String>)
        ensures
            r@.len() == self@.len(),
            forall|i: int| 0 <= i < r@.len() ==> r@[i]@ == self@[i].spec_name(),
    {
        let mut names: Vec<String> = Vec::new();
        let n = self.attributes.len();
        let mut i: usize = 0;
        while i < n
            invariant
                i <= n,
                n == self@.len(),
                names@.len() == i,
                forall|j: int| 0 <= j < i ==> names@[j]@ == self@[j].spec_name(),
            decreases n - i,
        {
            names.push(self.attributes[i].name().to_owned());
            i = i + 1;
        }
        names
    }

    /// Append a new attribute; duplicates are not rejected.
    pub fn add_attribute(&mut self, name: &str, value: Value, descr: Option<&str>)
        ensures
            final(self)@.len() == old(self)@.len() + 1,
            final(self)@.subrange(0, old(self)@.len() as int) == old(self)@,
            final(self)@.last().spec_name() == name@,
            final(self)@.last().spec_value() == value,
            descr is None <==> final(self)@.last().spec_description() is None,
    {
        let attr = Attribute::new(name, value, descr);
        self.attributes.push(attr);
        proof {
            assert(self@.subrange(0, old(self)@.len() as int) =~= old(self)@);
        }
    }

    /// Remove the first attribute with the given name by swapping the last
    /// element into its place; reports whether one was found.
    pub fn remove_attribute(&mut self, name: &str) -> (found: bool)
        ensures
            found <==> old(self).spec_index_of(name@) is Some,
            !found ==> *final(self) == *old(self),
            found ==> final(self)@ == old(self)@.update(
                old(self).spec_index_of(name@).unwrap(),
                old(self)@.last(),
            ).drop_last(),
    {
        let n = self.attributes.len();
        let mut i: usize = 0;
        while i < n
            invariant
                i <= n,
                n == self@.len(),
                *self == *old(self),
                forall|j: int| 0 <= j < i ==> self@[j].spec_name() != name@,
            decreases n - i,
        {
            if str_eq(self.attributes[i].name(), name) {
                proof {
                    lemma_first_named_found(self@, name@, i as int);
                }
                self.attributes.swap_remove(i);
                return true;
            }
            i = i + 1;
        }
        proof {
            lemma_first_named_absent(self@, name@);
        }
        false
    }

    /// Append a batch of attributes, in order.
    pub fn add_attributes(&mut self, attr: Vec<(&str, Value, Option<&str>)>)
        ensures
            final(self)@.len() == old(self)@.len() + attr@.len(),
            final(self)@.subrange(0, old(self)@.len() as int) == old(self)@,
            forall|i: int|
                0 <= i < attr@.len() ==> {
                    &&& final(self)@[old(self)@.len() + i].spec_name() == attr@[i].0@
                    &&& final(self)@[old(self)@.len() + i].spec_value() == attr@[i].1
                },
    {
        let mut rest = attr;
        let ghost given = rest@;
        let ghost base = self@;
        while rest.len() > 0
            invariant
                given.len() >= rest@.len(),
                rest@ == given.subrange(given.len() - rest@.len(), given.len() as int),
                self@.len() == base.len() + given.len() - rest@.len(),
                self@.subrange(0, base.len() as int) == base,
                forall|j: int|
                    0 <= j < given.len() - rest@.len() ==> {
                        &&& self@[base.len() + j].spec_name() == given[j].0@
                        &&& self@[base.len() + j].spec_value() == given[j].1
                    },
            decreases rest@.len(),
        {
            let ghost done = given.len() - rest@.len();
            let (name, value, descr) = rest.remove(0);
            proof {
                assert(given[done] == (name, value, descr));
            }
            self.attributes.push(Attribute::new(name, value, descr));
            proof {
                assert(self@.subrange(0, base.len() as int) =~= base);
                assert(rest@ =~= given.subrange(given.len() - rest@.len(), given.len() as int));
            }
        }
    }

    /// The number of stored attributes.
    pub fn count(&self) -> (r: usize)
        ensures
            r == self@.len(),
    {
        self.attributes.len()
    }

    /// The value of the first attribute with the given name.
    pub fn get_value(&self, name: &str) -> (r: Option<&Value>)
        ensures
            match (r, self.spec_index_of(name@)) {
                (Some(v), Some(i)) => *v == self@[i].spec_value(),
                (None, None) => true,
                _ => false,
            },
    {
        match self.find_index(name) {
            Some(i) => Some(self.attributes[i].value()),
            None => None,
        }
    }

    /// The first attribute with the given name.
    pub fn get_attribute(&self, name: &str) -> (r: Option<&Attribute>)
        ensures
            match (r, self.spec_index_of(name@)) {
                (Some(a), Some(i)) => *a == self@[i],
                (None, None) => true,
                _ => false,
            },
    {
        match self.find_index(name) {
            Some(i) => Some(&self.attributes[i]),
            None => None,
        }
    }

    /// The tag of the value of the first attribute with the given name.
    pub fn get_type_id(&self, name: &str) -> (r: Option<ValueTypeId>)
        ensures
            match self.spec_index_of(name@) {
                Some(i) => r == Some(spec_type_id(self@[i].spec_value())),
                None => r is None,
            },
    {
        match self.find_index(name) {
            Some(i) => Some(self.attributes[i].type_id()),
            None => None,
        }
    }

    /// A borrowed view of the stored attributes, in order.
    pub fn attributes(&self) -> (r: &Vec<Attribute>)
        ensures
            r@ == self@,
    {
        &self.attributes
    }

    /// The attribute at one index.
    pub fn get(&self, i: usize) -> (r: &Attribute)
        requires
            i < self@.len(),
        ensures
            *r == self@[i as int],
    {
        &self.attributes[i]
    }

    fn find_index(&self, name: &str) -> (r: Option<usize>)
        ensures
            match r {
                Some(i) => i < self@.len() && self.spec_index_of(name@) == Some(i as int),
                None => self.spec_index_of(name@) is None,
            },
    {
        let n = self.attributes.len();
        let mut i: usize = 0;
        while i < n
            invariant
                i <= n,
                n == self@.len(),
                forall|j: int| 0 <= j < i ==> self@[j].spec_name() != name@,
            decreases n - i,
        {
            if str_eq(self.attributes[i].name(), name) {
                proof {
                    lemma_first_named_found(self@, name@, i as int);
                }
                return Some(i);
            }
            i = i + 1;
        }
        proof {
            lemma_first_named_absent(self@, name@);
        }
        None
    }
}


/// The debug rendering of a value, as the engine prints it: numbers in
/// decimal, characters and texts quoted, lists bracketed, and nested stores
/// braced, each entry followed by a comma.
pub closed spec fn spec_value_debug(v: Value) -> Seq<char>
    decreases v,
{
    match v {
        Value::Attributes(a) => seq!['{'] + spec_store_debug(a.attributes@) + seq!['}'],
        Value::Bool(b) => if b {
            "true"@
        } else {
            "false"@
        },
        Value::U8(x) => spec_u64_string(x as int),
        Value::U16(x) => spec_u64_string(x as int),
        Value::U32(x) => spec_u64_string(x as int),
        Value::U64(x) => spec_u64_string(x as int),
        Value::I8(x) => spec_i64_string(x as int),
        Value::I16(x) => spec_i64_string(x as int),
        Value::I32(x) => spec_i64_string(x as int),
        Value::I64(x) => spec_i64_string(x as int),
        Value::USize(x) => spec_u64_string(x as int),
        Value::Char(c) => seq!['\''] + seq![c] + seq!['\''],
        Value::String(s) => seq!['"'] + s@ + seq!['"'],
        Value::Str(s) => seq!['"'] + s@ + seq!['"'],
        Value::Unit => "()"@,
        Value::Option(o) => match o {
            Some(b) => "Some("@ + spec_value_debug(*b) + ")"@,
            None => "None"@,
        },
        Value::Newtype(b) => spec_value_debug(*b),
        Value::Sequence(elems) => seq!['['] + spec_value_list_debug(elems@) + seq![']'],
        Value::Bytes(bytes) => seq!['['] + spec_byte_list_debug(bytes@) + seq![']'],
        Value::DateTime(secs) => spec_i64_string(secs as int),
        Value::Mapping(entries) => seq!['{'] + spec_map_list_debug(entries@) + seq!['}'],
        Value::NodeId(id) => "TreeNodeId { index: "@ + spec_u64_string(id.index as int) + " }"@,
        Value::AttributePath(ap) => "AttributePath { node_id: TreeNodeId { index: "@
            + spec_u64_string(ap.node_id.index as int) + " }, attribute_name: \""@
            + ap.attribute_name@ + "\" }"@,
    }
}

/// A comma-separated list of value renderings.
pub closed spec fn spec_value_list_debug(elems: Seq<Value>) -> Seq<char>
    decreases elems,
{
    if elems.len() == 0 {
        Seq::empty()
    } else if elems.len() == 1 {
        spec_value_debug(elems[0])
    } else {
        spec_value_debug(elems[0]) + ", "@ + spec_value_list_debug(elems.drop_first())
    }
}

/// A comma-separated list of byte renderings.
pub closed spec fn spec_byte_list_debug(bytes: Seq<u8>) -> Seq<char>
    decreases bytes.len(),
{
    if bytes.len() == 0 {
        Seq::empty()
    } else if bytes.len() == 1 {
        spec_u64_string(bytes[0] as int)
    } else {
        spec_u64_string(bytes[0] as int) + ", "@ + spec_byte_list_debug(bytes.drop_first())
    }
}

/// A comma-separated list of key-to-value renderings.
pub closed spec fn spec_map_list_debug(entries: Seq<MapEntry>) -> Seq<char>
    decreases entries,
{
    if entries.len() == 0 {
        Seq::empty()
    } else if entries.len() == 1 {
        seq!['"'] + entries[0].key@ + "\": "@ + spec_value_debug(entries[0].value)
    } else {
        seq!['"'] + entries[0].key@ + "\": "@ + spec_value_debug(entries[0].value) + ", "@
            + spec_map_list_debug(entries.drop_first())
    }
}

/// The renderings of a store's attributes, each followed by a comma.
pub closed spec fn spec_store_debug(attrs: Seq<Attribute>) -> Seq<char>
    decreases attrs,
{
    if attrs.len() == 0 {
        Seq::empty()
    } else {
        spec_attribute_display(attrs[0]) + ", "@ + spec_store_debug(attrs.drop_first())
    }
}

/// The display rendering of one attribute: its quoted name, a colon, and the
/// debug rendering of its value.
pub closed spec fn spec_attribute_display(a: Attribute) -> Seq<char>
    decreases a,
{
    seq!['"'] + a.name@ + "\" : "@ + spec_value_debug(a.value)
}


proof fn lemma_value_list_snoc(s: Seq<Value>, x: Value)
    ensures
        spec_value_list_debug(s.push(x)) == (if s.len() == 0 {
            spec_value_debug(x)
        } else {
            spec_value_list_debug(s) + ", "@ + spec_value_debug(x)
        }),
    decreases s.len(),
{
    if s.len() == 0 {
        assert(s.push(x)[0] == x);
        assert(spec_value_list_debug(s.push(x)) == spec_value_debug(x));
    } else {
        assert(s.push(x)[0] == s[0]);
        assert(s.push(x).drop_first() =~= s.drop_first().push(x));
        lemma_value_list_snoc(s.drop_first(), x);
        if s.len() == 1 {
            assert(spec_value_list_debug(s) == spec_value_debug(s[0]));
            assert(spec_value_list_debug(s.push(x)) =~= spec_value_list_debug(s) + ", "@
                + spec_value_debug(x));
        } else {
            assert(spec_value_list_debug(s.push(x)) =~= spec_value_list_debug(s) + ", "@
                + spec_value_debug(x));
        }
    }
}

proof fn lemma_byte_list_snoc(s: Seq<u8>, x: u8)
    ensures
        spec_byte_list_debug(s.push(x)) == (if s.len() == 0 {
            spec_u64_string(x as int)
        } else {
            spec_byte_list_debug(s) + ", "@ + spec_u64_string(x as int)
        }),
    decreases s.len(),
{
    if s.len() == 0 {
        assert(s.push(x)[0] == x);
    } else {
        assert(s.push(x)[0] == s[0]);
        assert(s.push(x).drop_first() =~= s.drop_first().push(x));
        lemma_byte_list_snoc(s.drop_first(), x);
        if s.len() == 1 {
            assert(spec_byte_list_debug(s.push(x)) =~= spec_byte_list_debug(s) + ", "@
                + spec_u64_string(x as int));
        } else {
            assert(spec_byte_list_debug(s.push(x)) =~= spec_byte_list_debug(s) + ", "@
                + spec_u64_string(x as int));
        }
    }
}

proof fn lemma_map_list_snoc(s: Seq<MapEntry>, x: MapEntry)
    ensures
        spec_map_list_debug(s.push(x)) == (if s.len() == 0 {
            seq!['"'] + x.key@ + "\": "@ + spec_value_debug(x.value)
        } else {
            spec_map_list_debug(s) + ", "@ + seq!['"'] + x.key@ + "\": "@ + spec_value_debug(
                x.value,
            )
        }),
    decreases s.len(),
{
    if s.len() == 0 {
        assert(s.push(x)[0] == x);
    } else {
        assert(s.push(x)[0] == s[0]);
        assert(s.push(x).drop_first() =~= s.drop_first().push(x));
        lemma_map_list_snoc(s.drop_first(), x);
        if s.len() == 1 {
            assert(spec_map_list_debug(s.push(x)) =~= spec_map_list_debug(s) + ", "@ + seq!['"']
                + x.key@ + "\": "@ + spec_value_debug(x.value));
        } else {
            assert(spec_map_list_debug(s.push(x)) =~= spec_map_list_debug(s) + ", "@ + seq!['"']
                + x.key@ + "\": "@ + spec_value_debug(x.value));
        }
    }
}

proof fn lemma_store_debug_snoc(s: Seq<Attribute>, x: Attribute)
    ensures
        spec_store_debug(s.push(x)) == spec_store_debug(s) + spec_attribute_display(x) + ", "@,
    decreases s.len(),
{
    if s.len() == 0 {
        assert(s.push(x)[0] == x);
        assert(s.push(x).drop_first() =~= Seq::<Attribute>::empty());
        assert(spec_store_debug(Seq::<Attribute>::empty()) == Seq::<char>::empty());
        assert(spec_store_debug(s.push(x)) =~= spec_store_debug(s) + spec_attribute_display(x)
            + ", "@);
    } else {
        assert(s.push(x)[0] == s[0]);
        assert(s.push(x).drop_first() =~= s.drop_first().push(x));
        lemma_store_debug_snoc(s.drop_first(), x);
        assert(spec_store_debug(s.push(x)) =~= spec_store_debug(s) + spec_attribute_display(x)
            + ", "@);
    }
}

/// Render a value as the engine prints it.
pub fn value_debug_string(v: &Value) -> (r: String)
    ensures
        r@ == spec_value_debug(*v),
    decreases *v,
{
    match v {
        Value::Attributes(a) => {
            let mut out = String::new();
            out.push('{');
            let n = a.attributes.len();
            let mut k: usize = 0;
            while k < n
                invariant
                    k <= n,
                    n == a.attributes@.len(),
                    *v == Value::Attributes(*a),
                    out@ == seq!['{'] + spec_store_debug(a.attributes@.take(k as int)),
                decreases n - k,
            {
                proof {
                    assert(*a == (*v)->Attributes_0);
                    assert(decreases_to!(*v => (*v)->Attributes_0));
                    assert(decreases_to!(*a => a.attributes));
                    assert(decreases_to!(a.attributes => a.attributes@[k as int]));
                }
                let rendered = attribute_display_string(&a.attributes[k]);
                out.append(rendered.as_str());
                out.append(", ");
                proof {
                    assert(a.attributes@.take(k as int + 1) =~= a.attributes@.take(
                        k as int,
                    ).push(a.attributes@[k as int]));
                    lemma_store_debug_snoc(a.attributes@.take(k as int), a.attributes@[k as int]);
                    assert(out@ =~= seq!['{'] + spec_store_debug(
                        a.attributes@.take(k as int + 1),
                    ));
                }
                k = k + 1;
            }
            out.push('}');
            proof {
                assert(a.attributes@.take(n as int) =~= a.attributes@);
                assert(out@ =~= seq!['{'] + spec_store_debug(a.attributes@) + seq!['}']);
            }
            out
        },
        Value::Bool(b) => if *b {
            "true".to_owned()
        } else {
            "false".to_owned()
        },
        Value::U8(x) => u64_string(*x as u64),
        Value::U16(x) => u64_string(*x as u64),
        Value::U32(x) => u64_string(*x as u64),
        Value::U64(x) => u64_string(*x),
        Value::I8(x) => i64_string(*x as i64),
        Value::I16(x) => i64_string(*x as i64),
        Value::I32(x) => i64_string(*x as i64),
        Value::I64(x) => i64_string(*x),
        Value::USize(x) => {
            proof {
                assert((*x as u64) as int == *x as int);
            }
            u64_string(*x as u64)
        },
        Value::Char(c) => {
            let mut out = String::new();
            out.push('\'');
            out.push(*c);
            out.push('\'');
            proof {
                assert(out@ =~= seq!['\''] + seq![*c] + seq!['\'']);
            }
            out
        },
        Value::String(text) => quoted(text.as_str()),
        Value::Str(text) => quoted(text.as_str()),
        Value::Unit => "()".to_owned(),
        Value::Option(o) => match o {
            Some(b) => {
                let mut out = String::new();
                out.append("Some(");
                let inner = value_debug_string(&**b);
                out.append(inner.as_str());
                out.append(")");
                proof {
                    assert(out@ =~= "Some("@ + spec_value_debug(**b) + ")"@);
                }
                out
            },
            None => "None".to_owned(),
        },
        Value::Newtype(b) => value_debug_string(&**b),
        Value::Sequence(elems) => {
            let mut out = String::new();
            out.push('[');
            let n = elems.len();
            let mut k: usize = 0;
            while k < n
                invariant
                    k <= n,
                    n == elems@.len(),
                    *v == Value::Sequence(*elems),
                    out@ == seq!['['] + spec_value_list_debug(elems@.take(k as int)),
                decreases n - k,
            {
                if k > 0 {
                    out.append(", ");
                }
                proof {
                    assert(*elems == (*v)->Sequence_0);
                    assert(decreases_to!(*v => (*v)->Sequence_0));
                    assert(decreases_to!(*elems => elems@[k as int]));
                }
                let rendered = value_debug_string(&elems[k]);
                out.append(rendered.as_str());
                proof {
                    assert(elems@.take(k as int + 1) =~= elems@.take(k as int).push(
                        elems@[k as int],
                    ));
                    lemma_value_list_snoc(elems@.take(k as int), elems@[k as int]);
                    assert(out@ =~= seq!['['] + spec_value_list_debug(
                        elems@.take(k as int + 1),
                    ));
                }
                k = k + 1;
            }
            out.push(']');
            proof {
                assert(elems@.take(n as int) =~= elems@);
                assert(out@ =~= seq!['['] + spec_value_list_debug(elems@) + seq![']']);
            }
            out
        },
        Value::Bytes(bytes) => {
            let mut out = String::new();
            out.push('[');
            let n = bytes.len();
            let mut k: usize = 0;
            while k < n
                invariant
                    k <= n,
                    n == bytes@.len(),
                    out@ == seq!['['] + spec_byte_list_debug(bytes@.take(k as int)),
                decreases n - k,
            {
                if k > 0 {
                    out.append(", ");
                }
                let rendered = u64_string(bytes[k] as u64);
                out.append(rendered.as_str());
                proof {
                    assert(bytes@.take(k as int + 1) =~= bytes@.take(k as int).push(
                        bytes@[k as int],
                    ));
                    lemma_byte_list_snoc(bytes@.take(k as int), bytes@[k as int]);
                    assert(out@ =~= seq!['['] + spec_byte_list_debug(bytes@.take(k as int + 1)));
                }
                k = k + 1;
            }
            out.push(']');
            proof {
                assert(bytes@.take(n as int) =~= bytes@);
                assert(out@ =~= seq!['['] + spec_byte_list_debug(bytes@) + seq![']']);
            }
            out
        },
        Value::DateTime(secs) => i64_string(*secs),
        Value::Mapping(entries) => {
            let mut out = String::new();
            out.push('{');
            let n = entries.len();
            let mut k: usize = 0;
            while k < n
                invariant
                    k <= n,
                    n == entries@.len(),
                    *v == Value::Mapping(*entries),
                    out@ == seq!['{'] + spec_map_list_debug(entries@.take(k as int)),
                decreases n - k,
            {
                if k > 0 {
                    out.append(", ");
                }
                out.push('"');
                out.append(entries[k].key.as_str());
                out.append("\": ");
                proof {
                    assert(*entries == (*v)->Mapping_0);
                    assert(decreases_to!(*v => (*v)->Mapping_0));
                    assert(decreases_to!(*entries => entries@[k as int]));
                    assert(decreases_to!(entries@[k as int] => entries@[k as int].value));
                }
                let rendered = value_debug_string(&entries[k].value);
                out.append(rendered.as_str());
                proof {
                    assert(entries@.take(k as int + 1) =~= entries@.take(k as int).push(
                        entries@[k as int],
                    ));
                    lemma_map_list_snoc(entries@.take(k as int), entries@[k as int]);
                    assert(out@ =~= seq!['{'] + spec_map_list_debug(entries@.take(k as int + 1)));
                }
                k = k + 1;
            }
            out.push('}');
            proof {
                assert(entries@.take(n as int) =~= entries@);
                assert(out@ =~= seq!['{'] + spec_map_list_debug(entries@) + seq!['}']);
            }
            out
        },
        Value::NodeId(id) => {
            let mut out = String::new();
            out.append("TreeNodeId { index: ");
            let rendered = u64_string(id.index as u64);
            out.append(rendered.as_str());
            out.append(" }");
            proof {
                assert((id.index as u64) as int == id.index as int);
                assert(out@ =~= "TreeNodeId { index: "@ + spec_u64_string(id.index as int)
                    + " }"@);
            }
            out
        },
        Value::AttributePath(ap) => {
            let mut out = String::new();
            out.append("AttributePath { node_id: TreeNodeId { index: ");
            let rendered = u64_string(ap.node_id.index as u64);
            out.append(rendered.as_str());
            out.append(" }, attribute_name: \"");
            out.append(ap.attribute_name.as_str());
            out.append("\" }");
            proof {
                assert((ap.node_id.index as u64) as int == ap.node_id.index as int);
                assert(out@ =~= "AttributePath { node_id: TreeNodeId { index: "@
                    + spec_u64_string(ap.node_id.index as int) + " }, attribute_name: \""@
                    + ap.attribute_name@ + "\" }"@);
            }
            out
        },
    }
}

fn quoted(text: &str) -> (r: String)
    ensures
        r@ == seq!['"'] + text@ + seq!['"'],
{
    let mut out = String::new();
    out.push('"');
    out.append(text);
    out.push('"');
    proof {
        assert(out@ =~= seq!['"'] + text@ + seq!['"']);
    }
    out
}

/// Render one attribute as the engine prints it: the quoted name, a colon,
/// and the value's debug rendering.
pub fn attribute_display_string(a: &Attribute) -> (r: String)
    ensures
        r@ == spec_attribute_display(*a),
    decreases *a,
{
    let mut out = String::new();
    out.push('"');
    out.append(a.name.as_str());
    out.append("\" : ");
    let rendered = value_debug_string(&a.value);
    out.append(rendered.as_str());
    proof {
        assert(out@ =~= spec_attribute_display(*a));
    }
    out
}


/// The display rendering of a value: like the debug rendering, but a
/// character and a text appear bare, without quotes, through any wrapping.
pub closed spec fn spec_value_display(v: Value) -> Seq<char>
    decreases v,
{
    match v {
        Value::Char(c) => seq![c],
        Value::String(s) => s@,
        Value::Str(s) => s@,
        Value::Newtype(b) => spec_value_display(*b),
        _ => spec_value_debug(v),
    }
}

/// Render a value for display: texts and characters bare, everything else as
/// the debug rendering.
pub fn value_display_string(v: &Value) -> (r: String)
    ensures
        r@ == spec_value_display(*v),
    decreases *v,
{
    match v {
        Value::Char(c) => {
            let mut out = String::new();
            out.push(*c);
            proof {
                assert(out@ =~= seq![*c]);
            }
            out
        },
        Value::String(text) => text.clone(),
        Value::Str(text) => text.clone(),
        Value::Newtype(b) => value_display_string(&**b),
        _ => value_debug_string(v),
    }
}

/// The index of the first attribute named `name` in `s`.
pub open spec fn spec_first_named(s: Seq<Attribute>, name: Seq<char>) -> Option<int>
    decreases s.len(),
{
    if s.len() == 0 {
        None
    } else if s[0].spec_name() == name {
        Some(0)
    } else {
        match spec_first_named(s.drop_first(), name) {
            Some(i) => Some(i + 1),
            None => None,
        }
    }
}

/// A linear scan that stops at the first hit computes `spec_first_named`.
pub proof fn lemma_first_named_found(s: Seq<Attribute>, name: Seq<char>, i: int)
    requires
        0 <= i < s.len(),
        s[i].spec_name() == name,
        forall|j: int| 0 <= j < i ==> s[j].spec_name() != name,
    ensures
        spec_first_named(s, name) == Some(i),
    decreases s.len(),
{
    if i > 0 {
        assert(s.drop_first()[i - 1] == s[i]);
        assert forall|j: int| 0 <= j < i - 1 implies s.drop_first()[j].spec_name() != name by {
            assert(s.drop_first()[j] == s[j + 1]);
        }
        lemma_first_named_found(s.drop_first(), name, i - 1);
    }
}

/// A scan that finds no hit means `spec_first_named` finds none either.
pub proof fn lemma_first_named_absent(s: Seq<Attribute>, name: Seq<char>)
    requires
        forall|j: int| 0 <= j < s.len() ==> s[j].spec_name() != name,
    ensures
        spec_first_named(s, name) is None,
    decreases s.len(),
{
    if s.len() > 0 {
        assert forall|j: int| 0 <= j < s.drop_first().len() implies s.drop_first()[j].spec_name()
            != name by {
            assert(s.drop_first()[j] == s[j + 1]);
        }
        lemma_first_named_absent(s.drop_first(), name);
    }
}

} // verus!
