//! Value is the tagged union stored inside an [`Attribute`](crate::attribute::Attribute).
//!
//! The tag fully determines the legal payload: the strict accessors demand the
//! right tag in their precondition, the fallible ones return `None` on a
//! mismatch. Capability-carrying payloads (reflective records, byte-stream
//! producers, on-demand callables) live outside the verified core and are
//! represented there by the unverified shell around it.

use vstd::prelude::*;
use crate::attribute::Attributes;
use crate::tree::{AttributePath, TreeNodeId};

verus! {

/// A tagged union used as the value of an attribute.
///
/// Timestamps are carried as seconds since the Unix epoch.
#[derive(Debug)]
pub enum Value {
    Attributes(Attributes),
    Bool(bool),
    U8(u8),
    U16(u16),
    U32(u32),
    U64(u64),
    I8(i8),
    I16(i16),
    I32(i32),
    I64(i64),
    USize(usize),
    Char(char),
    String(String),
    Str(String),
    Unit,
    Option(Option<Box<Value>>),
    Newtype(Box<Value>),
    Sequence(Vec<Value>),
    Bytes(Vec<u8>),
    DateTime(i64),
    Mapping(Vec<MapEntry>),
    NodeId(TreeNodeId),
    AttributePath(AttributePath),
}

/// One name-to-value binding of a `Mapping` value.
#[derive(Debug)]
pub struct MapEntry {
    /// The binding's key.
    pub key: String,
    /// The bound value.
    pub value: Value,
}

/// The tag of a [`Value`], including the tags that only the unverified shell
/// around the core can carry.
#[derive(Debug, Clone, PartialEq, Eq, Structural)]
pub enum ValueTypeId {
    Attributes,
    ReflectStruct,
    VFileBuilder,
    Bool,
    U8,
    U16,
    U32,
    U64,
    I8,
    I16,
    I32,
    I64,
    F32,
    F64,
    USize,
    Char,
    String,
    Str,
    Unit,
    Option,
    Newtype,
    Sequence,
    Bytes,
    DateTime,
    Mapping,
    Func,
    FuncArg,
    NodeId,
    AttributePath,
}

/// The tag that [`Value::type_id`] returns for each variant.
pub open spec fn spec_type_id(v: Value) -> ValueTypeId {
    match v {
        Value::Attributes(_) => ValueTypeId::Attributes,
        Value::Bool(_) => ValueTypeId::Bool,
        Value::U8(_) => ValueTypeId::U8,
        Value::U16(_) => ValueTypeId::U16,
        Value::U32(_) => ValueTypeId::U32,
        Value::U64(_) => ValueTypeId::U64,
        Value::I8(_) => ValueTypeId::I8,
        Value::I16(_) => ValueTypeId::I16,
        Value::I32(_) => ValueTypeId::I32,
        Value::I64(_) => ValueTypeId::I64,
        Value::USize(_) => ValueTypeId::USize,
        Value::Char(_) => ValueTypeId::Char,
        Value::String(_) => ValueTypeId::String,
        Value::Str(_) => ValueTypeId::Str,
        Value::Unit => ValueTypeId::Unit,
        Value::Option(_) => ValueTypeId::Option,
        Value::Newtype(_) => ValueTypeId::Newtype,
        Value::Sequence(_) => ValueTypeId::Sequence,
        Value::Bytes(_) => ValueTypeId::Bytes,
        Value::DateTime(_) => ValueTypeId::DateTime,
        Value::Mapping(_) => ValueTypeId::Mapping,
        Value::NodeId(_) => ValueTypeId::NodeId,
        Value::AttributePath(_) => ValueTypeId::AttributePath,
    }
}

impl Value {
    /// The tag of this value.
    pub fn type_id(&self) -> (r: ValueTypeId)
        ensures
            r == spec_type_id(*self),
    {
        match self {
            Value::Attributes(_) => ValueTypeId::Attributes,
            Value::Bool(_) => ValueTypeId::Bool,
            Value::U8(_) => ValueTypeId::U8,
            Value::U16(_) => ValueTypeId::U16,
            Value::U32(_) => ValueTypeId::U32,
            Value::U64(_) => ValueTypeId::U64,
            Value::I8(_) => ValueTypeId::I8,
            Value::I16(_) => ValueTypeId::I16,
            Value::I32(_) => ValueTypeId::I32,
            Value::I64(_) => ValueTypeId::I64,
            Value::USize(_) => ValueTypeId::USize,
            Value::Char(_) => ValueTypeId::Char,
            Value::String(_) => ValueTypeId::String,
            Value::Str(_) => ValueTypeId::Str,
            Value::Unit => ValueTypeId::Unit,
            Value::Option(_) => ValueTypeId::Option,
            Value::Newtype(_) => ValueTypeId::Newtype,
            Value::Sequence(_) => ValueTypeId::Sequence,
            Value::Bytes(_) => ValueTypeId::Bytes,
            Value::DateTime(_) => ValueTypeId::DateTime,
            Value::Mapping(_) => ValueTypeId::Mapping,
            Value::NodeId(_) => ValueTypeId::NodeId,
            Value::AttributePath(_) => ValueTypeId::AttributePath,
        }
    }

    /// The payload of a `Bool` value; demands the right tag.
    pub fn as_bool(&self) -> (r: bool)
        requires
            self is Bool,
        ensures
            *self == Value::Bool(r),
    {
        match self {
            Value::Bool(v) => *v,
            _ => vstd::pervasive::unreached(),
        }
    }

    /// The payload of a `Bool` value, or nothing on any other tag.
    pub fn try_as_bool(&self) -> (r: Option<bool>)
        ensures
            match r {
                Some(v) => *self == Value::Bool(v),
                None => !(self is Bool),
            },
    {
        match self {
            Value::Bool(v) => Some(*v),
            _ => None,
        }
    }

    /// The payload of a `U8` value; demands the right tag.
    pub fn as_u8(&self) -> (r: u8)
        requires
            self is U8,
        ensures
            *self == Value::U8(r),
    {
        match self {
            Value::U8(v) => *v,
            _ => vstd::pervasive::unreached(),
        }
    }

    /// The payload of a `U8` value, or nothing on any other tag.
    pub fn try_as_u8(&self) -> (r: Option<u8>)
        ensures
            match r {
                Some(v) => *self == Value::U8(v),
                None => !(self is U8),
            },
    {
        match self {
            Value::U8(v) => Some(*v),
            _ => None,
        }
    }

    /// The payload of a `U16` value; demands the right tag.
    pub fn as_u16(&self) -> (r: u16)
        requires
            self is U16,
        ensures
            *self == Value::U16(r),
    {
        match self {
            Value::U16(v) => *v,
            _ => vstd::pervasive::unreached(),
        }
    }

    /// The payload of a `U16` value, or nothing on any other tag.
    pub fn try_as_u16(&self) -> (r: Option<u16>)
        ensures
            match r {
                Some(v) => *self == Value::U16(v),
                None => !(self is U16),
            },
    {
        match self {
            Value::U16(v) => Some(*v),
            _ => None,
        }
    }

    /// The payload of a `U32` value; demands the right tag.
    pub fn as_u32(&self) -> (r: u32)
        requires
            self is U32,
        ensures
            *self == Value::U32(r),
    {
        match self {
            Value::U32(v) => *v,
            _ => vstd::pervasive::unreached(),
        }
    }

    /// The payload of a `U32` value, or nothing on any other tag.
    pub fn try_as_u32(&self) -> (r: Option<u32>)
        ensures
            match r {
                Some(v) => *self == Value::U32(v),
                None => !(self is U32),
            },
    {
        match self {
            Value::U32(v) => Some(*v),
            _ => None,
        }
    }

    /// The payload of a `U64` value; demands the right tag.
    pub fn as_u64(&self) -> (r: u64)
        requires
            self is U64,
        ensures
            *self == Value::U64(r),
    {
        match self {
            Value::U64(v) => *v,
            _ => vstd::pervasive::unreached(),
        }
    }

    /// The payload of a `U64` value, or nothing on any other tag.
    pub fn try_as_u64(&self) -> (r: Option<u64>)
        ensures
            match r {
                Some(v) => *self == Value::U64(v),
                None => !(self is U64),
            },
    {
        match self {
            Value::U64(v) => Some(*v),
            _ => None,
        }
    }

    /// The payload of a `I8` value; demands the right tag.
    pub fn as_i8(&self) -> (r: i8)
        requires
            self is I8,
        ensures
            *self == Value::I8(r),
    {
        match self {
            Value::I8(v) => *v,
            _ => vstd::pervasive::unreached(),
        }
    }

    /// The payload of a `I8` value, or nothing on any other tag.
    pub fn try_as_i8(&self) -> (r: Option<i8>)
        ensures
            match r {
                Some(v) => *self == Value::I8(v),
                None => !(self is I8),
            },
    {
        match self {
            Value::I8(v) => Some(*v),
            _ => None,
        }
    }

    /// The payload of a `I16` value; demands the right tag.
    pub fn as_i16(&self) -> (r: i16)
        requires
            self is I16,
        ensures
            *self == Value::I16(r),
    {
        match self {
            Value::I16(v) => *v,
            _ => vstd::pervasive::unreached(),
        }
    }

    /// The payload of a `I16` value, or nothing on any other tag.
    pub fn try_as_i16(&self) -> (r: Option<i16>)
        ensures
            match r {
                Some(v) => *self == Value::I16(v),
                None => !(self is I16),
            },
    {
        match self {
            Value::I16(v) => Some(*v),
            _ => None,
        }
    }

    /// The payload of a `I32` value; demands the right tag.
    pub fn as_i32(&self) -> (r: i32)
        requires
            self is I32,
        ensures
            *self == Value::I32(r),
    {
        match self {
            Value::I32(v) => *v,
            _ => vstd::pervasive::unreached(),
        }
    }

    /// The payload of a `I32` value, or nothing on any other tag.
    pub fn try_as_i32(&self) -> (r: Option<i32>)
        ensures
            match r {
                Some(v) => *self == Value::I32(v),
                None => !(self is I32),
            },
    {
        match self {
            Value::I32(v) => Some(*v),
            _ => None,
        }
    }

    /// The payload of a `I64` value; demands the right tag.
    pub fn as_i64(&self) -> (r: i64)
        requires
            self is I64,
        ensures
            *self == Value::I64(r),
    {
        match self {
            Value::I64(v) => *v,
            _ => vstd::pervasive::unreached(),
        }
    }

    /// The payload of a `I64` value, or nothing on any other tag.
    pub fn try_as_i64(&self) -> (r: Option<i64>)
        ensures
            match r {
                Some(v) => *self == Value::I64(v),
                None => !(self is I64),
            },
    {
        match self {
            Value::I64(v) => Some(*v),
            _ => None,
        }
    }

    /// The payload of a `USize` value; demands the right tag.
    pub fn as_usize(&self) -> (r: usize)
        requires
            self is USize,
        ensures
            *self == Value::USize(r),
    {
        match self {
            Value::USize(v) => *v,
            _ => vstd::pervasive::unreached(),
        }
    }

    /// The payload of a `USize` value, or nothing on any other tag.
    pub fn try_as_usize(&self) -> (r: Option<usize>)
        ensures
            match r {
                Some(v) => *self == Value::USize(v),
                None => !(self is USize),
            },
    {
        match self {
            Value::USize(v) => Some(*v),
            _ => None,
        }
    }

    /// The payload of a `Char` value; demands the right tag.
    pub fn as_char(&self) -> (r: char)
        requires
            self is Char,
        ensures
            *self == Value::Char(r),
    {
        match self {
            Value::Char(v) => *v,
            _ => vstd::pervasive::unreached(),
        }
    }

    /// The payload of a `Char` value, or nothing on any other tag.
    pub fn try_as_char(&self) -> (r: Option<char>)
        ensures
            match r {
                Some(v) => *self == Value::Char(v),
                None => !(self is Char),
            },
    {
        match self {
            Value::Char(v) => Some(*v),
            _ => None,
        }
    }

    /// The seconds-since-epoch payload of a `DateTime` value.
    pub fn as_date_time(&self) -> (r: i64)
        requires
            self is DateTime,
        ensures
            *self == Value::DateTime(r),
    {
        match self {
            Value::DateTime(v) => *v,
            _ => vstd::pervasive::unreached(),
        }
    }

    /// The seconds-since-epoch payload of a `DateTime` value, or nothing.
    pub fn try_as_date_time(&self) -> (r: Option<i64>)
        ensures
            match r {
                Some(v) => *self == Value::DateTime(v),
                None => !(self is DateTime),
            },
    {
        match self {
            Value::DateTime(v) => Some(*v),
            _ => None,
        }
    }

    /// The text of a `String` or `Str` value; demands one of the two tags.
    pub fn as_string(&self) -> (r: String)
        requires
            self is String || self is Str,
        ensures
            (self matches Value::String(v) ==> r@ == v@),
            (self matches Value::Str(v) ==> r@ == v@),
    {
        match self {
            Value::String(v) => v.clone(),
            Value::Str(v) => v.clone(),
            _ => vstd::pervasive::unreached(),
        }
    }

    /// The text of a `String` or `Str` value, or nothing on any other tag.
    pub fn try_as_string(&self) -> (r: Option<String>)
        ensures
            match r {
                Some(text) => (self matches Value::String(v) && text@ == v@) || (self matches
                    Value::Str(v) && text@ == v@),
                None => !(self is String) && !(self is Str),
            },
    {
        match self {
            Value::String(v) => Some(v.clone()),
            Value::Str(v) => Some(v.clone()),
            _ => None,
        }
    }

    /// The elements of a `Sequence` value; demands the right tag.
    pub fn as_vec(&self) -> (r: &Vec<Value>)
        requires
            self is Sequence,
        ensures
            *self == Value::Sequence(*r),
    {
        match self {
            Value::Sequence(v) => v,
            _ => vstd::pervasive::unreached(),
        }
    }

    /// The elements of a `Sequence` value, or nothing on any other tag.
    pub fn try_as_vec(&self) -> (r: Option<&Vec<Value>>)
        ensures
            match r {
                Some(v) => *self == Value::Sequence(*v),
                None => !(self is Sequence),
            },
    {
        match self {
            Value::Sequence(v) => Some(v),
            _ => None,
        }
    }

    /// The nested store of an `Attributes` value; demands the right tag.
    pub fn as_attributes(&self) -> (r: &Attributes)
        requires
            self is Attributes,
        ensures
            *self == Value::Attributes(*r),
    {
        match self {
            Value::Attributes(v) => v,
            _ => vstd::pervasive::unreached(),
        }
    }

    /// The nested store of an `Attributes` value, or nothing on another tag.
    pub fn try_as_attributes(&self) -> (r: Option<&Attributes>)
        ensures
            match r {
                Some(v) => *self == Value::Attributes(*v),
                None => !(self is Attributes),
            },
    {
        match self {
            Value::Attributes(v) => Some(v),
            _ => None,
        }
    }
}

impl From<bool> for Value {
    /// Wrap the scalar under its own tag.
    fn from(input: bool) -> (r: Value)
        ensures
            r == Value::Bool(input),
    {
        Value::Bool(input)
    }
}

impl vstd::std_specs::convert::FromSpecImpl<bool> for Value {
    open spec fn obeys_from_spec() -> bool {
        true
    }

    open spec fn from_spec(v: bool) -> Value {
        Value::Bool(v)
    }
}

impl From<u8> for Value {
    /// Wrap the scalar under its own tag.
    fn from(input: u8) -> (r: Value)
        ensures
            r == Value::U8(input),
    {
        Value::U8(input)
    }
}

impl vstd::std_specs::convert::FromSpecImpl<u8> for Value {
    open spec fn obeys_from_spec() -> bool {
        true
    }

    open spec fn from_spec(v: u8) -> Value {
        Value::U8(v)
    }
}

impl From<u16> for Value {
    /// Wrap the scalar under its own tag.
    fn from(input: u16) -> (r: Value)
        ensures
            r == Value::U16(input),
    {
        Value::U16(input)
    }
}

impl vstd::std_specs::convert::FromSpecImpl<u16> for Value {
    open spec fn obeys_from_spec() -> bool {
        true
    }

    open spec fn from_spec(v: u16) -> Value {
        Value::U16(v)
    }
}

impl From<u32> for Value {
    /// Wrap the scalar under its own tag.
    fn from(input: u32) -> (r: Value)
        ensures
            r == Value::U32(input),
    {
        Value::U32(input)
    }
}

impl vstd::std_specs::convert::FromSpecImpl<u32> for Value {
    open spec fn obeys_from_spec() -> bool {
        true
    }

    open spec fn from_spec(v: u32) -> Value {
        Value::U32(v)
    }
}

impl From<u64> for Value {
    /// Wrap the scalar under its own tag.
    fn from(input: u64) -> (r: Value)
        ensures
            r == Value::U64(input),
    {
        Value::U64(input)
    }
}

impl vstd::std_specs::convert::FromSpecImpl<u64> for Value {
    open spec fn obeys_from_spec() -> bool {
        true
    }

    open spec fn from_spec(v: u64) -> Value {
        Value::U64(v)
    }
}

impl From<i8> for Value {
    /// Wrap the scalar under its own tag.
    fn from(input: i8) -> (r: Value)
        ensures
            r == Value::I8(input),
    {
        Value::I8(input)
    }
}

impl vstd::std_specs::convert::FromSpecImpl<i8> for Value {
    open spec fn obeys_from_spec() -> bool {
        true
    }

    open spec fn from_spec(v: i8) -> Value {
        Value::I8(v)
    }
}

impl From<i16> for Value {
    /// Wrap the scalar under its own tag.
    fn from(input: i16) -> (r: Value)
        ensures
            r == Value::I16(input),
    {
        Value::I16(input)
    }
}

impl vstd::std_specs::convert::FromSpecImpl<i16> for Value {
    open spec fn obeys_from_spec() -> bool {
        true
    }

    open spec fn from_spec(v: i16) -> Value {
        Value::I16(v)
    }
}

impl From<i32> for Value {
    /// Wrap the scalar under its own tag.
    fn from(input: i32) -> (r: Value)
        ensures
            r == Value::I32(input),
    {
        Value::I32(input)
    }
}

impl vstd::std_specs::convert::FromSpecImpl<i32> for Value {
    open spec fn obeys_from_spec() -> bool {
        true
    }

    open spec fn from_spec(v: i32) -> Value {
        Value::I32(v)
    }
}

impl From<i64> for Value {
    /// Wrap the scalar under its own tag.
    fn from(input: i64) -> (r: Value)
        ensures
            r == Value::I64(input),
    {
        Value::I64(input)
    }
}

impl vstd::std_specs::convert::FromSpecImpl<i64> for Value {
    open spec fn obeys_from_spec() -> bool {
        true
    }

    open spec fn from_spec(v: i64) -> Value {
        Value::I64(v)
    }
}

impl From<usize> for Value {
    /// Wrap the scalar under its own tag.
    fn from(input: usize) -> (r: Value)
        ensures
            r == Value::USize(input),
    {
        Value::USize(input)
    }
}

impl vstd::std_specs::convert::FromSpecImpl<usize> for Value {
    open spec fn obeys_from_spec() -> bool {
        true
    }

    open spec fn from_spec(v: usize) -> Value {
        Value::USize(v)
    }
}

impl From<char> for Value {
    /// Wrap the scalar under its own tag.
    fn from(input: char) -> (r: Value)
        ensures
            r == Value::Char(input),
    {
        Value::Char(input)
    }
}

impl vstd::std_specs::convert::FromSpecImpl<char> for Value {
    open spec fn obeys_from_spec() -> bool {
        true
    }

    open spec fn from_spec(v: char) -> Value {
        Value::Char(v)
    }
}

impl From<String> for Value {
    /// Wrap the owned text under the `String` tag.
    fn from(input: String) -> (r: Value)
        ensures
            r == Value::String(input),
    {
        Value::String(input)
    }
}

impl vstd::std_specs::convert::FromSpecImpl<String> for Value {
    open spec fn obeys_from_spec() -> bool {
        true
    }

    open spec fn from_spec(v: String) -> Value {
        Value::String(v)
    }
}

impl From<&str> for Value {
    /// Wrap borrowed text as an owned `Str` value.
    fn from(input: &str) -> (r: Value)
        ensures
            r matches Value::Str(v) && v@ == input@,
    {
        Value::Str(input.to_owned())
    }
}

impl vstd::std_specs::convert::FromSpecImpl<&str> for Value {
    open spec fn obeys_from_spec() -> bool {
        false
    }

    open spec fn from_spec(v: &str) -> Value {
        Value::Unit
    }
}

impl From<Box<Value>> for Value {
    /// Wrap a boxed value under the `Newtype` tag.
    fn from(input: Box<Value>) -> (r: Value)
        ensures
            r == Value::Newtype(input),
    {
        Value::Newtype(input)
    }
}

impl vstd::std_specs::convert::FromSpecImpl<Box<Value>> for Value {
    open spec fn obeys_from_spec() -> bool {
        true
    }

    open spec fn from_spec(v: Box<Value>) -> Value {
        Value::Newtype(v)
    }
}

impl From<TreeNodeId> for Value {
    /// Wrap a node id under its own tag.
    fn from(input: TreeNodeId) -> (r: Value)
        ensures
            r == Value::NodeId(input),
    {
        Value::NodeId(input)
    }
}

impl vstd::std_specs::convert::FromSpecImpl<TreeNodeId> for Value {
    open spec fn obeys_from_spec() -> bool {
        true
    }

    open spec fn from_spec(v: TreeNodeId) -> Value {
        Value::NodeId(v)
    }
}

} // verus!
