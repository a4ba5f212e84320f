//! Parsed documents (TOML tables, JSON values) as plain data.
use crate::text::{chars_eq, chars_of};
use vstd::prelude::*;

verus! {

/// A value of a parsed TOML or JSON document.
#[derive(Debug)]
pub enum Value {
    Str(String),
    Int(i64),
    Bool(bool),
    /// Any other scalar (float, date-time, null), with the text it displays.
    Other(String),
    List(Vec<Value>),
    /// A table or object: its entries in document order, keys distinct.
    Table(Vec<(String, Value)>),
}

/// The value of the first entry named `key`.
pub open spec fn entry(entries: Seq<(String, Value)>, key: Seq<char>) -> Option<Value>
    decreases entries.len(),
{
    if entries.len() == 0 {
        None
    } else if entries[0].0@ == key {
        Some(entries[0].1)
    } else {
        entry(entries.drop_first(), key)
    }
}

/// `v[key]` when `v` is a table holding `key`.
pub open spec fn field(v: Value, key: Seq<char>) -> Option<Value> {
    match v {
        Value::Table(entries) => entry(entries@, key),
        _ => None,
    }
}

/// `o[key]` when `o` is a table holding `key`.
pub open spec fn field_of(o: Option<Value>, key: Seq<char>) -> Option<Value> {
    match o {
        Some(v) => field(v, key),
        None => None,
    }
}

/// The text of a string value.
pub open spec fn text_of(o: Option<Value>) -> Option<Seq<char>> {
    match o {
        Some(Value::Str(s)) => Some(s@),
        _ => None,
    }
}

/// The truth value of a boolean.
pub open spec fn bool_of(o: Option<Value>) -> Option<bool> {
    match o {
        Some(Value::Bool(b)) => Some(b),
        _ => None,
    }
}

/// The items of an array.
pub open spec fn list_of(o: Option<Value>) -> Option<Seq<Value>> {
    match o {
        Some(Value::List(items)) => Some(items@),
        _ => None,
    }
}

/// The entries of a table.
pub open spec fn map_of(o: Option<Value>) -> Option<Seq<(String, Value)>> {
    match o {
        Some(Value::Table(entries)) => Some(entries@),
        _ => None,
    }
}

impl Value {
    /// The value stored under `key`, when this is a table holding it.
    pub fn get(&self, key: &str) -> (r: Option<&Value>)
        ensures
            match field(*self, key@) {
                Some(v) => r matches Some(x) && *x == v,
                None => r is None,
            },
    {
        match self {
            Value::Table(entries) => {
                let k = chars_of(key);
                let mut i: usize = 0;
                assert(entries@.skip(0) =~= entries@);
                while i < entries.len()
                    invariant
                        i <= entries.len(),
                        k@ == key@,
                        field(*self, key@) == entry(entries@.skip(i as int), key@),
                    decreases entries.len() - i,
                {
                    assert(entries@.skip(i as int)[0] == entries@[i as int]);
                    assert(entries@.skip(i as int).drop_first() =~= entries@.skip(i + 1));
                    if chars_eq(&chars_of(entries[i].0.as_str()), &k) {
                        return Some(&entries[i].1);
                    }
                    i += 1;
                }
                None
            },
            _ => None,
        }
    }

    /// The text, when this is a string.
    pub fn as_str(&self) -> (r: Option<&str>)
        ensures
            match *self {
                Value::Str(s) => r matches Some(x) && x@ == s@,
                _ => r is None,
            },
    {
        match self {
            Value::Str(s) => Some(s.as_str()),
            _ => None,
        }
    }

    /// The truth value, when this is a boolean.
    pub fn as_bool(&self) -> (r: Option<bool>)
        ensures
            r == bool_of(Some(*self)),
    {
        match self {
            Value::Bool(b) => Some(*b),
            _ => None,
        }
    }

    /// The items, when this is an array.
    pub fn as_list(&self) -> (r: Option<&Vec<Value>>)
        ensures
            match *self {
                Value::List(items) => r matches Some(x) && *x == items,
                _ => r is None,
            },
    {
        match self {
            Value::List(items) => Some(items),
            _ => None,
        }
    }

    /// The entries, when this is a table.
    pub fn as_map(&self) -> (r: Option<&Vec<(String, Value)>>)
        ensures
            match *self {
                Value::Table(entries) => r matches Some(x) && *x == entries,
                _ => r is None,
            },
    {
        match self {
            Value::Table(entries) => Some(entries),
            _ => None,
        }
    }
}

} // verus!
