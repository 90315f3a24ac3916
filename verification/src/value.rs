//! Convenience accessors on the parsed value tree, and the `Value` name
//! under which callers usually see it.

use vstd::prelude::*;

use crate::jsonvalue::JSONValue;
use crate::jsonvalue::SpecValue;
use crate::jsonvalue::element_views;
use crate::jsonvalue::entries_value;

pub use crate::jsonvalue::JSONValue as Value;

verus! {

impl JSONValue {
    /// Returns true if the value is null.
    pub fn is_null(&self) -> (b: bool)
        ensures
            b == (self@ is Null),
    {
        matches!(self, JSONValue::Null)
    }

    /// Returns true if the value is a boolean.
    pub fn is_bool(&self) -> (b: bool)
        ensures
            b == (self@ is Bool),
    {
        matches!(self, JSONValue::Bool(_))
    }

    /// Returns true if the value is a number.
    pub fn is_number(&self) -> (b: bool)
        ensures
            b == (self@ is Number),
    {
        matches!(self, JSONValue::Number(_))
    }

    /// Returns true if the value is a string.
    pub fn is_string(&self) -> (b: bool)
        ensures
            b == (self@ is String),
    {
        matches!(self, JSONValue::String(_))
    }

    /// Returns true if the value is an array.
    pub fn is_array(&self) -> (b: bool)
        ensures
            b == (self@ is Array),
    {
        matches!(self, JSONValue::Array(_))
    }

    /// Returns true if the value is an object.
    pub fn is_object(&self) -> (b: bool)
        ensures
            b == (self@ is Object),
    {
        matches!(self, JSONValue::Object(_))
    }

    /// The boolean carried by a `Bool` value.
    pub fn as_bool(&self) -> (r: Option<bool>)
        ensures
            match r {
                Some(b) => self@ == SpecValue::Bool(b),
                None => !(self@ is Bool),
            },
    {
        match self {
            JSONValue::Bool(b) => Some(*b),
            _ => None,
        }
    }

    /// The validated literal text carried by a `Number` value.
    pub fn as_number(&self) -> (r: Option<&String>)
        ensures
            match r {
                Some(s) => self@ == SpecValue::Number(s@),
                None => !(self@ is Number),
            },
    {
        match self {
            JSONValue::Number(n) => Some(n),
            _ => None,
        }
    }

    /// The text carried by a `String` value.
    pub fn as_str(&self) -> (r: Option<&str>)
        ensures
            match r {
                Some(s) => self@ == SpecValue::String(s@),
                None => !(self@ is String),
            },
    {
        match self {
            JSONValue::String(s) => Some(s.as_str()),
            _ => None,
        }
    }

    /// The elements carried by an `Array` value.
    pub fn as_array(&self) -> (r: Option<&Vec<JSONValue>>)
        ensures
            match r {
                Some(a) => self@ == SpecValue::Array(element_views(a@)),
                None => !(self@ is Array),
            },
    {
        match self {
            JSONValue::Array(arr) => Some(arr),
            _ => None,
        }
    }

    /// Looks a key up in an object: yields the value of the last entry
    /// holding that key, which is what the entry list means as a map.
    /// Yields nothing on a missing key or on a value that is not an
    /// object.
    pub fn get(&self, key: &str) -> (r: Option<&JSONValue>)
        ensures
            match self@ {
                SpecValue::Object(m) => match r {
                    Some(v) => m.contains_key(key@) && v@ == m[key@],
                    None => !m.contains_key(key@),
                },
                _ => r is None,
            },
    {
        let entries = match self {
            JSONValue::Object(entries) => entries,
            _ => {
                return None;
            },
        };
        let key_owned = key.to_owned();
        let mut i: usize = entries.len();
        proof {
            assert(entries@.take(entries@.len() as int) =~= entries@);
        }
        while i > 0
            invariant
                i <= entries@.len(),
                key_owned@ == key@,
                self@ == SpecValue::Object(entries_value(entries@)),
                entries_value(entries@).contains_key(key@) == entries_value(
                    entries@.take(i as int),
                ).contains_key(key@),
                entries_value(entries@).contains_key(key@) ==> entries_value(entries@)[key@]
                    == entries_value(entries@.take(i as int))[key@],
            decreases i,
        {
            proof {
                assert(entries@.take(i as int).drop_last() =~= entries@.take(i as int - 1));
                assert(entries@.take(i as int).last() == entries@[i as int - 1]);
            }
            if entries[i - 1].0 == key_owned {
                return Some(&entries[i - 1].1);
            }
            i = i - 1;
        }
        proof {
            assert(entries@.take(0) =~= Seq::<(String, JSONValue)>::empty());
        }
        None
    }

    /// The key/value entries carried by an `Object` value.
    pub fn as_object(&self) -> (r: Option<&Vec<(String, JSONValue)>>)
        ensures
            match r {
                Some(entries) => self@ == SpecValue::Object(entries_value(entries@)),
                None => !(self@ is Object),
            },
    {
        match self {
            JSONValue::Object(entries) => Some(entries),
            _ => None,
        }
    }
}

} // verus!
