//! JSON values, as far as the bar reads them.
use vstd::prelude::*;

use crate::text;

verus! {

/// A JSON value. Numbers carry what can be read from them: the value as an
/// unsigned integer, if it is one, and as a 32-bit float, by its bits.
#[derive(Debug)]
pub enum Json {
    Null,
    Bool(bool),
    Number { unsigned: Option<u64>, bits: u32 },
    Text(String),
    List(Vec<Json>),
    Record(Vec<(String, Json)>),
}

/// The value of the first entry named `key`.
pub open spec fn lookup(entries: Seq<(String, Json)>, key: Seq<char>) -> Option<Json>
    decreases entries.len(),
{
    if entries.len() == 0 {
        None
    } else if entries[0].0@ == key {
        Some(entries[0].1)
    } else {
        lookup(entries.drop_first(), key)
    }
}

impl Json {
    /// The value named `key`, of a record that has it.
    pub open spec fn at(self, key: Seq<char>) -> Option<Json> {
        match self {
            Json::Record(entries) => lookup(entries@, key),
            _ => None,
        }
    }

    pub open spec fn unsigned(self) -> Option<u64> {
        match self {
            Json::Number { unsigned, .. } => unsigned,
            _ => None,
        }
    }

    pub open spec fn float(self) -> Option<u32> {
        match self {
            Json::Number { bits, .. } => Some(bits),
            _ => None,
        }
    }

    pub open spec fn boolean(self) -> Option<bool> {
        match self {
            Json::Bool(b) => Some(b),
            _ => None,
        }
    }

    pub open spec fn text(self) -> Option<Seq<char>> {
        match self {
            Json::Text(s) => Some(s@),
            _ => None,
        }
    }

    pub open spec fn list(self) -> Option<Seq<Json>> {
        match self {
            Json::List(v) => Some(v@),
            _ => None,
        }
    }

    /// The value named `key`, of a record that has it.
    pub fn get(&self, key: &str) -> (r: Option<&Json>)
        ensures
            match r {
                Some(v) => self.at(key@) == Some(*v),
                None => self.at(key@) is None,
            },
    {
        match self {
            Json::Record(entries) => {
                let mut i: usize = 0;
                assert(entries@.skip(0) == entries@);
                while i < entries.len()
                    invariant
                        *self == Json::Record(*entries),
                        i <= entries@.len(),
                        lookup(entries@, key@) == lookup(entries@.skip(i as int), key@),
                    decreases entries@.len() - i,
                {
                    let entry = &entries[i];
                    assert(entries@.skip(i as int)[0] == *entry);
                    if text::same(entry.0.as_str(), key) {
                        return Some(&entry.1);
                    }
                    assert(entries@.skip(i as int).drop_first() == entries@.skip(i + 1));
                    i += 1;
                }
                None
            },
            _ => None,
        }
    }

    pub fn is_null(&self) -> (r: bool)
        ensures
            r == (*self is Null),
    {
        match self {
            Json::Null => true,
            _ => false,
        }
    }

    pub fn as_u64(&self) -> (r: Option<u64>)
        ensures
            r == self.unsigned(),
    {
        match self {
            Json::Number { unsigned, .. } => *unsigned,
            _ => None,
        }
    }

    /// The number as a 32-bit float, by its bits.
    pub fn as_bits(&self) -> (r: Option<u32>)
        ensures
            r == self.float(),
    {
        match self {
            Json::Number { bits, .. } => Some(*bits),
            _ => None,
        }
    }

    pub fn as_bool(&self) -> (r: Option<bool>)
        ensures
            r == self.boolean(),
    {
        match self {
            Json::Bool(b) => Some(*b),
            _ => None,
        }
    }

    pub fn as_str(&self) -> (r: Option<&str>)
        ensures
            match r {
                Some(s) => self.text() == Some(s@),
                None => self.text() is None,
            },
    {
        match self {
            Json::Text(s) => Some(s.as_str()),
            _ => None,
        }
    }

    pub fn as_array(&self) -> (r: Option<&Vec<Json>>)
        ensures
            match r {
                Some(v) => self.list() == Some(v@),
                None => self.list() is None,
            },
    {
        match self {
            Json::List(v) => Some(v),
            _ => None,
        }
    }
}

/// Of several entries of a name the first counts, and there is none exactly if
/// no entry has the name.
pub proof fn law_first_entry(entries: Seq<(String, Json)>, key: Seq<char>)
    ensures
        match lookup(entries, key) {
            Some(v) => exists|i: int|
                0 <= i < entries.len() && (#[trigger] entries[i]).0@ == key && v == entries[i].1
                    && forall|j: int| 0 <= j < i ==> (#[trigger] entries[j]).0@ != key,
            None => forall|i: int| 0 <= i < entries.len() ==> (#[trigger] entries[i]).0@ != key,
        },
    decreases entries.len(),
{
    if entries.len() > 0 {
        let rest = entries.drop_first();
        law_first_entry(rest, key);
        if entries[0].0@ == key {
            assert(entries[0].1 == entries[0].1);
        } else if lookup(rest, key) is Some {
            let v = lookup(rest, key).unwrap();
            let i = choose|i: int|
                0 <= i < rest.len() && (#[trigger] rest[i]).0@ == key && v == rest[i].1
                    && forall|j: int| 0 <= j < i ==> (#[trigger] rest[j]).0@ != key;
            assert forall|j: int| 0 <= j < i + 1 implies (#[trigger] entries[j]).0@ != key by {
                if j > 0 {
                    assert(rest[j - 1] == entries[j]);
                }
            }
            assert(entries[i + 1] == rest[i]);
        } else {
            assert forall|i: int| 0 <= i < entries.len() implies (#[trigger] entries[i]).0@
                != key by {
                if i > 0 {
                    assert(rest[i - 1] == entries[i]);
                }
            }
        }
    }
}

/// A value is read as what it is and as nothing else: only a record has named
/// values, only a list has items, and a text, a boolean or a number is what was
/// put in.
pub proof fn law_read_as_it_is(v: Json, key: Seq<char>)
    ensures
        v.at(key) is Some ==> v is Record,
        v matches Json::Record(entries) ==> v.at(key) == lookup(entries@, key),
        v.boolean() is Some <==> v is Bool,
        v matches Json::Bool(b) ==> v.boolean() == Some(b),
        v.text() is Some <==> v is Text,
        v matches Json::Text(s) ==> v.text() == Some(s@),
        v.list() is Some <==> v is List,
        v matches Json::List(l) ==> v.list() == Some(l@),
        v.float() is Some <==> v is Number,
        v.unsigned() is Some ==> v is Number,
        v matches Json::Number { unsigned, bits } ==> v.unsigned() == unsigned && v.float() == Some(
            bits,
        ),
{
}

} // verus!
