//! A model of the dynamically typed values that cross the RPC boundary:
//! the closed set of shapes the router and proxy read and build.
use vstd::prelude::*;
use crate::datetime::QxDateTime;

verus! {

/// A dynamic RPC value: scalars, lists, string-keyed maps and integer-keyed
/// maps. A double is carried as its IEEE 754 bit pattern.
#[derive(Debug)]
pub enum RpcValue {
    Null,
    Bool(bool),
    Int(i64),
    Double(u64),
    Str(String),
    DateTime(QxDateTime),
    List(Vec<RpcValue>),
    StrMap(Vec<(String, RpcValue)>),
    IntMap(Vec<(i64, RpcValue)>),
}

impl RpcValue {
    /// The string a value carries; anything but a string reads as empty,
    /// as the wire protocol's accessors do.
    pub fn as_str(&self) -> (r: &str)
        ensures
            r@ == spec_as_str(*self),
    {
        match self {
            RpcValue::Str(s) => s.as_str(),
            _ => "",
        }
    }

    /// The integer a value carries; anything but an integer reads as zero.
    pub fn as_i64(&self) -> (r: i64)
        ensures
            r == spec_as_i64(*self),
    {
        match self {
            RpcValue::Int(i) => *i,
            _ => 0,
        }
    }

    /// The value under an integer key of an integer-keyed map.
    pub fn get_ikey(&self, key: i64) -> (r: Option<&RpcValue>)
        ensures
            match r {
                Some(v) => spec_get_ikey(*self, key) == Some(*v),
                None => spec_get_ikey(*self, key) is None,
            },
    {
        match self {
            RpcValue::IntMap(entries) => {
                let ghost es = entries@;
                let mut i: usize = 0;
                while i < entries.len()
                    invariant
                        i <= entries@.len(),
                        es == entries@,
                        *self == RpcValue::IntMap(*entries),
                        forall|j: int| 0 <= j < i ==> es[j].0 != key,
                    decreases entries@.len() - i,
                {
                    if entries[i].0 == key {
                        proof {
                            lemma_find_ikey(es, key);
                        }
                        return Some(&entries[i].1);
                    }
                    i = i + 1;
                }
                proof {
                    lemma_find_ikey(es, key);
                }
                None
            },
            _ => None,
        }
    }
}

pub open spec fn spec_as_str(v: RpcValue) -> Seq<char> {
    match v {
        RpcValue::Str(s) => s@,
        _ => ""@,
    }
}

pub open spec fn spec_as_i64(v: RpcValue) -> i64 {
    match v {
        RpcValue::Int(i) => i,
        _ => 0,
    }
}

/// The first entry of an integer-keyed map holding `key`.
pub open spec fn find_ikey(entries: Seq<(i64, RpcValue)>, key: i64) -> Option<int>
    decreases entries.len(),
{
    if entries.len() == 0 {
        None
    } else if entries[0].0 == key {
        Some(0)
    } else {
        match find_ikey(entries.drop_first(), key) {
            None => None,
            Some(i) => Some(i + 1),
        }
    }
}

pub proof fn lemma_find_ikey(entries: Seq<(i64, RpcValue)>, key: i64)
    ensures
        match find_ikey(entries, key) {
            Some(i) => 0 <= i < entries.len() && entries[i].0 == key && forall|j: int|
                0 <= j < i ==> entries[j].0 != key,
            None => forall|j: int| 0 <= j < entries.len() ==> entries[j].0 != key,
        },
    decreases entries.len(),
{
    if entries.len() > 0 && entries[0].0 != key {
        let d = entries.drop_first();
        lemma_find_ikey(d, key);
        match find_ikey(d, key) {
            Some(i0) => {
                assert(entries[i0 + 1] == d[i0]);
                assert forall|j: int| 0 <= j < i0 + 1 implies entries[j].0 != key by {
                    if j > 0 {
                        assert(d[j - 1] == entries[j]);
                    }
                }
            },
            None => {
                assert forall|j: int| 0 <= j < entries.len() implies entries[j].0 != key by {
                    if j > 0 {
                        assert(d[j - 1] == entries[j]);
                    }
                }
            },
        }
    }
}

/// What looking up an integer key in a value yields: the first matching
/// entry of an integer-keyed map, nothing for any other shape.
pub open spec fn spec_get_ikey(v: RpcValue, key: i64) -> Option<RpcValue> {
    match v {
        RpcValue::IntMap(entries) => match find_ikey(entries@, key) {
            Some(i) => Some(entries@[i].1),
            None => None,
        },
        _ => None,
    }
}

} // verus!
