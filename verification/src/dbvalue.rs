//! The dynamically typed scalar and the ordered field-name-to-scalar record
//! that the generic SQL layer works on.
use vstd::prelude::*;
use crate::datetime::QxDateTime;

verus! {

/// A tagged scalar: the closed set of value kinds a record field can hold.
/// A double is carried as its IEEE 754 bit pattern.
#[derive(Debug, Clone)]
pub enum DbValue {
    Null,
    Bool(bool),
    Int(i64),
    Double(u64),
    String(String),
    Blob(Vec<u8>),
    DateTime(QxDateTime),
}

/// The mathematical model of a `DbValue`.
pub enum DbVal {
    Null,
    Bool(bool),
    Int(i64),
    Double(u64),
    Str(Seq<char>),
    Blob(Seq<u8>),
    DateTime(QxDateTime),
}

impl View for DbValue {
    type V = DbVal;

    open spec fn view(&self) -> DbVal {
        match self {
            DbValue::Null => DbVal::Null,
            DbValue::Bool(b) => DbVal::Bool(*b),
            DbValue::Int(i) => DbVal::Int(*i),
            DbValue::Double(bits) => DbVal::Double(*bits),
            DbValue::String(s) => DbVal::Str(s@),
            DbValue::Blob(b) => DbVal::Blob(b@),
            DbValue::DateTime(dt) => DbVal::DateTime(*dt),
        }
    }
}

impl DbValue {
    /// A copy whose model equals this value's.
    pub fn duplicate(&self) -> (r: DbValue)
        ensures
            r@ == self@,
    {
        match self {
            DbValue::Null => DbValue::Null,
            DbValue::Bool(b) => DbValue::Bool(*b),
            DbValue::Int(i) => DbValue::Int(*i),
            DbValue::Double(bits) => DbValue::Double(*bits),
            DbValue::String(s) => DbValue::String(s.clone()),
            DbValue::Blob(b) => DbValue::Blob(b.clone()),
            DbValue::DateTime(dt) => DbValue::DateTime(*dt),
        }
    }
}

/// An ordered mapping from column name to scalar, used uniformly for SQL
/// parameters and result rows.
pub type Record = Vec<(String, DbValue)>;

/// The model of a record: its fields as (name, value) pairs, in order.
pub open spec fn record_view(r: Seq<(String, DbValue)>) -> Seq<(Seq<char>, DbVal)> {
    r.map_values(|p: (String, DbValue)| (p.0@, p.1@))
}

} // verus!
