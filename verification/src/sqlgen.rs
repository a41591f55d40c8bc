//! The generic SQL engine: turns dynamically typed records into
//! parameterized statements, never interpolating values into SQL text.
use vstd::prelude::*;
use crate::datetime::rfc3339_chars;
use crate::datetime::QxDateTime;
use crate::dbvalue::DbVal;
use crate::dbvalue::DbValue;
use crate::dbvalue::Record;
use crate::dbvalue::record_view;
use crate::error::Error;
use crate::text::chars_to_string;
use crate::text::push_str_chars;

verus! {

/// A native SQL parameter value, mirroring the storage engine's own types.
/// A real is carried as its IEEE 754 bit pattern.
#[derive(Debug, Clone)]
pub enum SqlValue {
    Null,
    Integer(i64),
    Real(u64),
    Text(String),
    Blob(Vec<u8>),
}

/// The mathematical model of a `SqlValue`.
pub enum SqlVal {
    Null,
    Integer(i64),
    Real(u64),
    Text(Seq<char>),
    Blob(Seq<u8>),
}

impl View for SqlValue {
    type V = SqlVal;

    open spec fn view(&self) -> SqlVal {
        match self {
            SqlValue::Null => SqlVal::Null,
            SqlValue::Integer(i) => SqlVal::Integer(*i),
            SqlValue::Real(bits) => SqlVal::Real(*bits),
            SqlValue::Text(s) => SqlVal::Text(s@),
            SqlValue::Blob(b) => SqlVal::Blob(b@),
        }
    }
}

/// How each scalar tag converts to a SQL parameter. A boolean becomes the
/// integer 0 or 1, a timestamp its RFC 3339 text; a timestamp whose fields
/// no calendar holds cannot be converted.
pub open spec fn spec_convert(v: DbVal) -> Option<SqlVal> {
    match v {
        DbVal::Null => Some(SqlVal::Null),
        DbVal::Bool(b) => Some(
            SqlVal::Integer(
                if b {
                    1
                } else {
                    0
                },
            ),
        ),
        DbVal::Int(i) => Some(SqlVal::Integer(i)),
        DbVal::Double(bits) => Some(SqlVal::Real(bits)),
        DbVal::Str(s) => Some(SqlVal::Text(s)),
        DbVal::Blob(b) => Some(SqlVal::Blob(b)),
        DbVal::DateTime(dt) => if dt.wf() {
            Some(SqlVal::Text(rfc3339_chars(dt)))
        } else {
            None
        },
    }
}

/// Converts one record field to a SQL parameter value; a value that has no
/// SQL rendering is a hard conversion error naming the field.
pub fn convert_dbvalue_to_sql(key: &str, value: &DbValue) -> (r: Result<SqlValue, Error>)
    ensures
        match r {
            Ok(sv) => spec_convert(value@) == Some(sv@),
            Err(e) => {
                &&& spec_convert(value@) is None
                &&& e matches Error::BadValue(k)
                &&& k@ == key@
            },
        },
{
    match value {
        DbValue::Null => Ok(SqlValue::Null),
        DbValue::Bool(b) => Ok(
            SqlValue::Integer(
                if *b {
                    1
                } else {
                    0
                },
            ),
        ),
        DbValue::Int(i) => Ok(SqlValue::Integer(*i)),
        DbValue::Double(bits) => Ok(SqlValue::Real(*bits)),
        DbValue::String(s) => Ok(SqlValue::Text(s.clone())),
        DbValue::Blob(b) => Ok(SqlValue::Blob(b.clone())),
        DbValue::DateTime(dt) => {
            if dt.is_wf() {
                Ok(SqlValue::Text(crate::datetime::to_rfc3339(dt)))
            } else {
                Err(Error::BadValue(str_to_string(key)))
            }
        },
    }
}

/// Copies a borrowed string.
fn str_to_string(s: &str) -> (r: String)
    ensures
        r@ == s@,
{
    <String as vstd::string::StringExecFns>::from_str(s)
}

/// The model of a parameter list: (placeholder name, value) pairs in order.
pub open spec fn params_view(p: Seq<(String, SqlValue)>) -> Seq<(Seq<char>, SqlVal)> {
    p.map_values(|q: (String, SqlValue)| (q.0@, q.1@))
}

/// The first field of the record, from index `i` on, whose value does not
/// convert to a SQL parameter.
pub open spec fn first_bad_from(rec: Seq<(Seq<char>, DbVal)>, i: int) -> Option<int>
    decreases rec.len() - i,
{
    if i < 0 || i >= rec.len() {
        None
    } else if spec_convert(rec[i].1) is None {
        Some(i)
    } else {
        first_bad_from(rec, i + 1)
    }
}

/// The parameters of a fully convertible record: each field name prefixed
/// with `:`, each value converted.
pub open spec fn spec_params(rec: Seq<(Seq<char>, DbVal)>) -> Seq<(Seq<char>, SqlVal)> {
    rec.map_values(|p: (Seq<char>, DbVal)| (seq![':'] + p.0, spec_convert(p.1)->Some_0))
}

/// Turns a record into named SQL parameters, `:name` for field `name`;
/// fails on the first field whose value has no SQL rendering.
pub fn process_record_params(record: &Record) -> (r: Result<Vec<(String, SqlValue)>, Error>)
    ensures
        match r {
            Ok(params) => first_bad_from(record_view(record@), 0) is None && params_view(params@)
                == spec_params(record_view(record@)),
            Err(e) => {
                &&& first_bad_from(record_view(record@), 0) matches Some(i)
                &&& e matches Error::BadValue(k)
                &&& k@ == record_view(record@)[first_bad_from(record_view(record@), 0)->Some_0].0
            },
        },
{
    let ghost rv = record_view(record@);
    let mut params: Vec<(String, SqlValue)> = Vec::new();
    let mut i: usize = 0;
    while i < record.len()
        invariant
            i <= record@.len(),
            rv == record_view(record@),
            rv.len() == record@.len(),
            first_bad_from(rv, 0) == first_bad_from(rv, i as int),
            params@.len() == i,
            params_view(params@) == spec_params(rv.take(i as int)),
        decreases record@.len() - i,
    {
        assert(rv[i as int] == (record@[i as int].0@, record@[i as int].1@));
        let key: &String = &record[i].0;
        let value: &DbValue = &record[i].1;
        match convert_dbvalue_to_sql(key.as_str(), value) {
            Ok(sv) => {
                let ghost params_before = params@;
                let ghost svv = sv@;
                let mut name: Vec<char> = Vec::new();
                name.push(':');
                push_str_chars(&mut name, key.as_str());
                assert(name@ =~= seq![':'] + key@);
                params.push((chars_to_string(&name), sv));
                proof {
                    let pv = params_view(params@);
                    let sp = spec_params(rv.take(i + 1));
                    assert(params@[i as int].0@ == seq![':'] + rv[i as int].0);
                    assert(params@[i as int].1@ == svv);
                    assert forall|j: int| 0 <= j < pv.len() implies pv[j] == sp[j] by {
                        assert(rv.take(i + 1)[j] == rv[j]);
                        if j < i {
                            assert(params@[j] == params_before[j]);
                            assert(params_view(params_before)[j] == spec_params(
                                rv.take(i as int),
                            )[j]);
                            assert(spec_params(rv.take(i as int))[j] == (
                                seq![':'] + rv.take(i as int)[j].0,
                                spec_convert(rv.take(i as int)[j].1)->Some_0,
                            ));
                            assert(rv.take(i as int)[j] == rv[j]);
                        }
                    }
                    assert(pv =~= sp);
                }
            },
            Err(e) => {
                return Err(e);
            },
        }
        i = i + 1;
    }
    assert(rv.take(rv.len() as int) =~= rv);
    Ok(params)
}

/// An identifier is one or more characters from `[A-Za-z0-9_]`. Table and
/// column names come from callers, so anything else is rejected.
pub open spec fn is_ident_char(c: char) -> bool {
    ('A' <= c && c <= 'Z') || ('a' <= c && c <= 'z') || ('0' <= c && c <= '9') || c == '_'
}

pub open spec fn valid_identifier(s: Seq<char>) -> bool {
    s.len() > 0 && forall|i: int| 0 <= i < s.len() ==> is_ident_char(#[trigger] s[i])
}

/// Checks a caller-supplied table or column name against the identifier
/// allowlist.
pub fn check_identifier(s: &str) -> (b: bool)
    ensures
        b == valid_identifier(s@),
{
    let v = crate::text::str_to_chars(s);
    if v.len() == 0 {
        return false;
    }
    let mut i: usize = 0;
    while i < v.len()
        invariant
            i <= v@.len(),
            v@ == s@,
            forall|j: int| 0 <= j < i ==> is_ident_char(#[trigger] v@[j]),
        decreases v@.len() - i,
    {
        let c = v[i];
        if !(('A' <= c && c <= 'Z') || ('a' <= c && c <= 'z') || ('0' <= c && c <= '9')
            || c == '_') {
            return false;
        }
        i = i + 1;
    }
    true
}

/// The parts joined with the separator between consecutive parts.
pub open spec fn spec_join(parts: Seq<Seq<char>>, sep: Seq<char>) -> Seq<char>
    decreases parts.len(),
{
    if parts.len() == 0 {
        Seq::empty()
    } else if parts.len() == 1 {
        parts[0]
    } else {
        spec_join(parts.drop_last(), sep) + sep + parts.last()
    }
}

pub proof fn lemma_join_step(parts: Seq<Seq<char>>, sep: Seq<char>, i: int)
    requires
        0 <= i < parts.len(),
    ensures
        spec_join(parts.take(i + 1), sep) == if i == 0 {
            parts[0]
        } else {
            spec_join(parts.take(i), sep) + sep + parts[i]
        },
{
    let t = parts.take(i + 1);
    if i == 0 {
        assert(t.len() == 1);
        assert(spec_join(t, sep) == t[0]);
    } else {
        assert(t.drop_last() =~= parts.take(i));
        assert(t.last() == parts[i]);
    }
}

/// The field names of a record, in order.
pub open spec fn keys_of(rec: Seq<(Seq<char>, DbVal)>) -> Seq<Seq<char>> {
    rec.map_values(|p: (Seq<char>, DbVal)| p.0)
}

/// The `:name` placeholders of a record's fields, in order.
pub open spec fn placeholders_of(rec: Seq<(Seq<char>, DbVal)>) -> Seq<Seq<char>> {
    rec.map_values(|p: (Seq<char>, DbVal)| seq![':'] + p.0)
}

/// The `name = :name` assignments of a record's fields, in order.
pub open spec fn set_clauses_of(rec: Seq<(Seq<char>, DbVal)>) -> Seq<Seq<char>> {
    rec.map_values(|p: (Seq<char>, DbVal)| p.0 + " = :"@ + p.0)
}

/// Appends the record's field names, comma-separated.
fn push_join_keys(out: &mut Vec<char>, record: &Record)
    ensures
        final(out)@ == old(out)@ + spec_join(keys_of(record_view(record@)), ", "@),
{
    let ghost ks = keys_of(record_view(record@));
    let mut i: usize = 0;
    while i < record.len()
        invariant
            i <= record@.len(),
            ks == keys_of(record_view(record@)),
            ks.len() == record@.len(),
            out@ == old(out)@ + spec_join(ks.take(i as int), ", "@),
        decreases record@.len() - i,
    {
        if i > 0 {
            push_str_chars(out, ", ");
        }
        push_str_chars(out, record[i].0.as_str());
        proof {
            lemma_join_step(ks, ", "@, i as int);
            assert(ks[i as int] == record@[i as int].0@);
        }
        assert(out@ =~= old(out)@ + spec_join(ks.take(i + 1), ", "@));
        i = i + 1;
    }
    assert(ks.take(ks.len() as int) =~= ks);
}

/// Appends the record's `:name` placeholders, comma-separated.
fn push_join_placeholders(out: &mut Vec<char>, record: &Record)
    ensures
        final(out)@ == old(out)@ + spec_join(placeholders_of(record_view(record@)), ", "@),
{
    let ghost ps = placeholders_of(record_view(record@));
    let mut i: usize = 0;
    while i < record.len()
        invariant
            i <= record@.len(),
            ps == placeholders_of(record_view(record@)),
            ps.len() == record@.len(),
            out@ == old(out)@ + spec_join(ps.take(i as int), ", "@),
        decreases record@.len() - i,
    {
        if i > 0 {
            push_str_chars(out, ", ");
        }
        out.push(':');
        push_str_chars(out, record[i].0.as_str());
        proof {
            lemma_join_step(ps, ", "@, i as int);
            assert(ps[i as int] == seq![':'] + record@[i as int].0@);
        }
        assert(out@ =~= old(out)@ + spec_join(ps.take(i + 1), ", "@));
        i = i + 1;
    }
    assert(ps.take(ps.len() as int) =~= ps);
}

/// Appends the record's `name = :name` assignments, comma-separated.
fn push_join_set_clauses(out: &mut Vec<char>, record: &Record)
    ensures
        final(out)@ == old(out)@ + spec_join(set_clauses_of(record_view(record@)), ", "@),
{
    let ghost cs = set_clauses_of(record_view(record@));
    let mut i: usize = 0;
    while i < record.len()
        invariant
            i <= record@.len(),
            cs == set_clauses_of(record_view(record@)),
            cs.len() == record@.len(),
            out@ == old(out)@ + spec_join(cs.take(i as int), ", "@),
        decreases record@.len() - i,
    {
        if i > 0 {
            push_str_chars(out, ", ");
        }
        push_str_chars(out, record[i].0.as_str());
        push_str_chars(out, " = :");
        push_str_chars(out, record[i].0.as_str());
        proof {
            lemma_join_step(cs, ", "@, i as int);
            assert(cs[i as int] == record@[i as int].0@ + " = :"@ + record@[i as int].0@);
        }
        assert(out@ =~= old(out)@ + spec_join(cs.take(i + 1), ", "@));
        i = i + 1;
    }
    assert(cs.take(cs.len() as int) =~= cs);
}

/// A parameterized statement: the SQL text with `:name` placeholders, and
/// the values to bind, never interpolated into the text.
#[derive(Debug, Clone)]
pub struct SqlCommand {
    pub sql: String,
    pub params: Vec<(String, SqlValue)>,
}

/// The first field, from index `i` on, whose name is no valid identifier
/// (`true`) or whose value has no SQL rendering (`false`).
pub open spec fn first_field_err(rec: Seq<(Seq<char>, DbVal)>, i: int) -> Option<(int, bool)>
    decreases rec.len() - i,
{
    if i < 0 || i >= rec.len() {
        None
    } else if !valid_identifier(rec[i].0) {
        Some((i, true))
    } else if spec_convert(rec[i].1) is None {
        Some((i, false))
    } else {
        first_field_err(rec, i + 1)
    }
}

/// Turns a record into named SQL parameters, validating each field name
/// against the identifier allowlist and converting each value; the first
/// offending field, in record order, decides the error.
pub fn checked_params(record: &Record) -> (r: Result<Vec<(String, SqlValue)>, Error>)
    ensures
        match r {
            Ok(params) => first_field_err(record_view(record@), 0) is None && params_view(
                params@,
            ) == spec_params(record_view(record@)),
            Err(e) => {
                &&& first_field_err(record_view(record@), 0) matches Some(p)
                &&& (p.1 ==> {
                    &&& e matches Error::BadIdentifier(s)
                    &&& s@ == record_view(record@)[p.0].0
                })
                &&& (!p.1 ==> {
                    &&& e matches Error::BadValue(s)
                    &&& s@ == record_view(record@)[p.0].0
                })
            },
        },
{
    let ghost rv = record_view(record@);
    let mut params: Vec<(String, SqlValue)> = Vec::new();
    let mut i: usize = 0;
    while i < record.len()
        invariant
            i <= record@.len(),
            rv == record_view(record@),
            rv.len() == record@.len(),
            first_field_err(rv, 0) == first_field_err(rv, i as int),
            params@.len() == i,
            params_view(params@) == spec_params(rv.take(i as int)),
        decreases record@.len() - i,
    {
        assert(rv[i as int] == (record@[i as int].0@, record@[i as int].1@));
        let key: &String = &record[i].0;
        let value: &DbValue = &record[i].1;
        if !check_identifier(key.as_str()) {
            return Err(Error::BadIdentifier(key.clone()));
        }
        match convert_dbvalue_to_sql(key.as_str(), value) {
            Ok(sv) => {
                let ghost params_before = params@;
                let ghost svv = sv@;
                let mut name: Vec<char> = Vec::new();
                name.push(':');
                push_str_chars(&mut name, key.as_str());
                assert(name@ =~= seq![':'] + key@);
                params.push((chars_to_string(&name), sv));
                proof {
                    let pv = params_view(params@);
                    let sp = spec_params(rv.take(i + 1));
                    assert(params@[i as int].0@ == seq![':'] + rv[i as int].0);
                    assert(params@[i as int].1@ == svv);
                    assert forall|j: int| 0 <= j < pv.len() implies pv[j] == sp[j] by {
                        assert(rv.take(i + 1)[j] == rv[j]);
                        if j < i {
                            assert(params@[j] == params_before[j]);
                            assert(params_view(params_before)[j] == spec_params(
                                rv.take(i as int),
                            )[j]);
                            assert(spec_params(rv.take(i as int))[j] == (
                                seq![':'] + rv.take(i as int)[j].0,
                                spec_convert(rv.take(i as int)[j].1)->Some_0,
                            ));
                            assert(rv.take(i as int)[j] == rv[j]);
                        }
                    }
                    assert(pv =~= sp);
                }
            },
            Err(e) => {
                return Err(e);
            },
        }
        i = i + 1;
    }
    assert(rv.take(rv.len() as int) =~= rv);
    Ok(params)
}

/// The text of an insert built from a record, asking storage for the new id.
pub open spec fn spec_insert_sql(table: Seq<char>, rec: Seq<(Seq<char>, DbVal)>) -> Seq<char> {
    "INSERT INTO "@ + table + " ("@ + spec_join(keys_of(rec), ", "@) + ") VALUES ("@ + spec_join(
        placeholders_of(rec),
        ", "@,
    ) + ") RETURNING id"@
}

/// Builds the parameterized insert for `create(table, record)`. An empty
/// record is rejected before any statement exists; table and field names
/// must pass the identifier allowlist.
pub fn create_record_sql(table: &str, record: &Record) -> (r: Result<SqlCommand, Error>)
    ensures
        match r {
            Ok(c) => {
                &&& record_view(record@).len() > 0
                &&& valid_identifier(table@)
                &&& first_field_err(record_view(record@), 0) is None
                &&& c.sql@ == spec_insert_sql(table@, record_view(record@))
                &&& params_view(c.params@) == spec_params(record_view(record@))
            },
            Err(e) => match e {
                Error::EmptyRecord => record@.len() == 0,
                Error::BadIdentifier(s) => record@.len() > 0 && (if !valid_identifier(table@) {
                    s@ == table@
                } else {
                    &&& first_field_err(record_view(record@), 0) matches Some(p)
                    &&& p.1
                    &&& s@ == record_view(record@)[p.0].0
                }),
                Error::BadValue(s) => {
                    &&& record@.len() > 0
                    &&& valid_identifier(table@)
                    &&& first_field_err(record_view(record@), 0) matches Some(p)
                    &&& !p.1
                    &&& s@ == record_view(record@)[p.0].0
                },
                _ => false,
            },
        },
{
    let ghost rv = record_view(record@);
    if record.len() == 0 {
        return Err(Error::EmptyRecord);
    }
    if !check_identifier(table) {
        return Err(Error::BadIdentifier(str_to_string(table)));
    }
    let params = match checked_params(record) {
        Ok(p) => p,
        Err(e) => {
            return Err(e);
        },
    };
    let mut sql: Vec<char> = Vec::new();
    push_str_chars(&mut sql, "INSERT INTO ");
    push_str_chars(&mut sql, table);
    push_str_chars(&mut sql, " (");
    push_join_keys(&mut sql, record);
    push_str_chars(&mut sql, ") VALUES (");
    push_join_placeholders(&mut sql, record);
    push_str_chars(&mut sql, ") RETURNING id");
    assert(sql@ =~= spec_insert_sql(table@, rv));
    Ok(SqlCommand { sql: chars_to_string(&sql), params })
}

/// The record without its `id` fields: an update never overwrites the key.
pub open spec fn non_id(rec: Seq<(Seq<char>, DbVal)>) -> Seq<(Seq<char>, DbVal)>
    decreases rec.len(),
{
    if rec.len() == 0 {
        Seq::empty()
    } else if rec.last().0 == "id"@ {
        non_id(rec.drop_last())
    } else {
        non_id(rec.drop_last()).push(rec.last())
    }
}

pub proof fn lemma_non_id_step(rec: Seq<(Seq<char>, DbVal)>, i: int)
    requires
        0 <= i < rec.len(),
    ensures
        non_id(rec.take(i + 1)) == if rec[i].0 == "id"@ {
            non_id(rec.take(i))
        } else {
            non_id(rec.take(i)).push(rec[i])
        },
{
    let t = rec.take(i + 1);
    assert(t.drop_last() =~= rec.take(i));
    assert(t.last() == rec[i]);
}

/// Copies the record's fields, leaving out those named `id`.
fn split_non_id(record: &Record) -> (f: Record)
    ensures
        record_view(f@) == non_id(record_view(record@)),
{
    let ghost rv = record_view(record@);
    let mut f: Record = Vec::new();
    let mut i: usize = 0;
    while i < record.len()
        invariant
            i <= record@.len(),
            rv == record_view(record@),
            rv.len() == record@.len(),
            record_view(f@) == non_id(rv.take(i as int)),
        decreases record@.len() - i,
    {
        assert(rv[i as int] == (record@[i as int].0@, record@[i as int].1@));
        proof {
            lemma_non_id_step(rv, i as int);
        }
        if !crate::text::str_eq(record[i].0.as_str(), "id") {
            let ghost f_before = f@;
            f.push((record[i].0.clone(), record[i].1.duplicate()));
            proof {
                assert(record_view(f@)[f@.len() - 1] == rv[i as int]);
                assert(record_view(f@) =~= non_id(rv.take(i + 1))) by {
                    assert forall|j: int| 0 <= j < f@.len() implies record_view(f@)[j] == non_id(
                        rv.take(i + 1),
                    )[j] by {
                        if j < f@.len() - 1 {
                            assert(f@[j] == f_before[j]);
                            assert(record_view(f_before)[j] == non_id(rv.take(i as int))[j]);
                        }
                    }
                }
            }
        }
        i = i + 1;
    }
    assert(rv.take(rv.len() as int) =~= rv);
    f
}

/// The text of an update built from a record's non-id fields, keyed on `id`.
pub open spec fn spec_update_sql(table: Seq<char>, rec: Seq<(Seq<char>, DbVal)>) -> Seq<char> {
    "UPDATE "@ + table + " SET "@ + spec_join(set_clauses_of(non_id(rec)), ", "@)
        + " WHERE id = :id"@
}

/// Builds the parameterized update for `update(table, id, record)`. The `id`
/// field, if present, is excluded from the SET clause and never overwritten;
/// the row key is always the `id` parameter. A record with no other fields
/// is rejected before any statement exists.
pub fn update_record_sql(table: &str, id: i64, record: &Record) -> (r: Result<SqlCommand, Error>)
    ensures
        match r {
            Ok(c) => {
                &&& valid_identifier(table@)
                &&& first_field_err(non_id(record_view(record@)), 0) is None
                &&& non_id(record_view(record@)).len() > 0
                &&& c.sql@ == spec_update_sql(table@, record_view(record@))
                &&& params_view(c.params@) == spec_params(non_id(record_view(record@))).push(
                    (":id"@, SqlVal::Integer(id)),
                )
            },
            Err(e) => match e {
                Error::EmptyRecord => {
                    &&& valid_identifier(table@)
                    &&& first_field_err(non_id(record_view(record@)), 0) is None
                    &&& non_id(record_view(record@)).len() == 0
                },
                Error::BadIdentifier(s) => if !valid_identifier(table@) {
                    s@ == table@
                } else {
                    &&& first_field_err(non_id(record_view(record@)), 0) matches Some(p)
                    &&& p.1
                    &&& s@ == non_id(record_view(record@))[p.0].0
                },
                Error::BadValue(s) => {
                    &&& valid_identifier(table@)
                    &&& first_field_err(non_id(record_view(record@)), 0) matches Some(p)
                    &&& !p.1
                    &&& s@ == non_id(record_view(record@))[p.0].0
                },
                _ => false,
            },
        },
{
    let ghost rv = record_view(record@);
    if !check_identifier(table) {
        return Err(Error::BadIdentifier(str_to_string(table)));
    }
    let fields = split_non_id(record);
    let mut params = match checked_params(&fields) {
        Ok(p) => p,
        Err(e) => {
            return Err(e);
        },
    };
    if fields.len() == 0 {
        return Err(Error::EmptyRecord);
    }
    let mut sql: Vec<char> = Vec::new();
    push_str_chars(&mut sql, "UPDATE ");
    push_str_chars(&mut sql, table);
    push_str_chars(&mut sql, " SET ");
    push_join_set_clauses(&mut sql, &fields);
    push_str_chars(&mut sql, " WHERE id = :id");
    assert(sql@ =~= spec_update_sql(table@, rv));
    let ghost params_before = params@;
    params.push((str_to_string(":id"), SqlValue::Integer(id)));
    proof {
        assert(params_view(params@) =~= spec_params(non_id(rv)).push(
            (":id"@, SqlVal::Integer(id)),
        )) by {
            assert forall|j: int| 0 <= j < params@.len() implies params_view(params@)[j]
                == spec_params(non_id(rv)).push((":id"@, SqlVal::Integer(id)))[j] by {
                if j < params@.len() - 1 {
                    assert(params@[j] == params_before[j]);
                    assert(params_view(params_before)[j] == spec_params(non_id(rv))[j]);
                }
            }
        }
    }
    Ok(SqlCommand { sql: chars_to_string(&sql), params })
}

/// The text of a delete keyed on `id`.
pub open spec fn spec_delete_sql(table: Seq<char>) -> Seq<char> {
    "DELETE FROM "@ + table + " WHERE id = :id"@
}

/// Builds the parameterized delete for `delete(table, id)`.
pub fn delete_record_sql(table: &str, id: i64) -> (r: Result<SqlCommand, Error>)
    ensures
        match r {
            Ok(c) => {
                &&& valid_identifier(table@)
                &&& c.sql@ == spec_delete_sql(table@)
                &&& params_view(c.params@) == seq![(":id"@, SqlVal::Integer(id))]
            },
            Err(e) => {
                &&& !valid_identifier(table@)
                &&& e matches Error::BadIdentifier(s)
                &&& s@ == table@
            },
        },
{
    if !check_identifier(table) {
        return Err(Error::BadIdentifier(str_to_string(table)));
    }
    let mut sql: Vec<char> = Vec::new();
    push_str_chars(&mut sql, "DELETE FROM ");
    push_str_chars(&mut sql, table);
    push_str_chars(&mut sql, " WHERE id = :id");
    assert(sql@ =~= spec_delete_sql(table@));
    let mut params: Vec<(String, SqlValue)> = Vec::new();
    params.push((str_to_string(":id"), SqlValue::Integer(id)));
    assert(params_view(params@) =~= seq![(":id"@, SqlVal::Integer(id))]);
    Ok(SqlCommand { sql: chars_to_string(&sql), params })
}

/// The models of a list of column names.
pub open spec fn names_view(v: Seq<String>) -> Seq<Seq<char>> {
    v.map_values(|s: String| s@)
}

/// The first name, from index `i` on, that is no valid identifier.
pub open spec fn first_bad_name(ns: Seq<Seq<char>>, i: int) -> Option<int>
    decreases ns.len() - i,
{
    if i < 0 || i >= ns.len() {
        None
    } else if !valid_identifier(ns[i]) {
        Some(i)
    } else {
        first_bad_name(ns, i + 1)
    }
}

/// The selected columns: every column when no names are given, else the
/// given names joined with commas.
pub open spec fn spec_cols(fields: Option<Seq<Seq<char>>>) -> Seq<char> {
    match fields {
        None => "*"@,
        Some(ns) => if ns.len() == 0 {
            "*"@
        } else {
            spec_join(ns, ", "@)
        },
    }
}

/// The field-name models of an optional column list.
pub open spec fn fields_view(fields: Option<&Vec<String>>) -> Option<Seq<Seq<char>>> {
    match fields {
        None => None,
        Some(fs) => Some(names_view(fs@)),
    }
}

/// Checks every given column name; yields the first offender.
fn check_field_names(fs: &Vec<String>) -> (r: Result<(), Error>)
    ensures
        match r {
            Ok(_) => first_bad_name(names_view(fs@), 0) is None,
            Err(e) => {
                &&& first_bad_name(names_view(fs@), 0) matches Some(i)
                &&& e matches Error::BadIdentifier(s)
                &&& s@ == names_view(fs@)[i]
            },
        },
{
    let ghost ns = names_view(fs@);
    let mut i: usize = 0;
    while i < fs.len()
        invariant
            i <= fs@.len(),
            ns == names_view(fs@),
            ns.len() == fs@.len(),
            first_bad_name(ns, 0) == first_bad_name(ns, i as int),
        decreases fs@.len() - i,
    {
        assert(ns[i as int] == fs@[i as int]@);
        if !check_identifier(fs[i].as_str()) {
            proof {
                assert(!valid_identifier(ns[i as int]));
                assert(first_bad_name(ns, i as int) == Some(i as int));
                assert(first_bad_name(ns, 0) == Some(i as int));
            }
            return Err(Error::BadIdentifier(fs[i].clone()));
        }
        i = i + 1;
    }
    Ok(())
}

/// Appends the selected columns: the given names joined, or `*`.
fn push_cols(out: &mut Vec<char>, fields: Option<&Vec<String>>)
    ensures
        final(out)@ == old(out)@ + spec_cols(fields_view(fields)),
{
    match fields {
        None => push_str_chars(out, "*"),
        Some(fs) => {
            if fs.len() == 0 {
                push_str_chars(out, "*");
            } else {
                let ghost ns = names_view(fs@);
                let mut i: usize = 0;
                while i < fs.len()
                    invariant
                        i <= fs@.len(),
                        ns == names_view(fs@),
                        ns.len() == fs@.len(),
                        out@ == old(out)@ + spec_join(ns.take(i as int), ", "@),
                    decreases fs@.len() - i,
                {
                    if i > 0 {
                        push_str_chars(out, ", ");
                    }
                    push_str_chars(out, fs[i].as_str());
                    proof {
                        lemma_join_step(ns, ", "@, i as int);
                        assert(ns[i as int] == fs@[i as int]@);
                    }
                    assert(out@ =~= old(out)@ + spec_join(ns.take(i + 1), ", "@));
                    i = i + 1;
                }
                assert(ns.take(ns.len() as int) =~= ns);
            }
        },
    }
}

/// The text of a point read keyed on `id`.
pub open spec fn spec_read_sql(table: Seq<char>, fields: Option<Seq<Seq<char>>>) -> Seq<char> {
    "SELECT "@ + spec_cols(fields) + " FROM "@ + table + " WHERE id = :id"@
}

/// Builds the parameterized point read for `read(table, id, fields?)`.
pub fn read_record_sql(table: &str, id: i64, fields: Option<&Vec<String>>) -> (r: Result<
    SqlCommand,
    Error,
>)
    ensures
        match r {
            Ok(c) => {
                &&& valid_identifier(table@)
                &&& (fields_view(fields) matches Some(ns) ==> first_bad_name(ns, 0) is None)
                &&& c.sql@ == spec_read_sql(table@, fields_view(fields))
                &&& params_view(c.params@) == seq![(":id"@, SqlVal::Integer(id))]
            },
            Err(e) => {
                &&& e matches Error::BadIdentifier(s)
                &&& if !valid_identifier(table@) {
                    s@ == table@
                } else {
                    &&& fields_view(fields) matches Some(ns)
                    &&& first_bad_name(ns, 0) matches Some(i)
                    &&& s@ == ns[i]
                }
            },
        },
{
    if !check_identifier(table) {
        return Err(Error::BadIdentifier(str_to_string(table)));
    }
    match fields {
        None => {},
        Some(fs) => match check_field_names(fs) {
            Ok(_) => {},
            Err(e) => {
                return Err(e);
            },
        },
    }
    let mut sql: Vec<char> = Vec::new();
    push_str_chars(&mut sql, "SELECT ");
    push_cols(&mut sql, fields);
    push_str_chars(&mut sql, " FROM ");
    push_str_chars(&mut sql, table);
    push_str_chars(&mut sql, " WHERE id = :id");
    assert(sql@ =~= spec_read_sql(table@, fields_view(fields)));
    let mut params: Vec<(String, SqlValue)> = Vec::new();
    params.push((str_to_string(":id"), SqlValue::Integer(id)));
    assert(params_view(params@) =~= seq![(":id"@, SqlVal::Integer(id))]);
    Ok(SqlCommand { sql: chars_to_string(&sql), params })
}

/// The text of a range listing ordered by `id`, optionally starting above a
/// given id and optionally limited.
pub open spec fn spec_list_sql(
    table: Seq<char>,
    fields: Option<Seq<Seq<char>>>,
    ids_above: Option<i64>,
    limit: Option<i64>,
) -> Seq<char> {
    "SELECT "@ + spec_cols(fields) + " FROM "@ + table + (if ids_above is Some {
        " WHERE id > :ids_above"@
    } else {
        Seq::empty()
    }) + " ORDER BY id"@ + (if limit is Some {
        " LIMIT :limit"@
    } else {
        Seq::empty()
    })
}

/// The parameters of a range listing, in binding order.
pub open spec fn spec_list_params(ids_above: Option<i64>, limit: Option<i64>) -> Seq<
    (Seq<char>, SqlVal),
> {
    (match ids_above {
        Some(a) => seq![(":ids_above"@, SqlVal::Integer(a))],
        None => Seq::empty(),
    }) + (match limit {
        Some(l) => seq![(":limit"@, SqlVal::Integer(l))],
        None => Seq::empty(),
    })
}

/// Builds the parameterized listing for `list(table, fields?, idsAbove?,
/// limit?)`: rows in ascending id order.
pub fn list_records_sql(
    table: &str,
    fields: Option<&Vec<String>>,
    ids_above: Option<i64>,
    limit: Option<i64>,
) -> (r: Result<SqlCommand, Error>)
    ensures
        match r {
            Ok(c) => {
                &&& valid_identifier(table@)
                &&& (fields_view(fields) matches Some(ns) ==> first_bad_name(ns, 0) is None)
                &&& c.sql@ == spec_list_sql(table@, fields_view(fields), ids_above, limit)
                &&& params_view(c.params@) == spec_list_params(ids_above, limit)
            },
            Err(e) => {
                &&& e matches Error::BadIdentifier(s)
                &&& if !valid_identifier(table@) {
                    s@ == table@
                } else {
                    &&& fields_view(fields) matches Some(ns)
                    &&& first_bad_name(ns, 0) matches Some(i)
                    &&& s@ == ns[i]
                }
            },
        },
{
    if !check_identifier(table) {
        return Err(Error::BadIdentifier(str_to_string(table)));
    }
    match fields {
        None => {},
        Some(fs) => match check_field_names(fs) {
            Ok(_) => {},
            Err(e) => {
                return Err(e);
            },
        },
    }
    let mut sql: Vec<char> = Vec::new();
    push_str_chars(&mut sql, "SELECT ");
    push_cols(&mut sql, fields);
    push_str_chars(&mut sql, " FROM ");
    push_str_chars(&mut sql, table);
    let mut params: Vec<(String, SqlValue)> = Vec::new();
    match ids_above {
        Some(a) => {
            push_str_chars(&mut sql, " WHERE id > :ids_above");
            params.push((str_to_string(":ids_above"), SqlValue::Integer(a)));
        },
        None => {},
    }
    push_str_chars(&mut sql, " ORDER BY id");
    match limit {
        Some(l) => {
            push_str_chars(&mut sql, " LIMIT :limit");
            params.push((str_to_string(":limit"), SqlValue::Integer(l)));
        },
        None => {},
    }
    assert(sql@ =~= spec_list_sql(table@, fields_view(fields), ids_above, limit));
    assert(params_view(params@) =~= spec_list_params(ids_above, limit));
    Ok(SqlCommand { sql: chars_to_string(&sql), params })
}

} // verus!
