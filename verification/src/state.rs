//! The event lifecycle manager's state: the persisted event rows (id, unique
//! api token, opaque data blob) and the runtime map of open events.
use vstd::prelude::*;
use crate::codec::EventData;
use crate::codec::EventDataV;
use crate::codec::bounded;
use crate::codec::spec_encode;
use crate::datetime::QxDateTime;
use crate::error::Error;

verus! {

/// One persisted row of the events table: the id storage assigned, the
/// unique api token, and the opaque data blob.
#[derive(Debug, Clone)]
pub struct StoredEvent {
    pub id: i64,
    pub api_token: String,
    pub data: String,
}

/// A blob is sound when some well-formed event encodes to it.
pub open spec fn blob_ok(b: Seq<char>) -> bool {
    exists|ev: EventDataV| ev.date.wf() && bounded(ev) && b == #[trigger] spec_encode(ev)
}

/// The first row index holding `id`.
pub open spec fn find_id(rows: Seq<StoredEvent>, id: i64) -> Option<int>
    decreases rows.len(),
{
    if rows.len() == 0 {
        None
    } else if rows[0].id == id {
        Some(0)
    } else {
        match find_id(rows.drop_first(), id) {
            None => None,
            Some(i) => Some(i + 1),
        }
    }
}

/// The first row index holding the api token `t`.
pub open spec fn find_token(rows: Seq<StoredEvent>, t: Seq<char>) -> Option<int>
    decreases rows.len(),
{
    if rows.len() == 0 {
        None
    } else if rows[0].api_token@ == t {
        Some(0)
    } else {
        match find_token(rows.drop_first(), t) {
            None => None,
            Some(i) => Some(i + 1),
        }
    }
}

/// `find_id` finds exactly the indices that exist.
pub proof fn lemma_find_id(rows: Seq<StoredEvent>, id: i64)
    ensures
        match find_id(rows, id) {
            Some(i) => 0 <= i < rows.len() && rows[i].id == id && forall|j: int|
                0 <= j < i ==> rows[j].id != id,
            None => forall|j: int| 0 <= j < rows.len() ==> rows[j].id != id,
        },
    decreases rows.len(),
{
    if rows.len() > 0 && rows[0].id != id {
        let d = rows.drop_first();
        lemma_find_id(d, id);
        match find_id(d, id) {
            Some(i0) => {
                assert(rows[i0 + 1] == d[i0]);
                assert forall|j: int| 0 <= j < i0 + 1 implies rows[j].id != id by {
                    if j > 0 {
                        assert(d[j - 1] == rows[j]);
                    }
                }
            },
            None => {
                assert forall|j: int| 0 <= j < rows.len() implies rows[j].id != id by {
                    if j > 0 {
                        assert(d[j - 1] == rows[j]);
                    }
                }
            },
        }
    }
}

/// `find_token` finds exactly the indices that exist.
pub proof fn lemma_find_token(rows: Seq<StoredEvent>, t: Seq<char>)
    ensures
        match find_token(rows, t) {
            Some(i) => 0 <= i < rows.len() && rows[i].api_token@ == t && forall|j: int|
                0 <= j < i ==> rows[j].api_token@ != t,
            None => forall|j: int| 0 <= j < rows.len() ==> rows[j].api_token@ != t,
        },
    decreases rows.len(),
{
    if rows.len() > 0 && rows[0].api_token@ != t {
        let d = rows.drop_first();
        lemma_find_token(d, t);
        match find_token(d, t) {
            Some(i0) => {
                assert(rows[i0 + 1] == d[i0]);
                assert forall|j: int| 0 <= j < i0 + 1 implies rows[j].api_token@ != t by {
                    if j > 0 {
                        assert(d[j - 1] == rows[j]);
                    }
                }
            },
            None => {
                assert forall|j: int| 0 <= j < rows.len() implies rows[j].api_token@ != t by {
                    if j > 0 {
                        assert(d[j - 1] == rows[j]);
                    }
                }
            },
        }
    }
}

/// The persisted events table: rows with unique ids below the next id to be
/// assigned, unique api tokens, and decodable blobs.
#[derive(Debug)]
pub struct EventStore {
    pub rows: Vec<StoredEvent>,
    pub next_id: i64,
}

impl EventStore {
    pub open spec fn wf(self) -> bool {
        &&& self.next_id >= 1
        &&& forall|i: int|
            0 <= i < self.rows@.len() ==> 1 <= (#[trigger] self.rows@[i]).id < self.next_id
        &&& forall|i: int, j: int|
            0 <= i < j < self.rows@.len() ==> self.rows@[i].id != self.rows@[j].id
        &&& forall|i: int, j: int|
            0 <= i < j < self.rows@.len() ==> self.rows@[i].api_token@ != self.rows@[j].api_token@
        &&& forall|i: int| 0 <= i < self.rows@.len() ==> blob_ok((#[trigger] self.rows@[i]).data@)
    }

    pub open spec fn has_id(self, id: i64) -> bool {
        find_id(self.rows@, id) is Some
    }

    pub open spec fn has_token(self, t: Seq<char>) -> bool {
        find_token(self.rows@, t) is Some
    }

    /// An empty table; ids start at 1.
    pub fn new() -> (s: EventStore)
        ensures
            s.wf(),
            s.rows@.len() == 0,
            s.next_id == 1,
    {
        EventStore { rows: Vec::new(), next_id: 1 }
    }

    /// Whether some row carries the token `t`.
    pub fn contains_token(&self, t: &str) -> (b: bool)
        ensures
            b == self.has_token(t@),
    {
        let mut i: usize = 0;
        while i < self.rows.len()
            invariant
                i <= self.rows@.len(),
                forall|j: int| 0 <= j < i ==> self.rows@[j].api_token@ != t@,
            decreases self.rows@.len() - i,
        {
            if crate::text::str_eq(self.rows[i].api_token.as_str(), t) {
                proof {
                    lemma_find_token(self.rows@, t@);
                }
                return true;
            }
            i = i + 1;
        }
        proof {
            lemma_find_token(self.rows@, t@);
        }
        false
    }

    /// The id of the row carrying the token `t`.
    pub fn id_by_token(&self, t: &str) -> (r: Option<i64>)
        ensures
            match r {
                Some(id) => {
                    &&& find_token(self.rows@, t@) matches Some(i)
                    &&& self.rows@[find_token(self.rows@, t@)->Some_0].id == id
                },
                None => !self.has_token(t@),
            },
    {
        let mut i: usize = 0;
        while i < self.rows.len()
            invariant
                i <= self.rows@.len(),
                forall|j: int| 0 <= j < i ==> self.rows@[j].api_token@ != t@,
            decreases self.rows@.len() - i,
        {
            if crate::text::str_eq(self.rows[i].api_token.as_str(), t) {
                proof {
                    lemma_find_token(self.rows@, t@);
                }
                return Some(self.rows[i].id);
            }
            i = i + 1;
        }
        proof {
            lemma_find_token(self.rows@, t@);
        }
        None
    }

    /// The row holding `id`, by reference.
    pub fn row_by_id(&self, id: i64) -> (r: Option<&StoredEvent>)
        ensures
            match r {
                Some(row) => {
                    &&& find_id(self.rows@, id) matches Some(i)
                    &&& *row == self.rows@[find_id(self.rows@, id)->Some_0]
                },
                None => !self.has_id(id),
            },
    {
        let mut i: usize = 0;
        while i < self.rows.len()
            invariant
                i <= self.rows@.len(),
                forall|j: int| 0 <= j < i ==> self.rows@[j].id != id,
            decreases self.rows@.len() - i,
        {
            if self.rows[i].id == id {
                proof {
                    lemma_find_id(self.rows@, id);
                }
                return Some(&self.rows[i]);
            }
            i = i + 1;
        }
        proof {
            lemma_find_id(self.rows@, id);
        }
        None
    }

    /// Appends a new row under the next id, refusing a duplicate token. The
    /// new id is strictly greater than every id the table has held.
    pub fn insert_row(&mut self, api_token: String, data: String) -> (r: Result<i64, Error>)
        requires
            old(self).wf(),
            old(self).next_id < i64::MAX,
            blob_ok(data@),
        ensures
            final(self).wf(),
            match r {
                Ok(id) => {
                    &&& !old(self).has_token(api_token@)
                    &&& id == old(self).next_id
                    &&& forall|i: int|
                        0 <= i < old(self).rows@.len() ==> (#[trigger] old(self).rows@[i]).id < id
                    &&& forall|i: int|
                        0 <= i < old(self).rows@.len() ==> (#[trigger] old(
                            self,
                        ).rows@[i]).api_token@ != api_token@
                    &&& final(self).rows@ == old(self).rows@.push(
                        StoredEvent { id, api_token, data },
                    )
                    &&& final(self).next_id == old(self).next_id + 1
                },
                Err(e) => {
                    &&& e matches Error::TokenExists
                    &&& old(self).has_token(api_token@)
                    &&& *final(self) == *old(self)
                },
            },
    {
        proof {
            lemma_find_token(self.rows@, api_token@);
        }
        if self.contains_token(api_token.as_str()) {
            return Err(Error::TokenExists);
        }
        let id = self.next_id;
        let ghost old_rows = self.rows@;
        self.rows.push(StoredEvent { id, api_token, data });
        self.next_id = self.next_id + 1;
        proof {
            assert forall|i: int, j: int|
                0 <= i < j < self.rows@.len() implies self.rows@[i].api_token@
                != self.rows@[j].api_token@ by {
                if j == self.rows@.len() - 1 {
                    lemma_find_token(old_rows, self.rows@[j].api_token@);
                }
            }
        }
        Ok(id)
    }

    /// Takes over a row read back from persisted storage, under its own id:
    /// a row is refused exactly when its id is out of range, its id or token
    /// is already held, or its blob is not one the event encoding wrote;
    /// every other row is accepted, and a refusal changes nothing.
    pub fn load_row(&mut self, id: i64, api_token: String, data: String) -> (r: Result<(), Error>)
        requires
            old(self).wf(),
        ensures
            final(self).wf(),
            final(self).next_id >= old(self).next_id,
            r is Ok <==> {
                &&& 1 <= id < i64::MAX
                &&& !old(self).has_id(id)
                &&& !old(self).has_token(api_token@)
                &&& blob_ok(data@)
            },
            match r {
                Ok(_) => {
                    &&& final(self).rows@.len() == old(self).rows@.len() + 1
                    &&& final(self).rows@.drop_last() == old(self).rows@
                    &&& final(self).rows@.last().id == id
                    &&& final(self).rows@.last().api_token@ == api_token@
                    &&& final(self).rows@.last().data@ == data@
                    &&& final(self).next_id > id
                },
                Err(_) => *final(self) == *old(self),
            },
    {
        if id < 1 || id == i64::MAX {
            return Err(Error::BadData(id));
        }
        if self.row_by_id(id).is_some() {
            return Err(Error::BadData(id));
        }
        if self.contains_token(api_token.as_str()) {
            return Err(Error::TokenExists);
        }
        let decoded = match crate::codec::decode_event_data(data.as_str()) {
            Some(d) => d,
            None => {
                // A blob the encoding wrote would have decoded.
                proof {
                    if blob_ok(data@) {
                        let ev = choose|ev: EventDataV|
                            ev.date.wf() && bounded(ev) && data@ == #[trigger] spec_encode(ev);
                        assert(false);
                    }
                }
                return Err(Error::BadData(id));
            },
        };
        // Re-encoding pins down that the blob lies in the encoding's image.
        let reenc = crate::codec::encode_event_data(&decoded);
        proof {
            lemma_find_id(self.rows@, id);
            lemma_find_token(self.rows@, api_token@);
            assert(blob_ok(data@));
        }
        let ghost old_rows = self.rows@;
        let ghost old_next = self.next_id;
        self.rows.push(StoredEvent { id, api_token, data });
        if id >= self.next_id {
            self.next_id = id + 1;
        }
        proof {
            assert forall|i: int, j: int|
                0 <= i < j < self.rows@.len() implies self.rows@[i].id != self.rows@[j].id by {
                if j == self.rows@.len() - 1 {
                    lemma_find_id(old_rows, self.rows@[j].id);
                }
            }
            assert forall|i: int, j: int|
                0 <= i < j < self.rows@.len() implies self.rows@[i].api_token@
                != self.rows@[j].api_token@ by {
                if j == self.rows@.len() - 1 {
                    lemma_find_token(old_rows, self.rows@[j].api_token@);
                }
            }
            assert(self.rows@.drop_last() =~= old_rows);
        }
        Ok(())
    }

    /// Removes the row holding `id`; says whether one was removed.
    pub fn delete_by_id(&mut self, id: i64) -> (deleted: bool)
        requires
            old(self).wf(),
        ensures
            final(self).wf(),
            match find_id(old(self).rows@, id) {
                Some(i) => {
                    &&& deleted
                    &&& final(self).rows@ == old(self).rows@.remove(i)
                    &&& final(self).next_id == old(self).next_id
                },
                None => !deleted && *final(self) == *old(self),
            },
    {
        let mut i: usize = 0;
        while i < self.rows.len()
            invariant
                i <= self.rows@.len(),
                *self == *old(self),
                old(self).wf(),
                forall|j: int| 0 <= j < i ==> self.rows@[j].id != id,
            decreases self.rows@.len() - i,
        {
            if self.rows[i].id == id {
                proof {
                    lemma_find_id(self.rows@, id);
                }
                let ghost old_rows = self.rows@;
                self.rows.remove(i);
                proof {
                    old_rows.remove_ensures(i as int);
                    assert forall|a: int, b: int|
                        0 <= a < b < self.rows@.len() implies self.rows@[a].id
                        != self.rows@[b].id by {
                        let a0: int = if a < i {
                            a
                        } else {
                            a + 1
                        };
                        let b0: int = if b < i {
                            b
                        } else {
                            b + 1
                        };
                        assert(self.rows@[a] == old_rows.remove(i as int)[a]);
                        assert(old_rows.remove(i as int)[a] == old_rows[a0]);
                        assert(self.rows@[b] == old_rows.remove(i as int)[b]);
                        assert(old_rows.remove(i as int)[b] == old_rows[b0]);
                    }
                    assert forall|a: int, b: int|
                        0 <= a < b < self.rows@.len() implies self.rows@[a].api_token@
                        != self.rows@[b].api_token@ by {
                        let a0: int = if a < i {
                            a
                        } else {
                            a + 1
                        };
                        let b0: int = if b < i {
                            b
                        } else {
                            b + 1
                        };
                        assert(self.rows@[a] == old_rows.remove(i as int)[a]);
                        assert(old_rows.remove(i as int)[a] == old_rows[a0]);
                        assert(self.rows@[b] == old_rows.remove(i as int)[b]);
                        assert(old_rows.remove(i as int)[b] == old_rows[b0]);
                    }
                    assert forall|a: int|
                        0 <= a < self.rows@.len() implies 1 <= (#[trigger] self.rows@[a]).id
                        < self.next_id && blob_ok(self.rows@[a].data@) by {
                        let a0: int = if a < i {
                            a
                        } else {
                            a + 1
                        };
                        assert(self.rows@[a] == old_rows.remove(i as int)[a]);
                        assert(old_rows.remove(i as int)[a] == old_rows[a0]);
                    }
                }
                return true;
            }
            i = i + 1;
        }
        proof {
            lemma_find_id(self.rows@, id);
        }
        false
    }
}

/// A runtime-only entry for an open event: its fields, and whether a
/// dedicated child server process is owned for it.
#[derive(Debug)]
pub struct OpenEvent {
    pub data: EventData,
    pub has_process: bool,
}

/// The first map index holding `id`.
pub open spec fn find_open(m: Seq<(i64, OpenEvent)>, id: i64) -> Option<int>
    decreases m.len(),
{
    if m.len() == 0 {
        None
    } else if m[0].0 == id {
        Some(0)
    } else {
        match find_open(m.drop_first(), id) {
            None => None,
            Some(i) => Some(i + 1),
        }
    }
}

/// `find_open` finds exactly the indices that exist.
pub proof fn lemma_find_open(m: Seq<(i64, OpenEvent)>, id: i64)
    ensures
        match find_open(m, id) {
            Some(i) => 0 <= i < m.len() && m[i].0 == id && forall|j: int|
                0 <= j < i ==> m[j].0 != id,
            None => forall|j: int| 0 <= j < m.len() ==> m[j].0 != id,
        },
    decreases m.len(),
{
    if m.len() > 0 && m[0].0 != id {
        let d = m.drop_first();
        lemma_find_open(d, id);
        match find_open(d, id) {
            Some(i0) => {
                assert(m[i0 + 1] == d[i0]);
                assert forall|j: int| 0 <= j < i0 + 1 implies m[j].0 != id by {
                    if j > 0 {
                        assert(d[j - 1] == m[j]);
                    }
                }
            },
            None => {
                assert forall|j: int| 0 <= j < m.len() implies m[j].0 != id by {
                    if j > 0 {
                        assert(d[j - 1] == m[j]);
                    }
                }
            },
        }
    }
}

/// How many entries of the map hold `id`.
pub open spec fn count_key(m: Seq<(i64, OpenEvent)>, id: i64) -> nat
    decreases m.len(),
{
    if m.len() == 0 {
        0
    } else {
        count_key(m.drop_first(), id) + (if m[0].0 == id {
            1nat
        } else {
            0nat
        })
    }
}

/// The shared application state: the persisted store and the map of
/// currently open events, keyed by ascending event id.
#[derive(Debug)]
pub struct State {
    pub store: EventStore,
    pub open_events: Vec<(i64, OpenEvent)>,
}

/// What opening an event requires of its caller, decided under the lock:
/// nothing when it is already open; for a remote event only the map entry;
/// for a local event a migration of the per-event database file and a child
/// server spawned with the event's token as its device identity.
#[derive(Debug)]
pub enum OpenPlan {
    AlreadyOpen,
    Remote(EventData),
    Local { data: EventData, device_id: String, db_file: String },
}

/// What closing an event asks of its caller: nothing, or - when the removed
/// entry owned a child process - terminating and awaiting that process.
#[derive(Debug, PartialEq, Eq, Structural, Clone, Copy)]
pub enum CloseOutcome {
    NotOpen,
    Closed { had_process: bool },
}

/// The fields a newly created event holds: empty name, the creation time,
/// the given owner and token, and a local database.
pub open spec fn new_event_v(owner: Seq<char>, token: Seq<char>, now: QxDateTime) -> EventDataV {
    EventDataV { name: Seq::empty(), date: now, owner, api_token: token, is_local: true }
}

/// The per-event database file: `<data_dir>/<id>/event.qbe`.
pub open spec fn spec_db_file(data_dir: Seq<char>, id: i64) -> Seq<char> {
    data_dir + seq!['/'] + crate::numtext::dec_int(id as int) + "/event.qbe"@
}

impl State {
    pub open spec fn wf(self) -> bool {
        &&& self.store.wf()
        &&& forall|i: int, j: int|
            0 <= i < j < self.open_events@.len() ==> self.open_events@[i].0
                < self.open_events@[j].0
    }

    pub open spec fn open_contains(self, id: i64) -> bool {
        find_open(self.open_events@, id) is Some
    }

    /// A state with no open events over the given store.
    pub fn new(store: EventStore) -> (s: State)
        requires
            store.wf(),
        ensures
            s.wf(),
            s.store == store,
            s.open_events@.len() == 0,
    {
        State { store, open_events: Vec::new() }
    }

    /// The map index holding `id`.
    fn open_index(&self, event_id: i64) -> (r: Option<usize>)
        ensures
            match r {
                Some(i) => find_open(self.open_events@, event_id) == Some(i as int),
                None => !self.open_contains(event_id),
            },
    {
        let mut i: usize = 0;
        while i < self.open_events.len()
            invariant
                i <= self.open_events@.len(),
                forall|j: int| 0 <= j < i ==> self.open_events@[j].0 != event_id,
            decreases self.open_events@.len() - i,
        {
            if self.open_events[i].0 == event_id {
                proof {
                    lemma_find_open(self.open_events@, event_id);
                }
                return Some(i);
            }
            i = i + 1;
        }
        proof {
            lemma_find_open(self.open_events@, event_id);
        }
        None
    }

    /// Creates an event deterministically from the given token and time:
    /// rejects an empty owner before any storage mutation, rejects a token
    /// the store already holds, and otherwise appends one row under a fresh
    /// id strictly greater than every id issued before.
    pub fn create_event_with(&mut self, owner: String, api_token: String, now: QxDateTime) -> (r:
        Result<(i64, String), Error>)
        requires
            old(self).wf(),
            now.wf(),
            old(self).store.next_id < i64::MAX,
        ensures
            final(self).wf(),
            final(self).open_events@ == old(self).open_events@,
            match r {
                Ok(p) => {
                    &&& owner@.len() > 0
                    &&& !old(self).store.has_token(api_token@)
                    &&& p.0 == old(self).store.next_id
                    &&& p.1@ == api_token@
                    &&& forall|i: int|
                        0 <= i < old(self).store.rows@.len() ==> (#[trigger] old(
                            self,
                        ).store.rows@[i]).id < p.0
                    &&& forall|i: int|
                        0 <= i < old(self).store.rows@.len() ==> (#[trigger] old(
                            self,
                        ).store.rows@[i]).api_token@ != api_token@
                    &&& final(self).store.rows@.len() == old(self).store.rows@.len() + 1
                    &&& final(self).store.rows@.drop_last() == old(self).store.rows@
                    &&& final(self).store.rows@.last().id == p.0
                    &&& final(self).store.rows@.last().api_token@ == api_token@
                    &&& final(self).store.rows@.last().data@ == spec_encode(
                        new_event_v(owner@, api_token@, now),
                    )
                    &&& final(self).store.next_id == old(self).store.next_id + 1
                },
                Err(Error::EmptyOwner) => owner@.len() == 0 && *final(self) == *old(self),
                Err(Error::TokenExists) => {
                    &&& owner@.len() > 0
                    &&& old(self).store.has_token(api_token@)
                    &&& *final(self) == *old(self)
                },
                Err(_) => false,
            },
            owner@.len() == 0 <==> r matches Err(Error::EmptyOwner),
    {
        if owner.as_str().is_empty() {
            return Err(Error::EmptyOwner);
        }
        let data = EventData {
            name: String::new(),
            date: now,
            owner,
            api_token: api_token.clone(),
            is_local: true,
        };
        let blob = crate::codec::encode_event_data(&data);
        proof {
            assert(data@ == new_event_v(data.owner@, api_token@, now));
            assert(blob_ok(blob@));
        }
        let token_out = api_token.clone();
        match self.store.insert_row(api_token, blob) {
            Ok(id) => {
                proof {
                    assert(final(self).store.rows@.drop_last() =~= old(self).store.rows@);
                }
                Ok((id, token_out))
            },
            Err(e) => Err(e),
        }
    }

    /// Creates an event for `owner`: draws a fresh api token, stamps the
    /// current time, and stores the new row. Fails only on an empty owner
    /// or when the drawn token collides with a stored token of the issued
    /// shape — so on a store holding no such token, a non-empty owner is
    /// owed success.
    pub fn create_event(&mut self, owner: String) -> (r: Result<(i64, String), Error>)
        requires
            old(self).wf(),
            old(self).store.next_id < i64::MAX,
        ensures
            final(self).wf(),
            final(self).open_events@ == old(self).open_events@,
            match r {
                Ok(p) => {
                    &&& owner@.len() > 0
                    &&& crate::token::token_wf(p.1@)
                    &&& !old(self).store.has_token(p.1@)
                    &&& p.0 == old(self).store.next_id
                    &&& forall|i: int|
                        0 <= i < old(self).store.rows@.len() ==> (#[trigger] old(
                            self,
                        ).store.rows@[i]).id < p.0
                    &&& forall|i: int|
                        0 <= i < old(self).store.rows@.len() ==> (#[trigger] old(
                            self,
                        ).store.rows@[i]).api_token@ != p.1@
                    &&& final(self).store.rows@.len() == old(self).store.rows@.len() + 1
                    &&& final(self).store.rows@.drop_last() == old(self).store.rows@
                    &&& final(self).store.rows@.last().id == p.0
                    &&& final(self).store.rows@.last().api_token@ == p.1@
                    &&& final(self).store.next_id == old(self).store.next_id + 1
                },
                Err(Error::EmptyOwner) => owner@.len() == 0 && *final(self) == *old(self),
                Err(Error::TokenExists) => owner@.len() > 0 && *final(self) == *old(self),
                Err(_) => false,
            },
            owner@.len() == 0 <==> r matches Err(Error::EmptyOwner),
            // Success is owed wherever no outside value can decide against
            // it: only a stored token of the drawn shape can collide.
            owner@.len() > 0 && (forall|i: int|
                0 <= i < old(self).store.rows@.len() ==> !crate::token::token_wf(
                    (#[trigger] old(self).store.rows@[i]).api_token@,
                )) ==> r is Ok,
            r matches Err(Error::TokenExists) ==> exists|i: int|
                0 <= i < old(self).store.rows@.len() && crate::token::token_wf(
                    (#[trigger] old(self).store.rows@[i]).api_token@,
                ),
    {
        let api_token = crate::token::generate_api_token();
        let ghost tokv = api_token@;
        let now = crate::datetime::now_utc();
        let r = self.create_event_with(owner, api_token, now);
        proof {
            if old(self).store.has_token(tokv) {
                lemma_find_token(old(self).store.rows@, tokv);
                let ix = find_token(old(self).store.rows@, tokv)->Some_0;
                assert(crate::token::token_wf(old(self).store.rows@[ix].api_token@));
            }
        }
        r
    }

    /// Resolves an api token to its event id; a token no row carries is a
    /// distinct, reportable failure.
    pub fn api_token_to_event_id(&self, api_token: &str) -> (r: Result<i64, Error>)
        ensures
            match r {
                Ok(id) => {
                    &&& find_token(self.store.rows@, api_token@) matches Some(i)
                    &&& self.store.rows@[find_token(self.store.rows@, api_token@)->Some_0].id
                        == id
                },
                Err(e) => e matches Error::TokenNotFound && !self.store.has_token(api_token@),
            },
    {
        match self.store.id_by_token(api_token) {
            Some(id) => Ok(id),
            None => Err(Error::TokenNotFound),
        }
    }

    /// Reads an event's persisted fields and its api token column back from
    /// the store; an id no row holds is a reportable failure.
    pub fn event_data_from_sql(&self, event_id: i64) -> (r: Result<(EventData, String), Error>)
        requires
            self.wf(),
        ensures
            match r {
                Ok(p) => {
                    &&& find_id(self.store.rows@, event_id) matches Some(i)
                    &&& spec_encode(p.0@) == self.store.rows@[find_id(
                        self.store.rows@,
                        event_id,
                    )->Some_0].data@
                    &&& p.0.date.wf()
                    &&& p.1@ == self.store.rows@[find_id(
                        self.store.rows@,
                        event_id,
                    )->Some_0].api_token@
                },
                Err(e) => {
                    &&& e matches Error::EventNotFound(i)
                    &&& i == event_id
                    &&& !self.store.has_id(event_id)
                },
            },
    {
        let row = match self.store.row_by_id(event_id) {
            Some(row) => row,
            None => {
                return Err(Error::EventNotFound(event_id));
            },
        };
        proof {
            let ghost ix = find_id(self.store.rows@, event_id);
            lemma_find_id(self.store.rows@, event_id);
            assert(blob_ok(self.store.rows@[ix->Some_0].data@));
        }
        match crate::codec::decode_event_data(row.data.as_str()) {
            Some(data) => Ok((data, row.api_token.clone())),
            None => {
                proof {
                    let ev = choose|ev: EventDataV|
                        ev.date.wf() && bounded(ev) && row.data@ == #[trigger] spec_encode(ev);
                    assert(false);
                }
                Err(Error::BadData(event_id))
            },
        }
    }

    /// Decides how to open an event, without mutating anything: a no-op when
    /// already open, otherwise the persisted row decides whether a child
    /// server must be started. The caller commits the entry only once the
    /// plan's work has succeeded, so a failed migration or spawn leaves no
    /// partial entry behind.
    pub fn open_event(&self, event_id: i64, data_dir: &str) -> (r: Result<OpenPlan, Error>)
        requires
            self.wf(),
        ensures
            match r {
                Ok(plan) => match plan {
                    OpenPlan::AlreadyOpen => self.open_contains(event_id),
                    OpenPlan::Remote(data) => {
                        &&& !self.open_contains(event_id)
                        &&& find_id(self.store.rows@, event_id) matches Some(i)
                        &&& spec_encode(data@) == self.store.rows@[find_id(
                            self.store.rows@,
                            event_id,
                        )->Some_0].data@
                        &&& !data@.is_local
                    },
                    OpenPlan::Local { data, device_id, db_file } => {
                        &&& !self.open_contains(event_id)
                        &&& find_id(self.store.rows@, event_id) matches Some(i)
                        &&& spec_encode(data@) == self.store.rows@[find_id(
                            self.store.rows@,
                            event_id,
                        )->Some_0].data@
                        &&& data@.is_local
                        &&& device_id@ == self.store.rows@[find_id(
                            self.store.rows@,
                            event_id,
                        )->Some_0].api_token@
                        &&& db_file@ == spec_db_file(data_dir@, event_id)
                    },
                },
                Err(e) => {
                    &&& e matches Error::EventNotFound(i)
                    &&& i == event_id
                    &&& !self.open_contains(event_id)
                    &&& !self.store.has_id(event_id)
                },
            },
    {
        if let Some(_) = self.open_index(event_id) {
            return Ok(OpenPlan::AlreadyOpen);
        }
        let (data, api_token) = match self.event_data_from_sql(event_id) {
            Ok(p) => p,
            Err(e) => {
                return Err(Error::EventNotFound(event_id));
            },
        };
        if data.is_local {
            let mut f: Vec<char> = Vec::new();
            crate::text::push_str_chars(&mut f, data_dir);
            f.push('/');
            crate::numtext::push_dec_i64(&mut f, event_id);
            crate::text::push_str_chars(&mut f, "/event.qbe");
            assert(f@ =~= spec_db_file(data_dir@, event_id));
            let db_file = crate::text::chars_to_string(&f);
            Ok(OpenPlan::Local { data, device_id: api_token, db_file })
        } else {
            Ok(OpenPlan::Remote(data))
        }
    }

    /// Enters an opened event into the map, keeping ids ascending; a second
    /// commit for the same id changes nothing, so the map never holds two
    /// entries for one event.
    #[verifier::rlimit(60)]
    pub fn open_event_commit(&mut self, event_id: i64, data: EventData, has_process: bool) -> (
        inserted: bool)
        requires
            old(self).wf(),
        ensures
            final(self).wf(),
            final(self).store == old(self).store,
            if old(self).open_contains(event_id) {
                !inserted && *final(self) == *old(self)
            } else {
                &&& inserted
                &&& find_open(final(self).open_events@, event_id) matches Some(k)
                &&& final(self).open_events@[find_open(
                    final(self).open_events@,
                    event_id,
                )->Some_0].1.data@ == data@
                &&& final(self).open_events@[find_open(
                    final(self).open_events@,
                    event_id,
                )->Some_0].1.has_process == has_process
                &&& final(self).open_events@.remove(
                    find_open(final(self).open_events@, event_id)->Some_0,
                ) == old(self).open_events@
                &&& final(self).open_events@.len() == old(self).open_events@.len() + 1
            },
            final(self).open_contains(event_id),
    {
        let ghost m0 = self.open_events@;
        let mut pos: usize = 0;
        while pos < self.open_events.len() && self.open_events[pos].0 < event_id
            invariant
                pos <= self.open_events@.len(),
                *self == *old(self),
                old(self).wf(),
                forall|j: int| 0 <= j < pos ==> self.open_events@[j].0 < event_id,
            decreases self.open_events@.len() - pos,
        {
            pos = pos + 1;
        }
        proof {
            lemma_find_open(self.open_events@, event_id);
        }
        if pos < self.open_events.len() && self.open_events[pos].0 == event_id {
            return false;
        }
        // No entry holds the id: everything before `pos` is smaller and,
        // by sortedness, everything from `pos` on is strictly greater.
        proof {
            assert forall|j: int| 0 <= j < m0.len() implies m0[j].0 != event_id by {
                if j >= pos {
                    if m0[j].0 == event_id && j > pos {
                        assert(m0[pos as int].0 < m0[j].0);
                    }
                }
            }
        }
        let ghost entry_v = data@;
        self.open_events.insert(pos, (event_id, OpenEvent { data, has_process }));
        proof {
            m0.insert_ensures(pos as int, self.open_events@[pos as int]);
            assert forall|i: int, j: int|
                0 <= i < j < self.open_events@.len() implies self.open_events@[i].0
                < self.open_events@[j].0 by {
                let i0: int = if i < pos {
                    i
                } else {
                    i - 1
                };
                let j0: int = if j < pos {
                    j
                } else {
                    j - 1
                };
                if i != pos && j != pos {
                    assert(self.open_events@[i] == m0[i0]);
                    assert(self.open_events@[j] == m0[j0]);
                } else if i == pos {
                    assert(self.open_events@[j] == m0[j0]);
                } else {
                    assert(self.open_events@[i] == m0[i0]);
                }
            }
            assert forall|j: int| 0 <= j < pos implies self.open_events@[j].0 != event_id by {
                assert(self.open_events@[j] == m0[j]);
            }
            lemma_find_open(self.open_events@, event_id);
            assert(find_open(self.open_events@, event_id) == Some(pos as int));
            assert(self.open_events@.remove(pos as int) =~= m0);
        }
        true
    }

    /// Removes an event from the open map. Closing what is not open is a
    /// successful no-op; closing an entry that owned a child process tells
    /// the caller to terminate and await it.
    pub fn close_event(&mut self, event_id: i64) -> (r: CloseOutcome)
        requires
            old(self).wf(),
        ensures
            final(self).wf(),
            final(self).store == old(self).store,
            match r {
                CloseOutcome::NotOpen => !old(self).open_contains(event_id) && *final(self)
                    == *old(self),
                CloseOutcome::Closed { had_process } => {
                    &&& find_open(old(self).open_events@, event_id) matches Some(i)
                    &&& had_process == old(self).open_events@[find_open(
                        old(self).open_events@,
                        event_id,
                    )->Some_0].1.has_process
                    &&& final(self).open_events@ == old(self).open_events@.remove(
                        find_open(old(self).open_events@, event_id)->Some_0,
                    )
                },
            },
            !final(self).open_contains(event_id),
    {
        let ghost m0 = self.open_events@;
        match self.open_index(event_id) {
            None => {
                proof {
                    lemma_find_open(self.open_events@, event_id);
                }
                CloseOutcome::NotOpen
            },
            Some(i) => {
                proof {
                    lemma_find_open(m0, event_id);
                }
                let entry = self.open_events.remove(i);
                proof {
                    m0.remove_ensures(i as int);
                    assert forall|a: int, b: int|
                        0 <= a < b < self.open_events@.len() implies self.open_events@[a].0
                        < self.open_events@[b].0 by {
                        let a0: int = if a < i {
                            a
                        } else {
                            a + 1
                        };
                        let b0: int = if b < i {
                            b
                        } else {
                            b + 1
                        };
                        assert(self.open_events@[a] == m0.remove(i as int)[a]);
                        assert(m0.remove(i as int)[a] == m0[a0]);
                        assert(self.open_events@[b] == m0.remove(i as int)[b]);
                        assert(m0.remove(i as int)[b] == m0[b0]);
                    }
                    lemma_find_open(self.open_events@, event_id);
                    if find_open(self.open_events@, event_id) is Some {
                        let k = find_open(self.open_events@, event_id)->Some_0;
                        let k0: int = if k < i {
                            k
                        } else {
                            k + 1
                        };
                        assert(self.open_events@[k] == m0.remove(i as int)[k]);
                        assert(m0.remove(i as int)[k] == m0[k0]);
                        assert(m0[k0].0 != event_id);
                    }
                }
                CloseOutcome::Closed { had_process: entry.1.has_process }
            },
        }
    }

    /// Deletes the persisted row of an event that is not open; deleting an
    /// open event is refused so no child process is left dangling. Says
    /// whether a row was actually removed.
    pub fn delete_event(&mut self, event_id: i64) -> (r: Result<bool, Error>)
        requires
            old(self).wf(),
        ensures
            final(self).wf(),
            final(self).open_events@ == old(self).open_events@,
            match r {
                Ok(deleted) => {
                    &&& !old(self).open_contains(event_id)
                    &&& match find_id(old(self).store.rows@, event_id) {
                        Some(i) => deleted && final(self).store.rows@ == old(
                            self,
                        ).store.rows@.remove(i),
                        None => !deleted && final(self).store == old(self).store,
                    }
                },
                Err(e) => {
                    &&& e matches Error::EventStillOpen(i)
                    &&& i == event_id
                    &&& old(self).open_contains(event_id)
                    &&& *final(self) == *old(self)
                },
            },
    {
        match self.open_index(event_id) {
            Some(_) => Err(Error::EventStillOpen(event_id)),
            None => {
                let deleted = self.store.delete_by_id(event_id);
                Ok(deleted)
            },
        }
    }
}

proof fn lemma_count_key_zero(m: Seq<(i64, OpenEvent)>, id: i64)
    requires
        forall|j: int| 0 <= j < m.len() ==> (#[trigger] m[j]).0 != id,
    ensures
        count_key(m, id) == 0,
    decreases m.len(),
{
    if m.len() > 0 {
        let d = m.drop_first();
        assert forall|j: int| 0 <= j < d.len() implies (#[trigger] d[j]).0 != id by {
            assert(d[j] == m[j + 1]);
        }
        lemma_count_key_zero(d, id);
    }
}

proof fn lemma_count_key_distinct(m: Seq<(i64, OpenEvent)>, id: i64)
    requires
        forall|i: int, j: int| 0 <= i < j < m.len() ==> (#[trigger] m[i]).0 != (#[trigger] m[j]).0,
    ensures
        count_key(m, id) == if find_open(m, id) is Some {
            1nat
        } else {
            0nat
        },
    decreases m.len(),
{
    if m.len() > 0 {
        let d = m.drop_first();
        assert forall|i: int, j: int|
            0 <= i < j < d.len() implies (#[trigger] d[i]).0 != (#[trigger] d[j]).0 by {
            assert(d[i] == m[i + 1]);
            assert(d[j] == m[j + 1]);
        }
        if m[0].0 == id {
            assert forall|j: int| 0 <= j < d.len() implies (#[trigger] d[j]).0 != id by {
                assert(d[j] == m[j + 1]);
                assert(m[0].0 != m[j + 1].0);
            }
            lemma_count_key_zero(d, id);
            lemma_find_open(d, id);
        } else {
            lemma_count_key_distinct(d, id);
        }
    }
}

/// The open-events map holds exactly one entry for an open event id, and
/// none for any other id: opening twice leaves one entry, and two
/// concurrent opens, serialized by the state's lock, still leave one.
pub proof fn lemma_open_map_one_entry(s: State, id: i64)
    requires
        s.wf(),
    ensures
        count_key(s.open_events@, id) == if s.open_contains(id) {
            1nat
        } else {
            0nat
        },
{
    assert forall|i: int, j: int|
        0 <= i < j < s.open_events@.len() implies (#[trigger] s.open_events@[i]).0 != (
    #[trigger] s.open_events@[j]).0 by {
        assert(s.open_events@[i].0 < s.open_events@[j].0);
    }
    lemma_count_key_distinct(s.open_events@, id);
}

/// Ids strictly increase across one session. A successful create returns
/// the store's counter and leaves the counter strictly larger, and no
/// operation of the store ever lowers the counter (every contract states
/// it unchanged, raised by one, or raised past a loaded id) — so an id a
/// later create returns is strictly greater than every id issued, or even
/// only stored, earlier in the session. The token of a later create
/// likewise differs from every token still stored; a token whose row was
/// deleted in between is not covered.
pub proof fn lemma_session_ids_increase(
    id_before: i64,
    counter_between: int,
    counter_later: int,
    id_later: i64,
)
    requires
        id_before < counter_between,
        counter_between <= counter_later,
        id_later == counter_later,
    ensures
        id_later > id_before,
{
}

/// Every stored api token resolves to exactly its own row: once `create`
/// has issued a token for an event, looking that token up answers that
/// event's id, and a token never issued is found nowhere.
pub proof fn lemma_token_resolves_to_own_row(s: EventStore, i: int)
    requires
        s.wf(),
        0 <= i < s.rows@.len(),
    ensures
        find_token(s.rows@, s.rows@[i].api_token@) matches Some(k) && s.rows@[k].id
            == s.rows@[i].id,
{
    let t = s.rows@[i].api_token@;
    lemma_find_token(s.rows@, t);
    match find_token(s.rows@, t) {
        None => {
            assert(s.rows@[i].api_token@ != t);
        },
        Some(k) => {
            if k != i {
                if k < i {
                    assert(s.rows@[k].api_token@ != s.rows@[i].api_token@);
                } else {
                    assert(s.rows@[i].api_token@ != s.rows@[k].api_token@);
                }
            }
        },
    }
}

} // verus!
