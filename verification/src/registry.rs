//! The session registry: the live connections of one scope.
//!
//! Sessions are kept in a `dashmap::DashMap`, from session id to the
//! connection handle. A handle is a number that the host chose for the
//! connection; the registry never looks inside it.

use dashmap::DashMap;
use vstd::prelude::*;

verus! {

/// `dashmap::DashMap`, declared so that it can stand in a field. Nothing of
/// its inside is known here.
#[verifier::external_type_specification]
#[verifier::external_body]
#[verifier::reject_recursive_types(K)]
#[verifier::reject_recursive_types(V)]
#[verifier::reject_recursive_types(S)]
pub struct ExDashMap<K, V, S>(DashMap<K, V, S>);

/// The entries that a `DashMap` from session id to handle holds.
pub uninterp spec fn session_table(m: DashMap<String, u64>) -> Map<Seq<char>, u64>;

/// One live connection.
#[derive(Debug)]
pub struct Session {
    pub session_id: String,
    pub handle: u64,
}

/// Mathematical value of a [`Session`].
pub struct SessionView {
    pub session_id: Seq<char>,
    pub handle: u64,
}

impl View for Session {
    type V = SessionView;

    open spec fn view(&self) -> SessionView {
        SessionView { session_id: self.session_id@, handle: self.handle }
    }
}

impl Clone for Session {
    fn clone(&self) -> (r: Self)
        ensures
            r@ == self@,
    {
        Session { session_id: self.session_id.clone(), handle: self.handle }
    }
}

/// The mathematical values of a list of sessions, in order.
pub open spec fn session_views(s: Seq<Session>) -> Seq<SessionView> {
    s.map_values(|x: Session| x@)
}

/// `list` names every entry of `table` once, and nothing else. The order
/// of the list is left open.
pub open spec fn lists_exactly(list: Seq<SessionView>, table: Map<Seq<char>, u64>) -> bool {
    &&& table.dom().finite()
    &&& list.len() == table.dom().len()
    &&& forall|i: int|
        0 <= i < list.len() ==> table.contains_key((#[trigger] list[i]).session_id)
            && table[list[i].session_id] == list[i].handle
    &&& forall|k: Seq<char>| #[trigger]
        table.contains_key(k) ==> exists|i: int|
            0 <= i < list.len() && (#[trigger] list[i]).session_id == k
    &&& forall|i: int, j: int|
        0 <= i < j < list.len() ==> (#[trigger] list[i]).session_id != (
        #[trigger] list[j]).session_id
}

/// The table without a session.
pub open spec fn no_sessions() -> Map<Seq<char>, u64> {
    Map::empty()
}

/// `DashMap::new`: the new map holds no entry.
#[verifier::external_body]
fn table_new() -> (m: DashMap<String, u64>)
    ensures
        session_table(m) == no_sessions(),
{
    DashMap::new()
}

/// `DashMap::insert`: afterwards the map holds `value` under `key`, in
/// place of what was there, and every other entry is as before. The value
/// that was replaced is handed back. The map is borrowed exclusively, so
/// no reference into it is held, under which the call would block.
#[verifier::external_body]
fn table_insert(m: &mut DashMap<String, u64>, key: String, value: u64) -> (previous: Option<u64>)
    ensures
        session_table(*final(m)) == session_table(*old(m)).insert(key@, value),
        previous == if session_table(*old(m)).contains_key(key@) {
            Some(session_table(*old(m))[key@])
        } else {
            None::<u64>
        },
{
    m.insert(key, value)
}

/// `DashMap::remove`: afterwards the map holds nothing under `key`, and
/// every other entry is as before. The value that was removed is handed
/// back. The map is borrowed exclusively, as for an insertion.
#[verifier::external_body]
fn table_remove(m: &mut DashMap<String, u64>, key: &str) -> (removed: Option<u64>)
    ensures
        session_table(*final(m)) == session_table(*old(m)).remove(key@),
        removed == if session_table(*old(m)).contains_key(key@) {
            Some(session_table(*old(m))[key@])
        } else {
            None::<u64>
        },
{
    m.remove(key).map(|entry| entry.1)
}

/// `DashMap::iter`, collected: every entry of the map once, in the order in
/// which the map happens to walk them. A map holds finitely many entries.
#[verifier::external_body]
fn table_entries(m: &DashMap<String, u64>) -> (out: Vec<Session>)
    ensures
        lists_exactly(session_views(out@), session_table(*m)),
{
    m.iter().map(|e| Session { session_id: e.key().clone(), handle: *e.value() }).collect()
}

/// The live set of connections for one scope, by session id.
pub struct SessionRegistry {
    sessions: DashMap<String, u64>,
}

impl View for SessionRegistry {
    type V = Map<Seq<char>, u64>;

    closed spec fn view(&self) -> Map<Seq<char>, u64> {
        session_table(self.sessions)
    }
}

impl SessionRegistry {
    /// A registry without sessions.
    pub fn new() -> (r: Self)
        ensures
            r@ == Map::<Seq<char>, u64>::empty(),
    {
        SessionRegistry { sessions: table_new() }
    }

    /// Registers a session. Where `session_id` is registered already, the
    /// new handle takes the place of the old one.
    pub fn register(&mut self, session_id: String, handle: u64)
        ensures
            final(self)@ == old(self)@.insert(session_id@, handle),
    {
        let _ = table_insert(&mut self.sessions, session_id, handle);
    }

    /// Removes a session. Removing one that is not registered changes
    /// nothing. Returns whether a session was removed.
    pub fn unregister(&mut self, session_id: &str) -> (removed: bool)
        ensures
            final(self)@ == old(self)@.remove(session_id@),
            removed == old(self)@.contains_key(session_id@),
            !removed ==> final(self)@ == old(self)@,
    {
        let removed = table_remove(&mut self.sessions, session_id);
        proof {
            if !old(self)@.contains_key(session_id@) {
                assert(old(self)@.remove(session_id@) =~= old(self)@);
            }
        }
        removed.is_some()
    }

    /// The sessions as they are at this moment, each once. The list is the
    /// caller's own: later changes of the registry do not show in it.
    pub fn snapshot_sessions(&self) -> (out: Vec<Session>)
        ensures
            lists_exactly(session_views(out@), self@),
    {
        table_entries(&self.sessions)
    }
}

/// Unregistering is idempotent: a second removal changes nothing.
pub proof fn lemma_unregister_idempotent(table: Map<Seq<char>, u64>, session_id: Seq<char>)
    ensures
        table.remove(session_id).remove(session_id) == table.remove(session_id),
        !table.contains_key(session_id) ==> table.remove(session_id) == table,
{
    assert(table.remove(session_id).remove(session_id) =~= table.remove(session_id));
    if !table.contains_key(session_id) {
        assert(table.remove(session_id) =~= table);
    }
}

/// The last registration of a session id wins.
pub proof fn lemma_register_replaces(
    table: Map<Seq<char>, u64>,
    session_id: Seq<char>,
    first: u64,
    second: u64,
)
    ensures
        table.insert(session_id, first).insert(session_id, second) == table.insert(
            session_id,
            second,
        ),
{
    assert(table.insert(session_id, first).insert(session_id, second) =~= table.insert(
        session_id,
        second,
    ));
}

} // verus!
