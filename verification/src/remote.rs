//! The local side of a remote calendar: the maps between the calendar's
//! own event ids (names) and the integer keys that records carry here.

use crate::entry::EntryRecord;
use crate::record::{opt_str, Record, RecordView, RecurringRecord, RecurringView};
use crate::table::{entries_map, named_pairs, KeyTable, NameTable};
use vstd::prelude::*;

verus! {

/// The abstract content of a remote calendar's key maps.
pub struct RemoteView {
    pub primary_key: u64,
    pub recurrence_key: u64,
    /// Remote event id to primary key.
    pub ids: Map<Seq<char>, u64>,
    /// Primary key to remote event id.
    pub reverse_ids: Map<u64, Seq<char>>,
    /// Remote recurring event id to recurrence key.
    pub recurring_ids: Map<Seq<char>, u64>,
    /// Recurrence key to remote recurring event id.
    pub reverse_recurring_ids: Map<u64, Seq<char>>,
    pub calendar_id: Seq<char>,
}

/// Whether the two maps are inverse to each other: each name maps to a
/// key that maps back to it, and each key to a name that maps back to it.
pub open spec fn maps_agree(names: Map<Seq<char>, u64>, keys: Map<u64, Seq<char>>) -> bool {
    &&& forall|s: Seq<char>| #[trigger]
        names.contains_key(s) ==> keys.contains_key(names[s]) && keys[names[s]] == s
    &&& forall|k: u64| #[trigger]
        keys.contains_key(k) ==> names.contains_key(keys[k]) && names[keys[k]] == k
}

impl RemoteView {
    /// The maps after the pair `key` / `name` is added.
    pub open spec fn with_id(self, key: u64, name: Seq<char>) -> RemoteView {
        RemoteView {
            ids: self.ids.insert(name, key),
            reverse_ids: self.reverse_ids.insert(key, name),
            ..self
        }
    }

    /// The maps after the recurring pair `key` / `name` is added.
    pub open spec fn with_recurring_id(self, key: u64, name: Seq<char>) -> RemoteView {
        RemoteView {
            recurring_ids: self.recurring_ids.insert(name, key),
            reverse_recurring_ids: self.reverse_recurring_ids.insert(key, name),
            ..self
        }
    }

    /// The maps after the key `key` and the name it maps to are removed.
    pub open spec fn without_key(self, key: u64) -> RemoteView {
        RemoteView {
            reverse_ids: self.reverse_ids.remove(key),
            ids: if self.reverse_ids.contains_key(key) {
                self.ids.remove(self.reverse_ids[key])
            } else {
                self.ids
            },
            ..self
        }
    }

    /// The maps after the name `name` and the key it maps to are removed.
    pub open spec fn without_name(self, name: Seq<char>) -> RemoteView {
        RemoteView {
            ids: self.ids.remove(name),
            reverse_ids: if self.ids.contains_key(name) {
                self.reverse_ids.remove(self.ids[name])
            } else {
                self.reverse_ids
            },
            ..self
        }
    }

    /// The recurring maps after the key `key` and its name are removed.
    pub open spec fn without_recurring_key(self, key: u64) -> RemoteView {
        RemoteView {
            reverse_recurring_ids: self.reverse_recurring_ids.remove(key),
            recurring_ids: if self.reverse_recurring_ids.contains_key(key) {
                self.recurring_ids.remove(self.reverse_recurring_ids[key])
            } else {
                self.recurring_ids
            },
            ..self
        }
    }

    /// The recurring maps after the name `name` and its key are removed.
    pub open spec fn without_recurring_name(self, name: Seq<char>) -> RemoteView {
        RemoteView {
            recurring_ids: self.recurring_ids.remove(name),
            reverse_recurring_ids: if self.recurring_ids.contains_key(name) {
                self.reverse_recurring_ids.remove(self.recurring_ids[name])
            } else {
                self.reverse_recurring_ids
            },
            ..self
        }
    }

    /// Whether both pairs of maps are inverse to each other.
    pub open spec fn consistent(self) -> bool {
        maps_agree(self.ids, self.reverse_ids) && maps_agree(
            self.recurring_ids,
            self.reverse_recurring_ids,
        )
    }
}

/// The names of a key table, by their views.
pub open spec fn name_map(t: Map<u64, String>) -> Map<u64, Seq<char>> {
    t.map_values(|s: String| s@)
}

/// An entry with the keys of a remote calendar: a record, or a recurrence.
#[derive(Debug)]
pub enum KeyedEntry {
    Single(Record),
    Repeated(RecurringRecord),
}

/// The key maps of a remote calendar.
#[derive(Debug)]
pub struct RemoteDB {
    primary_key: u64,
    recurrence_key: u64,
    id_map: NameTable,
    reverse_id_map: KeyTable<String>,
    recurring_id_map: NameTable,
    reverse_recurring_id_map: KeyTable<String>,
    calendar_id: String,
}

impl View for RemoteDB {
    type V = RemoteView;

    closed spec fn view(&self) -> RemoteView {
        RemoteView {
            primary_key: self.primary_key,
            recurrence_key: self.recurrence_key,
            ids: self.id_map@,
            reverse_ids: name_map(self.reverse_id_map@),
            recurring_ids: self.recurring_id_map@,
            reverse_recurring_ids: name_map(self.reverse_recurring_id_map@),
            calendar_id: self.calendar_id@,
        }
    }
}

/// Inserting into a key table of names inserts the name's view.
proof fn lemma_name_map_insert(t: Map<u64, String>, k: u64, s: String)
    ensures
        name_map(t.insert(k, s)) == name_map(t).insert(k, s@),
{
    assert(name_map(t.insert(k, s)) =~= name_map(t).insert(k, s@));
}

/// Removing from a key table of names removes the key from the views.
proof fn lemma_name_map_remove(t: Map<u64, String>, k: u64)
    ensures
        name_map(t.remove(k)) == name_map(t).remove(k),
{
    assert(name_map(t.remove(k)) =~= name_map(t).remove(k));
}

impl RemoteDB {
    #[verifier::type_invariant]
    spec fn inv(self) -> bool {
        &&& self.id_map.wf()
        &&& self.reverse_id_map.wf()
        &&& self.recurring_id_map.wf()
        &&& self.reverse_recurring_id_map.wf()
    }

    /// Stores `key` under `name` in the table of record ids.
    fn ids_insert(&mut self, name: String, key: u64)
        ensures
            final(self)@ == (RemoteView { ids: old(self)@.ids.insert(name@, key), ..old(self)@ }),
    {
        let mut t = NameTable::new();
        proof {
            use_type_invariant(&*self);
        }
        std::mem::swap(&mut t, &mut self.id_map);
        t.insert(name, key);
        self.id_map = t;
    }

    /// Removes `name` from the table of record ids.
    fn ids_remove(&mut self, name: &String) -> (res: Option<u64>)
        ensures
            final(self)@ == (RemoteView { ids: old(self)@.ids.remove(name@), ..old(self)@ }),
            res == (if old(self)@.ids.contains_key(name@) {
                Some(old(self)@.ids[name@])
            } else {
                None
            }),
    {
        let mut t = NameTable::new();
        proof {
            use_type_invariant(&*self);
        }
        std::mem::swap(&mut t, &mut self.id_map);
        let res = t.remove(name);
        self.id_map = t;
        res
    }

    /// Stores `name` under `key` in the table of record keys.
    fn keys_insert(&mut self, key: u64, name: String)
        ensures
            final(self)@ == (RemoteView {
                reverse_ids: old(self)@.reverse_ids.insert(key, name@),
                ..old(self)@
            }),
    {
        let mut t = KeyTable::new();
        proof {
            use_type_invariant(&*self);
        }
        std::mem::swap(&mut t, &mut self.reverse_id_map);
        proof {
            lemma_name_map_insert(t@, key, name);
        }
        t.insert(key, name);
        self.reverse_id_map = t;
    }

    /// Removes `key` from the table of record keys.
    fn keys_remove(&mut self, key: u64) -> (res: Option<String>)
        ensures
            final(self)@ == (RemoteView {
                reverse_ids: old(self)@.reverse_ids.remove(key),
                ..old(self)@
            }),
            opt_str(res) == (if old(self)@.reverse_ids.contains_key(key) {
                Some(old(self)@.reverse_ids[key])
            } else {
                None
            }),
    {
        let mut t = KeyTable::new();
        proof {
            use_type_invariant(&*self);
        }
        std::mem::swap(&mut t, &mut self.reverse_id_map);
        proof {
            lemma_name_map_remove(t@, key);
        }
        let res = t.remove(key);
        self.reverse_id_map = t;
        res
    }

    /// Stores `key` under `name` in the table of recurrence ids.
    fn recurring_ids_insert(&mut self, name: String, key: u64)
        ensures
            final(self)@ == (RemoteView {
                recurring_ids: old(self)@.recurring_ids.insert(name@, key),
                ..old(self)@
            }),
    {
        let mut t = NameTable::new();
        proof {
            use_type_invariant(&*self);
        }
        std::mem::swap(&mut t, &mut self.recurring_id_map);
        t.insert(name, key);
        self.recurring_id_map = t;
    }

    /// Removes `name` from the table of recurrence ids.
    fn recurring_ids_remove(&mut self, name: &String) -> (res: Option<u64>)
        ensures
            final(self)@ == (RemoteView {
                recurring_ids: old(self)@.recurring_ids.remove(name@),
                ..old(self)@
            }),
            res == (if old(self)@.recurring_ids.contains_key(name@) {
                Some(old(self)@.recurring_ids[name@])
            } else {
                None
            }),
    {
        let mut t = NameTable::new();
        proof {
            use_type_invariant(&*self);
        }
        std::mem::swap(&mut t, &mut self.recurring_id_map);
        let res = t.remove(name);
        self.recurring_id_map = t;
        res
    }

    /// Stores `name` under `key` in the table of recurrence keys.
    fn recurring_keys_insert(&mut self, key: u64, name: String)
        ensures
            final(self)@ == (RemoteView {
                reverse_recurring_ids: old(self)@.reverse_recurring_ids.insert(key, name@),
                ..old(self)@
            }),
    {
        let mut t = KeyTable::new();
        proof {
            use_type_invariant(&*self);
        }
        std::mem::swap(&mut t, &mut self.reverse_recurring_id_map);
        proof {
            lemma_name_map_insert(t@, key, name);
        }
        t.insert(key, name);
        self.reverse_recurring_id_map = t;
    }

    /// Removes `key` from the table of recurrence keys.
    fn recurring_keys_remove(&mut self, key: u64) -> (res: Option<String>)
        ensures
            final(self)@ == (RemoteView {
                reverse_recurring_ids: old(self)@.reverse_recurring_ids.remove(key),
                ..old(self)@
            }),
            opt_str(res) == (if old(self)@.reverse_recurring_ids.contains_key(key) {
                Some(old(self)@.reverse_recurring_ids[key])
            } else {
                None
            }),
    {
        let mut t = KeyTable::new();
        proof {
            use_type_invariant(&*self);
        }
        std::mem::swap(&mut t, &mut self.reverse_recurring_id_map);
        proof {
            lemma_name_map_remove(t@, key);
        }
        let res = t.remove(key);
        self.reverse_recurring_id_map = t;
        res
    }

    /// Empty maps for the calendar `calendar_id`.
    pub fn new(calendar_id: String) -> (res: RemoteDB)
        ensures
            res@ == (RemoteView {
                primary_key: 0,
                recurrence_key: 0,
                ids: Map::empty(),
                reverse_ids: Map::empty(),
                recurring_ids: Map::empty(),
                reverse_recurring_ids: Map::empty(),
                calendar_id: calendar_id@,
            }),
    {
        let res = RemoteDB {
            primary_key: 0,
            recurrence_key: 0,
            id_map: NameTable::new(),
            reverse_id_map: KeyTable::new(),
            recurring_id_map: NameTable::new(),
            reverse_recurring_id_map: KeyTable::new(),
            calendar_id,
        };
        assert(name_map(res.reverse_id_map@) =~= Map::<u64, Seq<char>>::empty());
        assert(name_map(res.reverse_recurring_id_map@) =~= Map::<u64, Seq<char>>::empty());
        res
    }

    /// The remote event ids with their primary keys.
    pub fn id_entries(&self) -> (res: Vec<(String, u64)>)
        ensures
            entries_map(named_pairs(res@)) == self@.ids,
    {
        self.id_map.entries()
    }

    /// The remote recurring event ids with their recurrence keys.
    pub fn recurring_id_entries(&self) -> (res: Vec<(String, u64)>)
        ensures
            entries_map(named_pairs(res@)) == self@.recurring_ids,
    {
        self.recurring_id_map.entries()
    }

    /// Prepares the recurrence `record`, which the remote calendar stored
    /// under the event id `key`, to be kept here: the recurrence and its
    /// record take `key` as their remote keys; a recurrence without a key
    /// (0) takes the next recurrence key, which its record takes too; the
    /// record takes the next primary key.
    pub fn stored_recurrence(&mut self, record: &mut RecurringRecord, key: String)
        requires
            old(self)@.primary_key < u64::MAX,
            old(self)@.recurrence_key < u64::MAX,
        ensures
            ({
                let fresh = old(record)@.recurrence_key == 0;
                let rk = if fresh {
                    (old(self)@.recurrence_key + 1) as u64
                } else {
                    old(record)@.recurrence_key
                };
                &&& final(self)@ == (RemoteView {
                    primary_key: (old(self)@.primary_key + 1) as u64,
                    recurrence_key: if fresh {
                        rk
                    } else {
                        old(self)@.recurrence_key
                    },
                    ..old(self)@
                })
                &&& final(record)@ == (RecurringView {
                    internal_key: Some(key@),
                    recurrence_key: rk,
                    record: RecordView {
                        primary_key: (old(self)@.primary_key + 1) as u64,
                        recurrence_key: if fresh {
                            Some(rk)
                        } else {
                            old(record)@.record.recurrence_key
                        },
                        internal_key: Some(key@),
                        internal_recurrence_key: Some(key@),
                        ..old(record)@.record
                    },
                    ..old(record)@
                })
            }),
    {
        record.set_internal_key(Some(key.clone()));
        record.record().set_internal_recurrence_key(Some(key.clone()));
        record.record().set_internal_key(Some(key));
        if record.recurrence_key() == 0 {
            let rk = self.next_recurrence_key();
            record.set_recurrence_key(rk);
        }
        let pk = self.next_key();
        record.record().set_primary_key(pk);
    }

    /// Gives an entry that was read the keys of this calendar: its record
    /// takes the next primary key; with a recurrence, the record and the
    /// recurrence take the record's recurrence key, or the next one, and
    /// the recurrence is handed back, otherwise the record is.
    pub fn keyed_entry(&mut self, entry: EntryRecord) -> (res: KeyedEntry)
        requires
            old(self)@.primary_key < u64::MAX,
            old(self)@.recurrence_key < u64::MAX,
        ensures
            final(self)@.primary_key == old(self)@.primary_key + 1,
            final(self)@ == (RemoteView {
                primary_key: final(self)@.primary_key,
                recurrence_key: final(self)@.recurrence_key,
                ..old(self)@
            }),
            match entry@.recurrence {
                Some(rec) => {
                    let key = match entry@.record.recurrence_key {
                        Some(k) => k,
                        None => (old(self)@.recurrence_key + 1) as u64,
                    };
                    &&& final(self)@.recurrence_key == (if entry@.record.recurrence_key is Some {
                        old(self)@.recurrence_key
                    } else {
                        key
                    })
                    &&& res matches KeyedEntry::Repeated(r) && r@ == (RecurringView {
                        record: RecordView {
                            primary_key: final(self)@.primary_key,
                            recurrence_key: Some(key),
                            ..entry@.record
                        },
                        recurrence_key: key,
                        ..rec
                    })
                },
                None => {
                    &&& final(self)@.recurrence_key == old(self)@.recurrence_key
                    &&& res matches KeyedEntry::Single(r) && r@ == (RecordView {
                        primary_key: final(self)@.primary_key,
                        ..entry@.record
                    })
                },
            },
    {
        let mut record = entry.record();
        let recurrence = entry.recurrence();
        let pk = self.next_key();
        record.set_primary_key(pk);
        match recurrence {
            Some(mut rec) => {
                let key = match record.recurrence_key() {
                    Some(k) => k,
                    None => self.next_recurrence_key(),
                };
                record.set_recurrence_key(Some(key));
                rec.set_record(record);
                rec.set_recurrence_key(key);
                KeyedEntry::Repeated(rec)
            },
            None => KeyedEntry::Single(record),
        }
    }

    /// The calendar these maps belong to.
    pub fn calendar_id(&self) -> (res: String)
        ensures
            res@ == self@.calendar_id,
    {
        self.calendar_id.clone()
    }

    /// The last primary key handed out.
    pub fn primary_key(&self) -> (res: u64)
        ensures
            res == self@.primary_key,
    {
        self.primary_key
    }

    pub fn set_primary_key(&mut self, primary_key: u64)
        ensures
            final(self)@ == (RemoteView { primary_key: primary_key, ..old(self)@ }),
    {
        proof {
            use_type_invariant(&*self);
        }
        self.primary_key = primary_key;
    }

    /// The last recurrence key handed out.
    pub fn recurrence_key(&self) -> (res: u64)
        ensures
            res == self@.recurrence_key,
    {
        self.recurrence_key
    }

    pub fn set_recurrence_key(&mut self, recurrence_key: u64)
        ensures
            final(self)@ == (RemoteView { recurrence_key: recurrence_key, ..old(self)@ }),
    {
        proof {
            use_type_invariant(&*self);
        }
        self.recurrence_key = recurrence_key;
    }

    /// Hands out the next primary key.
    pub fn next_key(&mut self) -> (res: u64)
        requires
            old(self)@.primary_key < u64::MAX,
        ensures
            res == old(self)@.primary_key + 1,
            final(self)@ == (RemoteView { primary_key: res, ..old(self)@ }),
    {
        proof {
            use_type_invariant(&*self);
        }
        self.primary_key = self.primary_key + 1;
        self.primary_key
    }

    /// Hands out the next recurrence key.
    pub fn next_recurrence_key(&mut self) -> (res: u64)
        requires
            old(self)@.recurrence_key < u64::MAX,
        ensures
            res == old(self)@.recurrence_key + 1,
            final(self)@ == (RemoteView { recurrence_key: res, ..old(self)@ }),
    {
        proof {
            use_type_invariant(&*self);
        }
        self.recurrence_key = self.recurrence_key + 1;
        self.recurrence_key
    }

    /// Maps the primary key `primary_key` and the remote event id
    /// `remote_key` to each other.
    pub fn add_internal(&mut self, primary_key: u64, remote_key: String)
        ensures
            final(self)@ == old(self)@.with_id(primary_key, remote_key@),
    {
        self.ids_insert(remote_key.clone(), primary_key);
        self.keys_insert(primary_key, remote_key);
    }

    /// Maps the remote event id `primary_key` and the primary key
    /// `remote_key` to each other (the arguments of `add_internal` the other
    /// way round).
    pub fn add(&mut self, primary_key: String, remote_key: u64)
        ensures
            final(self)@ == old(self)@.with_id(remote_key, primary_key@),
    {
        self.keys_insert(remote_key, primary_key.clone());
        self.ids_insert(primary_key, remote_key);
    }

    /// Maps the recurrence key `primary_key` and the remote recurring event
    /// id `remote_key` to each other.
    pub fn add_recurring_internal(&mut self, primary_key: u64, remote_key: String)
        ensures
            final(self)@ == old(self)@.with_recurring_id(primary_key, remote_key@),
    {
        self.recurring_ids_insert(remote_key.clone(), primary_key);
        self.recurring_keys_insert(primary_key, remote_key);
    }

    /// Maps the remote recurring event id `primary_key` and the recurrence
    /// key `remote_key` to each other.
    pub fn add_recurring(&mut self, primary_key: String, remote_key: u64)
        ensures
            final(self)@ == old(self)@.with_recurring_id(remote_key, primary_key@),
    {
        self.recurring_keys_insert(remote_key, primary_key.clone());
        self.recurring_ids_insert(primary_key, remote_key);
    }

    /// The primary key of the remote event id `id`.
    pub fn lookup_internal(&self, id: String) -> (res: Option<u64>)
        ensures
            res == (if self@.ids.contains_key(id@) {
                Some(self@.ids[id@])
            } else {
                None
            }),
    {
        proof {
            use_type_invariant(self);
        }
        self.id_map.get(&id)
    }

    /// The remote event id of the primary key `id`.
    pub fn lookup(&self, id: u64) -> (res: Option<String>)
        ensures
            opt_str(res) == (if self@.reverse_ids.contains_key(id) {
                Some(self@.reverse_ids[id])
            } else {
                None
            }),
    {
        proof {
            use_type_invariant(self);
        }
        match self.reverse_id_map.get(id) {
            Some(s) => Some(s.clone()),
            None => None,
        }
    }

    /// The recurrence key of the remote recurring event id `id`.
    pub fn recurring_lookup_internal(&self, id: String) -> (res: Option<u64>)
        ensures
            res == (if self@.recurring_ids.contains_key(id@) {
                Some(self@.recurring_ids[id@])
            } else {
                None
            }),
    {
        proof {
            use_type_invariant(self);
        }
        self.recurring_id_map.get(&id)
    }

    /// The remote recurring event id of the recurrence key `id`.
    pub fn recurring_lookup(&self, id: u64) -> (res: Option<String>)
        ensures
            opt_str(res) == (if self@.reverse_recurring_ids.contains_key(id) {
                Some(self@.reverse_recurring_ids[id])
            } else {
                None
            }),
    {
        proof {
            use_type_invariant(self);
        }
        match self.reverse_recurring_id_map.get(id) {
            Some(s) => Some(s.clone()),
            None => None,
        }
    }

    /// Forgets the primary key `id` and the remote event id it maps to.
    pub fn remove_by_internal_id(&mut self, id: u64)
        ensures
            final(self)@ == old(self)@.without_key(id),
    {
        match self.keys_remove(id) {
            Some(o) => {
                self.ids_remove(&o);
            },
            None => {},
        }
    }

    /// Forgets the remote event id `id` and the primary key it maps to.
    pub fn remove_by_public_id(&mut self, id: String)
        ensures
            final(self)@ == old(self)@.without_name(id@),
    {
        match self.ids_remove(&id) {
            Some(o) => {
                self.keys_remove(o);
            },
            None => {},
        }
    }

    /// Forgets the recurrence key `id` and the remote recurring event id it
    /// maps to.
    pub fn remove_recurring_by_internal_id(&mut self, id: u64)
        ensures
            final(self)@ == old(self)@.without_recurring_key(id),
    {
        match self.recurring_keys_remove(id) {
            Some(o) => {
                self.recurring_ids_remove(&o);
            },
            None => {},
        }
    }

    /// Forgets the remote recurring event id `id` and the recurrence key it
    /// maps to.
    pub fn remove_recurring_by_public_id(&mut self, id: String)
        ensures
            final(self)@ == old(self)@.without_recurring_name(id@),
    {
        match self.recurring_ids_remove(&id) {
            Some(o) => {
                self.recurring_keys_remove(o);
            },
            None => {},
        }
    }

    /// Maps the remote event id `internal_key` to `pk`, or to the next
    /// primary key when `pk` is `None`, and returns that key.
    pub fn record_internal(&mut self, internal_key: String, pk: Option<u64>) -> (res: u64)
        requires
            pk is Some || old(self)@.primary_key < u64::MAX,
        ensures
            res == match pk {
                Some(k) => k,
                None => (old(self)@.primary_key + 1) as u64,
            },
            final(self)@ == (match pk {
                Some(k) => old(self)@,
                None => RemoteView { primary_key: res, ..old(self)@ },
            }).with_id(res, internal_key@),
    {
        let pk = match pk {
            Some(pk) => pk,
            None => self.next_key(),
        };
        self.add_internal(pk, internal_key);
        pk
    }

    /// Deletes the record with the primary key `primary_key`: forgets its
    /// key and remote event id.
    pub fn delete(&mut self, primary_key: u64)
        ensures
            final(self)@ == old(self)@.without_key(primary_key),
    {
        self.remove_by_internal_id(primary_key);
    }

    /// Deletes the recurrence with the key `recurrence_key`: forgets that
    /// key in the record maps and in the recurrence maps. No remote ids
    /// are returned.
    pub fn delete_recurrence(&mut self, recurrence_key: u64) -> (res: Vec<String>)
        ensures
            final(self)@ == old(self)@.without_key(recurrence_key).without_recurring_key(
                recurrence_key,
            ),
            res@.len() == 0,
    {
        self.remove_by_internal_id(recurrence_key);
        self.remove_recurring_by_internal_id(recurrence_key);
        Vec::new()
    }
}

// ------------------------------------------------------------------------
// Keys for records that come from the remote calendar
// ------------------------------------------------------------------------

/// A record from the remote calendar given local keys: a new recurrence
/// key for a record of a remote recurrence that has none, and a primary
/// key (the one already mapped to its remote id, or a new one) for a
/// record that has a remote id and no primary key.
pub open spec fn record_update(db: RemoteView, r: RecordView) -> (RemoteView, RecordView) {
    let (db1, r1) = match (r.internal_recurrence_key, r.recurrence_key) {
        (Some(irk), None) => {
            let key = (db.recurrence_key + 1) as u64;
            (
                RemoteView { recurrence_key: key, ..db }.with_recurring_id(key, irk),
                RecordView { recurrence_key: Some(key), ..r },
            )
        },
        _ => (db, r),
    };
    match r1.internal_key {
        Some(ik) => if r1.primary_key == 0 {
            if db1.ids.contains_key(ik) {
                let pk = db1.ids[ik];
                (db1.with_id(pk, ik), RecordView { primary_key: pk, ..r1 })
            } else {
                let pk = (db1.primary_key + 1) as u64;
                (
                    RemoteView { primary_key: pk, ..db1 }.with_id(pk, ik),
                    RecordView { primary_key: pk, ..r1 },
                )
            }
        } else {
            (db1, r1)
        },
        None => (db1, r1),
    }
}

/// The maps and records after the first `n` of `rs` are given keys.
pub open spec fn records_update(db: RemoteView, rs: Seq<RecordView>, n: int) -> (
    RemoteView,
    Seq<RecordView>,
)
    decreases n,
{
    if n <= 0 {
        (db, Seq::empty())
    } else {
        let (d, out) = records_update(db, rs, n - 1);
        let (d2, r2) = record_update(d, rs[n - 1]);
        (d2, out.push(r2))
    }
}

/// A recurrence from the remote calendar given local keys: the recurrence
/// key already mapped to its remote id (or a new one when it has no key),
/// and a primary key for its record as for a single record.
pub open spec fn recurring_update(db: RemoteView, r: RecurringView) -> (RemoteView, RecurringView) {
    let (db1, r1) = match r.internal_key {
        Some(irk) => if db.recurring_ids.contains_key(irk) {
            let key = db.recurring_ids[irk];
            (
                db.with_recurring_id(key, irk),
                RecurringView {
                    recurrence_key: key,
                    record: RecordView { recurrence_key: Some(key), ..r.record },
                    ..r
                },
            )
        } else if r.recurrence_key == 0 {
            let key = (db.recurrence_key + 1) as u64;
            (
                RemoteView { recurrence_key: key, ..db }.with_recurring_id(key, irk),
                RecurringView {
                    recurrence_key: key,
                    record: RecordView { recurrence_key: Some(key), ..r.record },
                    ..r
                },
            )
        } else {
            (db, r)
        },
        None => (db, r),
    };
    match r1.record.internal_key {
        Some(ik) => if r1.record.primary_key == 0 {
            if db1.ids.contains_key(ik) {
                let pk = db1.ids[ik];
                (
                    db1.with_id(pk, ik),
                    RecurringView { record: RecordView { primary_key: pk, ..r1.record }, ..r1 },
                )
            } else {
                let pk = (db1.primary_key + 1) as u64;
                (
                    RemoteView { primary_key: pk, ..db1 }.with_id(pk, ik),
                    RecurringView { record: RecordView { primary_key: pk, ..r1.record }, ..r1 },
                )
            }
        } else {
            (db1, r1)
        },
        None => (db1, r1),
    }
}

/// The maps and recurrences after the first `n` of `rs` are given keys.
pub open spec fn recurrings_update(db: RemoteView, rs: Seq<RecurringView>, n: int) -> (
    RemoteView,
    Seq<RecurringView>,
)
    decreases n,
{
    if n <= 0 {
        (db, Seq::empty())
    } else {
        let (d, out) = recurrings_update(db, rs, n - 1);
        let (d2, r2) = recurring_update(d, rs[n - 1]);
        (d2, out.push(r2))
    }
}

/// The views of a list of records.
pub open spec fn views_of_records(v: Seq<Record>) -> Seq<RecordView> {
    v.map_values(|r: Record| r@)
}

/// The views of a list of recurrences.
pub open spec fn views_of_recurrings(v: Seq<RecurringRecord>) -> Seq<RecurringView> {
    v.map_values(|r: RecurringRecord| r@)
}

impl RemoteDB {
    /// Gives local keys to one record from the remote calendar (see
    /// `record_update`).
    fn update_record(&mut self, record: &mut Record)
        requires
            old(self)@.primary_key < u64::MAX,
            old(self)@.recurrence_key < u64::MAX,
        ensures
            (final(self)@, final(record)@) == record_update(old(self)@, old(record)@),
    {
        match record.internal_recurrence_key() {
            Some(irk) => {
                if record.recurrence_key().is_none() {
                    let key = self.next_recurrence_key();
                    record.set_recurrence_key(Some(key));
                    self.add_recurring(irk, key);
                }
            },
            None => {},
        }
        match record.internal_key() {
            Some(ik) => {
                if record.primary_key() == 0 {
                    let found = self.lookup_internal(ik.clone());
                    let pk = self.record_internal(ik, found);
                    record.set_primary_key(pk);
                }
            },
            None => {},
        }
    }

    /// Gives local keys to the records `records` from the remote calendar,
    /// in order, and returns them.
    pub fn record_updates(&mut self, records: Vec<Record>) -> (res: Vec<Record>)
        requires
            old(self)@.primary_key + records@.len() <= u64::MAX,
            old(self)@.recurrence_key + records@.len() <= u64::MAX,
        ensures
            (final(self)@, views_of_records(res@)) == records_update(
                old(self)@,
                views_of_records(records@),
                records@.len() as int,
            ),
    {
        let ghost rs = views_of_records(records@);
        let ghost start = self@;
        let mut out: Vec<Record> = Vec::new();
        let n = records.len();
        let mut i: usize = 0;
        assert(views_of_records(out@) =~= Seq::<RecordView>::empty());
        while i < n
            invariant
                n == records@.len(),
                rs == views_of_records(records@),
                i <= n,
                start.primary_key + n <= u64::MAX,
                start.recurrence_key + n <= u64::MAX,
                start.primary_key <= self@.primary_key <= start.primary_key + i,
                start.recurrence_key <= self@.recurrence_key <= start.recurrence_key + i,
                (self@, views_of_records(out@)) == records_update(start, rs, i as int),
            decreases n - i,
        {
            let mut r = records[i].duplicate();
            assert(r@ == rs[i as int]);
            let ghost before = self@;
            self.update_record(&mut r);
            let ghost prev = out@;
            out.push(r);
            assert(views_of_records(out@) =~= views_of_records(prev).push(r@));
            i = i + 1;
        }
        out
    }

    /// Gives local keys to one recurrence from the remote calendar (see
    /// `recurring_update`).
    fn update_recurring(&mut self, record: &mut RecurringRecord)
        requires
            old(self)@.primary_key < u64::MAX,
            old(self)@.recurrence_key < u64::MAX,
        ensures
            (final(self)@, final(record)@) == recurring_update(old(self)@, old(record)@),
    {
        match record.internal_key() {
            Some(irk) => {
                match self.recurring_lookup_internal(irk.clone()) {
                    Some(internal) => {
                        record.set_recurrence_key(internal);
                        self.add_recurring(irk, internal);
                    },
                    None => {
                        if record.recurrence_key() == 0 {
                            let key = self.next_recurrence_key();
                            record.set_recurrence_key(key);
                            self.add_recurring(irk, key);
                        }
                    },
                }
            },
            None => {},
        }
        let inner = record.record_copy();
        match inner.internal_key() {
            Some(ik) => {
                if inner.primary_key() == 0 {
                    let found = self.lookup_internal(ik.clone());
                    let pk = self.record_internal(ik, found);
                    record.record().set_primary_key(pk);
                }
            },
            None => {},
        }
    }

    /// Gives local keys to the recurrences `records` from the remote
    /// calendar, in order, and returns them.
    pub fn record_recurring_updates(&mut self, records: Vec<RecurringRecord>) -> (res: Vec<
        RecurringRecord,
    >)
        requires
            old(self)@.primary_key + records@.len() <= u64::MAX,
            old(self)@.recurrence_key + records@.len() <= u64::MAX,
        ensures
            (final(self)@, views_of_recurrings(res@)) == recurrings_update(
                old(self)@,
                views_of_recurrings(records@),
                records@.len() as int,
            ),
    {
        let ghost rs = views_of_recurrings(records@);
        let ghost start = self@;
        let mut out: Vec<RecurringRecord> = Vec::new();
        let n = records.len();
        let mut i: usize = 0;
        assert(views_of_recurrings(out@) =~= Seq::<RecurringView>::empty());
        while i < n
            invariant
                n == records@.len(),
                rs == views_of_recurrings(records@),
                i <= n,
                start.primary_key + n <= u64::MAX,
                start.recurrence_key + n <= u64::MAX,
                start.primary_key <= self@.primary_key <= start.primary_key + i,
                start.recurrence_key <= self@.recurrence_key <= start.recurrence_key + i,
                (self@, views_of_recurrings(out@)) == recurrings_update(start, rs, i as int),
            decreases n - i,
        {
            let mut r = records[i].duplicate();
            assert(r@ == rs[i as int]);
            self.update_recurring(&mut r);
            let ghost prev = out@;
            out.push(r);
            assert(views_of_recurrings(out@) =~= views_of_recurrings(prev).push(r@));
            i = i + 1;
        }
        out
    }
}

// ------------------------------------------------------------------------
// Laws
// ------------------------------------------------------------------------

/// After a pair is added, looking up either side gives the other.
pub proof fn law_lookup_after_add(db: RemoteView, key: u64, name: Seq<char>)
    ensures
        db.with_id(key, name).reverse_ids.contains_key(key),
        db.with_id(key, name).reverse_ids[key] == name,
        db.with_id(key, name).ids.contains_key(name),
        db.with_id(key, name).ids[name] == key,
        db.with_recurring_id(key, name).reverse_recurring_ids[key] == name,
        db.with_recurring_id(key, name).recurring_ids[name] == key,
{
}

/// Adding a pair whose key and name are both new keeps the maps inverse to
/// each other.
pub proof fn law_add_keeps_consistent(db: RemoteView, key: u64, name: Seq<char>)
    requires
        db.consistent(),
        !db.reverse_ids.contains_key(key),
        !db.ids.contains_key(name),
    ensures
        db.with_id(key, name).consistent(),
{
    let d = db.with_id(key, name);
    assert forall|s: Seq<char>| #[trigger] d.ids.contains_key(s) implies d.reverse_ids.contains_key(
        d.ids[s],
    ) && d.reverse_ids[d.ids[s]] == s by {
        if s != name {
            assert(db.ids.contains_key(s));
            assert(db.reverse_ids.contains_key(db.ids[s]));
        }
    }
    assert forall|k: u64| #[trigger] d.reverse_ids.contains_key(k) implies d.ids.contains_key(
        d.reverse_ids[k],
    ) && d.ids[d.reverse_ids[k]] == k by {
        if k != key {
            assert(db.reverse_ids.contains_key(k));
            assert(db.ids.contains_key(db.reverse_ids[k]));
        }
    }
}

/// Removing by key, or by name, keeps inverse maps inverse.
pub proof fn law_remove_keeps_consistent(db: RemoteView, key: u64, name: Seq<char>)
    requires
        db.consistent(),
    ensures
        db.without_key(key).consistent(),
        db.without_name(name).consistent(),
        db.without_recurring_key(key).consistent(),
        db.without_recurring_name(name).consistent(),
{
    let a = db.without_key(key);
    assert forall|s: Seq<char>| #[trigger] a.ids.contains_key(s) implies a.reverse_ids.contains_key(
        a.ids[s],
    ) && a.reverse_ids[a.ids[s]] == s by {
        assert(db.ids.contains_key(s));
        assert(db.reverse_ids.contains_key(db.ids[s]));
    }
    assert forall|k: u64| #[trigger] a.reverse_ids.contains_key(k) implies a.ids.contains_key(
        a.reverse_ids[k],
    ) && a.ids[a.reverse_ids[k]] == k by {
        assert(db.reverse_ids.contains_key(k));
        assert(db.ids.contains_key(db.reverse_ids[k]));
    }
    let b = db.without_name(name);
    assert forall|s: Seq<char>| #[trigger] b.ids.contains_key(s) implies b.reverse_ids.contains_key(
        b.ids[s],
    ) && b.reverse_ids[b.ids[s]] == s by {
        assert(db.ids.contains_key(s));
        assert(db.reverse_ids.contains_key(db.ids[s]));
    }
    assert forall|k: u64| #[trigger] b.reverse_ids.contains_key(k) implies b.ids.contains_key(
        b.reverse_ids[k],
    ) && b.ids[b.reverse_ids[k]] == k by {
        assert(db.reverse_ids.contains_key(k));
        assert(db.ids.contains_key(db.reverse_ids[k]));
    }
    let c = db.without_recurring_key(key);
    assert forall|s: Seq<char>| #[trigger] c.recurring_ids.contains_key(s) implies c.reverse_recurring_ids.contains_key(
        c.recurring_ids[s],
    ) && c.reverse_recurring_ids[c.recurring_ids[s]] == s by {
        assert(db.recurring_ids.contains_key(s));
        assert(db.reverse_recurring_ids.contains_key(db.recurring_ids[s]));
    }
    assert forall|k: u64| #[trigger] c.reverse_recurring_ids.contains_key(k) implies c.recurring_ids.contains_key(
        c.reverse_recurring_ids[k],
    ) && c.recurring_ids[c.reverse_recurring_ids[k]] == k by {
        assert(db.reverse_recurring_ids.contains_key(k));
        assert(db.recurring_ids.contains_key(db.reverse_recurring_ids[k]));
    }
    let e = db.without_recurring_name(name);
    assert forall|s: Seq<char>| #[trigger] e.recurring_ids.contains_key(s) implies e.reverse_recurring_ids.contains_key(
        e.recurring_ids[s],
    ) && e.reverse_recurring_ids[e.recurring_ids[s]] == s by {
        assert(db.recurring_ids.contains_key(s));
        assert(db.reverse_recurring_ids.contains_key(db.recurring_ids[s]));
    }
    assert forall|k: u64| #[trigger] e.reverse_recurring_ids.contains_key(k) implies e.recurring_ids.contains_key(
        e.reverse_recurring_ids[k],
    ) && e.recurring_ids[e.reverse_recurring_ids[k]] == k by {
        assert(db.reverse_recurring_ids.contains_key(k));
        assert(db.recurring_ids.contains_key(db.reverse_recurring_ids[k]));
    }
}

/// Removing the key of a pair that was just added with a new key and a new
/// name undoes the addition; so does removing its name.
pub proof fn law_remove_undoes_add(db: RemoteView, key: u64, name: Seq<char>)
    requires
        !db.reverse_ids.contains_key(key),
        !db.ids.contains_key(name),
    ensures
        db.with_id(key, name).without_key(key) == db,
        db.with_id(key, name).without_name(name) == db,
{
    assert(db.with_id(key, name).without_key(key).ids =~= db.ids);
    assert(db.with_id(key, name).without_key(key).reverse_ids =~= db.reverse_ids);
    assert(db.with_id(key, name).without_name(name).ids =~= db.ids);
    assert(db.with_id(key, name).without_name(name).reverse_ids =~= db.reverse_ids);
}

} // verus!
