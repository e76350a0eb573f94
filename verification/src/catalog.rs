//! The catalog of tables.

use vstd::prelude::*;
use crate::storage::{rows_misfit, rows_of, table_sound, Table, TableData};
use crate::text::same_text;
use crate::types::{Error, Value};

verus! {

/// One table of the catalog under its lowercase name.
#[derive(Debug)]
struct Entry {
    key: String,
    table: Table,
}

/// The first entry from `i` on with a key.
spec fn entry_from(entries: Seq<Entry>, key: Seq<char>, i: int) -> Option<int>
    decreases entries.len() - i,
{
    if i < 0 || i >= entries.len() {
        None
    } else if entries[i].key@ == key {
        Some(i)
    } else {
        entry_from(entries, key, i + 1)
    }
}

/// Tables under their lowercase names.
#[derive(Debug)]
pub struct Catalog {
    entries: Vec<Entry>,
}

proof fn entry_from_finds(entries: Seq<Entry>, key: Seq<char>, i: int)
    requires
        0 <= i,
    ensures
        match entry_from(entries, key, i) {
            Some(k) => i <= k < entries.len() && entries[k].key@ == key,
            None => forall|k: int| i <= k < entries.len() ==> entries[k].key@ != key,
        },
    decreases entries.len() - i,
{
    if i < entries.len() && entries[i].key@ != key {
        entry_from_finds(entries, key, i + 1);
    }
}

impl Catalog {
    /// The content of each table.
    pub closed spec fn view(&self) -> Map<Seq<char>, TableData> {
        Map::new(
            |key: Seq<char>| entry_from(self.entries@, key, 0) is Some,
            |key: Seq<char>|
                self.entries@[entry_from(self.entries@, key, 0)->Some_0].table.data(),
        )
    }

    /// Whether names differ and every table is well formed.
    pub closed spec fn wf(&self) -> bool {
        &&& forall|i: int| 0 <= i < self.entries.len() ==> (#[trigger] self.entries[i]).table.wf()
        &&& forall|i: int, j: int|
            #![trigger self.entries[i], self.entries[j]]
            0 <= i < j < self.entries.len() ==> self.entries[i].key@ != self.entries[j].key@
    }

    /// Makes an empty catalog.
    pub fn new() -> (c: Catalog)
        ensures
            c.wf(),
            c@ == Map::<Seq<char>, TableData>::empty(),
    {
        let c = Catalog { entries: Vec::new() };
        assert(c@ =~= Map::<Seq<char>, TableData>::empty());
        c
    }

    fn position(&self, key: &str) -> (r: Option<usize>)
        ensures
            match r {
                Some(k) => k < self.entries.len() && entry_from(self.entries@, key@, 0) == Some(
                    k as int,
                ),
                None => entry_from(self.entries@, key@, 0) is None,
            },
    {
        let mut i: usize = 0;
        while i < self.entries.len()
            invariant
                i <= self.entries.len(),
                entry_from(self.entries@, key@, 0) == entry_from(self.entries@, key@, i as int),
            decreases self.entries.len() - i,
        {
            if same_text(self.entries[i].key.as_str(), key) {
                return Some(i);
            }
            i = i + 1;
        }
        None
    }

    /// Finds a table by its lowercase name.
    pub fn get(&self, key: &str) -> (r: Option<&Table>)
        requires
            self.wf(),
        ensures
            match r {
                Some(table) => {
                    &&& self@.contains_key(key@)
                    &&& self@[key@] == table.data()
                    &&& table.wf()
                },
                None => !self@.contains_key(key@),
            },
    {
        match self.position(key) {
            Some(k) => Some(&self.entries[k].table),
            None => None,
        }
    }

    /// Every table of a well-formed catalog is sound.
    pub proof fn tables_are_sound(&self, key: Seq<char>)
        requires
            self.wf(),
            self@.contains_key(key),
        ensures
            table_sound(self@[key]),
    {
        entry_from_finds(self.entries@, key, 0);
        let k = entry_from(self.entries@, key, 0)->Some_0;
        assert(self.entries[k].table.wf());
        self.entries[k].table.is_sound();
    }

    /// Stores a new table.
    pub fn insert(&mut self, key: String, table: Table)
        requires
            old(self).wf(),
            table.wf(),
            !old(self)@.contains_key(key@),
        ensures
            final(self).wf(),
            final(self)@ == old(self)@.insert(key@, table.data()),
    {
        let ghost before = self.entries@;
        let ghost name = key@;
        let ghost data = table.data();
        self.entries.push(Entry { key, table });
        proof {
            let entries = self.entries@;
            entry_from_finds(before, name, 0);
            assert forall|k: Seq<char>| #[trigger]
                entry_from(entries, k, 0) == if k == name {
                    Some(before.len() as int)
                } else {
                    entry_from(before, k, 0)
                } by {
                entry_from_finds(entries, k, 0);
                entry_from_finds(before, k, 0);
                if k == name {
                    assert(entries[before.len() as int].key@ == name);
                    let w = entry_from(entries, k, 0)->Some_0;
                    if w < before.len() {
                        assert(entries[w] == before[w]);
                    }
                } else {
                    match entry_from(entries, k, 0) {
                        Some(w) => {
                            assert(w < before.len());
                            assert(entries[w] == before[w]);
                            let v = entry_from(before, k, 0)->Some_0;
                            assert(entries[v] == before[v]);
                            assert(before[v].key@ == before[w].key@);
                            assert(v == w);
                        },
                        None => {
                            if entry_from(before, k, 0) is Some {
                                let v = entry_from(before, k, 0)->Some_0;
                                assert(entries[v] == before[v]);
                            }
                        },
                    }
                }
            }
            assert forall|i: int| 0 <= i < self.entries.len() implies (#[trigger] self.entries[i]).table.wf() by {
                if i < before.len() {
                    assert(self.entries[i] == before[i]);
                    assert(old(self).entries[i].table.wf());
                }
            }
            assert forall|i: int, j: int|
                #![trigger self.entries[i], self.entries[j]]
                0 <= i < j < self.entries.len() implies self.entries[i].key@
                != self.entries[j].key@ by {
                assert(self.entries[i] == before[i]);
                if j < before.len() {
                    assert(self.entries[j] == before[j]);
                    assert(old(self).entries[i].key@ != old(self).entries[j].key@);
                }
            }
            assert forall|k: Seq<char>| #[trigger]
                entry_from(before, k, 0) is Some implies entries[entry_from(before, k, 0)->Some_0]
                == before[entry_from(before, k, 0)->Some_0] by {
                entry_from_finds(before, k, 0);
            }
            assert(self@ =~= old(self)@.insert(name, data));
        }
    }

    /// Appends rows to a table; either all of them conform and are stored, or none is.
    pub fn append(&mut self, key: &str, rows: Vec<Vec<Value>>) -> (r: Result<(), Error>)
        requires
            old(self).wf(),
            old(self)@.contains_key(key@),
        ensures
            final(self).wf(),
            match r {
                Ok(()) => {
                    let table = old(self)@[key@];
                    &&& rows_misfit(table.fields, rows_of(rows@), 0) is None
                    &&& final(self)@ == old(self)@.insert(
                        key@,
                        TableData { fields: table.fields, rows: table.rows + rows_of(rows@) },
                    )
                },
                Err(e) => {
                    &&& rows_misfit(old(self)@[key@].fields, rows_of(rows@), 0) == Some(e@)
                    &&& final(self)@ == old(self)@
                },
            },
    {
        let ghost before = self.entries@;
        match self.position(key) {
            Some(k) => {
                let ghost data = rows_of(rows@);
                assert(self.entries[k as int].table.wf());
                let result = self.entries[k].table.append_rows(rows);
                proof {
                    let entries = self.entries@;
                    assert(entries[k as int].key == before[k as int].key);
                    assert forall|i: int| 0 <= i < entries.len() implies (#[trigger] entries[i]).key@
                        == before[i].key@ by {
                        if i != k {
                            assert(entries[i] == before[i]);
                        }
                    }
                    assert forall|x: Seq<char>| #[trigger]
                        entry_from(entries, x, 0) == entry_from(before, x, 0) by {
                        same_keys_same_place(entries, before, x, 0);
                    }
                    entry_from_finds(before, key@, 0);
                    assert forall|i: int| 0 <= i < self.entries.len() implies (#[trigger] self.entries[i]).table.wf() by {
                        if i != k {
                            assert(self.entries[i] == before[i]);
                            assert(old(self).entries[i].table.wf());
                        }
                    }
                    assert forall|i: int, j: int|
                        #![trigger self.entries[i], self.entries[j]]
                        0 <= i < j < self.entries.len() implies self.entries[i].key@
                        != self.entries[j].key@ by {
                        assert(old(self).entries[i].key@ != old(self).entries[j].key@);
                        assert(entries[i].key@ == before[i].key@);
                        assert(entries[j].key@ == before[j].key@);
                    }
                    assert forall|x: Seq<char>| entry_from(before, x, 0) is Some && x != key@ implies entries[entry_from(
                        before,
                        x,
                        0,
                    )->Some_0] == before[entry_from(before, x, 0)->Some_0] by {
                        entry_from_finds(before, x, 0);
                    }
                    if result is Ok {
                        let table = old(self)@[key@];
                        assert(self@ =~= old(self)@.insert(
                            key@,
                            TableData { fields: table.fields, rows: table.rows + data },
                        ));
                    } else {
                        assert(self@ =~= old(self)@);
                    }
                }
                result
            },
            None => Ok(()),
        }
    }
}

proof fn same_keys_same_place(a: Seq<Entry>, b: Seq<Entry>, key: Seq<char>, i: int)
    requires
        a.len() == b.len(),
        forall|k: int| 0 <= k < a.len() ==> (#[trigger] a[k]).key@ == b[k].key@,
    ensures
        entry_from(a, key, i) == entry_from(b, key, i),
    decreases a.len() - i,
{
    if 0 <= i < a.len() && a[i].key@ != key {
        same_keys_same_place(a, b, key, i + 1);
    }
}

} // verus!
