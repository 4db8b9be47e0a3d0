//! The storage abstraction behind the key-value service, and an in-memory
//! store that implements it.
use vstd::prelude::*;
use crate::pb::{KvError, Kvpair, Value};

verus! {

/// Where a value lives: its table and its key.
pub type Slot = (Seq<char>, Seq<char>);

/// `pairs` lists exactly the keys of `table` in `tables`, each once, with
/// their values.
pub open spec fn lists_table(pairs: Seq<Kvpair>, tables: Map<Slot, Value>, table: Seq<char>) -> bool {
    &&& forall|i: int|
        0 <= i < pairs.len() ==> tables.get((table, #[trigger] pairs[i].key@)) == pairs[i].value
    &&& forall|i: int, j: int|
        0 <= i < j < pairs.len() ==> #[trigger] pairs[i].key@ != #[trigger] pairs[j].key@
    &&& forall|k: Seq<char>|
        #[trigger] tables.contains_key((table, k)) ==> exists|i: int|
            0 <= i < pairs.len() && #[trigger] pairs[i].key@ == k
}

/// What a store answered to a listing, by the pairs' sequence.
pub open spec fn listing(answer: Result<Vec<Kvpair>, KvError>) -> Result<Seq<Kvpair>, KvError> {
    match answer {
        Ok(pairs) => Ok(pairs@),
        Err(e) => Err(e),
    }
}

/// A store of values, grouped in tables. Each operation's answer is named
/// by a spec function of the store it runs on; every operation may fail
/// with an error unless the store declares that it never fails, and a failed
/// write leaves the contents as they were.
pub trait Storage {
    /// The contents of the store, by table and key.
    spec fn tables(&self) -> Map<Slot, Value>;

    /// Whether every operation of this store answers `Ok`.
    spec fn never_fails(&self) -> bool;

    /// What `get` answers on this store.
    spec fn get_answer(&self, table: Seq<char>, key: Seq<char>) -> Result<Option<Value>, KvError>;

    /// What `set` answers on this store.
    spec fn set_answer(&self, table: Seq<char>, key: Seq<char>, value: Value) -> Result<
        Option<Value>,
        KvError,
    >;

    /// What `contains` answers on this store.
    spec fn contains_answer(&self, table: Seq<char>, key: Seq<char>) -> Result<bool, KvError>;

    /// What `del` answers on this store.
    spec fn del_answer(&self, table: Seq<char>, key: Seq<char>) -> Result<Option<Value>, KvError>;

    /// What `get_all` answers on this store.
    spec fn get_all_answer(&self, table: Seq<char>) -> Result<Seq<Kvpair>, KvError>;

    /// How the answers relate to the contents: a successful answer is the
    /// one the contents give, and a store that never fails always succeeds.
    proof fn lemma_answers(&self, table: Seq<char>, key: Seq<char>, value: Value)
        ensures
            self.get_answer(table, key) matches Ok(v) ==> v == self.tables().get((table, key)),
            self.set_answer(table, key, value) matches Ok(p) ==> p == self.tables().get(
                (table, key),
            ),
            self.contains_answer(table, key) matches Ok(b) ==> b == self.tables().contains_key(
                (table, key),
            ),
            self.del_answer(table, key) matches Ok(p) ==> p == self.tables().get((table, key)),
            self.get_all_answer(table) matches Ok(pairs) ==> lists_table(
                pairs,
                self.tables(),
                table,
            ),
            self.never_fails() ==> {
                &&& self.get_answer(table, key) is Ok
                &&& self.set_answer(table, key, value) is Ok
                &&& self.contains_answer(table, key) is Ok
                &&& self.del_answer(table, key) is Ok
                &&& self.get_all_answer(table) is Ok
            },
    ;

    /// The value of `key` in `table`, if any.
    fn get(&self, table: &str, key: &str) -> (r: Result<Option<Value>, KvError>)
        ensures
            r == self.get_answer(table@, key@),
            self.never_fails() ==> r is Ok,
            r matches Ok(v) ==> v == self.tables().get((table@, key@)),
    ;

    /// Writes `value` under `key` in `table`; answers the value it replaced.
    fn set(&mut self, table: &str, key: String, value: Value) -> (r: Result<Option<Value>, KvError>)
        ensures
            r == old(self).set_answer(table@, key@, value),
            final(self).never_fails() == old(self).never_fails(),
            old(self).never_fails() ==> r is Ok,
            r matches Ok(prev) ==> prev == old(self).tables().get((table@, key@)),
            r is Ok ==> final(self).tables() == old(self).tables().insert((table@, key@), value),
            r is Err ==> final(self).tables() == old(self).tables(),
    ;

    /// Whether `key` is in `table`.
    fn contains(&self, table: &str, key: &str) -> (r: Result<bool, KvError>)
        ensures
            r == self.contains_answer(table@, key@),
            self.never_fails() ==> r is Ok,
            r matches Ok(b) ==> b == self.tables().contains_key((table@, key@)),
    ;

    /// Removes `key` from `table`; answers the value it held.
    fn del(&mut self, table: &str, key: &str) -> (r: Result<Option<Value>, KvError>)
        ensures
            r == old(self).del_answer(table@, key@),
            final(self).never_fails() == old(self).never_fails(),
            old(self).never_fails() ==> r is Ok,
            r matches Ok(prev) ==> prev == old(self).tables().get((table@, key@)),
            r is Ok ==> final(self).tables() == old(self).tables().remove((table@, key@)),
            r is Err ==> final(self).tables() == old(self).tables(),
    ;

    /// Every pair of `table`, in no particular order.
    fn get_all(&self, table: &str) -> (r: Result<Vec<Kvpair>, KvError>)
        ensures
            listing(r) == self.get_all_answer(table@),
            self.never_fails() ==> r is Ok,
            r matches Ok(pairs) ==> lists_table(pairs@, self.tables(), table@),
    ;
}

/// One stored value with its table and key.
struct Entry {
    table: String,
    key: String,
    value: Value,
}

spec fn slot_of(e: Entry) -> Slot {
    (e.table@, e.key@)
}

/// No two entries share a slot.
spec fn distinct_slots(es: Seq<Entry>) -> bool {
    forall|i: int, j: int|
        0 <= i < es.len() && 0 <= j < es.len() && i != j ==> slot_of(#[trigger] es[i]) != slot_of(
            #[trigger] es[j],
        )
}

spec fn holds_slot(es: Seq<Entry>, k: Slot) -> bool {
    exists|i: int| 0 <= i < es.len() && slot_of(#[trigger] es[i]) == k
}

spec fn position_of(es: Seq<Entry>, k: Slot) -> int {
    choose|i: int| 0 <= i < es.len() && slot_of(#[trigger] es[i]) == k
}

spec fn entries_map(es: Seq<Entry>) -> Map<Slot, Value> {
    Map::new(|k: Slot| holds_slot(es, k), |k: Slot| es[position_of(es, k)].value)
}

proof fn lemma_entries_map_at(es: Seq<Entry>, i: int)
    requires
        distinct_slots(es),
        0 <= i < es.len(),
    ensures
        entries_map(es).contains_key(slot_of(es[i])),
        entries_map(es)[slot_of(es[i])] == es[i].value,
{
    let k = slot_of(es[i]);
    assert(holds_slot(es, k));
    let p = position_of(es, k);
    assert(slot_of(es[p]) == k);
}

proof fn lemma_entries_map_push(es: Seq<Entry>, e: Entry)
    requires
        distinct_slots(es),
        !entries_map(es).contains_key(slot_of(e)),
    ensures
        distinct_slots(es.push(e)),
        entries_map(es.push(e)) == entries_map(es).insert(slot_of(e), e.value),
{
    let es2 = es.push(e);
    assert forall|i: int, j: int|
        0 <= i < es2.len() && 0 <= j < es2.len() && i != j implies slot_of(#[trigger] es2[i])
        != slot_of(#[trigger] es2[j]) by {
        if i == es.len() {
            assert(es2[j] == es[j]);
            if slot_of(es[j]) == slot_of(e) {
                assert(holds_slot(es, slot_of(e)));
            }
        } else if j == es.len() {
            assert(es2[i] == es[i]);
            if slot_of(es[i]) == slot_of(e) {
                assert(holds_slot(es, slot_of(e)));
            }
        } else {
            assert(es2[i] == es[i] && es2[j] == es[j]);
        }
    }
    let m1 = entries_map(es2);
    let m2 = entries_map(es).insert(slot_of(e), e.value);
    assert forall|k: Slot| m1.contains_key(k) <==> m2.contains_key(k) by {
        if m1.contains_key(k) {
            let i = choose|i: int| 0 <= i < es2.len() && slot_of(#[trigger] es2[i]) == k;
            if i < es.len() {
                assert(es2[i] == es[i]);
                assert(holds_slot(es, k));
            }
        }
        if m2.contains_key(k) {
            if k == slot_of(e) {
                assert(es2[es.len() as int] == e);
                assert(holds_slot(es2, k));
            } else {
                let i = choose|i: int| 0 <= i < es.len() && slot_of(#[trigger] es[i]) == k;
                assert(es2[i] == es[i]);
                assert(holds_slot(es2, k));
            }
        }
    }
    assert forall|k: Slot| m1.contains_key(k) implies m1[k] == m2[k] by {
        let i = choose|i: int| 0 <= i < es2.len() && slot_of(#[trigger] es2[i]) == k;
        lemma_entries_map_at(es2, i);
        if i < es.len() {
            assert(es2[i] == es[i]);
            lemma_entries_map_at(es, i);
        }
    }
    assert(m1 =~= m2);
}

proof fn lemma_entries_map_remove(es: Seq<Entry>, i: int)
    requires
        distinct_slots(es),
        0 <= i < es.len(),
    ensures
        distinct_slots(es.remove(i)),
        entries_map(es.remove(i)) == entries_map(es).remove(slot_of(es[i])),
{
    let es2 = es.remove(i);
    let gone = slot_of(es[i]);
    assert forall|a: int, b: int|
        0 <= a < es2.len() && 0 <= b < es2.len() && a != b implies slot_of(#[trigger] es2[a])
        != slot_of(#[trigger] es2[b]) by {
        let a0 = if a < i { a } else { a + 1 };
        let b0 = if b < i { b } else { b + 1 };
        assert(es2[a] == es[a0] && es2[b] == es[b0]);
    }
    let m1 = entries_map(es2);
    let m2 = entries_map(es).remove(gone);
    assert forall|k: Slot| m1.contains_key(k) <==> m2.contains_key(k) by {
        if m1.contains_key(k) {
            let a = choose|a: int| 0 <= a < es2.len() && slot_of(#[trigger] es2[a]) == k;
            let a0 = if a < i { a } else { a + 1 };
            assert(es2[a] == es[a0]);
            assert(holds_slot(es, k));
            assert(k != gone);
        }
        if m2.contains_key(k) {
            let a0 = choose|a: int| 0 <= a < es.len() && slot_of(#[trigger] es[a]) == k;
            assert(a0 != i);
            let a = if a0 < i { a0 } else { a0 - 1 };
            assert(es2[a] == es[a0]);
            assert(holds_slot(es2, k));
        }
    }
    assert forall|k: Slot| m1.contains_key(k) implies m1[k] == m2[k] by {
        let a = choose|a: int| 0 <= a < es2.len() && slot_of(#[trigger] es2[a]) == k;
        let a0 = if a < i { a } else { a + 1 };
        assert(es2[a] == es[a0]);
        lemma_entries_map_at(es2, a);
        lemma_entries_map_at(es, a0);
    }
    assert(m1 =~= m2);
}

/// An in-memory store. Every store this type makes never fails: `new`
/// gives one, and the operations keep it so.
pub struct MemTable {
    entries: Vec<Entry>,
}

impl MemTable {
    #[verifier::type_invariant]
    spec fn inv(self) -> bool {
        distinct_slots(self.entries@)
    }

    /// The contents of the store, by table and key.
    pub closed spec fn contents(&self) -> Map<Slot, Value> {
        entries_map(self.entries@)
    }

    /// An empty store; it never fails.
    pub fn new() -> (r: MemTable)
        ensures
            r.contents() == Map::<Slot, Value>::empty(),
            r.never_fails(),
    {
        let r = MemTable { entries: Vec::new() };
        assert(r.contents() =~= Map::<Slot, Value>::empty());
        r
    }

    /// Moves the entries out, leaving the store empty.
    fn take_entries(&mut self) -> (es: Vec<Entry>)
        ensures
            es@ == old(self).entries@,
            distinct_slots(es@),
            final(self).entries@ == Seq::<Entry>::empty(),
    {
        proof {
            use_type_invariant(&*self);
        }
        let mut es: Vec<Entry> = Vec::new();
        std::mem::swap(&mut es, &mut self.entries);
        es
    }

    /// The position of the entry in the slot of `table` and `key`.
    fn find(&self, table: &String, key: &String) -> (r: Option<usize>)
        ensures
            r is None <==> !self.contents().contains_key((table@, key@)),
            r matches Some(i) ==> i < self.entries@.len() && slot_of(self.entries@[i as int]) == (
            table@,
            key@,
            ),
    {
        proof {
            use_type_invariant(self);
        }
        let n = self.entries.len();
        let mut i: usize = 0;
        while i < n
            invariant
                n == self.entries@.len(),
                i <= n,
                forall|j: int| 0 <= j < i ==> slot_of(#[trigger] self.entries@[j]) != (table@, key@),
            decreases n - i,
        {
            let e = &self.entries[i];
            if e.table == *table && e.key == *key {
                return Some(i);
            }
            i = i + 1;
        }
        assert(!holds_slot(self.entries@, (table@, key@)));
        None
    }
}

impl Default for MemTable {
    fn default() -> (r: MemTable)
        ensures
            r.contents() == Map::<Slot, Value>::empty(),
            r.never_fails(),
    {
        MemTable::new()
    }
}

impl Storage for MemTable {
    open spec fn tables(&self) -> Map<Slot, Value> {
        self.contents()
    }

    closed spec fn never_fails(&self) -> bool {
        distinct_slots(self.entries@)
    }

    closed spec fn get_answer(&self, table: Seq<char>, key: Seq<char>) -> Result<Option<Value>, KvError> {
        Ok(self.contents().get((table, key)))
    }

    closed spec fn set_answer(&self, table: Seq<char>, key: Seq<char>, value: Value) -> Result<
        Option<Value>,
        KvError,
    > {
        Ok(self.contents().get((table, key)))
    }

    closed spec fn contains_answer(&self, table: Seq<char>, key: Seq<char>) -> Result<bool, KvError> {
        Ok(self.contents().contains_key((table, key)))
    }

    closed spec fn del_answer(&self, table: Seq<char>, key: Seq<char>) -> Result<Option<Value>, KvError> {
        Ok(self.contents().get((table, key)))
    }

    closed spec fn get_all_answer(&self, table: Seq<char>) -> Result<Seq<Kvpair>, KvError> {
        if distinct_slots(self.entries@) {
            Ok(table_pairs(self.entries@, table))
        } else {
            Err(KvError::Internal(vstd::pervasive::arbitrary()))
        }
    }

    proof fn lemma_answers(&self, table: Seq<char>, key: Seq<char>, value: Value) {
        if distinct_slots(self.entries@) {
            lemma_table_pairs_lists(self.entries@, table);
        }
    }

    fn get(&self, table: &str, key: &str) -> (r: Result<Option<Value>, KvError>) {
        proof {
            use_type_invariant(self);
        }
        let t = table.to_owned();
        let k = key.to_owned();
        match self.find(&t, &k) {
            None => Ok(None),
            Some(i) => {
                proof {
                    lemma_entries_map_at(self.entries@, i as int);
                }
                Ok(Some(self.entries[i].value.duplicate()))
            },
        }
    }

    fn set(&mut self, table: &str, key: String, value: Value) -> (r: Result<Option<Value>, KvError>) {
        proof {
            use_type_invariant(&*self);
        }
        let t = table.to_owned();
        match self.find(&t, &key) {
            None => {
                let e = Entry { table: t, key, value };
                proof {
                    lemma_entries_map_push(self.entries@, e);
                }
                let mut es = self.take_entries();
                es.push(e);
                self.entries = es;
                Ok(None)
            },
            Some(i) => {
                proof {
                    lemma_entries_map_at(self.entries@, i as int);
                    lemma_entries_map_remove(self.entries@, i as int);
                }
                let ghost before = self.entries@;
                let mut es = self.take_entries();
                let old_entry = es.remove(i);
                let e = Entry { table: old_entry.table, key: old_entry.key, value };
                proof {
                    lemma_entries_map_push(es@, e);
                    assert(entries_map(before).remove(slot_of(e)).insert(slot_of(e), e.value)
                        =~= entries_map(before).insert(slot_of(e), e.value));
                }
                es.push(e);
                self.entries = es;
                Ok(Some(old_entry.value))
            },
        }
    }

    fn contains(&self, table: &str, key: &str) -> (r: Result<bool, KvError>) {
        let t = table.to_owned();
        let k = key.to_owned();
        match self.find(&t, &k) {
            None => Ok(false),
            Some(_) => Ok(true),
        }
    }

    fn del(&mut self, table: &str, key: &str) -> (r: Result<Option<Value>, KvError>) {
        proof {
            use_type_invariant(&*self);
        }
        let t = table.to_owned();
        let k = key.to_owned();
        match self.find(&t, &k) {
            None => {
                assert(entries_map(self.entries@).remove((table@, key@)) =~= entries_map(
                    self.entries@,
                ));
                Ok(None)
            },
            Some(i) => {
                proof {
                    lemma_entries_map_at(self.entries@, i as int);
                    lemma_entries_map_remove(self.entries@, i as int);
                }
                let mut es = self.take_entries();
                let old_entry = es.remove(i);
                self.entries = es;
                Ok(Some(old_entry.value))
            },
        }
    }

    fn get_all(&self, table: &str) -> (r: Result<Vec<Kvpair>, KvError>) {
        proof {
            use_type_invariant(self);
        }
        let t = table.to_owned();
        let ghost es = self.entries@;
        let n = self.entries.len();
        let mut pairs: Vec<Kvpair> = Vec::new();
        let mut i: usize = 0;
        while i < n
            invariant
                es == self.entries@,
                distinct_slots(es),
                n == es.len(),
                i <= n,
                collected(es, t@, pairs@, i as int),
                pairs@ == table_pairs(es.take(i as int), t@),
            decreases n - i,
        {
            assert(es.take(i + 1).drop_last() == es.take(i as int));
            assert(es.take(i + 1).last() == es[i as int]);
            let e = &self.entries[i];
            if e.table == t {
                let p = Kvpair { key: e.key.clone(), value: Some(e.value.duplicate()) };
                proof {
                    lemma_collected_take(es, t@, pairs@, i as int, p);
                }
                pairs.push(p);
            } else {
                proof {
                    lemma_collected_skip(es, t@, pairs@, i as int);
                }
            }
            i = i + 1;
        }
        proof {
            lemma_collected_all(es, t@, pairs@);
            assert(es.take(n as int) == es);
        }
        Ok(pairs)
    }
}

/// The pairs of the entries of `table`, in the order of the entries.
spec fn table_pairs(es: Seq<Entry>, table: Seq<char>) -> Seq<Kvpair>
    decreases es.len(),
{
    if es.len() == 0 {
        Seq::empty()
    } else {
        let earlier = table_pairs(es.drop_last(), table);
        let e = es.last();
        if e.table@ == table {
            earlier.push(Kvpair { key: e.key, value: Some(e.value) })
        } else {
            earlier
        }
    }
}

proof fn lemma_table_pairs_collected(es: Seq<Entry>, table: Seq<char>, i: int)
    requires
        distinct_slots(es),
        0 <= i <= es.len(),
    ensures
        collected(es, table, table_pairs(es.take(i), table), i),
    decreases i,
{
    if i > 0 {
        lemma_table_pairs_collected(es, table, i - 1);
        assert(es.take(i).drop_last() == es.take(i - 1));
        assert(es.take(i).last() == es[i - 1]);
        let earlier = table_pairs(es.take(i - 1), table);
        if es[i - 1].table@ == table {
            lemma_collected_take(
                es,
                table,
                earlier,
                i - 1,
                Kvpair { key: es[i - 1].key, value: Some(es[i - 1].value) },
            );
        } else {
            lemma_collected_skip(es, table, earlier, i - 1);
        }
    }
}

proof fn lemma_table_pairs_lists(es: Seq<Entry>, table: Seq<char>)
    requires
        distinct_slots(es),
    ensures
        lists_table(table_pairs(es, table), entries_map(es), table),
{
    lemma_table_pairs_collected(es, table, es.len() as int);
    assert(es.take(es.len() as int) == es);
    lemma_collected_all(es, table, table_pairs(es, table));
}

/// `pairs` lists the entries of `table` among the first `i` entries.
spec fn collected(es: Seq<Entry>, table: Seq<char>, pairs: Seq<Kvpair>, i: int) -> bool {
    &&& forall|a: int|
        #![trigger pairs[a]]
        0 <= a < pairs.len() ==> exists|j: int|
            0 <= j < i && #[trigger] slot_of(es[j]) == (table, pairs[a].key@) && pairs[a].value
                == Some(es[j].value)
    &&& forall|a: int, b: int|
        0 <= a < b < pairs.len() ==> #[trigger] pairs[a].key@ != #[trigger] pairs[b].key@
    &&& forall|j: int|
        0 <= j < i && (#[trigger] es[j]).table@ == table ==> exists|a: int|
            0 <= a < pairs.len() && #[trigger] pairs[a].key@ == es[j].key@
}

proof fn lemma_collected_skip(es: Seq<Entry>, table: Seq<char>, pairs: Seq<Kvpair>, i: int)
    requires
        0 <= i < es.len(),
        collected(es, table, pairs, i),
        es[i].table@ != table,
    ensures
        collected(es, table, pairs, i + 1),
{
    assert forall|a: int| #![trigger pairs[a]] 0 <= a < pairs.len() implies exists|j: int|
        0 <= j < i + 1 && #[trigger] slot_of(es[j]) == (table, pairs[a].key@) && pairs[a].value
            == Some(es[j].value) by {
        let j = choose|j: int|
            0 <= j < i && #[trigger] slot_of(es[j]) == (table, pairs[a].key@) && pairs[a].value
                == Some(es[j].value);
    }
}

proof fn lemma_collected_take(
    es: Seq<Entry>,
    table: Seq<char>,
    pairs: Seq<Kvpair>,
    i: int,
    p: Kvpair,
)
    requires
        0 <= i < es.len(),
        distinct_slots(es),
        collected(es, table, pairs, i),
        es[i].table@ == table,
        p.key@ == es[i].key@,
        p.value == Some(es[i].value),
    ensures
        collected(es, table, pairs.push(p), i + 1),
{
    let ps = pairs.push(p);
    assert(slot_of(es[i]) == (table, p.key@));
    assert forall|a: int| #![trigger ps[a]] 0 <= a < ps.len() implies exists|j: int|
        0 <= j < i + 1 && #[trigger] slot_of(es[j]) == (table, ps[a].key@) && ps[a].value == Some(
            es[j].value,
        ) by {
        if a < pairs.len() {
            assert(ps[a] == pairs[a]);
            let j = choose|j: int|
                0 <= j < i && #[trigger] slot_of(es[j]) == (table, pairs[a].key@) && pairs[a].value
                    == Some(es[j].value);
        } else {
            assert(ps[a] == p);
            assert(slot_of(es[i]) == (table, ps[a].key@));
        }
    }
    assert forall|a: int, b: int| 0 <= a < b < ps.len() implies #[trigger] ps[a].key@
        != #[trigger] ps[b].key@ by {
        assert(ps[a] == pairs[a]);
        if b == pairs.len() {
            assert(ps[b] == p);
            let j = choose|j: int|
                0 <= j < i && #[trigger] slot_of(es[j]) == (table, pairs[a].key@) && pairs[a].value
                    == Some(es[j].value);
            assert(slot_of(es[j]) != slot_of(es[i]));
        } else {
            assert(ps[b] == pairs[b]);
        }
    }
    assert forall|j: int| 0 <= j < i + 1 && (#[trigger] es[j]).table@ == table implies exists|a: int|
        0 <= a < ps.len() && #[trigger] ps[a].key@ == es[j].key@ by {
        if j == i {
            assert(ps[pairs.len() as int] == p);
        } else {
            let a = choose|a: int| 0 <= a < pairs.len() && #[trigger] pairs[a].key@ == es[j].key@;
            assert(ps[a] == pairs[a]);
        }
    }
}

proof fn lemma_collected_all(es: Seq<Entry>, table: Seq<char>, pairs: Seq<Kvpair>)
    requires
        distinct_slots(es),
        collected(es, table, pairs, es.len() as int),
    ensures
        lists_table(pairs, entries_map(es), table),
{
    let m = entries_map(es);
    assert forall|a: int| 0 <= a < pairs.len() implies m.get((table, #[trigger] pairs[a].key@))
        == pairs[a].value by {
        let j = choose|j: int|
            0 <= j < es.len() && #[trigger] slot_of(es[j]) == (table, pairs[a].key@)
                && pairs[a].value == Some(es[j].value);
        lemma_entries_map_at(es, j);
    }
    assert forall|k: Seq<char>| #[trigger] m.contains_key((table, k)) implies exists|a: int|
        0 <= a < pairs.len() && #[trigger] pairs[a].key@ == k by {
        let j = choose|j: int| 0 <= j < es.len() && slot_of(#[trigger] es[j]) == (table, k);
        assert(es[j].table@ == table);
    }
}

} // verus!
