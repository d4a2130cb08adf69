//! The store: rows of documents, each under the name of a store and an identifier.
//!
//! A `Store` holds the rows of the table as they were read, answers from them, and changes them.
//! Every change is also noted in a log, in order, for the caller to carry out on the table.

use crate::json::{
    entries, field, fields, from_fields, jsons, lemma_composites, no_fields, pairs, put_field, Json,
    Value,
};
use crate::text::same_text;
use vstd::prelude::*;

verus! {

/// A row of the table. A row whose text is no document has no data.
pub struct Row {
    pub store: String,
    pub id: String,
    pub data: Option<Value>,
}

/// A change of the table.
pub enum Write {
    /// The row with this key gets this document; it is made where there is none.
    Put { store: String, id: String, record: Value },
    /// The row with this key goes.
    Delete { store: String, id: String },
}

/// The rows of the table, and the changes made to them.
pub struct Store {
    pub rows: Vec<Row>,
    pub log: Vec<Write>,
}

/// What a `Row` stands for.
pub struct RowView {
    pub store: Seq<char>,
    pub id: Seq<char>,
    pub data: Option<Json>,
}

/// What a `Write` stands for.
pub enum WriteView {
    Put { store: Seq<char>, id: Seq<char>, record: Json },
    Delete { store: Seq<char>, id: Seq<char> },
}

/// What a `Store` stands for.
#[verifier::ext_equal]
pub struct StoreView {
    pub rows: Seq<RowView>,
    pub log: Seq<WriteView>,
}

impl View for Row {
    type V = RowView;

    open spec fn view(&self) -> RowView {
        RowView {
            store: self.store@,
            id: self.id@,
            data: match self.data {
                Some(v) => Some(v@),
                None => None,
            },
        }
    }
}

impl View for Write {
    type V = WriteView;

    open spec fn view(&self) -> WriteView {
        match *self {
            Write::Put { store, id, record } => WriteView::Put {
                store: store@,
                id: id@,
                record: record@,
            },
            Write::Delete { store, id } => WriteView::Delete { store: store@, id: id@ },
        }
    }
}

impl View for Store {
    type V = StoreView;

    open spec fn view(&self) -> StoreView {
        StoreView {
            rows: self.rows@.map_values(|r: Row| r@),
            log: self.log@.map_values(|w: Write| w@),
        }
    }
}

/// Whether a row has the given key.
pub open spec fn keyed(r: RowView, store: Seq<char>, id: Seq<char>) -> bool {
    r.store == store && r.id == id
}

/// The place of the first row with the given key, or the number of rows.
pub open spec fn position(rows: Seq<RowView>, store: Seq<char>, id: Seq<char>) -> int
    decreases rows.len(),
{
    if rows.len() == 0 || keyed(rows[0], store, id) {
        0
    } else {
        1 + position(rows.skip(1), store, id)
    }
}

/// The documents of a store, in the order of their rows.
pub open spec fn listed(rows: Seq<RowView>, store: Seq<char>) -> Seq<Json>
    decreases rows.len(),
{
    if rows.len() == 0 {
        Seq::empty()
    } else if rows.last().store == store && rows.last().data is Some {
        listed(rows.drop_last(), store).push(rows.last().data->0)
    } else {
        listed(rows.drop_last(), store)
    }
}

/// The rows with a document put under a key.
pub open spec fn with_row(
    rows: Seq<RowView>,
    store: Seq<char>,
    id: Seq<char>,
    record: Json,
) -> Seq<RowView> {
    let row = RowView { store, id, data: Some(record) };
    let i = position(rows, store, id);
    if i < rows.len() {
        rows.update(i, row)
    } else {
        rows.push(row)
    }
}

/// The rows without those under a key.
pub open spec fn without_row(rows: Seq<RowView>, store: Seq<char>, id: Seq<char>) -> Seq<RowView>
    decreases rows.len(),
{
    if rows.len() == 0 {
        rows
    } else if keyed(rows.last(), store, id) {
        without_row(rows.drop_last(), store, id)
    } else {
        without_row(rows.drop_last(), store, id).push(rows.last())
    }
}

/// `current` with the fields of `patch` set; unchanged where either is no object.
pub open spec fn merged(current: Json, patch: Json) -> Json {
    match (current, patch) {
        (Json::Object(c), Json::Object(p)) => Json::Object(c.union_prefer_right(p)),
        _ => current,
    }
}

impl StoreView {
    /// The documents of a store.
    pub open spec fn list(self, store: Seq<char>) -> Seq<Json> {
        listed(self.rows, store)
    }

    /// The document under a key.
    pub open spec fn item(self, store: Seq<char>, id: Seq<char>) -> Option<Json> {
        let i = position(self.rows, store, id);
        if i < self.rows.len() {
            self.rows[i].data
        } else {
            None
        }
    }

    /// The store after a document was put under a key.
    pub open spec fn put(self, store: Seq<char>, id: Seq<char>, record: Json) -> StoreView {
        StoreView {
            rows: with_row(self.rows, store, id, record),
            log: self.log.push(WriteView::Put { store, id, record }),
        }
    }

    /// The store after the fields of `patch` were set in the document under a key.
    pub open spec fn patch(self, store: Seq<char>, id: Seq<char>, patch: Json) -> StoreView {
        let current = match self.item(store, id) {
            Some(v) => v,
            None => Json::Object(Map::empty()),
        };
        self.put(store, id, merged(current, patch))
    }

    /// The store after the document under a key was deleted.
    pub open spec fn delete(self, store: Seq<char>, id: Seq<char>) -> StoreView {
        StoreView {
            rows: without_row(self.rows, store, id),
            log: self.log.push(WriteView::Delete { store, id }),
        }
    }
}

proof fn lemma_position(rows: Seq<RowView>, store: Seq<char>, id: Seq<char>, i: int)
    requires
        0 <= i <= rows.len(),
        i < rows.len() ==> keyed(rows[i], store, id),
        forall|j: int| 0 <= j < i ==> !keyed(#[trigger] rows[j], store, id),
    ensures
        position(rows, store, id) == i,
    decreases i,
{
    if i > 0 {
        assert(!keyed(rows[0], store, id));
        assert forall|j: int| 0 <= j < i - 1 implies !keyed(#[trigger] rows.skip(1)[j], store, id) by {
            assert(rows.skip(1)[j] == rows[j + 1]);
        }
        lemma_position(rows.skip(1), store, id, i - 1);
    }
}

/// The place of a row, as far as its definition says.
pub proof fn lemma_position_bounds(rows: Seq<RowView>, store: Seq<char>, id: Seq<char>)
    ensures
        0 <= position(rows, store, id) <= rows.len(),
        position(rows, store, id) < rows.len() ==> keyed(
            rows[position(rows, store, id)],
            store,
            id,
        ),
        forall|j: int|
            0 <= j < position(rows, store, id) ==> !keyed(#[trigger] rows[j], store, id),
    decreases rows.len(),
{
    if rows.len() > 0 && !keyed(rows[0], store, id) {
        lemma_position_bounds(rows.skip(1), store, id);
        assert forall|j: int| 0 <= j < position(rows, store, id) implies !keyed(
            #[trigger] rows[j],
            store,
            id,
        ) by {
            if j > 0 {
                assert(rows[j] == rows.skip(1)[j - 1]);
            }
        }
    }
}

/// The place of the first row with the given key.
fn find_row(db: &Store, store: &str, id: &str) -> (r: Option<usize>)
    ensures
        match r {
            Some(i) => i < db@.rows.len() && i == position(db@.rows, store@, id@),
            None => position(db@.rows, store@, id@) == db@.rows.len(),
        },
{
    let mut i: usize = 0;
    while i < db.rows.len()
        invariant
            i <= db.rows@.len(),
            forall|j: int| 0 <= j < i ==> !keyed(#[trigger] db@.rows[j], store@, id@),
        decreases db.rows@.len() - i,
    {
        if same_text(db.rows[i].store.as_str(), store) && same_text(db.rows[i].id.as_str(), id) {
            proof {
                lemma_position(db@.rows, store@, id@, i as int);
            }
            return Some(i);
        }
        i = i + 1;
    }
    proof {
        lemma_position(db@.rows, store@, id@, i as int);
    }
    None
}

/// The documents of a store.
pub fn list_items(db: &Store, store: &str) -> (r: Vec<Value>)
    ensures
        jsons(r@) == db@.list(store@),
{
    let mut out: Vec<Value> = Vec::new();
    let mut i: usize = 0;
    while i < db.rows.len()
        invariant
            i <= db.rows@.len(),
            jsons(out@) == listed(db@.rows.take(i as int), store@),
        decreases db.rows@.len() - i,
    {
        proof {
            assert(db@.rows.take(i + 1).drop_last() =~= db@.rows.take(i as int));
        }
        if same_text(db.rows[i].store.as_str(), store) {
            if let Some(v) = &db.rows[i].data {
                let ghost before = out@;
                out.push(v.copy());
                proof {
                    assert(jsons(out@) =~= jsons(before).push(v@));
                }
            }
        }
        i = i + 1;
    }
    proof {
        assert(db@.rows.take(i as int) =~= db@.rows);
    }
    out
}

/// The document under a key.
pub fn get_item(db: &Store, store: &str, id: &str) -> (r: Option<Value>)
    ensures
        match r {
            Some(v) => db@.item(store@, id@) == Some(v@),
            None => db@.item(store@, id@) is None,
        },
{
    match find_row(db, store, id) {
        Some(i) => match &db.rows[i].data {
            Some(v) => Some(v.copy()),
            None => None,
        },
        None => None,
    }
}

/// Puts a document under a key.
pub fn create_item(db: &mut Store, store: &str, id: &str, record: &Value)
    ensures
        final(db)@ == old(db)@.put(store@, id@, record@),
{
    let at: Option<usize> = find_row(db, store, id);
    let row: Row = Row { store: store.to_owned(), id: id.to_owned(), data: Some(record.copy()) };
    let ghost before = db@;
    let ghost rv: RowView = row@;
    match at {
        Some(i) => {
            db.rows.set(i, row);
            proof {
                assert(db@.rows =~= before.rows.update(i as int, rv));
            }
        },
        None => {
            db.rows.push(row);
            proof {
                assert(db@.rows =~= before.rows.push(rv));
            }
        },
    }
    db.log.push(
        Write::Put { store: store.to_owned(), id: id.to_owned(), record: record.copy() },
    );
    proof {
        assert(db@.log =~= before.log.push(
            WriteView::Put { store: store@, id: id@, record: record@ },
        ));
    }
}

/// Sets the fields of `patch` in the document under a key.
pub fn patch_item(db: &mut Store, store: &str, id: &str, patch: &Value)
    ensures
        final(db)@ == old(db)@.patch(store@, id@, patch@),
{
    broadcast use lemma_composites;

    let current: Value = match get_item(db, store, id) {
        Some(v) => v,
        None => from_fields(no_fields()),
    };
    let ghost cur: Json = current@;
    let next: Value = match patch {
        Value::Object(ps) => match current {
            Value::Object(es) => {
                let mut es: Vec<(String, Value)> = es;
                let ghost start = fields(es@);
                let mut i: usize = 0;
                while i < ps.len()
                    invariant
                        i <= ps@.len(),
                        fields(es@) == start.union_prefer_right(
                            entries(pairs(ps@).take(i as int)),
                        ),
                    decreases ps@.len() - i,
                {
                    proof {
                        assert(pairs(ps@).take(i + 1).drop_last() =~= pairs(ps@).take(i as int));
                    }
                    put_field(&mut es, ps[i].0.as_str(), ps[i].1.copy());
                    i = i + 1;
                    proof {
                        assert(fields(es@) =~= start.union_prefer_right(
                            entries(pairs(ps@).take(i as int)),
                        ));
                    }
                }
                proof {
                    assert(pairs(ps@).take(i as int) =~= pairs(ps@));
                }
                from_fields(es)
            },
            other => other,
        },
        _ => current,
    };
    create_item(db, store, id, &next);
}

/// Deletes the document under a key.
pub fn delete_item(db: &mut Store, store: &str, id: &str)
    ensures
        final(db)@ == old(db)@.delete(store@, id@),
{
    let ghost before = db@;
    let ghost rows = db@.rows;
    let ghost mut done: int = 0;
    let mut i: usize = 0;
    while i < db.rows.len()
        invariant
            0 <= done <= rows.len(),
            i <= db.rows@.len(),
            db@.rows == without_row(rows.take(done), store@, id@) + rows.skip(done),
            without_row(rows.take(done), store@, id@).len() == i,
            db@.log == before.log,
        decreases db.rows@.len() - i,
    {
        let ghost head = without_row(rows.take(done), store@, id@);
        let ghost now = db@.rows;
        proof {
            assert(rows.take(done + 1).drop_last() =~= rows.take(done));
            assert(now[i as int] == rows[done]);
            assert(rows.skip(done)[0] == rows[done]);
        }
        if same_text(db.rows[i].store.as_str(), store) && same_text(db.rows[i].id.as_str(), id) {
            let gone: Row = db.rows.remove(i);
            proof {
                assert(db@.rows =~= now.remove(i as int));
                assert(db@.rows =~= head + rows.skip(done + 1));
            }
        } else {
            i = i + 1;
            proof {
                assert(db@.rows =~= head.push(rows[done]) + rows.skip(done + 1));
            }
        }
        proof {
            done = done + 1;
        }
    }
    proof {
        assert(rows.take(done) =~= rows);
        assert(db@.rows =~= without_row(rows, store@, id@));
    }
    db.log.push(Write::Delete { store: store.to_owned(), id: id.to_owned() });
    proof {
        assert(db@.log =~= before.log.push(WriteView::Delete { store: store@, id: id@ }));
    }
}

// ----- laws -----

/// The documents of a store are exactly those of its rows that have one.
pub proof fn lemma_listed(rows: Seq<RowView>, store: Seq<char>)
    ensures
        forall|k: int|
            0 <= k < rows.len() && rows[k].store == store && rows[k].data is Some ==> listed(
                rows,
                store,
            ).contains((#[trigger] rows[k]).data->0),
        forall|j: int|
            0 <= j < listed(rows, store).len() ==> exists|k: int|
                0 <= k < rows.len() && (#[trigger] rows[k]).store == store && rows[k].data == Some(
                    #[trigger] listed(rows, store)[j],
                ),
    decreases rows.len(),
{
    if rows.len() > 0 {
        let before = rows.drop_last();
        lemma_listed(before, store);
        let old_list = listed(before, store);
        let list = listed(rows, store);
        assert forall|k: int|
            0 <= k < rows.len() && rows[k].store == store && rows[k].data is Some implies list.contains(
        (#[trigger] rows[k]).data->0) by {
            if k < rows.len() - 1 {
                assert(rows[k] == before[k]);
                assert(old_list.contains(before[k].data->0));
                let j = choose|j: int| 0 <= j < old_list.len() && old_list[j] == before[k].data->0;
                assert(list[j] == rows[k].data->0);
            } else {
                assert(list[list.len() - 1] == rows[k].data->0);
            }
        }
        assert forall|j: int| 0 <= j < list.len() implies exists|k: int|
            0 <= k < rows.len() && (#[trigger] rows[k]).store == store && rows[k].data == Some(
                #[trigger] list[j],
            ) by {
            if j < old_list.len() {
                assert(list[j] == old_list[j]);
                let k = choose|k: int|
                    0 <= k < before.len() && (#[trigger] before[k]).store == store
                        && before[k].data == Some(old_list[j]);
                assert(rows[k] == before[k]);
            } else {
                assert(rows[rows.len() - 1].data == Some(list[j]));
            }
        }
    }
}

proof fn lemma_listed_update(rows: Seq<RowView>, i: int, row: RowView, store: Seq<char>)
    requires
        0 <= i < rows.len(),
        rows[i].store != store,
        row.store != store,
    ensures
        listed(rows.update(i, row), store) == listed(rows, store),
    decreases rows.len(),
{
    let new = rows.update(i, row);
    if i == rows.len() - 1 {
        assert(new.drop_last() =~= rows.drop_last());
    } else {
        assert(new.drop_last() =~= rows.drop_last().update(i, row));
        lemma_listed_update(rows.drop_last(), i, row, store);
    }
}

proof fn lemma_listed_without(rows: Seq<RowView>, store: Seq<char>, id: Seq<char>, other: Seq<char>)
    requires
        other != store,
    ensures
        listed(without_row(rows, store, id), other) == listed(rows, other),
    decreases rows.len(),
{
    if rows.len() > 0 {
        lemma_listed_without(rows.drop_last(), store, id, other);
        if !keyed(rows.last(), store, id) {
            let kept = without_row(rows.drop_last(), store, id);
            assert(kept.push(rows.last()).drop_last() =~= kept);
        }
    }
}

/// What was put under a key is found there, and under no other key anything changed.
pub proof fn law_put(db: StoreView, store: Seq<char>, id: Seq<char>, record: Json)
    ensures
        db.put(store, id, record).item(store, id) == Some(record),
        db.put(store, id, record).list(store).contains(record),
        forall|s: Seq<char>, i: Seq<char>|
            s != store || i != id ==> #[trigger] db.put(store, id, record).item(s, i) == db.item(
                s,
                i,
            ),
        forall|s: Seq<char>|
            s != store ==> #[trigger] db.put(store, id, record).list(s) == db.list(s),
{
    let new = db.put(store, id, record);
    let row = RowView { store, id, data: Some(record) };
    let p = position(db.rows, store, id);
    lemma_position_bounds(db.rows, store, id);
    lemma_position(new.rows, store, id, p);
    lemma_listed(new.rows, store);
    assert(new.rows[p] == row);
    assert forall|s: Seq<char>, i: Seq<char>| s != store || i != id implies #[trigger] new.item(s, i)
        == db.item(s, i) by {
        let q = position(db.rows, s, i);
        lemma_position_bounds(db.rows, s, i);
        if q < db.rows.len() {
            assert(new.rows[q] == db.rows[q]);
            assert forall|j: int| 0 <= j < q implies !keyed(#[trigger] new.rows[j], s, i) by {
                if j != p {
                    assert(new.rows[j] == db.rows[j]);
                }
            }
            lemma_position(new.rows, s, i, q);
        } else {
            assert forall|j: int| 0 <= j < new.rows.len() implies !keyed(
                #[trigger] new.rows[j],
                s,
                i,
            ) by {
                if j != p {
                    assert(new.rows[j] == db.rows[j]);
                }
            }
            lemma_position(new.rows, s, i, new.rows.len() as int);
        }
    }
    assert forall|s: Seq<char>| s != store implies #[trigger] new.list(s) == db.list(s) by {
        if p < db.rows.len() {
            lemma_listed_update(db.rows, p, row, s);
        } else {
            assert(new.rows.drop_last() =~= db.rows);
        }
    }
}

proof fn lemma_without(rows: Seq<RowView>, store: Seq<char>, id: Seq<char>)
    ensures
        forall|j: int|
            0 <= j < without_row(rows, store, id).len() ==> !keyed(
                #[trigger] without_row(rows, store, id)[j],
                store,
                id,
            ),
        forall|s: Seq<char>, i: Seq<char>|
            s != store || i != id ==> {
                let a = #[trigger] position(without_row(rows, store, id), s, i);
                let b = position(rows, s, i);
                &&& a < without_row(rows, store, id).len() <==> b < rows.len()
                &&& b < rows.len() ==> without_row(rows, store, id)[a] == rows[b]
            },
    decreases rows.len(),
{
    let new = without_row(rows, store, id);
    if rows.len() > 0 {
        let before = rows.drop_last();
        let kept = without_row(before, store, id);
        lemma_without(before, store, id);
        assert forall|j: int| 0 <= j < new.len() implies !keyed(#[trigger] new[j], store, id) by {
            if j < kept.len() {
                assert(new[j] == kept[j]);
            }
        }
        assert forall|s: Seq<char>, i: Seq<char>| s != store || i != id implies {
            let a = #[trigger] position(new, s, i);
            let b = position(rows, s, i);
            &&& a < new.len() <==> b < rows.len()
            &&& b < rows.len() ==> new[a] == rows[b]
        } by {
            let a = position(kept, s, i);
            let b = position(before, s, i);
            lemma_position_bounds(kept, s, i);
            lemma_position_bounds(before, s, i);
            assert(a < kept.len() <==> b < before.len());
            if b < before.len() {
                assert(rows[b] == before[b]);
                assert forall|j: int| 0 <= j < b implies !keyed(#[trigger] rows[j], s, i) by {
                    assert(rows[j] == before[j]);
                }
                lemma_position(rows, s, i, b);
                assert(new[a] == kept[a]);
                assert forall|j: int| 0 <= j < a implies !keyed(#[trigger] new[j], s, i) by {
                    assert(new[j] == kept[j]);
                }
                lemma_position(new, s, i, a);
            } else {
                assert forall|j: int| 0 <= j < before.len() implies !keyed(
                    #[trigger] rows[j],
                    s,
                    i,
                ) by {
                    assert(rows[j] == before[j]);
                }
                assert forall|j: int| 0 <= j < kept.len() implies !keyed(#[trigger] new[j], s, i) by {
                    assert(new[j] == kept[j]);
                }
                if keyed(rows.last(), s, i) {
                    lemma_position(rows, s, i, before.len() as int);
                    lemma_position(new, s, i, kept.len() as int);
                } else {
                    lemma_position(rows, s, i, rows.len() as int);
                    lemma_position(new, s, i, new.len() as int);
                }
            }
        }
    }
}

/// What was deleted is gone, and under no other key anything changed.
pub proof fn law_delete(db: StoreView, store: Seq<char>, id: Seq<char>)
    ensures
        db.delete(store, id).item(store, id) is None,
        forall|s: Seq<char>, i: Seq<char>|
            s != store || i != id ==> #[trigger] db.delete(store, id).item(s, i) == db.item(s, i),
        forall|s: Seq<char>| s != store ==> #[trigger] db.delete(store, id).list(s) == db.list(s),
{
    let new = db.delete(store, id);
    lemma_without(db.rows, store, id);
    lemma_position_bounds(new.rows, store, id);
    assert forall|s: Seq<char>, i: Seq<char>| s != store || i != id implies #[trigger] new.item(s, i)
        == db.item(s, i) by {
        let a = position(new.rows, s, i);
        lemma_position_bounds(new.rows, s, i);
        lemma_position_bounds(db.rows, s, i);
    }
    assert forall|s: Seq<char>| s != store implies #[trigger] new.list(s) == db.list(s) by {
        lemma_listed_without(db.rows, store, id, s);
    }
}

/// A patch sets the fields that it has and keeps the others, and under no other key anything
/// changed.
pub proof fn law_patch(db: StoreView, store: Seq<char>, id: Seq<char>, patch: Json, current: Json)
    requires
        db.item(store, id) == Some(current),
        current is Object,
        patch is Object,
    ensures
        db.patch(store, id, patch).item(store, id) is Some,
        forall|key: Seq<char>|
            #[trigger] field(db.patch(store, id, patch).item(store, id)->0, key) == (
            if patch->Object_0.contains_key(key) {
                field(patch, key)
            } else {
                field(current, key)
            }),
        forall|s: Seq<char>, i: Seq<char>|
            s != store || i != id ==> #[trigger] db.patch(store, id, patch).item(s, i) == db.item(
                s,
                i,
            ),
        forall|s: Seq<char>|
            s != store ==> #[trigger] db.patch(store, id, patch).list(s) == db.list(s),
{
    law_put(db, store, id, merged(current, patch));
}

/// The rows after the changes in a log.
pub open spec fn replayed(rows: Seq<RowView>, log: Seq<WriteView>) -> Seq<RowView>
    decreases log.len(),
{
    if log.len() == 0 {
        rows
    } else {
        let before = replayed(rows, log.drop_last());
        match log.last() {
            WriteView::Put { store, id, record } => with_row(before, store, id, record),
            WriteView::Delete { store, id } => without_row(before, store, id),
        }
    }
}

/// Whether the log of a store leads from `rows` to what it holds.
pub open spec fn logged(rows: Seq<RowView>, db: StoreView) -> bool {
    replayed(rows, db.log) == db.rows
}

/// Every change is in the log: carrying out the log on the rows that were read gives the rows
/// that the store holds.
pub broadcast proof fn law_log_put(
    rows: Seq<RowView>,
    db: StoreView,
    store: Seq<char>,
    id: Seq<char>,
    record: Json,
)
    requires
        logged(rows, db),
    ensures
        #[trigger] logged(rows, db.put(store, id, record)),
{
    assert(db.put(store, id, record).log.drop_last() =~= db.log);
}

/// The same of a deletion.
pub broadcast proof fn law_log_delete(
    rows: Seq<RowView>,
    db: StoreView,
    store: Seq<char>,
    id: Seq<char>,
)
    requires
        logged(rows, db),
    ensures
        #[trigger] logged(rows, db.delete(store, id)),
{
    assert(db.delete(store, id).log.drop_last() =~= db.log);
}

/// The same of a patch.
pub broadcast proof fn law_log_patch(
    rows: Seq<RowView>,
    db: StoreView,
    store: Seq<char>,
    id: Seq<char>,
    patch: Json,
)
    requires
        logged(rows, db),
    ensures
        #[trigger] logged(rows, db.patch(store, id, patch)),
{
    let current = match db.item(store, id) {
        Some(v) => v,
        None => Json::Object(Map::empty()),
    };
    law_log_put(rows, db, store, id, merged(current, patch));
}

} // verus!
