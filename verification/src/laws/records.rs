//! The order of the records: every record stands under its own identifier, and under no
//! identifier there are two.

use crate::accounts::{
    as_admin, claimed, create_user_outcome, delete_user_outcome, edited_user, keyholders, lets_in,
    login_outcome, new_name, new_user, next_token, pick, save_user_outcome, single_key, Pick,
};
use crate::catalogs::{
    delete_catalog_outcome, entry_id, entry_record, save_catalog_outcome, save_settings_outcome,
    settings_record,
};
use crate::clock::{suffix, MomentView};
use crate::json::{field, plain, Json};
use crate::laws::access::{served, Request};
use crate::laws::names::{
    law_plain_is_tidy, lemma_decimal_tidy, lemma_new_sku_tidy, lemma_numeral, lemma_slug_tidy,
};
use crate::lists::{first_user, first_with, has_text, is_active, lemma_first_true, lemma_some_true};
use crate::products::{
    delete_product_outcome, edited_product, product_record, product_told, save_product_outcome,
    saved_sku,
};
use crate::sales::{
    checkout_outcome, items_of, items_text, left_after, line_sku, queue_run, queued, sale_id,
    sale_movement, sale_record, sold, ReadingView,
};
use crate::shop::ShopView;
use crate::stock::{
    adjustment_record, allowed_by, count_outcome, count_record, delete_movement_outcome,
    deletion_record, movement_outcome, movement_record, product_with, stamped_id, stock_patch,
    take_back,
};
use crate::store::{
    keyed, law_put, lemma_listed, lemma_position_bounds, listed, merged, position, with_row,
    without_row, RowView, StoreView,
};
use crate::text::{decimal, lemma_trimmed, tidy, white};
use crate::users::{authorized, managers, staff, touched};
use vstd::prelude::*;

verus! {

/// The field in which the records of a store hold their identifier.
pub open spec fn own_field(store: Seq<char>) -> Seq<char> {
    if store == "users"@ {
        "username"@
    } else if store == "products"@ {
        "sku"@
    } else if store == "settings"@ {
        "key"@
    } else {
        "id"@
    }
}

/// Whether a record is an object that holds `id` as its identifier.
pub open spec fn is_named(record: Json, store: Seq<char>, id: Seq<char>) -> bool {
    record is Object && plain(field(record, own_field(store))) == id
}

/// Whether the rows are in order: no two have the same key, and each record stands under the
/// identifier that it holds.
pub open spec fn rows_in_order(rows: Seq<RowView>) -> bool {
    &&& forall|i: int, j: int|
        0 <= i < j < rows.len() ==> !((#[trigger] rows[i]).store == (#[trigger] rows[j]).store
            && rows[i].id == rows[j].id)
    &&& forall|i: int|
        0 <= i < rows.len() && (#[trigger] rows[i]).data is Some ==> is_named(
            rows[i].data->0,
            rows[i].store,
            rows[i].id,
        )
}

/// Whether the rows of a store are in order.
pub open spec fn in_order(db: StoreView) -> bool {
    rows_in_order(db.rows)
}

// ----- what order means -----

/// The record that holds an identifier stands under it.
pub proof fn lemma_named(db: StoreView, store: Seq<char>, j: int)
    requires
        in_order(db),
        0 <= j < db.list(store).len(),
    ensures
        db.list(store)[j] is Object,
        db.item(store, plain(field(db.list(store)[j], own_field(store)))) == Some(
            db.list(store)[j],
        ),
{
    let v = db.list(store)[j];
    let id = plain(field(v, own_field(store)));
    lemma_listed(db.rows, store);
    let k = choose|k: int|
        0 <= k < db.rows.len() && (#[trigger] db.rows[k]).store == store && db.rows[k].data == Some(
            db.list(store)[j],
        );
    assert(db.rows[k].data == Some(v));
    assert(keyed(db.rows[k], store, id));
    lemma_position_bounds(db.rows, store, id);
    let p = position(db.rows, store, id);
    assert(p <= k);
    if p < k {
        assert(keyed(db.rows[p], store, id));
        assert(db.rows[p].store == db.rows[k].store);
    }
}

/// Where a record is found by its identifier, it is the one that stands under it; and what stands
/// under an identifier is found by it.
pub proof fn law_found(db: StoreView, store: Seq<char>, id: Seq<char>)
    requires
        in_order(db),
    ensures
        0 <= first_with(db.list(store), own_field(store), id) <= db.list(store).len(),
        first_with(db.list(store), own_field(store), id) < db.list(store).len() <==> db.item(
            store,
            id,
        ) is Some,
        db.item(store, id) is Some ==> db.item(store, id) == Some(
            db.list(store)[first_with(db.list(store), own_field(store), id)],
        ),
        db.item(store, id) is Some ==> is_named(db.item(store, id)->0, store, id),
{
    let list = db.list(store);
    let bs = list.map_values(|r: Json| has_text(r, own_field(store), id));
    let i = first_with(list, own_field(store), id);
    lemma_first_true(bs);
    if i < list.len() {
        assert(bs[i]);
        lemma_named(db, store, i);
    }
    lemma_position_bounds(db.rows, store, id);
    let p = position(db.rows, store, id);
    if db.item(store, id) is Some {
        lemma_listed(db.rows, store);
        assert(list.contains(db.rows[p].data->0));
        let j = choose|j: int| 0 <= j < list.len() && list[j] == db.rows[p].data->0;
        assert(bs[j]);
    }
}

proof fn lemma_listed_distinct(rows: Seq<RowView>, store: Seq<char>)
    requires
        rows_in_order(rows),
    ensures
        forall|i: int, j: int|
            0 <= i < j < listed(rows, store).len() ==> plain(
                field(#[trigger] listed(rows, store)[i], own_field(store)),
            ) != plain(field(#[trigger] listed(rows, store)[j], own_field(store))),
    decreases rows.len(),
{
    if rows.len() > 0 {
        let before = rows.drop_last();
        assert forall|i: int| 0 <= i < before.len() && (#[trigger] before[i]).data is Some implies is_named(
        before[i].data->0, before[i].store, before[i].id) by {
            assert(before[i] == rows[i]);
        }
        assert forall|i: int, j: int| 0 <= i < j < before.len() implies !((#[trigger] before[i]).store
            == (#[trigger] before[j]).store && before[i].id == before[j].id) by {
            assert(before[i] == rows[i] && before[j] == rows[j]);
        }
        lemma_listed_distinct(before, store);
        lemma_listed(before, store);
        let list = listed(rows, store);
        let old_list = listed(before, store);
        assert forall|i: int, j: int| 0 <= i < j < list.len() implies plain(
            field(#[trigger] list[i], own_field(store)),
        ) != plain(field(#[trigger] list[j], own_field(store))) by {
            assert(list[i] == old_list[i]);
            if j < old_list.len() {
                assert(list[j] == old_list[j]);
            } else {
                let k = choose|k: int|
                    0 <= k < before.len() && (#[trigger] before[k]).store == store
                        && before[k].data == Some(old_list[i]);
                let last: int = rows.len() - 1;
                assert(before[k] == rows[k]);
                assert(rows[last].store == store && rows[last].data == Some(list[j]));
                assert(rows[k].id != rows[last].id);
            }
        }
    }
}

/// In a store that is in order no two records hold the same identifier: no two users have one
/// name, no two products one code.
pub proof fn law_identifiers_are_unique(db: StoreView, store: Seq<char>, i: int, j: int)
    requires
        in_order(db),
        0 <= i < db.list(store).len(),
        0 <= j < db.list(store).len(),
        i != j,
    ensures
        plain(field(db.list(store)[i], own_field(store))) != plain(
            field(db.list(store)[j], own_field(store)),
        ),
{
    lemma_listed_distinct(db.rows, store);
}

// ----- what keeps it -----

/// Putting a record under its identifier keeps the order.
pub proof fn lemma_put_in_order(db: StoreView, store: Seq<char>, id: Seq<char>, record: Json)
    requires
        in_order(db),
        is_named(record, store, id),
    ensures
        in_order(db.put(store, id, record)),
{
    lemma_position_bounds(db.rows, store, id);
    let p = position(db.rows, store, id);
    let new = with_row(db.rows, store, id, record);
    assert forall|i: int, j: int| 0 <= i < j < new.len() implies !((#[trigger] new[i]).store == (
    #[trigger] new[j]).store && new[i].id == new[j].id) by {
        if p < db.rows.len() {
            assert(keyed(db.rows[p], store, id));
            assert(db.rows[i].store == new[i].store && db.rows[i].id == new[i].id);
            assert(db.rows[j].store == new[j].store && db.rows[j].id == new[j].id);
        } else {
            assert(new[i] == db.rows[i]);
            assert(!keyed(db.rows[i], store, id));
            if j < db.rows.len() {
                assert(new[j] == db.rows[j]);
            }
        }
    }
    assert forall|i: int| 0 <= i < new.len() && (#[trigger] new[i]).data is Some implies is_named(
        new[i].data->0,
        new[i].store,
        new[i].id,
    ) by {
        if i != p {
            assert(new[i] == db.rows[i]);
        }
    }
}

proof fn lemma_without_within(rows: Seq<RowView>, store: Seq<char>, id: Seq<char>)
    ensures
        forall|j: int|
            0 <= j < without_row(rows, store, id).len() ==> rows.contains(
                #[trigger] without_row(rows, store, id)[j],
            ),
    decreases rows.len(),
{
    if rows.len() > 0 {
        let before = rows.drop_last();
        let kept = without_row(before, store, id);
        let new = without_row(rows, store, id);
        lemma_without_within(before, store, id);
        assert forall|j: int| 0 <= j < new.len() implies rows.contains(#[trigger] new[j]) by {
            if j < kept.len() {
                assert(new[j] == kept[j]);
                let k = choose|k: int| 0 <= k < before.len() && before[k] == kept[j];
                assert(rows[k] == new[j]);
            } else {
                assert(rows[rows.len() - 1] == new[j]);
            }
        }
    }
}

proof fn lemma_without_in_order(rows: Seq<RowView>, store: Seq<char>, id: Seq<char>)
    requires
        rows_in_order(rows),
    ensures
        rows_in_order(without_row(rows, store, id)),
    decreases rows.len(),
{
    if rows.len() > 0 {
        let before = rows.drop_last();
        let kept = without_row(before, store, id);
        let new = without_row(rows, store, id);
        assert(rows_in_order(before)) by {
            assert forall|i: int, j: int| 0 <= i < j < before.len() implies !((
            #[trigger] before[i]).store == (#[trigger] before[j]).store && before[i].id
                == before[j].id) by {
                assert(before[i] == rows[i] && before[j] == rows[j]);
            }
            assert forall|i: int|
                0 <= i < before.len() && (#[trigger] before[i]).data is Some implies is_named(
                before[i].data->0,
                before[i].store,
                before[i].id,
            ) by {
                assert(before[i] == rows[i]);
            }
        }
        lemma_without_in_order(before, store, id);
        lemma_without_within(before, store, id);
        let last: int = rows.len() - 1;
        assert forall|i: int, j: int| 0 <= i < j < new.len() implies !((#[trigger] new[i]).store == (
        #[trigger] new[j]).store && new[i].id == new[j].id) by {
            assert(new[i] == kept[i]);
            if j < kept.len() {
                assert(new[j] == kept[j]);
            } else {
                let k = choose|k: int| 0 <= k < before.len() && before[k] == kept[i];
                assert(rows[k] == new[i] && rows[last] == new[j]);
            }
        }
        assert forall|i: int| 0 <= i < new.len() && (#[trigger] new[i]).data is Some implies is_named(
            new[i].data->0,
            new[i].store,
            new[i].id,
        ) by {
            if i < kept.len() {
                assert(new[i] == kept[i]);
            } else {
                assert(new[i] == rows[last]);
            }
        }
    }
}

/// Deleting keeps the order.
pub proof fn lemma_delete_in_order(db: StoreView, store: Seq<char>, id: Seq<char>)
    requires
        in_order(db),
    ensures
        in_order(db.delete(store, id)),
{
    lemma_without_in_order(db.rows, store, id);
}

/// Setting other fields of a record than its identifier keeps the order.
pub proof fn lemma_patch_in_order(db: StoreView, store: Seq<char>, id: Seq<char>, patch: Json)
    requires
        in_order(db),
        db.item(store, id) is Some,
        patch is Object,
        !patch->Object_0.contains_key(own_field(store)),
    ensures
        in_order(db.patch(store, id, patch)),
        db.patch(store, id, patch).item(store, id) is Some,
        forall|i: Seq<char>|
            i != id ==> #[trigger] db.patch(store, id, patch).item(store, i) == db.item(store, i),
{
    law_found(db, store, id);
    let current = db.item(store, id)->0;
    let next = merged(current, patch);
    assert(field(next, own_field(store)) == field(current, own_field(store)));
    lemma_put_in_order(db, store, id, next);
    law_put(db, store, id, next);
}

// ----- the names of stores and fields -----

/// In which field each store holds its identifiers.
pub proof fn lemma_own_fields()
    ensures
        own_field("users"@) == "username"@,
        own_field("products"@) == "sku"@,
        own_field("settings"@) == "key"@,
        own_field("moves"@) == "id"@,
        own_field("counts"@) == "id"@,
        own_field("sales"@) == "id"@,
        own_field("categories"@) == "id"@,
        own_field("units"@) == "id"@,
        own_field("suppliers"@) == "id"@,
        own_field("presentations"@) == "id"@,
        "products"@ != "moves"@,
        "products"@ != "counts"@,
        "products"@ != "sales"@,
{
    reveal_strlit("users");
    reveal_strlit("products");
    reveal_strlit("settings");
    reveal_strlit("moves");
    reveal_strlit("counts");
    reveal_strlit("sales");
    reveal_strlit("categories");
    reveal_strlit("units");
    reveal_strlit("suppliers");
    reveal_strlit("presentations");
    assert("users"@[0] == 'u' && "users"@[1] == 's' && "units"@[0] == 'u' && "units"@[1] == 'n'
        && "products"@[0] == 'p' && "settings"@[0] == 's' && "moves"@[0] == 'm' && "counts"@[0]
        == 'c' && "sales"@[0] == 's' && "categories"@[0] == 'c' && "suppliers"@[0] == 's'
        && "presentations"@[0] == 'p');
    assert("users"@.len() == 5 && "settings"@.len() == 8 && "products"@.len() == 8
        && "sales"@.len() == 5 && "suppliers"@.len() == 9 && "presentations"@.len() == 13);
}

/// A text without white space at its ends is what it reads as.
pub proof fn lemma_reads(s: Seq<char>)
    requires
        tidy(s),
    ensures
        plain(Some(Json::Text(s))) == s,
{
    lemma_trimmed(s);
}

/// An identifier with a mark in front has no white space at its ends, where the text behind the
/// moment has none.
proof fn lemma_stamped_tidy(mark: Seq<char>, millis: i64, text: Seq<char>)
    requires
        mark.len() > 0,
        !white(mark[0]),
        tidy(text),
    ensures
        tidy(stamped_id(mark, millis, text)),
{
    reveal_strlit("-");
    let s = stamped_id(mark, millis, text);
    assert(s[0] == mark[0]);
    if text.len() > 0 {
        assert(s.last() == text.last());
    } else {
        assert(s.last() == '-');
    }
}

/// The end of a new text has no white space.
proof fn lemma_suffix_tidy(shop: ShopView, m: MomentView)
    ensures
        tidy(suffix(next_token(shop, m))),
{
    lemma_numeral(m.nanos as nat, 16);
    lemma_numeral(shop.source.count as nat, 16);
    lemma_numeral(shop.source.process as nat, 16);
    let t = next_token(shop, m);
    assert forall|i: int| 0 <= i < t.len() implies !white(#[trigger] t[i]) by {}
    let s = suffix(t);
    assert(s.len() > 0 ==> s[0] == t[t.len() - 1] && s.last() == t[t.len() - s.len()]);
}

proof fn lemma_marks()
    ensures
        "MOV-"@.len() > 0 && !white("MOV-"@[0]),
        "MOV-DEL-"@.len() > 0 && !white("MOV-DEL-"@[0]),
        "CNT-"@.len() > 0 && !white("CNT-"@[0]),
{
    reveal_strlit("MOV-");
    reveal_strlit("MOV-DEL-");
    reveal_strlit("CNT-");
}

// ----- the records -----

proof fn lemma_new_user_named(input: Json, fallback: Seq<char>, salt: Seq<char>, created: Seq<char>)
    ensures
        is_named(new_user(input, fallback, salt, created), "users"@, new_name(input)),
{
    lemma_own_fields();
    law_plain_is_tidy(field(input, "loginCode"@));
    law_plain_is_tidy(field(input, "username"@));
    lemma_reads(new_name(input));
    reveal_strlit("username");
    reveal_strlit("displayName");
    reveal_strlit("passwordHash");
    reveal_strlit("salt");
    reveal_strlit("role");
    reveal_strlit("pin");
    reveal_strlit("active");
    reveal_strlit("createdAt");
    reveal_strlit("lastLogin");
    assert("username"@.len() == 8 && "displayName"@.len() == 11 && "passwordHash"@.len() == 12
        && "salt"@.len() == 4 && "role"@.len() == 4 && "pin"@.len() == 3 && "active"@.len() == 6
        && "createdAt"@.len() == 9 && "lastLogin"@.len() == 9);
    assert(field(new_user(input, fallback, salt, created), "username"@) == Some(
        Json::Text(new_name(input)),
    ));
}

proof fn lemma_edited_user_named(u: Json, payload: Json, salt: Seq<char>)
    requires
        u is Object,
    ensures
        is_named(
            edited_user(u, payload, salt),
            "users"@,
            plain(field(payload, "username"@)),
        ),
{
    let name = plain(field(payload, "username"@));
    lemma_own_fields();
    law_plain_is_tidy(field(payload, "username"@));
    lemma_reads(name);
    reveal_strlit("username");
    reveal_strlit("displayName");
    reveal_strlit("passwordHash");
    reveal_strlit("salt");
    reveal_strlit("role");
    reveal_strlit("active");
    assert("username"@.len() == 8 && "displayName"@.len() == 11 && "passwordHash"@.len() == 12
        && "salt"@.len() == 4 && "role"@.len() == 4 && "active"@.len() == 6);
    assert(field(edited_user(u, payload, salt), "username"@) == Some(Json::Text(name)));
}

proof fn lemma_entry_named(kind: Seq<char>, payload: Json, now: i64, others: nat, store: Seq<char>)
    requires
        own_field(store) == "id"@,
    ensures
        is_named(
            entry_record(kind, payload, entry_id(payload, now), others),
            store,
            entry_id(payload, now),
        ),
{
    let id = entry_id(payload, now);
    law_plain_is_tidy(field(payload, "id"@));
    lemma_slug_tidy(plain(field(payload, "name"@)), now);
    lemma_reads(id);
    reveal_strlit("id");
    reveal_strlit("name");
    reveal_strlit("active");
    reveal_strlit("sortOrder");
    reveal_strlit("abbreviation");
    reveal_strlit("phone");
    reveal_strlit("notes");
    reveal_strlit("description");
    assert("id"@.len() == 2 && "name"@.len() == 4 && "active"@.len() == 6 && "sortOrder"@.len() == 9
        && "abbreviation"@.len() == 12 && "phone"@.len() == 5 && "notes"@.len() == 5
        && "description"@.len() == 11);
    assert(field(entry_record(kind, payload, id, others), "id"@) == Some(Json::Text(id)));
}

proof fn lemma_product_named(told: Json, sku: Seq<char>, stock: u64)
    requires
        tidy(sku),
    ensures
        is_named(product_record(told, sku, stock), "products"@, sku),
{
    lemma_own_fields();
    lemma_reads(sku);
    reveal_strlit("sku");
    reveal_strlit("barcode");
    reveal_strlit("name");
    reveal_strlit("category");
    reveal_strlit("presentation");
    reveal_strlit("supplier");
    reveal_strlit("unit");
    reveal_strlit("cost");
    reveal_strlit("price");
    reveal_strlit("costIva");
    reveal_strlit("priceIva");
    reveal_strlit("costWithoutIva");
    reveal_strlit("priceWithoutIva");
    reveal_strlit("stock");
    reveal_strlit("minStock");
    reveal_strlit("description");
    reveal_strlit("active");
    assert("sku"@.len() == 3 && "barcode"@.len() == 7 && "name"@.len() == 4 && "category"@.len() == 8
        && "presentation"@.len() == 12 && "supplier"@.len() == 8 && "unit"@.len() == 4
        && "cost"@.len() == 4 && "price"@.len() == 5 && "costIva"@.len() == 7 && "priceIva"@.len()
        == 8 && "costWithoutIva"@.len() == 14 && "priceWithoutIva"@.len() == 15 && "stock"@.len()
        == 5 && "minStock"@.len() == 8 && "description"@.len() == 11 && "active"@.len() == 6);
    assert(field(product_record(told, sku, stock), "sku"@) == Some(Json::Text(sku)));
}

/// The names of the fields of movements and counts are longer than `id`.
pub proof fn lemma_stock_fields()
    ensures
        "id"@.len() == 2,
        "timestamp"@.len() == 9,
        "type"@.len() == 4,
        "sku"@.len() == 3,
        "productName"@.len() == 11,
        "quantity"@.len() == 8,
        "stockBefore"@.len() == 11,
        "stockAfter"@.len() == 10,
        "unitCost"@.len() == 8,
        "totalCost"@.len() == 9,
        "reason"@.len() == 6,
        "reference"@.len() == 9,
        "user"@.len() == 4,
        "authorizedBy"@.len() == 12,
        "notes"@.len() == 5,
        "inventoryId"@.len() == 11,
        "barcode"@.len() == 7,
        "category"@.len() == 8,
        "presentation"@.len() == 12,
        "unit"@.len() == 4,
        "supplier"@.len() == 8,
        "systemStock"@.len() == 11,
        "countedStock"@.len() == 12,
        "difference"@.len() == 10,
        "itemsJson"@.len() == 9,
        "subtotal"@.len() == 8,
        "discount"@.len() == 8,
        "total"@.len() == 5,
        "paymentMethod"@.len() == 13,
        "profit"@.len() == 6,
        "stock"@.len() == 5,
        "lastLogin"@.len() == 9,
        "username"@.len() == 8,
{
    reveal_strlit("id");
    reveal_strlit("timestamp");
    reveal_strlit("type");
    reveal_strlit("sku");
    reveal_strlit("productName");
    reveal_strlit("quantity");
    reveal_strlit("stockBefore");
    reveal_strlit("stockAfter");
    reveal_strlit("unitCost");
    reveal_strlit("totalCost");
    reveal_strlit("reason");
    reveal_strlit("reference");
    reveal_strlit("user");
    reveal_strlit("authorizedBy");
    reveal_strlit("notes");
    reveal_strlit("inventoryId");
    reveal_strlit("barcode");
    reveal_strlit("category");
    reveal_strlit("presentation");
    reveal_strlit("unit");
    reveal_strlit("supplier");
    reveal_strlit("systemStock");
    reveal_strlit("countedStock");
    reveal_strlit("difference");
    reveal_strlit("itemsJson");
    reveal_strlit("subtotal");
    reveal_strlit("discount");
    reveal_strlit("total");
    reveal_strlit("paymentMethod");
    reveal_strlit("profit");
    reveal_strlit("stock");
    reveal_strlit("lastLogin");
    reveal_strlit("username");
}

proof fn lemma_movement_named(id: Seq<char>, payload: Json, p: Json, user: Json, iso: Seq<char>)
    requires
        tidy(id),
    ensures
        is_named(movement_record(id, payload, p, user, iso), "moves"@, id),
{
    lemma_own_fields();
    lemma_stock_fields();
    lemma_reads(id);
    assert(field(movement_record(id, payload, p, user, iso), "id"@) == Some(Json::Text(id)));
}

proof fn lemma_deletion_named(
    id: Seq<char>,
    mv: Json,
    p: Option<Json>,
    deleted: Seq<char>,
    user: Json,
    allowing: Json,
    iso: Seq<char>,
)
    requires
        tidy(id),
    ensures
        is_named(deletion_record(id, mv, p, deleted, user, allowing, iso), "moves"@, id),
{
    lemma_own_fields();
    lemma_stock_fields();
    lemma_reads(id);
    assert(field(deletion_record(id, mv, p, deleted, user, allowing, iso), "id"@) == Some(
        Json::Text(id),
    ));
}

proof fn lemma_count_named(id: Seq<char>, payload: Json, p: Json, user: Json, m: MomentView)
    requires
        tidy(id),
    ensures
        is_named(count_record(id, payload, p, user, m), "counts"@, id),
{
    lemma_own_fields();
    lemma_stock_fields();
    lemma_reads(id);
    assert(field(count_record(id, payload, p, user, m), "id"@) == Some(Json::Text(id)));
}

proof fn lemma_adjustment_named(
    id: Seq<char>,
    count_id: Seq<char>,
    payload: Json,
    p: Json,
    user: Json,
    iso: Seq<char>,
)
    requires
        tidy(id),
    ensures
        is_named(adjustment_record(id, count_id, payload, p, user, iso), "moves"@, id),
{
    lemma_own_fields();
    lemma_stock_fields();
    lemma_reads(id);
    assert(field(adjustment_record(id, count_id, payload, p, user, iso), "id"@) == Some(
        Json::Text(id),
    ));
}

proof fn lemma_sale_movement_named(
    id: Seq<char>,
    p: Json,
    line: Json,
    before: u64,
    sale: Seq<char>,
    user: Json,
    iso: Seq<char>,
)
    requires
        tidy(id),
    ensures
        is_named(sale_movement(id, p, line, before, sale, user, iso), "moves"@, id),
{
    lemma_own_fields();
    lemma_stock_fields();
    lemma_reads(id);
    assert(field(sale_movement(id, p, line, before, sale, user, iso), "id"@) == Some(Json::Text(id)));
}

proof fn lemma_sale_named(
    payload: Json,
    millis: i64,
    items_json: Seq<char>,
    products: Seq<Json>,
    user: Json,
    iso: Seq<char>,
)
    ensures
        is_named(
            sale_record(sale_id(payload, millis), payload, items_json, products, user, iso),
            "sales"@,
            sale_id(payload, millis),
        ),
{
    let id = sale_id(payload, millis);
    lemma_own_fields();
    lemma_stock_fields();
    law_plain_is_tidy(field(payload, "clientId"@));
    law_plain_is_tidy(field(payload, "id"@));
    lemma_decimal_tidy(millis as int);
    reveal_strlit("SALE-");
    assert(tidy("SALE-"@ + decimal(millis as int)));
    lemma_reads(id);
    assert(field(sale_record(id, payload, items_json, products, user, iso), "id"@) == Some(
        Json::Text(id),
    ));
}

// ----- the operations -----

pub proof fn lemma_create_user_in_order(shop: ShopView, input: Json, fallback: Seq<char>, m: MomentView)
    requires
        in_order(shop.db),
    ensures
        in_order(create_user_outcome(shop, input, fallback, m).shop.db),
{
    let salt = next_token(shop, m);
    lemma_new_user_named(input, fallback, salt, m.iso);
    lemma_put_in_order(shop.db, "users"@, new_name(input), new_user(input, fallback, salt, m.iso));
}

/// Whoever is let in stands among the users under the name of the session.
pub proof fn lemma_picked(db: StoreView, payload: Json, at: int, name: Seq<char>)
    requires
        in_order(db),
        pick(db.list("users"@), claimed(payload)) == (Pick::User { at, name }),
    ensures
        0 <= at < db.list("users"@).len(),
        db.item("users"@, name) == Some(db.list("users"@)[at]),
        is_active(db.list("users"@)[at]),
        plain(field(db.list("users"@)[at], "username"@)) == name,
{
    let users = db.list("users"@);
    let c = claimed(payload);
    lemma_own_fields();
    let holders = keyholders(users, single_key(c));
    if lets_in(users, c.username, c.password) {
        lemma_first_user(users, c.username);
    } else if lets_in(users, c.password, c.username) {
        lemma_first_user(users, c.password);
    } else if c.code.len() > 0 && lets_in(users, c.code, c.code) {
        lemma_first_user(users, c.code);
    } else {
        lemma_some_true(holders);
    }
    lemma_named(db, "users"@, at);
}

/// The first active user with a name has that name and is active.
pub proof fn lemma_first_user(users: Seq<Json>, name: Seq<char>)
    ensures
        0 <= first_user(users, name) <= users.len(),
        first_user(users, name) < users.len() ==> is_active(users[first_user(users, name)]) && plain(
            field(users[first_user(users, name)], "username"@),
        ) == name,
{
    let bs = users.map_values(|u: Json| has_text(u, "username"@, name) && is_active(u));
    lemma_first_true(bs);
    if first_user(users, name) < users.len() {
        assert(bs[first_user(users, name)]);
    }
}

pub proof fn lemma_login_in_order(shop: ShopView, payload: Json, m: MomentView)
    requires
        in_order(shop.db),
    ensures
        in_order(login_outcome(shop, payload, m).shop.db),
{
    if let Pick::User { at, name } = pick(shop.db.list("users"@), claimed(payload)) {
        lemma_picked(shop.db, payload, at, name);
        lemma_own_fields();
        lemma_stock_fields();
        let patch = Json::Object(Map::empty().insert("lastLogin"@, Json::Text(m.iso)));
        lemma_patch_in_order(shop.db, "users"@, name, patch);
    }
}

pub proof fn lemma_save_user_in_order(shop: ShopView, key: Seq<char>, payload: Json, m: MomentView)
    requires
        in_order(shop.db),
    ensures
        in_order(save_user_outcome(shop, key, payload, m).shop.db),
{
    let users = shop.db.list("users"@);
    let editing = plain(field(payload, "editingUsername"@));
    let name = plain(field(payload, "username"@));
    let i = first_with(users, "username"@, editing);
    let now = touched(shop, key, m.millis);
    lemma_own_fields();
    law_found(shop.db, "users"@, editing);
    if i < users.len() {
        lemma_named(shop.db, "users"@, i);
        let record = edited_user(users[i], payload, next_token(now, m));
        lemma_edited_user_named(users[i], payload, next_token(now, m));
        lemma_put_in_order(shop.db, "users"@, name, record);
        lemma_delete_in_order(shop.db.put("users"@, name, record), "users"@, editing);
    }
    lemma_create_user_in_order(now, payload, "cajero"@, m);
}

proof fn lemma_delete_user_in_order(shop: ShopView, key: Seq<char>, payload: Json, now: i64)
    requires
        in_order(shop.db),
    ensures
        in_order(delete_user_outcome(shop, key, payload, now).shop.db),
{
    lemma_delete_in_order(shop.db, "users"@, plain(field(payload, "username"@)));
}

proof fn lemma_settings_in_order(shop: ShopView, key: Seq<char>, payload: Json, text: Seq<char>, now: i64)
    requires
        in_order(shop.db),
    ensures
        in_order(save_settings_outcome(shop, key, payload, text, now).shop.db),
{
    lemma_own_fields();
    reveal_strlit("key");
    reveal_strlit("value");
    reveal_strlit("app");
    assert("key"@.len() == 3 && "value"@.len() == 5);
    lemma_reads("app"@);
    assert(field(settings_record(text), "key"@) == Some(Json::Text("app"@)));
    lemma_put_in_order(shop.db, "settings"@, "app"@, settings_record(text));
}

proof fn lemma_catalog_in_order(shop: ShopView, key: Seq<char>, payload: Json, now: i64)
    requires
        in_order(shop.db),
    ensures
        in_order(save_catalog_outcome(shop, key, payload, now).shop.db),
        in_order(delete_catalog_outcome(shop, key, payload, now).shop.db),
{
    let kind = plain(field(payload, "kind"@));
    lemma_own_fields();
    if let Some(store) = crate::rules::catalog_name(kind) {
        let others = shop.db.list(store).len();
        let id = entry_id(payload, now);
        lemma_entry_named(kind, payload, now, others, store);
        lemma_put_in_order(shop.db, store, id, entry_record(kind, payload, id, others));
        lemma_delete_in_order(shop.db, store, plain(field(payload, "id"@)));
    }
}

/// The code under which a product is saved is never empty and has no white space at its ends.
pub proof fn lemma_saved_sku(products: Seq<Json>, payload: Json, now: i64)
    ensures
        tidy(saved_sku(products, payload, now)),
        saved_sku(products, payload, now).len() > 0,
{
    let told = product_told(payload);
    law_plain_is_tidy(field(told, "sku"@));
    if let Some(e) = edited_product(products, payload) {
        law_plain_is_tidy(field(e, "sku"@));
    }
    lemma_new_sku_tidy(products, plain(field(told, "category"@)), now);
}

proof fn lemma_product_in_order(shop: ShopView, key: Seq<char>, payload: Json, now: i64)
    requires
        in_order(shop.db),
    ensures
        in_order(save_product_outcome(shop, key, payload, now).shop.db),
        in_order(delete_product_outcome(shop, key, payload, now).shop.db),
{
    let products = shop.db.list("products"@);
    let told = product_told(payload);
    let sku = saved_sku(products, payload, now);
    lemma_saved_sku(products, payload, now);
    let stock = match edited_product(products, payload) {
        Some(e) => crate::json::amount(field(e, "stock"@)),
        None => crate::json::amount(field(told, "stock"@)),
    };
    let record = product_record(told, sku, stock);
    lemma_product_named(told, sku, stock);
    lemma_put_in_order(shop.db, "products"@, sku, record);
    if let Some(e) = edited_product(products, payload) {
        lemma_delete_in_order(
            shop.db.put("products"@, sku, record),
            "products"@,
            plain(field(e, "sku"@)),
        );
    }
    lemma_delete_in_order(shop.db, "products"@, plain(field(payload, "sku"@)));
}

/// Setting the stock of a product that there is keeps the order, and every product stays.
pub proof fn lemma_stock_in_order(db: StoreView, sku: Seq<char>, stock: u64)
    requires
        in_order(db),
        db.item("products"@, sku) is Some,
    ensures
        in_order(db.patch("products"@, sku, stock_patch(stock))),
        forall|s: Seq<char>|
            db.item("products"@, s) is Some ==> #[trigger] db.patch(
                "products"@,
                sku,
                stock_patch(stock),
            ).item("products"@, s) is Some,
{
    lemma_own_fields();
    lemma_stock_fields();
    assert(stock_patch(stock)->Object_0.dom() =~= set!["stock"@]);
    lemma_patch_in_order(db, "products"@, sku, stock_patch(stock));
}

pub proof fn lemma_movement_in_order(shop: ShopView, key: Seq<char>, payload: Json, m: MomentView)
    requires
        in_order(shop.db),
    ensures
        in_order(movement_outcome(shop, key, payload, m).shop.db),
{
    let products = shop.db.list("products"@);
    let sku = plain(field(payload, "sku"@));
    let i = first_with(products, "sku"@, sku);
    lemma_own_fields();
    law_found(shop.db, "products"@, sku);
    if i < products.len() {
        if let Ok(user) = authorized(shop, key, managers(), m.millis) {
            let id = stamped_id("MOV-"@, m.millis, suffix(next_token(shop, m)));
            let stock = crate::double::sum(
                crate::json::amount(field(products[i], "stock"@)),
                crate::stock::movement_quantity(payload),
            );
            lemma_marks();
            lemma_suffix_tidy(shop, m);
            lemma_stamped_tidy("MOV-"@, m.millis, suffix(next_token(shop, m)));
            lemma_stock_in_order(shop.db, sku, stock);
            lemma_movement_named(id, payload, products[i], user, m.iso);
            lemma_put_in_order(
                shop.db.patch("products"@, sku, stock_patch(stock)),
                "moves"@,
                id,
                movement_record(id, payload, products[i], user, m.iso),
            );
        }
    }
}

proof fn lemma_take_back_in_order(
    shop: ShopView,
    mv: Json,
    deleted: Seq<char>,
    user: Json,
    allowing: Json,
    m: MomentView,
)
    requires
        in_order(shop.db),
    ensures
        in_order(take_back(shop, mv, deleted, user, allowing, m).shop.db),
{
    let sku = plain(field(mv, "sku"@));
    let quantity = crate::json::amount(field(mv, "quantity"@));
    let p = product_with(shop.db.list("products"@), sku);
    lemma_own_fields();
    law_found(shop.db, "products"@, sku);
    let stocked = match p {
        Some(p) => shop.db.patch(
            "products"@,
            sku,
            stock_patch(
                crate::double::difference(crate::json::amount(field(p, "stock"@)), quantity),
            ),
        ),
        None => shop.db,
    };
    if let Some(p) = p {
        lemma_stock_in_order(
            shop.db,
            sku,
            crate::double::difference(crate::json::amount(field(p, "stock"@)), quantity),
        );
    }
    let id = stamped_id("MOV-DEL-"@, m.millis, suffix(next_token(shop, m)));
    lemma_marks();
    lemma_suffix_tidy(shop, m);
    lemma_stamped_tidy("MOV-DEL-"@, m.millis, suffix(next_token(shop, m)));
    let record = deletion_record(id, mv, p, deleted, user, allowing, m.iso);
    lemma_deletion_named(id, mv, p, deleted, user, allowing, m.iso);
    lemma_delete_in_order(stocked, "moves"@, deleted);
    lemma_put_in_order(stocked.delete("moves"@, deleted), "moves"@, id, record);
}

proof fn lemma_delete_movement_in_order(shop: ShopView, key: Seq<char>, payload: Json, m: MomentView)
    requires
        in_order(shop.db),
    ensures
        in_order(delete_movement_outcome(shop, key, payload, m).shop.db),
{
    let moves = shop.db.list("moves"@);
    let id = plain(field(payload, "id"@));
    let i = first_with(moves, "id"@, id);
    if let Ok(user) = authorized(shop, key, managers(), m.millis) {
        if let Ok(allowing) = allowed_by(shop.db.list("users"@), payload, user) {
            lemma_take_back_in_order(
                touched(shop, key, m.millis),
                moves[i],
                id,
                user,
                allowing,
                m,
            );
        }
    }
}

pub proof fn lemma_count_in_order(shop: ShopView, key: Seq<char>, payload: Json, m: MomentView)
    requires
        in_order(shop.db),
    ensures
        in_order(count_outcome(shop, key, payload, m).shop.db),
{
    let products = shop.db.list("products"@);
    let sku = plain(field(payload, "sku"@));
    let i = first_with(products, "sku"@, sku);
    lemma_own_fields();
    law_found(shop.db, "products"@, sku);
    if i < products.len() {
        if let Ok(user) = authorized(shop, key, managers(), m.millis) {
            let id = stamped_id("CNT-"@, m.millis, suffix(next_token(shop, m)));
            let record = count_record(id, payload, products[i], user, m);
            let counted_stock = crate::json::amount(field(payload, "countedStock"@));
            let put = shop.db.put("counts"@, id, record);
            let stocked = put.patch("products"@, sku, stock_patch(counted_stock));
            let move_id = stamped_id("MOV-"@, m.millis, sku);
            lemma_marks();
            lemma_suffix_tidy(shop, m);
            law_plain_is_tidy(field(payload, "sku"@));
            lemma_stamped_tidy("CNT-"@, m.millis, suffix(next_token(shop, m)));
            lemma_stamped_tidy("MOV-"@, m.millis, sku);
            lemma_count_named(id, payload, products[i], user, m);
            lemma_put_in_order(shop.db, "counts"@, id, record);
            law_put(shop.db, "counts"@, id, record);
            assert(put.item("products"@, sku) is Some);
            lemma_stock_in_order(put, sku, counted_stock);
            lemma_adjustment_named(move_id, id, payload, products[i], user, m.iso);
            lemma_put_in_order(
                stocked,
                "moves"@,
                move_id,
                adjustment_record(move_id, id, payload, products[i], user, m.iso),
            );
        }
    }
}

pub proof fn lemma_sold_in_order(
    db: StoreView,
    lines: Seq<Json>,
    sale: Seq<char>,
    user: Json,
    m: MomentView,
    clock: Seq<i64>,
)
    requires
        in_order(db),
    ensures
        in_order(sold(db, db.list("products"@), lines, sale, user, m, clock)),
        forall|s: Seq<char>|
            db.item("products"@, s) is Some ==> #[trigger] sold(
                db,
                db.list("products"@),
                lines,
                sale,
                user,
                m,
                clock,
            ).item("products"@, s) is Some,
    decreases lines.len(),
{
    if lines.len() > 0 {
        let products = db.list("products"@);
        let line = lines.last();
        let sku = line_sku(line);
        let before = sold(db, products, lines.drop_last(), sale, user, m, clock);
        lemma_sold_in_order(db, lines.drop_last(), sale, user, m, clock);
        lemma_own_fields();
        law_found(db, "products"@, sku);
        if let Some(p) = product_with(products, sku) {
            let found = left_after(p, lines.drop_last(), sku);
            let left = left_after(p, lines, sku);
            let id = stamped_id(
                "MOV-"@,
                crate::sales::tick(clock, lines.len() - 1, m.millis),
                sku,
            );
            assert(before.item("products"@, sku) is Some);
            lemma_stock_in_order(before, sku, left);
            let stocked = before.patch("products"@, sku, stock_patch(left));
            let record = sale_movement(id, p, line, found, sale, user, m.iso);
            lemma_marks();
            law_plain_is_tidy(field(line, "sku"@));
            lemma_stamped_tidy(
                "MOV-"@,
                crate::sales::tick(clock, lines.len() - 1, m.millis),
                sku,
            );
            lemma_sale_movement_named(id, p, line, found, sale, user, m.iso);
            lemma_put_in_order(stocked, "moves"@, id, record);
            law_put(stocked, "moves"@, id, record);
        }
    }
}

pub proof fn lemma_checkout_in_order(
    shop: ShopView,
    key: Seq<char>,
    payload: Json,
    text: Seq<char>,
    m: MomentView,
    clock: Seq<i64>,
)
    requires
        in_order(shop.db),
    ensures
        in_order(checkout_outcome(shop, key, payload, text, m, clock).shop.db),
{
    let products = shop.db.list("products"@);
    let lines = items_of(payload);
    let id = sale_id(payload, m.millis);
    if let Ok(user) = authorized(shop, key, staff(), m.millis) {
        lemma_sold_in_order(shop.db, lines, id, user, m, clock);
        lemma_sale_named(payload, m.millis, text, products, user, m.iso);
        lemma_put_in_order(
            sold(shop.db, products, lines, id, user, m, clock),
            "sales"@,
            id,
            sale_record(id, payload, text, products, user, m.iso),
        );
    }
}

proof fn lemma_queue_in_order(
    shop: ShopView,
    key: Seq<char>,
    items: Seq<Json>,
    texts: Seq<Seq<char>>,
    rs: Seq<ReadingView>,
)
    requires
        in_order(shop.db),
    ensures
        in_order(queue_run(shop, key, items, texts, rs).0.db),
    decreases items.len(),
{
    if items.len() > 0 {
        let i = items.len() - 1;
        lemma_queue_in_order(shop, key, items.drop_last(), texts, rs);
        lemma_checkout_in_order(
            queue_run(shop, key, items.drop_last(), texts, rs).0,
            key,
            queued(items[i]),
            items_text(texts, i),
            rs[i].m,
            rs[i].clock,
        );
    }
}

/// Every operation keeps the records in order. So it always holds that no two users have the same
/// name, no two products the same code, and no two sales, movements, counts or entries of a
/// catalogue the same identifier.
pub proof fn law_records_stay_in_order(shop: ShopView, q: Request)
    requires
        in_order(shop.db),
    ensures
        in_order(served(shop, q).shop.db),
{
    let now = q.m.millis;
    if q.op == "setup_admin"@ {
        lemma_create_user_in_order(shop, as_admin(q.payload), "admin"@, q.m);
    } else if q.op == "login"@ {
        lemma_login_in_order(shop, q.payload, q.m);
    } else if q.op == "save_user"@ {
        lemma_save_user_in_order(shop, q.key, q.payload, q.m);
    } else if q.op == "delete_user"@ {
        lemma_delete_user_in_order(shop, q.key, q.payload, now);
    } else if q.op == "save_settings"@ {
        lemma_settings_in_order(shop, q.key, q.payload, q.texts.settings, now);
    } else if q.op == "save_catalog"@ || q.op == "delete_catalog"@ {
        lemma_catalog_in_order(shop, q.key, q.payload, now);
    } else if q.op == "save_product"@ || q.op == "delete_product"@ {
        lemma_product_in_order(shop, q.key, q.payload, now);
    } else if q.op == "movement"@ {
        lemma_movement_in_order(shop, q.key, q.payload, q.m);
    } else if q.op == "delete_movement"@ {
        lemma_delete_movement_in_order(shop, q.key, q.payload, q.m);
    } else if q.op == "count"@ {
        lemma_count_in_order(shop, q.key, q.payload, q.m);
    } else if q.op == "checkout"@ {
        lemma_checkout_in_order(shop, q.key, q.payload, q.texts.items, q.m, q.clock);
    } else if q.op == "sync_batch"@ {
        lemma_queue_in_order(
            touched(shop, q.key, now),
            q.key,
            items_of(q.payload),
            q.texts.queue,
            q.rs,
        );
    }
}

/// An empty store is in order.
pub proof fn law_empty_store_in_order(db: StoreView)
    requires
        db.rows.len() == 0,
    ensures
        in_order(db),
{
}

} // verus!
