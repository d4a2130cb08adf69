//! The operations on products.

use crate::catalogs::authorize_manager;
use crate::json::{
    amount, clean_text, field, float, from_double, from_fields, from_text, jsons, no_fields,
    not_false, num_of, or_else, plain, put_field, text_or, Json, Value,
};
use crate::lists::{
    any_with, count_with, find_with, first_with, has_text, has_with, is_active, lemma_first_true,
    number_with,
};
use crate::reply::{yes, yes_fields};
use crate::rules::{iva_of, iva_parts, net_of, slug_at, slug_of};
use crate::shop::{outcome, Outcome, Shop, ShopView};
use crate::store::{create_item, delete_item, list_items};
use crate::text::{
    capital, chars_of, lemma_number_of, numeral, padded, padded_text, same_text, text_of,
    to_capitals,
};
use crate::users::{authorized, managers, touched};
use vstd::prelude::*;
use vstd::set_lib::{lemma_int_range, lemma_len_subset, set_int_range};

verus! {

// ----- codes of products -----

/// `s` without its underscores.
pub open spec fn joined(s: Seq<char>) -> Seq<char>
    decreases s.len(),
{
    if s.len() == 0 {
        s
    } else if s.last() == '_' {
        joined(s.drop_last())
    } else {
        joined(s.drop_last()).push(s.last())
    }
}

/// The first four characters, or fewer.
pub open spec fn first_four(s: Seq<char>) -> Seq<char> {
    if s.len() > 4 {
        s.take(4)
    } else {
        s
    }
}

/// How the code of a product of a category starts.
pub open spec fn sku_prefix(category: Seq<char>, now: i64) -> Seq<char> {
    let letters = joined(slug_of(or_else(category, "producto"@), now)).map_values(
        |c: char| capital(c),
    );
    or_else(first_four(letters), "PROD"@)
}

/// The code with a number.
pub open spec fn sku_with(prefix: Seq<char>, n: nat) -> Seq<char> {
    prefix + "-"@ + padded(numeral(n, 10), 4)
}

/// Whether a product has the code with a number.
pub open spec fn sku_taken(products: Seq<Json>, prefix: Seq<char>, n: nat) -> bool {
    any_with(products, "sku"@, sku_with(prefix, n))
}

/// Whether `n` is the first number from `start` on whose code is free.
pub open spec fn is_free_number(products: Seq<Json>, prefix: Seq<char>, start: nat, n: nat) -> bool {
    &&& start <= n
    &&& !sku_taken(products, prefix, n)
    &&& forall|k: nat| start <= k < n ==> #[trigger] sku_taken(products, prefix, k)
}

/// The first number from `start` on whose code is free.
pub open spec fn free_number(products: Seq<Json>, prefix: Seq<char>, start: nat) -> nat {
    choose|n: nat| is_free_number(products, prefix, start, n)
}

/// The code for a new product of a category: numbered behind the products of the category.
pub open spec fn new_sku(products: Seq<Json>, category: Seq<char>, now: i64) -> Seq<char> {
    let prefix = sku_prefix(category, now);
    let start = count_with(products, "category"@, category) + 1;
    sku_with(prefix, free_number(products, prefix, start))
}

/// Different numbers give different codes.
pub proof fn lemma_sku_with(prefix: Seq<char>, n: nat, m: nat)
    ensures
        sku_with(prefix, n) == sku_with(prefix, m) ==> n == m,
{
    let a = padded(numeral(n, 10), 4);
    let b = padded(numeral(m, 10), 4);
    if sku_with(prefix, n) == sku_with(prefix, m) {
        let head = (prefix + "-"@).len() as int;
        assert(a =~= sku_with(prefix, n).skip(head));
        assert(b =~= sku_with(prefix, m).skip(head));
        lemma_number_of(n, 10, 4);
        lemma_number_of(m, 10, 4);
    }
}

/// Only as many codes can be taken as there are products.
proof fn lemma_taken(products: Seq<Json>, prefix: Seq<char>, start: nat, n: nat)
    requires
        start <= n,
        forall|k: nat| start <= k < n ==> #[trigger] sku_taken(products, prefix, k),
    ensures
        n - start <= products.len(),
{
    let at = |i: int| first_with(products, "sku"@, sku_with(prefix, (start + i) as nat));
    let places: Seq<int> = Seq::new((n - start) as nat, at);
    assert forall|i: int| 0 <= i < places.len() implies 0 <= #[trigger] places[i] < products.len()
        && has_text(products[places[i]], "sku"@, sku_with(prefix, (start + i) as nat)) by {
        assert(sku_taken(products, prefix, (start + i) as nat));
        lemma_first_true(
            products.map_values(
                |r: Json| has_text(r, "sku"@, sku_with(prefix, (start + i) as nat)),
            ),
        );
    }
    assert(places.no_duplicates()) by {
        assert forall|i: int, j: int|
            0 <= i < places.len() && 0 <= j < places.len() && i != j implies places[i]
            != places[j] by {
            lemma_sku_with(prefix, (start + i) as nat, (start + j) as nat);
        }
    }
    places.unique_seq_to_set();
    lemma_int_range(0, products.len() as int);
    assert(places.to_set().subset_of(set_int_range(0, products.len() as int))) by {
        assert forall|p: int| places.to_set().contains(p) implies set_int_range(
            0,
            products.len() as int,
        ).contains(p) by {
            let i = choose|i: int| 0 <= i < places.len() && places[i] == p;
            assert(places[i] == p);
        }
    }
    lemma_len_subset(places.to_set(), set_int_range(0, products.len() as int));
}

/// There is a first number whose code is free.
pub proof fn lemma_free_number(products: Seq<Json>, prefix: Seq<char>, start: nat)
    ensures
        is_free_number(products, prefix, start, free_number(products, prefix, start)),
{
    lemma_free_number_from(products, prefix, start, start);
}

proof fn lemma_free_number_from(products: Seq<Json>, prefix: Seq<char>, start: nat, n: nat)
    requires
        start <= n,
        forall|k: nat| start <= k < n ==> #[trigger] sku_taken(products, prefix, k),
    ensures
        exists|m: nat| is_free_number(products, prefix, start, m),
    decreases products.len() + start + 1 - n,
{
    lemma_taken(products, prefix, start, n);
    if sku_taken(products, prefix, n) {
        lemma_free_number_from(products, prefix, start, n + 1);
    } else {
        assert(is_free_number(products, prefix, start, n));
    }
}

/// The code with a number.
fn make_sku(prefix: &str, n: u128) -> (r: String)
    ensures
        r@ == sku_with(prefix@, n as nat),
{
    let mut r: String = prefix.to_owned();
    r.append("-");
    r.append(padded_text(n, 10, 4).as_str());
    r
}

/// How the code of a product of a category starts.
fn make_prefix(category: &str, now: i64) -> (r: String)
    ensures
        r@ == sku_prefix(category@, now),
{
    let source: String = text_or(category.to_owned(), "producto");
    let cs: Vec<char> = chars_of(slug_at(source.as_str(), now).as_str());
    let mut kept: Vec<char> = Vec::new();
    let mut i: usize = 0;
    while i < cs.len()
        invariant
            i <= cs@.len(),
            kept@ == joined(cs@.take(i as int)),
        decreases cs@.len() - i,
    {
        proof {
            assert(cs@.take(i + 1).drop_last() =~= cs@.take(i as int));
        }
        if cs[i] != '_' {
            kept.push(cs[i]);
        }
        i = i + 1;
    }
    proof {
        assert(cs@.take(i as int) =~= cs@);
    }
    let n: usize = if kept.len() > 4 {
        4
    } else {
        kept.len()
    };
    let short: String = to_capitals(text_of(&kept, 0, n).as_str());
    proof {
        assert(kept@.subrange(0, n as int).map_values(|c: char| capital(c)) =~= first_four(
            kept@.map_values(|c: char| capital(c)),
        ));
    }
    text_or(short, "PROD")
}

/// The code for a new product of a category.
fn make_new_sku(products: &Vec<Value>, category: &str, now: i64) -> (r: String)
    ensures
        r@ == new_sku(jsons(products@), category@, now),
        !any_with(jsons(products@), "sku"@, r@),
{
    let ghost list = jsons(products@);
    let prefix: String = make_prefix(category, now);
    let total: usize = products.len();
    let start: u128 = number_with(products, "category", category) as u128 + 1;
    let mut n: u128 = start;
    let mut candidate: String = make_sku(prefix.as_str(), n);
    while has_with(products, "sku", candidate.as_str())
        invariant
            list == jsons(products@),
            total == products@.len(),
            start <= n,
            start <= usize::MAX as u128 + 1,
            candidate@ == sku_with(prefix@, n as nat),
            forall|k: nat| start <= k < n ==> #[trigger] sku_taken(list, prefix@, k),
            n - start <= products@.len(),
        decreases products@.len() + start - n,
    {
        proof {
            assert(sku_taken(list, prefix@, n as nat));
            lemma_taken(list, prefix@, start as nat, (n + 1) as nat);
        }
        n = n + 1;
        candidate = make_sku(prefix.as_str(), n);
    }
    proof {
        assert(is_free_number(list, prefix@, start as nat, n as nat));
        let m = free_number(list, prefix@, start as nat);
        assert(is_free_number(list, prefix@, start as nat, m));
        if m < n {
            assert(sku_taken(list, prefix@, m));
        } else if n < m {
            assert(sku_taken(list, prefix@, n as nat));
        }
    }
    candidate
}

// ----- saving -----

/// What a request says of a product.
pub open spec fn product_told(payload: Json) -> Json {
    match field(payload, "record"@) {
        Some(r) => r,
        None => payload,
    }
}

/// The code of the product that is edited; empty where a new one is made.
pub open spec fn editing_sku(payload: Json) -> Seq<char> {
    or_else(
        plain(field(payload, "editingSku"@)),
        plain(field(product_told(payload), "editingSku"@)),
    )
}

/// The product that is edited.
pub open spec fn edited_product(products: Seq<Json>, payload: Json) -> Option<Json> {
    let i = first_with(products, "sku"@, editing_sku(payload));
    if editing_sku(payload).len() > 0 && i < products.len() {
        Some(products[i])
    } else {
        None
    }
}

/// The code under which a product is saved: the one in the request, or else the one that it has,
/// or else a new one.
pub open spec fn saved_sku(products: Seq<Json>, payload: Json, now: i64) -> Seq<char> {
    let told = product_told(payload);
    let kept = match edited_product(products, payload) {
        Some(e) => plain(field(e, "sku"@)),
        None => Seq::empty(),
    };
    or_else(
        or_else(plain(field(told, "sku"@)), kept),
        new_sku(products, plain(field(told, "category"@)), now),
    )
}

/// The record of a product: what the request says, with the tax in its cost and price worked out.
pub open spec fn product_record(told: Json, sku: Seq<char>, stock: u64) -> Json {
    let cost = amount(field(told, "cost"@));
    let price = amount(field(told, "price"@));
    Json::Object(
        Map::empty()
            .insert("sku"@, Json::Text(sku))
            .insert("barcode"@, Json::Text(plain(field(told, "barcode"@))))
            .insert("name"@, Json::Text(plain(field(told, "name"@))))
            .insert("category"@, Json::Text(plain(field(told, "category"@))))
            .insert("presentation"@, Json::Text(plain(field(told, "presentation"@))))
            .insert("supplier"@, Json::Text(plain(field(told, "supplier"@))))
            .insert("unit"@, Json::Text(or_else(plain(field(told, "unit"@)), "pieza"@)))
            .insert("cost"@, float(cost))
            .insert("price"@, float(price))
            .insert("costIva"@, float(iva_of(cost)))
            .insert("priceIva"@, float(iva_of(price)))
            .insert("costWithoutIva"@, float(net_of(cost)))
            .insert("priceWithoutIva"@, float(net_of(price)))
            .insert("stock"@, float(stock))
            .insert("minStock"@, float(amount(field(told, "minStock"@))))
            .insert("description"@, Json::Text(plain(field(told, "description"@))))
            .insert("active"@, Json::Bool(is_active(told))),
    )
}

/// Saving a product. One that exists keeps its stock, and may get another code that is free.
pub open spec fn save_product_outcome(
    shop: ShopView,
    key: Seq<char>,
    payload: Json,
    now: i64,
) -> Outcome {
    let after = touched(shop, key, now);
    let products = shop.db.list("products"@);
    let told = product_told(payload);
    let sku = saved_sku(products, payload, now);
    match authorized(shop, key, managers(), now) {
        Err(why) => after.fails(why),
        Ok(user) => match edited_product(products, payload) {
            Some(e) => {
                let before = plain(field(e, "sku"@));
                let record = product_record(told, sku, amount(field(e, "stock"@)));
                let put = after.db.put("products"@, sku, record);
                let said = Json::Object(yes().insert("product"@, record));
                if before == sku {
                    after.with_db(put).says(said)
                } else if any_with(products, "sku"@, sku) {
                    after.fails("Ese SKU ya existe"@)
                } else {
                    after.with_db(put.delete("products"@, before)).says(said)
                }
            },
            None => {
                let record = product_record(told, sku, amount(field(told, "stock"@)));
                after.with_db(after.db.put("products"@, sku, record)).says(
                    Json::Object(yes().insert("product"@, record)),
                )
            },
        },
    }
}

/// The record of a product.
fn make_product(told: &Value, sku: &str, stock: u64) -> (r: Value)
    ensures
        r@ == product_record(told@, sku@, stock),
{
    let cost: u64 = num_of(told.get("cost"));
    let price: u64 = num_of(told.get("price"));
    let (cost_iva, cost_net) = iva_parts(cost);
    let (price_iva, price_net) = iva_parts(price);
    let unit: String = text_or(clean_text(told.get("unit")), "pieza");
    let mut es: Vec<(String, Value)> = no_fields();
    put_field(&mut es, "sku", from_text(sku));
    put_field(&mut es, "barcode", Value::Text(clean_text(told.get("barcode"))));
    put_field(&mut es, "name", Value::Text(clean_text(told.get("name"))));
    put_field(&mut es, "category", Value::Text(clean_text(told.get("category"))));
    put_field(&mut es, "presentation", Value::Text(clean_text(told.get("presentation"))));
    put_field(&mut es, "supplier", Value::Text(clean_text(told.get("supplier"))));
    put_field(&mut es, "unit", Value::Text(unit));
    put_field(&mut es, "cost", from_double(cost));
    put_field(&mut es, "price", from_double(price));
    put_field(&mut es, "costIva", from_double(cost_iva));
    put_field(&mut es, "priceIva", from_double(price_iva));
    put_field(&mut es, "costWithoutIva", from_double(cost_net));
    put_field(&mut es, "priceWithoutIva", from_double(price_net));
    put_field(&mut es, "stock", from_double(stock));
    put_field(&mut es, "minStock", from_double(num_of(told.get("minStock"))));
    put_field(&mut es, "description", Value::Text(clean_text(told.get("description"))));
    put_field(&mut es, "active", Value::Bool(not_false(told.get("active"))));
    from_fields(es)
}

/// The place of the product that is edited.
fn find_edited(products: &Vec<Value>, payload: &Value, told: &Value) -> (r: Option<usize>)
    requires
        told@ == product_told(payload@),
    ensures
        match r {
            Some(i) => i < products@.len() && edited_product(jsons(products@), payload@) == Some(
                products@[i as int]@,
            ),
            None => edited_product(jsons(products@), payload@) is None,
        },
{
    let editing: String = text_or(
        clean_text(payload.get("editingSku")),
        clean_text(told.get("editingSku")).as_str(),
    );
    if editing.as_str().is_empty() {
        None
    } else {
        find_with(products, "sku", editing.as_str())
    }
}

/// Saves a product, at the moment `now`.
pub fn op_save_product_at(shop: &mut Shop, key: &str, payload: &Value, now: i64) -> (r: Result<
    Value,
    String,
>)
    requires
        old(shop).wf(),
    ensures
        final(shop).wf(),
        outcome(*final(shop), r) == save_product_outcome(old(shop)@, key@, payload@, now),
{
    match authorize_manager(shop, key, now) {
        Err(e) => Err(e),
        Ok(_) => {
            let told: Value = match payload.get("record") {
                Some(r) => r.copy(),
                None => payload.copy(),
            };
            let products: Vec<Value> = list_items(&shop.db, "products");
            let existing: Option<usize> = find_edited(&products, payload, &told);
            let mut sku: String = clean_text(told.get("sku"));
            if let Some(i) = existing {
                let kept: String = clean_text(products[i].get("sku"));
                sku = text_or(sku, kept.as_str());
            }
            if sku.as_str().is_empty() {
                let category: String = clean_text(told.get("category"));
                sku = make_new_sku(&products, category.as_str(), now);
            }
            let stock: u64 = match existing {
                Some(i) => num_of(products[i].get("stock")),
                None => num_of(told.get("stock")),
            };
            let record: Value = make_product(&told, sku.as_str(), stock);
            if let Some(i) = existing {
                let before: String = clean_text(products[i].get("sku"));
                if same_text(before.as_str(), sku.as_str()) {
                    create_item(&mut shop.db, "products", sku.as_str(), &record);
                } else {
                    if has_with(&products, "sku", sku.as_str()) {
                        return Err("Ese SKU ya existe".to_owned());
                    }
                    create_item(&mut shop.db, "products", sku.as_str(), &record);
                    delete_item(&mut shop.db, "products", before.as_str());
                }
            } else {
                create_item(&mut shop.db, "products", sku.as_str(), &record);
            }
            let mut out: Vec<(String, Value)> = yes_fields();
            put_field(&mut out, "product", record);
            Ok(from_fields(out))
        },
    }
}

/// Saves a product.
pub fn op_save_product(shop: &mut Shop, key: &str, payload: &Value) -> (r: Result<Value, String>)
    requires
        old(shop).wf(),
    ensures
        final(shop).wf(),
        exists|now: i64|
            outcome(*final(shop), r) == #[trigger] save_product_outcome(
                old(shop)@,
                key@,
                payload@,
                now,
            ),
{
    op_save_product_at(shop, key, payload, crate::clock::now_millis())
}

/// Deleting a product.
pub open spec fn delete_product_outcome(
    shop: ShopView,
    key: Seq<char>,
    payload: Json,
    now: i64,
) -> Outcome {
    let after = touched(shop, key, now);
    let sku = plain(field(payload, "sku"@));
    match authorized(shop, key, managers(), now) {
        Err(why) => after.fails(why),
        Ok(user) => if sku.len() == 0 {
            after.fails("Falta SKU"@)
        } else if !any_with(shop.db.list("products"@), "sku"@, sku) {
            after.fails("Producto no encontrado"@)
        } else {
            after.with_db(after.db.delete("products"@, sku)).says(Json::Object(yes()))
        },
    }
}

/// Deletes a product, at the moment `now`.
pub fn op_delete_product_at(shop: &mut Shop, key: &str, payload: &Value, now: i64) -> (r: Result<
    Value,
    String,
>)
    requires
        old(shop).wf(),
    ensures
        final(shop).wf(),
        outcome(*final(shop), r) == delete_product_outcome(old(shop)@, key@, payload@, now),
{
    match authorize_manager(shop, key, now) {
        Err(e) => Err(e),
        Ok(_) => {
            let sku: String = clean_text(payload.get("sku"));
            if sku.as_str().is_empty() {
                return Err("Falta SKU".to_owned());
            }
            let products: Vec<Value> = list_items(&shop.db, "products");
            if !has_with(&products, "sku", sku.as_str()) {
                return Err("Producto no encontrado".to_owned());
            }
            delete_item(&mut shop.db, "products", sku.as_str());
            Ok(from_fields(yes_fields()))
        },
    }
}

/// Deletes a product.
pub fn op_delete_product(shop: &mut Shop, key: &str, payload: &Value) -> (r: Result<
    Value,
    String,
>)
    requires
        old(shop).wf(),
    ensures
        final(shop).wf(),
        exists|now: i64|
            outcome(*final(shop), r) == #[trigger] delete_product_outcome(
                old(shop)@,
                key@,
                payload@,
                now,
            ),
{
    op_delete_product_at(shop, key, payload, crate::clock::now_millis())
}

} // verus!
