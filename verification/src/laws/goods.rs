//! Laws of products: under which code one is saved, what is written down of it, and what becomes of
//! its stock.

use crate::double::{difference, hundredth, product, whole};
use crate::json::{amount, field, plain, Json};
use crate::laws::inventory::{law_save_product, stock_of};
use crate::laws::movements::{holds, only_at, says, told_or};
use crate::laws::names::{law_new_sku_is_free, lemma_new_sku_tidy};
use crate::laws::records::{in_order, law_found, lemma_own_fields};
use crate::laws::words::{lemma_counts_words, lemma_product_words, lemma_stock_words, mark};
use crate::lists::{any_with, count_with};
use crate::products::{
    delete_product_outcome, edited_product, editing_sku, free_number, is_free_number, joined,
    lemma_free_number, new_sku, product_record, product_told, save_product_outcome, saved_sku,
    sku_prefix, sku_taken, sku_with,
};
use crate::rules::{slug_of, HUNDRED, IVA_RATE};
use crate::shop::ShopView;
use crate::store::{law_delete, StoreView};
use crate::text::{capital, numeral, padded};
use crate::users::{authorized, managers};
use vstd::prelude::*;

verus! {

// ----- what a request says -----

/// What a request says of a product: its record, or the request itself.
pub open spec fn told_of(payload: Json) -> Json {
    match field(payload, "record"@) {
        Some(r) => r,
        None => payload,
    }
}

/// The code of the product that a request edits; empty where it edits none.
pub open spec fn edits(payload: Json) -> Seq<char> {
    told_or(payload, "editingSku"@, plain(field(told_of(payload), "editingSku"@)))
}

/// The product that a request edits: the one that stands under the code.
pub open spec fn stands(db: StoreView, payload: Json) -> Option<Json> {
    if edits(payload).len() > 0 {
        db.item("products"@, edits(payload))
    } else {
        None
    }
}

/// The tax in an amount: sixteen hundredths of it, to the cent.
pub open spec fn tax_in(x: u64) -> u64 {
    hundredth(whole(product(product(x, IVA_RATE), HUNDRED)))
}

/// An amount without its tax, to the cent.
pub open spec fn without_tax(x: u64) -> u64 {
    hundredth(whole(product(difference(x, tax_in(x)), HUNDRED)))
}

/// What is written down of a product that is saved under a code with a stock.
pub open spec fn tells_product(r: Json, told: Json, sku: Seq<char>, stock: u64) -> bool {
    let cost = amount(field(told, "cost"@));
    let price = amount(field(told, "price"@));
    &&& says(r, "sku"@, sku)
    &&& says(r, "barcode"@, plain(field(told, "barcode"@)))
    &&& says(r, "name"@, plain(field(told, "name"@)))
    &&& says(r, "category"@, plain(field(told, "category"@)))
    &&& says(r, "presentation"@, plain(field(told, "presentation"@)))
    &&& says(r, "supplier"@, plain(field(told, "supplier"@)))
    &&& says(r, "unit"@, told_or(told, "unit"@, "pieza"@))
    &&& holds(r, "cost"@, cost)
    &&& holds(r, "price"@, price)
    &&& holds(r, "costIva"@, tax_in(cost))
    &&& holds(r, "priceIva"@, tax_in(price))
    &&& holds(r, "costWithoutIva"@, without_tax(cost))
    &&& holds(r, "priceWithoutIva"@, without_tax(price))
    &&& holds(r, "stock"@, stock)
    &&& holds(r, "minStock"@, amount(field(told, "minStock"@)))
    &&& says(r, "description"@, plain(field(told, "description"@)))
    &&& field(r, "active"@) == Some(
        Json::Bool(field(told, "active"@) != Some(Json::Bool(false))),
    )
    &&& r->Object_0.dom() == set![
        "sku"@,
        "barcode"@,
        "name"@,
        "category"@,
        "presentation"@,
        "supplier"@,
        "unit"@,
        "cost"@,
        "price"@,
        "costIva"@,
        "priceIva"@,
        "costWithoutIva"@,
        "priceWithoutIva"@,
        "stock"@,
        "minStock"@,
        "description"@,
        "active"@,
    ]
}

/// The names of the fields of a product, by their numbers.
proof fn lemma_own_words()
    ensures
        mark("sku"@) == 8190699,
        mark("barcode"@) == 16298723,
        mark("name"@) == 10203885,
        mark("category"@) == 18414823,
        mark("presentation"@) == 27015028,
        mark("supplier"@) == 18676076,
        mark("unit"@) == 10320489,
        mark("cost"@) == 10025587,
        mark("price"@) == 12333801,
        mark("costIva"@) == 16314612,
        mark("priceIva"@) == 18624741,
        mark("costWithoutIva"@) == 30994664,
        mark("priceWithoutIva"@) == 33304820,
        mark("stock"@) == 12383727,
        mark("minStock"@) == 18576884,
        mark("description"@) == 24721257,
        mark("active"@) == 14185193,
{
    lemma_stock_words();
    lemma_counts_words();
    lemma_product_words();
}

proof fn lemma_product_dom(told: Json, sku: Seq<char>, stock: u64)
    ensures
        product_record(told, sku, stock)->Object_0.dom() == set![
            "sku"@,
            "barcode"@,
            "name"@,
            "category"@,
            "presentation"@,
            "supplier"@,
            "unit"@,
            "cost"@,
            "price"@,
            "costIva"@,
            "priceIva"@,
            "costWithoutIva"@,
            "priceWithoutIva"@,
            "stock"@,
            "minStock"@,
            "description"@,
            "active"@,
        ],
{
    let r = product_record(told, sku, stock);
    assert(r->Object_0.dom() =~= set![
        "sku"@,
        "barcode"@,
        "name"@,
        "category"@,
        "presentation"@,
        "supplier"@,
        "unit"@,
        "cost"@,
        "price"@,
        "costIva"@,
        "priceIva"@,
        "costWithoutIva"@,
        "priceWithoutIva"@,
        "stock"@,
        "minStock"@,
        "description"@,
        "active"@,
    ]);
}

proof fn lemma_tells_product(told: Json, sku: Seq<char>, stock: u64)
    ensures
        tells_product(product_record(told, sku, stock), told, sku, stock),
{
    lemma_own_words();
    lemma_product_dom(told, sku, stock);
}

// ----- new codes -----

/// How the code of a new product starts: up to four letters and digits of the identifier of its
/// category, in capitals.
pub open spec fn code_start(category: Seq<char>, now: i64) -> Seq<char> {
    let name = if category.len() > 0 {
        category
    } else {
        "producto"@
    };
    let letters = slug_of(name, now).filter(|c: char| c != '_');
    if letters.len() == 0 {
        "PROD"@
    } else {
        letters.take(
            if letters.len() < 4 {
                letters.len() as int
            } else {
                4
            },
        ).map_values(|c: char| capital(c))
    }
}

/// A code: how it starts, and a number of at least four digits.
pub open spec fn code(start: Seq<char>, n: nat) -> Seq<char> {
    start + "-"@ + padded(numeral(n, 10), 4)
}

/// How many products of a list have a category.
pub open spec fn how_many(products: Seq<Json>, category: Seq<char>) -> nat
    decreases products.len(),
{
    if products.len() == 0 {
        0
    } else if plain(field(products.last(), "category"@)) == category {
        how_many(products.drop_last(), category) + 1
    } else {
        how_many(products.drop_last(), category)
    }
}

/// Whether some product of a list has a code.
pub open spec fn is_taken(products: Seq<Json>, sku: Seq<char>) -> bool {
    exists|i: int| 0 <= i < products.len() && plain(field(#[trigger] products[i], "sku"@)) == sku
}

proof fn lemma_joined_filter(s: Seq<char>)
    ensures
        joined(s) == s.filter(|c: char| c != '_'),
    decreases s.len(),
{
    reveal(Seq::filter);
    if s.len() > 0 {
        lemma_joined_filter(s.drop_last());
    }
}

proof fn lemma_code_start(category: Seq<char>, now: i64)
    ensures
        sku_prefix(category, now) == code_start(category, now),
{
    let name = crate::json::or_else(category, "producto"@);
    let letters = slug_of(name, now).filter(|c: char| c != '_');
    lemma_joined_filter(slug_of(name, now));
    let capitals = letters.map_values(|c: char| capital(c));
    assert(crate::products::first_four(capitals) =~= letters.take(
        if letters.len() < 4 {
            letters.len() as int
        } else {
            4
        },
    ).map_values(|c: char| capital(c)));
}

proof fn lemma_how_many(products: Seq<Json>, category: Seq<char>)
    ensures
        count_with(products, "category"@, category) == how_many(products, category),
    decreases products.len(),
{
    let bs = products.map_values(|r: Json| crate::lists::has_text(r, "category"@, category));
    if products.len() > 0 {
        let before = products.drop_last();
        lemma_how_many(before, category);
        assert(bs.drop_last() =~= before.map_values(
            |r: Json| crate::lists::has_text(r, "category"@, category),
        ));
    }
}

proof fn lemma_taken(products: Seq<Json>, sku: Seq<char>)
    ensures
        any_with(products, "sku"@, sku) == is_taken(products, sku),
{
    let bs = products.map_values(|r: Json| crate::lists::has_text(r, "sku"@, sku));
    crate::lists::lemma_first_true(bs);
    let i = crate::lists::first_true(bs);
    if i < products.len() {
        assert(bs[i]);
        assert(plain(field(products[i], "sku"@)) == sku);
    }
    if is_taken(products, sku) {
        let j = choose|j: int|
            0 <= j < products.len() && plain(field(#[trigger] products[j], "sku"@)) == sku;
        assert(bs[j]);
    }
}

/// A new code has the first number behind as many as there are products of the category whose code
/// no product has.
pub proof fn law_new_code(products: Seq<Json>, category: Seq<char>, now: i64)
    ensures
        exists|n: nat|
            {
                &&& new_sku(products, category, now) == #[trigger] code(code_start(category, now), n)
                &&& n > how_many(products, category)
                &&& !is_taken(products, code(code_start(category, now), n))
                &&& forall|k: nat|
                    how_many(products, category) < k < n ==> is_taken(
                        products,
                        #[trigger] code(code_start(category, now), k),
                    )
            },
{
    let prefix = sku_prefix(category, now);
    let start: nat = count_with(products, "category"@, category) + 1;
    lemma_code_start(category, now);
    lemma_how_many(products, category);
    lemma_free_number(products, prefix, start);
    let n = free_number(products, prefix, start);
    assert(is_free_number(products, prefix, start, n));
    assert(new_sku(products, category, now) == code(code_start(category, now), n));
    lemma_taken(products, sku_with(prefix, n));
    assert(!sku_taken(products, prefix, n));
    assert forall|k: nat| how_many(products, category) < k < n implies is_taken(
        products,
        #[trigger] code(code_start(category, now), k),
    ) by {
        assert(sku_taken(products, prefix, k));
        lemma_taken(products, sku_with(prefix, k));
    }
}

// ----- saving -----

/// The code under which a product is saved: the one that the request gives, or else the one that it
/// has, or else a new one.
pub open spec fn code_for(db: StoreView, payload: Json, now: i64) -> Seq<char> {
    let told = told_of(payload);
    told_or(
        told,
        "sku"@,
        if stands(db, payload) is Some {
            edits(payload)
        } else {
            new_sku(db.list("products"@), plain(field(told, "category"@)), now)
        },
    )
}

proof fn lemma_stands(db: StoreView, payload: Json, now: i64)
    requires
        in_order(db),
    ensures
        product_told(payload) == told_of(payload),
        editing_sku(payload) == edits(payload),
        edited_product(db.list("products"@), payload) == stands(db, payload),
        stands(db, payload) matches Some(e) ==> plain(field(e, "sku"@)) == edits(payload),
        saved_sku(db.list("products"@), payload, now) == code_for(db, payload, now),
{
    lemma_own_fields();
    law_found(db, "products"@, edits(payload));
}

/// A product that is edited keeps the stock of the one that stands under the code, whatever code
/// and whatever stock the request gives, the same code included; a new one has the stock that the
/// request gives. It is kept under its code and is the answer. Under another code than before it
/// leaves the one that it had, and no other product changes.
pub proof fn law_product_saved(shop: ShopView, key: Seq<char>, payload: Json, now: i64, user: Json)
    requires
        in_order(shop.db),
        authorized(shop, key, managers(), now) == Ok::<Json, Seq<char>>(user),
        !(stands(shop.db, payload) is Some && code_for(shop.db, payload, now) != edits(payload)
            && shop.db.item("products"@, code_for(shop.db, payload, now)) is Some),
    ensures
        ({
            let o = save_product_outcome(shop, key, payload, now);
            let sku = code_for(shop.db, payload, now);
            let r = o.shop.db.item("products"@, sku)->0;
            &&& o.shop.db.item("products"@, sku) is Some
            &&& o.reply == Ok::<Json, Seq<char>>(
                Json::Object(map!["ok"@ => Json::Bool(true), "product"@ => r]),
            )
            &&& tells_product(
                r,
                told_of(payload),
                sku,
                match stands(shop.db, payload) {
                    Some(e) => amount(field(e, "stock"@)),
                    None => amount(field(told_of(payload), "stock"@)),
                },
            )
            &&& stands(shop.db, payload) is Some && edits(payload) != sku ==> o.shop.db.item(
                "products"@,
                edits(payload),
            ) is None
            &&& forall|s: Seq<char>|
                s != sku && (stands(shop.db, payload) is Some ==> s != edits(payload))
                    ==> #[trigger] o.shop.db.item("products"@, s) == shop.db.item("products"@, s)
            &&& o.shop.source == shop.source
        }),
{
    let o = save_product_outcome(shop, key, payload, now);
    let products = shop.db.list("products"@);
    let sku = code_for(shop.db, payload, now);
    lemma_own_fields();
    lemma_stands(shop.db, payload, now);
    law_found(shop.db, "products"@, sku);
    let stock = match stands(shop.db, payload) {
        Some(e) => stock_of(e),
        None => stock_of(told_of(payload)),
    };
    assert(o.reply is Ok);
    law_save_product(shop, key, payload, now, user);
    lemma_tells_product(told_of(payload), sku, stock);
    let r = product_record(told_of(payload), sku, stock);
    assert(crate::reply::yes().insert("product"@, r) =~= map![
        "ok"@ => Json::Bool(true),
        "product"@ => r,
    ]);
}

/// A product that is edited cannot get a code that another product has.
pub proof fn law_product_refused(shop: ShopView, key: Seq<char>, payload: Json, now: i64, user: Json)
    requires
        in_order(shop.db),
        authorized(shop, key, managers(), now) == Ok::<Json, Seq<char>>(user),
        stands(shop.db, payload) is Some,
        code_for(shop.db, payload, now) != edits(payload),
        shop.db.item("products"@, code_for(shop.db, payload, now)) is Some,
    ensures
        save_product_outcome(shop, key, payload, now).reply == Err::<Json, Seq<char>>(
            "Ese SKU ya existe"@,
        ),
        save_product_outcome(shop, key, payload, now).shop.db == shop.db,
{
    lemma_own_fields();
    lemma_stands(shop.db, payload, now);
    law_found(shop.db, "products"@, code_for(shop.db, payload, now));
}

/// A product that is saved anew under a free code has a code that no product had.
pub proof fn law_new_product_is_new(shop: ShopView, payload: Json, now: i64)
    requires
        in_order(shop.db),
        stands(shop.db, payload) is None,
        plain(field(told_of(payload), "sku"@)).len() == 0,
    ensures
        shop.db.item("products"@, code_for(shop.db, payload, now)) is None,
        code_for(shop.db, payload, now).len() > 0,
{
    let products = shop.db.list("products"@);
    let category = plain(field(told_of(payload), "category"@));
    lemma_own_fields();
    law_new_sku_is_free(products, category, now);
    lemma_new_sku_tidy(products, category, now);
    law_found(shop.db, "products"@, new_sku(products, category, now));
}

// ----- deleting -----

/// A product that is deleted is gone, and no other; without a code, or with one that no product
/// has, nothing is deleted.
pub proof fn law_product_deleted(shop: ShopView, key: Seq<char>, payload: Json, now: i64, user: Json)
    requires
        in_order(shop.db),
        authorized(shop, key, managers(), now) == Ok::<Json, Seq<char>>(user),
    ensures
        ({
            let o = delete_product_outcome(shop, key, payload, now);
            let sku = plain(field(payload, "sku"@));
            if sku.len() == 0 {
                o.reply == Err::<Json, Seq<char>>("Falta SKU"@) && o.shop.db == shop.db
            } else if shop.db.item("products"@, sku) is None {
                o.reply == Err::<Json, Seq<char>>("Producto no encontrado"@) && o.shop.db == shop.db
            } else {
                &&& o.reply == Ok::<Json, Seq<char>>(Json::Object(map!["ok"@ => Json::Bool(true)]))
                &&& o.shop.db.item("products"@, sku) is None
                &&& only_at(shop.db, o.shop.db, "products"@, sku)
                &&& o.shop.source == shop.source
            }
        }),
{
    let sku = plain(field(payload, "sku"@));
    lemma_own_fields();
    law_found(shop.db, "products"@, sku);
    law_delete(shop.db, "products"@, sku);
    assert(crate::reply::yes() =~= map!["ok"@ => Json::Bool(true)]);
}

} // verus!
