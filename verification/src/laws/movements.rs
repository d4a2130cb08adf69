//! Laws of movements and counts: what is written down of them, and what becomes of the stock.

use crate::accounts::next_token;
use crate::clock::{suffix, token, MomentView};
use crate::double::{
    difference, is_finite, magnitude, negative, opposite, product, same, sum, TWO53,
};
use crate::json::{amount, field, float, plain, Json};
use crate::laws::inventory::{
    law_count, law_movement, law_restocked, law_take_back, restocked, stock_of,
};
use crate::laws::numbers::{is_whole, law_amounts_are_numbers, law_whole_difference};
use crate::laws::records::{in_order, law_found, lemma_own_fields};
use crate::laws::words::{lemma_counts_words, lemma_stock_words, lemma_store_words};
use crate::shop::ShopView;
use crate::stock::{
    adjustment_record, allowed_by, count_outcome, count_record, delete_movement_outcome,
    deletion_record, movement_outcome, movement_quantity, movement_record, stamped_id, stock_patch,
    take_back,
};
use crate::store::{law_delete, law_put, StoreView};
use crate::text::decimal;
use crate::users::{authorized, managers, touched};
use vstd::prelude::*;

verus! {

// ----- how a record is read -----

/// Whether a field of a record is a text.
pub open spec fn says(r: Json, key: Seq<char>, text: Seq<char>) -> bool {
    field(r, key) == Some(Json::Text(text))
}

/// Whether a field of a record is a number.
pub open spec fn holds(r: Json, key: Seq<char>, x: u64) -> bool {
    field(r, key) == Some(float(x))
}

/// What a user goes by: the display name, or the user name where there is none.
pub open spec fn goes_by(user: Json) -> Seq<char> {
    if plain(field(user, "displayName"@)).len() > 0 {
        plain(field(user, "displayName"@))
    } else {
        plain(field(user, "username"@))
    }
}

/// A text of a request, or the one that stands for it where it is empty.
pub open spec fn told_or(payload: Json, key: Seq<char>, other: Seq<char>) -> Seq<char> {
    if plain(field(payload, key)).len() > 0 {
        plain(field(payload, key))
    } else {
        other
    }
}

/// The product with one code has another stock and is otherwise as it was, and so are the other
/// products.
pub open spec fn only_stock(
    before: StoreView,
    after: StoreView,
    sku: Seq<char>,
    p: Json,
    stock: u64,
) -> bool {
    &&& after.item("products"@, sku) is Some
    &&& field(after.item("products"@, sku)->0, "stock"@) == Some(float(stock))
    &&& forall|k: Seq<char>|
        k != "stock"@ ==> #[trigger] field(after.item("products"@, sku)->0, k) == field(p, k)
    &&& forall|s: Seq<char>|
        s != sku ==> #[trigger] after.item("products"@, s) == before.item("products"@, s)
}

/// In a store nothing changed but under one identifier.
pub open spec fn only_at(before: StoreView, after: StoreView, store: Seq<char>, id: Seq<char>) -> bool {
    forall|i: Seq<char>| i != id ==> #[trigger] after.item(store, i) == before.item(store, i)
}

/// An identifier that is made at a moment: a mark, the milliseconds, and the end of a new text.
pub open spec fn made_id(mark: Seq<char>, shop: ShopView, m: MomentView) -> Seq<char> {
    mark + decimal(m.millis as int) + "-"@ + suffix(
        token(m.nanos, shop.source.count, shop.source.process),
    )
}

pub proof fn lemma_only_stock(before: StoreView, after: StoreView, sku: Seq<char>, p: Json, stock: u64)
    requires
        in_order(before),
        before.item("products"@, sku) == Some(p),
        after.item("products"@, sku) == Some(restocked(p, stock)),
        forall|s: Seq<char>|
            s != sku ==> #[trigger] after.item("products"@, s) == before.item("products"@, s),
    ensures
        only_stock(before, after, sku, p, stock),
{
    law_found(before, "products"@, sku);
    let q = restocked(p, stock);
    law_restocked(p, stock, sku);
    assert forall|k: Seq<char>| k != "stock"@ implies #[trigger] field(
        after.item("products"@, sku)->0,
        k,
    ) == field(p, k) by {
        law_restocked(p, stock, k);
    }
}

// ----- movements -----

/// Whether a kind of movement takes off the stock.
pub open spec fn goes_out(kind: Seq<char>) -> bool {
    kind == "salida_manual"@ || kind == "merma"@
}

/// What is written down of a movement of the product `p`: the quantity is that of the request,
/// below zero exactly where stock goes out, and the stock after it is the stock before it with that
/// quantity added.
pub open spec fn tells_movement(
    r: Json,
    payload: Json,
    p: Json,
    user: Json,
    m: MomentView,
    id: Seq<char>,
) -> bool {
    let kind = told_or(payload, "type"@, "entrada_compra"@);
    let q = amount(field(r, "quantity"@));
    let cost = amount(field(p, "cost"@));
    &&& says(r, "id"@, id)
    &&& says(r, "timestamp"@, m.iso)
    &&& says(r, "type"@, kind)
    &&& says(r, "sku"@, plain(field(payload, "sku"@)))
    &&& says(r, "productName"@, plain(field(p, "name"@)))
    &&& holds(r, "quantity"@, q)
    &&& magnitude(q) == magnitude(amount(field(payload, "quantity"@)))
    &&& negative(q) <==> goes_out(kind)
    &&& holds(r, "stockBefore"@, amount(field(p, "stock"@)))
    &&& holds(r, "stockAfter"@, sum(amount(field(p, "stock"@)), q))
    &&& holds(r, "unitCost"@, cost)
    &&& holds(r, "totalCost"@, product(q, cost))
    &&& says(r, "reason"@, plain(field(payload, "reason"@)))
    &&& says(r, "reference"@, plain(field(payload, "reference"@)))
    &&& says(r, "user"@, goes_by(user))
    &&& says(r, "authorizedBy"@, Seq::empty())
    &&& says(r, "notes"@, Seq::empty())
    &&& r->Object_0.dom() == set![
        "id"@,
        "timestamp"@,
        "type"@,
        "sku"@,
        "productName"@,
        "quantity"@,
        "stockBefore"@,
        "stockAfter"@,
        "unitCost"@,
        "totalCost"@,
        "reason"@,
        "reference"@,
        "user"@,
        "authorizedBy"@,
        "notes"@,
    ]
}

proof fn lemma_tells_movement(id: Seq<char>, payload: Json, p: Json, user: Json, m: MomentView)
    ensures
        tells_movement(movement_record(id, payload, p, user, m.iso), payload, p, user, m, id),
        amount(field(movement_record(id, payload, p, user, m.iso), "quantity"@)) == movement_quantity(
            payload,
        ),
{
    let r = movement_record(id, payload, p, user, m.iso);
    lemma_stock_words();
    reveal_strlit("");
    assert(""@ =~= Seq::empty());
    law_amounts_are_numbers(field(payload, "quantity"@));
    let q = movement_quantity(payload);
    assert(field(r, "quantity"@) == Some(float(q)));
    assert(is_finite(q));
    assert(r->Object_0.dom() =~= set![
        "id"@,
        "timestamp"@,
        "type"@,
        "sku"@,
        "productName"@,
        "quantity"@,
        "stockBefore"@,
        "stockAfter"@,
        "unitCost"@,
        "totalCost"@,
        "reason"@,
        "reference"@,
        "user"@,
        "authorizedBy"@,
        "notes"@,
    ]);
}

/// A movement is answered with what is written down of it, which is kept under its identifier; the
/// quantity of the request, with its sign, is added to the stock of the product; and nothing else
/// changes among the products and the movements.
pub proof fn law_movement_told(
    shop: ShopView,
    key: Seq<char>,
    payload: Json,
    m: MomentView,
    user: Json,
    p: Json,
)
    requires
        in_order(shop.db),
        authorized(shop, key, managers(), m.millis) == Ok::<Json, Seq<char>>(user),
        shop.db.item("products"@, plain(field(payload, "sku"@))) == Some(p),
    ensures
        ({
            let o = movement_outcome(shop, key, payload, m);
            let id = made_id("MOV-"@, shop, m);
            let r = o.shop.db.item("moves"@, id)->0;
            &&& o.shop.db.item("moves"@, id) is Some
            &&& o.reply == Ok::<Json, Seq<char>>(
                Json::Object(map!["ok"@ => Json::Bool(true), "movement"@ => r]),
            )
            &&& tells_movement(r, payload, p, user, m, id)
            &&& only_stock(
                shop.db,
                o.shop.db,
                plain(field(payload, "sku"@)),
                p,
                sum(stock_of(p), amount(field(r, "quantity"@))),
            )
            &&& only_at(shop.db, o.shop.db, "moves"@, id)
            &&& o.shop.source.count == shop.source.count.wrapping_add(1)
            &&& o.shop.source.process == shop.source.process
        }),
{
    let sku = plain(field(payload, "sku"@));
    let id = stamped_id("MOV-"@, m.millis, suffix(next_token(shop, m)));
    let o = movement_outcome(shop, key, payload, m);
    let r = movement_record(id, payload, p, user, m.iso);
    let stock = sum(stock_of(p), movement_quantity(payload));
    lemma_own_fields();
    law_found(shop.db, "products"@, sku);
    law_movement(shop, key, payload, m, user, p);
    lemma_tells_movement(id, payload, p, user, m);
    lemma_only_stock(shop.db, o.shop.db, sku, p, stock);
    let stocked = shop.db.patch("products"@, sku, stock_patch(stock));
    law_put(shop.db, "products"@, sku, restocked(p, stock));
    law_put(stocked, "moves"@, id, r);
    assert forall|i: Seq<char>| i != id implies #[trigger] o.shop.db.item("moves"@, i)
        == shop.db.item("moves"@, i) by {
        assert(stocked.item("moves"@, i) == shop.db.item("moves"@, i));
    }
    assert(crate::reply::yes().insert("movement"@, r) =~= map![
        "ok"@ => Json::Bool(true),
        "movement"@ => r,
    ]);
}

/// There is no movement of a product that there is not.
pub proof fn law_movement_needs_product(shop: ShopView, key: Seq<char>, payload: Json, m: MomentView, user: Json)
    requires
        in_order(shop.db),
        authorized(shop, key, managers(), m.millis) == Ok::<Json, Seq<char>>(user),
        shop.db.item("products"@, plain(field(payload, "sku"@))) is None,
    ensures
        movement_outcome(shop, key, payload, m).reply == Err::<Json, Seq<char>>(
            "Producto no encontrado"@,
        ),
        count_outcome(shop, key, payload, m).reply == Err::<Json, Seq<char>>(
            "Producto no encontrado"@,
        ),
        movement_outcome(shop, key, payload, m).shop.db == shop.db,
        count_outcome(shop, key, payload, m).shop.db == shop.db,
{
    lemma_own_fields();
    law_found(shop.db, "products"@, plain(field(payload, "sku"@)));
}

// ----- deleting movements -----

/// What is written down of the deletion of the movement `mv`: its quantity and its cost the other
/// way round, and the stock of the product before and after, which is the quantity less.
pub open spec fn tells_deletion(
    r: Json,
    mv: Json,
    deleted: Seq<char>,
    p: Option<Json>,
    user: Json,
    allowing: Json,
    m: MomentView,
    id: Seq<char>,
) -> bool {
    let q = amount(field(mv, "quantity"@));
    &&& says(r, "id"@, id)
    &&& says(r, "timestamp"@, m.iso)
    &&& says(r, "type"@, "eliminacion_movimiento"@)
    &&& says(r, "sku"@, plain(field(mv, "sku"@)))
    &&& says(r, "productName"@, plain(field(mv, "productName"@)))
    &&& holds(r, "quantity"@, opposite(q))
    &&& match p {
        Some(p) => holds(r, "stockBefore"@, stock_of(p)) && holds(
            r,
            "stockAfter"@,
            difference(stock_of(p), q),
        ),
        None => says(r, "stockBefore"@, Seq::empty()) && says(r, "stockAfter"@, Seq::empty()),
    }
    &&& holds(r, "unitCost"@, amount(field(mv, "unitCost"@)))
    &&& holds(r, "totalCost"@, opposite(amount(field(mv, "totalCost"@))))
    &&& says(r, "reason"@, "Eliminacion de "@ + deleted)
    &&& says(r, "reference"@, deleted)
    &&& says(r, "user"@, goes_by(user))
    &&& says(r, "authorizedBy"@, goes_by(allowing))
    &&& says(r, "notes"@, Seq::empty())
    &&& r->Object_0.dom() == set![
        "id"@,
        "timestamp"@,
        "type"@,
        "sku"@,
        "productName"@,
        "quantity"@,
        "stockBefore"@,
        "stockAfter"@,
        "unitCost"@,
        "totalCost"@,
        "reason"@,
        "reference"@,
        "user"@,
        "authorizedBy"@,
        "notes"@,
    ]
}

proof fn lemma_tells_deletion(
    mv: Json,
    deleted: Seq<char>,
    p: Option<Json>,
    user: Json,
    allowing: Json,
    m: MomentView,
    id: Seq<char>,
)
    ensures
        tells_deletion(
            deletion_record(id, mv, p, deleted, user, allowing, m.iso),
            mv,
            deleted,
            p,
            user,
            allowing,
            m,
            id,
        ),
{
    let r = deletion_record(id, mv, p, deleted, user, allowing, m.iso);
    lemma_stock_words();
    reveal_strlit("");
    assert(""@ =~= Seq::empty());
    assert(r->Object_0.dom() =~= set![
        "id"@,
        "timestamp"@,
        "type"@,
        "sku"@,
        "productName"@,
        "quantity"@,
        "stockBefore"@,
        "stockAfter"@,
        "unitCost"@,
        "totalCost"@,
        "reason"@,
        "reference"@,
        "user"@,
        "authorizedBy"@,
        "notes"@,
    ]);
}

/// Who allows a deletion: where the request names a supervisor, the one whom its texts show, and
/// else the user that asks.
pub open spec fn allows(db: StoreView, payload: Json, user: Json, allowing: Json) -> bool {
    if field(payload, "admin"@) is Some && plain(
        field(field(payload, "admin"@)->0, "username"@),
    ).len() > 0 {
        crate::accounts::supervisor(db.list("users"@), field(payload, "admin"@)->0) == Ok::<
            Json,
            Seq<char>,
        >(allowing)
    } else {
        allowing == user
    }
}

/// Deleting a movement that there is: it goes, its quantity is taken off the stock of its product
/// where there still is one, and the deletion is written down under a new identifier.
pub proof fn law_deletion_told(
    shop: ShopView,
    key: Seq<char>,
    payload: Json,
    m: MomentView,
    user: Json,
    allowing: Json,
    mv: Json,
)
    requires
        in_order(shop.db),
        authorized(shop, key, managers(), m.millis) == Ok::<Json, Seq<char>>(user),
        allows(shop.db, payload, user, allowing),
        plain(field(payload, "id"@)).len() > 0,
        shop.db.item("moves"@, plain(field(payload, "id"@))) == Some(mv),
    ensures
        ({
            let o = delete_movement_outcome(shop, key, payload, m);
            let deleted = plain(field(payload, "id"@));
            let sku = plain(field(mv, "sku"@));
            let p = shop.db.item("products"@, sku);
            let id = made_id("MOV-DEL-"@, shop, m);
            let r = o.shop.db.item("moves"@, id)->0;
            &&& o.reply == Ok::<Json, Seq<char>>(Json::Object(map!["ok"@ => Json::Bool(true)]))
            &&& o.shop.db.item("moves"@, id) is Some
            &&& tells_deletion(r, mv, deleted, p, user, allowing, m, id)
            &&& deleted != id ==> o.shop.db.item("moves"@, deleted) is None
            &&& forall|i: Seq<char>|
                i != id && i != deleted ==> #[trigger] o.shop.db.item("moves"@, i) == shop.db.item(
                    "moves"@,
                    i,
                )
            &&& match p {
                Some(p) => only_stock(
                    shop.db,
                    o.shop.db,
                    sku,
                    p,
                    difference(stock_of(p), amount(field(mv, "quantity"@))),
                ),
                None => forall|s: Seq<char>| #[trigger]
                    o.shop.db.item("products"@, s) == shop.db.item("products"@, s),
            }
            &&& o.shop.source.count == shop.source.count.wrapping_add(1)
            &&& o.shop.source.process == shop.source.process
        }),
{
    let now = touched(shop, key, m.millis);
    let deleted = plain(field(payload, "id"@));
    let sku = plain(field(mv, "sku"@));
    let p = shop.db.item("products"@, sku);
    let id = stamped_id("MOV-DEL-"@, m.millis, suffix(next_token(shop, m)));
    let o = delete_movement_outcome(shop, key, payload, m);
    lemma_own_fields();
    law_found(shop.db, "moves"@, deleted);
    law_found(shop.db, "products"@, sku);
    assert(allowed_by(shop.db.list("users"@), payload, user) == Ok::<Json, Seq<char>>(allowing));
    assert(o == take_back(now, mv, deleted, user, allowing, m));
    lemma_tells_deletion(mv, deleted, p, user, allowing, m, id);
    let r = deletion_record(id, mv, p, deleted, user, allowing, m.iso);
    let q = amount(field(mv, "quantity"@));
    let stocked = match p {
        Some(p) => shop.db.patch("products"@, sku, stock_patch(difference(stock_of(p), q))),
        None => shop.db,
    };
    if let Some(p) = p {
        law_take_back(now, mv, deleted, user, allowing, m, p);
        lemma_only_stock(shop.db, o.shop.db, sku, p, difference(stock_of(p), q));
        law_put(shop.db, "products"@, sku, restocked(p, difference(stock_of(p), q)));
    }
    assert forall|i: Seq<char>| #[trigger] stocked.item("moves"@, i) == shop.db.item("moves"@, i) by {}
    let gone = stocked.delete("moves"@, deleted);
    law_delete(stocked, "moves"@, deleted);
    law_put(gone, "moves"@, id, r);
    assert(o.shop.db == gone.put("moves"@, id, r));
    assert forall|i: Seq<char>| i != id && i != deleted implies #[trigger] o.shop.db.item("moves"@, i)
        == shop.db.item("moves"@, i) by {
        assert(gone.item("moves"@, i) == stocked.item("moves"@, i));
        assert(stocked.item("moves"@, i) == shop.db.item("moves"@, i));
    }
    if p is None {
        assert forall|s: Seq<char>| #[trigger] o.shop.db.item("products"@, s) == shop.db.item(
            "products"@,
            s,
        ) by {
            assert(gone.item("products"@, s) == stocked.item("products"@, s));
        }
    }
    assert(crate::reply::yes() =~= map!["ok"@ => Json::Bool(true)]);
}

/// A deletion that names no movement, or none that there is, is refused, and so is one that names a
/// supervisor whose texts do not show one.
pub proof fn law_deletion_refused(
    shop: ShopView,
    key: Seq<char>,
    payload: Json,
    m: MomentView,
    user: Json,
)
    requires
        in_order(shop.db),
        authorized(shop, key, managers(), m.millis) == Ok::<Json, Seq<char>>(user),
    ensures
        ({
            let o = delete_movement_outcome(shop, key, payload, m);
            let id = plain(field(payload, "id"@));
            let named = field(payload, "admin"@) is Some && plain(
                field(field(payload, "admin"@)->0, "username"@),
            ).len() > 0;
            let shown = crate::accounts::supervisor(
                shop.db.list("users"@),
                field(payload, "admin"@)->0,
            );
            &&& named && shown is Err ==> o.reply == shown
            &&& !(named && shown is Err) && id.len() == 0 ==> o.reply == Err::<Json, Seq<char>>(
                "Falta movimiento"@,
            )
            &&& !(named && shown is Err) && id.len() > 0 && shop.db.item("moves"@, id) is None
                ==> o.reply == Err::<Json, Seq<char>>("Movimiento no encontrado"@)
        }),
{
    lemma_own_fields();
    law_found(shop.db, "moves"@, plain(field(payload, "id"@)));
}

// ----- counts -----

/// What is written down of a count of the product `p`: what the system had, what was counted, and
/// the one less the other.
pub open spec fn tells_count(
    r: Json,
    payload: Json,
    p: Json,
    user: Json,
    m: MomentView,
    id: Seq<char>,
) -> bool {
    let c = amount(field(payload, "countedStock"@));
    &&& says(r, "id"@, id)
    &&& says(
        r,
        "inventoryId"@,
        told_or(payload, "inventoryId"@, "INV-"@ + decimal(m.millis as int)),
    )
    &&& says(r, "timestamp"@, m.iso)
    &&& says(r, "sku"@, plain(field(payload, "sku"@)))
    &&& says(r, "productName"@, plain(field(p, "name"@)))
    &&& says(r, "barcode"@, plain(field(p, "barcode"@)))
    &&& says(r, "category"@, plain(field(p, "category"@)))
    &&& says(r, "presentation"@, plain(field(p, "presentation"@)))
    &&& says(r, "unit"@, plain(field(p, "unit"@)))
    &&& says(r, "supplier"@, plain(field(p, "supplier"@)))
    &&& holds(r, "systemStock"@, stock_of(p))
    &&& holds(r, "countedStock"@, c)
    &&& holds(r, "difference"@, difference(c, stock_of(p)))
    &&& says(r, "user"@, told_or(payload, "authorizedBy"@, goes_by(user)))
    &&& says(r, "authorizedBy"@, plain(field(payload, "authorizedBy"@)))
    &&& says(r, "notes"@, plain(field(payload, "notes"@)))
    &&& r->Object_0.dom() == set![
        "id"@,
        "inventoryId"@,
        "timestamp"@,
        "sku"@,
        "productName"@,
        "barcode"@,
        "category"@,
        "presentation"@,
        "unit"@,
        "supplier"@,
        "systemStock"@,
        "countedStock"@,
        "difference"@,
        "user"@,
        "authorizedBy"@,
        "notes"@,
    ]
}

/// What is written down of the movement that a count makes: from what the system had to what was
/// counted.
pub open spec fn tells_adjustment(
    r: Json,
    payload: Json,
    p: Json,
    user: Json,
    m: MomentView,
    id: Seq<char>,
    count_id: Seq<char>,
) -> bool {
    let c = amount(field(payload, "countedStock"@));
    let q = difference(c, stock_of(p));
    let cost = amount(field(p, "cost"@));
    &&& says(r, "id"@, id)
    &&& says(r, "timestamp"@, m.iso)
    &&& says(r, "type"@, "ajuste_conteo"@)
    &&& says(r, "sku"@, plain(field(payload, "sku"@)))
    &&& says(r, "productName"@, plain(field(p, "name"@)))
    &&& holds(r, "quantity"@, q)
    &&& holds(r, "stockBefore"@, stock_of(p))
    &&& holds(r, "stockAfter"@, c)
    &&& holds(r, "unitCost"@, cost)
    &&& holds(r, "totalCost"@, product(q, cost))
    &&& says(r, "reason"@, "Conteo fisico"@)
    &&& says(r, "reference"@, count_id)
    &&& says(r, "user"@, told_or(payload, "authorizedBy"@, goes_by(user)))
    &&& says(r, "authorizedBy"@, plain(field(payload, "authorizedBy"@)))
    &&& says(r, "notes"@, plain(field(payload, "notes"@)))
    &&& r->Object_0.dom() == set![
        "id"@,
        "timestamp"@,
        "type"@,
        "sku"@,
        "productName"@,
        "quantity"@,
        "stockBefore"@,
        "stockAfter"@,
        "unitCost"@,
        "totalCost"@,
        "reason"@,
        "reference"@,
        "user"@,
        "authorizedBy"@,
        "notes"@,
    ]
}

proof fn lemma_tells_count(id: Seq<char>, payload: Json, p: Json, user: Json, m: MomentView)
    ensures
        tells_count(count_record(id, payload, p, user, m), payload, p, user, m, id),
{
    let r = count_record(id, payload, p, user, m);
    lemma_stock_words();
    lemma_counts_words();
    assert(r->Object_0.dom() =~= set![
        "id"@,
        "inventoryId"@,
        "timestamp"@,
        "sku"@,
        "productName"@,
        "barcode"@,
        "category"@,
        "presentation"@,
        "unit"@,
        "supplier"@,
        "systemStock"@,
        "countedStock"@,
        "difference"@,
        "user"@,
        "authorizedBy"@,
        "notes"@,
    ]);
}

proof fn lemma_tells_adjustment(
    id: Seq<char>,
    count_id: Seq<char>,
    payload: Json,
    p: Json,
    user: Json,
    m: MomentView,
)
    ensures
        tells_adjustment(
            adjustment_record(id, count_id, payload, p, user, m.iso),
            payload,
            p,
            user,
            m,
            id,
            count_id,
        ),
{
    let r = adjustment_record(id, count_id, payload, p, user, m.iso);
    lemma_stock_words();
    assert(r->Object_0.dom() =~= set![
        "id"@,
        "timestamp"@,
        "type"@,
        "sku"@,
        "productName"@,
        "quantity"@,
        "stockBefore"@,
        "stockAfter"@,
        "unitCost"@,
        "totalCost"@,
        "reason"@,
        "reference"@,
        "user"@,
        "authorizedBy"@,
        "notes"@,
    ]);
}

/// A count is answered with what is written down of it, which is kept under its identifier; the
/// stock of the product becomes what was counted; and where that is another number than before, a
/// movement from the one to the other is written down, and else none.
pub proof fn law_count_told(
    shop: ShopView,
    key: Seq<char>,
    payload: Json,
    m: MomentView,
    user: Json,
    p: Json,
)
    requires
        in_order(shop.db),
        authorized(shop, key, managers(), m.millis) == Ok::<Json, Seq<char>>(user),
        shop.db.item("products"@, plain(field(payload, "sku"@))) == Some(p),
    ensures
        ({
            let o = count_outcome(shop, key, payload, m);
            let sku = plain(field(payload, "sku"@));
            let c = amount(field(payload, "countedStock"@));
            let id = made_id("CNT-"@, shop, m);
            let move_id = "MOV-"@ + decimal(m.millis as int) + "-"@ + sku;
            let r = o.shop.db.item("counts"@, id)->0;
            &&& o.shop.db.item("counts"@, id) is Some
            &&& o.reply == Ok::<Json, Seq<char>>(
                Json::Object(map!["ok"@ => Json::Bool(true), "count"@ => r]),
            )
            &&& tells_count(r, payload, p, user, m, id)
            &&& only_at(shop.db, o.shop.db, "counts"@, id)
            &&& only_stock(shop.db, o.shop.db, sku, p, c)
            &&& if same(difference(c, stock_of(p)), 0) {
                o.shop.db.list("moves"@) == shop.db.list("moves"@)
            } else {
                &&& o.shop.db.item("moves"@, move_id) is Some
                &&& tells_adjustment(
                    o.shop.db.item("moves"@, move_id)->0,
                    payload,
                    p,
                    user,
                    m,
                    move_id,
                    id,
                )
                &&& only_at(shop.db, o.shop.db, "moves"@, move_id)
            }
            &&& o.shop.source.count == shop.source.count.wrapping_add(1)
            &&& o.shop.source.process == shop.source.process
        }),
{
    let sku = plain(field(payload, "sku"@));
    let c = amount(field(payload, "countedStock"@));
    let id = stamped_id("CNT-"@, m.millis, suffix(next_token(shop, m)));
    let move_id = stamped_id("MOV-"@, m.millis, sku);
    let o = count_outcome(shop, key, payload, m);
    let r = count_record(id, payload, p, user, m);
    let a = adjustment_record(move_id, id, payload, p, user, m.iso);
    lemma_own_fields();
    lemma_store_words();
    law_found(shop.db, "products"@, sku);
    law_count(shop, key, payload, m, user, p);
    lemma_tells_count(id, payload, p, user, m);
    lemma_tells_adjustment(move_id, id, payload, p, user, m);
    lemma_only_stock(shop.db, o.shop.db, sku, p, c);
    let put = shop.db.put("counts"@, id, r);
    law_put(shop.db, "counts"@, id, r);
    law_put(put, "products"@, sku, restocked(p, c));
    let stocked = put.put("products"@, sku, restocked(p, c));
    assert(put.item("products"@, sku) == Some(p));
    assert(stocked == put.patch("products"@, sku, stock_patch(c)));
    law_put(stocked, "moves"@, move_id, a);
    assert forall|i: Seq<char>| i != id implies #[trigger] o.shop.db.item("counts"@, i)
        == shop.db.item("counts"@, i) by {
        assert(stocked.item("counts"@, i) == put.item("counts"@, i));
        assert(stocked.put("moves"@, move_id, a).item("counts"@, i) == stocked.item("counts"@, i));
    }
    if !same(difference(c, stock_of(p)), 0) {
        assert forall|i: Seq<char>| i != move_id implies #[trigger] o.shop.db.item("moves"@, i)
            == shop.db.item("moves"@, i) by {
            assert(stocked.item("moves"@, i) == put.item("moves"@, i));
            assert(put.item("moves"@, i) == shop.db.item("moves"@, i));
        }
    }
    assert(crate::reply::yes().insert("count"@, r) =~= map![
        "ok"@ => Json::Bool(true),
        "count"@ => r,
    ]);
}

/// In whole numbers: where the system had `a` and `b` are counted, the count tells a difference of
/// `b - a`, above zero where there is more than there should be. Where `b` is not `a`, the movement
/// that is written down leads from `a` to `b` by `b - a`; where it is, there is none.
pub proof fn law_count_difference(
    shop: ShopView,
    key: Seq<char>,
    payload: Json,
    m: MomentView,
    user: Json,
    p: Json,
    a: int,
    b: int,
)
    requires
        in_order(shop.db),
        authorized(shop, key, managers(), m.millis) == Ok::<Json, Seq<char>>(user),
        shop.db.item("products"@, plain(field(payload, "sku"@))) == Some(p),
        is_whole(stock_of(p), a),
        is_whole(amount(field(payload, "countedStock"@)), b),
        -TWO53 < b - a < TWO53,
    ensures
        ({
            let o = count_outcome(shop, key, payload, m);
            let sku = plain(field(payload, "sku"@));
            let count = o.shop.db.item("counts"@, made_id("CNT-"@, shop, m))->0;
            let mv = o.shop.db.item("moves"@, "MOV-"@ + decimal(m.millis as int) + "-"@ + sku)->0;
            &&& is_whole(amount(field(count, "systemStock"@)), a)
            &&& is_whole(amount(field(count, "countedStock"@)), b)
            &&& is_whole(amount(field(count, "difference"@)), b - a)
            &&& a == b ==> o.shop.db.list("moves"@) == shop.db.list("moves"@)
            &&& a != b ==> is_whole(amount(field(mv, "stockBefore"@)), a) && is_whole(
                amount(field(mv, "quantity"@)),
                b - a,
            ) && is_whole(amount(field(mv, "stockAfter"@)), b)
        }),
{
    let c = amount(field(payload, "countedStock"@));
    let d = difference(c, stock_of(p));
    law_count_told(shop, key, payload, m, user, p);
    law_whole_difference(c, b, stock_of(p), a);
    crate::laws::numbers::lemma_whole_zero(d, b - a);
}

} // verus!
