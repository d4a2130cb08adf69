//! Laws of the stock: movements, counts and sales.

use crate::accounts::next_token;
use crate::clock::{suffix, MomentView};
use crate::double::{
    difference, is_finite, lemma_parts, less, magnitude, opposite, product, same, sum, value, TWO53,
};
use crate::json::{amount, field, float, plain, Json};
use crate::laws::names::{law_plain_is_tidy, lemma_numeral};
use crate::laws::numbers::{
    is_whole, law_nothing_below_zero, law_whole_difference, law_whole_product, law_whole_sum,
    lemma_sides,
};
use crate::laws::records::{
    in_order, law_found, lemma_checkout_in_order, lemma_count_in_order, lemma_movement_in_order,
    lemma_own_fields, lemma_stock_fields,
};
use crate::products::{
    edited_product, product_record, product_told, save_product_outcome, saved_sku,
};
use crate::reply::yes;
use crate::sales::{
    checkout_outcome, items_of, left_after, line_amount, line_fault, line_qty, line_sku, queue_run,
    sale_id, sale_movement, sale_record, sold, subtotal, tick, ticket_fault, ReadingView,
};
use crate::shop::ShopView;
use crate::stock::{
    adjustment_record, allowed_by, count_outcome, count_record, delete_movement_outcome,
    deletion_record, movement_outcome, movement_quantity, movement_record, product_with, stamped_id,
    stock_patch, take_back,
};
use crate::store::{law_delete, law_put, merged, StoreView};
use crate::text::decimal;
use crate::users::{authorized, managers, staff, touched};
use vstd::arithmetic::power2::pow2;
use vstd::prelude::*;

verus! {

/// A product with another stock.
pub open spec fn restocked(p: Json, stock: u64) -> Json {
    merged(p, stock_patch(stock))
}

/// The stock of a product.
pub open spec fn stock_of(p: Json) -> u64 {
    amount(field(p, "stock"@))
}

/// A product with another stock has that stock, and is otherwise as it was.
pub proof fn law_restocked(p: Json, stock: u64, key: Seq<char>)
    requires
        p is Object,
    ensures
        field(restocked(p, stock), "stock"@) == Some(float(stock)),
        is_finite(stock) ==> stock_of(restocked(p, stock)) == stock,
        key != "stock"@ ==> field(restocked(p, stock), key) == field(p, key),
{
}

/// The stock that was set last counts.
proof fn lemma_restocked_twice(p: Json, a: u64, b: u64)
    ensures
        restocked(restocked(p, a), b) == restocked(p, b),
{
    if let Json::Object(m) = p {
        let pa = stock_patch(a)->Object_0;
        let pb = stock_patch(b)->Object_0;
        assert(m.union_prefer_right(pa).union_prefer_right(pb) =~= m.union_prefer_right(pb));
    }
}

proof fn lemma_set_stock(db: StoreView, sku: Seq<char>, p: Json, stock: u64)
    requires
        db.item("products"@, sku) == Some(p),
    ensures
        db.patch("products"@, sku, stock_patch(stock)).item("products"@, sku) == Some(
            restocked(p, stock),
        ),
        forall|s: Seq<char>|
            s != sku ==> #[trigger] db.patch("products"@, sku, stock_patch(stock)).item(
                "products"@,
                s,
            ) == db.item("products"@, s),
        forall|store: Seq<char>, id: Seq<char>|
            store != "products"@ ==> #[trigger] db.patch("products"@, sku, stock_patch(stock)).item(
                store,
                id,
            ) == db.item(store, id),
        forall|store: Seq<char>|
            store != "products"@ ==> #[trigger] db.patch("products"@, sku, stock_patch(stock)).list(
                store,
            ) == db.list(store),
{
    law_put(db, "products"@, sku, restocked(p, stock));
}

// ----- products -----

/// A product that is saved stands under its code. One that is edited keeps its stock; where it
/// gets another code, that was free, and the code that it had is free.
pub proof fn law_save_product(shop: ShopView, key: Seq<char>, payload: Json, now: i64, user: Json)
    requires
        in_order(shop.db),
        authorized(shop, key, managers(), now) == Ok::<Json, Seq<char>>(user),
        save_product_outcome(shop, key, payload, now).reply is Ok,
    ensures
        ({
            let after = save_product_outcome(shop, key, payload, now).shop.db;
            let products = shop.db.list("products"@);
            let sku = saved_sku(products, payload, now);
            let told = product_told(payload);
            &&& after.item("products"@, sku) == Some(
                product_record(
                    told,
                    sku,
                    match edited_product(products, payload) {
                        Some(e) => stock_of(e),
                        None => stock_of(told),
                    },
                ),
            )
            &&& edited_product(products, payload) matches Some(e) ==> plain(field(e, "sku"@)) != sku
                ==> after.item("products"@, plain(field(e, "sku"@))) is None && shop.db.item(
                "products"@,
                sku,
            ) is None
            &&& forall|s: Seq<char>|
                s != sku && (edited_product(products, payload) matches Some(e) ==> s != plain(
                    field(e, "sku"@),
                )) ==> #[trigger] after.item("products"@, s) == shop.db.item("products"@, s)
        }),
{
    let products = shop.db.list("products"@);
    let sku = saved_sku(products, payload, now);
    let told = product_told(payload);
    let stock = match edited_product(products, payload) {
        Some(e) => stock_of(e),
        None => stock_of(told),
    };
    let record = product_record(told, sku, stock);
    lemma_own_fields();
    law_found(shop.db, "products"@, sku);
    law_put(shop.db, "products"@, sku, record);
    if let Some(e) = edited_product(products, payload) {
        law_delete(shop.db.put("products"@, sku, record), "products"@, plain(field(e, "sku"@)));
    }
}

// ----- movements -----

/// A movement adds its quantity to the stock of its product, leaves the other products as they
/// were, and is kept under its identifier.
pub proof fn law_movement(
    shop: ShopView,
    key: Seq<char>,
    payload: Json,
    m: MomentView,
    user: Json,
    p: Json,
)
    requires
        in_order(shop.db),
        authorized(shop, key, managers(), m.millis) == Ok::<Json, Seq<char>>(user),
        shop.db.item("products"@, plain(field(payload, "sku"@))) == Some(p),
    ensures
        ({
            let o = movement_outcome(shop, key, payload, m);
            let sku = plain(field(payload, "sku"@));
            let id = stamped_id("MOV-"@, m.millis, suffix(next_token(shop, m)));
            &&& o.reply is Ok
            &&& o.shop.db.item("products"@, sku) == Some(
                restocked(p, sum(stock_of(p), movement_quantity(payload))),
            )
            &&& forall|s: Seq<char>|
                s != sku ==> #[trigger] o.shop.db.item("products"@, s) == shop.db.item(
                    "products"@,
                    s,
                )
            &&& o.shop.db.item("moves"@, id) == Some(
                movement_record(id, payload, p, user, m.iso),
            )
        }),
{
    let sku = plain(field(payload, "sku"@));
    let id = stamped_id("MOV-"@, m.millis, suffix(next_token(shop, m)));
    let stock = sum(stock_of(p), movement_quantity(payload));
    lemma_own_fields();
    law_found(shop.db, "products"@, sku);
    lemma_set_stock(shop.db, sku, p, stock);
    let stocked = shop.db.patch("products"@, sku, stock_patch(stock));
    law_put(stocked, "moves"@, id, movement_record(id, payload, p, user, m.iso));
}

/// The identifier of a deletion is not that of a movement.
proof fn lemma_deletion_id(a: i64, s: Seq<char>, b: i64, t: Seq<char>)
    ensures
        stamped_id("MOV-"@, a, s) != stamped_id("MOV-DEL-"@, b, t),
{
    reveal_strlit("MOV-");
    reveal_strlit("MOV-DEL-");
    let x = stamped_id("MOV-"@, a, s);
    let y = stamped_id("MOV-DEL-"@, b, t);
    if a < 0 {
        lemma_numeral((-a) as nat, 10);
    } else {
        lemma_numeral(a as nat, 10);
    }
    assert(x[4] == decimal(a as int)[0]);
    assert(y[4] == 'D');
}

/// Deleting a movement takes its quantity off the stock of its product, leaves the other products
/// as they were, and the movement is gone.
pub proof fn law_take_back(
    shop: ShopView,
    mv: Json,
    deleted: Seq<char>,
    user: Json,
    allowing: Json,
    m: MomentView,
    p: Json,
)
    requires
        in_order(shop.db),
        shop.db.item("products"@, plain(field(mv, "sku"@))) == Some(p),
    ensures
        ({
            let after = take_back(shop, mv, deleted, user, allowing, m).shop.db;
            let sku = plain(field(mv, "sku"@));
            let id = stamped_id("MOV-DEL-"@, m.millis, suffix(next_token(shop, m)));
            &&& after.item("products"@, sku) == Some(
                restocked(p, difference(stock_of(p), amount(field(mv, "quantity"@)))),
            )
            &&& forall|s: Seq<char>|
                s != sku ==> #[trigger] after.item("products"@, s) == shop.db.item("products"@, s)
            &&& deleted != id ==> after.item("moves"@, deleted) is None
            &&& after.item("moves"@, id) == Some(
                deletion_record(id, mv, Some(p), deleted, user, allowing, m.iso),
            )
        }),
{
    let sku = plain(field(mv, "sku"@));
    let left = difference(stock_of(p), amount(field(mv, "quantity"@)));
    let id = stamped_id("MOV-DEL-"@, m.millis, suffix(next_token(shop, m)));
    let record = deletion_record(id, mv, Some(p), deleted, user, allowing, m.iso);
    lemma_own_fields();
    law_found(shop.db, "products"@, sku);
    lemma_set_stock(shop.db, sku, p, left);
    let stocked = shop.db.patch("products"@, sku, stock_patch(left));
    let gone = stocked.delete("moves"@, deleted);
    law_delete(stocked, "moves"@, deleted);
    law_put(gone, "moves"@, id, record);
    let after = take_back(shop, mv, deleted, user, allowing, m).shop.db;
    assert(after == gone.put("moves"@, id, record));
    assert(gone.item("products"@, sku) == stocked.item("products"@, sku));
    assert forall|s: Seq<char>| s != sku implies #[trigger] after.item("products"@, s)
        == shop.db.item("products"@, s) by {
        assert(gone.item("products"@, s) == stocked.item("products"@, s));
        assert(stocked.item("products"@, s) == shop.db.item("products"@, s));
    }
}

/// What the record of a movement says of its product and its quantity.
proof fn lemma_movement_read(id: Seq<char>, payload: Json, p: Json, user: Json, iso: Seq<char>)
    requires
        is_finite(movement_quantity(payload)),
    ensures
        plain(field(movement_record(id, payload, p, user, iso), "sku"@)) == plain(
            field(payload, "sku"@),
        ),
        amount(field(movement_record(id, payload, p, user, iso), "quantity"@))
            == movement_quantity(payload),
{
    let record = movement_record(id, payload, p, user, iso);
    lemma_stock_fields();
    reveal_strlit("quantity");
    reveal_strlit("unitCost");
    assert("quantity"@[0] == 'q' && "unitCost"@[0] == 'u');
    law_plain_is_tidy(field(payload, "sku"@));
    assert(field(record, "sku"@) == Some(Json::Text(plain(field(payload, "sku"@)))));
    assert(field(record, "quantity"@) == Some(float(movement_quantity(payload))));
}

/// What a movement of a whole number of pieces did is undone by deleting it: the stock is again
/// what it was, the movement is gone, and the other products are as they were.
pub proof fn law_movement_undone(
    shop: ShopView,
    key: Seq<char>,
    payload: Json,
    m: MomentView,
    user: Json,
    p: Json,
    a: int,
    b: int,
    undo_key: Seq<char>,
    undo: Json,
    later: MomentView,
)
    requires
        in_order(shop.db),
        authorized(shop, key, managers(), m.millis) == Ok::<Json, Seq<char>>(user),
        shop.db.item("products"@, plain(field(payload, "sku"@))) == Some(p),
        is_whole(stock_of(p), a),
        is_whole(movement_quantity(payload), b),
        -TWO53 < a < TWO53,
        -TWO53 < a + b < TWO53,
        plain(field(undo, "id"@)) == stamped_id("MOV-"@, m.millis, suffix(next_token(shop, m))),
        delete_movement_outcome(
            movement_outcome(shop, key, payload, m).shop,
            undo_key,
            undo,
            later,
        ).reply is Ok,
    ensures
        ({
            let moved = movement_outcome(shop, key, payload, m).shop;
            let after = delete_movement_outcome(moved, undo_key, undo, later).shop.db;
            let sku = plain(field(payload, "sku"@));
            &&& after.item("products"@, sku) matches Some(q) && is_whole(stock_of(q), a)
            &&& forall|s: Seq<char>|
                s != sku ==> #[trigger] after.item("products"@, s) == shop.db.item("products"@, s)
            &&& after.item("moves"@, plain(field(undo, "id"@))) is None
        }),
{
    let moved = movement_outcome(shop, key, payload, m).shop;
    let sku = plain(field(payload, "sku"@));
    let quantity = movement_quantity(payload);
    let id = stamped_id("MOV-"@, m.millis, suffix(next_token(shop, m)));
    let record = movement_record(id, payload, p, user, m.iso);
    let stock = sum(stock_of(p), quantity);
    let q = restocked(p, stock);
    lemma_own_fields();
    law_found(shop.db, "products"@, sku);
    law_movement(shop, key, payload, m, user, p);
    lemma_movement_in_order(shop, key, payload, m);
    law_found(moved.db, "moves"@, id);
    lemma_movement_read(id, payload, p, user, m.iso);
    law_whole_sum(stock_of(p), a, quantity, b);
    law_restocked(p, stock, sku);
    law_whole_difference(stock, a + b, quantity, b);
    law_restocked(q, difference(stock, quantity), sku);
    let before = touched(moved, undo_key, later.millis);
    let undoer = authorized(moved, undo_key, managers(), later.millis)->Ok_0;
    let allowing = allowed_by(moved.db.list("users"@), undo, undoer)->Ok_0;
    assert(delete_movement_outcome(moved, undo_key, undo, later) == take_back(
        before,
        record,
        id,
        undoer,
        allowing,
        later,
    ));
    law_take_back(before, record, id, undoer, allowing, later, q);
    lemma_deletion_id(
        m.millis,
        suffix(next_token(shop, m)),
        later.millis,
        suffix(next_token(before, later)),
    );
    let after = delete_movement_outcome(moved, undo_key, undo, later).shop.db;
    assert forall|s: Seq<char>| s != sku implies #[trigger] after.item("products"@, s)
        == shop.db.item("products"@, s) by {
        assert(moved.db.item("products"@, s) == shop.db.item("products"@, s));
    }
}

// ----- counts -----

/// A count makes the stock of its product what was counted, leaves the other products as they
/// were, and is kept under its identifier. It makes a movement exactly where it changes the stock.
pub proof fn law_count(
    shop: ShopView,
    key: Seq<char>,
    payload: Json,
    m: MomentView,
    user: Json,
    p: Json,
)
    requires
        in_order(shop.db),
        authorized(shop, key, managers(), m.millis) == Ok::<Json, Seq<char>>(user),
        shop.db.item("products"@, plain(field(payload, "sku"@))) == Some(p),
    ensures
        ({
            let o = count_outcome(shop, key, payload, m);
            let sku = plain(field(payload, "sku"@));
            let counted_stock = amount(field(payload, "countedStock"@));
            let id = stamped_id("CNT-"@, m.millis, suffix(next_token(shop, m)));
            let move_id = stamped_id("MOV-"@, m.millis, sku);
            &&& o.reply is Ok
            &&& o.shop.db.item("products"@, sku) == Some(restocked(p, counted_stock))
            &&& forall|s: Seq<char>|
                s != sku ==> #[trigger] o.shop.db.item("products"@, s) == shop.db.item(
                    "products"@,
                    s,
                )
            &&& o.shop.db.item("counts"@, id) == Some(count_record(id, payload, p, user, m))
            &&& if same(difference(counted_stock, stock_of(p)), 0) {
                o.shop.db.list("moves"@) == shop.db.list("moves"@)
            } else {
                o.shop.db.item("moves"@, move_id) == Some(
                    adjustment_record(move_id, id, payload, p, user, m.iso),
                )
            }
        }),
{
    let sku = plain(field(payload, "sku"@));
    let counted_stock = amount(field(payload, "countedStock"@));
    let id = stamped_id("CNT-"@, m.millis, suffix(next_token(shop, m)));
    let move_id = stamped_id("MOV-"@, m.millis, sku);
    let record = count_record(id, payload, p, user, m);
    lemma_own_fields();
    reveal_strlit("counts");
    reveal_strlit("moves");
    assert("counts"@.len() == 6 && "moves"@.len() == 5);
    law_found(shop.db, "products"@, sku);
    law_put(shop.db, "counts"@, id, record);
    let put = shop.db.put("counts"@, id, record);
    assert(put.item("products"@, sku) == Some(p));
    lemma_set_stock(put, sku, p, counted_stock);
    let stocked = put.patch("products"@, sku, stock_patch(counted_stock));
    assert forall|s: Seq<char>| s != sku implies #[trigger] stocked.item("products"@, s)
        == shop.db.item("products"@, s) by {
        assert(put.item("products"@, s) == shop.db.item("products"@, s));
    }
    let adjustment = adjustment_record(move_id, id, payload, p, user, m.iso);
    law_put(stocked, "moves"@, move_id, adjustment);
    let after = count_outcome(shop, key, payload, m).shop.db;
    assert forall|s: Seq<char>| s != sku implies #[trigger] after.item("products"@, s)
        == shop.db.item("products"@, s) by {
        assert(stocked.item("products"@, s) == shop.db.item("products"@, s));
        assert(stocked.put("moves"@, move_id, adjustment).item("products"@, s) == stocked.item(
            "products"@,
            s,
        ));
    }
}

/// Counting the same again changes no stock and makes no movement.
pub proof fn law_count_again(
    shop: ShopView,
    key: Seq<char>,
    payload: Json,
    m: MomentView,
    user: Json,
    p: Json,
    again_key: Seq<char>,
    again: Json,
    later: MomentView,
    counter: Json,
)
    requires
        in_order(shop.db),
        authorized(shop, key, managers(), m.millis) == Ok::<Json, Seq<char>>(user),
        shop.db.item("products"@, plain(field(payload, "sku"@))) == Some(p),
        is_finite(amount(field(payload, "countedStock"@))),
        plain(field(again, "sku"@)) == plain(field(payload, "sku"@)),
        amount(field(again, "countedStock"@)) == amount(field(payload, "countedStock"@)),
        authorized(
            count_outcome(shop, key, payload, m).shop,
            again_key,
            managers(),
            later.millis,
        ) == Ok::<Json, Seq<char>>(counter),
    ensures
        ({
            let first = count_outcome(shop, key, payload, m).shop;
            let second = count_outcome(first, again_key, again, later).shop;
            &&& second.db.list("moves"@) == first.db.list("moves"@)
            &&& forall|s: Seq<char>| #[trigger]
                second.db.item("products"@, s) == first.db.item("products"@, s)
        }),
{
    let first = count_outcome(shop, key, payload, m).shop;
    let second = count_outcome(first, again_key, again, later).shop;
    let sku = plain(field(payload, "sku"@));
    let c = amount(field(payload, "countedStock"@));
    lemma_own_fields();
    law_found(shop.db, "products"@, sku);
    law_count(shop, key, payload, m, user, p);
    lemma_count_in_order(shop, key, payload, m);
    law_restocked(p, c, sku);
    let q = restocked(p, c);
    law_count(first, again_key, again, later, counter, q);
    assert(value(opposite(c)) == -value(c));
    assert(is_finite(opposite(c)));
    assert(same(difference(c, c), 0));
    lemma_restocked_twice(p, c, c);
    assert forall|s: Seq<char>| #[trigger] second.db.item("products"@, s) == first.db.item(
        "products"@,
        s,
    ) by {
        if s != sku {
            assert(second.db.item("products"@, s) == first.db.item("products"@, s));
        }
    }
}

// ----- sales -----

/// Whether a product is on a line of a ticket.
pub open spec fn has_line(lines: Seq<Json>, sku: Seq<char>) -> bool
    decreases lines.len(),
{
    lines.len() > 0 && (line_sku(lines.last()) == sku || has_line(lines.drop_last(), sku))
}

/// A product after a ticket was sold: one that is on it has what its lines left of its stock.
pub open spec fn after_sale(p: Option<Json>, lines: Seq<Json>, sku: Seq<char>) -> Option<Json> {
    match p {
        Some(p) if has_line(lines, sku) => Some(restocked(p, left_after(p, lines, sku))),
        _ => p,
    }
}

/// Before the first line with a product, all of its stock is left.
proof fn lemma_untouched(p: Json, lines: Seq<Json>, sku: Seq<char>)
    requires
        !has_line(lines, sku),
    ensures
        left_after(p, lines, sku) == stock_of(p),
    decreases lines.len(),
{
    if lines.len() > 0 {
        lemma_untouched(p, lines.drop_last(), sku);
    }
}

/// The identifier of the movement that a line makes.
pub open spec fn line_move_id(lines: Seq<Json>, i: int, m: MomentView, clock: Seq<i64>) -> Seq<char> {
    stamped_id("MOV-"@, tick(clock, i, m.millis), line_sku(lines[i]))
}

/// The stock that a line finds: what the lines before it left of its product.
pub open spec fn found_by(db: StoreView, lines: Seq<Json>, i: int) -> u64 {
    let sku = line_sku(lines[i]);
    left_after(db.item("products"@, sku)->0, lines.take(i), sku)
}

proof fn lemma_sold_products(
    db: StoreView,
    lines: Seq<Json>,
    sale: Seq<char>,
    user: Json,
    m: MomentView,
    clock: Seq<i64>,
    sku: Seq<char>,
)
    requires
        in_order(db),
    ensures
        sold(db, db.list("products"@), lines, sale, user, m, clock).item("products"@, sku)
            == after_sale(db.item("products"@, sku), lines, sku),
    decreases lines.len(),
{
    if lines.len() > 0 {
        let products = db.list("products"@);
        let line = lines.last();
        let s = line_sku(line);
        let before = sold(db, products, lines.drop_last(), sale, user, m, clock);
        lemma_own_fields();
        law_found(db, "products"@, s);
        lemma_sold_products(db, lines.drop_last(), sale, user, m, clock, sku);
        lemma_sold_products(db, lines.drop_last(), sale, user, m, clock, s);
        if let Some(p) = product_with(products, s) {
            let found = left_after(p, lines.drop_last(), s);
            let left = left_after(p, lines, s);
            let id = stamped_id("MOV-"@, tick(clock, lines.len() - 1, m.millis), s);
            let now = before.item("products"@, s)->0;
            lemma_set_stock(before, s, now, left);
            let stocked = before.patch("products"@, s, stock_patch(left));
            law_put(stocked, "moves"@, id, sale_movement(id, p, line, found, sale, user, m.iso));
            lemma_restocked_twice(p, found, left);
        }
    }
}

proof fn lemma_sold_moves(
    db: StoreView,
    lines: Seq<Json>,
    sale: Seq<char>,
    user: Json,
    m: MomentView,
    clock: Seq<i64>,
    i: int,
)
    requires
        in_order(db),
        0 <= i < lines.len(),
        db.item("products"@, line_sku(lines[i])) is Some,
        forall|j: int|
            i < j < lines.len() ==> #[trigger] line_move_id(lines, j, m, clock) != line_move_id(
                lines,
                i,
                m,
                clock,
            ),
    ensures
        sold(db, db.list("products"@), lines, sale, user, m, clock).item(
            "moves"@,
            line_move_id(lines, i, m, clock),
        ) == Some(
            sale_movement(
                line_move_id(lines, i, m, clock),
                db.item("products"@, line_sku(lines[i]))->0,
                lines[i],
                found_by(db, lines, i),
                sale,
                user,
                m.iso,
            ),
        ),
    decreases lines.len(),
{
    let products = db.list("products"@);
    let last: int = lines.len() - 1;
    let line = lines.last();
    let s = line_sku(line);
    let before = sold(db, products, lines.drop_last(), sale, user, m, clock);
    let target = line_move_id(lines, i, m, clock);
    lemma_own_fields();
    law_found(db, "products"@, s);
    law_found(db, "products"@, line_sku(lines[i]));
    lemma_sold_products(db, lines.drop_last(), sale, user, m, clock, s);
    assert(lines.take(last) =~= lines.drop_last());
    if i < last {
        assert(lines.take(i) =~= lines.drop_last().take(i));
        assert forall|j: int| i < j < lines.len() - 1 implies #[trigger] line_move_id(
            lines.drop_last(),
            j,
            m,
            clock,
        ) != line_move_id(lines.drop_last(), i, m, clock) by {
            assert(line_move_id(lines.drop_last(), j, m, clock) == line_move_id(
                lines,
                j,
                m,
                clock,
            ));
        }
        lemma_sold_moves(db, lines.drop_last(), sale, user, m, clock, i);
        assert(line_move_id(lines, last, m, clock) != target);
    }
    if let Some(p) = product_with(products, s) {
        let found = left_after(p, lines.drop_last(), s);
        let left = left_after(p, lines, s);
        let id = stamped_id("MOV-"@, tick(clock, last, m.millis), s);
        let now = before.item("products"@, s)->0;
        lemma_set_stock(before, s, now, left);
        let stocked = before.patch("products"@, s, stock_patch(left));
        assert(stocked.item("moves"@, target) == before.item("moves"@, target));
        law_put(stocked, "moves"@, id, sale_movement(id, p, line, found, sale, user, m.iso));
    }
}

/// Whether a ticket is sold: it is not empty, has no fault, and was not sold before.
pub open spec fn is_new_sale(shop: ShopView, payload: Json, millis: i64) -> bool {
    &&& items_of(payload).len() > 0
    &&& ticket_fault(shop.db.list("products"@), items_of(payload)) is None
    &&& shop.db.item("sales"@, sale_id(payload, millis)) is None
}

/// A ticket that is sold is kept under its identifier; every product on it has all of its lines
/// taken off its stock, one after the other, and the others are as they were; and each line leaves
/// its movement, as long as no later line has one with the same identifier.
pub proof fn law_sale(
    shop: ShopView,
    key: Seq<char>,
    payload: Json,
    text: Seq<char>,
    m: MomentView,
    clock: Seq<i64>,
    user: Json,
)
    requires
        in_order(shop.db),
        authorized(shop, key, staff(), m.millis) == Ok::<Json, Seq<char>>(user),
        is_new_sale(shop, payload, m.millis),
    ensures
        ({
            let o = checkout_outcome(shop, key, payload, text, m, clock);
            let lines = items_of(payload);
            let id = sale_id(payload, m.millis);
            let record = sale_record(
                id,
                payload,
                text,
                shop.db.list("products"@),
                user,
                m.iso,
            );
            &&& o.reply == Ok::<Json, Seq<char>>(Json::Object(yes().insert("sale"@, record)))
            &&& o.shop.db.item("sales"@, id) == Some(record)
            &&& forall|s: Seq<char>|
                #[trigger] o.shop.db.item("products"@, s) == after_sale(
                    shop.db.item("products"@, s),
                    lines,
                    s,
                )
            &&& forall|i: int|
                #![trigger lines[i]]
                0 <= i < lines.len() && (forall|j: int|
                    i < j < lines.len() ==> #[trigger] line_move_id(lines, j, m, clock)
                        != line_move_id(lines, i, m, clock)) ==> o.shop.db.item(
                    "moves"@,
                    line_move_id(lines, i, m, clock),
                ) == Some(
                    sale_movement(
                        line_move_id(lines, i, m, clock),
                        shop.db.item("products"@, line_sku(lines[i]))->0,
                        lines[i],
                        found_by(shop.db, lines, i),
                        id,
                        user,
                        m.iso,
                    ),
                )
        }),
{
    let lines = items_of(payload);
    let products = shop.db.list("products"@);
    let id = sale_id(payload, m.millis);
    let record = sale_record(id, payload, text, products, user, m.iso);
    let o = checkout_outcome(shop, key, payload, text, m, clock);
    let before = sold(shop.db, products, lines, id, user, m, clock);
    lemma_own_fields();
    reveal_strlit("sales");
    reveal_strlit("moves");
    assert("sales"@[0] == 's' && "moves"@[0] == 'm');
    law_found(shop.db, "sales"@, id);
    law_put(before, "sales"@, id, record);
    assert forall|s: Seq<char>| #[trigger] o.shop.db.item("products"@, s) == after_sale(
        shop.db.item("products"@, s),
        lines,
        s,
    ) by {
        lemma_sold_products(shop.db, lines, id, user, m, clock, s);
        assert(before.put("sales"@, id, record).item("products"@, s) == before.item(
            "products"@,
            s,
        ));
    }
    assert forall|i: int|
        #![trigger lines[i]]
        0 <= i < lines.len() && (forall|j: int|
            i < j < lines.len() ==> #[trigger] line_move_id(lines, j, m, clock) != line_move_id(
                lines,
                i,
                m,
                clock,
            )) implies o.shop.db.item("moves"@, line_move_id(lines, i, m, clock)) == Some(
        sale_movement(
            line_move_id(lines, i, m, clock),
            shop.db.item("products"@, line_sku(lines[i]))->0,
            lines[i],
            found_by(shop.db, lines, i),
            id,
            user,
            m.iso,
        ),
    ) by {
        lemma_no_fault(products, lines, i);
        law_found(shop.db, "products"@, line_sku(lines[i]));
        lemma_sold_moves(shop.db, lines, id, user, m, clock, i);
        assert(before.put("sales"@, id, record).item("moves"@, line_move_id(lines, i, m, clock))
            == before.item("moves"@, line_move_id(lines, i, m, clock)));
    }
}

/// A ticket without a fault has none on any line.
proof fn lemma_no_fault(products: Seq<Json>, lines: Seq<Json>, i: int)
    requires
        ticket_fault(products, lines) is None,
        0 <= i < lines.len(),
    ensures
        line_fault(products, lines[i]) is None,
    decreases lines.len(),
{
    if i < lines.len() - 1 {
        lemma_no_fault(products, lines.drop_last(), i);
    }
}

/// Whether every line of a product takes no more than the lines before it left, and a quantity that
/// is a number and not below zero.
pub open spec fn is_covered(p: Json, lines: Seq<Json>, sku: Seq<char>) -> bool {
    forall|i: int|
        0 <= i < lines.len() && line_sku(#[trigger] lines[i]) == sku ==> is_finite(
            line_qty(lines[i]),
        ) && !less(line_qty(lines[i]), 0) && !less(
            left_after(p, lines.take(i), sku),
            line_qty(lines[i]),
        )
}

proof fn lemma_covered(p: Json, lines: Seq<Json>, sku: Seq<char>)
    requires
        is_finite(stock_of(p)),
        !less(stock_of(p), 0),
        is_covered(p, lines, sku),
    ensures
        is_finite(left_after(p, lines, sku)),
        !less(left_after(p, lines, sku), 0),
    decreases lines.len(),
{
    if lines.len() > 0 {
        let before = lines.drop_last();
        let last: int = lines.len() - 1;
        assert forall|i: int| 0 <= i < before.len() && line_sku(#[trigger] before[i]) == sku implies is_finite(
            line_qty(before[i]),
        ) && !less(line_qty(before[i]), 0) && !less(
            left_after(p, before.take(i), sku),
            line_qty(before[i]),
        ) by {
            assert(before[i] == lines[i]);
            assert(before.take(i) =~= lines.take(i));
        }
        lemma_covered(p, before, sku);
        assert(lines.take(last) =~= before);
        if line_sku(lines[last]) == sku {
            law_nothing_below_zero(left_after(p, before, sku), line_qty(lines[last]));
        }
    }
}

/// A sale whose lines of a product take no more than there is does not take its stock below zero.
pub proof fn law_sale_within_stock(p: Json, lines: Seq<Json>, sku: Seq<char>)
    requires
        p is Object,
        is_finite(stock_of(p)),
        !less(stock_of(p), 0),
        is_covered(p, lines, sku),
    ensures
        after_sale(Some(p), lines, sku) matches Some(q) && !less(stock_of(q), 0),
{
    lemma_covered(p, lines, sku);
    law_restocked(p, left_after(p, lines, sku), sku);
}

/// A product with a single line is covered in a ticket without a fault.
pub proof fn law_single_line_is_covered(
    shop: ShopView,
    payload: Json,
    millis: i64,
    sku: Seq<char>,
    p: Json,
    i: int,
)
    requires
        in_order(shop.db),
        is_new_sale(shop, payload, millis),
        shop.db.item("products"@, sku) == Some(p),
        0 <= i < items_of(payload).len(),
        forall|j: int|
            0 <= j < items_of(payload).len() && j != i ==> line_sku(
                #[trigger] items_of(payload)[j],
            ) != sku,
        is_finite(line_qty(items_of(payload)[i])),
    ensures
        is_covered(p, items_of(payload), sku),
{
    let lines = items_of(payload);
    lemma_own_fields();
    lemma_no_fault(shop.db.list("products"@), lines, i);
    law_found(shop.db, "products"@, sku);
    lemma_no_line(lines, i, sku);
    lemma_untouched(p, lines.take(i), sku);
}

proof fn lemma_no_line(lines: Seq<Json>, n: int, sku: Seq<char>)
    requires
        0 <= n <= lines.len(),
        forall|j: int| 0 <= j < n ==> line_sku(#[trigger] lines[j]) != sku,
    ensures
        !has_line(lines.take(n), sku),
    decreases n,
{
    if n > 0 {
        lemma_no_line(lines, n - 1, sku);
        assert(lines.take(n).drop_last() =~= lines.take(n - 1));
        assert(line_sku(lines[n - 1]) != sku);
    }
}

/// How many pieces of a product the lines take, in whole numbers.
pub open spec fn pieces(lines: Seq<Json>, sku: Seq<char>) -> int
    decreases lines.len(),
{
    if lines.len() == 0 {
        0
    } else {
        pieces(lines.drop_last(), sku) + if line_sku(lines.last()) == sku {
            whole_part(line_qty(lines.last()))
        } else {
            0
        }
    }
}

/// Everything that a ticket sells leaves the inventory: where a product has `a` pieces and its
/// lines take whole numbers of them, `a` less all of these are left.
pub proof fn law_sale_takes_everything(p: Json, lines: Seq<Json>, sku: Seq<char>, a: int)
    requires
        is_whole(stock_of(p), a),
        -TWO53 < a < TWO53,
        -TWO53 < a - pieces(lines, sku),
        forall|i: int|
            0 <= i < lines.len() && line_sku(#[trigger] lines[i]) == sku ==> is_count(
                line_qty(lines[i]),
            ),
    ensures
        is_whole(left_after(p, lines, sku), a - pieces(lines, sku)),
        pieces(lines, sku) >= 0,
        pieces(lines, sku) <= a ==> !less(left_after(p, lines, sku), 0),
    decreases lines.len(),
{
    lemma_parts(0);
    if lines.len() > 0 {
        let before = lines.drop_last();
        let line = lines.last();
        assert(line == lines[lines.len() - 1]);
        assert forall|i: int| 0 <= i < before.len() && line_sku(#[trigger] before[i]) == sku implies is_count(
            line_qty(before[i]),
        ) by {
            assert(before[i] == lines[i]);
        }
        law_sale_takes_everything(p, before, sku, a);
        if line_sku(line) == sku {
            law_whole_difference(
                left_after(p, before, sku),
                a - pieces(before, sku),
                line_qty(line),
                whole_part(line_qty(line)),
            );
        }
    }
    lemma_sides(left_after(p, lines, sku), a - pieces(lines, sku));
    lemma_parts(magnitude(left_after(p, lines, sku)));
    assert(0 * pow2(1074) == 0) by (nonlinear_arith);
}

/// A sale is taken out of the inventory: a product that had `a` pieces has `a` less all that the
/// ticket sells of it, and is otherwise as it was.
pub proof fn law_sale_discounts_inventory(
    shop: ShopView,
    key: Seq<char>,
    payload: Json,
    text: Seq<char>,
    m: MomentView,
    clock: Seq<i64>,
    user: Json,
    sku: Seq<char>,
    p: Json,
    a: int,
)
    requires
        in_order(shop.db),
        authorized(shop, key, staff(), m.millis) == Ok::<Json, Seq<char>>(user),
        is_new_sale(shop, payload, m.millis),
        shop.db.item("products"@, sku) == Some(p),
        is_whole(stock_of(p), a),
        -TWO53 < a < TWO53,
        -TWO53 < a - pieces(items_of(payload), sku),
        forall|i: int|
            0 <= i < items_of(payload).len() && line_sku(#[trigger] items_of(payload)[i]) == sku
                ==> is_count(line_qty(items_of(payload)[i])),
    ensures
        ({
            let after = checkout_outcome(shop, key, payload, text, m, clock).shop.db;
            &&& after.item("products"@, sku) matches Some(q) && is_whole(
                stock_of(q),
                a - pieces(items_of(payload), sku),
            )
            &&& forall|k: Seq<char>|
                k != "stock"@ ==> #[trigger] field(after.item("products"@, sku)->0, k) == field(
                    p,
                    k,
                )
        }),
{
    let lines = items_of(payload);
    let after = checkout_outcome(shop, key, payload, text, m, clock).shop.db;
    let left = left_after(p, lines, sku);
    lemma_own_fields();
    law_found(shop.db, "products"@, sku);
    law_sale(shop, key, payload, text, m, clock, user);
    law_sale_takes_everything(p, lines, sku, a);
    assert(after.item("products"@, sku) == after_sale(Some(p), lines, sku));
    if has_line(lines, sku) {
        law_restocked(p, left, sku);
        assert forall|k: Seq<char>| k != "stock"@ implies #[trigger] field(
            after.item("products"@, sku)->0,
            k,
        ) == field(p, k) by {
            law_restocked(p, left, k);
        }
    } else {
        lemma_untouched(p, lines, sku);
    }
}

/// A ticket is sold once: asked again under the same identifier, the shop shows the sale and
/// changes nothing.
pub proof fn law_sold_once(
    shop: ShopView,
    key: Seq<char>,
    payload: Json,
    text: Seq<char>,
    m: MomentView,
    clock: Seq<i64>,
    user: Json,
    again_key: Seq<char>,
    again: Json,
    again_text: Seq<char>,
    later: MomentView,
    again_clock: Seq<i64>,
    seller: Json,
)
    requires
        in_order(shop.db),
        authorized(shop, key, staff(), m.millis) == Ok::<Json, Seq<char>>(user),
        is_new_sale(shop, payload, m.millis),
        items_of(again).len() > 0,
        sale_id(again, later.millis) == sale_id(payload, m.millis),
        authorized(
            checkout_outcome(shop, key, payload, text, m, clock).shop,
            again_key,
            staff(),
            later.millis,
        ) == Ok::<Json, Seq<char>>(seller),
    ensures
        ({
            let first = checkout_outcome(shop, key, payload, text, m, clock).shop;
            let second = checkout_outcome(first, again_key, again, again_text, later, again_clock);
            let record = sale_record(
                sale_id(payload, m.millis),
                payload,
                text,
                shop.db.list("products"@),
                user,
                m.iso,
            );
            &&& second.reply == Ok::<Json, Seq<char>>(
                Json::Object(
                    yes().insert("sale"@, record).insert("duplicate"@, Json::Bool(true)),
                ),
            )
            &&& second.shop.db == first.db
        }),
{
    let first = checkout_outcome(shop, key, payload, text, m, clock).shop;
    lemma_own_fields();
    law_sale(shop, key, payload, text, m, clock, user);
    lemma_checkout_in_order(shop, key, payload, text, m, clock);
    law_found(first.db, "sales"@, sale_id(payload, m.millis));
}

// ----- a queue -----

/// A queue is answered item by item, and an item that is refused leaves the store as it was.
pub proof fn law_queue(
    shop: ShopView,
    key: Seq<char>,
    items: Seq<Json>,
    texts: Seq<Seq<char>>,
    rs: Seq<ReadingView>,
)
    ensures
        queue_run(shop, key, items, texts, rs).1.len() == items.len(),
        items.len() > 0 && field(
            queue_run(shop, key, items, texts, rs).1.last(),
            "ok"@,
        ) == Some(Json::Bool(false)) ==> queue_run(shop, key, items, texts, rs).0.db == queue_run(
            shop,
            key,
            items.drop_last(),
            texts,
            rs,
        ).0.db,
    decreases items.len(),
{
    if items.len() > 0 {
        law_queue(shop, key, items.drop_last(), texts, rs);
        reveal_strlit("ok");
        reveal_strlit("sale");
        reveal_strlit("duplicate");
        assert("ok"@.len() == 2 && "sale"@.len() == 4 && "duplicate"@.len() == 9);
    }
}

// ----- what a ticket comes to -----

/// The whole number that a number is.
pub open spec fn whole_part(x: u64) -> int {
    value(x) / (pow2(1074) as int)
}

/// Whether a number is a whole number that is not negative.
pub open spec fn is_count(x: u64) -> bool {
    is_whole(x, whole_part(x)) && whole_part(x) >= 0
}

/// What the lines come to, in whole numbers.
pub open spec fn whole_total(products: Seq<Json>, lines: Seq<Json>) -> int
    decreases lines.len(),
{
    if lines.len() == 0 {
        0
    } else {
        let line = lines.last();
        whole_total(products, lines.drop_last()) + whole_part(
            line_amount(products, line, "price"@),
        ) * whole_part(line_qty(line))
    }
}

/// What a ticket comes to is exact, where its prices and quantities are whole numbers and the total
/// is below 2^53.
pub proof fn law_whole_total(products: Seq<Json>, lines: Seq<Json>)
    requires
        forall|i: int|
            0 <= i < lines.len() ==> is_count(line_amount(products, #[trigger] lines[i], "price"@))
                && is_count(line_qty(lines[i])),
        whole_total(products, lines) < TWO53,
    ensures
        is_whole(subtotal(products, lines), whole_total(products, lines)),
        whole_total(products, lines) >= 0,
    decreases lines.len(),
{
    if lines.len() == 0 {
        lemma_parts(0);
        assert(0 * pow2(1074) == 0) by (nonlinear_arith);
    } else {
        let before = lines.drop_last();
        let line = lines.last();
        let price = line_amount(products, line, "price"@);
        let qty = line_qty(line);
        let a = whole_part(price);
        let b = whole_part(qty);
        assert(line == lines[lines.len() - 1]);
        assert(a * b >= 0) by (nonlinear_arith)
            requires
                a >= 0,
                b >= 0,
        ;
        assert forall|i: int| 0 <= i < before.len() implies is_count(
            line_amount(products, #[trigger] before[i], "price"@),
        ) && is_count(line_qty(before[i])) by {
            assert(before[i] == lines[i]);
        }
        lemma_total_not_negative(products, before);
        law_whole_total(products, before);
        law_whole_product(price, a, qty, b);
        law_whole_sum(subtotal(products, before), whole_total(products, before), product(price, qty), a * b);
    }
}

proof fn lemma_total_not_negative(products: Seq<Json>, lines: Seq<Json>)
    requires
        forall|i: int|
            0 <= i < lines.len() ==> is_count(line_amount(products, #[trigger] lines[i], "price"@))
                && is_count(line_qty(lines[i])),
    ensures
        whole_total(products, lines) >= 0,
    decreases lines.len(),
{
    if lines.len() > 0 {
        let before = lines.drop_last();
        let line = lines.last();
        let a = whole_part(line_amount(products, line, "price"@));
        let b = whole_part(line_qty(line));
        assert(line == lines[lines.len() - 1]);
        assert(a * b >= 0) by (nonlinear_arith)
            requires
                a >= 0,
                b >= 0,
        ;
        assert forall|i: int| 0 <= i < before.len() implies is_count(
            line_amount(products, #[trigger] before[i], "price"@),
        ) && is_count(line_qty(before[i])) by {
            assert(before[i] == lines[i]);
        }
        lemma_total_not_negative(products, before);
    }
}

} // verus!
