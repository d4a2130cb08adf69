//! Laws of tickets: when one is sold, what it comes to, what is written down of it, and what it
//! leaves of the stock; and of queues of them.

use crate::clock::MomentView;
use crate::double::{difference, less, opposite, product, sum, TWO53};
use crate::json::{amount, field, float, plain, Json};
use crate::laws::inventory::{
    after_sale, found_by, has_line, is_count, law_sale, law_whole_total, line_move_id, stock_of,
    whole_part, whole_total,
};
use crate::laws::movements::{goes_by, holds, only_at, says, told_or};
use crate::laws::numbers::{is_whole, law_amounts_are_numbers};
use crate::laws::records::{in_order, law_found, lemma_own_fields};
use crate::laws::words::{
    lemma_reply_words, lemma_sales_words, lemma_stock_words, lemma_store_words,
};
use crate::sales::{
    checkout_outcome, items_of, left_after, line_amount, line_fault, line_qty, line_sku, profit,
    queue_run, queue_step, sale_id, sale_movement, sale_record, sold, subtotal, sync_batch_outcome,
    tick, ticket_fault, ReadingView,
};
use crate::shop::ShopView;
use crate::stock::{product_with, stamped_id, stock_patch};
use crate::store::{law_put, StoreView};
use crate::text::decimal;
use crate::users::{authorized, staff, touched};
use vstd::prelude::*;

verus! {

// ----- what a ticket asks for -----

/// The lines of a ticket.
pub open spec fn ticket_lines(payload: Json) -> Seq<Json> {
    match field(payload, "items"@) {
        Some(Json::Array(xs)) => xs,
        _ => Seq::empty(),
    }
}

/// The identifier of a ticket: the one of the client, or another one in the request, or one made
/// from the moment.
pub open spec fn ticket_name(payload: Json, m: MomentView) -> Seq<char> {
    told_or(
        payload,
        "clientId"@,
        told_or(payload, "id"@, "SALE-"@ + decimal(m.millis as int)),
    )
}

/// The product that a line names.
pub open spec fn on_line(db: StoreView, line: Json) -> Option<Json> {
    db.item("products"@, plain(field(line, "sku"@)))
}

/// The quantity that a line asks for.
pub open spec fn asked(line: Json) -> u64 {
    amount(field(line, "qty"@))
}

/// Whether a line can be sold: there is such a product, something is asked for, and the stock is no
/// less than that.
pub open spec fn sellable(db: StoreView, line: Json) -> bool {
    &&& on_line(db, line) is Some
    &&& less(0, asked(line))
    &&& !less(amount(field(on_line(db, line)->0, "stock"@)), asked(line))
}

/// Why a line cannot be sold.
pub open spec fn complaint(db: StoreView, line: Json) -> Seq<char> {
    match on_line(db, line) {
        None => "Producto no encontrado: "@ + plain(field(line, "sku"@)),
        Some(p) => if less(0, asked(line)) {
            "Stock insuficiente: "@ + plain(field(p, "name"@))
        } else {
            "Cantidad invalida"@
        },
    }
}

/// A number of the product that a line names.
pub open spec fn of_product(db: StoreView, line: Json, key: Seq<char>) -> u64 {
    match on_line(db, line) {
        Some(p) => amount(field(p, key)),
        None => 0,
    }
}

/// What the lines come to: each adds its price times its quantity.
pub open spec fn billed(db: StoreView, lines: Seq<Json>) -> u64
    decreases lines.len(),
{
    if lines.len() == 0 {
        0
    } else {
        sum(
            billed(db, lines.drop_last()),
            product(of_product(db, lines.last(), "price"@), asked(lines.last())),
        )
    }
}

/// What the lines earn: each adds its price less its cost, times its quantity.
pub open spec fn earned(db: StoreView, lines: Seq<Json>) -> u64
    decreases lines.len(),
{
    if lines.len() == 0 {
        0
    } else {
        sum(
            earned(db, lines.drop_last()),
            product(
                difference(
                    of_product(db, lines.last(), "price"@),
                    of_product(db, lines.last(), "cost"@),
                ),
                asked(lines.last()),
            ),
        )
    }
}

/// What the lines leave of a stock of the product with a code.
pub open spec fn left_of(stock: u64, lines: Seq<Json>, sku: Seq<char>) -> u64
    decreases lines.len(),
{
    if lines.len() == 0 {
        stock
    } else if plain(field(lines.last(), "sku"@)) == sku {
        difference(left_of(stock, lines.drop_last(), sku), asked(lines.last()))
    } else {
        left_of(stock, lines.drop_last(), sku)
    }
}

/// Whether a product is on one of the lines.
pub open spec fn is_on(lines: Seq<Json>, sku: Seq<char>) -> bool {
    exists|i: int| 0 <= i < lines.len() && plain(field(#[trigger] lines[i], "sku"@)) == sku
}

proof fn lemma_line(db: StoreView, line: Json)
    requires
        in_order(db),
    ensures
        product_with(db.list("products"@), line_sku(line)) == on_line(db, line),
        line_fault(db.list("products"@), line) == (if sellable(db, line) {
            None
        } else {
            Some(complaint(db, line))
        }),
        line_amount(db.list("products"@), line, "price"@) == of_product(db, line, "price"@),
        line_amount(db.list("products"@), line, "cost"@) == of_product(db, line, "cost"@),
{
    lemma_own_fields();
    law_found(db, "products"@, line_sku(line));
    law_amounts_are_numbers(field(line, "qty"@));
}

proof fn lemma_bill(db: StoreView, lines: Seq<Json>)
    requires
        in_order(db),
    ensures
        subtotal(db.list("products"@), lines) == billed(db, lines),
        profit(db.list("products"@), lines) == earned(db, lines),
    decreases lines.len(),
{
    if lines.len() > 0 {
        lemma_line(db, lines.last());
        lemma_bill(db, lines.drop_last());
    }
}

proof fn lemma_left(p: Json, lines: Seq<Json>, sku: Seq<char>)
    ensures
        left_after(p, lines, sku) == left_of(stock_of(p), lines, sku),
        has_line(lines, sku) == is_on(lines, sku),
        !is_on(lines, sku) ==> left_of(stock_of(p), lines, sku) == stock_of(p),
    decreases lines.len(),
{
    if lines.len() > 0 {
        let before = lines.drop_last();
        let last: int = lines.len() - 1;
        lemma_left(p, before, sku);
        assert(lines[last] == lines.last());
        if is_on(before, sku) {
            let i = choose|i: int|
                0 <= i < before.len() && plain(field(#[trigger] before[i], "sku"@)) == sku;
            assert(plain(field(lines[i], "sku"@)) == sku);
        }
        if is_on(lines, sku) && line_sku(lines.last()) != sku {
            let i = choose|i: int|
                0 <= i < lines.len() && plain(field(#[trigger] lines[i], "sku"@)) == sku;
            assert(plain(field(before[i], "sku"@)) == sku);
        }
    }
}

/// The fault of a ticket is that of the first line that cannot be sold.
proof fn lemma_ticket_fault(db: StoreView, lines: Seq<Json>)
    requires
        in_order(db),
    ensures
        ticket_fault(db.list("products"@), lines) is None <==> forall|i: int|
            0 <= i < lines.len() ==> sellable(db, #[trigger] lines[i]),
        forall|i: int|
            0 <= i < lines.len() && !sellable(db, #[trigger] lines[i]) && (forall|j: int|
                0 <= j < i ==> sellable(db, #[trigger] lines[j])) ==> ticket_fault(
                db.list("products"@),
                lines,
            ) == Some(complaint(db, lines[i])),
    decreases lines.len(),
{
    if lines.len() > 0 {
        let before = lines.drop_last();
        let last: int = lines.len() - 1;
        let products = db.list("products"@);
        lemma_ticket_fault(db, before);
        lemma_line(db, lines.last());
        assert(lines[last] == lines.last());
        assert forall|j: int| 0 <= j < before.len() implies #[trigger] before[j] == lines[j] by {}
        if ticket_fault(products, lines) is None {
            assert forall|i: int| 0 <= i < lines.len() implies sellable(db, #[trigger] lines[i]) by {
                if i < last {
                    assert(sellable(db, before[i]));
                }
            }
        }
        if forall|i: int| 0 <= i < lines.len() ==> sellable(db, #[trigger] lines[i]) {
            assert forall|i: int| 0 <= i < before.len() implies sellable(db, #[trigger] before[i]) by {
                assert(sellable(db, lines[i]));
            }
        }
        assert forall|i: int|
            0 <= i < lines.len() && !sellable(db, #[trigger] lines[i]) && (forall|j: int|
                0 <= j < i ==> sellable(db, #[trigger] lines[j])) implies ticket_fault(
            products,
            lines,
        ) == Some(complaint(db, lines[i])) by {
            assert forall|j: int| 0 <= j < i implies sellable(db, #[trigger] before[j]) by {
                assert(sellable(db, lines[j]));
            }
            if i < last {
                assert(!sellable(db, before[i]));
            }
        }
    }
}

// ----- when a ticket is sold -----

/// A ticket without lines is refused; one that was sold before is shown again and nothing changes;
/// and else the first line that cannot be sold refuses the whole ticket.
pub proof fn law_ticket_not_sold(
    shop: ShopView,
    key: Seq<char>,
    payload: Json,
    text: Seq<char>,
    m: MomentView,
    clock: Seq<i64>,
    user: Json,
)
    requires
        in_order(shop.db),
        authorized(shop, key, staff(), m.millis) == Ok::<Json, Seq<char>>(user),
    ensures
        ({
            let o = checkout_outcome(shop, key, payload, text, m, clock);
            let lines = ticket_lines(payload);
            let before = shop.db.item("sales"@, ticket_name(payload, m));
            &&& lines.len() == 0 ==> o.reply == Err::<Json, Seq<char>>("Ticket vacio"@)
                && o.shop.db == shop.db
            &&& lines.len() > 0 && before is Some ==> o.reply == Ok::<Json, Seq<char>>(
                Json::Object(
                    map![
                        "ok"@ => Json::Bool(true),
                        "sale"@ => before->0,
                        "duplicate"@ => Json::Bool(true),
                    ],
                ),
            ) && o.shop.db == shop.db
            &&& forall|i: int|
                0 <= i < lines.len() && before is None && !sellable(shop.db, #[trigger] lines[i]) && (
                forall|j: int| 0 <= j < i ==> sellable(shop.db, #[trigger] lines[j])) ==> o.reply
                    == Err::<Json, Seq<char>>(complaint(shop.db, lines[i])) && o.shop.db == shop.db
        }),
{
    let lines = ticket_lines(payload);
    lemma_own_fields();
    law_found(shop.db, "sales"@, ticket_name(payload, m));
    assert(sale_id(payload, m.millis) == ticket_name(payload, m));
    assert(items_of(payload) == lines);
    lemma_ticket_fault(shop.db, lines);
    if let Some(s) = shop.db.item("sales"@, ticket_name(payload, m)) {
        assert(crate::reply::yes().insert("sale"@, s).insert("duplicate"@, Json::Bool(true)) =~= map![
            "ok"@ => Json::Bool(true),
            "sale"@ => s,
            "duplicate"@ => Json::Bool(true),
        ]);
    }
}

/// Whether a ticket can be sold: it has lines, each of them can be sold, and no sale has its
/// identifier.
pub open spec fn is_sold(shop: ShopView, payload: Json, m: MomentView) -> bool {
    &&& ticket_lines(payload).len() > 0
    &&& forall|i: int|
        0 <= i < ticket_lines(payload).len() ==> sellable(
            shop.db,
            #[trigger] ticket_lines(payload)[i],
        )
    &&& shop.db.item("sales"@, ticket_name(payload, m)) is None
}

/// What is written down of a sale. The total is what the lines come to, whatever the means of
/// payment, and there is no discount.
pub open spec fn tells_sale(
    r: Json,
    db: StoreView,
    payload: Json,
    text: Seq<char>,
    user: Json,
    m: MomentView,
) -> bool {
    let lines = ticket_lines(payload);
    &&& says(r, "id"@, ticket_name(payload, m))
    &&& says(r, "timestamp"@, m.iso)
    &&& says(r, "itemsJson"@, text)
    &&& holds(r, "subtotal"@, billed(db, lines))
    &&& holds(r, "discount"@, 0)
    &&& field(r, "total"@) == field(r, "subtotal"@)
    &&& says(r, "paymentMethod"@, told_or(payload, "paymentMethod"@, "Efectivo"@))
    &&& says(r, "user"@, goes_by(user))
    &&& says(r, "notes"@, Seq::empty())
    &&& holds(r, "profit"@, earned(db, lines))
    &&& r->Object_0.dom() == set![
        "id"@,
        "timestamp"@,
        "itemsJson"@,
        "subtotal"@,
        "discount"@,
        "total"@,
        "paymentMethod"@,
        "user"@,
        "notes"@,
        "profit"@,
    ]
}

proof fn lemma_tells_sale(
    db: StoreView,
    payload: Json,
    text: Seq<char>,
    user: Json,
    m: MomentView,
)
    requires
        in_order(db),
    ensures
        tells_sale(
            sale_record(
                sale_id(payload, m.millis),
                payload,
                text,
                db.list("products"@),
                user,
                m.iso,
            ),
            db,
            payload,
            text,
            user,
            m,
        ),
{
    let r = sale_record(sale_id(payload, m.millis), payload, text, db.list("products"@), user, m.iso);
    lemma_bill(db, ticket_lines(payload));
    lemma_stock_words();
    lemma_sales_words();
    reveal_strlit("");
    assert(""@ =~= Seq::empty());
    assert(r->Object_0.dom() =~= set![
        "id"@,
        "timestamp"@,
        "itemsJson"@,
        "subtotal"@,
        "discount"@,
        "total"@,
        "paymentMethod"@,
        "user"@,
        "notes"@,
        "profit"@,
    ]);
}

/// A ticket that can be sold is: what is written down of the sale is kept under its identifier and
/// is the answer, and no other sale changes.
pub proof fn law_ticket_sold(
    shop: ShopView,
    key: Seq<char>,
    payload: Json,
    text: Seq<char>,
    m: MomentView,
    clock: Seq<i64>,
    user: Json,
)
    requires
        in_order(shop.db),
        authorized(shop, key, staff(), m.millis) == Ok::<Json, Seq<char>>(user),
        is_sold(shop, payload, m),
    ensures
        ({
            let o = checkout_outcome(shop, key, payload, text, m, clock);
            let id = ticket_name(payload, m);
            let r = o.shop.db.item("sales"@, id)->0;
            &&& o.shop.db.item("sales"@, id) is Some
            &&& o.reply == Ok::<Json, Seq<char>>(
                Json::Object(map!["ok"@ => Json::Bool(true), "sale"@ => r]),
            )
            &&& tells_sale(r, shop.db, payload, text, user, m)
            &&& only_at(shop.db, o.shop.db, "sales"@, id)
            &&& o.shop.source == shop.source
        }),
{
    let o = checkout_outcome(shop, key, payload, text, m, clock);
    let lines = ticket_lines(payload);
    let id = ticket_name(payload, m);
    let products = shop.db.list("products"@);
    let r = sale_record(id, payload, text, products, user, m.iso);
    assert(sale_id(payload, m.millis) == id);
    assert(items_of(payload) == lines);
    lemma_ticket_fault(shop.db, lines);
    law_sale(shop, key, payload, text, m, clock, user);
    lemma_tells_sale(shop.db, payload, text, user, m);
    let before = sold(shop.db, products, lines, id, user, m, clock);
    lemma_own_fields();
    lemma_store_words();
    law_found(shop.db, "sales"@, id);
    law_put(before, "sales"@, id, r);
    assert forall|i: Seq<char>| i != id implies #[trigger] o.shop.db.item("sales"@, i)
        == shop.db.item("sales"@, i) by {
        lemma_sold_sales(shop.db, products, lines, id, user, m, clock, i);
        assert(before.put("sales"@, id, r).item("sales"@, i) == before.item("sales"@, i));
    }
    assert(crate::reply::yes().insert("sale"@, r) =~= map!["ok"@ => Json::Bool(true), "sale"@ => r]);
}

proof fn lemma_sold_sales(
    db: StoreView,
    products: Seq<Json>,
    lines: Seq<Json>,
    sale: Seq<char>,
    user: Json,
    m: MomentView,
    clock: Seq<i64>,
    i: Seq<char>,
)
    ensures
        sold(db, products, lines, sale, user, m, clock).item("sales"@, i) == db.item("sales"@, i),
    decreases lines.len(),
{
    if lines.len() > 0 {
        lemma_sold_sales(db, products, lines.drop_last(), sale, user, m, clock, i);
        lemma_store_words();
        let line = lines.last();
        let sku = line_sku(line);
        let before = sold(db, products, lines.drop_last(), sale, user, m, clock);
        if let Some(p) = product_with(products, sku) {
            let found = left_after(p, lines.drop_last(), sku);
            let left = left_after(p, lines, sku);
            let id = stamped_id("MOV-"@, tick(clock, lines.len() - 1, m.millis), sku);
            let current = match before.item("products"@, sku) {
                Some(v) => v,
                None => Json::Object(Map::empty()),
            };
            law_put(before, "products"@, sku, crate::store::merged(current, stock_patch(left)));
            let stocked = before.patch("products"@, sku, stock_patch(left));
            law_put(stocked, "moves"@, id, sale_movement(id, p, line, found, sale, user, m.iso));
            assert(stocked.item("sales"@, i) == before.item("sales"@, i));
        }
    }
}

/// In whole numbers: where the prices and the quantities are whole numbers, the sale that is kept
/// tells the sum of price times quantity as its subtotal and as its total, whatever the means of
/// payment.
pub proof fn law_ticket_total(
    shop: ShopView,
    key: Seq<char>,
    payload: Json,
    text: Seq<char>,
    m: MomentView,
    clock: Seq<i64>,
    user: Json,
)
    requires
        in_order(shop.db),
        authorized(shop, key, staff(), m.millis) == Ok::<Json, Seq<char>>(user),
        is_sold(shop, payload, m),
        forall|i: int|
            0 <= i < ticket_lines(payload).len() ==> is_count(
                of_product(shop.db, #[trigger] ticket_lines(payload)[i], "price"@),
            ) && is_count(asked(ticket_lines(payload)[i])),
        whole_bill(shop.db, ticket_lines(payload)) < TWO53,
    ensures
        ({
            let o = checkout_outcome(shop, key, payload, text, m, clock);
            let r = o.shop.db.item("sales"@, ticket_name(payload, m))->0;
            let n = whole_bill(shop.db, ticket_lines(payload));
            &&& is_whole(amount(field(r, "subtotal"@)), n)
            &&& is_whole(amount(field(r, "total"@)), n)
            &&& o.reply matches Ok(said) && field(said, "sale"@) == Some(r)
        }),
{
    let lines = ticket_lines(payload);
    let products = shop.db.list("products"@);
    law_ticket_sold(shop, key, payload, text, m, clock, user);
    lemma_whole_bill(shop.db, lines);
    lemma_bill(shop.db, lines);
    lemma_reply_words();
    assert forall|i: int| 0 <= i < lines.len() implies is_count(
        line_amount(products, #[trigger] lines[i], "price"@),
    ) && is_count(line_qty(lines[i])) by {
        lemma_line(shop.db, lines[i]);
    }
    law_whole_total(products, lines);
}

/// The sum of price times quantity, in whole numbers.
pub open spec fn whole_bill(db: StoreView, lines: Seq<Json>) -> int
    decreases lines.len(),
{
    if lines.len() == 0 {
        0
    } else {
        whole_bill(db, lines.drop_last()) + whole_part(of_product(db, lines.last(), "price"@))
            * whole_part(asked(lines.last()))
    }
}

proof fn lemma_whole_bill(db: StoreView, lines: Seq<Json>)
    requires
        in_order(db),
    ensures
        whole_bill(db, lines) == whole_total(db.list("products"@), lines),
    decreases lines.len(),
{
    if lines.len() > 0 {
        lemma_line(db, lines.last());
        lemma_whole_bill(db, lines.drop_last());
    }
}

// ----- what a ticket leaves -----

/// A product that is on the ticket has, of its stock, what all of its lines leave, and is otherwise
/// as it was; the other products are as they were.
pub proof fn law_ticket_stock(
    shop: ShopView,
    key: Seq<char>,
    payload: Json,
    text: Seq<char>,
    m: MomentView,
    clock: Seq<i64>,
    user: Json,
    sku: Seq<char>,
)
    requires
        in_order(shop.db),
        authorized(shop, key, staff(), m.millis) == Ok::<Json, Seq<char>>(user),
        is_sold(shop, payload, m),
    ensures
        ({
            let after = checkout_outcome(shop, key, payload, text, m, clock).shop.db.item(
                "products"@,
                sku,
            );
            let before = shop.db.item("products"@, sku);
            if is_on(ticket_lines(payload), sku) {
                &&& before is Some
                &&& after is Some
                &&& field(after->0, "stock"@) == Some(
                    float(
                        left_of(
                            amount(field(before->0, "stock"@)),
                            ticket_lines(payload),
                            sku,
                        ),
                    ),
                )
                &&& forall|k: Seq<char>|
                    k != "stock"@ ==> #[trigger] field(after->0, k) == field(before->0, k)
            } else {
                after == before
            }
        }),
{
    let lines = ticket_lines(payload);
    let after = checkout_outcome(shop, key, payload, text, m, clock).shop.db;
    assert(sale_id(payload, m.millis) == ticket_name(payload, m));
    assert(items_of(payload) == lines);
    lemma_ticket_fault(shop.db, lines);
    law_sale(shop, key, payload, text, m, clock, user);
    assert(after.item("products"@, sku) == after_sale(shop.db.item("products"@, sku), lines, sku));
    if is_on(lines, sku) {
        let i = choose|i: int|
            0 <= i < lines.len() && plain(field(#[trigger] lines[i], "sku"@)) == sku;
        assert(sellable(shop.db, lines[i]));
        let p = shop.db.item("products"@, sku)->0;
        lemma_left(p, lines, sku);
        lemma_own_fields();
        law_found(shop.db, "products"@, sku);
        let stock = left_after(p, lines, sku);
        crate::laws::inventory::law_restocked(p, stock, sku);
        assert forall|k: Seq<char>| k != "stock"@ implies #[trigger] field(
            after.item("products"@, sku)->0,
            k,
        ) == field(p, k) by {
            crate::laws::inventory::law_restocked(p, stock, k);
        }
    } else {
        lemma_left(Json::Null, lines, sku);
    }
}

/// The identifier of the movement of a line: the moment of its line, and its product.
pub open spec fn line_id(lines: Seq<Json>, i: int, m: MomentView, clock: Seq<i64>) -> Seq<char> {
    "MOV-"@ + decimal(
        if i < clock.len() {
            clock[i] as int
        } else {
            m.millis as int
        },
    ) + "-"@ + plain(field(lines[i], "sku"@))
}

/// What is written down of a line that is sold: what it asks for goes out, from what the lines
/// before it left.
pub open spec fn tells_line(
    r: Json,
    db: StoreView,
    payload: Json,
    i: int,
    user: Json,
    m: MomentView,
    id: Seq<char>,
) -> bool {
    let line = ticket_lines(payload)[i];
    let p = on_line(db, line)->0;
    let sku = plain(field(line, "sku"@));
    let before = left_of(amount(field(p, "stock"@)), ticket_lines(payload).take(i), sku);
    let cost = amount(field(p, "cost"@));
    &&& says(r, "id"@, id)
    &&& says(r, "timestamp"@, m.iso)
    &&& says(r, "type"@, "venta"@)
    &&& says(r, "sku"@, sku)
    &&& says(r, "productName"@, plain(field(p, "name"@)))
    &&& holds(r, "quantity"@, opposite(asked(line)))
    &&& holds(r, "stockBefore"@, before)
    &&& holds(r, "stockAfter"@, difference(before, asked(line)))
    &&& holds(r, "unitCost"@, cost)
    &&& holds(r, "totalCost"@, product(opposite(cost), asked(line)))
    &&& says(r, "reason"@, "Venta POS"@)
    &&& says(r, "reference"@, ticket_name(payload, m))
    &&& says(r, "user"@, goes_by(user))
    &&& says(r, "notes"@, Seq::empty())
    &&& r->Object_0.dom() == set![
        "id"@,
        "timestamp"@,
        "type"@,
        "sku"@,
        "productName"@,
        "quantity"@,
        "stockBefore"@,
        "stockAfter"@,
        "unitCost"@,
        "totalCost"@,
        "reason"@,
        "reference"@,
        "user"@,
        "notes"@,
    ]
}

proof fn lemma_tells_line(
    db: StoreView,
    payload: Json,
    i: int,
    user: Json,
    m: MomentView,
    id: Seq<char>,
)
    requires
        in_order(db),
        0 <= i < ticket_lines(payload).len(),
        on_line(db, ticket_lines(payload)[i]) is Some,
    ensures
        tells_line(
            sale_movement(
                id,
                on_line(db, ticket_lines(payload)[i])->0,
                ticket_lines(payload)[i],
                found_by(db, ticket_lines(payload), i),
                ticket_name(payload, m),
                user,
                m.iso,
            ),
            db,
            payload,
            i,
            user,
            m,
            id,
        ),
{
    let lines = ticket_lines(payload);
    let p = on_line(db, lines[i])->0;
    let r = sale_movement(
        id,
        p,
        lines[i],
        found_by(db, lines, i),
        ticket_name(payload, m),
        user,
        m.iso,
    );
    lemma_left(p, lines.take(i), line_sku(lines[i]));
    lemma_stock_words();
    reveal_strlit("");
    assert(""@ =~= Seq::empty());
    assert(r->Object_0.dom() =~= set![
        "id"@,
        "timestamp"@,
        "type"@,
        "sku"@,
        "productName"@,
        "quantity"@,
        "stockBefore"@,
        "stockAfter"@,
        "unitCost"@,
        "totalCost"@,
        "reason"@,
        "reference"@,
        "user"@,
        "notes"@,
    ]);
}

/// Each line of a ticket leaves its movement, as long as no later line has one with the same
/// identifier; and no other movement changes.
pub proof fn law_ticket_movements(
    shop: ShopView,
    key: Seq<char>,
    payload: Json,
    text: Seq<char>,
    m: MomentView,
    clock: Seq<i64>,
    user: Json,
)
    requires
        in_order(shop.db),
        authorized(shop, key, staff(), m.millis) == Ok::<Json, Seq<char>>(user),
        is_sold(shop, payload, m),
    ensures
        ({
            let after = checkout_outcome(shop, key, payload, text, m, clock).shop.db;
            let lines = ticket_lines(payload);
            &&& forall|i: int|
                #![trigger lines[i]]
                0 <= i < lines.len() && (forall|j: int|
                    i < j < lines.len() ==> #[trigger] line_id(lines, j, m, clock) != line_id(
                        lines,
                        i,
                        m,
                        clock,
                    )) ==> {
                    &&& after.item("moves"@, line_id(lines, i, m, clock)) is Some
                    &&& tells_line(
                        after.item("moves"@, line_id(lines, i, m, clock))->0,
                        shop.db,
                        payload,
                        i,
                        user,
                        m,
                        line_id(lines, i, m, clock),
                    )
                }
            &&& forall|id: Seq<char>|
                (forall|i: int| 0 <= i < lines.len() ==> #[trigger] line_id(lines, i, m, clock) != id)
                    ==> #[trigger] after.item("moves"@, id) == shop.db.item("moves"@, id)
        }),
{
    let after = checkout_outcome(shop, key, payload, text, m, clock).shop.db;
    let lines = ticket_lines(payload);
    let id = ticket_name(payload, m);
    let products = shop.db.list("products"@);
    assert(sale_id(payload, m.millis) == id);
    assert(items_of(payload) == lines);
    lemma_ticket_fault(shop.db, lines);
    law_sale(shop, key, payload, text, m, clock, user);
    assert forall|i: int| 0 <= i < lines.len() implies #[trigger] line_id(lines, i, m, clock)
        == line_move_id(lines, i, m, clock) by {}
    assert forall|i: int|
        #![trigger lines[i]]
        0 <= i < lines.len() && (forall|j: int|
            i < j < lines.len() ==> #[trigger] line_id(lines, j, m, clock) != line_id(
                lines,
                i,
                m,
                clock,
            )) implies {
        &&& after.item("moves"@, line_id(lines, i, m, clock)) is Some
        &&& tells_line(
            after.item("moves"@, line_id(lines, i, m, clock))->0,
            shop.db,
            payload,
            i,
            user,
            m,
            line_id(lines, i, m, clock),
        )
    } by {
        assert(sellable(shop.db, lines[i]));
        assert forall|j: int| i < j < lines.len() implies #[trigger] line_move_id(lines, j, m, clock)
            != line_move_id(lines, i, m, clock) by {
            assert(line_id(lines, j, m, clock) != line_id(lines, i, m, clock));
        }
        assert(line_id(lines, i, m, clock) == line_move_id(lines, i, m, clock));
        lemma_tells_line(shop.db, payload, i, user, m, line_id(lines, i, m, clock));
    }
    let r = sale_record(id, payload, text, products, user, m.iso);
    let before = sold(shop.db, products, lines, id, user, m, clock);
    lemma_own_fields();
    lemma_store_words();
    law_found(shop.db, "sales"@, id);
    law_put(before, "sales"@, id, r);
    assert forall|k: Seq<char>|
        (forall|i: int| 0 <= i < lines.len() ==> #[trigger] line_id(lines, i, m, clock) != k) implies #[trigger] after.item(
    "moves"@, k) == shop.db.item("moves"@, k) by {
        lemma_sold_other_moves(shop.db, products, lines, id, user, m, clock, k);
        assert(before.put("sales"@, id, r).item("moves"@, k) == before.item("moves"@, k));
    }
}

proof fn lemma_sold_other_moves(
    db: StoreView,
    products: Seq<Json>,
    lines: Seq<Json>,
    sale: Seq<char>,
    user: Json,
    m: MomentView,
    clock: Seq<i64>,
    k: Seq<char>,
)
    requires
        forall|i: int| 0 <= i < lines.len() ==> #[trigger] line_id(lines, i, m, clock) != k,
    ensures
        sold(db, products, lines, sale, user, m, clock).item("moves"@, k) == db.item("moves"@, k),
    decreases lines.len(),
{
    if lines.len() > 0 {
        let last: int = lines.len() - 1;
        assert forall|i: int| 0 <= i < lines.len() - 1 implies #[trigger] line_id(
            lines.drop_last(),
            i,
            m,
            clock,
        ) != k by {
            assert(line_id(lines, i, m, clock) != k);
        }
        lemma_sold_other_moves(db, products, lines.drop_last(), sale, user, m, clock, k);
        lemma_store_words();
        let line = lines.last();
        let sku = line_sku(line);
        let before = sold(db, products, lines.drop_last(), sale, user, m, clock);
        if let Some(p) = product_with(products, sku) {
            let found = left_after(p, lines.drop_last(), sku);
            let left = left_after(p, lines, sku);
            let id = stamped_id("MOV-"@, tick(clock, last, m.millis), sku);
            let current = match before.item("products"@, sku) {
                Some(v) => v,
                None => Json::Object(Map::empty()),
            };
            assert(line_id(lines, last, m, clock) == id);
            law_put(before, "products"@, sku, crate::store::merged(current, stock_patch(left)));
            let stocked = before.patch("products"@, sku, stock_patch(left));
            law_put(stocked, "moves"@, id, sale_movement(id, p, line, found, sale, user, m.iso));
            assert(stocked.item("moves"@, k) == before.item("moves"@, k));
        }
    }
}

// ----- queues -----

/// The ticket in an item of a queue; one without anything where there is none.
pub open spec fn ticket_in(item: Json) -> Json {
    match field(item, "payload"@) {
        Some(p) => p,
        None => Json::Object(Map::empty()),
    }
}

/// The text of the lines of the ticket at a place of a queue.
pub open spec fn text_at(texts: Seq<Seq<char>>, i: int) -> Seq<char> {
    if i < texts.len() {
        texts[i]
    } else {
        "[]"@
    }
}

/// What one item of a queue does to a shop, and how it is answered: a ticket is sold, or refused
/// with the reason, and anything else is refused and changes nothing.
pub open spec fn one_item(
    before: ShopView,
    after: ShopView,
    answer: Json,
    key: Seq<char>,
    item: Json,
    text: Seq<char>,
    r: ReadingView,
) -> bool {
    let o = checkout_outcome(before, key, ticket_in(item), text, r.m, r.clock);
    if plain(field(item, "op"@)) == "checkout"@ {
        &&& after == o.shop
        &&& match o.reply {
            Ok(v) => answer == v,
            Err(why) => answer == Json::Object(
                map!["ok"@ => Json::Bool(false), "error"@ => Json::Text(why)],
            ),
        }
    } else {
        &&& after == before
        &&& answer == Json::Object(
            map![
                "ok"@ => Json::Bool(false),
                "error"@ => Json::Text("Operacion de cola no soportada"@),
            ],
        )
    }
}

/// Whether a queue was carried out: item by item, each on the shop that the one before left, and
/// answered in order.
pub open spec fn item_by_item(
    states: Seq<ShopView>,
    answers: Seq<Json>,
    key: Seq<char>,
    items: Seq<Json>,
    texts: Seq<Seq<char>>,
    rs: Seq<ReadingView>,
) -> bool {
    &&& states.len() == items.len() + 1
    &&& answers.len() == items.len()
    &&& forall|i: int|
        0 <= i < items.len() ==> one_item(
            states[i],
            states[i + 1],
            #[trigger] answers[i],
            key,
            items[i],
            text_at(texts, i),
            rs[i],
        )
}

/// The shops after each item of a queue.
spec fn stages(
    shop: ShopView,
    key: Seq<char>,
    items: Seq<Json>,
    texts: Seq<Seq<char>>,
    rs: Seq<ReadingView>,
) -> Seq<ShopView> {
    Seq::new(
        (items.len() + 1) as nat,
        |i: int| queue_run(shop, key, items.take(i), texts, rs).0,
    )
}

proof fn lemma_queue_answers(
    shop: ShopView,
    key: Seq<char>,
    items: Seq<Json>,
    texts: Seq<Seq<char>>,
    rs: Seq<ReadingView>,
    n: int,
    i: int,
)
    requires
        0 <= i < n <= items.len(),
    ensures
        queue_run(shop, key, items.take(n), texts, rs).1.len() == n,
        queue_run(shop, key, items.take(n), texts, rs).1[i] == queue_run(
            shop,
            key,
            items.take(i + 1),
            texts,
            rs,
        ).1[i],
        queue_run(shop, key, items.take(i + 1), texts, rs).1.len() == i + 1,
    decreases n,
{
    assert(items.take(n).drop_last() =~= items.take(n - 1));
    crate::laws::inventory::law_queue(shop, key, items.take(n), texts, rs);
    crate::laws::inventory::law_queue(shop, key, items.take(n - 1), texts, rs);
    crate::laws::inventory::law_queue(shop, key, items.take(i + 1), texts, rs);
    if i < n - 1 {
        lemma_queue_answers(shop, key, items, texts, rs, n - 1, i);
    }
}

/// A queue of a user who may sell is carried out item by item, and the answer holds the answers to
/// the items, in order.
pub proof fn law_queue_told(
    shop: ShopView,
    key: Seq<char>,
    payload: Json,
    texts: Seq<Seq<char>>,
    m: MomentView,
    rs: Seq<ReadingView>,
    user: Json,
)
    requires
        authorized(shop, key, staff(), m.millis) == Ok::<Json, Seq<char>>(user),
    ensures
        exists|states: Seq<ShopView>, answers: Seq<Json>|
            {
                let o = sync_batch_outcome(shop, key, payload, texts, m, rs);
                &&& #[trigger] item_by_item(states, answers, key, ticket_lines(payload), texts, rs)
                &&& states[0] == touched(shop, key, m.millis)
                &&& o.shop == states.last()
                &&& o.reply == Ok::<Json, Seq<char>>(
                    Json::Object(
                        map!["ok"@ => Json::Bool(true), "results"@ => Json::Array(answers)],
                    ),
                )
            },
{
    let o = sync_batch_outcome(shop, key, payload, texts, m, rs);
    let start = touched(shop, key, m.millis);
    let items = ticket_lines(payload);
    assert(items_of(payload) == items);
    let states = stages(start, key, items, texts, rs);
    let run = queue_run(start, key, items, texts, rs);
    assert(items.take(items.len() as int) =~= items);
    crate::laws::inventory::law_queue(start, key, items, texts, rs);
    assert forall|i: int| 0 <= i < items.len() implies one_item(
        states[i],
        states[i + 1],
        #[trigger] run.1[i],
        key,
        items[i],
        text_at(texts, i),
        rs[i],
    ) by {
        assert(items.take(i + 1).drop_last() =~= items.take(i));
        assert(items.take(i + 1)[i] == items[i]);
        lemma_queue_answers(start, key, items, texts, rs, items.len() as int, i);
        crate::laws::inventory::law_queue(start, key, items.take(i), texts, rs);
        let step = queue_step(
            states[i],
            key,
            items[i],
            crate::sales::items_text(texts, i),
            rs[i],
        );
        assert(run.1[i] == step.1);
        assert(states[i + 1] == step.0);
        lemma_refusal("Operacion de cola no soportada"@);
        if let Err(why) = checkout_outcome(
            states[i],
            key,
            ticket_in(items[i]),
            text_at(texts, i),
            rs[i].m,
            rs[i].clock,
        ).reply {
            lemma_refusal(why);
        }
    }
    assert(item_by_item(states, run.1, key, items, texts, rs));
    assert(items.take(0) =~= Seq::empty());
    assert(crate::reply::yes().insert("results"@, Json::Array(run.1)) =~= map![
        "ok"@ => Json::Bool(true),
        "results"@ => Json::Array(run.1),
    ]);
}

/// How a refusal reads.
pub proof fn lemma_refusal(why: Seq<char>)
    ensures
        crate::reply::refusal(why) == Json::Object(
            map!["ok"@ => Json::Bool(false), "error"@ => Json::Text(why)],
        ),
{
    assert(Map::<Seq<char>, Json>::empty().insert("ok"@, Json::Bool(false)).insert(
        "error"@,
        Json::Text(why),
    ) =~= map!["ok"@ => Json::Bool(false), "error"@ => Json::Text(why)]);
}

} // verus!
