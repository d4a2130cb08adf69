//! Selling: one ticket, and a queue of them.

use crate::clock::{moment_shape, now_millis, Moment, MomentView};
use crate::double::{difference, is_less, less, minus, negate, opposite, plus, product, sum, times};
use crate::json::{
    amount, called, clean_text, display_or_username, field, float, from_double, from_fields,
    from_items, from_text, jsons, lemma_composites, no_fields, num_of, or_else, plain, put_field,
    text_or, Json, Value,
};
use crate::lists::{find_with, first_with};
use crate::reply::{answer, refusal, refuse, yes, yes_fields};
use crate::shop::{outcome, Outcome, Shop, ShopView};
use crate::stock::{make_id, product_with, set_stock, stamped_id, stock_patch};
use crate::store::{create_item, list_items, Store, StoreView};
use crate::text::{decimal, decimal_text, same_text};
use crate::users::{authorize, authorized, names, staff, touched};
use vstd::prelude::*;

verus! {

/// The user that a token stands for, if it may sell.
pub fn authorize_staff(shop: &mut Shop, key: &str, now: i64) -> (r: Result<Value, String>)
    requires
        old(shop).wf(),
    ensures
        final(shop).wf(),
        final(shop)@ == touched(old(shop)@, key@, now),
        answer(r) == authorized(old(shop)@, key@, staff(), now),
{
    let roles: [&str; 3] = ["admin", "encargado", "cajero"];
    proof {
        assert(names(roles@) =~= staff());
    }
    authorize(shop, key, roles.as_slice(), now)
}

// ----- a ticket -----

/// The items of a request.
pub open spec fn items_of(payload: Json) -> Seq<Json> {
    match field(payload, "items"@) {
        Some(Json::Array(xs)) => xs,
        _ => Seq::empty(),
    }
}

/// The items of a request.
pub fn request_items(payload: &Value) -> (r: Vec<Value>)
    ensures
        jsons(r@) == items_of(payload@),
{
    broadcast use lemma_composites;

    match payload.get("items") {
        Some(Value::Array(xs)) => {
            let mut out: Vec<Value> = Vec::new();
            let mut i: usize = 0;
            while i < xs.len()
                invariant
                    i <= xs@.len(),
                    jsons(out@) == jsons(xs@).take(i as int),
                decreases xs@.len() - i,
            {
                let ghost before = out@;
                out.push(xs[i].copy());
                i = i + 1;
                proof {
                    assert(jsons(out@) =~= jsons(before).push(xs@[i - 1]@));
                    assert(jsons(xs@).take(i as int) =~= jsons(xs@).take(i - 1).push(
                        xs@[i - 1]@,
                    ));
                }
            }
            proof {
                assert(jsons(xs@).take(i as int) =~= jsons(xs@));
            }
            out
        },
        _ => {
            let out: Vec<Value> = Vec::new();
            proof {
                assert(jsons(out@) =~= Seq::empty());
            }
            out
        },
    }
}

/// The identifier of a sale: the one in the request, or a new one.
pub open spec fn sale_id(payload: Json, millis: i64) -> Seq<char> {
    or_else(
        or_else(plain(field(payload, "clientId"@)), plain(field(payload, "id"@))),
        "SALE-"@ + decimal(millis as int),
    )
}

/// The code of the product on a line.
pub open spec fn line_sku(line: Json) -> Seq<char> {
    plain(field(line, "sku"@))
}

/// The quantity on a line.
pub open spec fn line_qty(line: Json) -> u64 {
    amount(field(line, "qty"@))
}

/// Why a line cannot be sold, if it cannot.
pub open spec fn line_fault(products: Seq<Json>, line: Json) -> Option<Seq<char>> {
    match product_with(products, line_sku(line)) {
        None => Some("Producto no encontrado: "@ + line_sku(line)),
        Some(p) => if less(line_qty(line), 0) || crate::double::same(line_qty(line), 0) {
            Some("Cantidad invalida"@)
        } else if less(amount(field(p, "stock"@)), line_qty(line)) {
            Some("Stock insuficiente: "@ + plain(field(p, "name"@)))
        } else {
            None
        },
    }
}

/// Why a ticket cannot be sold: the fault of its first line that has one.
pub open spec fn ticket_fault(products: Seq<Json>, lines: Seq<Json>) -> Option<Seq<char>>
    decreases lines.len(),
{
    if lines.len() == 0 {
        None
    } else {
        match ticket_fault(products, lines.drop_last()) {
            Some(why) => Some(why),
            None => line_fault(products, lines.last()),
        }
    }
}

/// A field of the product on a line, as a number.
pub open spec fn line_amount(products: Seq<Json>, line: Json, key: Seq<char>) -> u64 {
    match product_with(products, line_sku(line)) {
        Some(p) => amount(field(p, key)),
        None => 0,
    }
}

/// What the lines come to: price times quantity, added up in order.
pub open spec fn subtotal(products: Seq<Json>, lines: Seq<Json>) -> u64
    decreases lines.len(),
{
    if lines.len() == 0 {
        0
    } else {
        let line = lines.last();
        sum(
            subtotal(products, lines.drop_last()),
            product(line_amount(products, line, "price"@), line_qty(line)),
        )
    }
}

/// What is earned on the lines: price less cost, times quantity, added up in order.
pub open spec fn profit(products: Seq<Json>, lines: Seq<Json>) -> u64
    decreases lines.len(),
{
    if lines.len() == 0 {
        0
    } else {
        let line = lines.last();
        sum(
            profit(products, lines.drop_last()),
            product(
                difference(
                    line_amount(products, line, "price"@),
                    line_amount(products, line, "cost"@),
                ),
                line_qty(line),
            ),
        )
    }
}

/// What is left of the stock of a product after the lines: each of its lines takes its quantity
/// off what the earlier lines left.
pub open spec fn left_after(product_row: Json, lines: Seq<Json>, sku: Seq<char>) -> u64
    decreases lines.len(),
{
    if lines.len() == 0 {
        amount(field(product_row, "stock"@))
    } else {
        let before = left_after(product_row, lines.drop_last(), sku);
        if line_sku(lines.last()) == sku {
            difference(before, line_qty(lines.last()))
        } else {
            before
        }
    }
}

/// The record of the movement that a line makes, where `before` is the stock that it finds.
pub open spec fn sale_movement(
    id: Seq<char>,
    product_row: Json,
    line: Json,
    before: u64,
    sale: Seq<char>,
    user: Json,
    iso: Seq<char>,
) -> Json {
    let qty = line_qty(line);
    let cost = amount(field(product_row, "cost"@));
    Json::Object(
        Map::empty()
            .insert("id"@, Json::Text(id))
            .insert("timestamp"@, Json::Text(iso))
            .insert("type"@, Json::Text("venta"@))
            .insert("sku"@, Json::Text(line_sku(line)))
            .insert("productName"@, Json::Text(plain(field(product_row, "name"@))))
            .insert("quantity"@, float(opposite(qty)))
            .insert("stockBefore"@, float(before))
            .insert("stockAfter"@, float(difference(before, qty)))
            .insert("unitCost"@, float(cost))
            .insert("totalCost"@, float(product(opposite(cost), qty)))
            .insert("reason"@, Json::Text("Venta POS"@))
            .insert("reference"@, Json::Text(sale))
            .insert("user"@, Json::Text(called(user)))
            .insert("notes"@, Json::Text(""@)),
    )
}

/// The reading of the clock for the line at place `i`; the start of the sale where there is none.
pub open spec fn tick(clock: Seq<i64>, i: int, start: i64) -> i64 {
    if 0 <= i < clock.len() {
        clock[i]
    } else {
        start
    }
}

/// The store after the lines were sold, one by one: each takes its quantity off the stock that the
/// lines before it left of the product, and leaves a movement.
pub open spec fn sold(
    db: StoreView,
    products: Seq<Json>,
    lines: Seq<Json>,
    sale: Seq<char>,
    user: Json,
    m: MomentView,
    clock: Seq<i64>,
) -> StoreView
    decreases lines.len(),
{
    if lines.len() == 0 {
        db
    } else {
        let line = lines.last();
        let before = sold(db, products, lines.drop_last(), sale, user, m, clock);
        match product_with(products, line_sku(line)) {
            None => before,
            Some(p) => {
                let sku = line_sku(line);
                let found = left_after(p, lines.drop_last(), sku);
                let id = stamped_id("MOV-"@, tick(clock, lines.len() - 1, m.millis), sku);
                before.patch("products"@, sku, stock_patch(left_after(p, lines, sku))).put(
                    "moves"@,
                    id,
                    sale_movement(id, p, line, found, sale, user, m.iso),
                )
            },
        }
    }
}

/// The record of a sale.
pub open spec fn sale_record(
    id: Seq<char>,
    payload: Json,
    items_json: Seq<char>,
    products: Seq<Json>,
    user: Json,
    iso: Seq<char>,
) -> Json {
    let lines = items_of(payload);
    Json::Object(
        Map::empty()
            .insert("id"@, Json::Text(id))
            .insert("timestamp"@, Json::Text(iso))
            .insert("itemsJson"@, Json::Text(items_json))
            .insert("subtotal"@, float(subtotal(products, lines)))
            .insert("discount"@, float(0))
            .insert("total"@, float(subtotal(products, lines)))
            .insert(
                "paymentMethod"@,
                Json::Text(or_else(plain(field(payload, "paymentMethod"@)), "Efectivo"@)),
            )
            .insert("user"@, Json::Text(called(user)))
            .insert("notes"@, Json::Text(""@))
            .insert("profit"@, float(profit(products, lines))),
    )
}

/// Selling a ticket whose items are written `items_json`. A ticket that was sold before under the
/// same identifier is only shown again.
pub open spec fn checkout_outcome(
    shop: ShopView,
    key: Seq<char>,
    payload: Json,
    items_json: Seq<char>,
    m: MomentView,
    clock: Seq<i64>,
) -> Outcome {
    let after = touched(shop, key, m.millis);
    let lines = items_of(payload);
    let products = shop.db.list("products"@);
    let sales = shop.db.list("sales"@);
    let id = sale_id(payload, m.millis);
    let i = first_with(sales, "id"@, id);
    match authorized(shop, key, staff(), m.millis) {
        Err(why) => after.fails(why),
        Ok(user) => if lines.len() == 0 {
            after.fails("Ticket vacio"@)
        } else if i < sales.len() {
            after.says(
                Json::Object(
                    yes().insert("sale"@, sales[i]).insert("duplicate"@, Json::Bool(true)),
                ),
            )
        } else {
            match ticket_fault(products, lines) {
                Some(why) => after.fails(why),
                None => {
                    let record = sale_record(id, payload, items_json, products, user, m.iso);
                    after.with_db(
                        sold(after.db, products, lines, id, user, m, clock).put(
                            "sales"@,
                            id,
                            record,
                        ),
                    ).says(Json::Object(yes().insert("sale"@, record)))
                },
            }
        },
    }
}

/// What a ticket comes to, or why it cannot be sold.
fn weigh(products: &Vec<Value>, lines: &Vec<Value>) -> (r: Result<(u64, u64), String>)
    ensures
        match r {
            Ok(t) => ticket_fault(jsons(products@), jsons(lines@)) is None && t.0 == subtotal(
                jsons(products@),
                jsons(lines@),
            ) && t.1 == profit(jsons(products@), jsons(lines@)),
            Err(e) => ticket_fault(jsons(products@), jsons(lines@)) == Some(e@),
        },
{
    let ghost ps = jsons(products@);
    let ghost ls = jsons(lines@);
    let mut total: u64 = 0;
    let mut earned: u64 = 0;
    let mut i: usize = 0;
    while i < lines.len()
        invariant
            i <= lines@.len(),
            ps == jsons(products@),
            ls == jsons(lines@),
            ticket_fault(ps, ls.take(i as int)) is None,
            total == subtotal(ps, ls.take(i as int)),
            earned == profit(ps, ls.take(i as int)),
        decreases lines@.len() - i,
    {
        proof {
            assert(ls.take(i + 1).drop_last() =~= ls.take(i as int));
            assert(ls.take(i + 1).last() == ls[i as int]);
            if line_fault(ps, ls[i as int]) is Some {
                lemma_fault_stays(ps, ls, i + 1);
            }
        }
        let line: &Value = &lines[i];
        let sku: String = clean_text(line.get("sku"));
        let qty: u64 = num_of(line.get("qty"));
        match find_with(products, "sku", sku.as_str()) {
            None => {
                let mut e: String = "Producto no encontrado: ".to_owned();
                e.append(sku.as_str());
                return Err(e);
            },
            Some(j) => {
                let p: &Value = &products[j];
                if is_less(qty, 0) || crate::double::is_same(qty, 0) {
                    return Err("Cantidad invalida".to_owned());
                }
                if is_less(num_of(p.get("stock")), qty) {
                    let mut e: String = "Stock insuficiente: ".to_owned();
                    e.append(clean_text(p.get("name")).as_str());
                    return Err(e);
                }
                let price: u64 = num_of(p.get("price"));
                let cost: u64 = num_of(p.get("cost"));
                total = plus(total, times(price, qty));
                earned = plus(earned, times(minus(price, cost), qty));
            },
        }
        i = i + 1;
    }
    proof {
        assert(ls.take(i as int) =~= ls);
    }
    Ok((total, earned))
}

/// A fault among the first lines is the fault of the ticket.
proof fn lemma_fault_stays(products: Seq<Json>, lines: Seq<Json>, n: int)
    requires
        0 <= n <= lines.len(),
        ticket_fault(products, lines.take(n)) is Some,
    ensures
        ticket_fault(products, lines) == ticket_fault(products, lines.take(n)),
    decreases lines.len() - n,
{
    if n == lines.len() {
        assert(lines.take(n) =~= lines);
    } else {
        assert(lines.take(n + 1).drop_last() =~= lines.take(n));
        lemma_fault_stays(products, lines, n + 1);
    }
}

/// What is left of the stock of a product after the first `n` lines.
fn stock_left(p: &Value, lines: &Vec<Value>, n: usize, sku: &str) -> (r: u64)
    requires
        n <= lines@.len(),
    ensures
        r == left_after(p@, jsons(lines@).take(n as int), sku@),
{
    let ghost ls = jsons(lines@);
    let mut left: u64 = num_of(p.get("stock"));
    let mut i: usize = 0;
    while i < n
        invariant
            i <= n <= lines@.len(),
            ls == jsons(lines@),
            left == left_after(p@, ls.take(i as int), sku@),
        decreases n - i,
    {
        proof {
            assert(ls.take(i + 1).drop_last() =~= ls.take(i as int));
            assert(ls.take(i + 1).last() == ls[i as int]);
        }
        let line: &Value = &lines[i];
        if same_text(clean_text(line.get("sku")).as_str(), sku) {
            left = minus(left, num_of(line.get("qty")));
        }
        i = i + 1;
    }
    left
}

/// Sells one line, which finds the stock `before`.
fn sell_line(
    db: &mut Store,
    p: &Value,
    line: &Value,
    before: u64,
    sale: &str,
    user: &Value,
    iso: &str,
    millis: i64,
)
    ensures
        final(db)@ == ({
            let left = difference(before, line_qty(line@));
            let id = stamped_id("MOV-"@, millis, line_sku(line@));
            old(db)@.patch("products"@, line_sku(line@), stock_patch(left)).put(
                "moves"@,
                id,
                sale_movement(id, p@, line@, before, sale@, user@, iso@),
            )
        }),
{
    let sku: String = clean_text(line.get("sku"));
    let qty: u64 = num_of(line.get("qty"));
    let cost: u64 = num_of(p.get("cost"));
    let left: u64 = minus(before, qty);
    set_stock(db, sku.as_str(), left);
    let id: String = make_id("MOV-", millis, sku.as_str());
    let mut es: Vec<(String, Value)> = no_fields();
    put_field(&mut es, "id", from_text(id.as_str()));
    put_field(&mut es, "timestamp", from_text(iso));
    put_field(&mut es, "type", from_text("venta"));
    put_field(&mut es, "sku", Value::Text(sku));
    put_field(&mut es, "productName", Value::Text(clean_text(p.get("name"))));
    put_field(&mut es, "quantity", from_double(negate(qty)));
    put_field(&mut es, "stockBefore", from_double(before));
    put_field(&mut es, "stockAfter", from_double(left));
    put_field(&mut es, "unitCost", from_double(cost));
    put_field(&mut es, "totalCost", from_double(times(negate(cost), qty)));
    put_field(&mut es, "reason", from_text("Venta POS"));
    put_field(&mut es, "reference", from_text(sale));
    put_field(&mut es, "user", Value::Text(display_or_username(user)));
    put_field(&mut es, "notes", from_text(""));
    create_item(db, "moves", id.as_str(), &from_fields(es));
}

/// Sells the lines of a ticket.
fn sell(
    db: &mut Store,
    products: &Vec<Value>,
    lines: &Vec<Value>,
    sale: &str,
    user: &Value,
    m: &Moment,
    clock: &Vec<i64>,
)
    ensures
        final(db)@ == sold(
            old(db)@,
            jsons(products@),
            jsons(lines@),
            sale@,
            user@,
            m@,
            clock@,
        ),
{
    let ghost start = db@;
    let ghost ps = jsons(products@);
    let ghost ls = jsons(lines@);
    let mut i: usize = 0;
    while i < lines.len()
        invariant
            i <= lines@.len(),
            ps == jsons(products@),
            ls == jsons(lines@),
            db@ == sold(start, ps, ls.take(i as int), sale@, user@, m@, clock@),
        decreases lines@.len() - i,
    {
        proof {
            assert(ls.take(i + 1).drop_last() =~= ls.take(i as int));
            assert(ls.take(i + 1).last() == ls[i as int]);
        }
        let line: &Value = &lines[i];
        let sku: String = clean_text(line.get("sku"));
        let millis: i64 = if i < clock.len() {
            clock[i]
        } else {
            m.millis
        };
        if let Some(j) = find_with(products, "sku", sku.as_str()) {
            let before: u64 = stock_left(&products[j], lines, i, sku.as_str());
            sell_line(db, &products[j], line, before, sale, user, m.iso.as_str(), millis);
        }
        i = i + 1;
    }
    proof {
        assert(ls.take(i as int) =~= ls);
    }
}

/// Sells a ticket, at a moment and with a reading of the clock for each line.
pub fn op_checkout_at(
    shop: &mut Shop,
    key: &str,
    payload: &Value,
    items_json: &str,
    m: &Moment,
    clock: &Vec<i64>,
) -> (r: Result<Value, String>)
    requires
        old(shop).wf(),
    ensures
        final(shop).wf(),
        outcome(*final(shop), r) == checkout_outcome(
            old(shop)@,
            key@,
            payload@,
            items_json@,
            m@,
            clock@,
        ),
{
    match authorize_staff(shop, key, m.millis) {
        Err(e) => Err(e),
        Ok(user) => {
            let lines: Vec<Value> = request_items(payload);
            proof {
                assert(jsons(lines@).len() == lines@.len());
            }
            if lines.len() == 0 {
                return Err("Ticket vacio".to_owned());
            }
            let products: Vec<Value> = list_items(&shop.db, "products");
            let mut new_id: String = "SALE-".to_owned();
            new_id.append(decimal_text(m.millis as i128).as_str());
            let asked: String = text_or(
                clean_text(payload.get("clientId")),
                clean_text(payload.get("id")).as_str(),
            );
            let id: String = text_or(asked, new_id.as_str());
            let sales: Vec<Value> = list_items(&shop.db, "sales");
            if let Some(i) = find_with(&sales, "id", id.as_str()) {
                let mut out: Vec<(String, Value)> = yes_fields();
                put_field(&mut out, "sale", sales[i].copy());
                put_field(&mut out, "duplicate", Value::Bool(true));
                return Ok(from_fields(out));
            }
            match weigh(&products, &lines) {
                Err(e) => Err(e),
                Ok((total, earned)) => {
                    sell(&mut shop.db, &products, &lines, id.as_str(), &user, m, clock);
                    let payment: String = text_or(
                        clean_text(payload.get("paymentMethod")),
                        "Efectivo",
                    );
                    let mut es: Vec<(String, Value)> = no_fields();
                    put_field(&mut es, "id", from_text(id.as_str()));
                    put_field(&mut es, "timestamp", from_text(m.iso.as_str()));
                    put_field(&mut es, "itemsJson", from_text(items_json));
                    put_field(&mut es, "subtotal", from_double(total));
                    put_field(&mut es, "discount", from_double(0));
                    put_field(&mut es, "total", from_double(total));
                    put_field(&mut es, "paymentMethod", Value::Text(payment));
                    put_field(&mut es, "user", Value::Text(display_or_username(&user)));
                    put_field(&mut es, "notes", from_text(""));
                    put_field(&mut es, "profit", from_double(earned));
                    let record: Value = from_fields(es);
                    create_item(&mut shop.db, "sales", id.as_str(), &record);
                    let mut out: Vec<(String, Value)> = yes_fields();
                    put_field(&mut out, "sale", record);
                    Ok(from_fields(out))
                },
            }
        },
    }
}

/// As many readings of the clock as a request has items.
pub fn line_clock(payload: &Value) -> (r: Vec<i64>)
    ensures
        r@.len() == items_of(payload@).len(),
{
    let lines: Vec<Value> = request_items(payload);
    let mut clock: Vec<i64> = Vec::new();
    while clock.len() < lines.len()
        invariant
            clock@.len() <= lines@.len(),
        decreases lines@.len() - clock@.len(),
    {
        clock.push(now_millis());
    }
    proof {
        assert(jsons(lines@).len() == lines@.len());
    }
    clock
}

/// Sells a ticket. `items_json` is the JSON text of its items.
pub fn op_checkout(shop: &mut Shop, key: &str, payload: &Value, items_json: &str) -> (r: Result<
    Value,
    String,
>)
    requires
        old(shop).wf(),
    ensures
        final(shop).wf(),
        exists|m: MomentView, clock: Seq<i64>|
            moment_shape(m.iso) && clock.len() == items_of(payload@).len() && outcome(
                *final(shop),
                r,
            ) == #[trigger] checkout_outcome(
                old(shop)@,
                key@,
                payload@,
                items_json@,
                m,
                clock,
            ),
{
    let m: Moment = Moment::now();
    let clock: Vec<i64> = line_clock(payload);
    op_checkout_at(shop, key, payload, items_json, &m, &clock)
}

// ----- a queue of tickets -----

/// A look at the clock for a ticket, and a reading for each of its lines.
pub struct Reading {
    pub m: Moment,
    pub clock: Vec<i64>,
}

/// What a `Reading` stands for.
pub struct ReadingView {
    pub m: MomentView,
    pub clock: Seq<i64>,
}

impl View for Reading {
    type V = ReadingView;

    open spec fn view(&self) -> ReadingView {
        ReadingView { m: self.m@, clock: self.clock@ }
    }
}

/// What a list of readings stands for.
pub open spec fn readings(rs: Seq<Reading>) -> Seq<ReadingView> {
    rs.map_values(|r: Reading| r@)
}

/// What a list of texts stands for.
pub open spec fn texts_of(ts: Seq<String>) -> Seq<Seq<char>> {
    ts.map_values(|t: String| t@)
}

/// The ticket in an item of a queue; an empty request where there is none.
pub open spec fn queued(item: Json) -> Json {
    match field(item, "payload"@) {
        Some(p) => p,
        None => Json::Object(Map::empty()),
    }
}

/// The ticket in an item of a queue.
pub fn queued_payload(item: &Value) -> (r: Value)
    ensures
        r@ == queued(item@),
{
    match item.get("payload") {
        Some(p) => p.copy(),
        None => from_fields(no_fields()),
    }
}

/// The text of the items of the ticket at place `i`; that of no items where there is none.
pub open spec fn items_text(texts: Seq<Seq<char>>, i: int) -> Seq<char> {
    if 0 <= i < texts.len() {
        texts[i]
    } else {
        "[]"@
    }
}

/// One item of a queue: only a ticket can be queued.
pub open spec fn queue_step(
    shop: ShopView,
    key: Seq<char>,
    item: Json,
    text: Seq<char>,
    r: ReadingView,
) -> (ShopView, Json) {
    if plain(field(item, "op"@)) == "checkout"@ {
        let o = checkout_outcome(shop, key, queued(item), text, r.m, r.clock);
        (
            o.shop,
            match o.reply {
                Ok(v) => v,
                Err(why) => refusal(why),
            },
        )
    } else {
        (shop, refusal("Operacion de cola no soportada"@))
    }
}

/// Carries out one item of a queue, with its reading, and answers it. `text` is the JSON text of the
/// items of its ticket.
pub fn queue_item_at(
    shop: &mut Shop,
    key: &str,
    item: &Value,
    text: &str,
    reading: &Reading,
) -> (r: Value)
    requires
        old(shop).wf(),
    ensures
        final(shop).wf(),
        (final(shop)@, r@) == queue_step(old(shop)@, key@, item@, text@, reading@),
{
    let op: String = clean_text(item.get("op"));
    if same_text(op.as_str(), "checkout") {
        let sub: Value = queued_payload(item);
        match op_checkout_at(shop, key, &sub, text, &reading.m, &reading.clock) {
            Ok(v) => v,
            Err(e) => refuse(e.as_str()),
        }
    } else {
        refuse("Operacion de cola no soportada")
    }
}

/// The answer to a queue, which holds the answers to its items.
pub open spec fn queue_reply(results: Seq<Json>) -> Json {
    Json::Object(yes().insert("results"@, Json::Array(results)))
}

/// The answer to a queue.
pub fn queue_answer(results: Vec<Value>) -> (r: Value)
    ensures
        r@ == queue_reply(jsons(results@)),
{
    let mut out: Vec<(String, Value)> = yes_fields();
    put_field(&mut out, "results", from_items(results));
    from_fields(out)
}

/// The shop after the items of a queue, and the answers to them, in order.
pub open spec fn queue_run(
    shop: ShopView,
    key: Seq<char>,
    items: Seq<Json>,
    texts: Seq<Seq<char>>,
    rs: Seq<ReadingView>,
) -> (ShopView, Seq<Json>)
    decreases items.len(),
{
    if items.len() == 0 {
        (shop, Seq::empty())
    } else {
        let i = items.len() - 1;
        let before = queue_run(shop, key, items.drop_last(), texts, rs);
        let step = queue_step(before.0, key, items[i], items_text(texts, i), rs[i]);
        (step.0, before.1.push(step.1))
    }
}

/// Selling a queue of tickets. Each is answered on its own.
pub open spec fn sync_batch_outcome(
    shop: ShopView,
    key: Seq<char>,
    payload: Json,
    texts: Seq<Seq<char>>,
    m: MomentView,
    rs: Seq<ReadingView>,
) -> Outcome {
    let after = touched(shop, key, m.millis);
    match authorized(shop, key, staff(), m.millis) {
        Err(why) => after.fails(why),
        Ok(user) => {
            let run = queue_run(after, key, items_of(payload), texts, rs);
            run.0.says(queue_reply(run.1))
        },
    }
}

/// Sells a queue of tickets, at a moment and with a reading for each item.
pub fn op_sync_batch_at(
    shop: &mut Shop,
    key: &str,
    payload: &Value,
    texts: &Vec<String>,
    m: &Moment,
    rs: &Vec<Reading>,
) -> (r: Result<Value, String>)
    requires
        old(shop).wf(),
        rs@.len() >= items_of(payload@).len(),
    ensures
        final(shop).wf(),
        outcome(*final(shop), r) == sync_batch_outcome(
            old(shop)@,
            key@,
            payload@,
            texts_of(texts@),
            m@,
            readings(rs@),
        ),
{
    match authorize_staff(shop, key, m.millis) {
        Err(e) => Err(e),
        Ok(_) => {
            let items: Vec<Value> = request_items(payload);
            let ghost start = shop@;
            let ghost its = jsons(items@);
            let ghost ts = texts_of(texts@);
            let ghost rds = readings(rs@);
            let mut results: Vec<Value> = Vec::new();
            let mut i: usize = 0;
            proof {
                assert(its.len() == items@.len());
                assert(jsons(results@) =~= Seq::empty());
            }
            while i < items.len()
                invariant
                    shop.wf(),
                    i <= items@.len(),
                    items@.len() <= rs@.len(),
                    its == jsons(items@),
                    ts == texts_of(texts@),
                    rds == readings(rs@),
                    (shop@, jsons(results@)) == queue_run(
                        start,
                        key@,
                        its.take(i as int),
                        ts,
                        rds,
                    ),
                decreases items@.len() - i,
            {
                proof {
                    assert(its.take(i + 1).drop_last() =~= its.take(i as int));
                    assert(its.take(i + 1)[i as int] == its[i as int]);
                }
                let ghost before = results@;
                let text: &str = if i < texts.len() {
                    texts[i].as_str()
                } else {
                    "[]"
                };
                let said: Value = queue_item_at(shop, key, &items[i], text, &rs[i]);
                let ghost v = said@;
                results.push(said);
                i = i + 1;
                proof {
                    assert(jsons(results@) =~= jsons(before).push(v));
                }
            }
            proof {
                assert(its.take(i as int) =~= its);
            }
            Ok(queue_answer(results))
        },
    }
}

/// Whether there is a reading for each item of a queue, and in it one for each line of its ticket.
pub open spec fn read_for(rs: Seq<ReadingView>, items: Seq<Json>) -> bool {
    &&& rs.len() == items.len()
    &&& forall|i: int|
        0 <= i < rs.len() ==> moment_shape((#[trigger] rs[i]).m.iso) && rs[i].clock.len()
            == items_of(queued(items[i])).len()
}

/// A reading for each item of a queue.
pub fn queue_readings(payload: &Value) -> (r: Vec<Reading>)
    ensures
        read_for(readings(r@), items_of(payload@)),
{
    let items: Vec<Value> = request_items(payload);
    let mut rs: Vec<Reading> = Vec::new();
    while rs.len() < items.len()
        invariant
            rs@.len() <= items@.len(),
            forall|i: int|
                0 <= i < rs@.len() ==> moment_shape((#[trigger] rs@[i])@.m.iso)
                    && rs@[i]@.clock.len() == items_of(queued(items@[i]@)).len(),
        decreases items@.len() - rs@.len(),
    {
        let sub: Value = queued_payload(&items[rs.len()]);
        rs.push(Reading { m: Moment::now(), clock: line_clock(&sub) });
    }
    proof {
        assert(jsons(items@).len() == items@.len());
        assert forall|i: int| 0 <= i < readings(rs@).len() implies moment_shape(
            (#[trigger] readings(rs@)[i]).m.iso,
        ) && readings(rs@)[i].clock.len() == items_of(queued(jsons(items@)[i])).len() by {
            assert(readings(rs@)[i] == rs@[i]@);
        }
    }
    rs
}

/// Sells a queue of tickets. `texts` holds, for each item, the JSON text of the items of its
/// ticket.
pub fn op_sync_batch(shop: &mut Shop, key: &str, payload: &Value, texts: &Vec<String>) -> (r: Result<
    Value,
    String,
>)
    requires
        old(shop).wf(),
    ensures
        final(shop).wf(),
        exists|m: MomentView, rs: Seq<ReadingView>|
            moment_shape(m.iso) && read_for(rs, items_of(payload@)) && outcome(
                *final(shop),
                r,
            ) == #[trigger] sync_batch_outcome(
                old(shop)@,
                key@,
                payload@,
                texts_of(texts@),
                m,
                rs,
            ),
{
    let m: Moment = Moment::now();
    let rs: Vec<Reading> = queue_readings(payload);
    proof {
        assert(readings(rs@).len() == rs@.len());
    }
    op_sync_batch_at(shop, key, payload, texts, &m, &rs)
}

} // verus!
