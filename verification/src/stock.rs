//! The operations on the stock: movements, their deletion, and counts.

use crate::accounts::{next_token, supervisor, verify_supervisor};
use crate::catalogs::authorize_manager;
use crate::clock::{counted, moment_shape, suffix, suffix_of, Moment, MomentView};
use crate::double::{
    absolute, difference, is_same, magnitude, minus, negate, opposite, plus, product, same, sum,
    times,
};
use crate::json::{
    amount, called, clean_text, display_or_username, field, float, from_double, from_fields,
    from_text, no_fields, num_of, or_else, plain, put_field, text_or, Json, Value,
};
use crate::lists::{find_with, first_with};
use crate::reply::{yes, yes_fields};
use crate::shop::{outcome, Outcome, Shop, ShopView};
use crate::store::{create_item, delete_item, list_items, patch_item};
use crate::text::{decimal, decimal_text, same_text};
use crate::users::{authorized, managers, touched};
use vstd::prelude::*;

verus! {

// ----- identifiers -----

/// An identifier made from a mark, a moment in milliseconds, and a text.
pub open spec fn stamped_id(mark: Seq<char>, millis: i64, text: Seq<char>) -> Seq<char> {
    mark + decimal(millis as int) + "-"@ + text
}

/// An identifier made from a mark, a moment in milliseconds, and a text.
pub fn make_id(mark: &str, millis: i64, text: &str) -> (r: String)
    ensures
        r@ == stamped_id(mark@, millis, text@),
{
    let mut r: String = mark.to_owned();
    r.append(decimal_text(millis as i128).as_str());
    r.append("-");
    r.append(text);
    r
}

/// A patch of the stock.
pub open spec fn stock_patch(stock: u64) -> Json {
    Json::Object(Map::empty().insert("stock"@, float(stock)))
}

/// Sets the stock of a product.
pub fn set_stock(db: &mut crate::store::Store, sku: &str, stock: u64)
    ensures
        final(db)@ == old(db)@.patch("products"@, sku@, stock_patch(stock)),
{
    let mut patch: Vec<(String, Value)> = no_fields();
    put_field(&mut patch, "stock", from_double(stock));
    patch_item(db, "products", sku, &from_fields(patch));
}

// ----- movements -----

/// The type of a movement; a purchase where the request names none.
pub open spec fn movement_type(payload: Json) -> Seq<char> {
    or_else(plain(field(payload, "type"@)), "entrada_compra"@)
}

/// By how much a movement changes the stock: what goes out or is lost takes away.
pub open spec fn movement_quantity(payload: Json) -> u64 {
    let size = magnitude(amount(field(payload, "quantity"@))) as u64;
    if movement_type(payload) == "salida_manual"@ || movement_type(payload) == "merma"@ {
        opposite(size)
    } else {
        size
    }
}

/// The record of a movement of a product.
pub open spec fn movement_record(
    id: Seq<char>,
    payload: Json,
    product_row: Json,
    user: Json,
    iso: Seq<char>,
) -> Json {
    let quantity = movement_quantity(payload);
    let before = amount(field(product_row, "stock"@));
    let cost = amount(field(product_row, "cost"@));
    Json::Object(
        Map::empty()
            .insert("id"@, Json::Text(id))
            .insert("timestamp"@, Json::Text(iso))
            .insert("type"@, Json::Text(movement_type(payload)))
            .insert("sku"@, Json::Text(plain(field(payload, "sku"@))))
            .insert("productName"@, Json::Text(plain(field(product_row, "name"@))))
            .insert("quantity"@, float(quantity))
            .insert("stockBefore"@, float(before))
            .insert("stockAfter"@, float(sum(before, quantity)))
            .insert("unitCost"@, float(cost))
            .insert("totalCost"@, float(product(quantity, cost)))
            .insert("reason"@, Json::Text(plain(field(payload, "reason"@))))
            .insert("reference"@, Json::Text(plain(field(payload, "reference"@))))
            .insert("user"@, Json::Text(called(user)))
            .insert("authorizedBy"@, Json::Text(""@))
            .insert("notes"@, Json::Text(""@)),
    )
}

/// A movement: the stock of a product changes, and a record is kept.
pub open spec fn movement_outcome(
    shop: ShopView,
    key: Seq<char>,
    payload: Json,
    m: MomentView,
) -> Outcome {
    let after = touched(shop, key, m.millis);
    let products = shop.db.list("products"@);
    let sku = plain(field(payload, "sku"@));
    let i = first_with(products, "sku"@, sku);
    match authorized(shop, key, managers(), m.millis) {
        Err(why) => after.fails(why),
        Ok(user) => if i >= products.len() {
            after.fails("Producto no encontrado"@)
        } else {
            let id = stamped_id("MOV-"@, m.millis, suffix(next_token(shop, m)));
            let stock = sum(
                amount(field(products[i], "stock"@)),
                movement_quantity(payload),
            );
            let record = movement_record(id, payload, products[i], user, m.iso);
            after.with_source(counted(shop.source)).with_db(
                after.db.patch("products"@, sku, stock_patch(stock)).put("moves"@, id, record),
            ).says(Json::Object(yes().insert("movement"@, record)))
        },
    }
}

/// Moves stock, at a moment.
pub fn op_movement_at(shop: &mut Shop, key: &str, payload: &Value, m: &Moment) -> (r: Result<
    Value,
    String,
>)
    requires
        old(shop).wf(),
    ensures
        final(shop).wf(),
        outcome(*final(shop), r) == movement_outcome(old(shop)@, key@, payload@, m@),
{
    match authorize_manager(shop, key, m.millis) {
        Err(e) => Err(e),
        Ok(user) => {
            let products: Vec<Value> = list_items(&shop.db, "products");
            let sku: String = clean_text(payload.get("sku"));
            match find_with(&products, "sku", sku.as_str()) {
                None => Err("Producto no encontrado".to_owned()),
                Some(i) => {
                    let kind: String = text_or(
                        clean_text(payload.get("type")),
                        "entrada_compra",
                    );
                    let mut quantity: u64 = absolute(num_of(payload.get("quantity")));
                    if same_text(kind.as_str(), "salida_manual") || same_text(
                        kind.as_str(),
                        "merma",
                    ) {
                        quantity = negate(quantity);
                    }
                    let before: u64 = num_of(products[i].get("stock"));
                    let stock: u64 = plus(before, quantity);
                    let cost: u64 = num_of(products[i].get("cost"));
                    set_stock(&mut shop.db, sku.as_str(), stock);
                    let fresh: String = shop.source.text_at(m.nanos);
                    let id: String = make_id("MOV-", m.millis, suffix_of(fresh.as_str()).as_str());
                    let mut es: Vec<(String, Value)> = no_fields();
                    put_field(&mut es, "id", from_text(id.as_str()));
                    put_field(&mut es, "timestamp", from_text(m.iso.as_str()));
                    put_field(&mut es, "type", Value::Text(kind));
                    put_field(&mut es, "sku", Value::Text(sku));
                    put_field(
                        &mut es,
                        "productName",
                        Value::Text(clean_text(products[i].get("name"))),
                    );
                    put_field(&mut es, "quantity", from_double(quantity));
                    put_field(&mut es, "stockBefore", from_double(before));
                    put_field(&mut es, "stockAfter", from_double(stock));
                    put_field(&mut es, "unitCost", from_double(cost));
                    put_field(&mut es, "totalCost", from_double(times(quantity, cost)));
                    put_field(&mut es, "reason", Value::Text(clean_text(payload.get("reason"))));
                    put_field(
                        &mut es,
                        "reference",
                        Value::Text(clean_text(payload.get("reference"))),
                    );
                    put_field(&mut es, "user", Value::Text(display_or_username(&user)));
                    put_field(&mut es, "authorizedBy", from_text(""));
                    put_field(&mut es, "notes", from_text(""));
                    let record: Value = from_fields(es);
                    create_item(&mut shop.db, "moves", id.as_str(), &record);
                    let mut out: Vec<(String, Value)> = yes_fields();
                    put_field(&mut out, "movement", record);
                    Ok(from_fields(out))
                },
            }
        },
    }
}

/// Moves stock.
pub fn op_movement(shop: &mut Shop, key: &str, payload: &Value) -> (r: Result<Value, String>)
    requires
        old(shop).wf(),
    ensures
        final(shop).wf(),
        exists|m: MomentView|
            moment_shape(m.iso) && outcome(*final(shop), r) == #[trigger] movement_outcome(
                old(shop)@,
                key@,
                payload@,
                m,
            ),
{
    let m: Moment = Moment::now();
    op_movement_at(shop, key, payload, &m)
}

// ----- deleting movements -----

/// Who allows a deletion: the supervisor that the request names, or else the user.
pub open spec fn allowed_by(users: Seq<Json>, payload: Json, user: Json) -> Result<Json, Seq<char>> {
    match field(payload, "admin"@) {
        Some(admin) if plain(field(admin, "username"@)).len() > 0 => supervisor(users, admin),
        _ => Ok(user),
    }
}

/// The stock of a product before and after a movement is taken back; a product that is gone has
/// none.
pub open spec fn corrected(product_row: Option<Json>, quantity: u64) -> (Json, Json) {
    match product_row {
        Some(p) => {
            let current = amount(field(p, "stock"@));
            (float(current), float(difference(current, quantity)))
        },
        None => (Json::Text(""@), Json::Text(""@)),
    }
}

/// The record of the deletion of a movement.
pub open spec fn deletion_record(
    id: Seq<char>,
    mv: Json,
    product_row: Option<Json>,
    deleted: Seq<char>,
    user: Json,
    allowing: Json,
    iso: Seq<char>,
) -> Json {
    let quantity = amount(field(mv, "quantity"@));
    let stock = corrected(product_row, quantity);
    Json::Object(
        Map::empty()
            .insert("id"@, Json::Text(id))
            .insert("timestamp"@, Json::Text(iso))
            .insert("type"@, Json::Text("eliminacion_movimiento"@))
            .insert("sku"@, Json::Text(plain(field(mv, "sku"@))))
            .insert("productName"@, Json::Text(plain(field(mv, "productName"@))))
            .insert("quantity"@, float(opposite(quantity)))
            .insert("stockBefore"@, stock.0)
            .insert("stockAfter"@, stock.1)
            .insert("unitCost"@, float(amount(field(mv, "unitCost"@))))
            .insert("totalCost"@, float(opposite(amount(field(mv, "totalCost"@)))))
            .insert("reason"@, Json::Text("Eliminacion de "@ + deleted))
            .insert("reference"@, Json::Text(deleted))
            .insert("user"@, Json::Text(called(user)))
            .insert("authorizedBy"@, Json::Text(called(allowing)))
            .insert("notes"@, Json::Text(""@)),
    )
}

/// The product with a code.
pub open spec fn product_with(products: Seq<Json>, sku: Seq<char>) -> Option<Json> {
    let i = first_with(products, "sku"@, sku);
    if i < products.len() {
        Some(products[i])
    } else {
        None
    }
}

/// Taking a movement back: its quantity leaves the stock of the product, the movement goes, and a
/// record of the deletion is kept.
pub open spec fn take_back(
    shop: ShopView,
    mv: Json,
    deleted: Seq<char>,
    user: Json,
    allowing: Json,
    m: MomentView,
) -> Outcome {
    let sku = plain(field(mv, "sku"@));
    let quantity = amount(field(mv, "quantity"@));
    let p = product_with(shop.db.list("products"@), sku);
    let stocked = match p {
        Some(p) => shop.db.patch(
            "products"@,
            sku,
            stock_patch(difference(amount(field(p, "stock"@)), quantity)),
        ),
        None => shop.db,
    };
    let id = stamped_id("MOV-DEL-"@, m.millis, suffix(next_token(shop, m)));
    let record = deletion_record(id, mv, p, deleted, user, allowing, m.iso);
    shop.with_source(counted(shop.source)).with_db(
        stocked.delete("moves"@, deleted).put("moves"@, id, record),
    ).says(Json::Object(yes()))
}

/// Deleting a movement.
pub open spec fn delete_movement_outcome(
    shop: ShopView,
    key: Seq<char>,
    payload: Json,
    m: MomentView,
) -> Outcome {
    let after = touched(shop, key, m.millis);
    let moves = shop.db.list("moves"@);
    let id = plain(field(payload, "id"@));
    let i = first_with(moves, "id"@, id);
    match authorized(shop, key, managers(), m.millis) {
        Err(why) => after.fails(why),
        Ok(user) => match allowed_by(shop.db.list("users"@), payload, user) {
            Err(why) => after.fails(why),
            Ok(allowing) => if id.len() == 0 {
                after.fails("Falta movimiento"@)
            } else if i >= moves.len() {
                after.fails("Movimiento no encontrado"@)
            } else {
                take_back(after, moves[i], id, user, allowing, m)
            },
        },
    }
}

/// Takes a movement back.
fn undo_movement(
    shop: &mut Shop,
    mv: &Value,
    deleted: &str,
    user: &Value,
    allowing: &Value,
    m: &Moment,
) -> (r: Result<Value, String>)
    requires
        old(shop).wf(),
    ensures
        final(shop).wf(),
        outcome(*final(shop), r) == take_back(
            old(shop)@,
            mv@,
            deleted@,
            user@,
            allowing@,
            m@,
        ),
{
    let products: Vec<Value> = list_items(&shop.db, "products");
    let sku: String = clean_text(mv.get("sku"));
    let quantity: u64 = num_of(mv.get("quantity"));
    let mut before: Value = from_text("");
    let mut after: Value = from_text("");
    if let Some(i) = find_with(&products, "sku", sku.as_str()) {
        let current: u64 = num_of(products[i].get("stock"));
        let left: u64 = minus(current, quantity);
        set_stock(&mut shop.db, sku.as_str(), left);
        before = from_double(current);
        after = from_double(left);
    }
    delete_item(&mut shop.db, "moves", deleted);
    let fresh: String = shop.source.text_at(m.nanos);
    let id: String = make_id("MOV-DEL-", m.millis, suffix_of(fresh.as_str()).as_str());
    let mut reason: String = "Eliminacion de ".to_owned();
    reason.append(deleted);
    let mut es: Vec<(String, Value)> = no_fields();
    put_field(&mut es, "id", from_text(id.as_str()));
    put_field(&mut es, "timestamp", from_text(m.iso.as_str()));
    put_field(&mut es, "type", from_text("eliminacion_movimiento"));
    put_field(&mut es, "sku", Value::Text(sku));
    put_field(&mut es, "productName", Value::Text(clean_text(mv.get("productName"))));
    put_field(&mut es, "quantity", from_double(negate(quantity)));
    put_field(&mut es, "stockBefore", before);
    put_field(&mut es, "stockAfter", after);
    put_field(&mut es, "unitCost", from_double(num_of(mv.get("unitCost"))));
    put_field(&mut es, "totalCost", from_double(negate(num_of(mv.get("totalCost")))));
    put_field(&mut es, "reason", Value::Text(reason));
    put_field(&mut es, "reference", from_text(deleted));
    put_field(&mut es, "user", Value::Text(display_or_username(user)));
    put_field(&mut es, "authorizedBy", Value::Text(display_or_username(allowing)));
    put_field(&mut es, "notes", from_text(""));
    create_item(&mut shop.db, "moves", id.as_str(), &from_fields(es));
    Ok(from_fields(yes_fields()))
}

/// Who allows a deletion.
fn allowance(shop: &Shop, payload: &Value, user: &Value) -> (r: Result<Value, String>)
    ensures
        crate::reply::answer(r) == allowed_by(shop@.db.list("users"@), payload@, user@),
{
    match payload.get("admin") {
        Some(admin) => {
            if clean_text(admin.get("username")).as_str().is_empty() {
                Ok(user.copy())
            } else {
                verify_supervisor(&shop.db, admin)
            }
        },
        None => Ok(user.copy()),
    }
}

/// Deletes a movement, at a moment.
pub fn op_delete_movement_at(shop: &mut Shop, key: &str, payload: &Value, m: &Moment) -> (r: Result<
    Value,
    String,
>)
    requires
        old(shop).wf(),
    ensures
        final(shop).wf(),
        outcome(*final(shop), r) == delete_movement_outcome(old(shop)@, key@, payload@, m@),
{
    match authorize_manager(shop, key, m.millis) {
        Err(e) => Err(e),
        Ok(user) => match allowance(shop, payload, &user) {
            Err(e) => Err(e),
            Ok(allowing) => {
                let id: String = clean_text(payload.get("id"));
                if id.as_str().is_empty() {
                    return Err("Falta movimiento".to_owned());
                }
                let moves: Vec<Value> = list_items(&shop.db, "moves");
                match find_with(&moves, "id", id.as_str()) {
                    None => Err("Movimiento no encontrado".to_owned()),
                    Some(i) => undo_movement(shop, &moves[i], id.as_str(), &user, &allowing, m),
                }
            },
        },
    }
}

/// Deletes a movement.
pub fn op_delete_movement(shop: &mut Shop, key: &str, payload: &Value) -> (r: Result<
    Value,
    String,
>)
    requires
        old(shop).wf(),
    ensures
        final(shop).wf(),
        exists|m: MomentView|
            moment_shape(m.iso) && outcome(*final(shop), r) == #[trigger] delete_movement_outcome(
                old(shop)@,
                key@,
                payload@,
                m,
            ),
{
    let m: Moment = Moment::now();
    op_delete_movement_at(shop, key, payload, &m)
}

// ----- counts -----

/// Who counted: the one who is named as allowing it, or else the user.
pub open spec fn counter(payload: Json, user: Json) -> Seq<char> {
    or_else(plain(field(payload, "authorizedBy"@)), called(user))
}

/// The inventory that a count belongs to: the one in the request, or a new one.
pub open spec fn inventory_id(payload: Json, millis: i64) -> Seq<char> {
    or_else(plain(field(payload, "inventoryId"@)), "INV-"@ + decimal(millis as int))
}

/// The record of a count.
pub open spec fn count_record(
    id: Seq<char>,
    payload: Json,
    product_row: Json,
    user: Json,
    m: MomentView,
) -> Json {
    let counted_stock = amount(field(payload, "countedStock"@));
    let before = amount(field(product_row, "stock"@));
    Json::Object(
        Map::empty()
            .insert("id"@, Json::Text(id))
            .insert("inventoryId"@, Json::Text(inventory_id(payload, m.millis)))
            .insert("timestamp"@, Json::Text(m.iso))
            .insert("sku"@, Json::Text(plain(field(payload, "sku"@))))
            .insert("productName"@, Json::Text(plain(field(product_row, "name"@))))
            .insert("barcode"@, Json::Text(plain(field(product_row, "barcode"@))))
            .insert("category"@, Json::Text(plain(field(product_row, "category"@))))
            .insert("presentation"@, Json::Text(plain(field(product_row, "presentation"@))))
            .insert("unit"@, Json::Text(plain(field(product_row, "unit"@))))
            .insert("supplier"@, Json::Text(plain(field(product_row, "supplier"@))))
            .insert("systemStock"@, float(before))
            .insert("countedStock"@, float(counted_stock))
            .insert("difference"@, float(difference(counted_stock, before)))
            .insert("user"@, Json::Text(counter(payload, user)))
            .insert("authorizedBy"@, Json::Text(plain(field(payload, "authorizedBy"@))))
            .insert("notes"@, Json::Text(plain(field(payload, "notes"@)))),
    )
}

/// The record of the movement that a count makes.
pub open spec fn adjustment_record(
    id: Seq<char>,
    count_id: Seq<char>,
    payload: Json,
    product_row: Json,
    user: Json,
    iso: Seq<char>,
) -> Json {
    let counted_stock = amount(field(payload, "countedStock"@));
    let before = amount(field(product_row, "stock"@));
    let cost = amount(field(product_row, "cost"@));
    let diff = difference(counted_stock, before);
    Json::Object(
        Map::empty()
            .insert("id"@, Json::Text(id))
            .insert("timestamp"@, Json::Text(iso))
            .insert("type"@, Json::Text("ajuste_conteo"@))
            .insert("sku"@, Json::Text(plain(field(payload, "sku"@))))
            .insert("productName"@, Json::Text(plain(field(product_row, "name"@))))
            .insert("quantity"@, float(diff))
            .insert("stockBefore"@, float(before))
            .insert("stockAfter"@, float(counted_stock))
            .insert("unitCost"@, float(cost))
            .insert("totalCost"@, float(product(diff, cost)))
            .insert("reason"@, Json::Text("Conteo fisico"@))
            .insert("reference"@, Json::Text(count_id))
            .insert("user"@, Json::Text(counter(payload, user)))
            .insert("authorizedBy"@, Json::Text(plain(field(payload, "authorizedBy"@))))
            .insert("notes"@, Json::Text(plain(field(payload, "notes"@)))),
    )
}

/// A count: a record is kept, the stock of the product becomes what was counted, and where that
/// is a change, a movement is recorded.
pub open spec fn count_outcome(
    shop: ShopView,
    key: Seq<char>,
    payload: Json,
    m: MomentView,
) -> Outcome {
    let after = touched(shop, key, m.millis);
    let products = shop.db.list("products"@);
    let sku = plain(field(payload, "sku"@));
    let i = first_with(products, "sku"@, sku);
    match authorized(shop, key, managers(), m.millis) {
        Err(why) => after.fails(why),
        Ok(user) => if i >= products.len() {
            after.fails("Producto no encontrado"@)
        } else {
            let counted_stock = amount(field(payload, "countedStock"@));
            let diff = difference(counted_stock, amount(field(products[i], "stock"@)));
            let id = stamped_id("CNT-"@, m.millis, suffix(next_token(shop, m)));
            let record = count_record(id, payload, products[i], user, m);
            let stocked = after.db.put("counts"@, id, record).patch(
                "products"@,
                sku,
                stock_patch(counted_stock),
            );
            let move_id = stamped_id("MOV-"@, m.millis, sku);
            after.with_source(counted(shop.source)).with_db(
                if same(diff, 0) {
                    stocked
                } else {
                    stocked.put(
                        "moves"@,
                        move_id,
                        adjustment_record(move_id, id, payload, products[i], user, m.iso),
                    )
                },
            ).says(Json::Object(yes().insert("count"@, record)))
        },
    }
}

/// The record of a count.
fn make_count(id: &str, payload: &Value, product_row: &Value, user: &Value, m: &Moment) -> (r: Value)
    ensures
        r@ == count_record(id@, payload@, product_row@, user@, m@),
{
    let counted_stock: u64 = num_of(payload.get("countedStock"));
    let before: u64 = num_of(product_row.get("stock"));
    let mut new_inventory: String = "INV-".to_owned();
    new_inventory.append(decimal_text(m.millis as i128).as_str());
    let inventory: String = text_or(
        clean_text(payload.get("inventoryId")),
        new_inventory.as_str(),
    );
    let who: String = text_or(
        clean_text(payload.get("authorizedBy")),
        display_or_username(user).as_str(),
    );
    let mut es: Vec<(String, Value)> = no_fields();
    put_field(&mut es, "id", from_text(id));
    put_field(&mut es, "inventoryId", Value::Text(inventory));
    put_field(&mut es, "timestamp", from_text(m.iso.as_str()));
    put_field(&mut es, "sku", Value::Text(clean_text(payload.get("sku"))));
    put_field(&mut es, "productName", Value::Text(clean_text(product_row.get("name"))));
    put_field(&mut es, "barcode", Value::Text(clean_text(product_row.get("barcode"))));
    put_field(&mut es, "category", Value::Text(clean_text(product_row.get("category"))));
    put_field(&mut es, "presentation", Value::Text(clean_text(product_row.get("presentation"))));
    put_field(&mut es, "unit", Value::Text(clean_text(product_row.get("unit"))));
    put_field(&mut es, "supplier", Value::Text(clean_text(product_row.get("supplier"))));
    put_field(&mut es, "systemStock", from_double(before));
    put_field(&mut es, "countedStock", from_double(counted_stock));
    put_field(&mut es, "difference", from_double(minus(counted_stock, before)));
    put_field(&mut es, "user", Value::Text(who));
    put_field(&mut es, "authorizedBy", Value::Text(clean_text(payload.get("authorizedBy"))));
    put_field(&mut es, "notes", Value::Text(clean_text(payload.get("notes"))));
    from_fields(es)
}

/// The record of the movement that a count makes.
fn make_adjustment(
    id: &str,
    count_id: &str,
    payload: &Value,
    product_row: &Value,
    user: &Value,
    iso: &str,
) -> (r: Value)
    ensures
        r@ == adjustment_record(id@, count_id@, payload@, product_row@, user@, iso@),
{
    let counted_stock: u64 = num_of(payload.get("countedStock"));
    let before: u64 = num_of(product_row.get("stock"));
    let cost: u64 = num_of(product_row.get("cost"));
    let diff: u64 = minus(counted_stock, before);
    let who: String = text_or(
        clean_text(payload.get("authorizedBy")),
        display_or_username(user).as_str(),
    );
    let mut es: Vec<(String, Value)> = no_fields();
    put_field(&mut es, "id", from_text(id));
    put_field(&mut es, "timestamp", from_text(iso));
    put_field(&mut es, "type", from_text("ajuste_conteo"));
    put_field(&mut es, "sku", Value::Text(clean_text(payload.get("sku"))));
    put_field(&mut es, "productName", Value::Text(clean_text(product_row.get("name"))));
    put_field(&mut es, "quantity", from_double(diff));
    put_field(&mut es, "stockBefore", from_double(before));
    put_field(&mut es, "stockAfter", from_double(counted_stock));
    put_field(&mut es, "unitCost", from_double(cost));
    put_field(&mut es, "totalCost", from_double(times(diff, cost)));
    put_field(&mut es, "reason", from_text("Conteo fisico"));
    put_field(&mut es, "reference", from_text(count_id));
    put_field(&mut es, "user", Value::Text(who));
    put_field(&mut es, "authorizedBy", Value::Text(clean_text(payload.get("authorizedBy"))));
    put_field(&mut es, "notes", Value::Text(clean_text(payload.get("notes"))));
    from_fields(es)
}

/// Counts the stock of a product, at a moment.
pub fn op_count_at(shop: &mut Shop, key: &str, payload: &Value, m: &Moment) -> (r: Result<
    Value,
    String,
>)
    requires
        old(shop).wf(),
    ensures
        final(shop).wf(),
        outcome(*final(shop), r) == count_outcome(old(shop)@, key@, payload@, m@),
{
    match authorize_manager(shop, key, m.millis) {
        Err(e) => Err(e),
        Ok(user) => {
            let products: Vec<Value> = list_items(&shop.db, "products");
            let sku: String = clean_text(payload.get("sku"));
            match find_with(&products, "sku", sku.as_str()) {
                None => Err("Producto no encontrado".to_owned()),
                Some(i) => {
                    let counted_stock: u64 = num_of(payload.get("countedStock"));
                    let diff: u64 = minus(counted_stock, num_of(products[i].get("stock")));
                    let fresh: String = shop.source.text_at(m.nanos);
                    let id: String = make_id("CNT-", m.millis, suffix_of(fresh.as_str()).as_str());
                    let record: Value = make_count(id.as_str(), payload, &products[i], &user, m);
                    create_item(&mut shop.db, "counts", id.as_str(), &record);
                    set_stock(&mut shop.db, sku.as_str(), counted_stock);
                    if !is_same(diff, 0) {
                        let move_id: String = make_id("MOV-", m.millis, sku.as_str());
                        let adjustment: Value = make_adjustment(
                            move_id.as_str(),
                            id.as_str(),
                            payload,
                            &products[i],
                            &user,
                            m.iso.as_str(),
                        );
                        create_item(&mut shop.db, "moves", move_id.as_str(), &adjustment);
                    }
                    let mut out: Vec<(String, Value)> = yes_fields();
                    put_field(&mut out, "count", record);
                    Ok(from_fields(out))
                },
            }
        },
    }
}

/// Counts the stock of a product.
pub fn op_count(shop: &mut Shop, key: &str, payload: &Value) -> (r: Result<Value, String>)
    requires
        old(shop).wf(),
    ensures
        final(shop).wf(),
        exists|m: MomentView|
            moment_shape(m.iso) && outcome(*final(shop), r) == #[trigger] count_outcome(
                old(shop)@,
                key@,
                payload@,
                m,
            ),
{
    let m: Moment = Moment::now();
    op_count_at(shop, key, payload, &m)
}

} // verus!
