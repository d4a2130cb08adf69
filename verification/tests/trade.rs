use tienda_pos::clock::{Moment, TokenSource};
use tienda_pos::dispatch::{dispatch_at, Texts};
use tienda_pos::json::{Number, Value};
use tienda_pos::sales::Reading;
use tienda_pos::sessions::Sessions;
use tienda_pos::shop::Shop;
use tienda_pos::store::{get_item, list_items, Store};

/// A document from its text.
fn load(text: &str) -> Value {
    from_json(&serde_json::from_str::<serde_json::Value>(text).unwrap())
}

fn from_json(v: &serde_json::Value) -> Value {
    match v {
        serde_json::Value::Null => Value::Null,
        serde_json::Value::Bool(b) => Value::Bool(*b),
        serde_json::Value::Number(n) => Value::Number(if let Some(k) = n.as_u64() {
            Number::PosInt(k)
        } else if let Some(k) = n.as_i64() {
            Number::NegInt(k)
        } else {
            Number::Float { bits: n.as_f64().unwrap().to_bits(), text: Some(n.to_string()) }
        }),
        serde_json::Value::String(s) => Value::Text(s.clone()),
        serde_json::Value::Array(xs) => Value::Array(xs.iter().map(from_json).collect()),
        serde_json::Value::Object(m) => {
            Value::Object(m.iter().map(|(k, x)| (k.clone(), from_json(x))).collect())
        }
    }
}

fn to_json(v: &Value) -> serde_json::Value {
    match v {
        Value::Null => serde_json::Value::Null,
        Value::Bool(b) => serde_json::Value::Bool(*b),
        Value::Number(Number::PosInt(k)) => serde_json::Value::from(*k),
        Value::Number(Number::NegInt(k)) => serde_json::Value::from(*k),
        Value::Number(Number::Float { bits, text: _ }) => {
            serde_json::Value::from(f64::from_bits(*bits))
        }
        Value::Text(s) => serde_json::Value::from(s.clone()),
        Value::Array(xs) => serde_json::Value::Array(xs.iter().map(to_json).collect()),
        Value::Object(es) => {
            let mut m = serde_json::Map::new();
            for (k, x) in es {
                m.insert(k.clone(), to_json(x));
            }
            serde_json::Value::Object(m)
        }
    }
}

/// Checks that a document is the one with the given text.
fn check(v: &Value, text: &str) {
    assert_eq!(to_json(v), serde_json::from_str::<serde_json::Value>(text).unwrap());
}

/// What stands under a name in an answer.
fn part(v: &Value, key: &str) -> serde_json::Value {
    to_json(v).get(key).cloned().unwrap_or(serde_json::Value::Null)
}

const T0: i64 = 1_700_000_000_000;
const HOURS_14: i64 = 50_400_000;

fn at(millis: i64) -> Moment {
    Moment {
        nanos: (millis as u128) * 1_000_000,
        millis,
        iso: "2024-05-06T07:08:09.010Z".to_string(),
    }
}

fn new_shop() -> Shop {
    Shop {
        db: Store { rows: Vec::new(), log: Vec::new() },
        sessions: Sessions::new(),
        source: TokenSource { count: 0, process: 7 },
    }
}

fn no_texts() -> Texts {
    Texts { stored: None, settings: String::new(), items: "[]".to_string(), queue: Vec::new() }
}

/// Asks the shop for an operation at a moment.
fn ask(shop: &mut Shop, op: &str, key: &str, payload: &str, millis: i64) -> Result<Value, String> {
    let payload: Value = load(payload);
    let rs: Vec<Reading> =
        (0..8).map(|_| Reading { m: at(millis), clock: vec![millis; 8] }).collect();
    dispatch_at(op, &payload, key, shop, &no_texts(), &at(millis), &vec![millis; 8], &rs)
}

/// Asks for an operation that is carried out.
fn get(shop: &mut Shop, op: &str, key: &str, payload: &str) -> Value {
    match ask(shop, op, key, payload, T0) {
        Ok(v) => v,
        Err(e) => panic!("{} failed: {}", op, e),
    }
}

/// Why an operation fails.
fn fault(shop: &mut Shop, op: &str, key: &str, payload: &str) -> String {
    match ask(shop, op, key, payload, T0) {
        Ok(v) => panic!("{} did not fail: {}", op, to_json(&v)),
        Err(e) => e,
    }
}

/// What an answer that says no says.
fn refused(v: &Value) -> String {
    assert_eq!(part(v, "ok"), serde_json::Value::Bool(false));
    part(v, "error").as_str().unwrap().to_string()
}

/// Signs in and gives the token.
fn sign_in(shop: &mut Shop, payload: &str) -> String {
    let v: Value = get(shop, "login", "", payload);
    assert_eq!(part(&v, "ok"), serde_json::Value::Bool(true), "{}", to_json(&v));
    part(&v, "sessionToken").as_str().unwrap().to_string()
}

/// A shop with an administrator, a manager and a cashier, and their tokens.
fn staffed() -> (Shop, String, String, String) {
    let mut shop: Shop = new_shop();
    get(&mut shop, "setup_admin", "", r#"{"loginCode":"1000","password":"jefe1","displayName":"Ana"}"#);
    let admin: String = sign_in(&mut shop, r#"{"username":"1000","password":"jefe1"}"#);
    get(&mut shop, "save_user", &admin, r#"{"username":"2000","password":"encargo2","role":"Encargado","displayName":"Eva"}"#);
    get(&mut shop, "save_user", &admin, r#"{"username":"3000","password":"caja3","role":"cajero"}"#);
    let manager: String = sign_in(&mut shop, r#"{"username":"2000","password":"encargo2"}"#);
    let cashier: String = sign_in(&mut shop, r#"{"username":"3000","password":"caja3"}"#);
    (shop, admin, manager, cashier)
}

/// The document under a key.
fn stored(shop: &Shop, store: &str, id: &str) -> Option<serde_json::Value> {
    get_item(&shop.db, store, id).map(|v| to_json(&v))
}

/// The number in a field of a document.
fn number(v: &serde_json::Value, key: &str) -> f64 {
    v.get(key).unwrap().as_f64().unwrap()
}

/// How many documents a store has.
fn size(shop: &Shop, store: &str) -> usize {
    list_items(&shop.db, store).len()
}

// ----- products -----

#[test]
fn a_product_gets_its_tax_and_its_code() {
    let (mut shop, admin, _manager, _cashier) = staffed();
    let v: Value = get(
        &mut shop,
        "save_product",
        &admin,
        r#"{"record":{"name":" Refresco ","category":"Bebidas Frías","cost":11.6,"price":19.99,"stock":12,"minStock":2}}"#,
    );
    check(
        &v,
        r#"{"ok":true,"product":{"sku":"BEBI-0001","barcode":"","name":"Refresco","category":"Bebidas Frías",
            "presentation":"","supplier":"","unit":"pieza","cost":11.6,"price":19.99,"costIva":1.86,
            "priceIva":3.2,"costWithoutIva":9.74,"priceWithoutIva":16.79,"stock":12.0,"minStock":2.0,
            "description":"","active":true}}"#,
    );
    assert_eq!(stored(&shop, "products", "BEBI-0001").unwrap(), part(&v, "product"));
    let code = |v: &Value| part(v, "product").get("sku").unwrap().as_str().unwrap().to_string();
    let v: Value = get(&mut shop, "save_product", &admin, r#"{"name":"Jugo","category":"Bebidas Frías"}"#);
    assert_eq!(code(&v), "BEBI-0002");
    get(&mut shop, "save_product", &admin, r#"{"sku":"BEBI-0004","category":"Otra"}"#);
    let v: Value = get(&mut shop, "save_product", &admin, r#"{"category":"Bebidas Frías"}"#);
    assert_eq!(code(&v), "BEBI-0003");
    let v: Value = get(&mut shop, "save_product", &admin, r#"{"category":"Bebidas Frías"}"#);
    assert_eq!(code(&v), "BEBI-0005");
    let v: Value = get(&mut shop, "save_product", &admin, "{}");
    assert_eq!(code(&v), "PROD-0001");
    let v: Value = get(&mut shop, "save_product", &admin, r#"{"category":"a_b"}"#);
    assert_eq!(code(&v), "AB-0001");
    let v: Value = get(&mut shop, "save_product", &admin, r#"{"category":"¿?"}"#);
    assert_eq!(code(&v), "ITEM-0001");
    let v: Value = get(&mut shop, "save_product", &admin, r#"{"sku":777}"#);
    assert_eq!(code(&v), "777");
}

#[test]
fn a_product_that_is_edited_keeps_its_stock() {
    let (mut shop, admin, _manager, _cashier) = staffed();
    get(&mut shop, "save_product", &admin, r#"{"sku":"A1","name":"Agua","price":10,"stock":8}"#);
    get(&mut shop, "save_product", &admin, r#"{"sku":"B1","name":"Pan","stock":1}"#);
    get(&mut shop, "save_product", &admin, r#"{"editingSku":"A1","name":"Agua mineral","stock":99}"#);
    let p = stored(&shop, "products", "A1").unwrap();
    assert_eq!(number(&p, "stock"), 8.0);
    assert_eq!(number(&p, "price"), 0.0);
    assert_eq!(p.get("name").unwrap(), &serde_json::Value::from("Agua mineral"));
    // another code
    get(&mut shop, "save_product", &admin, r#"{"record":{"editingSku":"A1","sku":"A2","active":false}}"#);
    assert_eq!(stored(&shop, "products", "A1"), None);
    let p = stored(&shop, "products", "A2").unwrap();
    assert_eq!(number(&p, "stock"), 8.0);
    assert_eq!(p.get("active").unwrap(), &serde_json::Value::Bool(false));
    assert_eq!(
        fault(&mut shop, "save_product", &admin, r#"{"editingSku":"A2","sku":"B1"}"#),
        "Ese SKU ya existe",
    );
    // a code that no product has makes a new one
    get(&mut shop, "save_product", &admin, r#"{"editingSku":"ZZ","sku":"C1","stock":4}"#);
    assert_eq!(number(&stored(&shop, "products", "C1").unwrap(), "stock"), 4.0);
    assert_eq!(size(&shop, "products"), 3);
}

#[test]
fn a_product_can_be_deleted() {
    let (mut shop, admin, _manager, _cashier) = staffed();
    get(&mut shop, "save_product", &admin, r#"{"sku":"A1"}"#);
    assert_eq!(fault(&mut shop, "delete_product", &admin, "{}"), "Falta SKU");
    assert_eq!(fault(&mut shop, "delete_product", &admin, r#"{"sku":"A2"}"#), "Producto no encontrado");
    check(&get(&mut shop, "delete_product", &admin, r#"{"sku":" A1 "}"#), r#"{"ok":true}"#);
    assert_eq!(size(&shop, "products"), 0);
}

// ----- movements -----

#[test]
fn a_movement_changes_the_stock() {
    let (mut shop, admin, _manager, _cashier) = staffed();
    get(&mut shop, "save_product", &admin, r#"{"sku":"A1","name":"Agua","cost":2.5,"stock":10}"#);
    let count: u64 = shop.source.count;
    let v: Value = get(&mut shop, "movement", &admin, r#"{"sku":"A1","quantity":-4,"reason":"pedido","reference":"F1"}"#);
    let token: String = format!("{:x}{:x}7", (T0 as u128) * 1_000_000, count);
    let suffix: String = token.chars().rev().take(6).collect();
    let id: String = format!("MOV-{}-{}", T0, suffix);
    let text: String = format!(
        r#"{{"id":"{}","timestamp":"2024-05-06T07:08:09.010Z","type":"entrada_compra","sku":"A1",
            "productName":"Agua","quantity":4.0,"stockBefore":10.0,"stockAfter":14.0,"unitCost":2.5,
            "totalCost":10.0,"reason":"pedido","reference":"F1","user":"Ana","authorizedBy":"","notes":""}}"#,
        id,
    );
    let record: serde_json::Value = serde_json::from_str(&text).unwrap();
    assert_eq!(part(&v, "movement"), record);
    assert_eq!(stored(&shop, "moves", &id).unwrap(), record);
    assert_eq!(number(&stored(&shop, "products", "A1").unwrap(), "stock"), 14.0);
    for (kind, left) in [("salida_manual", 11.0), ("merma", 8.0), ("otra", 11.0)] {
        let payload: String = format!(r#"{{"sku":"A1","quantity":3,"type":"{}"}}"#, kind);
        let v: Value = get(&mut shop, "movement", &admin, &payload);
        assert_eq!(number(&part(&v, "movement"), "stockAfter"), left);
        assert_eq!(number(&stored(&shop, "products", "A1").unwrap(), "stock"), left);
    }
    assert_eq!(fault(&mut shop, "movement", &admin, r#"{"sku":"A2","quantity":3}"#), "Producto no encontrado");
    // the other fields are as they were
    assert_eq!(number(&stored(&shop, "products", "A1").unwrap(), "cost"), 2.5);
}

#[test]
fn a_movement_can_be_taken_back() {
    let (mut shop, admin, _manager, _cashier) = staffed();
    get(&mut shop, "save_product", &admin, r#"{"sku":"A1","name":"Agua","cost":2.5,"stock":10}"#);
    let v: Value = get(&mut shop, "movement", &admin, r#"{"sku":"A1","quantity":4,"type":"merma"}"#);
    let id: String = part(&v, "movement").get("id").unwrap().as_str().unwrap().to_string();
    assert_eq!(number(&stored(&shop, "products", "A1").unwrap(), "stock"), 6.0);
    let undo: String = format!(r#"{{"id":"{}","admin":{{"username":"2000","password":"encargo2"}}}}"#, id);
    check(&get(&mut shop, "delete_movement", &admin, &undo), r#"{"ok":true}"#);
    assert_eq!(number(&stored(&shop, "products", "A1").unwrap(), "stock"), 10.0);
    assert_eq!(stored(&shop, "moves", &id), None);
    let moves: Vec<Value> = list_items(&shop.db, "moves");
    assert_eq!(moves.len(), 1);
    let kept = to_json(&moves[0]);
    assert!(kept.get("id").unwrap().as_str().unwrap().starts_with("MOV-DEL-"));
    for (key, text) in [
        ("type", "eliminacion_movimiento"),
        ("sku", "A1"),
        ("productName", "Agua"),
        ("reference", id.as_str()),
        ("user", "Ana"),
        ("authorizedBy", "Eva"),
        ("notes", ""),
    ] {
        assert_eq!(kept.get(key).unwrap(), &serde_json::Value::from(text), "{}", key);
    }
    assert_eq!(kept.get("reason").unwrap().as_str().unwrap(), format!("Eliminacion de {}", id));
    assert_eq!(number(&kept, "quantity"), 4.0);
    assert_eq!(number(&kept, "stockBefore"), 6.0);
    assert_eq!(number(&kept, "stockAfter"), 10.0);
    assert_eq!(number(&kept, "unitCost"), 2.5);
    assert_eq!(number(&kept, "totalCost"), 10.0);
}

#[test]
fn taking_a_movement_back_asks_for_what_it_needs() {
    let (mut shop, admin, _manager, _cashier) = staffed();
    get(&mut shop, "save_product", &admin, r#"{"sku":"A1","stock":10}"#);
    let v: Value = get(&mut shop, "movement", &admin, r#"{"sku":"A1","quantity":4}"#);
    let id: String = part(&v, "movement").get("id").unwrap().as_str().unwrap().to_string();
    let with = |admin: &str| format!(r#"{{"id":"{}","admin":{}}}"#, id, admin);
    assert_eq!(fault(&mut shop, "delete_movement", &admin, "{}"), "Falta movimiento");
    assert_eq!(fault(&mut shop, "delete_movement", &admin, r#"{"id":"x"}"#), "Movimiento no encontrado");
    assert_eq!(
        fault(&mut shop, "delete_movement", &admin, &with(r#"{"username":"2000","password":"mal"}"#)),
        "Permiso superior incorrecto",
    );
    assert_eq!(
        fault(&mut shop, "delete_movement", &admin, &with(r#"{"username":"3000","password":"caja3"}"#)),
        "Ese usuario no tiene permiso superior",
    );
    // a product that is gone has no stock to correct
    get(&mut shop, "delete_product", &admin, r#"{"sku":"A1"}"#);
    get(&mut shop, "delete_movement", &admin, &with(r#"{"username":"x","code":"encargo2"}"#));
    let kept = to_json(&list_items(&shop.db, "moves")[0]);
    assert_eq!(kept.get("stockBefore").unwrap(), &serde_json::Value::from(""));
    assert_eq!(kept.get("stockAfter").unwrap(), &serde_json::Value::from(""));
    assert_eq!(kept.get("authorizedBy").unwrap(), &serde_json::Value::from("Eva"));
    assert_eq!(size(&shop, "products"), 0);
}

#[test]
fn without_a_named_supervisor_the_user_allows_it() {
    let (mut shop, _admin, manager, _cashier) = staffed();
    get(&mut shop, "save_product", &manager, r#"{"sku":"A1","stock":10}"#);
    for admin in ["null", "{}", r#"{"code":"jefe1"}"#] {
        let v: Value = get(&mut shop, "movement", &manager, r#"{"sku":"A1","quantity":4}"#);
        let id: String = part(&v, "movement").get("id").unwrap().as_str().unwrap().to_string();
        get(&mut shop, "delete_movement", &manager, &format!(r#"{{"id":"{}","admin":{}}}"#, id, admin));
    }
    for mv in list_items(&shop.db, "moves") {
        assert_eq!(to_json(&mv).get("authorizedBy").unwrap(), &serde_json::Value::from("Eva"));
    }
}

// ----- counts -----

#[test]
fn a_count_sets_the_stock() {
    let (mut shop, admin, _manager, _cashier) = staffed();
    get(&mut shop, "save_product", &admin, r#"{"sku":"A1","name":"Agua","barcode":"75","category":"Bebidas","cost":2,"stock":10}"#);
    let v: Value = get(&mut shop, "count", &admin, r#"{"sku":"A1","countedStock":7.5,"notes":"rota"}"#);
    let c = part(&v, "count");
    let id: String = c.get("id").unwrap().as_str().unwrap().to_string();
    assert!(id.starts_with(&format!("CNT-{}-", T0)));
    for (key, text) in [
        ("inventoryId", format!("INV-{}", T0)),
        ("sku", "A1".to_string()),
        ("productName", "Agua".to_string()),
        ("barcode", "75".to_string()),
        ("category", "Bebidas".to_string()),
        ("presentation", "".to_string()),
        ("unit", "pieza".to_string()),
        ("supplier", "".to_string()),
        ("user", "Ana".to_string()),
        ("authorizedBy", "".to_string()),
        ("notes", "rota".to_string()),
        ("timestamp", "2024-05-06T07:08:09.010Z".to_string()),
    ] {
        assert_eq!(c.get(key).unwrap(), &serde_json::Value::from(text), "{}", key);
    }
    assert_eq!(number(&c, "systemStock"), 10.0);
    assert_eq!(number(&c, "countedStock"), 7.5);
    assert_eq!(number(&c, "difference"), -2.5);
    assert_eq!(stored(&shop, "counts", &id).unwrap(), c);
    assert_eq!(number(&stored(&shop, "products", "A1").unwrap(), "stock"), 7.5);
    let mv = stored(&shop, "moves", &format!("MOV-{}-A1", T0)).unwrap();
    for (key, text) in [("type", "ajuste_conteo"), ("reason", "Conteo fisico"), ("reference", id.as_str()), ("user", "Ana")] {
        assert_eq!(mv.get(key).unwrap(), &serde_json::Value::from(text), "{}", key);
    }
    assert_eq!(number(&mv, "quantity"), -2.5);
    assert_eq!(number(&mv, "stockBefore"), 10.0);
    assert_eq!(number(&mv, "stockAfter"), 7.5);
    assert_eq!(number(&mv, "unitCost"), 2.0);
    assert_eq!(number(&mv, "totalCost"), -5.0);
    assert_eq!(fault(&mut shop, "count", &admin, r#"{"sku":"A2"}"#), "Producto no encontrado");
}

#[test]
fn counting_the_same_again_makes_no_movement() {
    let (mut shop, admin, _manager, _cashier) = staffed();
    get(&mut shop, "save_product", &admin, r#"{"sku":"A1","stock":10}"#);
    get(&mut shop, "count", &admin, r#"{"sku":"A1","countedStock":0.1,"authorizedBy":"Luz","inventoryId":"I1"}"#);
    assert_eq!(size(&shop, "moves"), 1);
    let v: Value = ask(&mut shop, "count", &admin, r#"{"sku":"A1","countedStock":0.1,"authorizedBy":"Luz","inventoryId":"I1"}"#, T0 + 5).unwrap();
    assert_eq!(size(&shop, "moves"), 1);
    assert_eq!(size(&shop, "counts"), 2);
    assert_eq!(part(&v, "count").get("user").unwrap(), &serde_json::Value::from("Luz"));
    assert_eq!(part(&v, "count").get("inventoryId").unwrap(), &serde_json::Value::from("I1"));
    assert_eq!(number(&part(&v, "count"), "difference"), 0.0);
}

// ----- sales -----

#[test]
fn a_ticket_is_sold() {
    let (mut shop, admin, _manager, cashier) = staffed();
    get(&mut shop, "save_product", &admin, r#"{"sku":"A1","name":"Agua","price":10.1,"cost":4,"stock":5}"#);
    get(&mut shop, "save_product", &admin, r#"{"sku":"B1","name":"Pan","price":3,"cost":1,"stock":2}"#);
    get(&mut shop, "save_product", &admin, r#"{"sku":"C1","name":"Sal","price":1,"cost":1,"stock":9}"#);
    let payload: Value = load(r#"{"clientId":"V-1","items":[{"sku":"A1","qty":2},{"sku":"B1","qty":1.5}]}"#);
    let mut texts: Texts = no_texts();
    texts.items = r#"[{"sku":"A1","qty":2},{"sku":"B1","qty":1.5}]"#.to_string();
    let v: Value = dispatch_at("checkout", &payload, &cashier, &mut shop, &texts, &at(T0), &vec![T0, T0 + 3], &Vec::new()).unwrap();
    check(
        &v,
        r#"{"ok":true,"sale":{"id":"V-1","timestamp":"2024-05-06T07:08:09.010Z",
            "itemsJson":"[{\"sku\":\"A1\",\"qty\":2},{\"sku\":\"B1\",\"qty\":1.5}]","subtotal":24.7,
            "discount":0.0,"total":24.7,"paymentMethod":"Efectivo","user":"3000","notes":"","profit":15.2}}"#,
    );
    assert_eq!(stored(&shop, "sales", "V-1").unwrap(), part(&v, "sale"));
    assert_eq!(number(&stored(&shop, "products", "A1").unwrap(), "stock"), 3.0);
    assert_eq!(number(&stored(&shop, "products", "B1").unwrap(), "stock"), 0.5);
    assert_eq!(number(&stored(&shop, "products", "C1").unwrap(), "stock"), 9.0);
    assert_eq!(size(&shop, "moves"), 2);
    check(
        &get_item(&shop.db, "moves", &format!("MOV-{}-B1", T0 + 3)).unwrap(),
        &format!(
            r#"{{"id":"MOV-{}-B1","timestamp":"2024-05-06T07:08:09.010Z","type":"venta","sku":"B1",
                "productName":"Pan","quantity":-1.5,"stockBefore":2.0,"stockAfter":0.5,"unitCost":1.0,
                "totalCost":-1.5,"reason":"Venta POS","reference":"V-1","user":"3000","notes":""}}"#,
            T0 + 3,
        ),
    );
}

#[test]
fn a_ticket_is_sold_only_once() {
    let (mut shop, admin, _manager, cashier) = staffed();
    get(&mut shop, "save_product", &admin, r#"{"sku":"A1","price":10,"stock":5}"#);
    let first: Value = get(&mut shop, "checkout", &cashier, r#"{"id":"V-1","items":[{"sku":"A1","qty":2}]}"#);
    let before: usize = shop.db.log.len();
    let again: Value = get(&mut shop, "checkout", &admin, r#"{"clientId":"V-1","id":"V-2","items":[{"sku":"A1","qty":1}]}"#);
    assert_eq!(part(&again, "duplicate"), serde_json::Value::Bool(true));
    assert_eq!(part(&again, "sale"), part(&first, "sale"));
    assert_eq!(shop.db.log.len(), before);
    assert_eq!(number(&stored(&shop, "products", "A1").unwrap(), "stock"), 3.0);
    // without an identifier the moment makes one
    let v: Value = get(&mut shop, "checkout", &cashier, r#"{"items":[{"sku":"A1","qty":1}],"paymentMethod":"Tarjeta"}"#);
    assert_eq!(part(&v, "sale").get("id").unwrap().as_str().unwrap(), format!("SALE-{}", T0));
    assert_eq!(part(&v, "sale").get("paymentMethod").unwrap(), &serde_json::Value::from("Tarjeta"));
}

#[test]
fn a_ticket_that_cannot_be_sold_changes_nothing() {
    let (mut shop, admin, _manager, cashier) = staffed();
    get(&mut shop, "save_product", &admin, r#"{"sku":"A1","name":"Agua","price":10,"stock":5}"#);
    let before: usize = shop.db.log.len();
    for (items, why) in [
        ("[]", "Ticket vacio"),
        ("{}", "Ticket vacio"),
        (r#"[{"sku":"A1","qty":1},{"sku":"X"}]"#, "Producto no encontrado: X"),
        (r#"[{"qty":1}]"#, "Producto no encontrado: "),
        (r#"[{"sku":"A1"}]"#, "Cantidad invalida"),
        (r#"[{"sku":"A1","qty":-1}]"#, "Cantidad invalida"),
        (r#"[{"sku":"A1","qty":"2"}]"#, "Cantidad invalida"),
        (r#"[{"sku":"A1","qty":5.5}]"#, "Stock insuficiente: Agua"),
        (r#"[{"sku":"A1","qty":9},{"sku":"X"}]"#, "Stock insuficiente: Agua"),
    ] {
        let payload: String = format!(r#"{{"id":"V","items":{}}}"#, items);
        assert_eq!(fault(&mut shop, "checkout", &cashier, &payload), why);
    }
    assert_eq!(shop.db.log.len(), before);
    // all of the stock can be sold, and not below zero
    get(&mut shop, "checkout", &cashier, r#"{"items":[{"sku":"A1","qty":5}]}"#);
    assert_eq!(number(&stored(&shop, "products", "A1").unwrap(), "stock"), 0.0);
}

#[test]
fn each_line_takes_off_what_the_lines_before_it_left() {
    let (mut shop, admin, _manager, cashier) = staffed();
    get(&mut shop, "save_product", &admin, r#"{"sku":"A1","price":10,"stock":10}"#);
    get(&mut shop, "save_product", &admin, r#"{"sku":"B1","price":1,"stock":6}"#);
    let payload: Value = load(
        r#"{"clientId":"S1","items":[{"sku":"A1","qty":3},{"sku":"B1","qty":1},{"sku":"A1","qty":4}]}"#,
    );
    let clock: Vec<i64> = vec![T0 + 1, T0 + 2, T0 + 3];
    let v: Value = dispatch_at("checkout", &payload, &cashier, &mut shop, &no_texts(), &at(T0), &clock, &Vec::new()).unwrap();
    assert_eq!(number(&part(&v, "sale"), "total"), 71.0);
    assert_eq!(number(&stored(&shop, "products", "A1").unwrap(), "stock"), 3.0);
    assert_eq!(number(&stored(&shop, "products", "B1").unwrap(), "stock"), 5.0);
    for (id, before, after) in [("1-A1", 10.0, 7.0), ("2-B1", 6.0, 5.0), ("3-A1", 7.0, 3.0)] {
        let mv = stored(&shop, "moves", &format!("MOV-{}{}", T0 / 10, id)).unwrap();
        assert_eq!(number(&mv, "stockBefore"), before);
        assert_eq!(number(&mv, "stockAfter"), after);
    }
    // the queue goes on from there
    get(&mut shop, "sync_batch", &cashier, r#"{"items":[{"op":"checkout","payload":{"id":"S2","items":[{"sku":"A1","qty":1},{"sku":"A1","qty":2}]}}]}"#);
    assert_eq!(number(&stored(&shop, "products", "A1").unwrap(), "stock"), 0.0);
}

#[test]
fn everything_sold_leaves_the_inventory() {
    for quantities in [vec![5], vec![1, 1, 1], vec![2, 3, 4, 1], vec![10]] {
        let (mut shop, admin, _manager, cashier) = staffed();
        get(&mut shop, "save_product", &admin, r#"{"sku":"A1","stock":10}"#);
        let lines: Vec<String> = quantities.iter().map(|q| format!(r#"{{"sku":"A1","qty":{}}}"#, q)).collect();
        get(&mut shop, "checkout", &cashier, &format!(r#"{{"id":"V","items":[{}]}}"#, lines.join(",")));
        let left: i64 = 10 - quantities.iter().sum::<i64>();
        assert_eq!(number(&stored(&shop, "products", "A1").unwrap(), "stock"), left as f64);
    }
}

#[test]
fn a_queue_is_answered_item_by_item() {
    let (mut shop, admin, _manager, cashier) = staffed();
    get(&mut shop, "save_product", &admin, r#"{"sku":"A1","price":10,"stock":5}"#);
    let v: Value = get(
        &mut shop,
        "sync_batch",
        &cashier,
        r#"{"items":[
            {"op":"checkout","payload":{"id":"V1","items":[{"sku":"A1","qty":3}]}},
            {"op":"checkout","payload":{"id":"V2","items":[{"sku":"A1","qty":3}]}},
            {"op":"login"},
            {"op":"checkout"},
            {"op":"checkout","payload":{"id":"V1","items":[{"sku":"A1","qty":3}]}},
            {"op":"checkout","payload":{"id":"V3","items":[{"sku":"A1","qty":2}]}}]}"#,
    );
    let results: Vec<serde_json::Value> = part(&v, "results").as_array().unwrap().clone();
    let said: Vec<bool> = results.iter().map(|r| r.get("ok").unwrap().as_bool().unwrap()).collect();
    assert_eq!(said, vec![true, false, false, false, true, true]);
    assert_eq!(results[1].get("error").unwrap(), &serde_json::Value::from("Stock insuficiente: "));
    assert_eq!(results[2].get("error").unwrap(), &serde_json::Value::from("Operacion de cola no soportada"));
    assert_eq!(results[3].get("error").unwrap(), &serde_json::Value::from("Ticket vacio"));
    assert_eq!(results[4].get("duplicate").unwrap(), &serde_json::Value::Bool(true));
    assert_eq!(number(&stored(&shop, "products", "A1").unwrap(), "stock"), 0.0);
    assert_eq!(size(&shop, "sales"), 2);
}

#[test]
fn an_item_of_a_queue_stands_on_its_own() {
    let (mut shop, admin, _manager, cashier) = staffed();
    get(&mut shop, "save_product", &admin, r#"{"sku":"A1","price":10,"stock":5}"#);
    let reading = tienda_pos::sales::Reading { m: at(T0), clock: vec![T0] };
    let mut item = |text: &str| tienda_pos::sales::queue_item_at(&mut shop, &cashier, &load(text), "[]", &reading);
    let sold: Value = item(r#"{"op":"checkout","payload":{"id":"V1","items":[{"sku":"A1","qty":3}]}}"#);
    let short: Value = item(r#"{"op":"checkout","payload":{"id":"V2","items":[{"sku":"A1","qty":3}]}}"#);
    let other: Value = item(r#"{"op":"login"}"#);
    assert_eq!(number(&part(&sold, "sale"), "total"), 30.0);
    assert_eq!(refused(&short), "Stock insuficiente: ");
    assert_eq!(refused(&other), "Operacion de cola no soportada");
    assert_eq!(number(&stored(&shop, "products", "A1").unwrap(), "stock"), 2.0);
    check(&tienda_pos::sales::queue_answer(Vec::new()), r#"{"ok":true,"results":[]}"#);
    check(
        &tienda_pos::sales::queue_answer(vec![other]),
        r#"{"ok":true,"results":[{"ok":false,"error":"Operacion de cola no soportada"}]}"#,
    );
    assert!(tienda_pos::sales::authorize_staff(&mut shop, &cashier, T0).is_ok());
    assert_eq!(tienda_pos::sales::authorize_staff(&mut shop, "x", T0).err().unwrap(), "Sesion expirada");
}

#[test]
fn the_texts_of_a_queue_go_with_its_items() {
    let (mut shop, admin, _manager, cashier) = staffed();
    get(&mut shop, "save_product", &admin, r#"{"sku":"A1","price":10,"stock":5}"#);
    let payload: Value = load(r#"{"items":[{"op":"x"},{"op":"checkout","payload":{"id":"V1","items":[{"sku":"A1","qty":1}]}}]}"#);
    let mut texts: Texts = no_texts();
    texts.queue = vec!["[]".to_string(), r#"[{"qty":1,"sku":"A1"}]"#.to_string()];
    tienda_pos::dispatch::dispatch("sync_batch", &payload, &fresh(&mut shop, &cashier), &mut shop, &texts).unwrap();
    let sale = stored(&shop, "sales", "V1").unwrap();
    assert_eq!(sale.get("itemsJson").unwrap(), &serde_json::Value::from(r#"[{"qty":1,"sku":"A1"}]"#));
}

/// A token of the same user whose session counts now.
fn fresh(shop: &mut Shop, key: &str) -> String {
    let name: String = shop.sessions.get(key).unwrap().username;
    let session = tienda_pos::sessions::Session {
        username: name,
        expires_at: tienda_pos::clock::now_millis() + 1000,
    };
    shop.sessions.insert("ahora", session);
    "ahora".to_string()
}

#[test]
fn operations_can_be_asked_for_at_the_present_moment() {
    let (mut shop, admin, _manager, _cashier) = staffed();
    let key: String = fresh(&mut shop, &admin);
    let ok = |v: Result<Value, String>| assert_eq!(part(&v.unwrap(), "ok"), serde_json::Value::Bool(true));
    ok(tienda_pos::products::op_save_product(&mut shop, &key, &load(r#"{"sku":"A1","stock":4}"#)));
    ok(tienda_pos::stock::op_movement(&mut shop, &key, &load(r#"{"sku":"A1","quantity":1}"#)));
    ok(tienda_pos::stock::op_count(&mut shop, &key, &load(r#"{"sku":"A1","countedStock":2}"#)));
    ok(tienda_pos::sales::op_checkout(&mut shop, &key, &load(r#"{"items":[{"sku":"A1","qty":1}]}"#), "[]"));
    ok(tienda_pos::sales::op_sync_batch(&mut shop, &key, &load("{}"), &Vec::new()));
    ok(tienda_pos::catalogs::op_save_catalog(&mut shop, &key, &load(r#"{"kind":"unit","name":"Kilo"}"#)));
    ok(tienda_pos::catalogs::op_delete_catalog(&mut shop, &key, &load(r#"{"kind":"unit","id":"kilo"}"#)));
    ok(tienda_pos::catalogs::op_save_settings(&mut shop, &key, &load("{}"), "{}"));
    ok(tienda_pos::dispatch::op_data(&mut shop, &key, None));
    ok(tienda_pos::accounts::op_save_user(&mut shop, &key, &load(r#"{"username":"8000","password":"clave"}"#)));
    ok(tienda_pos::accounts::op_delete_user(&mut shop, &key, &load(r#"{"username":"8000"}"#)));
    ok(tienda_pos::accounts::op_login(&mut shop, &load(r#"{"code":"jefe1"}"#)));
    let id: String = to_json(&list_items(&shop.db, "moves")[0]).get("id").unwrap().as_str().unwrap().to_string();
    ok(tienda_pos::stock::op_delete_movement(&mut shop, &key, &load(&format!(r#"{{"id":"{}"}}"#, id))));
    ok(tienda_pos::products::op_delete_product(&mut shop, &key, &load(r#"{"sku":"A1"}"#)));
    let v: Value = tienda_pos::accounts::op_setup_admin(&mut shop, &load("{}")).unwrap();
    assert_eq!(refused(&v), "La tienda ya tiene usuarios configurados");
    let mut other: Shop = new_shop();
    tienda_pos::accounts::create_user_record(&mut other, &load(r#"{"username":"1234","password":"clave"}"#), "Encargado").unwrap();
    assert_eq!(stored(&other, "users", "1234").unwrap().get("role").unwrap(), &serde_json::Value::from("encargado"));
}

#[test]
fn whole_prices_add_up_exactly() {
    let (mut shop, admin, _manager, cashier) = staffed();
    get(&mut shop, "save_product", &admin, r#"{"sku":"A1","price":4503599627370495,"stock":9}"#);
    get(&mut shop, "save_product", &admin, r#"{"sku":"B1","price":7,"cost":9,"stock":9}"#);
    let v: Value = get(&mut shop, "checkout", &cashier, r#"{"items":[{"sku":"B1","qty":2},{"sku":"A1","qty":1},{"sku":"B1","qty":3}]}"#);
    assert_eq!(number(&part(&v, "sale"), "total"), 4503599627370530.0);
    assert_eq!(number(&part(&v, "sale"), "profit"), 4503599627370485.0);
}
