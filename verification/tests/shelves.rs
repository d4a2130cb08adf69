use tienda_pos::clock::{Moment, TokenSource};
use tienda_pos::dispatch::{dispatch_at, Texts};
use tienda_pos::json::{Number, Value};
use tienda_pos::sales::Reading;
use tienda_pos::sessions::Sessions;
use tienda_pos::shop::Shop;
use tienda_pos::store::{get_item, list_items, Store};

/// A document from its text.
fn load(text: &str) -> Value {
    from_json(&serde_json::from_str::<serde_json::Value>(text).unwrap())
}

fn from_json(v: &serde_json::Value) -> Value {
    match v {
        serde_json::Value::Null => Value::Null,
        serde_json::Value::Bool(b) => Value::Bool(*b),
        serde_json::Value::Number(n) => Value::Number(if let Some(k) = n.as_u64() {
            Number::PosInt(k)
        } else if let Some(k) = n.as_i64() {
            Number::NegInt(k)
        } else {
            Number::Float { bits: n.as_f64().unwrap().to_bits(), text: Some(n.to_string()) }
        }),
        serde_json::Value::String(s) => Value::Text(s.clone()),
        serde_json::Value::Array(xs) => Value::Array(xs.iter().map(from_json).collect()),
        serde_json::Value::Object(m) => {
            Value::Object(m.iter().map(|(k, x)| (k.clone(), from_json(x))).collect())
        }
    }
}

fn to_json(v: &Value) -> serde_json::Value {
    match v {
        Value::Null => serde_json::Value::Null,
        Value::Bool(b) => serde_json::Value::Bool(*b),
        Value::Number(Number::PosInt(k)) => serde_json::Value::from(*k),
        Value::Number(Number::NegInt(k)) => serde_json::Value::from(*k),
        Value::Number(Number::Float { bits, text: _ }) => {
            serde_json::Value::from(f64::from_bits(*bits))
        }
        Value::Text(s) => serde_json::Value::from(s.clone()),
        Value::Array(xs) => serde_json::Value::Array(xs.iter().map(to_json).collect()),
        Value::Object(es) => {
            let mut m = serde_json::Map::new();
            for (k, x) in es {
                m.insert(k.clone(), to_json(x));
            }
            serde_json::Value::Object(m)
        }
    }
}

/// Checks that a document is the one with the given text.
fn check(v: &Value, text: &str) {
    assert_eq!(to_json(v), serde_json::from_str::<serde_json::Value>(text).unwrap());
}

/// What stands under a name in an answer.
fn part(v: &Value, key: &str) -> serde_json::Value {
    to_json(v).get(key).cloned().unwrap_or(serde_json::Value::Null)
}

const T0: i64 = 1_700_000_000_000;
const HOURS_14: i64 = 50_400_000;

fn at(millis: i64) -> Moment {
    Moment {
        nanos: (millis as u128) * 1_000_000,
        millis,
        iso: "2024-05-06T07:08:09.010Z".to_string(),
    }
}

fn new_shop() -> Shop {
    Shop {
        db: Store { rows: Vec::new(), log: Vec::new() },
        sessions: Sessions::new(),
        source: TokenSource { count: 0, process: 7 },
    }
}

fn no_texts() -> Texts {
    Texts { stored: None, settings: String::new(), items: "[]".to_string(), queue: Vec::new() }
}

/// Asks the shop for an operation at a moment.
fn ask(shop: &mut Shop, op: &str, key: &str, payload: &str, millis: i64) -> Result<Value, String> {
    let payload: Value = load(payload);
    let rs: Vec<Reading> =
        (0..8).map(|_| Reading { m: at(millis), clock: vec![millis; 8] }).collect();
    dispatch_at(op, &payload, key, shop, &no_texts(), &at(millis), &vec![millis; 8], &rs)
}

/// Asks for an operation that is carried out.
fn get(shop: &mut Shop, op: &str, key: &str, payload: &str) -> Value {
    match ask(shop, op, key, payload, T0) {
        Ok(v) => v,
        Err(e) => panic!("{} failed: {}", op, e),
    }
}

/// Why an operation fails.
fn fault(shop: &mut Shop, op: &str, key: &str, payload: &str) -> String {
    match ask(shop, op, key, payload, T0) {
        Ok(v) => panic!("{} did not fail: {}", op, to_json(&v)),
        Err(e) => e,
    }
}

/// What an answer that says no says.
fn refused(v: &Value) -> String {
    assert_eq!(part(v, "ok"), serde_json::Value::Bool(false));
    part(v, "error").as_str().unwrap().to_string()
}

/// Signs in and gives the token.
fn sign_in(shop: &mut Shop, payload: &str) -> String {
    let v: Value = get(shop, "login", "", payload);
    assert_eq!(part(&v, "ok"), serde_json::Value::Bool(true), "{}", to_json(&v));
    part(&v, "sessionToken").as_str().unwrap().to_string()
}

/// A shop with an administrator, a manager and a cashier, and their tokens.
fn staffed() -> (Shop, String, String, String) {
    let mut shop: Shop = new_shop();
    get(&mut shop, "setup_admin", "", r#"{"loginCode":"1000","password":"jefe1","displayName":"Ana"}"#);
    let admin: String = sign_in(&mut shop, r#"{"username":"1000","password":"jefe1"}"#);
    get(&mut shop, "save_user", &admin, r#"{"username":"2000","password":"encargo2","role":"Encargado","displayName":"Eva"}"#);
    get(&mut shop, "save_user", &admin, r#"{"username":"3000","password":"caja3","role":"cajero"}"#);
    let manager: String = sign_in(&mut shop, r#"{"username":"2000","password":"encargo2"}"#);
    let cashier: String = sign_in(&mut shop, r#"{"username":"3000","password":"caja3"}"#);
    (shop, admin, manager, cashier)
}

/// The document under a key.
fn stored(shop: &Shop, store: &str, id: &str) -> Option<serde_json::Value> {
    get_item(&shop.db, store, id).map(|v| to_json(&v))
}

/// The number in a field of a document.
fn number(v: &serde_json::Value, key: &str) -> f64 {
    v.get(key).unwrap().as_f64().unwrap()
}

/// How many documents a store has.
fn size(shop: &Shop, store: &str) -> usize {
    list_items(&shop.db, store).len()
}

// ----- catalogues -----

#[test]
fn each_catalogue_keeps_its_own_fields() {
    let (mut shop, _admin, manager, _cashier) = staffed();
    check(
        &get(&mut shop, "save_catalog", &manager, r#"{"kind":"category","name":"Bebidas Frías","description":" d "}"#),
        r#"{"ok":true,"item":{"id":"bebidas_frias","name":"Bebidas Frías","active":true,"sortOrder":1.0,"description":"d"}}"#,
    );
    check(
        &get(&mut shop, "save_catalog", &manager, r#"{"kind":"category","name":"Pan","id":"P1","sortOrder":7,"active":false}"#),
        r#"{"ok":true,"item":{"id":"P1","name":"Pan","active":false,"sortOrder":7.0,"description":""}}"#,
    );
    check(
        &get(&mut shop, "save_catalog", &manager, r#"{"kind":"category","name":"Otra","sortOrder":"7"}"#),
        r#"{"ok":true,"item":{"id":"otra","name":"Otra","active":true,"sortOrder":3.0,"description":""}}"#,
    );
    check(
        &get(&mut shop, "save_catalog", &manager, r#"{"kind":"unit","name":"Kilo","active":""}"#),
        r#"{"ok":true,"item":{"id":"kilo","name":"Kilo","active":false,"sortOrder":1.0,"abbreviation":"Kilo"}}"#,
    );
    check(
        &get(&mut shop, "save_catalog", &manager, r#"{"kind":"unit","name":"Litro","abbreviation":"l"}"#),
        r#"{"ok":true,"item":{"id":"litro","name":"Litro","active":true,"sortOrder":2.0,"abbreviation":"l"}}"#,
    );
    check(
        &get(&mut shop, "save_catalog", &manager, r#"{"kind":"supplier","name":"Abarrotes S.A.","phone":5512,"notes":"n"}"#),
        r#"{"ok":true,"item":{"id":"abarrotes_s_a","name":"Abarrotes S.A.","active":true,"sortOrder":1.0,"phone":"5512","notes":"n"}}"#,
    );
    check(
        &get(&mut shop, "save_catalog", &manager, r#"{"kind":"presentation","name":"%"}"#),
        &format!(
            r#"{{"ok":true,"item":{{"id":"item_{}","name":"%","active":true,"sortOrder":1.0,"description":""}}}}"#,
            T0,
        ),
    );
    assert_eq!(size(&shop, "categories"), 3);
    assert_eq!(size(&shop, "units"), 2);
    assert_eq!(size(&shop, "suppliers"), 1);
    assert_eq!(size(&shop, "presentations"), 1);
}

#[test]
fn a_catalogue_that_there_is_not_is_refused() {
    let (mut shop, _admin, manager, _cashier) = staffed();
    assert_eq!(fault(&mut shop, "save_catalog", &manager, r#"{"kind":"x","name":"Pan"}"#), "Catalogo no reconocido");
    assert_eq!(fault(&mut shop, "save_catalog", &manager, r#"{"kind":"unit"}"#), "Falta nombre");
    get(&mut shop, "save_catalog", &manager, r#"{"kind":"unit","name":"Kilo"}"#);
    assert_eq!(fault(&mut shop, "delete_catalog", &manager, r#"{"kind":"x","id":"kilo"}"#), "Catalogo no reconocido");
    assert_eq!(fault(&mut shop, "delete_catalog", &manager, r#"{"kind":"unit"}"#), "Catalogo no reconocido");
    check(&get(&mut shop, "delete_catalog", &manager, r#"{"kind":"unit","id":"kilo"}"#), r#"{"ok":true}"#);
    assert_eq!(size(&shop, "units"), 0);
}

// ----- settings -----

const DEFAULTS: &str = r##"{"storeTitle":"Tienda de Conveniencia",
    "storeSubtitle":"Venta, entradas, salidas, mermas, conteos y reportes","authTitle":"Acceso a tienda",
    "authHelp":"Ingresa con tu usuario de tienda.","showAuthHelp":true,"accessFontSize":16.0,
    "accent":"#125f56","accent2":"#cf7f2a","blue":"#276b9f","green":"#317448","danger":"#bd4438",
    "bg":"#f2f4f1","panel":"#fffefb","soft":"#f8f1e7",
    "confirmPayLabel":"Confirmar cobro y descontar inventario","ticketTitle":"Ticket de venta",
    "ticketFooter":"Gracias por su compra","ticketTaxLabel":"IVA 16%","ticketShowStore":true,
    "ticketShowDate":true,"ticketShowCashier":true,"ticketShowPayment":true,"ticketShowSku":true,
    "ticketShowIva":true,"ticketShowLogo":false,"ticketLogoData":"","ticketFontFamily":"Arial",
    "ticketFontSize":11.0,"ticketBold":false,"ticketAutoPrint":false,"ticketPreviewBeforePrint":true,
    "ticketShowReceiptDialog":true,"cashCutTitle":"Corte de caja",
    "cashCutFooter":"Corte generado por el sistema","cashCutFontFamily":"Arial","cashCutFontSize":11.0,
    "cashCutBold":true,"cashCutShowLogo":false,"cashCutShowProducts":true,"cashCutShowPayments":true}"##;

#[test]
fn a_new_shop_has_its_settings() {
    check(&tienda_pos::settings::default_settings(), DEFAULTS);
    check(&tienda_pos::settings::normalize_settings(&load("[1,2]")), DEFAULTS);
    check(&tienda_pos::settings::read_settings(None), DEFAULTS);
}

#[test]
fn settings_are_brought_to_valid_ones() {
    let v: Value = tienda_pos::settings::normalize_settings(&load(
        r##"{"storeTitle":"  Mi tienda ","authHelp":"","showAuthHelp":false,"accessFontSize":99,
            "accent":"#ABCDEF","blue":"blue","ticketShowLogo":true,"ticketBold":"true","ticketShowDate":"false",
            "ticketFontFamily":"Tahoma","cashCutFontFamily":"Comic","ticketFontSize":2,"cashCutFontSize":null,
            "ticketTitle":7,"cashCutBold":false,"otra":1}"##,
    ));
    let v: serde_json::Value = to_json(&v);
    for (key, text) in [
        ("storeTitle", "Mi tienda"),
        ("authHelp", "Ingresa con tu usuario de tienda."),
        ("accent", "#ABCDEF"),
        ("blue", "#276b9f"),
        ("ticketFontFamily", "Tahoma"),
        ("cashCutFontFamily", "Arial"),
        ("ticketTitle", "7"),
    ] {
        assert_eq!(v.get(key).unwrap(), &serde_json::Value::from(text), "{}", key);
    }
    for (key, on) in [("showAuthHelp", false), ("ticketShowLogo", true), ("ticketBold", false), ("ticketShowDate", true), ("cashCutBold", false)] {
        assert_eq!(v.get(key).unwrap(), &serde_json::Value::Bool(on), "{}", key);
    }
    assert_eq!(number(&v, "accessFontSize"), 24.0);
    assert_eq!(number(&v, "ticketFontSize"), 9.0);
    assert_eq!(number(&v, "cashCutFontSize"), 9.0);
    assert_eq!(v.get("otra"), None);
}

#[test]
fn full_settings_stay_as_they_are() {
    let once: Value = tienda_pos::settings::normalize_settings(&load(
        r##"{"storeTitle":" x ","accent":"#00ff00","accessFontSize":20.5,"ticketFontFamily":"Verdana","ticketLogoData":" data "}"##,
    ));
    let twice: Value = tienda_pos::settings::normalize_settings(&once);
    assert_eq!(to_json(&twice), to_json(&once));
    assert_eq!(part(&once, "ticketLogoData"), serde_json::Value::from("data"));
    // what is no number is no size
    for x in [f64::NAN, f64::INFINITY, f64::NEG_INFINITY] {
        let size: Value = Value::Number(tienda_pos::json::Number::Float { bits: x.to_bits(), text: None });
        assert_eq!(tienda_pos::json::num_of(Some(&size)), 0);
        let once: Value = tienda_pos::settings::normalize_settings(&Value::Object(vec![("accessFontSize".to_string(), size)]));
        assert_eq!(number(&to_json(&once), "accessFontSize"), 14.0);
        assert_eq!(to_json(&tienda_pos::settings::normalize_settings(&once)), to_json(&once));
    }
}

#[test]
fn a_logo_has_a_limited_size() {
    let logo = |s: String| Value::Object(vec![("ticketLogoData".to_string(), Value::Text(s))]);
    let long: Value = logo("a".repeat(250_003));
    assert!(tienda_pos::settings::can_normalize(&long));
    let cut: Value = tienda_pos::settings::normalize_settings(&long);
    assert_eq!(part(&cut, "ticketLogoData").as_str().unwrap().len(), 250_000);
    let exact: Value = logo("é".repeat(125_000));
    assert!(tienda_pos::settings::can_normalize(&exact));
    let kept: Value = tienda_pos::settings::normalize_settings(&exact);
    assert_eq!(part(&kept, "ticketLogoData").as_str().unwrap().len(), 250_000);
    // a character across the limit cannot be cut
    assert!(!tienda_pos::settings::can_normalize(&logo(format!("a{}", "é".repeat(125_000)))));
    assert!(tienda_pos::settings::can_normalize(&logo("é".repeat(125_001))));
    // who may not save them is told so, whatever the logo
    let mut shop: Shop = new_shop();
    let e = tienda_pos::catalogs::op_save_settings_at(&mut shop, "x", &logo(format!("a{}", "é".repeat(125_000))), "", T0);
    assert_eq!(e.err().unwrap(), "Sesion expirada");
}

#[test]
fn saved_settings_are_read_again() {
    let (mut shop, _admin, manager, _cashier) = staffed();
    assert_eq!(tienda_pos::settings::settings_text(&shop.db), None);
    let payload: Value = load(r##"{"storeTitle":"Mi tienda","accent":"#00ff00"}"##);
    let full: Value = tienda_pos::settings::normalize_settings(&payload);
    let text: String = to_json(&full).to_string();
    let mut texts: Texts = no_texts();
    texts.settings = text.clone();
    let v: Value = dispatch_at("save_settings", &payload, &manager, &mut shop, &texts, &at(T0), &Vec::new(), &Vec::new()).unwrap();
    assert_eq!(part(&v, "settings"), to_json(&full));
    assert_eq!(tienda_pos::settings::settings_text(&shop.db), Some(text.clone()));
    check(&get_item(&shop.db, "settings", "app").unwrap(), &format!(r#"{{"key":"app","value":{}}}"#, serde_json::Value::from(text.clone())));
    let mut texts: Texts = no_texts();
    texts.stored = Some(load(&text));
    let v: Value = dispatch_at("bootstrap", &load("{}"), "", &mut shop, &texts, &at(T0), &Vec::new(), &Vec::new()).unwrap();
    assert_eq!(part(&v, "settings"), to_json(&full));
}

// ----- documents -----

#[test]
fn fields_are_read_as_text() {
    for (text, read) in [
        (r#"" a b ""#, "a b"),
        ("12", "12"),
        ("-12", "-12"),
        ("18446744073709551615", "18446744073709551615"),
        ("-9223372036854775808", "-9223372036854775808"),
        ("1.50", "1.5"),
        ("1e3", "1000.0"),
        ("true", "true"),
        ("false", "false"),
        ("null", ""),
        ("[1]", ""),
        (r#"{"a":1}"#, ""),
    ] {
        assert_eq!(tienda_pos::json::clean_text(Some(&load(text))), read, "{}", text);
    }
    assert_eq!(tienda_pos::json::clean_text(None), "");
}

#[test]
fn fields_are_read_as_numbers_and_truths() {
    for (text, n, truth) in [
        ("3", 3.0, true),
        ("-3", -3.0, true),
        ("0", 0.0, false),
        ("-0.0", -0.0, false),
        ("0.25", 0.25, true),
        ("18446744073709551615", 18446744073709551615.0, true),
        ("9007199254740993", 9007199254740992.0, true),
        (r#""3""#, 0.0, true),
        (r#""""#, 0.0, false),
        ("true", 0.0, true),
        ("false", 0.0, false),
        ("null", 0.0, false),
        ("[]", 0.0, true),
        ("{}", 0.0, true),
    ] {
        let v: Value = load(text);
        assert_eq!(tienda_pos::json::num_of(Some(&v)), f64::to_bits(n), "{}", text);
        assert_eq!(tienda_pos::json::truthy(&v), truth, "{}", text);
        assert_eq!(tienda_pos::json::not_false(Some(&v)), text != "false");
        assert_eq!(tienda_pos::json::truthy_opt(Some(&v)), text == "true");
    }
    assert_eq!(tienda_pos::json::num_of(None), 0);
    assert!(tienda_pos::json::not_false(None));
    assert!(!tienda_pos::json::truthy_opt(None));
    assert!(tienda_pos::json::truthy_or_missing(None));
}

#[test]
fn names_are_chosen_in_order() {
    let v: Value = load(r#"{"code":" ","loginCode":5,"pin":"9","displayName":"","username":" ana "}"#);
    assert_eq!(tienda_pos::json::first_nonempty(&v, &["code", "loginCode", "pin"]), "5");
    assert_eq!(tienda_pos::json::first_nonempty(&v, &["code", "x"]), "");
    assert_eq!(tienda_pos::json::first_nonempty(&v, &[]), "");
    assert_eq!(tienda_pos::json::display_or_username(&v), "ana");
    assert_eq!(tienda_pos::json::display_or_username(&load(r#"{"displayName":"Ana","username":"1"}"#)), "Ana");
    assert_eq!(tienda_pos::json::display_or_username(&Value::Null), "");
}

#[test]
fn a_key_that_is_named_twice_counts_once() {
    let v: Value = Value::Object(vec![
        ("a".to_string(), Value::Bool(false)),
        ("b".to_string(), Value::Null),
        ("a".to_string(), Value::Bool(true)),
    ]);
    assert!(matches!(v.get("a"), Some(Value::Bool(true))));
    assert!(v.get("c").is_none());
    assert!(Value::Text("a".to_string()).get("a").is_none());
    let w: Value = tienda_pos::json::with_field(v, "a", Value::Null);
    check(&w, r#"{"a":null,"b":null}"#);
    assert!(matches!(tienda_pos::json::from_double(f64::NAN.to_bits()), Value::Null));
    assert!(matches!(tienda_pos::json::from_double(f64::INFINITY.to_bits()), Value::Null));
    check(&tienda_pos::json::from_double(f64::to_bits(-1.5)), "-1.5");
}

// ----- the store -----

#[test]
fn the_store_keeps_one_document_under_a_key() {
    let mut db: Store = new_shop().db;
    tienda_pos::store::create_item(&mut db, "a", "1", &load(r#"{"x":1,"y":2}"#));
    tienda_pos::store::create_item(&mut db, "b", "1", &load("[]"));
    tienda_pos::store::create_item(&mut db, "a", "2", &load("null"));
    tienda_pos::store::patch_item(&mut db, "a", "1", &load(r#"{"y":3,"z":4}"#));
    check(&get_item(&db, "a", "1").unwrap(), r#"{"x":1,"y":3,"z":4}"#);
    // what is no object is not patched, and a missing one is made
    tienda_pos::store::patch_item(&mut db, "b", "1", &load(r#"{"y":3}"#));
    check(&get_item(&db, "b", "1").unwrap(), "[]");
    tienda_pos::store::patch_item(&mut db, "b", "2", &load(r#"{"y":3}"#));
    check(&get_item(&db, "b", "2").unwrap(), r#"{"y":3}"#);
    tienda_pos::store::patch_item(&mut db, "b", "2", &load("5"));
    check(&get_item(&db, "b", "2").unwrap(), r#"{"y":3}"#);
    assert_eq!(list_items(&db, "a").len(), 2);
    tienda_pos::store::delete_item(&mut db, "a", "1");
    assert!(get_item(&db, "a", "1").is_none());
    assert!(get_item(&db, "a", "2").is_some());
    assert_eq!(db.log.len(), 8);
    // a row that is no document is not listed, and a patch starts from nothing
    db.rows.push(tienda_pos::store::Row { store: "c".to_string(), id: "1".to_string(), data: None });
    assert_eq!(list_items(&db, "c").len(), 0);
    assert!(get_item(&db, "c", "1").is_none());
    tienda_pos::store::patch_item(&mut db, "c", "1", &load(r#"{"y":3}"#));
    check(&get_item(&db, "c", "1").unwrap(), r#"{"y":3}"#);
}

#[test]
fn the_log_leads_to_what_the_store_holds() {
    let (mut shop, admin, _manager, cashier) = staffed();
    get(&mut shop, "save_product", &admin, r#"{"sku":"A1","stock":5}"#);
    get(&mut shop, "checkout", &cashier, r#"{"id":"V","items":[{"sku":"A1","qty":1}]}"#);
    get(&mut shop, "save_product", &admin, r#"{"editingSku":"A1","sku":"A2"}"#);
    get(&mut shop, "delete_user", &admin, r#"{"username":"3000"}"#);
    let mut again: Store = new_shop().db;
    for w in &shop.db.log {
        match w {
            tienda_pos::store::Write::Put { store, id, record } => {
                tienda_pos::store::create_item(&mut again, store, id, record)
            }
            tienda_pos::store::Write::Delete { store, id } => {
                tienda_pos::store::delete_item(&mut again, store, id)
            }
        }
    }
    assert_eq!(again.rows.len(), shop.db.rows.len());
    for (a, b) in again.rows.iter().zip(shop.db.rows.iter()) {
        assert_eq!((&a.store, &a.id), (&b.store, &b.id));
        assert_eq!(to_json(a.data.as_ref().unwrap()), to_json(b.data.as_ref().unwrap()));
    }
    // and every record stands under its own identifier
    for r in &shop.db.rows {
        let own: &str = match r.store.as_str() {
            "users" => "username",
            "products" => "sku",
            _ => "id",
        };
        let held: String = tienda_pos::json::clean_text(r.data.as_ref().unwrap().get(own));
        assert_eq!(held, r.id);
    }
}

#[test]
fn an_operation_keeps_to_its_stores() {
    let (mut shop, admin, _manager, cashier) = staffed();
    let stores: [&str; 10] = [
        "users",
        "products",
        "moves",
        "counts",
        "sales",
        "settings",
        "categories",
        "units",
        "suppliers",
        "presentations",
    ];
    let shown = |shop: &Shop| -> Vec<Vec<serde_json::Value>> {
        stores.iter().map(|s| list_items(&shop.db, s).iter().map(to_json).collect()).collect()
    };
    for (op, key, payload, written) in [
        ("save_catalog", &admin, r#"{"kind":"unit","name":"Kilo"}"#, vec!["units"]),
        ("save_settings", &admin, "{}", vec!["settings"]),
        ("save_product", &admin, r#"{"sku":"A1","stock":9}"#, vec!["products"]),
        ("movement", &admin, r#"{"sku":"A1","quantity":1}"#, vec!["products", "moves"]),
        ("count", &admin, r#"{"sku":"A1","countedStock":7}"#, vec!["products", "moves", "counts"]),
        ("checkout", &cashier, r#"{"items":[{"sku":"A1","qty":1}]}"#, vec!["products", "moves", "sales"]),
        ("save_user", &admin, r#"{"username":"8000","password":"clave"}"#, vec!["users"]),
        ("data", &admin, "{}", vec![]),
        ("logout", &cashier, "{}", vec![]),
    ] {
        let before: Vec<Vec<serde_json::Value>> = shown(&shop);
        get(&mut shop, op, key, payload);
        let after: Vec<Vec<serde_json::Value>> = shown(&shop);
        for (i, store) in stores.iter().enumerate() {
            assert_eq!(before[i] != after[i], written.contains(store), "{} and {}", op, store);
        }
    }
}

#[test]
fn what_a_field_reads_as_reads_as_itself() {
    for text in [r#""  a  b\t""#, "12.50", "-7", "true", "null", r#""\u00a0""#] {
        let once: String = tienda_pos::json::clean_text(Some(&load(text)));
        assert_eq!(tienda_pos::json::clean_text(Some(&Value::Text(once.clone()))), once);
    }
}
