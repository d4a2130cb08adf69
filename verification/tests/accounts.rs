use tienda_pos::clock::{Moment, TokenSource};
use tienda_pos::dispatch::{dispatch_at, Texts};
use tienda_pos::json::{Number, Value};
use tienda_pos::sales::Reading;
use tienda_pos::sessions::Sessions;
use tienda_pos::shop::Shop;
use tienda_pos::store::{get_item, list_items, Store};

/// A document from its text.
fn load(text: &str) -> Value {
    from_json(&serde_json::from_str::<serde_json::Value>(text).unwrap())
}

fn from_json(v: &serde_json::Value) -> Value {
    match v {
        serde_json::Value::Null => Value::Null,
        serde_json::Value::Bool(b) => Value::Bool(*b),
        serde_json::Value::Number(n) => Value::Number(if let Some(k) = n.as_u64() {
            Number::PosInt(k)
        } else if let Some(k) = n.as_i64() {
            Number::NegInt(k)
        } else {
            Number::Float { bits: n.as_f64().unwrap().to_bits(), text: Some(n.to_string()) }
        }),
        serde_json::Value::String(s) => Value::Text(s.clone()),
        serde_json::Value::Array(xs) => Value::Array(xs.iter().map(from_json).collect()),
        serde_json::Value::Object(m) => {
            Value::Object(m.iter().map(|(k, x)| (k.clone(), from_json(x))).collect())
        }
    }
}

fn to_json(v: &Value) -> serde_json::Value {
    match v {
        Value::Null => serde_json::Value::Null,
        Value::Bool(b) => serde_json::Value::Bool(*b),
        Value::Number(Number::PosInt(k)) => serde_json::Value::from(*k),
        Value::Number(Number::NegInt(k)) => serde_json::Value::from(*k),
        Value::Number(Number::Float { bits, text: _ }) => {
            serde_json::Value::from(f64::from_bits(*bits))
        }
        Value::Text(s) => serde_json::Value::from(s.clone()),
        Value::Array(xs) => serde_json::Value::Array(xs.iter().map(to_json).collect()),
        Value::Object(es) => {
            let mut m = serde_json::Map::new();
            for (k, x) in es {
                m.insert(k.clone(), to_json(x));
            }
            serde_json::Value::Object(m)
        }
    }
}

/// Checks that a document is the one with the given text.
fn check(v: &Value, text: &str) {
    assert_eq!(to_json(v), serde_json::from_str::<serde_json::Value>(text).unwrap());
}

/// What stands under a name in an answer.
fn part(v: &Value, key: &str) -> serde_json::Value {
    to_json(v).get(key).cloned().unwrap_or(serde_json::Value::Null)
}

const T0: i64 = 1_700_000_000_000;
const HOURS_14: i64 = 50_400_000;

fn at(millis: i64) -> Moment {
    Moment {
        nanos: (millis as u128) * 1_000_000,
        millis,
        iso: "2024-05-06T07:08:09.010Z".to_string(),
    }
}

fn new_shop() -> Shop {
    Shop {
        db: Store { rows: Vec::new(), log: Vec::new() },
        sessions: Sessions::new(),
        source: TokenSource { count: 0, process: 7 },
    }
}

fn no_texts() -> Texts {
    Texts { stored: None, settings: String::new(), items: "[]".to_string(), queue: Vec::new() }
}

/// Asks the shop for an operation at a moment.
fn ask(shop: &mut Shop, op: &str, key: &str, payload: &str, millis: i64) -> Result<Value, String> {
    let payload: Value = load(payload);
    let rs: Vec<Reading> =
        (0..8).map(|_| Reading { m: at(millis), clock: vec![millis; 8] }).collect();
    dispatch_at(op, &payload, key, shop, &no_texts(), &at(millis), &vec![millis; 8], &rs)
}

/// Asks for an operation that is carried out.
fn get(shop: &mut Shop, op: &str, key: &str, payload: &str) -> Value {
    match ask(shop, op, key, payload, T0) {
        Ok(v) => v,
        Err(e) => panic!("{} failed: {}", op, e),
    }
}

/// Why an operation fails.
fn fault(shop: &mut Shop, op: &str, key: &str, payload: &str) -> String {
    match ask(shop, op, key, payload, T0) {
        Ok(v) => panic!("{} did not fail: {}", op, to_json(&v)),
        Err(e) => e,
    }
}

/// What an answer that says no says.
fn refused(v: &Value) -> String {
    assert_eq!(part(v, "ok"), serde_json::Value::Bool(false));
    part(v, "error").as_str().unwrap().to_string()
}

/// Signs in and gives the token.
fn sign_in(shop: &mut Shop, payload: &str) -> String {
    let v: Value = get(shop, "login", "", payload);
    assert_eq!(part(&v, "ok"), serde_json::Value::Bool(true), "{}", to_json(&v));
    part(&v, "sessionToken").as_str().unwrap().to_string()
}

/// A shop with an administrator, a manager and a cashier, and their tokens.
fn staffed() -> (Shop, String, String, String) {
    let mut shop: Shop = new_shop();
    get(&mut shop, "setup_admin", "", r#"{"loginCode":"1000","password":"jefe1","displayName":"Ana"}"#);
    let admin: String = sign_in(&mut shop, r#"{"username":"1000","password":"jefe1"}"#);
    get(&mut shop, "save_user", &admin, r#"{"username":"2000","password":"encargo2","role":"Encargado","displayName":"Eva"}"#);
    get(&mut shop, "save_user", &admin, r#"{"username":"3000","password":"caja3","role":"cajero"}"#);
    let manager: String = sign_in(&mut shop, r#"{"username":"2000","password":"encargo2"}"#);
    let cashier: String = sign_in(&mut shop, r#"{"username":"3000","password":"caja3"}"#);
    (shop, admin, manager, cashier)
}

/// The document under a key.
fn stored(shop: &Shop, store: &str, id: &str) -> Option<serde_json::Value> {
    get_item(&shop.db, store, id).map(|v| to_json(&v))
}

/// The number in a field of a document.
fn number(v: &serde_json::Value, key: &str) -> f64 {
    v.get(key).unwrap().as_f64().unwrap()
}

/// How many documents a store has.
fn size(shop: &Shop, store: &str) -> usize {
    list_items(&shop.db, store).len()
}

// ----- the first administrator -----

#[test]
fn a_new_shop_asks_for_its_first_administrator() {
    let mut shop: Shop = new_shop();
    let v: Value = get(&mut shop, "bootstrap", "", "{}");
    assert_eq!(part(&v, "needsSetup"), serde_json::Value::Bool(true));
    assert_eq!(part(&v, "userCount"), serde_json::Value::from(0u64));
    let digits: &str = "El usuario debe tener al menos 4 digitos numericos";
    let letters: &str = "La contrasena debe tener al menos 4 caracteres";
    assert_eq!(fault(&mut shop, "setup_admin", "", "{}"), digits);
    assert_eq!(fault(&mut shop, "setup_admin", "", "null"), digits);
    assert_eq!(fault(&mut shop, "setup_admin", "", r#"{"username":"123","password":"abcd"}"#), digits);
    assert_eq!(fault(&mut shop, "setup_admin", "", r#"{"username":"12a4","password":"abcd"}"#), digits);
    assert_eq!(fault(&mut shop, "setup_admin", "", r#"{"username":"1234","password":"abc"}"#), letters);
    assert_eq!(fault(&mut shop, "setup_admin", "", r#"{"username":"1234","password":"ññ"}"#), letters);
    assert_eq!(fault(&mut shop, "setup_admin", "", r#"{"username":"1234","password":"  abc "}"#), letters);
    assert_eq!(size(&shop, "users"), 0);
    let v: Value = get(&mut shop, "setup_admin", "", r#"{"username":"9999","loginCode":" 1234 ","password":"clave","role":"cajero","active":false}"#);
    check(
        &v,
        r#"{"ok":true,"user":{"username":"1234","displayName":"1234","role":"admin","active":true,
            "createdAt":"2024-05-06T07:08:09.010Z","lastLogin":""}}"#,
    );
    let u = stored(&shop, "users", "1234").unwrap();
    let salt: String = format!("{:x}07", (T0 as u128) * 1_000_000);
    assert_eq!(u.get("salt").unwrap(), &serde_json::Value::from(salt.clone()));
    assert_eq!(
        u.get("passwordHash").unwrap(),
        &serde_json::Value::from(tienda_pos::rules::hash_password("clave", &salt)),
    );
    assert_eq!(u.get("pin").unwrap(), &serde_json::Value::from(""));
    let v: Value = get(&mut shop, "setup_admin", "", r#"{"username":"5678","password":"clave"}"#);
    assert_eq!(refused(&v), "La tienda ya tiene usuarios configurados");
    let v: Value = get(&mut shop, "bootstrap", "", "{}");
    assert_eq!(part(&v, "needsSetup"), serde_json::Value::Bool(false));
    assert_eq!(part(&v, "userCount"), serde_json::Value::from(1u64));
}

// ----- signing in -----

#[test]
fn a_user_is_let_in_by_name_and_password() {
    let (mut shop, _admin, _manager, _cashier) = staffed();
    let before: usize = shop.sessions.entries.len();
    for payload in [
        r#"{"username":"1000","password":"jefe1"}"#,
        r#"{"username":"jefe1","password":"1000"}"#,
        r#"{"code":"jefe1"}"#,
        r#"{"loginCode":"jefe1"}"#,
        r#"{"pin":" jefe1 "}"#,
        r#"{"username":"jefe1","password":"jefe1"}"#,
        r#"{"username":1000,"password":"jefe1"}"#,
        r#"{"code":"1000","password":"jefe1"}"#,
        r#"{"code":"jefe1","username":"1000"}"#,
    ] {
        let v: Value = get(&mut shop, "login", "", payload);
        assert_eq!(part(&v, "user").get("username").unwrap(), &serde_json::Value::from("1000"), "{}", payload);
        assert_eq!(part(&v, "user").get("lastLogin").unwrap(), &serde_json::Value::from("2024-05-06T07:08:09.010Z"));
    }
    assert_eq!(shop.sessions.entries.len(), before + 9);
    let u = stored(&shop, "users", "1000").unwrap();
    assert_eq!(u.get("lastLogin").unwrap(), &serde_json::Value::from("2024-05-06T07:08:09.010Z"));
    assert_eq!(u.get("displayName").unwrap(), &serde_json::Value::from("Ana"));
}

#[test]
fn a_wrong_password_is_refused() {
    let (mut shop, _admin, _manager, _cashier) = staffed();
    let before: usize = shop.db.log.len();
    for payload in [
        "{}",
        "null",
        r#"{"username":"1000"}"#,
        r#"{"username":"1000","password":"Jefe1"}"#,
        r#"{"username":"1000","password":"caja3"}"#,
        r#"{"code":"1000"}"#,
        r#"{"username":"","password":""}"#,
    ] {
        let v: Value = get(&mut shop, "login", "", payload);
        assert_eq!(refused(&v), "Usuario o contrasena incorrectos");
    }
    assert_eq!(shop.db.log.len(), before);
}

#[test]
fn a_key_of_several_users_is_refused() {
    let (mut shop, admin, _manager, _cashier) = staffed();
    get(&mut shop, "save_user", &admin, r#"{"username":"4000","password":"jefe1"}"#);
    let v: Value = get(&mut shop, "login", "", r#"{"code":"jefe1"}"#);
    assert_eq!(refused(&v), "Clave duplicada. Cambia una de las claves desde Usuarios.");
    // with the name it is still one user
    sign_in(&mut shop, r#"{"username":"4000","password":"jefe1"}"#);
    // and an inactive user does not count
    get(&mut shop, "save_user", &admin, r#"{"editingUsername":"4000","username":"4000","active":false}"#);
    sign_in(&mut shop, r#"{"code":"jefe1"}"#);
    let v: Value = get(&mut shop, "login", "", r#"{"username":"4000","password":"jefe1"}"#);
    assert_eq!(refused(&v), "Usuario o contrasena incorrectos");
}

#[test]
fn a_code_may_be_name_and_password() {
    let (mut shop, admin, _manager, _cashier) = staffed();
    get(&mut shop, "save_user", &admin, r#"{"username":"5555","password":"5555"}"#);
    get(&mut shop, "save_user", &admin, r#"{"username":"6666","password":"5555"}"#);
    let v: Value = get(&mut shop, "login", "", r#"{"code":"5555"}"#);
    assert_eq!(part(&v, "user").get("username").unwrap(), &serde_json::Value::from("5555"));
}

#[test]
fn a_session_counts_for_fourteen_hours() {
    let (mut shop, admin, _manager, _cashier) = staffed();
    assert!(ask(&mut shop, "data", &admin, "{}", T0 + HOURS_14).is_ok());
    // it was used, and counts anew
    assert!(ask(&mut shop, "data", &admin, "{}", T0 + 2 * HOURS_14).is_ok());
    assert_eq!(ask(&mut shop, "data", &admin, "{}", T0 + 3 * HOURS_14 + 1).err().unwrap(), "Sesion expirada");
    assert_eq!(fault(&mut shop, "data", "otra", "{}"), "Sesion expirada");
}

#[test]
fn signing_out_ends_the_session() {
    let (mut shop, admin, manager, _cashier) = staffed();
    check(&get(&mut shop, "logout", &admin, "{}"), r#"{"ok":true}"#);
    assert_eq!(fault(&mut shop, "data", &admin, "{}"), "Sesion expirada");
    get(&mut shop, "data", &manager, "{}");
    check(&get(&mut shop, "logout", "nadie", "{}"), r#"{"ok":true}"#);
}

#[test]
fn a_user_that_is_gone_is_inactive() {
    let (mut shop, _admin, manager, _cashier) = staffed();
    tienda_pos::store::delete_item(&mut shop.db, "users", "2000");
    assert_eq!(fault(&mut shop, "data", &manager, "{}"), "Usuario inactivo");
    let mut sessions: Sessions = Sessions::new();
    assert!(tienda_pos::users::current_user(false, &shop.db, &mut sessions, "x").unwrap().is_none());
    assert_eq!(
        tienda_pos::users::current_user(true, &shop.db, &mut sessions, "x").err().unwrap(),
        "Sesion expirada",
    );
}

// ----- keeping users -----

#[test]
fn only_administrators_keep_users() {
    let (mut shop, admin, manager, cashier) = staffed();
    for key in [&manager, &cashier] {
        assert_eq!(fault(&mut shop, "save_user", key, r#"{"username":"7000","password":"clave"}"#), "No autorizado");
        assert_eq!(fault(&mut shop, "delete_user", key, r#"{"username":"3000"}"#), "No autorizado");
    }
    assert_eq!(
        fault(&mut shop, "save_user", &admin, r#"{"username":"12","password":"clave"}"#),
        "El usuario debe tener al menos 4 digitos numericos",
    );
    assert_eq!(fault(&mut shop, "save_user", &admin, r#"{"username":"7000"}"#), "Usuario no encontrado");
    assert_eq!(
        fault(&mut shop, "save_user", &admin, r#"{"editingUsername":"8888","username":"7000"}"#),
        "Usuario no encontrado",
    );
    assert_eq!(
        fault(&mut shop, "save_user", &admin, r#"{"username":"2000","password":"clave"}"#),
        "Ese usuario ya existe",
    );
    assert_eq!(
        fault(&mut shop, "save_user", &admin, r#"{"username":"7000","password":"cla"}"#),
        "La contrasena debe tener al menos 4 caracteres",
    );
    let v: Value = get(&mut shop, "save_user", &admin, r#"{"username":"7000","password":"clave","role":"otro","active":0}"#);
    check(
        &v,
        r#"{"ok":true,"user":{"username":"7000","displayName":"7000","role":"cajero","active":false,
            "createdAt":"2024-05-06T07:08:09.010Z","lastLogin":""}}"#,
    );
}

#[test]
fn a_user_can_be_edited_and_renamed() {
    let (mut shop, admin, _manager, cashier) = staffed();
    let edit: &str = r#"{"editingUsername":"3000","username":"3001","displayName":"Caja","role":"ENCARGADO"}"#;
    let old_hash = stored(&shop, "users", "3000").unwrap().get("passwordHash").cloned();
    let v: Value = get(&mut shop, "save_user", &admin, edit);
    assert_eq!(part(&v, "user").get("role").unwrap(), &serde_json::Value::from("encargado"));
    assert_eq!(stored(&shop, "users", "3000"), None);
    let u = stored(&shop, "users", "3001").unwrap();
    assert_eq!(u.get("passwordHash").cloned(), old_hash);
    assert_eq!(u.get("displayName").unwrap(), &serde_json::Value::from("Caja"));
    // the sessions of the user have ended
    assert_eq!(fault(&mut shop, "data", &cashier, "{}"), "Sesion expirada");
    sign_in(&mut shop, r#"{"username":"3001","password":"caja3"}"#);
    assert_eq!(
        fault(&mut shop, "save_user", &admin, r#"{"editingUsername":"3001","username":"2000"}"#),
        "Ese usuario ya existe",
    );
    assert_eq!(
        fault(&mut shop, "save_user", &admin, r#"{"editingUsername":"3001","username":"3001","newPassword":"abc"}"#),
        "La contrasena debe tener al menos 4 caracteres",
    );
    get(&mut shop, "save_user", &admin, r#"{"editingUsername":"3001","username":"3001","newPassword":"nueva","password":"otra4"}"#);
    sign_in(&mut shop, r#"{"username":"3001","password":"nueva"}"#);
    let v: Value = get(&mut shop, "login", "", r#"{"username":"3001","password":"caja3"}"#);
    assert_eq!(refused(&v), "Usuario o contrasena incorrectos");
}

#[test]
fn a_user_can_be_deleted_but_not_oneself() {
    let (mut shop, admin, _manager, cashier) = staffed();
    assert_eq!(fault(&mut shop, "delete_user", &admin, "{}"), "Falta usuario");
    assert_eq!(
        fault(&mut shop, "delete_user", &admin, r#"{"username":"1000"}"#),
        "No puedes eliminar el usuario activo",
    );
    check(&get(&mut shop, "delete_user", &admin, r#"{"username":"3000"}"#), r#"{"ok":true}"#);
    assert_eq!(stored(&shop, "users", "3000"), None);
    assert_eq!(fault(&mut shop, "data", &cashier, "{}"), "Sesion expirada");
    // there is nothing to say of a user that there is not
    check(&get(&mut shop, "delete_user", &admin, r#"{"username":"3000"}"#), r#"{"ok":true}"#);
}

#[test]
fn secrets_are_not_shown() {
    let (mut shop, admin, manager, cashier) = staffed();
    for key in [&admin, &manager, &cashier] {
        let shown: String = to_json(&get(&mut shop, "data", key, "{}")).to_string();
        assert!(!shown.contains("passwordHash") && !shown.contains("salt"));
    }
}

#[test]
fn every_user_keeps_a_role() {
    let (mut shop, admin, _manager, _cashier) = staffed();
    get(&mut shop, "save_user", &admin, r#"{"editingUsername":"3000","username":"3000","role":"dueño"}"#);
    for u in list_items(&shop.db, "users") {
        let role = to_json(&u).get("role").unwrap().as_str().unwrap().to_string();
        assert!(["admin", "encargado", "cajero"].contains(&role.as_str()));
    }
}

// ----- who may do what -----

#[test]
fn each_operation_asks_for_its_role() {
    let (mut shop, admin, manager, cashier) = staffed();
    let managing: [&str; 8] = [
        "save_settings",
        "save_catalog",
        "delete_catalog",
        "save_product",
        "delete_product",
        "movement",
        "delete_movement",
        "count",
    ];
    let before: usize = shop.db.log.len();
    for op in managing {
        assert_eq!(fault(&mut shop, op, &cashier, "{}"), "No autorizado", "{}", op);
        assert_eq!(fault(&mut shop, op, "", "{}"), "Sesion expirada", "{}", op);
    }
    for op in ["data", "save_user", "delete_user", "checkout", "sync_batch"] {
        assert_eq!(fault(&mut shop, op, "", "{}"), "Sesion expirada", "{}", op);
    }
    assert_eq!(shop.db.log.len(), before);
    for key in [&admin, &manager, &cashier] {
        assert_eq!(fault(&mut shop, "checkout", key, "{}"), "Ticket vacio");
        check(&get(&mut shop, "sync_batch", key, "{}"), r#"{"ok":true,"results":[]}"#);
    }
    let v: Value = get(&mut shop, "otra_cosa", "", "{}");
    assert_eq!(refused(&v), "Operacion no reconocida");
}

#[test]
fn each_role_sees_its_part_of_the_shop() {
    let (mut shop, admin, manager, cashier) = staffed();
    get(&mut shop, "save_product", &admin, r#"{"sku":"A1","name":"Agua","price":10,"cost":4,"stock":3}"#);
    get(&mut shop, "movement", &admin, r#"{"sku":"A1","quantity":2}"#);
    get(&mut shop, "count", &admin, r#"{"sku":"A1","countedStock":5}"#);
    get(&mut shop, "checkout", &cashier, r#"{"id":"V1","items":[{"sku":"A1","qty":1}]}"#);
    let lengths = |v: &Value| -> Vec<usize> {
        ["products", "moves", "counts", "sales", "users", "categories"]
            .iter()
            .map(|k| part(v, k).as_array().unwrap().len())
            .collect()
    };
    let v: Value = get(&mut shop, "data", &admin, "{}");
    assert_eq!(lengths(&v), vec![1, 2, 1, 1, 3, 0]);
    let v: Value = get(&mut shop, "data", &manager, "{}");
    assert_eq!(lengths(&v), vec![1, 2, 1, 1, 0, 0]);
    assert_eq!(part(&v, "user").get("displayName").unwrap(), &serde_json::Value::from("Eva"));
    let v: Value = get(&mut shop, "data", &cashier, "{}");
    assert_eq!(lengths(&v), vec![1, 0, 0, 0, 0, 0]);
    assert_eq!(part(&v, "settings").get("storeTitle").unwrap(), &serde_json::Value::from("Tienda de Conveniencia"));
}
