//! The operations on the catalogues and the settings.

use crate::double::{from_integer, of_integer};
use crate::json::{
    as_double, bits_of, clean_text, field, float, from_double, from_fields, from_text, jsons,
    no_fields, or_else, plain, put_field, text_or, truth_or_missing, truthy_or_missing, Json, Value,
};
use crate::reply::{yes, yes_fields};
use crate::rules::{catalog_name, catalog_store, slug_at, slug_of};
use crate::settings::{logo_fits, normalize_settings, settings_of};
use crate::shop::{outcome, Outcome, Shop, ShopView};
use crate::store::{create_item, delete_item, list_items};
use crate::text::same_text;
use crate::users::{authorize, authorized, managers, names, touched};
use vstd::prelude::*;

verus! {

/// The user that a token stands for, if it may keep the catalogues, the products and the stock.
pub fn authorize_manager(shop: &mut Shop, key: &str, now: i64) -> (r: Result<Value, String>)
    requires
        old(shop).wf(),
    ensures
        final(shop).wf(),
        final(shop)@ == touched(old(shop)@, key@, now),
        crate::reply::answer(r) == authorized(old(shop)@, key@, managers(), now),
{
    let roles: [&str; 2] = ["admin", "encargado"];
    proof {
        assert(names(roles@) =~= managers());
    }
    authorize(shop, key, roles.as_slice(), now)
}

/// Where an entry stands in its catalogue: as the request says, or behind the others.
pub open spec fn sort_order(v: Option<Json>, others: nat) -> u64 {
    match v {
        Some(Json::Number(n)) => bits_of(n),
        _ => of_integer(others + 1int),
    }
}

/// The identifier of an entry: as the request says, or made from its name.
pub open spec fn entry_id(payload: Json, now: i64) -> Seq<char> {
    or_else(plain(field(payload, "id"@)), slug_of(plain(field(payload, "name"@)), now))
}

/// The record of an entry: what every catalogue has, and what its own kind has.
pub open spec fn entry_record(kind: Seq<char>, payload: Json, id: Seq<char>, others: nat) -> Json {
    let name = plain(field(payload, "name"@));
    let common = Map::empty()
        .insert("id"@, Json::Text(id))
        .insert("name"@, Json::Text(name))
        .insert("active"@, Json::Bool(truth_or_missing(field(payload, "active"@))))
        .insert("sortOrder"@, float(sort_order(field(payload, "sortOrder"@), others)));
    Json::Object(
        if kind == "unit"@ {
            common.insert(
                "abbreviation"@,
                Json::Text(or_else(plain(field(payload, "abbreviation"@)), name)),
            )
        } else if kind == "supplier"@ {
            common.insert("phone"@, Json::Text(plain(field(payload, "phone"@)))).insert(
                "notes"@,
                Json::Text(plain(field(payload, "notes"@))),
            )
        } else {
            common.insert("description"@, Json::Text(plain(field(payload, "description"@))))
        },
    )
}

/// Saving an entry of a catalogue.
pub open spec fn save_catalog_outcome(
    shop: ShopView,
    key: Seq<char>,
    payload: Json,
    now: i64,
) -> Outcome {
    let after = touched(shop, key, now);
    let kind = plain(field(payload, "kind"@));
    match authorized(shop, key, managers(), now) {
        Err(why) => after.fails(why),
        Ok(user) => match catalog_name(kind) {
            None => after.fails("Catalogo no reconocido"@),
            Some(store) => if plain(field(payload, "name"@)).len() == 0 {
                after.fails("Falta nombre"@)
            } else {
                let id = entry_id(payload, now);
                let record = entry_record(kind, payload, id, shop.db.list(store).len());
                after.with_db(after.db.put(store, id, record)).says(
                    Json::Object(yes().insert("item"@, record)),
                )
            },
        },
    }
}

/// Saves an entry of a catalogue, at the moment `now`.
pub fn op_save_catalog_at(shop: &mut Shop, key: &str, payload: &Value, now: i64) -> (r: Result<
    Value,
    String,
>)
    requires
        old(shop).wf(),
    ensures
        final(shop).wf(),
        outcome(*final(shop), r) == save_catalog_outcome(old(shop)@, key@, payload@, now),
{
    match authorize_manager(shop, key, now) {
        Err(e) => Err(e),
        Ok(_) => {
            let kind: String = clean_text(payload.get("kind"));
            let store: &'static str = match catalog_store(kind.as_str()) {
                Some(s) => s,
                None => {
                    return Err("Catalogo no reconocido".to_owned());
                },
            };
            let name: String = clean_text(payload.get("name"));
            if name.as_str().is_empty() {
                return Err("Falta nombre".to_owned());
            }
            let given: String = clean_text(payload.get("id"));
            let id: String = text_or(given, slug_at(name.as_str(), now).as_str());
            let rows: Vec<Value> = list_items(&shop.db, store);
            proof {
                assert(jsons(rows@).len() == rows@.len());
            }
            let place: u64 = match payload.get("sortOrder") {
                Some(Value::Number(n)) => as_double(n),
                _ => from_integer(rows.len() as i128 + 1),
            };
            let mut es: Vec<(String, Value)> = no_fields();
            put_field(&mut es, "id", from_text(id.as_str()));
            put_field(&mut es, "name", from_text(name.as_str()));
            put_field(&mut es, "active", Value::Bool(truthy_or_missing(payload.get("active"))));
            put_field(&mut es, "sortOrder", from_double(place));
            if same_text(kind.as_str(), "unit") {
                let short: String = text_or(
                    clean_text(payload.get("abbreviation")),
                    name.as_str(),
                );
                put_field(&mut es, "abbreviation", Value::Text(short));
            } else if same_text(kind.as_str(), "supplier") {
                put_field(&mut es, "phone", Value::Text(clean_text(payload.get("phone"))));
                put_field(&mut es, "notes", Value::Text(clean_text(payload.get("notes"))));
            } else {
                put_field(
                    &mut es,
                    "description",
                    Value::Text(clean_text(payload.get("description"))),
                );
            }
            let record: Value = from_fields(es);
            create_item(&mut shop.db, store, id.as_str(), &record);
            let mut out: Vec<(String, Value)> = yes_fields();
            put_field(&mut out, "item", record);
            Ok(from_fields(out))
        },
    }
}

/// Saves an entry of a catalogue.
pub fn op_save_catalog(shop: &mut Shop, key: &str, payload: &Value) -> (r: Result<Value, String>)
    requires
        old(shop).wf(),
    ensures
        final(shop).wf(),
        exists|now: i64|
            outcome(*final(shop), r) == #[trigger] save_catalog_outcome(
                old(shop)@,
                key@,
                payload@,
                now,
            ),
{
    op_save_catalog_at(shop, key, payload, crate::clock::now_millis())
}

/// Deleting an entry of a catalogue.
pub open spec fn delete_catalog_outcome(
    shop: ShopView,
    key: Seq<char>,
    payload: Json,
    now: i64,
) -> Outcome {
    let after = touched(shop, key, now);
    let id = plain(field(payload, "id"@));
    match authorized(shop, key, managers(), now) {
        Err(why) => after.fails(why),
        Ok(user) => match catalog_name(plain(field(payload, "kind"@))) {
            Some(store) if id.len() > 0 => after.with_db(after.db.delete(store, id)).says(
                Json::Object(yes()),
            ),
            _ => after.fails("Catalogo no reconocido"@),
        },
    }
}

/// Deletes an entry of a catalogue, at the moment `now`.
pub fn op_delete_catalog_at(shop: &mut Shop, key: &str, payload: &Value, now: i64) -> (r: Result<
    Value,
    String,
>)
    requires
        old(shop).wf(),
    ensures
        final(shop).wf(),
        outcome(*final(shop), r) == delete_catalog_outcome(old(shop)@, key@, payload@, now),
{
    match authorize_manager(shop, key, now) {
        Err(e) => Err(e),
        Ok(_) => {
            let kind: String = clean_text(payload.get("kind"));
            let id: String = clean_text(payload.get("id"));
            match catalog_store(kind.as_str()) {
                Some(store) => {
                    if id.as_str().is_empty() {
                        return Err("Catalogo no reconocido".to_owned());
                    }
                    delete_item(&mut shop.db, store, id.as_str());
                    Ok(from_fields(yes_fields()))
                },
                None => Err("Catalogo no reconocido".to_owned()),
            }
        },
    }
}

/// Deletes an entry of a catalogue.
pub fn op_delete_catalog(shop: &mut Shop, key: &str, payload: &Value) -> (r: Result<
    Value,
    String,
>)
    requires
        old(shop).wf(),
    ensures
        final(shop).wf(),
        exists|now: i64|
            outcome(*final(shop), r) == #[trigger] delete_catalog_outcome(
                old(shop)@,
                key@,
                payload@,
                now,
            ),
{
    op_delete_catalog_at(shop, key, payload, crate::clock::now_millis())
}

/// The record that keeps the settings.
pub open spec fn settings_record(text: Seq<char>) -> Json {
    Json::Object(
        Map::empty().insert("key"@, Json::Text("app"@)).insert("value"@, Json::Text(text)),
    )
}

/// Saving the settings, whose text is `text`.
pub open spec fn save_settings_outcome(
    shop: ShopView,
    key: Seq<char>,
    payload: Json,
    text: Seq<char>,
    now: i64,
) -> Outcome {
    let after = touched(shop, key, now);
    match authorized(shop, key, managers(), now) {
        Err(why) => after.fails(why),
        Ok(user) => after.with_db(
            after.db.put("settings"@, "app"@, settings_record(text)),
        ).says(Json::Object(yes().insert("settings"@, settings_of(payload)))),
    }
}

/// Saves the settings, at the moment `now`. `text` is the JSON text of the full settings made from
/// `payload`.
pub fn op_save_settings_at(
    shop: &mut Shop,
    key: &str,
    payload: &Value,
    text: &str,
    now: i64,
) -> (r: Result<Value, String>)
    requires
        old(shop).wf(),
        authorized(old(shop)@, key@, managers(), now) is Ok ==> logo_fits(payload@),
    ensures
        final(shop).wf(),
        outcome(*final(shop), r) == save_settings_outcome(
            old(shop)@,
            key@,
            payload@,
            text@,
            now,
        ),
{
    match authorize_manager(shop, key, now) {
        Err(e) => Err(e),
        Ok(_) => {
            let settings: Value = normalize_settings(payload);
            let mut es: Vec<(String, Value)> = no_fields();
            put_field(&mut es, "key", from_text("app"));
            put_field(&mut es, "value", from_text(text));
            create_item(&mut shop.db, "settings", "app", &from_fields(es));
            let mut out: Vec<(String, Value)> = yes_fields();
            put_field(&mut out, "settings", settings);
            Ok(from_fields(out))
        },
    }
}

/// Saves the settings. `text` is the JSON text of the full settings made from `payload`.
pub fn op_save_settings(shop: &mut Shop, key: &str, payload: &Value, text: &str) -> (r: Result<
    Value,
    String,
>)
    requires
        old(shop).wf(),
        forall|now: i64|
            (#[trigger] authorized(old(shop)@, key@, managers(), now)) is Ok ==> logo_fits(payload@),
    ensures
        final(shop).wf(),
        exists|now: i64|
            outcome(*final(shop), r) == #[trigger] save_settings_outcome(
                old(shop)@,
                key@,
                payload@,
                text@,
                now,
            ),
{
    op_save_settings_at(shop, key, payload, text, crate::clock::now_millis())
}

} // verus!
