//! What the shop shows, and which operation a request asks for.

use crate::accounts::{
    delete_user_outcome, login_outcome, op_delete_user_at, op_login_at, op_logout, op_save_user_at,
    op_setup_admin_at, public_user, public_view, save_user_outcome, setup_admin_outcome,
};
use crate::catalogs::{
    delete_catalog_outcome, op_delete_catalog_at, op_save_catalog_at, op_save_settings_at,
    save_catalog_outcome, save_settings_outcome,
};
use crate::clock::{moment_shape, now_millis, Moment, MomentView};
use crate::json::{
    clean_text, from_fields, from_items, jsons, opt, put_field, Json, Num, Number, Value,
};
use crate::products::{
    delete_product_outcome, op_delete_product_at, op_save_product_at, save_product_outcome,
};
use crate::reply::{refusal, refuse, yes, yes_fields};
use crate::sales::{
    checkout_outcome, items_of, line_clock, op_checkout_at, op_sync_batch_at, queue_readings,
    read_for, readings, sync_batch_outcome, texts_of, Reading, ReadingView,
};
use crate::settings::{logo_fits, read_settings, settings_in_force, stored_fits};
use crate::shop::{outcome, Outcome, Shop, ShopView};
use crate::stock::{
    count_outcome, delete_movement_outcome, movement_outcome, op_count_at, op_delete_movement_at,
    op_movement_at,
};
use crate::store::{list_items, Store, StoreView};
use crate::text::same_text;
use crate::users::{authorized, current_user_at, managers, role_of, signed_in, touched};
use vstd::prelude::*;

verus! {

// ----- what the shop shows -----

/// What the shop shows before anybody is signed in.
pub open spec fn bootstrap_reply(db: StoreView, stored: Option<Json>) -> Json {
    let users = db.list("users"@);
    Json::Object(
        yes()
            .insert("needsSetup"@, Json::Bool(users.len() == 0))
            .insert("userCount"@, Json::Number(Num::PosInt(users.len() as u64)))
            .insert("settings"@, settings_in_force(stored)),
    )
}

/// What the shop shows before anybody is signed in. `stored` is the document that the stored text
/// of the settings reads as.
pub fn op_bootstrap(db: &Store, stored: Option<&Value>) -> (r: Value)
    requires
        stored_fits(opt(stored)),
    ensures
        r@ == bootstrap_reply(db@, opt(stored)),
{
    let users: Vec<Value> = list_items(db, "users");
    proof {
        assert(jsons(users@).len() == users@.len());
    }
    let mut es: Vec<(String, Value)> = yes_fields();
    put_field(&mut es, "needsSetup", Value::Bool(users.len() == 0));
    put_field(&mut es, "userCount", Value::Number(Number::PosInt(users.len() as u64)));
    put_field(&mut es, "settings", read_settings(stored));
    from_fields(es)
}

/// A list that only some may see.
pub open spec fn shown(allowed: bool, rows: Seq<Json>) -> Json {
    Json::Array(
        if allowed {
            rows
        } else {
            Seq::empty()
        },
    )
}

/// What the shop shows to a user: stock and sales only to those who manage, users only to
/// administrators.
pub open spec fn data_reply(db: StoreView, user: Json, stored: Option<Json>) -> Json {
    let admin = role_of(user) == "admin"@;
    let manager = admin || role_of(user) == "encargado"@;
    Json::Object(
        yes()
            .insert("user"@, public_view(user))
            .insert("products"@, Json::Array(db.list("products"@)))
            .insert("moves"@, shown(manager, db.list("moves"@)))
            .insert("counts"@, shown(manager, db.list("counts"@)))
            .insert("sales"@, shown(manager, db.list("sales"@)))
            .insert(
                "users"@,
                shown(admin, db.list("users"@).map_values(|u: Json| public_view(u))),
            )
            .insert("settings"@, settings_in_force(stored))
            .insert("categories"@, Json::Array(db.list("categories"@)))
            .insert("units"@, Json::Array(db.list("units"@)))
            .insert("suppliers"@, Json::Array(db.list("suppliers"@)))
            .insert("presentations"@, Json::Array(db.list("presentations"@))),
    )
}

/// Showing the shop to the user that a token stands for.
pub open spec fn data_outcome(
    shop: ShopView,
    key: Seq<char>,
    stored: Option<Json>,
    now: i64,
) -> Outcome {
    let after = touched(shop, key, now);
    match signed_in(shop.db.list("users"@), shop.sessions, key, now) {
        Err(why) => after.fails(why),
        Ok(user) => after.says(data_reply(shop.db, user, stored)),
    }
}

/// The documents of a store, if they may be seen.
fn show(db: &Store, allowed: bool, store: &str) -> (r: Value)
    ensures
        r@ == shown(allowed, db@.list(store@)),
{
    if allowed {
        from_items(list_items(db, store))
    } else {
        let none: Vec<Value> = Vec::new();
        proof {
            assert(jsons(none@) =~= Seq::empty());
        }
        from_items(none)
    }
}

/// The users as others see them, if they may be seen.
fn show_users(db: &Store, allowed: bool) -> (r: Value)
    ensures
        r@ == shown(allowed, db@.list("users"@).map_values(|u: Json| public_view(u))),
{
    let mut out: Vec<Value> = Vec::new();
    proof {
        assert(jsons(out@) =~= Seq::empty());
    }
    if allowed {
        let users: Vec<Value> = list_items(db, "users");
        let ghost seen: Seq<Json> = jsons(users@).map_values(|u: Json| public_view(u));
        let mut i: usize = 0;
        while i < users.len()
            invariant
                i <= users@.len(),
                seen == jsons(users@).map_values(|u: Json| public_view(u)),
                jsons(out@) == seen.take(i as int),
            decreases users@.len() - i,
        {
            let ghost before = out@;
            let u: Value = public_user(&users[i]);
            let ghost v = u@;
            out.push(u);
            i = i + 1;
            proof {
                assert(jsons(out@) =~= jsons(before).push(v));
                assert(seen.take(i as int) =~= seen.take(i - 1).push(v));
            }
        }
        proof {
            assert(seen.take(i as int) =~= seen);
        }
    }
    from_items(out)
}

/// Shows the shop to the user that a token stands for, at the moment `now`.
pub fn op_data_at(shop: &mut Shop, key: &str, stored: Option<&Value>, now: i64) -> (r: Result<
    Value,
    String,
>)
    requires
        old(shop).wf(),
        signed_in(old(shop)@.db.list("users"@), old(shop)@.sessions, key@, now) is Ok
            ==> stored_fits(opt(stored)),
    ensures
        final(shop).wf(),
        outcome(*final(shop), r) == data_outcome(old(shop)@, key@, opt(stored), now),
{
    match current_user_at(true, &shop.db, &mut shop.sessions, key, now) {
        Err(e) => Err(e),
        Ok(None) => Err("Sesion expirada".to_owned()),
        Ok(Some(user)) => {
            let role: String = clean_text(user.get("role"));
            let admin: bool = same_text(role.as_str(), "admin");
            let manager: bool = admin || same_text(role.as_str(), "encargado");
            let mut es: Vec<(String, Value)> = yes_fields();
            put_field(&mut es, "user", public_user(&user));
            put_field(&mut es, "products", show(&shop.db, true, "products"));
            put_field(&mut es, "moves", show(&shop.db, manager, "moves"));
            put_field(&mut es, "counts", show(&shop.db, manager, "counts"));
            put_field(&mut es, "sales", show(&shop.db, manager, "sales"));
            put_field(&mut es, "users", show_users(&shop.db, admin));
            put_field(&mut es, "settings", read_settings(stored));
            put_field(&mut es, "categories", show(&shop.db, true, "categories"));
            put_field(&mut es, "units", show(&shop.db, true, "units"));
            put_field(&mut es, "suppliers", show(&shop.db, true, "suppliers"));
            put_field(&mut es, "presentations", show(&shop.db, true, "presentations"));
            Ok(from_fields(es))
        },
    }
}

/// Shows the shop to the user that a token stands for.
pub fn op_data(shop: &mut Shop, key: &str, stored: Option<&Value>) -> (r: Result<Value, String>)
    requires
        old(shop).wf(),
        forall|now: i64|
            (#[trigger] signed_in(
                old(shop)@.db.list("users"@),
                old(shop)@.sessions,
                key@,
                now,
            )) is Ok ==> stored_fits(opt(stored)),
    ensures
        final(shop).wf(),
        exists|now: i64|
            outcome(*final(shop), r) == #[trigger] data_outcome(
                old(shop)@,
                key@,
                opt(stored),
                now,
            ),
{
    op_data_at(shop, key, stored, now_millis())
}

// ----- which operation -----

/// What the caller has read from JSON text, or written as such, for a request.
pub struct Texts {
    /// The document that the stored text of the settings reads as.
    pub stored: Option<Value>,
    /// The text of the full settings made from the request.
    pub settings: String,
    /// The text of the items of the request.
    pub items: String,
    /// For each item of a queue, the text of the items of its ticket.
    pub queue: Vec<String>,
}

/// What `Texts` stand for.
pub struct TextsView {
    pub stored: Option<Json>,
    pub settings: Seq<char>,
    pub items: Seq<char>,
    pub queue: Seq<Seq<char>>,
}

impl View for Texts {
    type V = TextsView;

    open spec fn view(&self) -> TextsView {
        TextsView {
            stored: match self.stored {
                Some(v) => Some(v@),
                None => None,
            },
            settings: self.settings@,
            items: self.items@,
            queue: texts_of(self.queue@),
        }
    }
}

/// Whether a request can be carried out at a moment: where it comes to bringing a logo in the
/// settings to its size, that can be done.
pub open spec fn can_serve(
    op: Seq<char>,
    payload: Json,
    key: Seq<char>,
    shop: ShopView,
    texts: TextsView,
    now: i64,
) -> bool {
    &&& op == "bootstrap"@ ==> stored_fits(texts.stored)
    &&& op == "data"@ && signed_in(shop.db.list("users"@), shop.sessions, key, now) is Ok
        ==> stored_fits(texts.stored)
    &&& op == "save_settings"@ && authorized(shop, key, managers(), now) is Ok ==> logo_fits(payload)
}

/// The operation with a name.
pub open spec fn dispatched(
    op: Seq<char>,
    payload: Json,
    key: Seq<char>,
    shop: ShopView,
    texts: TextsView,
    m: MomentView,
    clock: Seq<i64>,
    rs: Seq<ReadingView>,
) -> Outcome {
    if op == "bootstrap"@ {
        shop.says(bootstrap_reply(shop.db, texts.stored))
    } else if op == "setup_admin"@ {
        setup_admin_outcome(shop, payload, m)
    } else if op == "login"@ {
        login_outcome(shop, payload, m)
    } else if op == "logout"@ {
        shop.with_sessions(shop.sessions.remove(key)).says(Json::Object(yes()))
    } else if op == "data"@ {
        data_outcome(shop, key, texts.stored, m.millis)
    } else if op == "save_user"@ {
        save_user_outcome(shop, key, payload, m)
    } else if op == "delete_user"@ {
        delete_user_outcome(shop, key, payload, m.millis)
    } else if op == "save_settings"@ {
        save_settings_outcome(shop, key, payload, texts.settings, m.millis)
    } else if op == "save_catalog"@ {
        save_catalog_outcome(shop, key, payload, m.millis)
    } else if op == "delete_catalog"@ {
        delete_catalog_outcome(shop, key, payload, m.millis)
    } else if op == "save_product"@ {
        save_product_outcome(shop, key, payload, m.millis)
    } else if op == "delete_product"@ {
        delete_product_outcome(shop, key, payload, m.millis)
    } else if op == "movement"@ {
        movement_outcome(shop, key, payload, m)
    } else if op == "delete_movement"@ {
        delete_movement_outcome(shop, key, payload, m)
    } else if op == "count"@ {
        count_outcome(shop, key, payload, m)
    } else if op == "checkout"@ {
        checkout_outcome(shop, key, payload, texts.items, m, clock)
    } else if op == "sync_batch"@ {
        sync_batch_outcome(shop, key, payload, texts.queue, m, rs)
    } else {
        shop.says(refusal("Operacion no reconocida"@))
    }
}

/// Carries out the operation with a name, at a moment. `clock` holds a reading for each line of a
/// ticket, `rs` one for each item of a queue.
pub fn dispatch_at(
    op: &str,
    payload: &Value,
    key: &str,
    shop: &mut Shop,
    texts: &Texts,
    m: &Moment,
    clock: &Vec<i64>,
    rs: &Vec<Reading>,
) -> (r: Result<Value, String>)
    requires
        old(shop).wf(),
        can_serve(op@, payload@, key@, old(shop)@, texts@, m.millis),
        op@ == "sync_batch"@ ==> rs@.len() >= items_of(payload@).len(),
    ensures
        final(shop).wf(),
        outcome(*final(shop), r) == dispatched(
            op@,
            payload@,
            key@,
            old(shop)@,
            texts@,
            m@,
            clock@,
            readings(rs@),
        ),
{
    let stored: Option<&Value> = match &texts.stored {
        Some(v) => Some(v),
        None => None,
    };
    if same_text(op, "bootstrap") {
        Ok(op_bootstrap(&shop.db, stored))
    } else if same_text(op, "setup_admin") {
        op_setup_admin_at(shop, payload, m)
    } else if same_text(op, "login") {
        op_login_at(shop, payload, m)
    } else if same_text(op, "logout") {
        Ok(op_logout(shop, key))
    } else if same_text(op, "data") {
        op_data_at(shop, key, stored, m.millis)
    } else if same_text(op, "save_user") {
        op_save_user_at(shop, key, payload, m)
    } else if same_text(op, "delete_user") {
        op_delete_user_at(shop, key, payload, m.millis)
    } else if same_text(op, "save_settings") {
        op_save_settings_at(shop, key, payload, texts.settings.as_str(), m.millis)
    } else if same_text(op, "save_catalog") {
        op_save_catalog_at(shop, key, payload, m.millis)
    } else if same_text(op, "delete_catalog") {
        op_delete_catalog_at(shop, key, payload, m.millis)
    } else if same_text(op, "save_product") {
        op_save_product_at(shop, key, payload, m.millis)
    } else if same_text(op, "delete_product") {
        op_delete_product_at(shop, key, payload, m.millis)
    } else if same_text(op, "movement") {
        op_movement_at(shop, key, payload, m)
    } else if same_text(op, "delete_movement") {
        op_delete_movement_at(shop, key, payload, m)
    } else if same_text(op, "count") {
        op_count_at(shop, key, payload, m)
    } else if same_text(op, "checkout") {
        op_checkout_at(shop, key, payload, texts.items.as_str(), m, clock)
    } else if same_text(op, "sync_batch") {
        op_sync_batch_at(shop, key, payload, &texts.queue, m, rs)
    } else {
        Ok(refuse("Operacion no reconocida"))
    }
}

/// Carries out the operation with a name.
pub fn dispatch(op: &str, payload: &Value, key: &str, shop: &mut Shop, texts: &Texts) -> (r: Result<
    Value,
    String,
>)
    requires
        old(shop).wf(),
        forall|now: i64| #[trigger] can_serve(op@, payload@, key@, old(shop)@, texts@, now),
    ensures
        final(shop).wf(),
        exists|m: MomentView, clock: Seq<i64>, rs: Seq<ReadingView>|
            moment_shape(m.iso) && (op@ == "checkout"@ ==> clock.len() == items_of(payload@).len())
                && (op@ == "sync_batch"@ ==> read_for(rs, items_of(payload@))) && outcome(
                *final(shop),
                r,
            ) == #[trigger] dispatched(
                op@,
                payload@,
                key@,
                old(shop)@,
                texts@,
                m,
                clock,
                rs,
            ),
{
    let m: Moment = Moment::now();
    let clock: Vec<i64> = if same_text(op, "checkout") {
        line_clock(payload)
    } else {
        Vec::new()
    };
    let rs: Vec<Reading> = if same_text(op, "sync_batch") {
        queue_readings(payload)
    } else {
        Vec::new()
    };
    dispatch_at(op, payload, key, shop, texts, &m, &clock, &rs)
}

} // verus!
