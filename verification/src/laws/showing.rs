//! Laws of what the shop shows, of which operation a request comes to, and of the sessions that it
//! leaves.

use crate::accounts::{
    delete_user_outcome, login_outcome, public_view, save_user_outcome, setup_admin_outcome,
};
use crate::catalogs::{delete_catalog_outcome, save_catalog_outcome, save_settings_outcome};
use crate::dispatch::{bootstrap_reply, data_outcome, data_reply};
use crate::json::{field, plain, Json, Num};
use crate::laws::access::{is_protected, is_public, served, Request};
use crate::laws::entries::{law_settings_in_force, tells_settings};
use crate::laws::people::{law_shows_user, shows_user};
use crate::laws::records::{in_order, law_found, lemma_own_fields};
use crate::laws::tickets::lemma_refusal;
use crate::laws::words::{lemma_op_words, lemma_reply_words, lemma_stock_words, lemma_store_words};
use crate::products::{delete_product_outcome, save_product_outcome};
use crate::sales::{checkout_outcome, queue_run, sync_batch_outcome, ReadingView};
use crate::sessions::SessionView;
use crate::settings::{settings_text_in, stored_fits};
use crate::shop::ShopView;
use crate::stock::{count_outcome, delete_movement_outcome, movement_outcome};
use crate::store::StoreView;
use crate::users::{signed_in, touched};
use vstd::prelude::*;

verus! {

// ----- what the shop shows -----

/// The document that stored settings are made from; one without anything where there is none.
pub open spec fn source_of(stored: Option<Json>) -> Json {
    match stored {
        Some(v) => v,
        None => Json::Object(Map::empty()),
    }
}

/// Before anybody is signed in, the shop shows whether it still has no users, how many it has, and
/// the settings.
pub proof fn law_bootstrap_told(db: StoreView, stored: Option<Json>)
    requires
        stored_fits(stored),
    ensures
        ({
            let v = bootstrap_reply(db, stored);
            let n = db.list("users"@).len();
            &&& field(v, "ok"@) == Some(Json::Bool(true))
            &&& field(v, "needsSetup"@) == Some(Json::Bool(n == 0))
            &&& field(v, "userCount"@) == Some(Json::Number(Num::PosInt(n as u64)))
            &&& field(v, "settings"@) matches Some(made) && tells_settings(made, source_of(stored))
            &&& v->Object_0.dom() == set!["ok"@, "needsSetup"@, "userCount"@, "settings"@]
        }),
{
    let v = bootstrap_reply(db, stored);
    law_settings_in_force(stored);
    lemma_reply_words();
    assert(v->Object_0.dom() =~= set!["ok"@, "needsSetup"@, "userCount"@, "settings"@]);
}

/// A list in an answer is that of a store.
pub open spec fn shows_all(v: Json, db: StoreView, store: Seq<char>) -> bool {
    field(v, store) == Some(Json::Array(db.list(store)))
}

/// A list in an answer is empty.
pub open spec fn shows_none(v: Json, store: Seq<char>) -> bool {
    field(v, store) == Some(Json::Array(Seq::empty()))
}

/// The users in an answer are those of the shop, in order, as others see them.
pub open spec fn shows_users(v: Json, db: StoreView) -> bool {
    field(v, "users"@) matches Some(Json::Array(vs)) && vs.len() == db.list("users"@).len()
        && forall|i: int|
        0 <= i < vs.len() ==> shows_user(#[trigger] vs[i], db.list("users"@)[i])
}

/// Whoever is signed in sees the products and the four catalogues as they are, and the settings in
/// force; managers and administrators see the movements, the counts and the sales, and
/// administrators the users; to anybody else these are empty.
pub proof fn law_data_told(shop: ShopView, key: Seq<char>, stored: Option<Json>, now: i64)
    requires
        stored_fits(stored),
    ensures
        ({
            let o = data_outcome(shop, key, stored, now);
            let v = o.reply->Ok_0;
            match signed_in(shop.db.list("users"@), shop.sessions, key, now) {
                Err(why) => o.reply == Err::<Json, Seq<char>>(why) && o.shop.db == shop.db,
                Ok(user) => {
                    let admin = plain(field(user, "role"@)) == "admin"@;
                    let manager = admin || plain(field(user, "role"@)) == "encargado"@;
                    &&& o.shop == touched(shop, key, now)
                    &&& o.reply is Ok
                    &&& field(v, "ok"@) == Some(Json::Bool(true))
                    &&& field(v, "user"@) matches Some(u) && shows_user(u, user)
                    &&& field(v, "settings"@) matches Some(made) && tells_settings(
                        made,
                        source_of(stored),
                    )
                    &&& shows_all(v, shop.db, "products"@)
                    &&& shows_all(v, shop.db, "categories"@)
                    &&& shows_all(v, shop.db, "units"@)
                    &&& shows_all(v, shop.db, "suppliers"@)
                    &&& shows_all(v, shop.db, "presentations"@)
                    &&& if manager {
                        shows_all(v, shop.db, "moves"@) && shows_all(v, shop.db, "counts"@)
                            && shows_all(v, shop.db, "sales"@)
                    } else {
                        shows_none(v, "moves"@) && shows_none(v, "counts"@) && shows_none(
                            v,
                            "sales"@,
                        )
                    }
                    &&& if admin {
                        shows_users(v, shop.db)
                    } else {
                        shows_none(v, "users"@)
                    }
                    &&& v->Object_0.dom() == set![
                        "ok"@,
                        "user"@,
                        "products"@,
                        "moves"@,
                        "counts"@,
                        "sales"@,
                        "users"@,
                        "settings"@,
                        "categories"@,
                        "units"@,
                        "suppliers"@,
                        "presentations"@,
                    ]
                },
            }
        }),
{
    if let Ok(user) = signed_in(shop.db.list("users"@), shop.sessions, key, now) {
        let v = data_reply(shop.db, user, stored);
        lemma_reply_words();
        lemma_store_words();
        lemma_stock_words();
        law_settings_in_force(stored);
        law_shows_user(user);
        let users = shop.db.list("users"@);
        let vs = users.map_values(|u: Json| public_view(u));
        assert forall|i: int| 0 <= i < vs.len() implies shows_user(#[trigger] vs[i], users[i]) by {
            law_shows_user(users[i]);
        }
        assert(v->Object_0.dom() =~= set![
            "ok"@,
            "user"@,
            "products"@,
            "moves"@,
            "counts"@,
            "sales"@,
            "users"@,
            "settings"@,
            "categories"@,
            "units"@,
            "suppliers"@,
            "presentations"@,
        ]);
    }
}

/// The text of the settings is that of the record that is kept for them, where it has one.
pub proof fn law_settings_text(db: StoreView)
    requires
        in_order(db),
    ensures
        settings_text_in(db.list("settings"@)) == (match db.item("settings"@, "app"@) {
            Some(r) => match field(r, "value"@) {
                Some(Json::Text(s)) => Some(s),
                _ => None,
            },
            None => None::<Seq<char>>,
        }),
{
    lemma_own_fields();
    law_found(db, "settings"@, "app"@);
}

// ----- which operation -----

/// Each name of a request stands for its own operation; any other is refused and changes nothing.
pub proof fn law_operations(shop: ShopView, q: Request)
    ensures
        ({
            let o = served(shop, q);
            let now = q.m.millis;
            &&& q.op == "bootstrap"@ ==> o == shop.says(bootstrap_reply(shop.db, q.texts.stored))
            &&& q.op == "setup_admin"@ ==> o == setup_admin_outcome(shop, q.payload, q.m)
            &&& q.op == "login"@ ==> o == login_outcome(shop, q.payload, q.m)
            &&& q.op == "logout"@ ==> o == shop.with_sessions(shop.sessions.remove(q.key)).says(
                Json::Object(map!["ok"@ => Json::Bool(true)]),
            )
            &&& q.op == "data"@ ==> o == data_outcome(shop, q.key, q.texts.stored, now)
            &&& q.op == "save_user"@ ==> o == save_user_outcome(shop, q.key, q.payload, q.m)
            &&& q.op == "delete_user"@ ==> o == delete_user_outcome(shop, q.key, q.payload, now)
            &&& q.op == "save_settings"@ ==> o == save_settings_outcome(
                shop,
                q.key,
                q.payload,
                q.texts.settings,
                now,
            )
            &&& q.op == "save_catalog"@ ==> o == save_catalog_outcome(shop, q.key, q.payload, now)
            &&& q.op == "delete_catalog"@ ==> o == delete_catalog_outcome(
                shop,
                q.key,
                q.payload,
                now,
            )
            &&& q.op == "save_product"@ ==> o == save_product_outcome(shop, q.key, q.payload, now)
            &&& q.op == "delete_product"@ ==> o == delete_product_outcome(
                shop,
                q.key,
                q.payload,
                now,
            )
            &&& q.op == "movement"@ ==> o == movement_outcome(shop, q.key, q.payload, q.m)
            &&& q.op == "delete_movement"@ ==> o == delete_movement_outcome(
                shop,
                q.key,
                q.payload,
                q.m,
            )
            &&& q.op == "count"@ ==> o == count_outcome(shop, q.key, q.payload, q.m)
            &&& q.op == "checkout"@ ==> o == checkout_outcome(
                shop,
                q.key,
                q.payload,
                q.texts.items,
                q.m,
                q.clock,
            )
            &&& q.op == "sync_batch"@ ==> o == sync_batch_outcome(
                shop,
                q.key,
                q.payload,
                q.texts.queue,
                q.m,
                q.rs,
            )
            &&& !is_public(q.op) && !is_protected(q.op) ==> o == shop.says(
                Json::Object(
                    map![
                        "ok"@ => Json::Bool(false),
                        "error"@ => Json::Text("Operacion no reconocida"@),
                    ],
                ),
            )
        }),
{
    lemma_op_words();
    lemma_reply_words();
    lemma_refusal("Operacion no reconocida"@);
    assert(crate::reply::yes() =~= map!["ok"@ => Json::Bool(true)]);
}

// ----- sessions -----

proof fn lemma_queue_sessions(
    shop: ShopView,
    key: Seq<char>,
    items: Seq<Json>,
    texts: Seq<Seq<char>>,
    rs: Seq<ReadingView>,
)
    ensures
        ({
            let after = queue_run(shop, key, items, texts, rs).0.sessions;
            &&& forall|t: Seq<char>|
                #[trigger] after.contains_key(t) <==> shop.sessions.contains_key(t)
            &&& forall|t: Seq<char>|
                #[trigger] after.contains_key(t) ==> after[t].username == shop.sessions[t].username
                    && (t != key ==> after[t] == shop.sessions[t])
        }),
    decreases items.len(),
{
    if items.len() > 0 {
        let i = items.len() - 1;
        let before = queue_run(shop, key, items.drop_last(), texts, rs).0;
        let after = queue_run(shop, key, items, texts, rs).0;
        lemma_queue_sessions(shop, key, items.drop_last(), texts, rs);
        assert(after.sessions == before.sessions || after.sessions == touched(
            before,
            key,
            rs[i].m.millis,
        ).sessions);
        assert forall|t: Seq<char>|
            #[trigger] after.sessions.contains_key(t) <==> shop.sessions.contains_key(t) by {
            assert(before.sessions.contains_key(t) <==> shop.sessions.contains_key(t));
        }
        assert forall|t: Seq<char>| #[trigger] after.sessions.contains_key(t) implies {
            &&& after.sessions[t].username == shop.sessions[t].username
            &&& t != key ==> after.sessions[t] == shop.sessions[t]
        } by {
            assert(before.sessions.contains_key(t));
        }
    }
}

/// A request with a session that counts makes it count for fourteen hours from then and changes no
/// other session; only where users are kept, sessions of the user in question may end. One without
/// such a session changes none.
pub proof fn law_sessions_after(shop: ShopView, q: Request)
    requires
        is_protected(q.op),
        q.op != "save_user"@,
        q.op != "delete_user"@,
    ensures
        ({
            let found = signed_in(shop.db.list("users"@), shop.sessions, q.key, q.m.millis);
            let after = served(shop, q).shop.sessions;
            let used = shop.sessions.insert(
                q.key,
                SessionView {
                    username: shop.sessions[q.key].username,
                    expires_at: q.m.millis.wrapping_add(50_400_000),
                },
            );
            &&& found is Err ==> after == shop.sessions
            &&& found is Ok && q.op != "sync_batch"@ ==> after == used
            &&& found is Ok && q.op == "sync_batch"@ ==> forall|t: Seq<char>|
                #[trigger] after.contains_key(t) <==> shop.sessions.contains_key(t)
            &&& found is Ok && q.op == "sync_batch"@ ==> forall|t: Seq<char>|
                #[trigger] after.contains_key(t) ==> after[t].username == shop.sessions[t].username
                    && (t != q.key ==> after[t] == shop.sessions[t])
        }),
{
    lemma_op_words();
    lemma_reply_words();
    lemma_queue_sessions(
        touched(shop, q.key, q.m.millis),
        q.key,
        crate::sales::items_of(q.payload),
        q.texts.queue,
        q.rs,
    );
}

} // verus!
