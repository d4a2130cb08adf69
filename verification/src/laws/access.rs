//! Laws of every operation: what is logged, what a failure leaves, and who may do what.

use crate::clock::MomentView;
use crate::dispatch::{data_reply, dispatched, TextsView};
use crate::json::{field, Json};
use crate::sales::{checkout_outcome, queue_run, sold, ReadingView};
use crate::shop::{Outcome, ShopView};
use crate::store::{law_log_delete, law_log_patch, law_log_put, logged, RowView, StoreView};
use crate::users::{admins, authorized, managers, role_of, signed_in, staff, touched};
use vstd::prelude::*;

verus! {

/// A request: the operation that it names, what it carries, its token, what the caller has read
/// and written for it, and the readings of the clock.
pub struct Request {
    pub op: Seq<char>,
    pub payload: Json,
    pub key: Seq<char>,
    pub texts: TextsView,
    pub m: MomentView,
    pub clock: Seq<i64>,
    pub rs: Seq<ReadingView>,
}

/// What becomes of a request.
pub open spec fn served(shop: ShopView, q: Request) -> Outcome {
    dispatched(q.op, q.payload, q.key, shop, q.texts, q.m, q.clock, q.rs)
}

/// The operations that anybody may ask for.
pub open spec fn is_public(op: Seq<char>) -> bool {
    op == "bootstrap"@ || op == "setup_admin"@ || op == "login"@ || op == "logout"@
}

/// The operations that need a session.
pub open spec fn is_protected(op: Seq<char>) -> bool {
    !is_public(op) && (op == "data"@ || op == "save_user"@ || op == "delete_user"@ || op
        == "save_settings"@ || op == "save_catalog"@ || op == "delete_catalog"@ || op
        == "save_product"@ || op == "delete_product"@ || op == "movement"@ || op
        == "delete_movement"@ || op == "count"@ || op == "checkout"@ || op == "sync_batch"@)
}

/// The roles that an operation asks for; any role will do for looking at the shop.
pub open spec fn roles_for(op: Seq<char>) -> Option<Seq<Seq<char>>> {
    if !is_protected(op) || op == "data"@ {
        None
    } else if op == "save_user"@ || op == "delete_user"@ {
        Some(admins())
    } else if op == "checkout"@ || op == "sync_batch"@ {
        Some(staff())
    } else {
        Some(managers())
    }
}

/// A protected operation without a session that counts fails, says why, and changes nothing.
pub proof fn law_session_needed(shop: ShopView, q: Request, why: Seq<char>)
    requires
        is_protected(q.op),
        signed_in(shop.db.list("users"@), shop.sessions, q.key, q.m.millis) == Err::<
            Json,
            Seq<char>,
        >(why),
    ensures
        served(shop, q).reply == Err::<Json, Seq<char>>(why),
        served(shop, q).shop == shop,
        why == "Sesion expirada"@ || why == "Usuario inactivo"@,
{
    assert(touched(shop, q.key, q.m.millis) == shop);
}

/// A user whose role an operation does not admit is told so; nothing changes but that the session
/// counts anew.
pub proof fn law_role_needed(shop: ShopView, q: Request, user: Json)
    requires
        roles_for(q.op) is Some,
        signed_in(shop.db.list("users"@), shop.sessions, q.key, q.m.millis) == Ok::<
            Json,
            Seq<char>,
        >(user),
        !roles_for(q.op)->0.contains(role_of(user)),
    ensures
        served(shop, q).reply == Err::<Json, Seq<char>>("No autorizado"@),
        served(shop, q).shop == touched(shop, q.key, q.m.millis),
        served(shop, q).shop.db == shop.db,
{
    lemma_different_ops();
}

/// Some operations have different names.
proof fn lemma_different_ops()
    ensures
        "data"@ != "save_user"@,
        "data"@ != "delete_user"@,
        "data"@ != "checkout"@,
        "data"@ != "sync_batch"@,
        "save_user"@ != "checkout"@,
        "save_user"@ != "sync_batch"@,
        "delete_user"@ != "checkout"@,
        "delete_user"@ != "sync_batch"@,
        "delete_user"@ != "save_user"@,
{
    reveal_strlit("data");
    reveal_strlit("save_user");
    reveal_strlit("delete_user");
    reveal_strlit("checkout");
    reveal_strlit("sync_batch");
    assert("data"@.len() == 4 && "save_user"@.len() == 9 && "delete_user"@.len() == 11
        && "checkout"@.len() == 8 && "sync_batch"@.len() == 10);
}

/// An operation that fails leaves the store, the log and the source of new texts as they were.
pub proof fn law_failure_changes_nothing(shop: ShopView, q: Request)
    requires
        served(shop, q).reply is Err,
    ensures
        served(shop, q).shop.db == shop.db,
        served(shop, q).shop.source == shop.source,
{
}

/// Every change of the store is in its log, in order: where the log leads from the rows that were
/// read to what the store holds, it still does after any operation.
pub proof fn law_changes_are_logged(rows: Seq<RowView>, shop: ShopView, q: Request)
    requires
        logged(rows, shop.db),
    ensures
        logged(rows, served(shop, q).shop.db),
{
    broadcast use {law_log_put, law_log_delete, law_log_patch};

    if q.op == "checkout"@ {
        lemma_checkout_logged(rows, shop, q.key, q.payload, q.texts.items, q.m, q.clock);
    }
    if q.op == "sync_batch"@ {
        lemma_queue_logged(
            rows,
            touched(shop, q.key, q.m.millis),
            q.key,
            crate::sales::items_of(q.payload),
            q.texts.queue,
            q.rs,
        );
    }
}

proof fn lemma_sold_logged(
    rows: Seq<RowView>,
    db: StoreView,
    products: Seq<Json>,
    lines: Seq<Json>,
    sale: Seq<char>,
    user: Json,
    m: MomentView,
    clock: Seq<i64>,
)
    requires
        logged(rows, db),
    ensures
        logged(rows, sold(db, products, lines, sale, user, m, clock)),
    decreases lines.len(),
{
    broadcast use {law_log_put, law_log_delete, law_log_patch};

    if lines.len() > 0 {
        lemma_sold_logged(rows, db, products, lines.drop_last(), sale, user, m, clock);
    }
}

proof fn lemma_checkout_logged(
    rows: Seq<RowView>,
    shop: ShopView,
    key: Seq<char>,
    payload: Json,
    text: Seq<char>,
    m: MomentView,
    clock: Seq<i64>,
)
    requires
        logged(rows, shop.db),
    ensures
        logged(rows, checkout_outcome(shop, key, payload, text, m, clock).shop.db),
{
    broadcast use {law_log_put, law_log_delete, law_log_patch};

    if let Ok(user) = authorized(shop, key, staff(), m.millis) {
        lemma_sold_logged(
            rows,
            shop.db,
            shop.db.list("products"@),
            crate::sales::items_of(payload),
            crate::sales::sale_id(payload, m.millis),
            user,
            m,
            clock,
        );
    }
}

proof fn lemma_queue_logged(
    rows: Seq<RowView>,
    shop: ShopView,
    key: Seq<char>,
    items: Seq<Json>,
    texts: Seq<Seq<char>>,
    rs: Seq<ReadingView>,
)
    requires
        logged(rows, shop.db),
    ensures
        logged(rows, queue_run(shop, key, items, texts, rs).0.db),
    decreases items.len(),
{
    if items.len() > 0 {
        let i = items.len() - 1;
        lemma_queue_logged(rows, shop, key, items.drop_last(), texts, rs);
        let before = queue_run(shop, key, items.drop_last(), texts, rs);
        lemma_checkout_logged(
            rows,
            before.0,
            key,
            crate::sales::queued(items[i]),
            crate::sales::items_text(texts, i),
            rs[i].m,
            rs[i].clock,
        );
    }
}

/// Only those who manage see movements, counts and sales, and only administrators see users.
pub proof fn law_visibility(db: StoreView, user: Json, stored: Option<Json>)
    ensures
        !managers().contains(role_of(user)) ==> field(data_reply(db, user, stored), "moves"@) == Some(
            Json::Array(Seq::empty()),
        ) && field(data_reply(db, user, stored), "counts"@) == Some(Json::Array(Seq::empty()))
            && field(data_reply(db, user, stored), "sales"@) == Some(Json::Array(Seq::empty())),
        !admins().contains(role_of(user)) ==> field(data_reply(db, user, stored), "users"@) == Some(
            Json::Array(Seq::empty()),
        ),
        field(data_reply(db, user, stored), "products"@) == Some(
            Json::Array(db.list("products"@)),
        ),
{
    reveal_strlit("user");
    reveal_strlit("products");
    reveal_strlit("moves");
    reveal_strlit("counts");
    reveal_strlit("sales");
    reveal_strlit("users");
    reveal_strlit("settings");
    reveal_strlit("categories");
    reveal_strlit("units");
    reveal_strlit("suppliers");
    reveal_strlit("presentations");
    assert("user"@.len() == 4 && "products"@.len() == 8 && "moves"@.len() == 5 && "counts"@.len()
        == 6 && "sales"@.len() == 5 && "users"@.len() == 5 && "settings"@.len() == 8
        && "categories"@.len() == 10 && "units"@.len() == 5 && "suppliers"@.len() == 9
        && "presentations"@.len() == 13);
    assert("moves"@[0] == 'm' && "sales"@[0] == 's' && "users"@[0] == 'u' && "users"@[1] == 's'
        && "units"@[0] == 'u' && "units"@[1] == 'n' && "products"@[0] == 'p' && "settings"@[0]
        == 's');
    assert(managers()[0] == "admin"@ && managers()[1] == "encargado"@ && admins()[0] == "admin"@);
}

} // verus!
