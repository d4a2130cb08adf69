//! Which stores an operation may change.

use crate::accounts::{delete_user_outcome, login_outcome, save_user_outcome, setup_admin_outcome};
use crate::catalogs::{delete_catalog_outcome, save_catalog_outcome, save_settings_outcome};
use crate::clock::MomentView;
use crate::json::Json;
use crate::laws::access::{served, Request};
use crate::products::{delete_product_outcome, save_product_outcome};
use crate::sales::{
    checkout_outcome, items_of, items_text, queue_run, queued, sale_id, sold, ReadingView,
};
use crate::shop::ShopView;
use crate::stock::{count_outcome, delete_movement_outcome, movement_outcome};
use crate::store::{law_delete, law_put, merged, StoreView};
use crate::users::{authorized, staff, touched};
use vstd::prelude::*;

verus! {

/// Whether an operation may change a store.
pub open spec fn may_write(op: Seq<char>, store: Seq<char>) -> bool {
    if op == "setup_admin"@ || op == "login"@ || op == "save_user"@ || op == "delete_user"@ {
        store == "users"@
    } else if op == "save_settings"@ {
        store == "settings"@
    } else if op == "save_catalog"@ || op == "delete_catalog"@ {
        store == "categories"@ || store == "units"@ || store == "suppliers"@ || store
            == "presentations"@
    } else if op == "save_product"@ || op == "delete_product"@ {
        store == "products"@
    } else if op == "movement"@ || op == "delete_movement"@ {
        store == "products"@ || store == "moves"@
    } else if op == "count"@ {
        store == "products"@ || store == "moves"@ || store == "counts"@
    } else if op == "checkout"@ || op == "sync_batch"@ {
        store == "products"@ || store == "moves"@ || store == "sales"@
    } else {
        false
    }
}

/// Whether two stores hold the same under a name.
pub open spec fn same_store(a: StoreView, b: StoreView, store: Seq<char>) -> bool {
    &&& a.list(store) == b.list(store)
    &&& forall|id: Seq<char>| #[trigger] a.item(store, id) == b.item(store, id)
}

broadcast proof fn lemma_put_elsewhere(
    a: StoreView,
    b: StoreView,
    s: Seq<char>,
    store: Seq<char>,
    id: Seq<char>,
    record: Json,
)
    requires
        same_store(a, b, store),
        s != store,
    ensures
        #[trigger] same_store(a, b.put(s, id, record), store),
{
    law_put(b, s, id, record);
    assert forall|i: Seq<char>| #[trigger] a.item(store, i) == b.put(s, id, record).item(store, i) by {
        assert(b.put(s, id, record).item(store, i) == b.item(store, i));
    }
}

broadcast proof fn lemma_delete_elsewhere(
    a: StoreView,
    b: StoreView,
    s: Seq<char>,
    store: Seq<char>,
    id: Seq<char>,
)
    requires
        same_store(a, b, store),
        s != store,
    ensures
        #[trigger] same_store(a, b.delete(s, id), store),
{
    law_delete(b, s, id);
    assert forall|i: Seq<char>| #[trigger] a.item(store, i) == b.delete(s, id).item(store, i) by {
        assert(b.delete(s, id).item(store, i) == b.item(store, i));
    }
}

broadcast proof fn lemma_patch_elsewhere(
    a: StoreView,
    b: StoreView,
    s: Seq<char>,
    store: Seq<char>,
    id: Seq<char>,
    patch: Json,
)
    requires
        same_store(a, b, store),
        s != store,
    ensures
        #[trigger] same_store(a, b.patch(s, id, patch), store),
{
    let current = match b.item(s, id) {
        Some(v) => v,
        None => Json::Object(Map::empty()),
    };
    lemma_put_elsewhere(a, b, s, store, id, merged(current, patch));
}

proof fn lemma_sold_elsewhere(
    a: StoreView,
    db: StoreView,
    products: Seq<Json>,
    lines: Seq<Json>,
    sale: Seq<char>,
    user: Json,
    m: MomentView,
    clock: Seq<i64>,
    store: Seq<char>,
)
    requires
        same_store(a, db, store),
        store != "products"@,
        store != "moves"@,
    ensures
        same_store(a, sold(db, products, lines, sale, user, m, clock), store),
    decreases lines.len(),
{
    broadcast use {lemma_put_elsewhere, lemma_patch_elsewhere};

    if lines.len() > 0 {
        lemma_sold_elsewhere(
            a,
            db,
            products,
            lines.drop_last(),
            sale,
            user,
            m,
            clock,
            store,
        );
    }
}

proof fn lemma_checkout_elsewhere(
    a: StoreView,
    shop: ShopView,
    key: Seq<char>,
    payload: Json,
    text: Seq<char>,
    m: MomentView,
    clock: Seq<i64>,
    store: Seq<char>,
)
    requires
        same_store(a, shop.db, store),
        store != "products"@,
        store != "moves"@,
        store != "sales"@,
    ensures
        same_store(a, checkout_outcome(shop, key, payload, text, m, clock).shop.db, store),
{
    broadcast use {lemma_put_elsewhere, lemma_patch_elsewhere};

    if let Ok(user) = authorized(shop, key, staff(), m.millis) {
        lemma_sold_elsewhere(
            a,
            shop.db,
            shop.db.list("products"@),
            items_of(payload),
            sale_id(payload, m.millis),
            user,
            m,
            clock,
            store,
        );
    }
}

proof fn lemma_queue_elsewhere(
    a: StoreView,
    shop: ShopView,
    key: Seq<char>,
    items: Seq<Json>,
    texts: Seq<Seq<char>>,
    rs: Seq<ReadingView>,
    store: Seq<char>,
)
    requires
        same_store(a, shop.db, store),
        store != "products"@,
        store != "moves"@,
        store != "sales"@,
    ensures
        same_store(a, queue_run(shop, key, items, texts, rs).0.db, store),
    decreases items.len(),
{
    if items.len() > 0 {
        let i = items.len() - 1;
        lemma_queue_elsewhere(a, shop, key, items.drop_last(), texts, rs, store);
        lemma_checkout_elsewhere(
            a,
            queue_run(shop, key, items.drop_last(), texts, rs).0,
            key,
            queued(items[i]),
            items_text(texts, i),
            rs[i].m,
            rs[i].clock,
            store,
        );
    }
}

proof fn lemma_accounts_elsewhere(shop: ShopView, q: Request, store: Seq<char>)
    requires
        store != "users"@,
    ensures
        same_store(shop.db, setup_admin_outcome(shop, q.payload, q.m).shop.db, store),
        same_store(shop.db, login_outcome(shop, q.payload, q.m).shop.db, store),
        same_store(shop.db, save_user_outcome(shop, q.key, q.payload, q.m).shop.db, store),
        same_store(
            shop.db,
            delete_user_outcome(shop, q.key, q.payload, q.m.millis).shop.db,
            store,
        ),
{
    broadcast use {lemma_put_elsewhere, lemma_delete_elsewhere, lemma_patch_elsewhere};

    assert(same_store(shop.db, shop.db, store));
}

proof fn lemma_settings_elsewhere(shop: ShopView, q: Request, store: Seq<char>)
    requires
        store != "settings"@,
    ensures
        same_store(
            shop.db,
            save_settings_outcome(
                shop,
                q.key,
                q.payload,
                q.texts.settings,
                q.m.millis,
            ).shop.db,
            store,
        ),
{
    broadcast use lemma_put_elsewhere;

    assert(same_store(shop.db, shop.db, store));
}

proof fn lemma_catalogs_elsewhere(shop: ShopView, q: Request, store: Seq<char>)
    requires
        store != "categories"@,
        store != "units"@,
        store != "suppliers"@,
        store != "presentations"@,
    ensures
        same_store(
            shop.db,
            save_catalog_outcome(shop, q.key, q.payload, q.m.millis).shop.db,
            store,
        ),
        same_store(
            shop.db,
            delete_catalog_outcome(shop, q.key, q.payload, q.m.millis).shop.db,
            store,
        ),
{
    broadcast use {lemma_put_elsewhere, lemma_delete_elsewhere};

    assert(same_store(shop.db, shop.db, store));
}

proof fn lemma_products_elsewhere(shop: ShopView, q: Request, store: Seq<char>)
    requires
        store != "products"@,
    ensures
        same_store(
            shop.db,
            save_product_outcome(shop, q.key, q.payload, q.m.millis).shop.db,
            store,
        ),
        same_store(
            shop.db,
            delete_product_outcome(shop, q.key, q.payload, q.m.millis).shop.db,
            store,
        ),
{
    broadcast use {lemma_put_elsewhere, lemma_delete_elsewhere};

    assert(same_store(shop.db, shop.db, store));
}

proof fn lemma_stock_elsewhere(shop: ShopView, q: Request, store: Seq<char>)
    requires
        store != "products"@,
        store != "moves"@,
    ensures
        same_store(shop.db, movement_outcome(shop, q.key, q.payload, q.m).shop.db, store),
        same_store(shop.db, delete_movement_outcome(shop, q.key, q.payload, q.m).shop.db, store),
        store != "counts"@ ==> same_store(
            shop.db,
            count_outcome(shop, q.key, q.payload, q.m).shop.db,
            store,
        ),
{
    broadcast use {lemma_put_elsewhere, lemma_delete_elsewhere, lemma_patch_elsewhere};

    assert(same_store(shop.db, shop.db, store));
}

/// An operation leaves every store as it was but those that it is about.
pub proof fn law_scope(shop: ShopView, q: Request, store: Seq<char>)
    requires
        !may_write(q.op, store),
    ensures
        served(shop, q).shop.db.list(store) == shop.db.list(store),
        forall|id: Seq<char>|
            #[trigger] served(shop, q).shop.db.item(store, id) == shop.db.item(store, id),
{
    let after = served(shop, q).shop.db;
    assert(same_store(shop.db, shop.db, store));
    if q.op == "setup_admin"@ || q.op == "login"@ || q.op == "save_user"@ || q.op
        == "delete_user"@ {
        lemma_accounts_elsewhere(shop, q, store);
    } else if q.op == "save_settings"@ {
        lemma_settings_elsewhere(shop, q, store);
    } else if q.op == "save_catalog"@ || q.op == "delete_catalog"@ {
        lemma_catalogs_elsewhere(shop, q, store);
    } else if q.op == "save_product"@ || q.op == "delete_product"@ {
        lemma_products_elsewhere(shop, q, store);
    } else if q.op == "movement"@ || q.op == "delete_movement"@ || q.op == "count"@ {
        lemma_stock_elsewhere(shop, q, store);
    } else if q.op == "checkout"@ {
        lemma_checkout_elsewhere(
            shop.db,
            shop,
            q.key,
            q.payload,
            q.texts.items,
            q.m,
            q.clock,
            store,
        );
    } else if q.op == "sync_batch"@ {
        lemma_queue_elsewhere(
            shop.db,
            touched(shop, q.key, q.m.millis),
            q.key,
            items_of(q.payload),
            q.texts.queue,
            q.rs,
            store,
        );
    }
    assert(same_store(shop.db, after, store));
    assert forall|id: Seq<char>| #[trigger] after.item(store, id) == shop.db.item(store, id) by {
        assert(shop.db.item(store, id) == after.item(store, id));
    }
}

} // verus!
