//! Laws of accounts and sessions.

use crate::accounts::{
    admitted, as_admin, claimed, create_user_outcome, delete_user_outcome, edited_user, keyholders,
    lets_in, login_outcome, new_name, new_password, new_user, next_token, opens, pick, public_view,
    save_user_outcome, setup_admin_outcome, single_key, supervisor, Pick,
};
use crate::clock::MomentView;
use crate::json::{field, plain, truth_or_missing, Json};
use crate::laws::access::{served, Request};
use crate::laws::names::{law_password_hash, law_roles, lemma_numeral, lemma_roles_small};
use crate::laws::records::{
    in_order, law_found, lemma_create_user_in_order, lemma_first_user, lemma_login_in_order,
    lemma_named, lemma_own_fields, lemma_picked, lemma_reads, lemma_save_user_in_order,
};
use crate::laws::scope::law_scope;
use crate::lists::{
    first_true, first_user, first_with, has_text, is_active, lemma_first, lemma_first_true,
    lemma_some_true,
};
use crate::reply::refusal;
use crate::rules::{is_role, password_hash, role_named};
use crate::shop::ShopView;
use crate::store::{law_delete, law_patch, law_put, StoreView};
use crate::text::{tidy, white};
use crate::users::{admins, authorized, role_of, signed_in, touched, SESSION_MILLIS};
use vstd::prelude::*;

verus! {

// ----- what others see -----

/// What others see of a user never holds the password hash or the salt.
pub proof fn law_secrets_stay(u: Json)
    ensures
        field(public_view(u), "passwordHash"@) is None,
        field(public_view(u), "salt"@) is None,
{
    lemma_user_fields();
}

/// The names of the fields of a user differ.
proof fn lemma_user_fields()
    ensures
        "username"@.len() == 8,
        "displayName"@.len() == 11,
        "passwordHash"@.len() == 12,
        "salt"@.len() == 4,
        "role"@.len() == 4,
        "salt"@ != "role"@,
        "pin"@.len() == 3,
        "active"@.len() == 6,
        "createdAt"@.len() == 9,
        "lastLogin"@.len() == 9,
        "createdAt"@ != "lastLogin"@,
{
    reveal_strlit("username");
    reveal_strlit("displayName");
    reveal_strlit("passwordHash");
    reveal_strlit("salt");
    reveal_strlit("role");
    reveal_strlit("pin");
    reveal_strlit("active");
    reveal_strlit("createdAt");
    reveal_strlit("lastLogin");
    assert("salt"@[0] == 's' && "role"@[0] == 'r');
    assert("createdAt"@[0] == 'c' && "lastLogin"@[0] == 'l');
}

// ----- the first administrator -----

/// Only a shop without users can be given a first administrator.
pub proof fn law_setup_only_once(shop: ShopView, payload: Json, m: MomentView)
    requires
        shop.db.list("users"@).len() > 0,
    ensures
        setup_admin_outcome(shop, payload, m) == shop.says(
            refusal("La tienda ya tiene usuarios configurados"@),
        ),
{
}

/// The first user is an active administrator, under the name that was asked for.
pub proof fn law_first_user_is_admin(shop: ShopView, payload: Json, m: MomentView)
    requires
        shop.db.list("users"@).len() == 0,
        setup_admin_outcome(shop, payload, m).reply is Ok,
    ensures
        setup_admin_outcome(shop, payload, m).shop.db.item("users"@, new_name(payload)) matches Some(
            u,
        ) && is_active(u) && role_of(u) == "admin"@,
{
    let input = as_admin(payload);
    let record = new_user(input, "admin"@, next_token(shop, m), m.iso);
    lemma_user_fields();
    reveal_strlit("loginCode");
    reveal_strlit("admin");
    assert("loginCode"@.len() == 9);
    assert(payload is Object) by {
        if !(payload is Object) {
            assert(new_name(input).len() == 0);
        }
    }
    assert(field(input, "loginCode"@) == field(payload, "loginCode"@));
    assert(field(input, "username"@) == field(payload, "username"@));
    assert(field(input, "role"@) == Some(Json::Text("admin"@)));
    assert(field(input, "active"@) == Some(Json::Bool(true)));
    lemma_reads("admin"@);
    lemma_roles_small("admin"@);
    assert(field(record, "role"@) == Some(Json::Text("admin"@)));
    assert(field(record, "active"@) == Some(Json::Bool(true)));
    law_put(shop.db, "users"@, new_name(payload), record);
}

// ----- signing in -----

/// A new text is one that reads as it is.
proof fn lemma_token_tidy(shop: ShopView, m: MomentView)
    ensures
        tidy(next_token(shop, m)),
{
    lemma_numeral(m.nanos as nat, 16);
    lemma_numeral(shop.source.count as nat, 16);
    lemma_numeral(shop.source.process as nat, 16);
    let t = next_token(shop, m);
    assert forall|i: int| 0 <= i < t.len() implies !white(#[trigger] t[i]) by {}
    assert(t.last() == t[t.len() - 1]);
}

/// In a store that is in order, an active user that stands under a name is the first with it.
pub proof fn lemma_only_user(db: StoreView, name: Seq<char>)
    requires
        in_order(db),
        db.item("users"@, name) is Some,
        is_active(db.item("users"@, name)->0),
    ensures
        0 <= first_user(db.list("users"@), name) < db.list("users"@).len(),
        db.item("users"@, name) == Some(
            db.list("users"@)[first_user(db.list("users"@), name)],
        ),
{
    let users = db.list("users"@);
    lemma_own_fields();
    law_found(db, "users"@, name);
    let i = first_with(users, "username"@, name);
    let named = users.map_values(|r: Json| has_text(r, "username"@, name));
    let bs = users.map_values(|u: Json| has_text(u, "username"@, name) && is_active(u));
    lemma_first_true(named);
    assert(named[i]);
    assert(bs[i]);
    assert forall|j: int| 0 <= j < i implies !#[trigger] bs[j] by {
        assert(!named[j]);
    }
    lemma_first(bs, i);
}

/// Whoever was made an active user can sign in with the name and the password that were given.
pub proof fn law_new_user_can_sign_in(
    shop: ShopView,
    input: Json,
    fallback: Seq<char>,
    m: MomentView,
    payload: Json,
    later: MomentView,
)
    requires
        in_order(shop.db),
        create_user_outcome(shop, input, fallback, m).reply is Ok,
        truth_or_missing(field(input, "active"@)),
        claimed(payload).username == new_name(input),
        claimed(payload).password == plain(field(input, "password"@)),
    ensures
        ({
            let made = create_user_outcome(shop, input, fallback, m).shop;
            let record = new_user(input, fallback, next_token(shop, m), m.iso);
            login_outcome(made, payload, later) == admitted(made, record, new_name(input), later)
        }),
{
    let made = create_user_outcome(shop, input, fallback, m).shop;
    let salt = next_token(shop, m);
    let record = new_user(input, fallback, salt, m.iso);
    let name = new_name(input);
    let password = plain(field(input, "password"@));
    lemma_create_user_in_order(shop, input, fallback, m);
    law_put(shop.db, "users"@, name, record);
    lemma_user_fields();
    assert(field(record, "active"@) == Some(Json::Bool(true)));
    assert(field(record, "salt"@) == Some(Json::Text(salt)));
    assert(field(record, "passwordHash"@) == Some(Json::Text(password_hash(password, salt))));
    lemma_only_user(made.db, name);
    lemma_token_tidy(shop, m);
    lemma_reads(salt);
    law_password_hash(password, salt);
    assert(opens(record, password));
}

/// Whether fourteen hours after a moment can still be told.
pub open spec fn is_tellable(now: i64) -> bool {
    now + SESSION_MILLIS <= i64::MAX
}

/// Whoever was let in is signed in under the new token, as the user that was let in, for fourteen
/// hours and no longer.
pub proof fn law_signed_in_after_login(
    shop: ShopView,
    payload: Json,
    m: MomentView,
    at: int,
    name: Seq<char>,
    later: i64,
)
    requires
        in_order(shop.db),
        pick(shop.db.list("users"@), claimed(payload)) == (Pick::User { at, name }),
        is_tellable(m.millis),
    ensures
        ({
            let after = login_outcome(shop, payload, m).shop;
            let found = signed_in(
                after.db.list("users"@),
                after.sessions,
                next_token(shop, m),
                later,
            );
            if later <= m.millis + SESSION_MILLIS {
                found matches Ok(u) && plain(field(u, "username"@)) == name && role_of(u)
                    == role_of(shop.db.list("users"@)[at])
            } else {
                found == Err::<Json, Seq<char>>("Sesion expirada"@)
            }
        }),
{
    let after = login_outcome(shop, payload, m).shop;
    let user = shop.db.list("users"@)[at];
    let patch = Json::Object(Map::empty().insert("lastLogin"@, Json::Text(m.iso)));
    lemma_picked(shop.db, payload, at, name);
    lemma_named(shop.db, "users"@, at);
    lemma_login_in_order(shop, payload, m);
    lemma_user_fields();
    law_patch(shop.db, "users"@, name, patch, user);
    let now = after.db.item("users"@, name)->0;
    assert(field(now, "active"@) == field(user, "active"@));
    assert(field(now, "role"@) == field(user, "role"@));
    assert(field(now, "username"@) == field(user, "username"@));
    lemma_only_user(after.db, name);
}

/// Using a session makes it count for fourteen hours more.
pub proof fn law_use_renews(shop: ShopView, key: Seq<char>, user: Json, now: i64, later: i64)
    requires
        signed_in(shop.db.list("users"@), shop.sessions, key, now) == Ok::<Json, Seq<char>>(user),
        is_tellable(now),
    ensures
        signed_in(
            shop.db.list("users"@),
            touched(shop, key, now).sessions,
            key,
            later,
        ) == (if later <= now + SESSION_MILLIS {
            Ok::<Json, Seq<char>>(user)
        } else {
            Err::<Json, Seq<char>>("Sesion expirada"@)
        }),
        forall|other: Seq<char>|
            other != key ==> #[trigger] signed_in(
                shop.db.list("users"@),
                touched(shop, key, now).sessions,
                other,
                later,
            ) == signed_in(shop.db.list("users"@), shop.sessions, other, later),
{
}

/// Whoever signs out is signed out; nobody else is.
pub proof fn law_logout(shop: ShopView, q: Request, now: i64)
    requires
        q.op == "logout"@,
    ensures
        served(shop, q).reply is Ok,
        signed_in(
            served(shop, q).shop.db.list("users"@),
            served(shop, q).shop.sessions,
            q.key,
            now,
        ) == Err::<Json, Seq<char>>("Sesion expirada"@),
        forall|other: Seq<char>|
            other != q.key ==> #[trigger] signed_in(
                served(shop, q).shop.db.list("users"@),
                served(shop, q).shop.sessions,
                other,
                now,
            ) == signed_in(shop.db.list("users"@), shop.sessions, other, now),
{
    reveal_strlit("logout");
    reveal_strlit("bootstrap");
    reveal_strlit("setup_admin");
    reveal_strlit("login");
    assert("logout"@.len() == 6 && "bootstrap"@.len() == 9 && "setup_admin"@.len() == 11
        && "login"@.len() == 5);
}

// ----- keeping users -----

/// A user that was deleted is gone and signed out, and nobody can delete themselves.
pub proof fn law_deleted_user_is_out(
    shop: ShopView,
    key: Seq<char>,
    payload: Json,
    user: Json,
    now: i64,
)
    requires
        authorized(shop, key, admins(), now) == Ok::<Json, Seq<char>>(user),
        delete_user_outcome(shop, key, payload, now).reply is Ok,
    ensures
        ({
            let after = delete_user_outcome(shop, key, payload, now).shop;
            let name = plain(field(payload, "username"@));
            &&& name != plain(field(user, "username"@))
            &&& after.db.item("users"@, name) is None
            &&& forall|t: Seq<char>|
                #[trigger] after.sessions.contains_key(t) ==> after.sessions[t].username != name
            &&& forall|other: Seq<char>|
                other != name ==> #[trigger] after.db.item("users"@, other) == shop.db.item(
                    "users"@,
                    other,
                )
        }),
{
    law_delete(shop.db, "users"@, plain(field(payload, "username"@)));
}

/// A user that was edited is signed out everywhere and has to sign in anew.
pub proof fn law_edited_user_is_out(shop: ShopView, key: Seq<char>, payload: Json, m: MomentView)
    requires
        save_user_outcome(shop, key, payload, m).reply is Ok,
        plain(field(payload, "editingUsername"@)).len() > 0,
        first_with(
            shop.db.list("users"@),
            "username"@,
            plain(field(payload, "editingUsername"@)),
        ) < shop.db.list("users"@).len(),
    ensures
        forall|t: Seq<char>|
            #[trigger] save_user_outcome(shop, key, payload, m).shop.sessions.contains_key(t)
                ==> save_user_outcome(shop, key, payload, m).shop.sessions[t].username != plain(
                field(payload, "editingUsername"@),
            ),
{
}

// ----- roles -----

/// Whether every user has one of the three roles.
pub open spec fn roles_known(db: StoreView) -> bool {
    forall|id: Seq<char>|
        (#[trigger] db.item("users"@, id)) is Some ==> is_role(role_of(db.item("users"@, id)->0))
}

proof fn lemma_role_reads(s: Seq<char>)
    ensures
        is_role(plain(Some(Json::Text(role_named(s))))),
{
    law_roles(s);
    reveal_strlit("admin");
    reveal_strlit("encargado");
    reveal_strlit("cajero");
    lemma_reads(role_named(s));
}

proof fn lemma_put_roles(db: StoreView, id: Seq<char>, record: Json)
    requires
        roles_known(db),
        is_role(role_of(record)),
    ensures
        roles_known(db.put("users"@, id, record)),
{
    law_put(db, "users"@, id, record);
    let new = db.put("users"@, id, record);
    assert forall|i: Seq<char>| (#[trigger] new.item("users"@, i)) is Some implies is_role(
        role_of(new.item("users"@, i)->0),
    ) by {
        if i != id {
            assert(new.item("users"@, i) == db.item("users"@, i));
        }
    }
}

proof fn lemma_delete_roles(db: StoreView, id: Seq<char>)
    requires
        roles_known(db),
    ensures
        roles_known(db.delete("users"@, id)),
{
    law_delete(db, "users"@, id);
    let new = db.delete("users"@, id);
    assert forall|i: Seq<char>| (#[trigger] new.item("users"@, i)) is Some implies is_role(
        role_of(new.item("users"@, i)->0),
    ) by {
        if i != id {
            assert(new.item("users"@, i) == db.item("users"@, i));
        }
    }
}

proof fn lemma_create_user_roles(shop: ShopView, input: Json, fallback: Seq<char>, m: MomentView)
    requires
        roles_known(shop.db),
    ensures
        roles_known(create_user_outcome(shop, input, fallback, m).shop.db),
{
    let record = new_user(input, fallback, next_token(shop, m), m.iso);
    lemma_user_fields();
    let role = role_named(crate::json::or_else(plain(field(input, "role"@)), fallback));
    assert(field(record, "role"@) == Some(Json::Text(role)));
    lemma_role_reads(crate::json::or_else(plain(field(input, "role"@)), fallback));
    lemma_put_roles(shop.db, new_name(input), record);
}

proof fn lemma_save_user_roles(shop: ShopView, key: Seq<char>, payload: Json, m: MomentView)
    requires
        in_order(shop.db),
        roles_known(shop.db),
    ensures
        roles_known(save_user_outcome(shop, key, payload, m).shop.db),
{
    let users = shop.db.list("users"@);
    let editing = plain(field(payload, "editingUsername"@));
    let name = plain(field(payload, "username"@));
    let i = first_with(users, "username"@, editing);
    let now = touched(shop, key, m.millis);
    lemma_own_fields();
    law_found(shop.db, "users"@, editing);
    if i < users.len() {
        lemma_named(shop.db, "users"@, i);
        let record = edited_user(users[i], payload, next_token(now, m));
        lemma_user_fields();
        assert(field(record, "role"@) == Some(
            Json::Text(role_named(plain(field(payload, "role"@)))),
        ));
        lemma_role_reads(plain(field(payload, "role"@)));
        lemma_put_roles(shop.db, name, record);
        lemma_delete_roles(shop.db.put("users"@, name, record), editing);
    }
    lemma_create_user_roles(now, payload, "cajero"@, m);
}

proof fn lemma_login_roles(shop: ShopView, payload: Json, m: MomentView)
    requires
        in_order(shop.db),
        roles_known(shop.db),
    ensures
        roles_known(login_outcome(shop, payload, m).shop.db),
{
    if let Pick::User { at, name } = pick(shop.db.list("users"@), claimed(payload)) {
        let user = shop.db.list("users"@)[at];
        let patch = Json::Object(Map::empty().insert("lastLogin"@, Json::Text(m.iso)));
        lemma_picked(shop.db, payload, at, name);
        lemma_named(shop.db, "users"@, at);
        lemma_user_fields();
        let record = crate::store::merged(user, patch);
        assert(field(record, "role"@) == field(user, "role"@));
        assert(is_role(role_of(shop.db.item("users"@, name)->0)));
        lemma_put_roles(shop.db, name, record);
    }
}

/// Every operation keeps it that each user has one of the three roles.
pub proof fn law_roles_stay_known(shop: ShopView, q: Request)
    requires
        in_order(shop.db),
        roles_known(shop.db),
    ensures
        roles_known(served(shop, q).shop.db),
{
    if q.op == "setup_admin"@ {
        lemma_create_user_roles(shop, as_admin(q.payload), "admin"@, q.m);
    } else if q.op == "login"@ {
        lemma_login_roles(shop, q.payload, q.m);
    } else if q.op == "save_user"@ {
        lemma_save_user_roles(shop, q.key, q.payload, q.m);
    } else if q.op == "delete_user"@ {
        lemma_delete_roles(shop.db, plain(field(q.payload, "username"@)));
    } else {
        lemma_own_fields();
        lemma_users_elsewhere(shop, q);
    }
}

/// The other operations are not about users.
proof fn lemma_users_elsewhere(shop: ShopView, q: Request)
    requires
        roles_known(shop.db),
        q.op != "setup_admin"@,
        q.op != "login"@,
        q.op != "save_user"@,
        q.op != "delete_user"@,
    ensures
        roles_known(served(shop, q).shop.db),
{
    reveal_strlit("users");
    reveal_strlit("settings");
    reveal_strlit("categories");
    reveal_strlit("units");
    reveal_strlit("suppliers");
    reveal_strlit("presentations");
    reveal_strlit("products");
    reveal_strlit("moves");
    reveal_strlit("counts");
    reveal_strlit("sales");
    assert("users"@.len() == 5 && "users"@[0] == 'u' && "users"@[1] == 's');
    assert("units"@[1] == 'n' && "moves"@[0] == 'm' && "sales"@[0] == 's');
    assert("settings"@.len() == 8 && "categories"@.len() == 10 && "suppliers"@.len() == 9
        && "presentations"@.len() == 13 && "products"@.len() == 8 && "counts"@.len() == 6);
    law_scope(shop, q, "users"@);
    let after = served(shop, q).shop.db;
    assert forall|i: Seq<char>| (#[trigger] after.item("users"@, i)) is Some implies is_role(
        role_of(after.item("users"@, i)->0),
    ) by {
        assert(after.item("users"@, i) == shop.db.item("users"@, i));
    }
}

// ----- who is let in -----

/// Nobody is let in without a password: whoever is let in is an active user, and one of the texts
/// that were shown is that user's password.
pub proof fn law_only_with_password(users: Seq<Json>, payload: Json, at: int, name: Seq<char>)
    requires
        pick(users, claimed(payload)) == (Pick::User { at, name }),
    ensures
        0 <= at < users.len(),
        is_active(users[at]),
        opens(users[at], claimed(payload).username) || opens(users[at], claimed(payload).password)
            || opens(users[at], claimed(payload).code),
{
    let c = claimed(payload);
    let holders = keyholders(users, single_key(c));
    lemma_first_user(users, c.username);
    lemma_first_user(users, c.password);
    lemma_first_user(users, c.code);
    if !lets_in(users, c.username, c.password) && !lets_in(users, c.password, c.username) && !(
    c.code.len() > 0 && lets_in(users, c.code, c.code)) {
        lemma_some_true(holders);
        assert(holders[at]);
    }
}

/// Whoever is named as a supervisor is an administrator or a manager, active, and one of the texts
/// that were shown is that user's password.
pub proof fn law_supervisor(users: Seq<Json>, input: Json, u: Json)
    requires
        supervisor(users, input) == Ok::<Json, Seq<char>>(u),
    ensures
        role_of(u) == "admin"@ || role_of(u) == "encargado"@,
        is_active(u),
        users.contains(u),
        opens(u, claimed(input).username) || opens(u, claimed(input).password) || opens(
            u,
            claimed(input).code,
        ),
{
    let c = claimed(input);
    let holders = keyholders(users, single_key(c));
    let i = first_user(users, c.username);
    lemma_first_user(users, c.username);
    if !(i < users.len() && opens(users[i], c.password)) {
        lemma_some_true(holders);
        assert(holders[first_true(holders)]);
        assert(users[first_true(holders)] == u);
    } else {
        assert(users[i] == u);
    }
}

/// A user that was given a new password can sign in with it.
pub proof fn law_new_password_counts(
    shop: ShopView,
    key: Seq<char>,
    edit: Json,
    m: MomentView,
    payload: Json,
    later: MomentView,
)
    requires
        in_order(shop.db),
        save_user_outcome(shop, key, edit, m).reply is Ok,
        plain(field(edit, "editingUsername"@)).len() > 0,
        shop.db.item("users"@, plain(field(edit, "editingUsername"@))) is Some,
        truth_or_missing(field(edit, "active"@)),
        new_password(edit).len() > 0,
        claimed(payload).username == plain(field(edit, "username"@)),
        claimed(payload).password == new_password(edit),
    ensures
        ({
            let saved = save_user_outcome(shop, key, edit, m).shop;
            let name = plain(field(edit, "username"@));
            &&& saved.db.item("users"@, name) is Some
            &&& login_outcome(saved, payload, later) == admitted(
                saved,
                saved.db.item("users"@, name)->0,
                name,
                later,
            )
        }),
{
    let users = shop.db.list("users"@);
    let editing = plain(field(edit, "editingUsername"@));
    let name = plain(field(edit, "username"@));
    let password = new_password(edit);
    let i = first_with(users, "username"@, editing);
    let now = touched(shop, key, m.millis);
    let salt = next_token(now, m);
    lemma_own_fields();
    law_found(shop.db, "users"@, editing);
    lemma_named(shop.db, "users"@, i);
    let record = edited_user(users[i], edit, salt);
    let saved = save_user_outcome(shop, key, edit, m).shop;
    lemma_save_user_in_order(shop, key, edit, m);
    law_put(shop.db, "users"@, name, record);
    law_delete(shop.db.put("users"@, name, record), "users"@, editing);
    assert(saved.db.item("users"@, name) == Some(record));
    lemma_user_fields();
    assert(field(record, "active"@) == Some(Json::Bool(true)));
    assert(field(record, "salt"@) == Some(Json::Text(salt)));
    assert(field(record, "passwordHash"@) == Some(Json::Text(password_hash(password, salt))));
    lemma_only_user(saved.db, name);
    lemma_token_tidy(now, m);
    lemma_reads(salt);
    law_password_hash(password, salt);
    assert(opens(record, password));
}

} // verus!
