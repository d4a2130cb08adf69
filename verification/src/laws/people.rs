//! Laws of users: who is signed in and may do what, whom the shop lets in, and what is written down
//! of a user.

use crate::accounts::{
    admitted, as_admin, claimed, create_user_outcome, delete_user_outcome, edited_user, keyholders,
    lets_in, login_outcome, new_name, new_password, new_user, next_token, public_view,
    save_user_outcome, setup_admin_outcome, single_key, supervisor,
};
use crate::clock::{token, MomentView};
use crate::json::{field, plain, Json};
use crate::laws::entries::is_yes;
use crate::laws::movements::{only_at, says, told_or};
use crate::laws::records::{in_order, law_found, lemma_first_user, lemma_named, lemma_own_fields};
use crate::laws::signing::lemma_only_user;
use crate::laws::tickets::lemma_refusal;
use crate::laws::words::{
    lemma_product_words, lemma_reply_words, lemma_stock_words, lemma_user_words,
};
use crate::lists::{count_true, first_true, first_user, is_active, lemma_first, lemma_first_true};
use crate::rules::password_hash;
use crate::sessions::SessionView;
use crate::shop::{Outcome, ShopView};
use crate::store::{law_delete, law_patch, law_put, StoreView};
use crate::text::lowercase;
use crate::users::{admins, authorized, managers, signed_in, staff, touched};
use vstd::prelude::*;

verus! {

// ----- who is signed in -----

/// Whether a user may act: the record does not say that it is not active.
pub open spec fn in_force(u: Json) -> bool {
    field(u, "active"@) != Some(Json::Bool(false))
}

/// A token stands for a user exactly where there is a session under it that has not run out, and
/// the user under its name is active.
pub proof fn law_who_is_signed_in(shop: ShopView, key: Seq<char>, now: i64)
    requires
        in_order(shop.db),
    ensures
        ({
            let found = signed_in(shop.db.list("users"@), shop.sessions, key, now);
            let u = shop.db.item("users"@, shop.sessions[key].username);
            if !shop.sessions.contains_key(key) || shop.sessions[key].expires_at < now {
                found == Err::<Json, Seq<char>>("Sesion expirada"@)
            } else if u is Some && in_force(u->0) {
                found == Ok::<Json, Seq<char>>(u->0)
            } else {
                found == Err::<Json, Seq<char>>("Usuario inactivo"@)
            }
        }),
{
    if shop.sessions.contains_key(key) {
        lemma_by_name(shop.db, shop.sessions[key].username);
    }
}

/// The first active user with a name is the one that stands under it, if that is active.
proof fn lemma_by_name(db: StoreView, name: Seq<char>)
    requires
        in_order(db),
    ensures
        0 <= first_user(db.list("users"@), name) <= db.list("users"@).len(),
        first_user(db.list("users"@), name) < db.list("users"@).len() <==> (db.item(
            "users"@,
            name,
        ) is Some && in_force(db.item("users"@, name)->0)),
        first_user(db.list("users"@), name) < db.list("users"@).len() ==> db.item("users"@, name)
            == Some(db.list("users"@)[first_user(db.list("users"@), name)]),
{
    let users = db.list("users"@);
    let i = first_user(users, name);
    lemma_own_fields();
    lemma_first_user(users, name);
    if i < users.len() {
        lemma_named(db, "users"@, i);
    } else if db.item("users"@, name) is Some && is_active(db.item("users"@, name)->0) {
        lemma_only_user(db, name);
    }
}

/// Users are kept by administrators alone; the catalogues, the products, the stock and the settings
/// by administrators and managers; and all three roles may sell. Anybody else is told so.
pub proof fn law_who_may(shop: ShopView, key: Seq<char>, now: i64)
    ensures
        ({
            let found = signed_in(shop.db.list("users"@), shop.sessions, key, now);
            let no = Err::<Json, Seq<char>>("No autorizado"@);
            &&& found is Err ==> authorized(shop, key, admins(), now) == found && authorized(
                shop,
                key,
                managers(),
                now,
            ) == found && authorized(shop, key, staff(), now) == found
            &&& found matches Ok(u) ==> {
                let role = plain(field(u, "role"@));
                &&& authorized(shop, key, admins(), now) == (if role == "admin"@ {
                    found
                } else {
                    no
                })
                &&& authorized(shop, key, managers(), now) == (if role == "admin"@ || role
                    == "encargado"@ {
                    found
                } else {
                    no
                })
                &&& authorized(shop, key, staff(), now) == (if role == "admin"@ || role
                    == "encargado"@ || role == "cajero"@ {
                    found
                } else {
                    no
                })
            }
        }),
{
    assert(admins()[0] == "admin"@);
    assert(managers()[0] == "admin"@ && managers()[1] == "encargado"@);
    assert(staff()[0] == "admin"@ && staff()[1] == "encargado"@ && staff()[2] == "cajero"@);
}

/// Using a session makes it run for fourteen hours from then, and changes no other.
pub proof fn law_session_used(shop: ShopView, key: Seq<char>, now: i64, user: Json)
    requires
        signed_in(shop.db.list("users"@), shop.sessions, key, now) == Ok::<Json, Seq<char>>(user),
    ensures
        touched(shop, key, now).db == shop.db,
        touched(shop, key, now).source == shop.source,
        touched(shop, key, now).sessions == shop.sessions.insert(
            key,
            SessionView {
                username: shop.sessions[key].username,
                expires_at: now.wrapping_add(50_400_000),
            },
        ),
{
}

// ----- what others see -----

/// What others see of a user: six fields, and neither the hash of the password nor the salt.
pub open spec fn shows_user(v: Json, u: Json) -> bool {
    &&& says(v, "username"@, plain(field(u, "username"@)))
    &&& says(v, "displayName"@, plain(field(u, "displayName"@)))
    &&& says(v, "role"@, plain(field(u, "role"@)))
    &&& field(v, "active"@) == Some(Json::Bool(in_force(u)))
    &&& says(v, "createdAt"@, plain(field(u, "createdAt"@)))
    &&& says(v, "lastLogin"@, plain(field(u, "lastLogin"@)))
    &&& v->Object_0.dom() == set![
        "username"@,
        "displayName"@,
        "role"@,
        "active"@,
        "createdAt"@,
        "lastLogin"@,
    ]
}

/// What others see of a user is what it says.
pub proof fn law_shows_user(u: Json)
    ensures
        shows_user(public_view(u), u),
{
    lemma_user_words();
    lemma_product_words();
    assert(public_view(u)->Object_0.dom() =~= set![
        "username"@,
        "displayName"@,
        "role"@,
        "active"@,
        "createdAt"@,
        "lastLogin"@,
    ]);
}

// ----- new users -----

/// Whether a text is the name of a user: four decimal digits or more.
pub open spec fn is_user_name(s: Seq<char>) -> bool {
    s.len() >= 4 && forall|i: int| 0 <= i < s.len() ==> '0' <= #[trigger] s[i] <= '9'
}

/// The role that a word stands for, in capitals or not; any other word stands for the cashier.
pub open spec fn role_for(word: Seq<char>) -> Seq<char> {
    if lowercase(word) == "admin"@ {
        "admin"@
    } else if lowercase(word) == "encargado"@ {
        "encargado"@
    } else {
        "cajero"@
    }
}

/// The name that a request asks for a new user.
pub open spec fn name_asked(payload: Json) -> Seq<char> {
    told_or(payload, "loginCode"@, plain(field(payload, "username"@)))
}

/// The new text that a shop makes at a moment.
pub open spec fn fresh(shop: ShopView, m: MomentView) -> Seq<char> {
    token(m.nanos, shop.source.count, shop.source.process)
}

/// What is written down of a new user.
pub open spec fn tells_user(
    r: Json,
    payload: Json,
    role: Seq<char>,
    active: bool,
    salt: Seq<char>,
    m: MomentView,
) -> bool {
    let name = name_asked(payload);
    &&& says(r, "username"@, name)
    &&& says(r, "displayName"@, told_or(payload, "displayName"@, name))
    &&& says(r, "passwordHash"@, password_hash(plain(field(payload, "password"@)), salt))
    &&& says(r, "salt"@, salt)
    &&& says(r, "role"@, role)
    &&& says(r, "pin"@, Seq::empty())
    &&& field(r, "active"@) == Some(Json::Bool(active))
    &&& says(r, "createdAt"@, m.iso)
    &&& says(r, "lastLogin"@, Seq::empty())
    &&& r->Object_0.dom() == set![
        "username"@,
        "displayName"@,
        "passwordHash"@,
        "salt"@,
        "role"@,
        "pin"@,
        "active"@,
        "createdAt"@,
        "lastLogin"@,
    ]
}

proof fn lemma_tells_user(payload: Json, fallback: Seq<char>, salt: Seq<char>, m: MomentView)
    ensures
        tells_user(
            new_user(payload, fallback, salt, m.iso),
            payload,
            role_for(told_or(payload, "role"@, fallback)),
            is_yes(field(payload, "active"@)),
            salt,
            m,
        ),
{
    let r = new_user(payload, fallback, salt, m.iso);
    lemma_user_words();
    lemma_product_words();
    reveal_strlit("");
    assert(""@ =~= Seq::empty());
    assert(r->Object_0.dom() =~= set![
        "username"@,
        "displayName"@,
        "passwordHash"@,
        "salt"@,
        "role"@,
        "pin"@,
        "active"@,
        "createdAt"@,
        "lastLogin"@,
    ]);
}

/// How an answer reads that names a user.
pub open spec fn answers_user(o: Outcome, u: Json) -> bool {
    &&& o.reply is Ok
    &&& field(o.reply->Ok_0, "ok"@) == Some(Json::Bool(true))
    &&& field(o.reply->Ok_0, "user"@) is Some
    &&& shows_user(field(o.reply->Ok_0, "user"@)->0, u)
    &&& o.reply->Ok_0->Object_0.dom() == set!["ok"@, "user"@]
}

proof fn lemma_answers_user(shop: ShopView, u: Json)
    ensures
        answers_user(
            shop.says(Json::Object(crate::reply::yes().insert("user"@, public_view(u)))),
            u,
        ),
{
    lemma_reply_words();
    lemma_stock_words();
    law_shows_user(u);
    assert(crate::reply::yes().insert("user"@, public_view(u)).dom() =~= set!["ok"@, "user"@]);
}

/// Why a new user is refused: a name that is none, a password of less than four characters, or a
/// name that another user has.
pub open spec fn new_user_refused(db: StoreView, payload: Json) -> Option<Seq<char>> {
    if !is_user_name(name_asked(payload)) {
        Some("El usuario debe tener al menos 4 digitos numericos"@)
    } else if plain(field(payload, "password"@)).len() < 4 {
        Some("La contrasena debe tener al menos 4 caracteres"@)
    } else if db.item("users"@, name_asked(payload)) is Some {
        Some("Ese usuario ya existe"@)
    } else {
        None
    }
}

proof fn lemma_create(shop: ShopView, payload: Json, fallback: Seq<char>, m: MomentView)
    requires
        in_order(shop.db),
    ensures
        ({
            let o = create_user_outcome(shop, payload, fallback, m);
            let name = name_asked(payload);
            match new_user_refused(shop.db, payload) {
                Some(why) => o.reply == Err::<Json, Seq<char>>(why) && o.shop == shop,
                None => {
                    let r = o.shop.db.item("users"@, name)->0;
                    &&& o.shop.db.item("users"@, name) is Some
                    &&& o.reply == Ok::<Json, Seq<char>>(public_view(r))
                    &&& tells_user(
                        r,
                        payload,
                        role_for(told_or(payload, "role"@, fallback)),
                        is_yes(field(payload, "active"@)),
                        fresh(shop, m),
                        m,
                    )
                    &&& only_at(shop.db, o.shop.db, "users"@, name)
                    &&& o.shop.sessions == shop.sessions
                    &&& o.shop.source.count == shop.source.count.wrapping_add(1)
                    &&& o.shop.source.process == shop.source.process
                },
            }
        }),
{
    let name = name_asked(payload);
    assert(new_name(payload) == name);
    lemma_own_fields();
    law_found(shop.db, "users"@, name);
    lemma_tells_user(payload, fallback, fresh(shop, m), m);
    law_put(shop.db, "users"@, name, new_user(payload, fallback, fresh(shop, m), m.iso));
    assert(is_user_name(name) == crate::rules::username_shape(name));
}

/// The first user of a shop without users is an active administrator, whatever role the request
/// asks for, written down as the request says.
pub proof fn law_setup_told(shop: ShopView, payload: Json, m: MomentView)
    requires
        in_order(shop.db),
        shop.db.list("users"@).len() == 0,
    ensures
        ({
            let o = setup_admin_outcome(shop, payload, m);
            let name = name_asked(payload);
            if !is_user_name(name) {
                o.reply == Err::<Json, Seq<char>>(
                    "El usuario debe tener al menos 4 digitos numericos"@,
                ) && o.shop == shop
            } else if plain(field(payload, "password"@)).len() < 4 {
                o.reply == Err::<Json, Seq<char>>("La contrasena debe tener al menos 4 caracteres"@)
                    && o.shop == shop
            } else {
                let r = o.shop.db.item("users"@, name)->0;
                &&& o.shop.db.item("users"@, name) is Some
                &&& tells_user(r, payload, "admin"@, true, fresh(shop, m), m)
                &&& answers_user(o, r)
                &&& only_at(shop.db, o.shop.db, "users"@, name)
                &&& o.shop.sessions == shop.sessions
                &&& o.shop.source.count == shop.source.count.wrapping_add(1)
                &&& o.shop.source.process == shop.source.process
            }
        }),
{
    let o = setup_admin_outcome(shop, payload, m);
    let input = as_admin(payload);
    let name = name_asked(payload);
    lemma_user_words();
    lemma_product_words();
    reveal_strlit("password");
    assert("password"@.len() == 8 && "password"@[0] == 'p');
    reveal_strlit("role");
    reveal_strlit("active");
    assert(crate::laws::words::mark("password"@) != crate::laws::words::mark("role"@));
    assert(crate::laws::words::mark("password"@) != crate::laws::words::mark("active"@));
    assert(field(input, "loginCode"@) == field(payload, "loginCode"@));
    assert(field(input, "username"@) == field(payload, "username"@));
    assert(field(input, "password"@) == field(payload, "password"@));
    assert(field(input, "displayName"@) == field(payload, "displayName"@));
    lemma_own_fields();
    law_found(shop.db, "users"@, name);
    lemma_create(shop, input, "admin"@, m);
    if is_user_name(name) {
        assert(payload is Object);
        assert(field(input, "role"@) == Some(Json::Text("admin"@)));
        assert(field(input, "active"@) == Some(Json::Bool(true)));
        reveal_strlit("admin");
        crate::laws::records::lemma_reads("admin"@);
        crate::laws::names::lemma_roles_small("admin"@);
        if plain(field(payload, "password"@)).len() >= 4 {
            let r = o.shop.db.item("users"@, name)->0;
            lemma_answers_user(o.shop, r);
        }
    }
}

// ----- keeping users -----

/// The new password in a request; empty where it gives none.
pub open spec fn password_asked(payload: Json) -> Seq<char> {
    told_or(payload, "newPassword"@, plain(field(payload, "password"@)))
}

/// What is written down of a user that is edited: the name, what it is called, the role and whether
/// it is active are those of the request; with a new password there is a new salt, and without one
/// the old password stays; and all else is as it was.
pub open spec fn tells_edit(r: Json, u: Json, payload: Json, salt: Seq<char>) -> bool {
    let name = plain(field(payload, "username"@));
    let password = password_asked(payload);
    &&& says(r, "username"@, name)
    &&& says(r, "displayName"@, told_or(payload, "displayName"@, name))
    &&& says(r, "role"@, role_for(plain(field(payload, "role"@))))
    &&& field(r, "active"@) == Some(Json::Bool(is_yes(field(payload, "active"@))))
    &&& if password.len() > 0 {
        says(r, "salt"@, salt) && says(r, "passwordHash"@, password_hash(password, salt))
    } else {
        field(r, "salt"@) == field(u, "salt"@) && field(r, "passwordHash"@) == field(
            u,
            "passwordHash"@,
        )
    }
    &&& forall|k: Seq<char>|
        k != "username"@ && k != "displayName"@ && k != "role"@ && k != "active"@ && k != "salt"@
            && k != "passwordHash"@ ==> #[trigger] field(r, k) == field(u, k)
}

proof fn lemma_tells_edit(u: Json, payload: Json, salt: Seq<char>)
    requires
        u is Object,
    ensures
        tells_edit(edited_user(u, payload, salt), u, payload, salt),
{
    lemma_user_words();
    lemma_product_words();
    assert(new_password(payload) == password_asked(payload));
}

/// Saving a user that there is, under the name that is edited. A name that another user has and a
/// new password of less than four characters are refused. Else the user is written down anew and
/// stands under the name of the request alone, no other user changes, and nobody is signed in under
/// the name that was edited any more.
pub proof fn law_user_edited(
    shop: ShopView,
    key: Seq<char>,
    payload: Json,
    m: MomentView,
    user: Json,
    u: Json,
)
    requires
        in_order(shop.db),
        authorized(shop, key, admins(), m.millis) == Ok::<Json, Seq<char>>(user),
        plain(field(payload, "editingUsername"@)).len() > 0,
        shop.db.item("users"@, plain(field(payload, "editingUsername"@))) == Some(u),
        is_user_name(plain(field(payload, "username"@))),
    ensures
        ({
            let o = save_user_outcome(shop, key, payload, m);
            let name = plain(field(payload, "username"@));
            let editing = plain(field(payload, "editingUsername"@));
            let password = password_asked(payload);
            if name != editing && shop.db.item("users"@, name) is Some {
                o.reply == Err::<Json, Seq<char>>("Ese usuario ya existe"@) && o.shop.db == shop.db
            } else if 0 < password.len() < 4 {
                o.reply == Err::<Json, Seq<char>>("La contrasena debe tener al menos 4 caracteres"@)
                    && o.shop.db == shop.db
            } else {
                let r = o.shop.db.item("users"@, name)->0;
                &&& o.shop.db.item("users"@, name) is Some
                &&& tells_edit(r, u, payload, fresh(shop, m))
                &&& answers_user(o, r)
                &&& name != editing ==> o.shop.db.item("users"@, editing) is None
                &&& forall|i: Seq<char>|
                    i != name && i != editing ==> #[trigger] o.shop.db.item("users"@, i)
                        == shop.db.item("users"@, i)
                &&& forall|t: Seq<char>|
                    #[trigger] o.shop.sessions.contains_key(t) <==> touched(
                        shop,
                        key,
                        m.millis,
                    ).sessions.contains_key(t) && shop.sessions[t].username != editing
                &&& forall|t: Seq<char>|
                    #[trigger] o.shop.sessions.contains_key(t) ==> o.shop.sessions[t] == touched(
                        shop,
                        key,
                        m.millis,
                    ).sessions[t]
                &&& o.shop.source.process == shop.source.process
                &&& o.shop.source.count == (if password.len() > 0 {
                    shop.source.count.wrapping_add(1)
                } else {
                    shop.source.count
                })
            }
        }),
{
    let o = save_user_outcome(shop, key, payload, m);
    let now = touched(shop, key, m.millis);
    let name = plain(field(payload, "username"@));
    let editing = plain(field(payload, "editingUsername"@));
    let password = password_asked(payload);
    assert(new_password(payload) == password);
    assert(is_user_name(name) == crate::rules::username_shape(name));
    lemma_own_fields();
    law_found(shop.db, "users"@, editing);
    law_found(shop.db, "users"@, name);
    let salt = fresh(shop, m);
    assert(next_token(now, m) == salt);
    let r = edited_user(u, payload, salt);
    lemma_tells_edit(u, payload, salt);
    law_put(shop.db, "users"@, name, r);
    let put = shop.db.put("users"@, name, r);
    law_delete(put, "users"@, editing);
    lemma_answers_user(o.shop, r);
    if !(name != editing && shop.db.item("users"@, name) is Some) && !(0 < password.len() < 4) {
        assert(o.shop.db.item("users"@, name) == Some(r));
        assert forall|i: Seq<char>| i != name && i != editing implies #[trigger] o.shop.db.item(
            "users"@,
            i,
        ) == shop.db.item("users"@, i) by {
            assert(put.item("users"@, i) == shop.db.item("users"@, i));
        }
    }
}

/// Saving a user that there is not: with a password a new one is made, a cashier where the request
/// names no role, and without one there is nobody to save. A name that is none is refused first.
pub proof fn law_user_made(
    shop: ShopView,
    key: Seq<char>,
    payload: Json,
    m: MomentView,
    user: Json,
)
    requires
        in_order(shop.db),
        authorized(shop, key, admins(), m.millis) == Ok::<Json, Seq<char>>(user),
        plain(field(payload, "editingUsername"@)).len() == 0 || shop.db.item(
            "users"@,
            plain(field(payload, "editingUsername"@)),
        ) is None,
    ensures
        ({
            let o = save_user_outcome(shop, key, payload, m);
            let name = name_asked(payload);
            if !is_user_name(plain(field(payload, "username"@))) {
                o.reply == Err::<Json, Seq<char>>(
                    "El usuario debe tener al menos 4 digitos numericos"@,
                ) && o.shop.db == shop.db
            } else if plain(field(payload, "password"@)).len() == 0 {
                o.reply == Err::<Json, Seq<char>>("Usuario no encontrado"@) && o.shop.db == shop.db
            } else {
                match new_user_refused(shop.db, payload) {
                    Some(why) => o.reply == Err::<Json, Seq<char>>(why) && o.shop.db == shop.db,
                    None => {
                        let r = o.shop.db.item("users"@, name)->0;
                        &&& o.shop.db.item("users"@, name) is Some
                        &&& tells_user(
                            r,
                            payload,
                            role_for(told_or(payload, "role"@, "cajero"@)),
                            is_yes(field(payload, "active"@)),
                            fresh(shop, m),
                            m,
                        )
                        &&& answers_user(o, r)
                        &&& only_at(shop.db, o.shop.db, "users"@, name)
                        &&& o.shop.sessions == touched(shop, key, m.millis).sessions
                        &&& o.shop.source.count == shop.source.count.wrapping_add(1)
                        &&& o.shop.source.process == shop.source.process
                    },
                }
            }
        }),
{
    let o = save_user_outcome(shop, key, payload, m);
    let now = touched(shop, key, m.millis);
    let editing = plain(field(payload, "editingUsername"@));
    let name = plain(field(payload, "username"@));
    assert(is_user_name(name) == crate::rules::username_shape(name));
    lemma_own_fields();
    law_found(shop.db, "users"@, editing);
    lemma_create(now, payload, "cajero"@, m);
    assert(fresh(now, m) == fresh(shop, m));
    if is_user_name(name) && plain(field(payload, "password"@)).len() > 0 && new_user_refused(
        shop.db,
        payload,
    ) is None {
        lemma_answers_user(o.shop, o.shop.db.item("users"@, name_asked(payload))->0);
    }
}

/// An empty user name is refused, whoever is edited.
pub proof fn law_user_needs_name(
    shop: ShopView,
    key: Seq<char>,
    payload: Json,
    m: MomentView,
    user: Json,
)
    requires
        authorized(shop, key, admins(), m.millis) == Ok::<Json, Seq<char>>(user),
        !is_user_name(plain(field(payload, "username"@))),
    ensures
        save_user_outcome(shop, key, payload, m).reply == Err::<Json, Seq<char>>(
            "El usuario debe tener al menos 4 digitos numericos"@,
        ),
        save_user_outcome(shop, key, payload, m).shop.db == shop.db,
{
    let name = plain(field(payload, "username"@));
    assert(is_user_name(name) == crate::rules::username_shape(name));
}

/// A user that is deleted is gone, and so are the sessions under that name; nothing else changes. No
/// name, and the name of the user that asks, are refused.
pub proof fn law_user_deleted(shop: ShopView, key: Seq<char>, payload: Json, now: i64, user: Json)
    requires
        authorized(shop, key, admins(), now) == Ok::<Json, Seq<char>>(user),
    ensures
        ({
            let o = delete_user_outcome(shop, key, payload, now);
            let name = plain(field(payload, "username"@));
            let used = touched(shop, key, now).sessions;
            if name.len() == 0 {
                o.reply == Err::<Json, Seq<char>>("Falta usuario"@) && o.shop.db == shop.db
            } else if name == plain(field(user, "username"@)) {
                o.reply == Err::<Json, Seq<char>>("No puedes eliminar el usuario activo"@)
                    && o.shop.db == shop.db
            } else {
                &&& o.reply == Ok::<Json, Seq<char>>(Json::Object(map!["ok"@ => Json::Bool(true)]))
                &&& o.shop.db.item("users"@, name) is None
                &&& only_at(shop.db, o.shop.db, "users"@, name)
                &&& forall|t: Seq<char>|
                    #[trigger] o.shop.sessions.contains_key(t) <==> used.contains_key(t)
                        && used[t].username != name
                &&& forall|t: Seq<char>|
                    #[trigger] o.shop.sessions.contains_key(t) ==> o.shop.sessions[t] == used[t]
                &&& o.shop.source == shop.source
            }
        }),
{
    law_delete(shop.db, "users"@, plain(field(payload, "username"@)));
    assert(crate::reply::yes() =~= map!["ok"@ => Json::Bool(true)]);
}

// ----- signing in -----

/// Whether a password is that of a user: with the salt it gives the hash that is kept.
pub open spec fn knows(u: Json, password: Seq<char>) -> bool {
    password_hash(password, plain(field(u, "salt"@))) == plain(field(u, "passwordHash"@))
}

/// Whether a name and a password are those of an active user.
pub open spec fn is_let_in(db: StoreView, name: Seq<char>, password: Seq<char>) -> bool {
    db.item("users"@, name) matches Some(u) && in_force(u) && knows(u, password)
}

/// The code that a request shows.
pub open spec fn code_shown(payload: Json) -> Seq<char> {
    told_or(payload, "code"@, told_or(payload, "loginCode"@, plain(field(payload, "pin"@))))
}

/// The name that a request shows, or else the code.
pub open spec fn name_shown(payload: Json) -> Seq<char> {
    told_or(payload, "username"@, code_shown(payload))
}

/// The password that a request shows, or else the code.
pub open spec fn password_shown(payload: Json) -> Seq<char> {
    told_or(payload, "password"@, code_shown(payload))
}

/// The single key that a request may be: the code, or a name that is also the password.
pub open spec fn key_shown(payload: Json) -> Seq<char> {
    if code_shown(payload).len() > 0 {
        code_shown(payload)
    } else if name_shown(payload) == password_shown(payload) {
        name_shown(payload)
    } else {
        Seq::empty()
    }
}

/// Whether the user at a place is active and has a key as the password.
pub open spec fn has_key(users: Seq<Json>, i: int, key: Seq<char>) -> bool {
    0 <= i < users.len() && in_force(users[i]) && knows(users[i], key)
}

/// Whether the user at a place is the only one that is active and has a key as the password.
pub open spec fn only_key(users: Seq<Json>, i: int, key: Seq<char>) -> bool {
    has_key(users, i, key) && forall|j: int| #[trigger] has_key(users, j, key) ==> j == i
}

proof fn lemma_claim(payload: Json)
    ensures
        claimed(payload).code == code_shown(payload),
        claimed(payload).username == name_shown(payload),
        claimed(payload).password == password_shown(payload),
        single_key(claimed(payload)) == key_shown(payload),
{
    let keys = seq!["code"@, "loginCode"@, "pin"@];
    assert(keys.skip(1) =~= seq!["loginCode"@, "pin"@]);
    assert(keys.skip(1).skip(1) =~= seq!["pin"@]);
    assert(keys.skip(1).skip(1).skip(1) =~= Seq::empty());
    reveal_with_fuel(crate::json::first_plain, 4);
    let p = plain(field(payload, "pin"@));
    assert(p.len() == 0 ==> p =~= Seq::empty());
}

proof fn lemma_let_in(db: StoreView, name: Seq<char>, password: Seq<char>)
    requires
        in_order(db),
    ensures
        lets_in(db.list("users"@), name, password) == is_let_in(db, name, password),
        is_let_in(db, name, password) ==> 0 <= first_user(db.list("users"@), name) < db.list(
            "users"@,
        ).len() && db.item("users"@, name) == Some(
            db.list("users"@)[first_user(db.list("users"@), name)],
        ),
{
    lemma_by_name(db, name);
}

/// Where one place is true, something is counted.
proof fn lemma_one_counted(bs: Seq<bool>, i: int)
    requires
        0 <= i < bs.len(),
        bs[i],
    ensures
        count_true(bs) >= 1,
    decreases bs.len(),
{
    if i < bs.len() - 1 {
        lemma_one_counted(bs.drop_last(), i);
    }
}

/// Where two places are true, more than one is counted.
proof fn lemma_two_counted(bs: Seq<bool>, i: int, j: int)
    requires
        0 <= i < j < bs.len(),
        bs[i],
        bs[j],
    ensures
        count_true(bs) >= 2,
    decreases bs.len(),
{
    if j < bs.len() - 1 {
        lemma_two_counted(bs.drop_last(), i, j);
    } else {
        lemma_one_counted(bs.drop_last(), i);
    }
}

/// Where no place but one is true, no more than that is counted.
proof fn lemma_no_more_counted(bs: Seq<bool>, i: int)
    requires
        forall|j: int| 0 <= j < bs.len() && j != i ==> !#[trigger] bs[j],
    ensures
        count_true(bs) <= 1,
        !(0 <= i < bs.len()) ==> count_true(bs) == 0,
    decreases bs.len(),
{
    if bs.len() > 0 {
        let before = bs.drop_last();
        let last: int = bs.len() - 1;
        assert forall|j: int| 0 <= j < before.len() && j != i implies !#[trigger] before[j] by {
            assert(before[j] == bs[j]);
        }
        lemma_no_more_counted(before, i);
        assert(last != i ==> !bs[last]);
    }
}

/// The users with a key, counted and one by one.
proof fn lemma_keys(users: Seq<Json>, key: Seq<char>)
    ensures
        count_true(keyholders(users, key)) == 0 <==> forall|i: int| !#[trigger] has_key(users, i, key),
        count_true(keyholders(users, key)) == 1 <==> exists|i: int| #[trigger] only_key(users, i, key),
        forall|i: int| #[trigger] only_key(users, i, key) ==> first_true(keyholders(users, key)) == i,
{
    let bs = keyholders(users, key);
    let first = first_true(bs);
    assert forall|i: int| 0 <= i < users.len() implies #[trigger] bs[i] == has_key(users, i, key) by {}
    lemma_first_true(bs);
    if first == bs.len() {
        assert forall|i: int| !#[trigger] has_key(users, i, key) by {
            if 0 <= i < users.len() {
                assert(!bs[i]);
            }
        }
        lemma_no_more_counted(bs, -1);
    } else {
        assert(has_key(users, first, key));
        lemma_one_counted(bs, first);
        if count_true(bs) == 1 {
            assert forall|j: int| #[trigger] has_key(users, j, key) implies j == first by {
                assert(bs[j]);
                if j > first {
                    lemma_two_counted(bs, first, j);
                }
            }
            assert(only_key(users, first, key));
        }
    }
    assert forall|i: int| #[trigger] only_key(users, i, key) implies first == i && count_true(bs)
        == 1 by {
        assert(bs[i]);
        assert forall|j: int| 0 <= j < bs.len() && j != i implies !#[trigger] bs[j] by {
            assert(!has_key(users, j, key));
        }
        lemma_first(bs, i);
        lemma_no_more_counted(bs, i);
    }
}

/// Whether somebody was let in under a name: there is a new session under a new token, which runs
/// for fourteen hours; the moment is noted with the user, of whom nothing else changes, and with no
/// other; and the answer shows the token and the user.
pub open spec fn was_let_in(
    shop: ShopView,
    o: Outcome,
    name: Seq<char>,
    m: MomentView,
) -> bool {
    let u = shop.db.item("users"@, name);
    let after = o.shop.db.item("users"@, name);
    &&& u is Some
    &&& after is Some
    &&& says(after->0, "lastLogin"@, m.iso)
    &&& forall|k: Seq<char>|
        k != "lastLogin"@ ==> #[trigger] field(after->0, k) == field(u->0, k)
    &&& only_at(shop.db, o.shop.db, "users"@, name)
    &&& o.shop.sessions == shop.sessions.insert(
        fresh(shop, m),
        SessionView { username: name, expires_at: m.millis.wrapping_add(50_400_000) },
    )
    &&& o.shop.source.count == shop.source.count.wrapping_add(1)
    &&& o.shop.source.process == shop.source.process
    &&& o.reply is Ok
    &&& field(o.reply->Ok_0, "ok"@) == Some(Json::Bool(true))
    &&& says(o.reply->Ok_0, "sessionToken"@, fresh(shop, m))
    &&& field(o.reply->Ok_0, "user"@) is Some
    &&& shows_user(field(o.reply->Ok_0, "user"@)->0, after->0)
    &&& o.reply->Ok_0->Object_0.dom() == set!["ok"@, "sessionToken"@, "user"@]
}

proof fn lemma_was_let_in(shop: ShopView, name: Seq<char>, m: MomentView, u: Json)
    requires
        in_order(shop.db),
        shop.db.item("users"@, name) == Some(u),
    ensures
        was_let_in(shop, admitted(shop, u, name, m), name, m),
{
    let o = admitted(shop, u, name, m);
    let patch = Json::Object(Map::empty().insert("lastLogin"@, Json::Text(m.iso)));
    lemma_own_fields();
    law_found(shop.db, "users"@, name);
    law_patch(shop.db, "users"@, name, patch, u);
    law_put(shop.db, "users"@, name, crate::store::merged(u, patch));
    let after = o.shop.db.item("users"@, name)->0;
    let shown = crate::json::set_in(u, "lastLogin"@, Json::Text(m.iso));
    assert(after == crate::store::merged(u, patch));
    assert(after->Object_0 =~= shown->Object_0);
    law_shows_user(after);
    lemma_reply_words();
    lemma_stock_words();
    assert(patch->Object_0.dom() =~= set!["lastLogin"@]);
    assert(o.reply->Ok_0->Object_0.dom() =~= set!["ok"@, "sessionToken"@, "user"@]);
}

/// Who is let in: whoever the name and the password stand for; or else the two exchanged; or else
/// the code as both; or else, with a single key, the only active user that has it as the password.
/// Where several have it, and where nobody is let in, the answer says so and nothing changes.
pub proof fn law_login_told(shop: ShopView, payload: Json, m: MomentView)
    requires
        in_order(shop.db),
    ensures
        ({
            let o = login_outcome(shop, payload, m);
            let users = shop.db.list("users"@);
            let name = name_shown(payload);
            let password = password_shown(payload);
            let code = code_shown(payload);
            let key = key_shown(payload);
            if is_let_in(shop.db, name, password) {
                was_let_in(shop, o, name, m)
            } else if is_let_in(shop.db, password, name) {
                was_let_in(shop, o, password, m)
            } else if code.len() > 0 && is_let_in(shop.db, code, code) {
                was_let_in(shop, o, code, m)
            } else if key.len() == 0 || (forall|i: int| !#[trigger] has_key(users, i, key)) {
                &&& o.shop == shop
                &&& o.reply == Ok::<Json, Seq<char>>(
                    Json::Object(
                        map![
                            "ok"@ => Json::Bool(false),
                            "error"@ => Json::Text("Usuario o contrasena incorrectos"@),
                        ],
                    ),
                )
            } else if exists|i: int| #[trigger] only_key(users, i, key) {
                forall|i: int| #[trigger]
                    only_key(users, i, key) ==> was_let_in(
                        shop,
                        o,
                        plain(field(users[i], "username"@)),
                        m,
                    )
            } else {
                &&& o.shop == shop
                &&& o.reply == Ok::<Json, Seq<char>>(
                    Json::Object(
                        map![
                            "ok"@ => Json::Bool(false),
                            "error"@ => Json::Text(
                                "Clave duplicada. Cambia una de las claves desde Usuarios."@,
                            ),
                        ],
                    ),
                )
            }
        }),
{
    let users = shop.db.list("users"@);
    let name = name_shown(payload);
    let password = password_shown(payload);
    let code = code_shown(payload);
    let key = key_shown(payload);
    lemma_claim(payload);
    lemma_let_in(shop.db, name, password);
    lemma_let_in(shop.db, password, name);
    lemma_let_in(shop.db, code, code);
    lemma_keys(users, key);
    lemma_refusal("Usuario o contrasena incorrectos"@);
    lemma_refusal("Clave duplicada. Cambia una de las claves desde Usuarios."@);
    if is_let_in(shop.db, name, password) {
        lemma_was_let_in(shop, name, m, shop.db.item("users"@, name)->0);
    } else if is_let_in(shop.db, password, name) {
        lemma_was_let_in(shop, password, m, shop.db.item("users"@, password)->0);
    } else if code.len() > 0 && is_let_in(shop.db, code, code) {
        lemma_was_let_in(shop, code, m, shop.db.item("users"@, code)->0);
    } else if key.len() > 0 && exists|i: int| #[trigger] only_key(users, i, key) {
        assert forall|i: int| #[trigger] only_key(users, i, key) implies was_let_in(
            shop,
            login_outcome(shop, payload, m),
            plain(field(users[i], "username"@)),
            m,
        ) by {
            lemma_own_fields();
            lemma_named(shop.db, "users"@, i);
            lemma_was_let_in(shop, plain(field(users[i], "username"@)), m, users[i]);
        }
    }
}

/// Who counts as a supervisor: whoever the name and the password of a request stand for, or else,
/// with a single key, the only active user that has it as the password; and only an administrator
/// or a manager.
pub proof fn law_supervisor_told(db: StoreView, input: Json)
    requires
        in_order(db),
    ensures
        ({
            let found = supervisor(db.list("users"@), input);
            let users = db.list("users"@);
            let name = name_shown(input);
            let key = key_shown(input);
            if is_let_in(db, name, password_shown(input)) {
                found == as_supervisor(db.item("users"@, name)->0)
            } else if key.len() > 0 && exists|i: int| #[trigger] only_key(users, i, key) {
                forall|i: int| #[trigger]
                    only_key(users, i, key) ==> found == as_supervisor(users[i])
            } else {
                found == Err::<Json, Seq<char>>("Permiso superior incorrecto"@)
            }
        }),
{
    let users = db.list("users"@);
    lemma_claim(input);
    lemma_let_in(db, name_shown(input), password_shown(input));
    lemma_keys(users, key_shown(input));
    assert(managers()[0] == "admin"@ && managers()[1] == "encargado"@);
    lemma_by_name(db, name_shown(input));
}

/// A user as a supervisor, if it may be one.
pub open spec fn as_supervisor(u: Json) -> Result<Json, Seq<char>> {
    if plain(field(u, "role"@)) == "admin"@ || plain(field(u, "role"@)) == "encargado"@ {
        Ok(u)
    } else {
        Err("Ese usuario no tiene permiso superior"@)
    }
}

} // verus!
