//! Users: who may sign in, who is signed in, and who may do what.

use crate::json::{clean_text, field, plain, Json, Value};
use crate::lists::{find_user, first_user};
use crate::reply::answer;
use crate::sessions::{Session, SessionView, Sessions};
use crate::shop::{Shop, ShopView};
use crate::store::{list_items, Store};
use crate::text::same_text;
use vstd::prelude::*;

verus! {

/// How long a session counts after it was used: fourteen hours, in milliseconds.
pub const SESSION_MILLIS: i64 = 50_400_000;

// ----- who is signed in -----

/// The user that a token stands for at a moment, or why it stands for none.
pub open spec fn signed_in(
    users: Seq<Json>,
    sessions: Map<Seq<char>, SessionView>,
    token: Seq<char>,
    now: i64,
) -> Result<Json, Seq<char>> {
    if !(sessions.contains_key(token) && sessions[token].expires_at >= now) {
        Err("Sesion expirada"@)
    } else {
        let i = first_user(users, sessions[token].username);
        if i < users.len() {
            Ok(users[i])
        } else {
            Err("Usuario inactivo"@)
        }
    }
}

/// The sessions after a token was used: one that stands for a user counts anew.
pub open spec fn renewed(
    users: Seq<Json>,
    sessions: Map<Seq<char>, SessionView>,
    token: Seq<char>,
    now: i64,
) -> Map<Seq<char>, SessionView> {
    if signed_in(users, sessions, token, now) is Ok {
        sessions.insert(
            token,
            SessionView {
                username: sessions[token].username,
                expires_at: now.wrapping_add(SESSION_MILLIS),
            },
        )
    } else {
        sessions
    }
}

/// The user that a token stands for at the moment `now`. Where none is required, a token that
/// stands for nobody is no error.
pub fn current_user_at(
    required: bool,
    db: &Store,
    sessions: &mut Sessions,
    token: &str,
    now: i64,
) -> (r: Result<Option<Value>, String>)
    requires
        old(sessions).wf(),
    ensures
        final(sessions).wf(),
        final(sessions)@ == renewed(db@.list("users"@), old(sessions)@, token@, now),
        match signed_in(db@.list("users"@), old(sessions)@, token@, now) {
            Ok(u) => r matches Ok(Some(v)) && v@ == u,
            Err(why) => if required {
                r matches Err(e) && e@ == why
            } else {
                r matches Ok(None)
            },
        },
{
    let found: Option<Session> = sessions.get(token);
    if let Some(session) = found {
        if session.expires_at >= now {
            let users: Vec<Value> = list_items(db, "users");
            return match find_user(&users, session.username.as_str()) {
                Some(i) => {
                    let longer: Session = Session {
                        username: session.username,
                        expires_at: now.wrapping_add(SESSION_MILLIS),
                    };
                    sessions.insert(token, longer);
                    Ok(Some(users[i].copy()))
                },
                None => if required {
                    Err("Usuario inactivo".to_owned())
                } else {
                    Ok(None)
                },
            };
        }
    }
    if required {
        Err("Sesion expirada".to_owned())
    } else {
        Ok(None)
    }
}

/// The user that a token stands for now.
pub fn current_user(
    required: bool,
    db: &Store,
    sessions: &mut Sessions,
    token: &str,
) -> (r: Result<Option<Value>, String>)
    requires
        old(sessions).wf(),
    ensures
        final(sessions).wf(),
        exists|now: i64|
            {
                &&& final(sessions)@ == #[trigger] renewed(
                    db@.list("users"@),
                    old(sessions)@,
                    token@,
                    now,
                )
                &&& match signed_in(db@.list("users"@), old(sessions)@, token@, now) {
                    Ok(u) => r matches Ok(Some(v)) && v@ == u,
                    Err(why) => if required {
                        r matches Err(e) && e@ == why
                    } else {
                        r matches Ok(None)
                    },
                }
            },
{
    let now: i64 = crate::clock::now_millis();
    current_user_at(required, db, sessions, token, now)
}

// ----- who may do what -----

/// The names in a list.
pub open spec fn names(list: Seq<&str>) -> Seq<Seq<char>> {
    list.map_values(|s: &str| s@)
}

/// The role of a user.
pub open spec fn role_of(u: Json) -> Seq<char> {
    plain(field(u, "role"@))
}

/// Those who may do everything.
pub open spec fn admins() -> Seq<Seq<char>> {
    seq!["admin"@]
}

/// Those who may keep the catalogues, the products and the stock.
pub open spec fn managers() -> Seq<Seq<char>> {
    seq!["admin"@, "encargado"@]
}

/// Those who may sell.
pub open spec fn staff() -> Seq<Seq<char>> {
    seq!["admin"@, "encargado"@, "cajero"@]
}

/// Fails unless the user has one of the roles.
pub fn assert_role(user: &Value, roles: &[&str]) -> (r: Result<(), String>)
    ensures
        match r {
            Ok(_) => names(roles@).contains(role_of(user@)),
            Err(e) => e@ == "No autorizado"@ && !names(roles@).contains(role_of(user@)),
        },
{
    let role: String = clean_text(user.get("role"));
    let mut i: usize = 0;
    while i < roles.len()
        invariant
            i <= roles@.len(),
            role@ == role_of(user@),
            forall|j: int| 0 <= j < i ==> #[trigger] names(roles@)[j] != role@,
        decreases roles@.len() - i,
    {
        if same_text(roles[i], role.as_str()) {
            assert(names(roles@)[i as int] == role@);
            return Ok(());
        }
        i = i + 1;
    }
    Err("No autorizado".to_owned())
}

/// The user that a token stands for, if it has one of the roles.
pub open spec fn authorized(
    shop: ShopView,
    token: Seq<char>,
    roles: Seq<Seq<char>>,
    now: i64,
) -> Result<Json, Seq<char>> {
    match signed_in(shop.db.list("users"@), shop.sessions, token, now) {
        Err(why) => Err(why),
        Ok(u) => if roles.contains(role_of(u)) {
            Ok(u)
        } else {
            Err("No autorizado"@)
        },
    }
}

/// The shop after a token was used.
pub open spec fn touched(shop: ShopView, token: Seq<char>, now: i64) -> ShopView {
    shop.with_sessions(renewed(shop.db.list("users"@), shop.sessions, token, now))
}

/// The user that a token stands for, if it has one of the roles.
pub fn authorize(shop: &mut Shop, token: &str, roles: &[&str], now: i64) -> (r: Result<
    Value,
    String,
>)
    requires
        old(shop).wf(),
    ensures
        final(shop).wf(),
        final(shop)@ == touched(old(shop)@, token@, now),
        answer(r) == authorized(old(shop)@, token@, names(roles@), now),
{
    match current_user_at(true, &shop.db, &mut shop.sessions, token, now) {
        Ok(Some(user)) => match assert_role(&user, roles) {
            Ok(_) => Ok(user),
            Err(e) => Err(e),
        },
        Ok(None) => Err("Sesion expirada".to_owned()),
        Err(e) => Err(e),
    }
}

} // verus!
