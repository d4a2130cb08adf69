//! The operations on accounts: the first administrator, signing in and out, keeping users.

use crate::clock::{counted, moment_shape, token, Moment, MomentView};
use crate::json::{
    clean_text, field, first_nonempty, first_plain, from_fields, from_text, jsons, no_fields,
    not_false, or_else, plain, put_field, set_in, text_or, truth_or_missing, truthy_or_missing,
    with_field, Json, Value,
};
use crate::lists::{
    any_with, count_true, find_user, find_with, first_true, first_user, first_with, has_with,
    is_active, lemma_first,
};
use crate::reply::{answer, refusal, refuse, yes, yes_fields};
use crate::rules::{
    hash_password, is_username, normalize_role, password_hash, role_named, username_shape,
};
use crate::sessions::{without_user, Session, SessionView};
use crate::shop::{outcome, Outcome, Shop, ShopView};
use crate::store::{create_item, delete_item, list_items, patch_item};
use crate::text::{has_length, same_text};
use crate::users::{
    admins, assert_role, authorize, authorized, managers, names, role_of, touched, SESSION_MILLIS,
};
use vstd::prelude::*;

verus! {

// ----- users as others see them -----

/// What others see of a user.
pub open spec fn public_view(u: Json) -> Json {
    Json::Object(
        Map::empty()
            .insert("username"@, Json::Text(plain(field(u, "username"@))))
            .insert("displayName"@, Json::Text(plain(field(u, "displayName"@))))
            .insert("role"@, Json::Text(plain(field(u, "role"@))))
            .insert("active"@, Json::Bool(is_active(u)))
            .insert("createdAt"@, Json::Text(plain(field(u, "createdAt"@))))
            .insert("lastLogin"@, Json::Text(plain(field(u, "lastLogin"@)))),
    )
}

/// What others see of a user.
pub fn public_user(u: &Value) -> (r: Value)
    ensures
        r@ == public_view(u@),
{
    let mut es: Vec<(String, Value)> = no_fields();
    put_field(&mut es, "username", Value::Text(clean_text(u.get("username"))));
    put_field(&mut es, "displayName", Value::Text(clean_text(u.get("displayName"))));
    put_field(&mut es, "role", Value::Text(clean_text(u.get("role"))));
    put_field(&mut es, "active", Value::Bool(not_false(u.get("active"))));
    put_field(&mut es, "createdAt", Value::Text(clean_text(u.get("createdAt"))));
    put_field(&mut es, "lastLogin", Value::Text(clean_text(u.get("lastLogin"))));
    from_fields(es)
}

// ----- new users -----

/// The name that a new user asks for.
pub open spec fn new_name(input: Json) -> Seq<char> {
    or_else(plain(field(input, "loginCode"@)), plain(field(input, "username"@)))
}

/// Why a new user is refused, if it is.
pub open spec fn new_user_fault(users: Seq<Json>, input: Json) -> Option<Seq<char>> {
    if !username_shape(new_name(input)) {
        Some("El usuario debe tener al menos 4 digitos numericos"@)
    } else if plain(field(input, "password"@)).len() < 4 {
        Some("La contrasena debe tener al menos 4 caracteres"@)
    } else if any_with(users, "username"@, new_name(input)) {
        Some("Ese usuario ya existe"@)
    } else {
        None
    }
}

/// The record of a new user.
pub open spec fn new_user(
    input: Json,
    fallback: Seq<char>,
    salt: Seq<char>,
    created: Seq<char>,
) -> Json {
    let name = new_name(input);
    Json::Object(
        Map::empty()
            .insert("username"@, Json::Text(name))
            .insert("displayName"@, Json::Text(or_else(plain(field(input, "displayName"@)), name)))
            .insert(
                "passwordHash"@,
                Json::Text(password_hash(plain(field(input, "password"@)), salt)),
            )
            .insert("salt"@, Json::Text(salt))
            .insert(
                "role"@,
                Json::Text(role_named(or_else(plain(field(input, "role"@)), fallback))),
            )
            .insert("pin"@, Json::Text(""@))
            .insert("active"@, Json::Bool(truth_or_missing(field(input, "active"@))))
            .insert("createdAt"@, Json::Text(created))
            .insert("lastLogin"@, Json::Text(""@)),
    )
}

/// The text that the source of a shop gives at a moment.
pub open spec fn next_token(shop: ShopView, m: MomentView) -> Seq<char> {
    token(m.nanos, shop.source.count, shop.source.process)
}

/// Making a new user.
pub open spec fn create_user_outcome(
    shop: ShopView,
    input: Json,
    fallback: Seq<char>,
    m: MomentView,
) -> Outcome {
    match new_user_fault(shop.db.list("users"@), input) {
        Some(why) => shop.fails(why),
        None => {
            let record = new_user(input, fallback, next_token(shop, m), m.iso);
            shop.with_source(counted(shop.source)).with_db(
                shop.db.put("users"@, new_name(input), record),
            ).says(public_view(record))
        },
    }
}

/// Makes a new user at a moment.
pub fn create_user_record_at(
    shop: &mut Shop,
    input: &Value,
    role_fallback: &str,
    m: &Moment,
) -> (r: Result<Value, String>)
    requires
        old(shop).wf(),
    ensures
        final(shop).wf(),
        outcome(*final(shop), r) == create_user_outcome(
            old(shop)@,
            input@,
            role_fallback@,
            m@,
        ),
{
    let code: String = clean_text(input.get("loginCode"));
    let username: String = text_or(code, clean_text(input.get("username")).as_str());
    let password: String = clean_text(input.get("password"));
    if !is_username(username.as_str()) {
        return Err("El usuario debe tener al menos 4 digitos numericos".to_owned());
    }
    if !has_length(password.as_str(), 4) {
        return Err("La contrasena debe tener al menos 4 caracteres".to_owned());
    }
    let users: Vec<Value> = list_items(&shop.db, "users");
    if has_with(&users, "username", username.as_str()) {
        return Err("Ese usuario ya existe".to_owned());
    }
    let salt: String = shop.source.text_at(m.nanos);
    let display: String = text_or(clean_text(input.get("displayName")), username.as_str());
    let role: String = text_or(clean_text(input.get("role")), role_fallback);
    let active: bool = truthy_or_missing(input.get("active"));
    let hash: String = hash_password(password.as_str(), salt.as_str());
    let mut es: Vec<(String, Value)> = no_fields();
    put_field(&mut es, "username", from_text(username.as_str()));
    put_field(&mut es, "displayName", Value::Text(display));
    put_field(&mut es, "passwordHash", Value::Text(hash));
    put_field(&mut es, "salt", Value::Text(salt));
    put_field(&mut es, "role", Value::Text(normalize_role(role.as_str())));
    put_field(&mut es, "pin", from_text(""));
    put_field(&mut es, "active", Value::Bool(active));
    put_field(&mut es, "createdAt", from_text(m.iso.as_str()));
    put_field(&mut es, "lastLogin", from_text(""));
    let record: Value = from_fields(es);
    create_item(&mut shop.db, "users", username.as_str(), &record);
    Ok(public_user(&record))
}

/// Makes a new user.
pub fn create_user_record(shop: &mut Shop, input: &Value, role_fallback: &str) -> (r: Result<
    Value,
    String,
>)
    requires
        old(shop).wf(),
    ensures
        final(shop).wf(),
        exists|m: MomentView|
            moment_shape(m.iso) && outcome(*final(shop), r) == #[trigger] create_user_outcome(
                old(shop)@,
                input@,
                role_fallback@,
                m,
            ),
{
    let m: Moment = Moment::now();
    create_user_record_at(shop, input, role_fallback, &m)
}

/// What is asked for the first user: an active administrator.
pub open spec fn as_admin(payload: Json) -> Json {
    set_in(set_in(payload, "role"@, Json::Text("admin"@)), "active"@, Json::Bool(true))
}

/// An answer that says yes and names a user.
pub open spec fn with_user(o: Outcome) -> Outcome {
    match o.reply {
        Ok(u) => o.shop.says(Json::Object(yes().insert("user"@, u))),
        Err(why) => o,
    }
}

/// Making the first administrator.
pub open spec fn setup_admin_outcome(shop: ShopView, payload: Json, m: MomentView) -> Outcome {
    if shop.db.list("users"@).len() > 0 {
        shop.says(refusal("La tienda ya tiene usuarios configurados"@))
    } else {
        with_user(create_user_outcome(shop, as_admin(payload), "admin"@, m))
    }
}

fn user_answer(made: Result<Value, String>) -> (r: Result<Value, String>)
    ensures
        answer(r) == match answer(made) {
            Ok(u) => Ok::<Json, Seq<char>>(Json::Object(yes().insert("user"@, u))),
            Err(why) => Err(why),
        },
{
    match made {
        Ok(u) => {
            let mut es: Vec<(String, Value)> = yes_fields();
            put_field(&mut es, "user", u);
            Ok(from_fields(es))
        },
        Err(e) => Err(e),
    }
}

/// Makes the first administrator, at a moment.
pub fn op_setup_admin_at(shop: &mut Shop, payload: &Value, m: &Moment) -> (r: Result<
    Value,
    String,
>)
    requires
        old(shop).wf(),
    ensures
        final(shop).wf(),
        outcome(*final(shop), r) == setup_admin_outcome(old(shop)@, payload@, m@),
{
    let users: Vec<Value> = list_items(&shop.db, "users");
    if users.len() > 0 {
        return Ok(refuse("La tienda ya tiene usuarios configurados"));
    }
    let input: Value = with_field(
        with_field(payload.copy(), "role", from_text("admin")),
        "active",
        Value::Bool(true),
    );
    let made: Result<Value, String> = create_user_record_at(shop, &input, "admin", m);
    user_answer(made)
}

/// Makes the first administrator.
pub fn op_setup_admin(shop: &mut Shop, payload: &Value) -> (r: Result<Value, String>)
    requires
        old(shop).wf(),
    ensures
        final(shop).wf(),
        exists|m: MomentView|
            moment_shape(m.iso) && outcome(*final(shop), r) == #[trigger] setup_admin_outcome(
                old(shop)@,
                payload@,
                m,
            ),
{
    let m: Moment = Moment::now();
    op_setup_admin_at(shop, payload, &m)
}

// ----- signing in -----

/// What somebody shows to be let in.
pub struct Claim {
    pub code: String,
    pub username: String,
    pub password: String,
}

/// What a `Claim` stands for.
pub struct ClaimView {
    pub code: Seq<char>,
    pub username: Seq<char>,
    pub password: Seq<char>,
}

impl View for Claim {
    type V = ClaimView;

    open spec fn view(&self) -> ClaimView {
        ClaimView { code: self.code@, username: self.username@, password: self.password@ }
    }
}

/// What a request shows: a code, and a name and a password, for which the code stands where they
/// are empty.
pub open spec fn claimed(input: Json) -> ClaimView {
    let code = first_plain(input, seq!["code"@, "loginCode"@, "pin"@]);
    ClaimView {
        code,
        username: or_else(plain(field(input, "username"@)), code),
        password: or_else(plain(field(input, "password"@)), code),
    }
}

/// What a request shows.
fn claim_of(input: &Value) -> (r: Claim)
    ensures
        r@ == claimed(input@),
{
    let keys: [&str; 3] = ["code", "loginCode", "pin"];
    let code: String = first_nonempty(input, keys.as_slice());
    proof {
        assert(keys@.map_values(|k: &str| k@) =~= seq!["code"@, "loginCode"@, "pin"@]);
    }
    let username: String = text_or(clean_text(input.get("username")), code.as_str());
    let password: String = text_or(clean_text(input.get("password")), code.as_str());
    Claim { code, username, password }
}

/// Whether a password is that of a user.
pub open spec fn opens(u: Json, password: Seq<char>) -> bool {
    password_hash(password, plain(field(u, "salt"@))) == plain(field(u, "passwordHash"@))
}

/// Whether a password is that of a user.
fn opens_user(u: &Value, password: &str) -> (r: bool)
    ensures
        r == opens(u@, password@),
{
    let salt: String = clean_text(u.get("salt"));
    let hash: String = clean_text(u.get("passwordHash"));
    same_text(hash_password(password, salt.as_str()).as_str(), hash.as_str())
}

/// The single key that a claim may be: the code, or a name that is also the password.
pub open spec fn single_key(c: ClaimView) -> Seq<char> {
    if c.code.len() > 0 {
        c.code
    } else if c.username == c.password {
        c.username
    } else {
        Seq::empty()
    }
}

/// The single key that a claim may be.
fn key_of(c: &Claim) -> (r: String)
    ensures
        r@ == single_key(c@),
{
    if !c.code.as_str().is_empty() {
        c.code.clone()
    } else if same_text(c.username.as_str(), c.password.as_str()) {
        c.username.clone()
    } else {
        String::new()
    }
}

/// Which users are active and have a key as their password.
pub open spec fn keyholders(users: Seq<Json>, key: Seq<char>) -> Seq<bool> {
    users.map_values(|u: Json| is_active(u) && opens(u, key))
}

/// The number of users that are active and have a key as their password, and the first of them.
fn find_keyholders(users: &Vec<Value>, key: &str) -> (r: (usize, usize))
    ensures
        r.0 == count_true(keyholders(jsons(users@), key@)),
        r.1 == first_true(keyholders(jsons(users@), key@)),
        r.0 > 0 ==> r.1 < users@.len(),
{
    let ghost bs: Seq<bool> = keyholders(jsons(users@), key@);
    let mut n: usize = 0;
    let mut first: usize = users.len();
    let mut i: usize = 0;
    while i < users.len()
        invariant
            i <= users@.len(),
            bs == keyholders(jsons(users@), key@),
            n == count_true(bs.take(i as int)),
            n <= i,
            n == 0 ==> first == users@.len() && forall|j: int| 0 <= j < i ==> !#[trigger] bs[j],
            n > 0 ==> first < i && bs[first as int] && forall|j: int|
                0 <= j < first ==> !#[trigger] bs[j],
        decreases users@.len() - i,
    {
        proof {
            assert(bs.take(i + 1).drop_last() =~= bs.take(i as int));
            assert(bs.take(i + 1).last() == bs[i as int]);
        }
        if not_false(users[i].get("active")) && opens_user(&users[i], key) {
            assert(bs[i as int]);
            if n == 0 {
                first = i;
            }
            n = n + 1;
        }
        i = i + 1;
    }
    proof {
        assert(bs.take(i as int) =~= bs);
        lemma_first(bs, first as int);
    }
    (n, first)
}

/// The supervisor that a request shows: the user with the name and the password, or else the only
/// one with the single key.
pub open spec fn supervisor_found(users: Seq<Json>, c: ClaimView) -> Option<Json> {
    let i = first_user(users, c.username);
    let holders = keyholders(users, single_key(c));
    if i < users.len() && opens(users[i], c.password) {
        Some(users[i])
    } else if single_key(c).len() > 0 && count_true(holders) == 1 {
        Some(users[first_true(holders)])
    } else {
        None
    }
}

/// The supervisor that a request shows, or why it shows none.
pub open spec fn supervisor(users: Seq<Json>, input: Json) -> Result<Json, Seq<char>> {
    match supervisor_found(users, claimed(input)) {
        None => Err("Permiso superior incorrecto"@),
        Some(u) => if managers().contains(role_of(u)) {
            Ok(u)
        } else {
            Err("Ese usuario no tiene permiso superior"@)
        },
    }
}

/// The supervisor that a request shows.
pub fn verify_supervisor(db: &crate::store::Store, input: &Value) -> (r: Result<Value, String>)
    ensures
        answer(r) == supervisor(db@.list("users"@), input@),
{
    let c: Claim = claim_of(input);
    let users: Vec<Value> = list_items(db, "users");
    let mut user: Option<Value> = None;
    let named: Option<usize> = find_user(&users, c.username.as_str());
    if let Some(i) = named {
        if opens_user(&users[i], c.password.as_str()) {
            user = Some(users[i].copy());
        }
    }
    if user.is_none() {
        let key: String = key_of(&c);
        if !key.as_str().is_empty() {
            let (n, first) = find_keyholders(&users, key.as_str());
            if n == 1 {
                user = Some(users[first].copy());
            }
        }
    }
    match user {
        None => Err("Permiso superior incorrecto".to_owned()),
        Some(u) => {
            let roles: [&str; 2] = ["admin", "encargado"];
            proof {
                assert(names(roles@) =~= managers());
            }
            match assert_role(&u, roles.as_slice()) {
                Ok(_) => Ok(u),
                Err(_) => Err("Ese usuario no tiene permiso superior".to_owned()),
            }
        },
    }
}

/// Whom a claim lets in.
pub enum Pick {
    /// Nobody.
    Nobody,
    /// Nobody, for the key is that of several users.
    Shared,
    /// The user at a place in the list, under a name.
    User { at: int, name: Seq<char> },
}

/// Whether a name and a password let somebody in: the first active user of that name, where the
/// password is right.
pub open spec fn lets_in(users: Seq<Json>, name: Seq<char>, password: Seq<char>) -> bool {
    first_user(users, name) < users.len() && opens(users[first_user(users, name)], password)
}

/// Whom a claim lets in: by name and password, by the two exchanged, by the code as both, or by
/// the single key where only one active user has it.
pub open spec fn pick(users: Seq<Json>, c: ClaimView) -> Pick {
    let holders = keyholders(users, single_key(c));
    if lets_in(users, c.username, c.password) {
        Pick::User { at: first_user(users, c.username), name: c.username }
    } else if lets_in(users, c.password, c.username) {
        Pick::User { at: first_user(users, c.password), name: c.password }
    } else if c.code.len() > 0 && lets_in(users, c.code, c.code) {
        Pick::User { at: first_user(users, c.code), name: c.code }
    } else if single_key(c).len() == 0 || count_true(holders) == 0 {
        Pick::Nobody
    } else if count_true(holders) == 1 {
        Pick::User {
            at: first_true(holders),
            name: plain(field(users[first_true(holders)], "username"@)),
        }
    } else {
        Pick::Shared
    }
}

/// The user that a name and a password let in.
fn try_user(users: &Vec<Value>, name: &str, password: &str) -> (r: Option<usize>)
    ensures
        match r {
            Some(i) => lets_in(jsons(users@), name@, password@) && i == first_user(
                jsons(users@),
                name@,
            ) && i < users@.len(),
            None => !lets_in(jsons(users@), name@, password@),
        },
{
    match find_user(users, name) {
        Some(i) => if opens_user(&users[i], password) {
            Some(i)
        } else {
            None
        },
        None => None,
    }
}

/// Letting a user in: a new session under a new token, and the moment noted.
pub open spec fn admitted(shop: ShopView, u: Json, name: Seq<char>, m: MomentView) -> Outcome {
    let stamp = Json::Text(m.iso);
    let key = next_token(shop, m);
    ShopView {
        db: shop.db.patch(
            "users"@,
            name,
            Json::Object(Map::empty().insert("lastLogin"@, stamp)),
        ),
        sessions: shop.sessions.insert(
            key,
            SessionView {
                username: name,
                expires_at: m.millis.wrapping_add(SESSION_MILLIS),
            },
        ),
        source: counted(shop.source),
    }.says(
        Json::Object(
            yes()
                .insert("sessionToken"@, Json::Text(key))
                .insert("user"@, public_view(set_in(u, "lastLogin"@, stamp))),
        ),
    )
}

/// Signing in.
pub open spec fn login_outcome(shop: ShopView, payload: Json, m: MomentView) -> Outcome {
    let users = shop.db.list("users"@);
    match pick(users, claimed(payload)) {
        Pick::Nobody => shop.says(refusal("Usuario o contrasena incorrectos"@)),
        Pick::Shared => shop.says(
            refusal("Clave duplicada. Cambia una de las claves desde Usuarios."@),
        ),
        Pick::User { at, name } => admitted(shop, users[at], name, m),
    }
}

/// Lets a user in.
fn let_in(shop: &mut Shop, user: Value, name: &str, m: &Moment) -> (r: Result<Value, String>)
    requires
        old(shop).wf(),
    ensures
        final(shop).wf(),
        outcome(*final(shop), r) == admitted(old(shop)@, user@, name@, m@),
{
    let key: String = shop.source.text_at(m.nanos);
    let session: Session = Session {
        username: name.to_owned(),
        expires_at: m.millis.wrapping_add(SESSION_MILLIS),
    };
    shop.sessions.insert(key.as_str(), session);
    let mut patch: Vec<(String, Value)> = no_fields();
    put_field(&mut patch, "lastLogin", from_text(m.iso.as_str()));
    patch_item(&mut shop.db, "users", name, &from_fields(patch));
    let user: Value = with_field(user, "lastLogin", from_text(m.iso.as_str()));
    let mut es: Vec<(String, Value)> = yes_fields();
    put_field(&mut es, "sessionToken", Value::Text(key));
    put_field(&mut es, "user", public_user(&user));
    Ok(from_fields(es))
}

/// Signs in, at a moment.
pub fn op_login_at(shop: &mut Shop, payload: &Value, m: &Moment) -> (r: Result<Value, String>)
    requires
        old(shop).wf(),
    ensures
        final(shop).wf(),
        outcome(*final(shop), r) == login_outcome(old(shop)@, payload@, m@),
{
    let c: Claim = claim_of(payload);
    let users: Vec<Value> = list_items(&shop.db, "users");
    let mut found: Option<usize> = try_user(&users, c.username.as_str(), c.password.as_str());
    let mut name: String = c.username.clone();
    if found.is_none() {
        found = try_user(&users, c.password.as_str(), c.username.as_str());
        name = c.password.clone();
    }
    if found.is_none() && !c.code.as_str().is_empty() {
        found = try_user(&users, c.code.as_str(), c.code.as_str());
        name = c.code.clone();
    }
    if found.is_none() {
        let key: String = key_of(&c);
        if !key.as_str().is_empty() {
            let (n, first) = find_keyholders(&users, key.as_str());
            if n > 1 {
                return Ok(refuse("Clave duplicada. Cambia una de las claves desde Usuarios."));
            }
            if n == 1 {
                found = Some(first);
                name = clean_text(users[first].get("username"));
            }
        }
    }
    match found {
        Some(i) => {
            let user: Value = users[i].copy();
            let_in(shop, user, name.as_str(), m)
        },
        None => Ok(refuse("Usuario o contrasena incorrectos")),
    }
}

/// Signs in.
pub fn op_login(shop: &mut Shop, payload: &Value) -> (r: Result<Value, String>)
    requires
        old(shop).wf(),
    ensures
        final(shop).wf(),
        exists|m: MomentView|
            moment_shape(m.iso) && outcome(*final(shop), r) == #[trigger] login_outcome(
                old(shop)@,
                payload@,
                m,
            ),
{
    let m: Moment = Moment::now();
    op_login_at(shop, payload, &m)
}

/// Signs out: the session under the token ends.
pub fn op_logout(shop: &mut Shop, token: &str) -> (r: Value)
    requires
        old(shop).wf(),
    ensures
        final(shop).wf(),
        final(shop)@ == old(shop)@.with_sessions(old(shop)@.sessions.remove(token@)),
        r@ == Json::Object(yes()),
{
    shop.sessions.remove(token);
    from_fields(yes_fields())
}

// ----- keeping users -----

/// A user with what a request says of it, and with a new password where it gives one.
pub open spec fn edited_user(u: Json, payload: Json, salt: Seq<char>) -> Json {
    let name = plain(field(payload, "username"@));
    let password = new_password(payload);
    let told = set_in(
        set_in(
            set_in(
                set_in(u, "username"@, Json::Text(name)),
                "displayName"@,
                Json::Text(or_else(plain(field(payload, "displayName"@)), name)),
            ),
            "role"@,
            Json::Text(role_named(plain(field(payload, "role"@)))),
        ),
        "active"@,
        Json::Bool(truth_or_missing(field(payload, "active"@))),
    );
    if password.len() > 0 {
        set_in(
            set_in(told, "salt"@, Json::Text(salt)),
            "passwordHash"@,
            Json::Text(password_hash(password, salt)),
        )
    } else {
        told
    }
}

/// The new password in a request.
pub open spec fn new_password(payload: Json) -> Seq<char> {
    or_else(plain(field(payload, "newPassword"@)), plain(field(payload, "password"@)))
}

/// Saving a user that exists, the one at place `i`.
pub open spec fn edit_user_outcome(shop: ShopView, payload: Json, i: int, m: MomentView) -> Outcome {
    let users = shop.db.list("users"@);
    let editing = plain(field(payload, "editingUsername"@));
    let name = plain(field(payload, "username"@));
    let password = new_password(payload);
    if editing != name && any_with(users, "username"@, name) {
        shop.fails("Ese usuario ya existe"@)
    } else if 0 < password.len() < 4 {
        shop.fails("La contrasena debe tener al menos 4 caracteres"@)
    } else {
        let record = edited_user(users[i], payload, next_token(shop, m));
        let put = shop.db.put("users"@, name, record);
        ShopView {
            db: if editing != name {
                put.delete("users"@, editing)
            } else {
                put
            },
            sessions: without_user(shop.sessions, editing),
            source: if password.len() > 0 {
                counted(shop.source)
            } else {
                shop.source
            },
        }.says(Json::Object(yes().insert("user"@, public_view(record))))
    }
}

/// Saving a user: the one under the name that is edited, or a new one.
pub open spec fn save_user_outcome(
    shop: ShopView,
    key: Seq<char>,
    payload: Json,
    m: MomentView,
) -> Outcome {
    let now = touched(shop, key, m.millis);
    let users = shop.db.list("users"@);
    let editing = plain(field(payload, "editingUsername"@));
    let i = first_with(users, "username"@, editing);
    match authorized(shop, key, admins(), m.millis) {
        Err(why) => now.fails(why),
        Ok(user) => if !username_shape(plain(field(payload, "username"@))) {
            now.fails("El usuario debe tener al menos 4 digitos numericos"@)
        } else if editing.len() > 0 && i < users.len() {
            edit_user_outcome(now, payload, i, m)
        } else if plain(field(payload, "password"@)).len() > 0 {
            with_user(create_user_outcome(now, payload, "cajero"@, m))
        } else {
            now.fails("Usuario no encontrado"@)
        },
    }
}

/// Saves a user that exists, the one at place `i`.
fn edit_user(shop: &mut Shop, payload: &Value, users: Vec<Value>, i: usize, m: &Moment) -> (r:
    Result<Value, String>)
    requires
        old(shop).wf(),
        jsons(users@) == old(shop)@.db.list("users"@),
        i < users@.len(),
    ensures
        final(shop).wf(),
        outcome(*final(shop), r) == edit_user_outcome(old(shop)@, payload@, i as int, m@),
{
    let editing: String = clean_text(payload.get("editingUsername"));
    let username: String = clean_text(payload.get("username"));
    let renamed: bool = !same_text(editing.as_str(), username.as_str());
    if renamed && has_with(&users, "username", username.as_str()) {
        return Err("Ese usuario ya existe".to_owned());
    }
    let password: String = text_or(
        clean_text(payload.get("newPassword")),
        clean_text(payload.get("password")).as_str(),
    );
    let changes: bool = !password.as_str().is_empty();
    if changes && !has_length(password.as_str(), 4) {
        return Err("La contrasena debe tener al menos 4 caracteres".to_owned());
    }
    let display: String = text_or(clean_text(payload.get("displayName")), username.as_str());
    let role: String = normalize_role(clean_text(payload.get("role")).as_str());
    let active: bool = truthy_or_missing(payload.get("active"));
    let record: Value = users[i].copy();
    let record: Value = with_field(record, "username", from_text(username.as_str()));
    let record: Value = with_field(record, "displayName", Value::Text(display));
    let record: Value = with_field(record, "role", Value::Text(role));
    let mut record: Value = with_field(record, "active", Value::Bool(active));
    if changes {
        let salt: String = shop.source.text_at(m.nanos);
        let hash: String = hash_password(password.as_str(), salt.as_str());
        record = with_field(record, "salt", Value::Text(salt));
        record = with_field(record, "passwordHash", Value::Text(hash));
    }
    create_item(&mut shop.db, "users", username.as_str(), &record);
    if renamed {
        delete_item(&mut shop.db, "users", editing.as_str());
    }
    shop.sessions.drop_user(editing.as_str());
    user_answer(Ok(public_user(&record)))
}

/// Saves a user, at a moment.
pub fn op_save_user_at(shop: &mut Shop, key: &str, payload: &Value, m: &Moment) -> (r: Result<
    Value,
    String,
>)
    requires
        old(shop).wf(),
    ensures
        final(shop).wf(),
        outcome(*final(shop), r) == save_user_outcome(old(shop)@, key@, payload@, m@),
{
    let roles: [&str; 1] = ["admin"];
    proof {
        assert(names(roles@) =~= admins());
    }
    match authorize(shop, key, roles.as_slice(), m.millis) {
        Err(e) => Err(e),
        Ok(_) => {
            let editing: String = clean_text(payload.get("editingUsername"));
            let username: String = clean_text(payload.get("username"));
            if !is_username(username.as_str()) {
                return Err("El usuario debe tener al menos 4 digitos numericos".to_owned());
            }
            let users: Vec<Value> = list_items(&shop.db, "users");
            let mut existing: Option<usize> = None;
            if !editing.as_str().is_empty() {
                existing = find_with(&users, "username", editing.as_str());
            }
            match existing {
                Some(i) => edit_user(shop, payload, users, i, m),
                None => {
                    if clean_text(payload.get("password")).as_str().is_empty() {
                        Err("Usuario no encontrado".to_owned())
                    } else {
                        let made: Result<Value, String> = create_user_record_at(
                            shop,
                            payload,
                            "cajero",
                            m,
                        );
                        user_answer(made)
                    }
                },
            }
        },
    }
}

/// Saves a user: the one under the name that is edited, or a new one.
pub fn op_save_user(shop: &mut Shop, key: &str, payload: &Value) -> (r: Result<Value, String>)
    requires
        old(shop).wf(),
    ensures
        final(shop).wf(),
        exists|m: MomentView|
            moment_shape(m.iso) && outcome(*final(shop), r) == #[trigger] save_user_outcome(
                old(shop)@,
                key@,
                payload@,
                m,
            ),
{
    let m: Moment = Moment::now();
    op_save_user_at(shop, key, payload, &m)
}

/// Deleting a user other than oneself.
pub open spec fn delete_user_outcome(
    shop: ShopView,
    key: Seq<char>,
    payload: Json,
    now: i64,
) -> Outcome {
    let after = touched(shop, key, now);
    let name = plain(field(payload, "username"@));
    match authorized(shop, key, admins(), now) {
        Err(why) => after.fails(why),
        Ok(user) => if name.len() == 0 {
            after.fails("Falta usuario"@)
        } else if name == plain(field(user, "username"@)) {
            after.fails("No puedes eliminar el usuario activo"@)
        } else {
            after.with_db(after.db.delete("users"@, name)).with_sessions(
                without_user(after.sessions, name),
            ).says(Json::Object(yes()))
        },
    }
}

/// Deletes a user, at the moment `now`.
pub fn op_delete_user_at(shop: &mut Shop, key: &str, payload: &Value, now: i64) -> (r: Result<
    Value,
    String,
>)
    requires
        old(shop).wf(),
    ensures
        final(shop).wf(),
        outcome(*final(shop), r) == delete_user_outcome(old(shop)@, key@, payload@, now),
{
    let roles: [&str; 1] = ["admin"];
    proof {
        assert(names(roles@) =~= admins());
    }
    match authorize(shop, key, roles.as_slice(), now) {
        Err(e) => Err(e),
        Ok(user) => {
            let username: String = clean_text(payload.get("username"));
            if username.as_str().is_empty() {
                return Err("Falta usuario".to_owned());
            }
            if same_text(username.as_str(), clean_text(user.get("username")).as_str()) {
                return Err("No puedes eliminar el usuario activo".to_owned());
            }
            delete_item(&mut shop.db, "users", username.as_str());
            shop.sessions.drop_user(username.as_str());
            Ok(from_fields(yes_fields()))
        },
    }
}

/// Deletes a user.
pub fn op_delete_user(shop: &mut Shop, key: &str, payload: &Value) -> (r: Result<Value, String>)
    requires
        old(shop).wf(),
    ensures
        final(shop).wf(),
        exists|now: i64|
            outcome(*final(shop), r) == #[trigger] delete_user_outcome(
                old(shop)@,
                key@,
                payload@,
                now,
            ),
{
    op_delete_user_at(shop, key, payload, crate::clock::now_millis())
}

} // verus!
