//! What an operation answers.

use crate::json::{fields, from_fields, from_text, no_fields, put_field, Json, Value};
use vstd::prelude::*;

verus! {

/// What the result of an operation stands for.
pub open spec fn answer(r: Result<Value, String>) -> Result<Json, Seq<char>> {
    match r {
        Ok(v) => Ok(v@),
        Err(e) => Err(e@),
    }
}

/// The fields of every answer that says yes.
pub open spec fn yes() -> Map<Seq<char>, Json> {
    Map::empty().insert("ok"@, Json::Bool(true))
}

/// The answer that says no, and why.
pub open spec fn refusal(why: Seq<char>) -> Json {
    Json::Object(
        Map::empty().insert("ok"@, Json::Bool(false)).insert("error"@, Json::Text(why)),
    )
}

/// The fields of every answer that says yes.
pub fn yes_fields() -> (es: Vec<(String, Value)>)
    ensures
        fields(es@) == yes(),
{
    let mut es: Vec<(String, Value)> = no_fields();
    put_field(&mut es, "ok", Value::Bool(true));
    es
}

/// The answer that says no, and why.
pub fn refuse(why: &str) -> (r: Value)
    ensures
        r@ == refusal(why@),
{
    let mut es: Vec<(String, Value)> = no_fields();
    put_field(&mut es, "ok", Value::Bool(false));
    put_field(&mut es, "error", from_text(why));
    from_fields(es)
}

} // verus!
