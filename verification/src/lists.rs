//! Searching lists of documents.

use crate::json::{clean_text, field, jsons, not_false, plain, Json, Value};
use crate::text::same_text;
use vstd::prelude::*;

verus! {

/// The place of the first `true`, or the length where there is none.
pub open spec fn first_true(bs: Seq<bool>) -> int
    decreases bs.len(),
{
    if bs.len() == 0 || bs[0] {
        0
    } else {
        1 + first_true(bs.skip(1))
    }
}

/// The number of places that are `true`.
pub open spec fn count_true(bs: Seq<bool>) -> nat
    decreases bs.len(),
{
    if bs.len() == 0 {
        0
    } else {
        count_true(bs.drop_last()) + (if bs.last() {
            1nat
        } else {
            0nat
        })
    }
}

/// Whether a document has a field that reads as `text`.
pub open spec fn has_text(v: Json, key: Seq<char>, text: Seq<char>) -> bool {
    plain(field(v, key)) == text
}

/// Whether a document counts as active: it does unless it says otherwise.
pub open spec fn is_active(v: Json) -> bool {
    field(v, "active"@) != Some(Json::Bool(false))
}

/// The place of the first document with a field that reads as `text`.
pub open spec fn first_with(rows: Seq<Json>, key: Seq<char>, text: Seq<char>) -> int {
    first_true(rows.map_values(|r: Json| has_text(r, key, text)))
}

/// Whether some document has a field that reads as `text`.
pub open spec fn any_with(rows: Seq<Json>, key: Seq<char>, text: Seq<char>) -> bool {
    first_with(rows, key, text) < rows.len()
}

/// The number of documents with a field that reads as `text`.
pub open spec fn count_with(rows: Seq<Json>, key: Seq<char>, text: Seq<char>) -> nat {
    count_true(rows.map_values(|r: Json| has_text(r, key, text)))
}

/// The place of the first active user with a name.
pub open spec fn first_user(users: Seq<Json>, name: Seq<char>) -> int {
    first_true(users.map_values(|u: Json| has_text(u, "username"@, name) && is_active(u)))
}

/// The first place is the one with nothing before it.
pub proof fn lemma_first(bs: Seq<bool>, i: int)
    requires
        0 <= i <= bs.len(),
        i < bs.len() ==> bs[i],
        forall|j: int| 0 <= j < i ==> !#[trigger] bs[j],
    ensures
        first_true(bs) == i,
    decreases i,
{
    if i > 0 {
        assert(!bs[0]);
        assert forall|j: int| 0 <= j < i - 1 implies !#[trigger] bs.skip(1)[j] by {
            assert(bs.skip(1)[j] == bs[j + 1]);
        }
        lemma_first(bs.skip(1), i - 1);
    }
}

/// What the first place is.
pub proof fn lemma_first_true(bs: Seq<bool>)
    ensures
        0 <= first_true(bs) <= bs.len(),
        first_true(bs) < bs.len() ==> bs[first_true(bs)],
        forall|j: int| 0 <= j < first_true(bs) ==> !#[trigger] bs[j],
    decreases bs.len(),
{
    if bs.len() > 0 && !bs[0] {
        lemma_first_true(bs.skip(1));
        assert forall|j: int| 0 <= j < first_true(bs) implies !#[trigger] bs[j] by {
            if j > 0 {
                assert(bs[j] == bs.skip(1)[j - 1]);
            }
        }
    }
}

/// Where something is counted, there is a first place.
pub proof fn lemma_some_true(bs: Seq<bool>)
    requires
        count_true(bs) > 0,
    ensures
        0 <= first_true(bs) < bs.len(),
        bs[first_true(bs)],
{
    lemma_first_true(bs);
    if first_true(bs) == bs.len() {
        lemma_none_true(bs);
    }
}

proof fn lemma_none_true(bs: Seq<bool>)
    requires
        forall|j: int| 0 <= j < bs.len() ==> !#[trigger] bs[j],
    ensures
        count_true(bs) == 0,
    decreases bs.len(),
{
    if bs.len() > 0 {
        assert(!bs[bs.len() - 1]);
        assert forall|j: int| 0 <= j < bs.len() - 1 implies !#[trigger] bs.drop_last()[j] by {
            assert(bs.drop_last()[j] == bs[j]);
        }
        lemma_none_true(bs.drop_last());
    }
}

/// The place of the first document with a field that reads as `text`.
pub fn find_with(rows: &Vec<Value>, key: &str, text: &str) -> (r: Option<usize>)
    ensures
        match r {
            Some(i) => i < rows@.len() && i == first_with(jsons(rows@), key@, text@),
            None => first_with(jsons(rows@), key@, text@) == rows@.len(),
        },
{
    let ghost bs: Seq<bool> = jsons(rows@).map_values(|r: Json| has_text(r, key@, text@));
    let mut i: usize = 0;
    while i < rows.len()
        invariant
            i <= rows@.len(),
            bs == jsons(rows@).map_values(|r: Json| has_text(r, key@, text@)),
            forall|j: int| 0 <= j < i ==> !#[trigger] bs[j],
        decreases rows@.len() - i,
    {
        let t: String = clean_text(rows[i].get(key));
        if same_text(t.as_str(), text) {
            proof {
                assert(bs[i as int]);
                lemma_first(bs, i as int);
            }
            return Some(i);
        }
        i = i + 1;
    }
    proof {
        lemma_first(bs, i as int);
    }
    None
}

/// Whether some document has a field that reads as `text`.
pub fn has_with(rows: &Vec<Value>, key: &str, text: &str) -> (r: bool)
    ensures
        r == any_with(jsons(rows@), key@, text@),
{
    match find_with(rows, key, text) {
        Some(_) => true,
        None => false,
    }
}

/// The number of documents with a field that reads as `text`.
pub fn number_with(rows: &Vec<Value>, key: &str, text: &str) -> (r: usize)
    ensures
        r == count_with(jsons(rows@), key@, text@),
        r <= rows@.len(),
{
    let ghost bs: Seq<bool> = jsons(rows@).map_values(|r: Json| has_text(r, key@, text@));
    let mut n: usize = 0;
    let mut i: usize = 0;
    while i < rows.len()
        invariant
            i <= rows@.len(),
            bs == jsons(rows@).map_values(|r: Json| has_text(r, key@, text@)),
            n == count_true(bs.take(i as int)),
            n <= i,
        decreases rows@.len() - i,
    {
        let t: String = clean_text(rows[i].get(key));
        proof {
            assert(bs.take(i + 1).drop_last() =~= bs.take(i as int));
            assert(bs.take(i + 1).last() == bs[i as int]);
        }
        if same_text(t.as_str(), text) {
            n = n + 1;
        }
        i = i + 1;
    }
    proof {
        assert(bs.take(i as int) =~= bs);
    }
    n
}

/// The place of the first active user with a name.
pub fn find_user(users: &Vec<Value>, name: &str) -> (r: Option<usize>)
    ensures
        match r {
            Some(i) => i < users@.len() && i == first_user(jsons(users@), name@),
            None => first_user(jsons(users@), name@) == users@.len(),
        },
{
    let ghost bs: Seq<bool> = jsons(users@).map_values(
        |u: Json| has_text(u, "username"@, name@) && is_active(u),
    );
    let mut i: usize = 0;
    while i < users.len()
        invariant
            i <= users@.len(),
            bs == jsons(users@).map_values(
                |u: Json| has_text(u, "username"@, name@) && is_active(u),
            ),
            forall|j: int| 0 <= j < i ==> !#[trigger] bs[j],
        decreases users@.len() - i,
    {
        let t: String = clean_text(users[i].get("username"));
        if same_text(t.as_str(), name) && not_false(users[i].get("active")) {
            proof {
                assert(bs[i as int]);
                lemma_first(bs, i as int);
            }
            return Some(i);
        }
        i = i + 1;
    }
    proof {
        lemma_first(bs, i as int);
    }
    None
}

} // verus!
