//! The shop: what an operation reads and changes.

use crate::clock::TokenSource;
use crate::json::{Json, Value};
use crate::reply::answer;
use crate::sessions::{SessionView, Sessions};
use crate::store::{Store, StoreView};
use vstd::prelude::*;

verus! {

/// The store, the sessions, and the source of new texts.
pub struct Shop {
    pub db: Store,
    pub sessions: Sessions,
    pub source: TokenSource,
}

/// What a `Shop` stands for.
#[verifier::ext_equal]
pub struct ShopView {
    pub db: StoreView,
    pub sessions: Map<Seq<char>, SessionView>,
    pub source: TokenSource,
}

impl View for Shop {
    type V = ShopView;

    open spec fn view(&self) -> ShopView {
        ShopView { db: self.db@, sessions: self.sessions@, source: self.source }
    }
}

impl Shop {
    /// No token of a session occurs twice.
    pub open spec fn wf(self) -> bool {
        self.sessions.wf()
    }
}

/// What an operation leaves, and what it answers.
pub struct Outcome {
    pub shop: ShopView,
    pub reply: Result<Json, Seq<char>>,
}

/// What an operation left, and what it answered.
pub open spec fn outcome(shop: Shop, r: Result<Value, String>) -> Outcome {
    Outcome { shop: shop@, reply: answer(r) }
}

impl ShopView {
    /// The shop with another store.
    pub open spec fn with_db(self, db: StoreView) -> ShopView {
        ShopView { db, ..self }
    }

    /// The shop with other sessions.
    pub open spec fn with_sessions(self, sessions: Map<Seq<char>, SessionView>) -> ShopView {
        ShopView { sessions, ..self }
    }

    /// The shop with another source.
    pub open spec fn with_source(self, source: TokenSource) -> ShopView {
        ShopView { source, ..self }
    }

    /// An operation that leaves the shop so and answers with a document.
    pub open spec fn says(self, v: Json) -> Outcome {
        Outcome { shop: self, reply: Ok(v) }
    }

    /// An operation that leaves the shop so and fails.
    pub open spec fn fails(self, why: Seq<char>) -> Outcome {
        Outcome { shop: self, reply: Err(why) }
    }
}

} // verus!
