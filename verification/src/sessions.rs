//! The sessions of the users that are signed in, each under its token.

use crate::text::same_text;
use vstd::prelude::*;

verus! {

/// A session: whose it is, and the last millisecond at which it counts.
pub struct Session {
    pub username: String,
    pub expires_at: i64,
}

/// What a `Session` stands for.
pub struct SessionView {
    pub username: Seq<char>,
    pub expires_at: i64,
}

impl View for Session {
    type V = SessionView;

    open spec fn view(&self) -> SessionView {
        SessionView { username: self.username@, expires_at: self.expires_at }
    }
}

/// The open sessions. No token occurs twice.
pub struct Sessions {
    pub entries: Vec<(String, Session)>,
}

/// The sessions in a list of tokens and sessions.
pub open spec fn by_token(es: Seq<(String, Session)>) -> Map<Seq<char>, SessionView>
    decreases es.len(),
{
    if es.len() == 0 {
        Map::empty()
    } else {
        by_token(es.drop_last()).insert(es.last().0@, es.last().1@)
    }
}

/// The sessions without those of a user.
pub open spec fn without_user(m: Map<Seq<char>, SessionView>, name: Seq<char>) -> Map<
    Seq<char>,
    SessionView,
> {
    Map::new(|t: Seq<char>| m.contains_key(t) && m[t].username != name, |t: Seq<char>| m[t])
}

impl View for Sessions {
    type V = Map<Seq<char>, SessionView>;

    open spec fn view(&self) -> Map<Seq<char>, SessionView> {
        by_token(self.entries@)
    }
}

/// The entries decide what the sessions are.
proof fn lemma_by_token(es: Seq<(String, Session)>, token: Seq<char>, i: int)
    requires
        -1 <= i < es.len(),
        i >= 0 ==> es[i].0@ == token,
        forall|j: int| i < j < es.len() ==> es[j].0@ != token,
    ensures
        by_token(es).contains_key(token) == (i >= 0),
        i >= 0 ==> by_token(es)[token] == es[i].1@,
    decreases es.len(),
{
    if es.len() > 0 && i < es.len() - 1 {
        lemma_by_token(es.drop_last(), token, i);
    }
}

proof fn lemma_by_token_update(es: Seq<(String, Session)>, i: int, e: (String, Session))
    requires
        0 <= i < es.len(),
        es[i].0@ == e.0@,
        forall|j: int| i < j < es.len() ==> es[j].0@ != e.0@,
    ensures
        by_token(es.update(i, e)) == by_token(es).insert(e.0@, e.1@),
    decreases es.len(),
{
    let new = es.update(i, e);
    if i == es.len() - 1 {
        assert(new.drop_last() =~= es.drop_last());
    } else {
        assert(new.drop_last() =~= es.drop_last().update(i, e));
        lemma_by_token_update(es.drop_last(), i, e);
    }
    assert(by_token(new) =~= by_token(es).insert(e.0@, e.1@));
}

impl Sessions {
    /// No token occurs twice.
    pub open spec fn wf(self) -> bool {
        forall|i: int, j: int|
            0 <= i < j < self.entries@.len() ==> #[trigger] self.entries@[i].0@
                != #[trigger] self.entries@[j].0@
    }

    /// No sessions.
    pub fn new() -> (r: Sessions)
        ensures
            r.wf(),
            r@ == Map::<Seq<char>, SessionView>::empty(),
    {
        Sessions { entries: Vec::new() }
    }

    /// The place of a token.
    fn place(&self, token: &str) -> (r: Option<usize>)
        requires
            self.wf(),
        ensures
            match r {
                Some(i) => i < self.entries@.len() && self.entries@[i as int].0@ == token@ && self@.contains_key(
                token@) && self@[token@] == self.entries@[i as int].1@,
                None => !self@.contains_key(token@) && forall|j: int|
                    0 <= j < self.entries@.len() ==> self.entries@[j].0@ != token@,
            },
    {
        let mut i: usize = 0;
        while i < self.entries.len()
            invariant
                self.wf(),
                i <= self.entries@.len(),
                forall|j: int| 0 <= j < i ==> self.entries@[j].0@ != token@,
            decreases self.entries@.len() - i,
        {
            if same_text(self.entries[i].0.as_str(), token) {
                proof {
                    lemma_by_token(self.entries@, token@, i as int);
                }
                return Some(i);
            }
            i = i + 1;
        }
        proof {
            lemma_by_token(self.entries@, token@, -1);
        }
        None
    }

    /// The session under a token.
    pub fn get(&self, token: &str) -> (r: Option<Session>)
        requires
            self.wf(),
        ensures
            match r {
                Some(s) => self@.contains_key(token@) && self@[token@] == s@,
                None => !self@.contains_key(token@),
            },
    {
        match self.place(token) {
            Some(i) => Some(
                Session {
                    username: self.entries[i].1.username.clone(),
                    expires_at: self.entries[i].1.expires_at,
                },
            ),
            None => None,
        }
    }

    /// Puts a session under a token.
    pub fn insert(&mut self, token: &str, session: Session)
        requires
            old(self).wf(),
        ensures
            final(self).wf(),
            final(self)@ == old(self)@.insert(token@, session@),
    {
        let at: Option<usize> = self.place(token);
        let e: (String, Session) = (token.to_owned(), session);
        match at {
            Some(i) => {
                proof {
                    lemma_by_token_update(self.entries@, i as int, e);
                }
                self.entries.set(i, e);
            },
            None => {
                let ghost before = self.entries@;
                self.entries.push(e);
                proof {
                    assert(self.entries@.drop_last() =~= before);
                }
            },
        }
    }

    /// Ends the session under a token.
    pub fn remove(&mut self, token: &str)
        requires
            old(self).wf(),
        ensures
            final(self).wf(),
            final(self)@ == old(self)@.remove(token@),
    {
        let at: Option<usize> = self.place(token);
        if let Some(i) = at {
            let ghost before = self.entries@;
            let gone: (String, Session) = self.entries.remove(i);
            proof {
                lemma_by_token_remove(before, i as int);
                assert(self.entries@ =~= before.remove(i as int));
            }
        } else {
            proof {
                assert(self@ =~= self@.remove(token@));
            }
        }
    }

    /// Ends the sessions of a user.
    pub fn drop_user(&mut self, name: &str)
        requires
            old(self).wf(),
        ensures
            final(self).wf(),
            final(self)@ == without_user(old(self)@, name@),
    {
        let mut kept: Vec<(String, Session)> = Vec::new();
        let mut i: usize = 0;
        let ghost es = self.entries@;
        proof {
            assert(by_token(es.take(0)) =~= Map::empty());
            assert(by_token(kept@) =~= without_user(by_token(es.take(0)), name@));
        }
        while i < self.entries.len()
            invariant
                es == self.entries@,
                self.wf(),
                i <= es.len(),
                by_token(kept@) == without_user(by_token(es.take(i as int)), name@),
                forall|a: int|
                    0 <= a < kept@.len() ==> exists|b: int|
                        0 <= b < i && #[trigger] es[b].0@ == (#[trigger] kept@[a]).0@,
                forall|a: int, b: int|
                    0 <= a < b < kept@.len() ==> #[trigger] kept@[a].0@ != #[trigger] kept@[b].0@,
            decreases es.len() - i,
        {
            let ghost before = by_token(es.take(i as int));
            let ghost list = kept@;
            proof {
                assert(es.take(i + 1).drop_last() =~= es.take(i as int));
                lemma_by_token(es.take(i as int), es[i as int].0@, -1);
            }
            if !same_text(self.entries[i].1.username.as_str(), name) {
                let s: Session = Session {
                    username: self.entries[i].1.username.clone(),
                    expires_at: self.entries[i].1.expires_at,
                };
                kept.push((self.entries[i].0.clone(), s));
                proof {
                    assert(kept@.drop_last() =~= list);
                    assert(by_token(kept@) =~= without_user(by_token(es.take(i + 1)), name@));
                }
            } else {
                proof {
                    assert(without_user(before, name@) =~= without_user(
                        by_token(es.take(i + 1)),
                        name@,
                    ));
                }
            }
            i = i + 1;
        }
        proof {
            assert(es.take(i as int) =~= es);
        }
        self.entries = kept;
    }
}

/// Taking out the only entry with a token ends that session.
proof fn lemma_by_token_remove(es: Seq<(String, Session)>, i: int)
    requires
        0 <= i < es.len(),
        forall|j: int| 0 <= j < es.len() && j != i ==> (#[trigger] es[j]).0@ != es[i].0@,
    ensures
        by_token(es.remove(i)) == by_token(es).remove(es[i].0@),
    decreases es.len(),
{
    let new = es.remove(i);
    if i == es.len() - 1 {
        assert(new =~= es.drop_last());
        lemma_by_token(es.drop_last(), es[i].0@, -1);
    } else {
        assert(new.drop_last() =~= es.drop_last().remove(i));
        lemma_by_token_remove(es.drop_last(), i);
    }
    assert(by_token(new) =~= by_token(es).remove(es[i].0@));
}

} // verus!
