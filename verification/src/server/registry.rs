//! The daemon's table of live sessions.

use vstd::prelude::*;
use vstd::string::*;

use super::session::{SessionShared, SessionState};
use crate::proto::control::{infos, InfoView, SessionInfo};
use crate::text::same_text;

verus! {

/// What a table of sessions holds: the sessions, each under its id.
pub type Sessions = Map<Seq<char>, SessionState>;

/// Whether every session stands under its own id.
pub open spec fn keyed(sessions: Sessions) -> bool {
    forall|id: Seq<char>| #[trigger] sessions.contains_key(id) ==> sessions[id].id == id
}

pub struct Registry {
    /// The sessions, no two of them with the same id.
    sessions: Vec<SessionShared>,
}

/// Whether the session `id` stands at `i`.
spec fn is_at(sessions: Seq<SessionShared>, id: Seq<char>, i: int) -> bool {
    0 <= i < sessions.len() && sessions[i]@.id == id
}

/// Whether no id occurs twice.
spec fn distinct(sessions: Seq<SessionShared>) -> bool {
    forall|i: int, j: int|
        0 <= i < j < sessions.len() ==> (#[trigger] sessions[i])@.id != (#[trigger] sessions[j])@.id
}

/// The table that sessions make up.
spec fn table(sessions: Seq<SessionShared>) -> Sessions {
    Map::new(
        |id: Seq<char>| exists|i: int| is_at(sessions, id, i),
        |id: Seq<char>| sessions[choose|i: int| is_at(sessions, id, i)]@,
    )
}

/// Every session stands in the table, under its own id.
proof fn lemma_table(sessions: Seq<SessionShared>)
    requires
        distinct(sessions),
    ensures
        keyed(table(sessions)),
        forall|i: int|
            0 <= i < sessions.len() ==> table(sessions).contains_key((#[trigger] sessions[i])@.id),
        forall|i: int|
            0 <= i < sessions.len() ==> table(sessions)[(#[trigger] sessions[i])@.id]
                == sessions[i]@,
{
    assert forall|i: int| 0 <= i < sessions.len() implies table(sessions).contains_key(
        (#[trigger] sessions[i])@.id,
    ) && table(sessions)[sessions[i]@.id] == sessions[i]@ by {
        assert(is_at(sessions, sessions[i]@.id, i));
        let j = choose|j: int| is_at(sessions, sessions[i]@.id, j);
        assert(i == j);
    }
}

/// What a listing says about a session.
pub open spec fn info_of(s: SessionState) -> InfoView {
    InfoView { id: s.id, started: s.started, status: s.status(), cmd: s.cmd }
}

/// Whether sessions stand oldest first.
pub open spec fn oldest_first(list: Seq<InfoView>) -> bool {
    forall|i: int, j: int|
        0 <= i < j < list.len() ==> (#[trigger] list[i]).started <= (#[trigger] list[j]).started
}

/// Whether `list` tells of the session `id`.
pub open spec fn is_listed(list: Seq<InfoView>, id: Seq<char>) -> bool {
    exists|i: int| 0 <= i < list.len() && (#[trigger] list[i]).id == id
}

/// Whether `list` tells of every session once, oldest first. Sessions that
/// started in the same second may stand in any order.
pub open spec fn is_listing(list: Seq<InfoView>, sessions: Sessions) -> bool {
    &&& oldest_first(list)
    &&& forall|i: int, j: int|
        0 <= i < j < list.len() ==> (#[trigger] list[i]).id != (#[trigger] list[j]).id
    &&& forall|i: int|
        0 <= i < list.len() ==> {
            &&& sessions.contains_key((#[trigger] list[i]).id)
            &&& list[i] == info_of(sessions[list[i].id])
        }
    &&& forall|id: Seq<char>| #[trigger] sessions.contains_key(id) ==> is_listed(list, id)
}

/// Whether `after` is the table once the shell of the session `id` has exited,
/// and `r` the session that left it.
pub open spec fn ends(
    before: Sessions,
    after: Sessions,
    id: Seq<char>,
    r: Option<SessionShared>,
) -> bool {
    if before.contains_key(id) && !before[id].ended {
        &&& r matches Some(s)
        &&& s@ == before[id].over()
        &&& after == before.remove(id)
    } else {
        r is None && after == before
    }
}

impl View for Registry {
    type V = Sessions;

    closed spec fn view(&self) -> Sessions {
        table(self.sessions@)
    }
}

impl Registry {
    #[verifier::type_invariant]
    spec fn wf(self) -> bool {
        distinct(self.sessions@)
    }

    pub fn new() -> (r: Self)
        ensures
            r@ == Map::<Seq<char>, SessionState>::empty(),
    {
        let r = Registry { sessions: Vec::new() };
        assert(r@ =~= Map::<Seq<char>, SessionState>::empty());
        r
    }

    /// Where the session `id` stands.
    fn find(&self, id: &str) -> (r: Option<usize>)
        ensures
            match r {
                Some(i) => is_at(self.sessions@, id@, i as int),
                None => !self@.contains_key(id@),
            },
    {
        let mut i: usize = 0;
        while i < self.sessions.len()
            invariant
                i <= self.sessions@.len(),
                forall|j: int| 0 <= j < i ==> (#[trigger] self.sessions@[j])@.id != id@,
            decreases self.sessions@.len() - i,
        {
            if same_text(self.sessions[i].id(), id) {
                return Some(i);
            }
            i = i + 1;
        }
        None
    }

    /// Register a session under its id; one that was there under the same id
    /// makes way.
    pub fn insert(&mut self, s: SessionShared)
        ensures
            final(self)@ == old(self)@.insert(s@.id, s@),
            keyed(final(self)@),
    {
        proof {
            use_type_invariant(&*self);
            lemma_table(self.sessions@);
        }
        let at = self.find(s.id());
        let mut whole = Registry::new();
        std::mem::swap(self, &mut whole);
        let Registry { mut sessions } = whole;
        let ghost before = sessions@;
        match at {
            Some(i) => {
                sessions[i] = s;
                assert(is_at(sessions@, s@.id, i as int));
            },
            None => {
                sessions.push(s);
                assert(is_at(sessions@, s@.id, sessions@.len() - 1));
                assert forall|i: int| 0 <= i < before.len() implies (#[trigger] before[i])@.id
                    != s@.id by {
                    assert(table(before).contains_key(before[i]@.id));
                }
            },
        }
        *self = Registry { sessions };
        proof {
            lemma_table(self.sessions@);
            lemma_inserted(before, self.sessions@, s);
        }
    }

    pub fn get(&self, id: &str) -> (r: Option<&SessionShared>)
        ensures
            match r {
                Some(s) => self@.contains_key(id@) && s@ == self@[id@] && s@.id == id@,
                None => !self@.contains_key(id@),
            },
            keyed(self@),
    {
        proof {
            use_type_invariant(self);
            lemma_table(self.sessions@);
        }
        match self.find(id) {
            Some(i) => Some(&self.sessions[i]),
            None => None,
        }
    }

    /// Take a session out of the table. To change a session, take it out and
    /// register it again.
    pub fn remove(&mut self, id: &str) -> (r: Option<SessionShared>)
        ensures
            final(self)@ == old(self)@.remove(id@),
            match r {
                Some(s) => old(self)@.contains_key(id@) && s@ == old(self)@[id@] && s@.id == id@,
                None => !old(self)@.contains_key(id@),
            },
            keyed(final(self)@),
    {
        proof {
            use_type_invariant(&*self);
            lemma_table(self.sessions@);
        }
        let i: usize = match self.find(id) {
            Some(i) => i,
            None => {
                assert(self@ =~= self@.remove(id@));
                return None;
            },
        };
        let mut whole = Registry::new();
        std::mem::swap(self, &mut whole);
        let Registry { mut sessions } = whole;
        let s = sessions.remove(i);
        assert(distinct(sessions@));
        *self = Registry { sessions };
        proof {
            lemma_table(self.sessions@);
            lemma_removed(old(self).sessions@, i as int);
        }
        Some(s)
    }

    /// The shell of a session has exited: the session leaves the table, and
    /// whoever still serves it learns that it is over. Ending a session that has
    /// ended before changes nothing.
    pub fn mark_ended(&mut self, id: &str) -> (r: Option<SessionShared>)
        ensures
            ends(old(self)@, final(self)@, id@, r),
            keyed(final(self)@),
    {
        let live = match self.get(id) {
            Some(s) => !s.is_ended(),
            None => false,
        };
        if !live {
            return None;
        }
        match self.remove(id) {
            Some(s) => {
                let mut s = s;
                s.mark_ended();
                Some(s)
            },
            None => None,
        }
    }

    pub fn contains(&self, id: &str) -> (r: bool)
        ensures
            r == self@.contains_key(id@),
            keyed(self@),
    {
        proof {
            use_type_invariant(self);
            lemma_table(self.sessions@);
        }
        self.find(id).is_some()
    }

    /// All sessions, oldest first.
    pub fn list(&self) -> (r: Vec<SessionInfo>)
        ensures
            is_listing(infos(r@), self@),
            keyed(self@),
    {
        proof {
            use_type_invariant(self);
            lemma_table(self.sessions@);
        }
        let mut v: Vec<SessionInfo> = Vec::new();
        let mut n: usize = 0;
        while n < self.sessions.len()
            invariant
                n <= self.sessions@.len(),
                distinct(self.sessions@),
                lists_first(infos(v@), self.sessions@, n as int),
            decreases self.sessions@.len() - n,
        {
            let s = &self.sessions[n];
            let info = SessionInfo {
                id: s.id().to_owned(),
                started: s.started(),
                status: s.status_str(),
                cmd: s.cmd().to_owned(),
            };
            let mut at: usize = v.len();
            while at > 0 && v[at - 1].started > info.started
                invariant
                    at <= v@.len(),
                    forall|j: int| at <= j < v@.len() ==> (#[trigger] v@[j]).started > info.started,
                decreases at,
            {
                at = at - 1;
            }
            let ghost before = infos(v@);
            v.insert(at, info);
            proof {
                assert(infos(v@) =~= before.insert(at as int, info@));
                assert forall|j: int| at <= j < before.len() implies (#[trigger] before[j]).started
                    > info.started by {}
                assert(at > 0 ==> before[at - 1].started <= info.started);
                lemma_listed_one_more(before, self.sessions@, n as int, at as int);
            }
            n = n + 1;
        }
        proof {
            assert forall|id: Seq<char>| #[trigger] self@.contains_key(id) implies is_listed(
                infos(v@),
                id,
            ) by {
                let i = choose|i: int| is_at(self.sessions@, id, i);
                assert(is_listed(infos(v@), self.sessions@[i]@.id));
            }
            assert forall|i: int| 0 <= i < infos(v@).len() implies self@.contains_key(
                (#[trigger] infos(v@)[i]).id,
            ) && infos(v@)[i] == info_of(self@[infos(v@)[i].id]) by {
                assert(is_of(infos(v@)[i], self.sessions@, n as int));
            }
        }
        v
    }
}

/// Whether `list` tells of the first `n` sessions, oldest first.
spec fn lists_first(list: Seq<InfoView>, sessions: Seq<SessionShared>, n: int) -> bool {
    &&& oldest_first(list)
    &&& forall|i: int, j: int|
        0 <= i < j < list.len() ==> (#[trigger] list[i]).id != (#[trigger] list[j]).id
    &&& forall|i: int| 0 <= i < n ==> is_listed(list, (#[trigger] sessions[i])@.id)
    &&& forall|j: int| 0 <= j < list.len() ==> is_of(#[trigger] list[j], sessions, n)
}

/// Whether `info` tells of one of the first `n` sessions.
spec fn is_of(info: InfoView, sessions: Seq<SessionShared>, n: int) -> bool {
    exists|i: int| 0 <= i < n && info == info_of((#[trigger] sessions[i])@)
}

/// A listing stays one when the next session is put where it belongs.
proof fn lemma_listed_one_more(
    list: Seq<InfoView>,
    sessions: Seq<SessionShared>,
    n: int,
    at: int,
)
    requires
        distinct(sessions),
        0 <= n < sessions.len(),
        lists_first(list, sessions, n),
        0 <= at <= list.len(),
        at > 0 ==> list[at - 1].started <= sessions[n]@.started,
        forall|j: int| at <= j < list.len() ==> (#[trigger] list[j]).started > sessions[n]@.started,
    ensures
        lists_first(list.insert(at, info_of(sessions[n]@)), sessions, n + 1),
{
    let info = info_of(sessions[n]@);
    let longer = list.insert(at, info);
    assert forall|j: int| 0 <= j < list.len() implies (#[trigger] list[j]).id != info.id by {
        assert(is_of(list[j], sessions, n));
        let i = choose|i: int| 0 <= i < n && list[j] == info_of((#[trigger] sessions[i])@);
        assert(sessions[i]@.id != sessions[n]@.id);
    }
    assert forall|i: int, j: int| 0 <= i < j < longer.len() implies (#[trigger] longer[i]).id != (
    #[trigger] longer[j]).id by {
        let a = if i < at { i } else { i - 1 };
        let b = if j < at { j } else { j - 1 };
        if i == at {
            assert(list[b] == longer[j]);
        } else if j == at {
            assert(list[a] == longer[i]);
        } else {
            assert(list[a].id != list[b].id);
        }
    }
    assert(oldest_first(longer)) by {
        assert forall|i: int, j: int| 0 <= i < j < longer.len() implies (
        #[trigger] longer[i]).started <= (#[trigger] longer[j]).started by {
            let a = if i < at { i } else { i - 1 };
            let b = if j < at { j } else { j - 1 };
            if i == at {
                assert(list[b] == longer[j]);
            } else if j == at {
                assert(list[a] == longer[i]);
                assert(list[a].started <= list[at - 1].started);
            } else {
                assert(list[a].started <= list[b].started);
            }
        }
    }
    assert forall|i: int| 0 <= i < n + 1 implies is_listed(
        longer,
        (#[trigger] sessions[i])@.id,
    ) by {
        if i < n {
            assert(is_listed(list, sessions[i]@.id));
            let j = choose|j: int|
                0 <= j < list.len() && (#[trigger] list[j]).id == sessions[i]@.id;
            let k = if j < at { j } else { j + 1 };
            assert(longer[k].id == sessions[i]@.id);
        } else {
            assert(longer[at].id == sessions[i]@.id);
        }
    }
    assert forall|j: int| 0 <= j < longer.len() implies is_of(
        #[trigger] longer[j],
        sessions,
        n + 1,
    ) by {
        if j == at {
            assert(longer[j] == info_of(sessions[n]@));
        } else {
            let k = if j < at { j } else { j - 1 };
            assert(longer[j] == list[k]);
            assert(is_of(list[k], sessions, n));
            let i = choose|i: int| 0 <= i < n && list[k] == info_of((#[trigger] sessions[i])@);
            assert(longer[j] == info_of(sessions[i]@));
        }
    }
}

/// What adding or replacing a session does to the table.
proof fn lemma_inserted(before: Seq<SessionShared>, now: Seq<SessionShared>, s: SessionShared)
    requires
        distinct(before),
        distinct(now),
        before.len() <= now.len() <= before.len() + 1,
        forall|i: int|
            0 <= i < before.len() ==> (#[trigger] now[i] == before[i] || (now[i] == s
                && before[i]@.id == s@.id)),
        exists|i: int| is_at(now, s@.id, i) && now[i] == s,
        now.len() > before.len() ==> now.last() == s,
    ensures
        table(now) == table(before).insert(s@.id, s@),
{
    lemma_table(before);
    lemma_table(now);
    let after = table(now);
    let want = table(before).insert(s@.id, s@);
    let at = choose|i: int| is_at(now, s@.id, i) && now[i] == s;
    assert forall|id: Seq<char>| #[trigger] after.contains_key(id) <==> want.contains_key(id) by {
        if after.contains_key(id) {
            let i = choose|i: int| is_at(now, id, i);
            if i < before.len() {
                assert(is_at(before, id, i));
            }
        }
        if table(before).contains_key(id) {
            let i = choose|i: int| is_at(before, id, i);
            assert(now[i]@.id == id);
            assert(is_at(now, id, i));
        }
    }
    assert forall|id: Seq<char>| after.contains_key(id) implies #[trigger] after[id]
        == want[id] by {
        let i = choose|i: int| is_at(now, id, i);
        assert(after[now[i]@.id] == now[i]@);
        if id == s@.id {
            assert(i == at);
        } else {
            assert(i < before.len());
            assert(table(before)[before[i]@.id] == before[i]@);
        }
    }
    assert(after =~= want);
}

/// What taking a session out does to the table.
proof fn lemma_removed(sessions: Seq<SessionShared>, i: int)
    requires
        distinct(sessions),
        distinct(sessions.remove(i)),
        0 <= i < sessions.len(),
    ensures
        table(sessions.remove(i)) == table(sessions).remove(sessions[i]@.id),
{
    let left = sessions.remove(i);
    lemma_table(sessions);
    lemma_table(left);
    let after = table(left);
    let want = table(sessions).remove(sessions[i]@.id);
    assert forall|id: Seq<char>| #[trigger] after.contains_key(id) <==> want.contains_key(id) by {
        if after.contains_key(id) {
            let j = choose|j: int| is_at(left, id, j);
            let k = if j < i { j } else { j + 1 };
            assert(is_at(sessions, id, k));
            assert(k != i);
        }
        if want.contains_key(id) {
            let k = choose|k: int| is_at(sessions, id, k);
            let j = if k < i { k } else { k - 1 };
            assert(is_at(left, id, j));
        }
    }
    assert forall|id: Seq<char>| after.contains_key(id) implies #[trigger] after[id]
        == want[id] by {
        let j = choose|j: int| is_at(left, id, j);
        let k = if j < i { j } else { j + 1 };
        assert(after[left[j]@.id] == left[j]@);
        assert(table(sessions)[sessions[k]@.id] == sessions[k]@);
    }
    assert(after =~= want);
}

/// Registering and removing sessions keeps each under its own id, and touches
/// no other.
pub proof fn law_sessions_stand_under_their_ids(sessions: Sessions, s: SessionState, id: Seq<char>)
    requires
        keyed(sessions),
    ensures
        keyed(Map::<Seq<char>, SessionState>::empty()),
        keyed(sessions.insert(s.id, s)),
        keyed(sessions.remove(id)),
        sessions.insert(s.id, s)[s.id] == s,
        !sessions.remove(id).contains_key(id),
        forall|other: Seq<char>|
            other != s.id && sessions.contains_key(other) ==> #[trigger] sessions.insert(
                s.id,
                s,
            )[other] == sessions[other],
        forall|other: Seq<char>|
            other != id && sessions.contains_key(other) ==> #[trigger] sessions.remove(id)[other]
                == sessions[other],
{
}

} // verus!
