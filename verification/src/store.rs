//! The session store: a map from canonical session key to session info.
//!
//! The store is the single shared state of the monitor.  It is modelled as
//! a `Map<Seq<char>, SessionView>`; the implementation keeps an association
//! vector with unique keys.  Insertion order is irrelevant to the model.

use vstd::prelude::*;

use crate::assoc::{
    keys_unique, lemma_map_of_absent, lemma_map_of_dom_len, lemma_map_of_index,
    lemma_map_of_remove, lemma_map_of_update, map_of,
};
use crate::event::{sessions_view, SessionInfo, SessionStatus, SessionView};

verus! {

/// True for the statuses in which a session waits on the user.
pub open spec fn is_waiting_status(st: SessionStatus) -> bool {
    st == SessionStatus::WaitingPermission || st == SessionStatus::WaitingInput
}

/// The keys of the sessions that wait on the user.
pub open spec fn waiting_keys(m: Map<Seq<char>, SessionView>) -> Set<Seq<char>> {
    m.dom().filter(|k: Seq<char>| is_waiting_status(m[k].status))
}

/// The number of sessions in the list whose status waits on the user.
spec fn count_waiting(s: Seq<(Seq<char>, SessionView)>) -> nat
    decreases s.len(),
{
    if s.len() == 0 {
        0
    } else {
        count_waiting(s.drop_last()) + (if is_waiting_status(s.last().1.status) {
            1nat
        } else {
            0nat
        })
    }
}

proof fn lemma_waiting_keys_len(s: Seq<(Seq<char>, SessionView)>)
    requires
        keys_unique(s),
    ensures
        waiting_keys(map_of(s)).finite(),
        waiting_keys(map_of(s)).len() == count_waiting(s),
    decreases s.len(),
{
    if s.len() == 0 {
        assert(waiting_keys(map_of(s)) =~= Set::<Seq<char>>::empty());
    } else {
        let d = s.drop_last();
        let k = s.last().0;
        let v = s.last().1;
        assert(keys_unique(d));
        lemma_waiting_keys_len(d);
        assert forall|j: int| 0 <= j < d.len() implies d[j].0 != k by {
            assert(d[j] == s[j]);
        }
        lemma_map_of_absent(d, k);
        let m = map_of(d);
        if is_waiting_status(v.status) {
            assert(waiting_keys(map_of(s)) =~= waiting_keys(m).insert(k));
            assert(!waiting_keys(m).contains(k));
        } else {
            assert(waiting_keys(map_of(s)) =~= waiting_keys(m));
        }
    }
}

/// The session store: a map from canonical key to session info.
pub struct SessionStore {
    entries: Vec<(String, SessionInfo)>,
}

impl SessionStore {
    /// The association list behind the store, as ghost values.
    pub closed spec fn entries_view(&self) -> Seq<(Seq<char>, SessionView)> {
        self.entries@.map_values(|kv: (String, SessionInfo)| (kv.0@, kv.1@))
    }

    /// Well-formed: no key occurs twice.
    pub closed spec fn wf(&self) -> bool {
        keys_unique(self.entries_view())
    }

    /// The session views held by the store, in internal order.
    pub closed spec fn values_seq(&self) -> Seq<SessionView> {
        self.entries_view().map_values(|kv: (Seq<char>, SessionView)| kv.1)
    }

    /// Creates an empty store.
    pub fn new() -> (s: Self)
        ensures
            s.wf(),
            s@ == Map::<Seq<char>, SessionView>::empty(),
    {
        let s = SessionStore { entries: Vec::new() };
        proof {
            assert(s.entries_view() =~= Seq::<(Seq<char>, SessionView)>::empty());
        }
        s
    }

    fn find(&self, key: &String) -> (r: Option<usize>)
        ensures
            match r {
                Some(i) => i < self.entries_view().len() && self.entries_view()[i as int].0
                    == key@,
                None => forall|i: int|
                    0 <= i < self.entries_view().len() ==> self.entries_view()[i].0 != key@,
            },
    {
        let n = self.entries.len();
        let mut i: usize = 0;
        while i < n
            invariant
                0 <= i <= n,
                n == self.entries_view().len(),
                forall|j: int| 0 <= j < i ==> self.entries_view()[j].0 != key@,
            decreases n - i,
        {
            if self.entries[i].0 == *key {
                return Some(i);
            }
            i = i + 1;
        }
        None
    }

    /// Looks a session up by its key.
    pub fn get(&self, key: &String) -> (r: Option<&SessionInfo>)
        requires
            self.wf(),
        ensures
            match r {
                Some(v) => self@.contains_key(key@) && v@ == self@[key@],
                None => !self@.contains_key(key@),
            },
    {
        match self.find(key) {
            Some(i) => {
                proof {
                    lemma_map_of_index(self.entries_view(), i as int);
                }
                Some(&self.entries[i].1)
            },
            None => {
                proof {
                    lemma_map_of_absent(self.entries_view(), key@);
                }
                None
            },
        }
    }

    /// Inserts a session at `key`, replacing any session already there.
    pub fn insert(&mut self, key: String, value: SessionInfo)
        requires
            old(self).wf(),
        ensures
            final(self).wf(),
            final(self)@ == old(self)@.insert(key@, value@),
    {
        let ghost s0 = self.entries_view();
        match self.find(&key) {
            Some(i) => {
                self.entries.set(i, (key, value));
                proof {
                    assert(self.entries_view() =~= s0.update(i as int, (key@, value@)));
                    lemma_map_of_update(s0, i as int, (key@, value@));
                    assert(final(self)@ =~= old(self)@.insert(key@, value@));
                }
            },
            None => {
                self.entries.push((key, value));
                proof {
                    assert(self.entries_view() =~= s0.push((key@, value@)));
                    assert(self.entries_view().drop_last() =~= s0);
                    assert(keys_unique(self.entries_view()));
                }
            },
        }
    }

    /// Removes the session at `key`; a no-op when the key is absent.
    pub fn remove(&mut self, key: &String)
        requires
            old(self).wf(),
        ensures
            final(self).wf(),
            final(self)@ == old(self)@.remove(key@),
    {
        let ghost s0 = self.entries_view();
        match self.find(key) {
            Some(i) => {
                self.entries.remove(i);
                proof {
                    assert(self.entries_view() =~= s0.remove(i as int));
                    lemma_map_of_remove(s0, i as int);
                    assert(final(self)@ =~= old(self)@.remove(key@));
                }
            },
            None => {
                proof {
                    lemma_map_of_absent(s0, key@);
                    assert(old(self)@.remove(key@) =~= old(self)@);
                }
            },
        }
    }

    /// Removes every session.
    pub fn clear(&mut self)
        ensures
            final(self).wf(),
            final(self)@ == Map::<Seq<char>, SessionView>::empty(),
    {
        self.entries.clear();
        proof {
            assert(self.entries_view() =~= Seq::<(Seq<char>, SessionView)>::empty());
        }
    }

    /// The number of tracked sessions.
    pub fn len(&self) -> (n: usize)
        requires
            self.wf(),
        ensures
            n == self@.dom().len(),
    {
        proof {
            lemma_map_of_dom_len(self.entries_view());
        }
        self.entries.len()
    }

    /// True when no session is tracked.
    pub fn is_empty(&self) -> (r: bool)
        requires
            self.wf(),
        ensures
            r == (self@.dom().len() == 0),
    {
        proof {
            lemma_map_of_dom_len(self.entries_view());
        }
        self.entries.is_empty()
    }

    /// Counts the sessions that wait on the user (permission or input).
    pub fn waiting_count(&self) -> (n: usize)
        requires
            self.wf(),
        ensures
            n == waiting_keys(self@).len(),
    {
        let ghost s = self.entries_view();
        let len = self.entries.len();
        let mut n: usize = 0;
        let mut i: usize = 0;
        while i < len
            invariant
                0 <= i <= len,
                len == s.len(),
                s == self.entries_view(),
                n <= i,
                n == count_waiting(s.take(i as int)),
            decreases len - i,
        {
            let st = self.entries[i].1.status;
            proof {
                assert(s.take(i + 1).drop_last() =~= s.take(i as int));
                assert(s.take(i + 1).last() == s[i as int]);
            }
            if st == SessionStatus::WaitingPermission || st == SessionStatus::WaitingInput {
                n = n + 1;
            }
            i = i + 1;
        }
        proof {
            assert(s.take(len as int) =~= s);
            lemma_waiting_keys_len(s);
        }
        n
    }

    /// Returns a copy of every tracked session, in internal order.
    pub fn values(&self) -> (r: Vec<SessionInfo>)
        ensures
            sessions_view(r@) == self.values_seq(),
    {
        let n = self.entries.len();
        let mut r: Vec<SessionInfo> = Vec::new();
        let mut i: usize = 0;
        while i < n
            invariant
                0 <= i <= n,
                n == self.entries_view().len(),
                sessions_view(r@) =~= self.values_seq().take(i as int),
            decreases n - i,
        {
            proof {
                assert(sessions_view(r@).len() == i);
                assert(r@.len() == i);
            }
            let e = self.entries[i].1.clone();
            proof {
                assert(e@ == self.entries@[i as int].1@);
            }
            let ghost prev = r@;
            r.push(e);
            proof {
                assert(r@.len() == i + 1);
                assert(forall|j: int| 0 <= j < i ==> r@[j] == prev[j]);
                assert(sessions_view(r@)[i as int] == e@);
                assert(e@ == self.values_seq()[i as int]);
                assert(sessions_view(r@) =~~= self.values_seq().take(i + 1));
            }
            i = i + 1;
        }
        proof {
            assert(self.values_seq().take(n as int) =~= self.values_seq());
        }
        r
    }

    /// Returns a copy of every entry, key and session, in internal order.
    pub fn to_entries(&self) -> (r: Vec<(String, SessionInfo)>)
        ensures
            r@.map_values(|kv: (String, SessionInfo)| (kv.0@, kv.1@)) == self.entries_view(),
    {
        let n = self.entries.len();
        let mut r: Vec<(String, SessionInfo)> = Vec::new();
        let mut i: usize = 0;
        while i < n
            invariant
                0 <= i <= n,
                n == self.entries_view().len(),
                r@.map_values(|kv: (String, SessionInfo)| (kv.0@, kv.1@)) =~= self.entries_view(
                ).take(i as int),
            decreases n - i,
        {
            proof {
                assert(r@.map_values(|kv: (String, SessionInfo)| (kv.0@, kv.1@)).len() == i);
                assert(r@.len() == i);
            }
            let e = (self.entries[i].0.clone(), self.entries[i].1.clone());
            proof {
                assert(e.0@ == self.entries@[i as int].0@);
                assert(e.1@ == self.entries@[i as int].1@);
            }
            let ghost prev = r@;
            r.push(e);
            proof {
                assert(r@.len() == i + 1);
                assert(forall|j: int| 0 <= j < i ==> r@[j] == prev[j]);
                assert(r@.map_values(|kv: (String, SessionInfo)| (kv.0@, kv.1@))[i as int]
                    == self.entries_view()[i as int]);
                assert(r@.map_values(|kv: (String, SessionInfo)| (kv.0@, kv.1@)) =~~= self
                    .entries_view().take(i + 1));
            }
            i = i + 1;
        }
        proof {
            assert(self.entries_view().take(n as int) =~= self.entries_view());
        }
        r
    }

    /// Rebuilds a store from saved entries; a later entry wins its key.
    pub fn from_entries(entries: Vec<(String, SessionInfo)>) -> (s: Self)
        ensures
            s.wf(),
            s@ == map_of(entries@.map_values(|kv: (String, SessionInfo)| (kv.0@, kv.1@))),
    {
        let ghost target = entries@.map_values(|kv: (String, SessionInfo)| (kv.0@, kv.1@));
        let n = entries.len();
        let mut s = SessionStore::new();
        let mut i: usize = 0;
        while i < n
            invariant
                0 <= i <= n,
                n == target.len(),
                target == entries@.map_values(|kv: (String, SessionInfo)| (kv.0@, kv.1@)),
                s.wf(),
                s@ == map_of(target.take(i as int)),
            decreases n - i,
        {
            let key = entries[i].0.clone();
            let value = entries[i].1.clone();
            proof {
                assert(target.take(i + 1).drop_last() =~= target.take(i as int));
                assert(target.take(i + 1).last() == target[i as int]);
            }
            s.insert(key, value);
            i = i + 1;
        }
        proof {
            assert(target.take(n as int) =~= target);
        }
        s
    }

    /// Every value the store hands out belongs to the map, and there are as
    /// many of them as keys.
    pub proof fn lemma_values_in_store(&self)
        requires
            self.wf(),
        ensures
            self.values_seq().len() == self@.dom().len(),
            forall|i: int|
                0 <= i < self.values_seq().len() ==> crate::assoc::maps_to_value(
                    self@,
                    #[trigger] self.values_seq()[i],
                ),
    {
        lemma_map_of_dom_len(self.entries_view());
        assert forall|i: int| 0 <= i < self.values_seq().len() implies crate::assoc::maps_to_value(
            self@,
            #[trigger] self.values_seq()[i],
        ) by {
            lemma_map_of_index(self.entries_view(), i);
            let k = self.entries_view()[i].0;
            assert(self@.contains_key(k) && self@[k] == self.values_seq()[i]);
        }
    }
}

impl View for SessionStore {
    type V = Map<Seq<char>, SessionView>;

    closed spec fn view(&self) -> Map<Seq<char>, SessionView> {
        map_of(self.entries_view())
    }
}

} // verus!
