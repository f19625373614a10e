//! The diff-viewer process registry.
//!
//! The registry owns at most one child server process per window key and
//! a content hash per key, and hands out ports from a wrapping counter.
//! It is generic in the process handle: the caller wraps the registry in
//! its one lock, and must terminate every handle the registry returns —
//! the compare-and-update primitive decides *which* process must die, the
//! caller performs the kill after the decision, still under the lock.

use vstd::prelude::*;

use crate::assoc::{
    keys_unique, lemma_map_of_absent, lemma_map_of_dom_len, lemma_map_of_index,
    lemma_map_of_remove, lemma_map_of_update, map_of,
};

verus! {

/// The first port handed out, and the value the counter wraps back to.
pub const DEFAULT_DIFIT_PORT: u16 = 4966;

/// The outcome of comparing a window's new content hash with the
/// recorded one.
#[derive(Clone, Copy, PartialEq, Eq, Structural, Debug)]
pub enum HashCompareResult {
    /// Hash is the same as before; the running process may be reused.
    Unchanged,
    /// Hash has changed; the recorded process was removed for the caller
    /// to kill, and the new hash was recorded.
    Changed,
    /// No previous hash existed; the new hash was recorded.
    NewEntry,
}

/// The ghost model of the registry: the owned processes, the recorded
/// hashes, and the port counter.
pub struct RegistryModel<P> {
    pub procs: Map<Seq<char>, P>,
    pub hashes: Map<Seq<char>, u64>,
    pub port: u16,
}

/// The port counter after one allocation: one up, wrapping back to the
/// base rather than into low ports.
pub open spec fn next_port_after(p: u16) -> u16 {
    let w: u16 = if p == 0xFFFF {
        0
    } else {
        (p + 1) as u16
    };
    if w < DEFAULT_DIFIT_PORT {
        DEFAULT_DIFIT_PORT
    } else {
        w
    }
}

/// The compare-and-update decision, as one atomic step of the model:
/// an equal hash changes nothing; a different hash removes the process
/// (returned for the caller to kill) and records the new hash; an absent
/// hash is recorded fresh.
pub open spec fn spec_compare_and_update<P>(m: RegistryModel<P>, k: Seq<char>, h: u64) -> (
    RegistryModel<P>,
    HashCompareResult,
    Option<P>,
) {
    if m.hashes.contains_key(k) {
        if m.hashes[k] == h {
            (m, HashCompareResult::Unchanged, None)
        } else {
            (
                RegistryModel {
                    procs: m.procs.remove(k),
                    hashes: m.hashes.insert(k, h),
                    port: m.port,
                },
                HashCompareResult::Changed,
                if m.procs.contains_key(k) {
                    Some(m.procs[k])
                } else {
                    None
                },
            )
        }
    } else {
        (
            RegistryModel { procs: m.procs, hashes: m.hashes.insert(k, h), port: m.port },
            HashCompareResult::NewEntry,
            None,
        )
    }
}

/// Removing a window: its process (if any) is handed back for the caller
/// to kill, and its hash entry is cleared.
pub open spec fn spec_kill<P>(m: RegistryModel<P>, k: Seq<char>) -> (RegistryModel<P>, Option<P>) {
    (
        RegistryModel { procs: m.procs.remove(k), hashes: m.hashes.remove(k), port: m.port },
        if m.procs.contains_key(k) {
            Some(m.procs[k])
        } else {
            None
        },
    )
}

/// Registry of running diff-viewer processes, keyed by window label.
pub struct DifitProcessRegistry<P> {
    processes: Vec<(String, P)>,
    diff_hashes: Vec<(String, u64)>,
    next_port: u16,
}

impl<P> DifitProcessRegistry<P> {
    /// The process entries, as ghost values.
    pub closed spec fn procs_seq(&self) -> Seq<(Seq<char>, P)> {
        self.processes@.map_values(|kv: (String, P)| (kv.0@, kv.1))
    }

    /// The hash entries, as ghost values.
    pub closed spec fn hashes_seq(&self) -> Seq<(Seq<char>, u64)> {
        self.diff_hashes@.map_values(|kv: (String, u64)| (kv.0@, kv.1))
    }

    /// Well-formed: no window key occurs twice in either table.
    pub closed spec fn wf(&self) -> bool {
        keys_unique(self.procs_seq()) && keys_unique(self.hashes_seq())
    }

    /// The ghost model of the registry.
    pub closed spec fn model(&self) -> RegistryModel<P> {
        RegistryModel {
            procs: map_of(self.procs_seq()),
            hashes: map_of(self.hashes_seq()),
            port: self.next_port,
        }
    }

    /// Creates an empty registry; ports start at the base.
    pub fn new() -> (r: Self)
        ensures
            r.wf(),
            r.model().procs == Map::<Seq<char>, P>::empty(),
            r.model().hashes == Map::<Seq<char>, u64>::empty(),
            r.model().port == DEFAULT_DIFIT_PORT,
    {
        let r = DifitProcessRegistry {
            processes: Vec::new(),
            diff_hashes: Vec::new(),
            next_port: DEFAULT_DIFIT_PORT,
        };
        proof {
            assert(r.procs_seq() =~= Seq::<(Seq<char>, P)>::empty());
            assert(r.hashes_seq() =~= Seq::<(Seq<char>, u64)>::empty());
        }
        r
    }

    /// Hands out the next port: counting up from the base, wrapping back
    /// to the base, never into low ports.
    pub fn get_next_port(&mut self) -> (port: u16)
        requires
            old(self).wf(),
        ensures
            final(self).wf(),
            port == old(self).model().port,
            final(self).model().port == next_port_after(old(self).model().port),
            final(self).model().procs == old(self).model().procs,
            final(self).model().hashes == old(self).model().hashes,
    {
        let current = self.next_port;
        if self.next_port == 0xFFFF {
            self.next_port = 0;
        } else {
            self.next_port = self.next_port + 1;
        }
        if self.next_port < DEFAULT_DIFIT_PORT {
            self.next_port = DEFAULT_DIFIT_PORT;
        }
        current
    }

    fn find_proc(&self, key: &String) -> (r: Option<usize>)
        ensures
            match r {
                Some(i) => i < self.procs_seq().len() && self.procs_seq()[i as int].0 == key@,
                None => forall|i: int|
                    0 <= i < self.procs_seq().len() ==> self.procs_seq()[i].0 != key@,
            },
    {
        let n = self.processes.len();
        let mut i: usize = 0;
        while i < n
            invariant
                0 <= i <= n == self.procs_seq().len(),
                forall|j: int| 0 <= j < i ==> self.procs_seq()[j].0 != key@,
            decreases n - i,
        {
            if self.processes[i].0 == *key {
                return Some(i);
            }
            i = i + 1;
        }
        None
    }

    fn find_hash(&self, key: &String) -> (r: Option<usize>)
        ensures
            match r {
                Some(i) => i < self.hashes_seq().len() && self.hashes_seq()[i as int].0 == key@,
                None => forall|i: int|
                    0 <= i < self.hashes_seq().len() ==> self.hashes_seq()[i].0 != key@,
            },
    {
        let n = self.diff_hashes.len();
        let mut i: usize = 0;
        while i < n
            invariant
                0 <= i <= n == self.hashes_seq().len(),
                forall|j: int| 0 <= j < i ==> self.hashes_seq()[j].0 != key@,
            decreases n - i,
        {
            if self.diff_hashes[i].0 == *key {
                return Some(i);
            }
            i = i + 1;
        }
        None
    }

    /// Takes the process registered at `key` out of the table, if any.
    fn take_proc(&mut self, key: &String) -> (r: Option<P>)
        requires
            old(self).wf(),
        ensures
            final(self).wf(),
            final(self).model().procs == old(self).model().procs.remove(key@),
            final(self).model().hashes == old(self).model().hashes,
            final(self).model().port == old(self).model().port,
            r == (if old(self).model().procs.contains_key(key@) {
                Some(old(self).model().procs[key@])
            } else {
                None::<P>
            }),
    {
        let ghost s0 = self.procs_seq();
        match self.find_proc(key) {
            Some(i) => {
                proof {
                    lemma_map_of_index(s0, i as int);
                }
                let (_, p) = self.processes.remove(i);
                proof {
                    assert(self.procs_seq() =~= s0.remove(i as int));
                    lemma_map_of_remove(s0, i as int);
                    assert(final(self).model().procs =~= old(self).model().procs.remove(key@));
                }
                Some(p)
            },
            None => {
                proof {
                    lemma_map_of_absent(s0, key@);
                    assert(old(self).model().procs.remove(key@) =~= old(self).model().procs);
                }
                None
            },
        }
    }

    /// Records the hash for `key`, replacing any recorded one.
    fn put_hash(&mut self, key: &String, hash: u64)
        requires
            old(self).wf(),
        ensures
            final(self).wf(),
            final(self).model().hashes == old(self).model().hashes.insert(key@, hash),
            final(self).model().procs == old(self).model().procs,
            final(self).model().port == old(self).model().port,
    {
        let ghost s0 = self.hashes_seq();
        match self.find_hash(key) {
            Some(i) => {
                self.diff_hashes.set(i, (key.clone(), hash));
                proof {
                    assert(self.hashes_seq() =~= s0.update(i as int, (key@, hash)));
                    lemma_map_of_update(s0, i as int, (key@, hash));
                    assert(final(self).model().hashes =~= old(self).model().hashes.insert(
                        key@,
                        hash,
                    ));
                }
            },
            None => {
                self.diff_hashes.push((key.clone(), hash));
                proof {
                    assert(self.hashes_seq() =~= s0.push((key@, hash)));
                    assert(self.hashes_seq().drop_last() =~= s0);
                    assert(keys_unique(self.hashes_seq()));
                }
            },
        }
    }

    /// Registers a spawned process under its window label, replacing any
    /// mapping already there.  Callers route spawns through
    /// [`Self::compare_and_update_hash`] first, so at most one process
    /// lives per key; a second registration without an intervening kill
    /// replaces the mapping and leaks the old handle — the table does
    /// not detect that as a fault.
    pub fn register(&mut self, window_label: String, process: P)
        requires
            old(self).wf(),
        ensures
            final(self).wf(),
            final(self).model().procs == old(self).model().procs.insert(window_label@, process),
            final(self).model().hashes == old(self).model().hashes,
            final(self).model().port == old(self).model().port,
    {
        let ghost s0 = self.procs_seq();
        let ghost key = window_label@;
        match self.find_proc(&window_label) {
            Some(i) => {
                self.processes.set(i, (window_label, process));
                proof {
                    assert(self.procs_seq() =~= s0.update(i as int, (key, process)));
                    lemma_map_of_update(s0, i as int, (key, process));
                    assert(final(self).model().procs =~= old(self).model().procs.insert(
                        key,
                        process,
                    ));
                }
            },
            None => {
                self.processes.push((window_label, process));
                proof {
                    assert(self.procs_seq() =~= s0.push((key, process)));
                    assert(self.procs_seq().drop_last() =~= s0);
                    assert(keys_unique(self.procs_seq()));
                }
            },
        }
    }

    /// Records the hash for a window, replacing any recorded one.
    pub fn set_diff_hash(&mut self, window_label: &String, hash: u64)
        requires
            old(self).wf(),
        ensures
            final(self).wf(),
            final(self).model().hashes == old(self).model().hashes.insert(window_label@, hash),
            final(self).model().procs == old(self).model().procs,
            final(self).model().port == old(self).model().port,
    {
        self.put_hash(window_label, hash);
    }

    /// The core decision primitive, one atomic step under the caller's
    /// lock: compares the recorded hash with `new_hash` and updates the
    /// tables as [`spec_compare_and_update`] says.  The returned handle,
    /// if any, is the displaced process; the caller must kill it before
    /// releasing the lock.
    pub fn compare_and_update_hash(&mut self, window_label: &String, new_hash: u64) -> (r: (
        HashCompareResult,
        Option<P>,
    ))
        requires
            old(self).wf(),
        ensures
            final(self).wf(),
            (final(self).model(), r.0, r.1) == spec_compare_and_update(
                old(self).model(),
                window_label@,
                new_hash,
            ),
    {
        let previous = match self.find_hash(window_label) {
            Some(i) => {
                proof {
                    lemma_map_of_index(self.hashes_seq(), i as int);
                }
                Some(self.diff_hashes[i].1)
            },
            None => {
                proof {
                    lemma_map_of_absent(self.hashes_seq(), window_label@);
                }
                None
            },
        };
        match previous {
            Some(old_hash) if old_hash == new_hash => (HashCompareResult::Unchanged, None),
            Some(_) => {
                let displaced = self.take_proc(window_label);
                self.put_hash(window_label, new_hash);
                (HashCompareResult::Changed, displaced)
            },
            None => {
                self.put_hash(window_label, new_hash);
                (HashCompareResult::NewEntry, None)
            },
        }
    }

    /// Removes a window: clears its hash and hands its process back for
    /// the caller to kill.  Idempotent: a second call returns nothing.
    pub fn kill(&mut self, window_label: &String) -> (r: Option<P>)
        requires
            old(self).wf(),
        ensures
            final(self).wf(),
            (final(self).model(), r) == spec_kill(old(self).model(), window_label@),
    {
        let displaced = self.take_proc(window_label);
        let ghost s0 = self.hashes_seq();
        match self.find_hash(window_label) {
            Some(i) => {
                self.diff_hashes.remove(i);
                proof {
                    assert(self.hashes_seq() =~= s0.remove(i as int));
                    lemma_map_of_remove(s0, i as int);
                    assert(final(self).model().hashes =~= old(self).model().hashes.remove(
                        window_label@,
                    ));
                }
            },
            None => {
                proof {
                    lemma_map_of_absent(s0, window_label@);
                    assert(old(self).model().hashes.remove(window_label@) =~= old(
                        self,
                    ).model().hashes);
                }
            },
        }
        displaced
    }

    /// Removes every window and hands every owned process back, in table
    /// order, for the caller to kill: used on shutdown so no child
    /// outlives the monitor.
    pub fn kill_all(&mut self) -> (r: Vec<P>)
        requires
            old(self).wf(),
        ensures
            final(self).wf(),
            final(self).model().procs == Map::<Seq<char>, P>::empty(),
            final(self).model().hashes == Map::<Seq<char>, u64>::empty(),
            final(self).model().port == old(self).model().port,
            r@ == old(self).procs_seq().map_values(|kv: (Seq<char>, P)| kv.1),
            r@.len() == old(self).model().procs.dom().len(),
            forall|i: int|
                0 <= i < r@.len() ==> crate::assoc::maps_to_value(
                    old(self).model().procs,
                    #[trigger] r@[i],
                ),
    {
        let ghost s0 = self.procs_seq();
        let mut r: Vec<P> = Vec::new();
        let ghost values = s0.map_values(|kv: (Seq<char>, P)| kv.1);
        proof {
            assert(r@ =~= values.take(0));
            assert(self.procs_seq() =~= s0.skip(0));
        }
        while self.processes.len() > 0
            invariant
                self.next_port == old(self).next_port,
                self.diff_hashes == old(self).diff_hashes,
                values == s0.map_values(|kv: (Seq<char>, P)| kv.1),
                r@.len() + self.procs_seq().len() == values.len(),
                r@ =~= values.take(r@.len() as int),
                self.procs_seq() =~= s0.skip(r@.len() as int),
            decreases self.processes.len(),
        {
            let ghost done = r@.len() as int;
            let ghost prev_seq = self.procs_seq();
            let ghost prev_r = r@;
            proof {
                assert(prev_seq.len() == self.processes@.len());
                assert(prev_seq.len() > 0);
                assert(values.len() == s0.len());
                assert(done + prev_seq.len() == s0.len());
                assert(done < s0.len());
            }
            let (_, p) = self.processes.remove(0);
            r.push(p);
            proof {
                assert(self.procs_seq() =~= prev_seq.drop_first());
                assert(s0.skip(done)[0] == s0[done]);
                assert(prev_seq[0] == s0[done]);
                assert(p == s0[done].1);
                assert(r@ == prev_r.push(p));
                assert(r@ =~= values.take(done + 1));
                assert(self.procs_seq() =~= s0.skip(done + 1));
            }
        }
        proof {
            assert(r@ =~= values);
            assert(self.procs_seq().len() == 0);
            assert(self.procs_seq() =~= Seq::<(Seq<char>, P)>::empty());
            assert(self.model().procs =~= Map::<Seq<char>, P>::empty());
        }
        self.diff_hashes.clear();
        proof {
            assert(self.hashes_seq() =~= Seq::<(Seq<char>, u64)>::empty());
            assert(self.model().hashes =~= Map::<Seq<char>, u64>::empty());
            lemma_map_of_dom_len(s0);
            assert forall|i: int| 0 <= i < r@.len() implies crate::assoc::maps_to_value(
                old(self).model().procs,
                #[trigger] r@[i],
            ) by {
                lemma_map_of_index(s0, i);
                let k = s0[i].0;
                assert(old(self).model().procs.contains_key(k) && old(self).model().procs[k]
                    == r@[i]);
            }
        }
        r
    }
}

// ---------------------------------------------------------------------------
// Laws of the registry.
// ---------------------------------------------------------------------------

/// Comparing the same hash twice in a row: whatever the first call did,
/// the second returns `Unchanged`, removes no process, and changes
/// nothing.
pub proof fn lemma_hash_reuse<P>(m: RegistryModel<P>, k: Seq<char>, h: u64)
    ensures
        ({
            let first = spec_compare_and_update(m, k, h);
            let second = spec_compare_and_update(first.0, k, h);
            second.1 == HashCompareResult::Unchanged && second.2 is None && second.0 == first.0
        }),
{
}

/// A hash change triggers exactly one kill: recording `h1` fresh returns
/// `NewEntry` with nothing to kill; after a process is registered,
/// comparing a different `h2` returns `Changed` and hands back exactly
/// that process, which the registry no longer owns — no double kill, no
/// leak.
pub proof fn lemma_hash_change_single_kill<P>(
    m: RegistryModel<P>,
    k: Seq<char>,
    h1: u64,
    h2: u64,
    p: P,
)
    requires
        !m.hashes.contains_key(k),
        !m.procs.contains_key(k),
        h1 != h2,
    ensures
        ({
            let first = spec_compare_and_update(m, k, h1);
            let registered = RegistryModel {
                procs: first.0.procs.insert(k, p),
                hashes: first.0.hashes,
                port: first.0.port,
            };
            let second = spec_compare_and_update(registered, k, h2);
            first.1 == HashCompareResult::NewEntry && first.2 is None && second.1
                == HashCompareResult::Changed && second.2 == Some(p) && !second.0.procs.contains_key(
                k,
            )
        }),
{
}

} // verus!
