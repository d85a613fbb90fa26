//! The group of processes that are kept asleep, each with the application it belongs to.
//!
//! Sending the signals is left to the caller: the operations here say which processes
//! join or leave the group, and which processes must be woken on the way out.
use std::collections::HashMap;
use std::collections::HashSet;
use vstd::prelude::*;

verus! {

/// A map from process id to application name.
pub type PidApp = HashMap<u32, String>;

/// Processes kept asleep, each with its application.
pub struct AppProcessGroup {
    pub processes: HashMap<u32, String>,
}

/// The group after `other` is put to sleep with it: an entry of `other` replaces one with
/// the same pid.
pub open spec fn put_spec(group: Map<u32, String>, other: Map<u32, String>) -> Map<u32, String> {
    group.union_prefer_right(other)
}

/// The group after the processes of `remove` are woken and leave it.
pub open spec fn wake_spec(group: Map<u32, String>, remove: Map<u32, String>) -> Map<u32, String> {
    group.remove_keys(remove.dom())
}

/// The group after the processes not in `alive` have left it.
pub open spec fn retain_spec(group: Map<u32, String>, alive: Set<u32>) -> Map<u32, String> {
    group.restrict(alive)
}

impl AppProcessGroup {
    /// An empty group.
    pub fn new() -> (r: AppProcessGroup)
        ensures
            r.processes@ == Map::<u32, String>::empty(),
    {
        AppProcessGroup { processes: HashMap::new() }
    }

    /// Adds the processes of `other` to the group (an entry of `other` replaces one with the
    /// same pid); an empty `other` leaves the group as it is.
    pub fn put_them_nap(&mut self, other: PidApp)
        ensures
            final(self).processes@ == put_spec(old(self).processes@, other@),
    {
        broadcast use vstd::std_specs::hash::group_hash_axioms;

        if other.is_empty() {
            assert(put_spec(self.processes@, other@) =~= self.processes@);
            return;
        }
        let ghost start = self.processes@;
        let keys = keys_of(&other);
        let n = keys.len();
        let mut i: usize = 0;
        while i < n
            invariant
                n == keys.len(),
                i <= n,
                keys@.to_set() == other@.dom(),
                self.processes@ == start.union_prefer_right(
                    other@.restrict(keys@.take(i as int).to_set()),
                ),
            decreases n - i,
        {
            let k = keys[i];
            let ghost pre = keys@.take(i as int);
            proof {
                assert(keys@.to_set().contains(k));
                assert(keys@.take(i + 1) =~= pre.push(k));
                pre.lemma_push_to_set_commute(k);
            }
            let v = other.get(&k).unwrap().clone();
            self.processes.insert(k, v);
            proof {
                assert(self.processes@ =~= start.union_prefer_right(
                    other@.restrict(pre.push(k).to_set()),
                ));
            }
            i = i + 1;
        }
        proof {
            assert(keys@.take(n as int) =~= keys@);
            assert(other@.restrict(other@.dom()) =~= other@);
        }
    }

    /// Removes the processes of `remove` from the group; returns the pids that were in the
    /// group and left it, which the caller wakes.
    pub fn wake_them_up(&mut self, remove: &PidApp) -> (r: Vec<u32>)
        ensures
            final(self).processes@ == wake_spec(old(self).processes@, remove@),
            r@.to_set() == old(self).processes@.dom().intersect(remove@.dom()),
            r@.no_duplicates(),
    {
        broadcast use vstd::std_specs::hash::group_hash_axioms;

        let ghost start = self.processes@;
        let keys = keys_of(remove);
        let mut r: Vec<u32> = Vec::new();
        let n = keys.len();
        let mut i: usize = 0;
        while i < n
            invariant
                n == keys.len(),
                i <= n,
                keys@.to_set() == remove@.dom(),
                keys@.no_duplicates(),
                self.processes@ == start.remove_keys(keys@.take(i as int).to_set()),
                r@.to_set() == start.dom().intersect(keys@.take(i as int).to_set()),
                r@.no_duplicates(),
            decreases n - i,
        {
            let k = keys[i];
            let ghost pre = keys@.take(i as int);
            proof {
                lemma_fresh(keys@, i as int);
                assert(keys@.take(i + 1) =~= pre.push(k));
                pre.lemma_push_to_set_commute(k);
            }
            let ghost r0 = r@;
            let ghost present = self.processes@.contains_key(k);
            proof {
                assert(present == start.dom().contains(k));
            }
            let was = self.processes.remove(&k);
            if was.is_some() {
                proof {
                    assert(!r@.contains(k)) by {
                        if r@.contains(k) {
                            assert(r@.to_set().contains(k));
                        }
                    }
                }
                r.push(k);
                proof {
                    r0.lemma_push_to_set_commute(k);
                }
            }
            proof {
                assert(self.processes@ =~= start.remove_keys(pre.push(k).to_set()));
                assert(r@.to_set() =~= start.dom().intersect(pre.push(k).to_set()));
            }
            i = i + 1;
        }
        proof {
            assert(keys@.take(n as int) =~= keys@);
        }
        r
    }

    /// Removes from the group the processes whose pid is not in `alive`; returns their pids,
    /// which the caller wakes.
    pub fn retain_alive(&mut self, alive: &HashSet<u32>) -> (r: Vec<u32>)
        ensures
            final(self).processes@ == retain_spec(old(self).processes@, alive@),
            r@.to_set() == old(self).processes@.dom().difference(alive@),
            r@.no_duplicates(),
    {
        broadcast use vstd::std_specs::hash::group_hash_axioms;

        let ghost start = self.processes@;
        let keys = keys_of(&self.processes);
        let mut r: Vec<u32> = Vec::new();
        let n = keys.len();
        let mut i: usize = 0;
        while i < n
            invariant
                n == keys.len(),
                i <= n,
                keys@.to_set() == start.dom(),
                keys@.no_duplicates(),
                self.processes@ == start.remove_keys(keys@.take(i as int).to_set().difference(alive@)),
                r@.to_set() == keys@.take(i as int).to_set().difference(alive@),
                r@.no_duplicates(),
            decreases n - i,
        {
            let k = keys[i];
            let ghost pre = keys@.take(i as int);
            proof {
                lemma_fresh(keys@, i as int);
                assert(keys@.take(i + 1) =~= pre.push(k));
                pre.lemma_push_to_set_commute(k);
            }
            let ghost r0 = r@;
            if !alive.contains(&k) {
                self.processes.remove(&k);
                proof {
                    assert(!r@.contains(k)) by {
                        if r@.contains(k) {
                            assert(r@.to_set().contains(k));
                        }
                    }
                }
                r.push(k);
                proof {
                    r0.lemma_push_to_set_commute(k);
                    assert(self.processes@ =~= start.remove_keys(
                        pre.push(k).to_set().difference(alive@),
                    ));
                    assert(r@.to_set() =~= pre.push(k).to_set().difference(alive@));
                }
            } else {
                proof {
                    assert(pre.push(k).to_set().difference(alive@) =~= pre.to_set().difference(
                        alive@,
                    ));
                }
            }
            i = i + 1;
        }
        proof {
            assert(keys@.take(n as int) =~= keys@);
            assert(start.remove_keys(start.dom().difference(alive@)) =~= start.restrict(alive@));
        }
        r
    }
}

/// The pids of a map, each once.
fn keys_of(m: &HashMap<u32, String>) -> (r: Vec<u32>)
    ensures
        r@.to_set() == m@.dom(),
        r@.no_duplicates(),
{
    broadcast use vstd::std_specs::hash::group_hash_axioms;

    let mut r: Vec<u32> = Vec::new();
    for k in it: m.keys()
        invariant
            r@ == it.seq().take(it.index() as int).unref(),
            it.seq().unref().to_set() == m@.dom(),
            it.seq().unref().no_duplicates(),
            it.seq().len() == m@.dom().len(),
            forall|j: int| 0 <= j < r@.len() ==> m@.dom().contains(#[trigger] r@[j]),
    {
        proof {
            assert(it.seq().unref().to_set().contains(*k));
        }
        r.push(*k);
        proof {
            assert(it.seq().take(it.index() + 1).unref() =~= r@);
        }
    }
    proof {
        r@.unique_seq_to_set();
        assert(r@.to_set().subset_of(m@.dom()));
        vstd::set_lib::lemma_subset_equality(r@.to_set(), m@.dom());
    }
    r
}

/// In a sequence without duplicates, the element at `i` is not among the first `i`.
proof fn lemma_fresh(s: Seq<u32>, i: int)
    requires
        s.no_duplicates(),
        0 <= i < s.len(),
    ensures
        !s.take(i).contains(s[i]),
        s.to_set().contains(s[i]),
{
    if s.take(i).contains(s[i]) {
        let m = choose|m: int| 0 <= m < i && s.take(i)[m] == s[i];
        assert(s[m] == s[i]);
    }
}

impl From<HashMap<u32, String>> for AppProcessGroup {
    fn from(hash_map: HashMap<u32, String>) -> (r: AppProcessGroup) {
        AppProcessGroup { processes: hash_map }
    }
}

impl vstd::std_specs::convert::FromSpecImpl<HashMap<u32, String>> for AppProcessGroup {
    open spec fn obeys_from_spec() -> bool {
        true
    }

    open spec fn from_spec(hash_map: HashMap<u32, String>) -> AppProcessGroup {
        AppProcessGroup { processes: hash_map }
    }
}


/// Putting processes to sleep and then waking the same processes leaves the group without
/// them and otherwise as it was.
pub proof fn lemma_put_then_wake(group: Map<u32, String>, other: Map<u32, String>)
    ensures
        wake_spec(put_spec(group, other), other) == group.remove_keys(other.dom()),
{
    assert(wake_spec(put_spec(group, other), other) =~= group.remove_keys(other.dom()));
}

/// Waking processes and putting them back to sleep gives the group that putting them to
/// sleep alone gives.
pub proof fn lemma_wake_then_put(group: Map<u32, String>, other: Map<u32, String>)
    ensures
        put_spec(wake_spec(group, other), other) == put_spec(group, other),
{
    assert(put_spec(wake_spec(group, other), other) =~= put_spec(group, other));
}

/// Dropping the processes that are not alive twice drops nothing more the second time.
pub proof fn lemma_retain_idempotent(group: Map<u32, String>, alive: Set<u32>)
    ensures
        retain_spec(retain_spec(group, alive), alive) == retain_spec(group, alive),
{
    assert(retain_spec(retain_spec(group, alive), alive) =~= retain_spec(group, alive));
}

} // verus!
