//! Deciding, round by round, which processes to put to sleep and which to wake.
pub mod android_utils;
pub mod info;
pub mod pid_utils;

use std::collections::HashMap;
use vstd::prelude::*;

use crate::app_list::AppList;
use crate::lru_info::{entries_view, listed_entries, listed_pids, pids_of, LruDumper};
use crate::text::par_lines;

verus! {

/// The map from pid to package that a sequence of entries gives; a later entry for a pid
/// replaces an earlier one.
pub open spec fn entries_map(es: Seq<(u32, Seq<char>)>) -> Map<u32, Seq<char>>
    decreases es.len(),
{
    if es.len() == 0 {
        Map::empty()
    } else {
        entries_map(es.drop_last()).insert(es.last().0, es.last().1)
    }
}

/// A map from pid to application, with the names as text.
pub open spec fn pid_app_text(m: Map<u32, String>) -> Map<u32, Seq<char>> {
    m.map_values(|s: String| s@)
}

/// The processes that one round acts on, each with its application.
pub struct RoundPlan {
    /// Background processes of the common group: put to sleep.
    pub simp_nap: HashMap<u32, String>,
    /// Background processes of the instant-messaging group: put to sleep.
    pub msg_nap: HashMap<u32, String>,
    /// Foreground processes of the common group: woken.
    pub simp_wake: HashMap<u32, String>,
    /// Foreground processes of the instant-messaging group: woken.
    pub msg_wake: HashMap<u32, String>,
}

/// The map that `entries` gives.
fn pid_app_of(entries: &Vec<(u32, String)>) -> (r: HashMap<u32, String>)
    ensures
        pid_app_text(r@) == entries_map(entries_view(entries@)),
{
    broadcast use vstd::std_specs::hash::group_hash_axioms;

    let mut r: HashMap<u32, String> = HashMap::new();
    let n = entries.len();
    let mut i: usize = 0;
    while i < n
        invariant
            n == entries.len(),
            i <= n,
            pid_app_text(r@) == entries_map(entries_view(entries@).take(i as int)),
        decreases n - i,
    {
        let pid = entries[i].0;
        let app = entries[i].1.clone();
        let ghost pre = entries_view(entries@).take(i as int);
        let ghost before = r@;
        r.insert(pid, app);
        proof {
            let e = entries_view(entries@)[i as int];
            assert(entries_view(entries@).take(i + 1).drop_last() =~= pre);
            assert(entries_view(entries@).take(i + 1).last() == e);
            assert(pid_app_text(r@) =~= pid_app_text(before).insert(pid, e.1));
        }
        i = i + 1;
    }
    assert(entries_view(entries@).take(n as int) =~= entries_view(entries@));
    r
}

/// What one round does with the recently-used list `lru`, given the applications that the
/// common group (`simp_apps`) and the instant-messaging group (`msg_apps`) control: their
/// background processes are put to sleep, their foreground processes woken.
pub fn plan_round(lru: &LruDumper, simp_apps: &AppList, msg_apps: &AppList) -> (r: RoundPlan)
    ensures
        pid_app_text(r.simp_nap@) == entries_map(listed_entries(par_lines(lru@), simp_apps@, false)),
        pid_app_text(r.msg_nap@) == entries_map(listed_entries(par_lines(lru@), msg_apps@, false)),
        pid_app_text(r.simp_wake@) == entries_map(listed_entries(par_lines(lru@), simp_apps@, true)),
        pid_app_text(r.msg_wake@) == entries_map(listed_entries(par_lines(lru@), msg_apps@, true)),
{
    let simp_nap = pid_app_of(&lru.listed(simp_apps, false));
    let msg_nap = pid_app_of(&lru.listed(msg_apps, false));
    let simp_wake = pid_app_of(&lru.listed(simp_apps, true));
    let msg_wake = pid_app_of(&lru.listed(msg_apps, true));
    RoundPlan { simp_nap, msg_nap, simp_wake, msg_wake }
}

/// The pids of the map that a sequence of entries gives are the pids of the entries.
pub proof fn lemma_entries_map_dom(es: Seq<(u32, Seq<char>)>)
    ensures
        entries_map(es).dom() == pids_of(es),
    decreases es.len(),
{
    if es.len() > 0 {
        let pre = es.drop_last();
        lemma_entries_map_dom(pre);
        assert(es.map_values(|e: (u32, Seq<char>)| e.0) =~= pre.map_values(
            |e: (u32, Seq<char>)| e.0,
        ).push(es.last().0));
        pre.map_values(|e: (u32, Seq<char>)| e.0).lemma_push_to_set_commute(es.last().0);
    } else {
        assert(entries_map(es).dom() =~= pids_of(es));
    }
}

/// A round puts to sleep exactly the processes that `need_nap_in` names for each group, and
/// wakes exactly those that `need_awake_in` names.
pub proof fn lemma_plan_matches_need(lru: Seq<char>, list: Set<Seq<char>>, foreground: bool)
    ensures
        entries_map(listed_entries(par_lines(lru), list, foreground)).dom() == listed_pids(
            lru,
            list,
            foreground,
        ),
{
    lemma_entries_map_dom(listed_entries(par_lines(lru), list, foreground));
}

} // verus!
