//! Reading the list of recently used processes that `dumpsys activity lru` prints.
//!
//! Each line of the dump describes one process. Its fifth whitespace-separated field reads
//! `pid:package/...`; a line that mentions `TOP`, `FGS`, `LCMN` or `IMPF` describes a
//! process in the foreground.
use std::collections::HashSet;
use vstd::prelude::*;

use crate::app_list::AppList;
use crate::text::{
    before_char, contains_text, fields, par_lines, parse_u32, second_piece, split_fields, split_par_lines,
    text_before, text_contains, text_parse_u32, text_second_piece,
};

verus! {

/// A captured `dumpsys activity lru` output.
pub struct LruDumper {
    raw_dump: String,
}

impl View for LruDumper {
    type V = Seq<char>;

    closed spec fn view(&self) -> Seq<char> {
        self.raw_dump@
    }
}

/// Whether a dump line describes a process in the foreground.
pub open spec fn is_foreground(line: Seq<char>) -> bool {
    ||| contains_text(line, "TOP"@)
    ||| contains_text(line, "FGS"@)
    ||| contains_text(line, "LCMN"@)
    ||| contains_text(line, "IMPF"@)
}

/// The process id and package that a dump line names in its fifth field, `pid:package/...`:
/// present when the line has five fields, the text before the first `:` (and before any `/`)
/// reads as a `u32`, and a `:` follows it.
pub open spec fn lru_entry(line: Seq<char>) -> Option<(u32, Seq<char>)> {
    let fs = fields(line);
    if fs.len() < 5 {
        None
    } else {
        let info = before_char(fs[4], '/');
        match parse_u32(before_char(info, ':')) {
            Some(pid) => match second_piece(info, ':') {
                Some(pkg) => Some((pid, pkg)),
                None => None,
            },
            None => None,
        }
    }
}

/// The entry of a line, when the line is in the foreground class `foreground` and its
/// package is in `list`.
pub open spec fn listed_entry(line: Seq<char>, list: Set<Seq<char>>, foreground: bool) -> Option<
    (u32, Seq<char>),
> {
    if is_foreground(line) != foreground {
        None
    } else {
        match lru_entry(line) {
            Some(e) => if list.contains(e.1) {
                Some(e)
            } else {
                None
            },
            None => None,
        }
    }
}

/// The listed entries of the lines `ls`, in line order.
pub open spec fn listed_entries(ls: Seq<Seq<char>>, list: Set<Seq<char>>, foreground: bool) -> Seq<
    (u32, Seq<char>),
>
    decreases ls.len(),
{
    if ls.len() == 0 {
        seq![]
    } else {
        let rest = listed_entries(ls.drop_last(), list, foreground);
        match listed_entry(ls.last(), list, foreground) {
            Some(e) => rest.push(e),
            None => rest,
        }
    }
}

/// The process ids of a sequence of entries.
pub open spec fn pids_of(es: Seq<(u32, Seq<char>)>) -> Set<u32> {
    es.map_values(|e: (u32, Seq<char>)| e.0).to_set()
}

/// The pids that the lines of `dump` in the class `foreground` give for packages in `list`.
pub open spec fn listed_pids(dump: Seq<char>, list: Set<Seq<char>>, foreground: bool) -> Set<u32> {
    pids_of(listed_entries(par_lines(dump), list, foreground))
}

/// Entries with the package held as a `String`, viewed as text.
pub open spec fn entries_view(v: Seq<(u32, String)>) -> Seq<(u32, Seq<char>)> {
    v.map_values(|e: (u32, String)| (e.0, e.1@))
}

/// The entry that `line` names, if any.
pub fn line_entry(line: &str) -> (r: Option<(u32, String)>)
    ensures
        r matches Some(e) ==> lru_entry(line@) == Some((e.0, e.1@)),
        r is None ==> lru_entry(line@) is None,
{
    let fs = split_fields(line);
    if fs.len() < 5 {
        return None;
    }
    let info = text_before(fs[4].as_str(), '/');
    let pid = match text_parse_u32(text_before(info.as_str(), ':').as_str()) {
        Some(p) => p,
        None => return None,
    };
    let pkg = match text_second_piece(info.as_str(), ':') {
        Some(p) => p,
        None => return None,
    };
    Some((pid, pkg))
}

/// Whether `line` describes a process in the foreground.
pub fn line_is_foreground(line: &str) -> (r: bool)
    ensures
        r == is_foreground(line@),
{
    text_contains(line, "TOP") || text_contains(line, "FGS") || text_contains(line, "LCMN")
        || text_contains(line, "IMPF")
}

impl LruDumper {
    /// A dumper holding the text that `dumpsys activity lru` printed.
    pub fn from_dump(raw_dump: String) -> (r: LruDumper)
        ensures
            r@ == raw_dump@,
    {
        LruDumper { raw_dump }
    }

    /// The entries of the lines in the class `foreground` whose package is in `list`, in
    /// line order.
    pub fn listed(&self, list: &AppList, foreground: bool) -> (r: Vec<(u32, String)>)
        ensures
            entries_view(r@) == listed_entries(par_lines(self@), list@, foreground),
    {
        let ls = split_par_lines(self.raw_dump.as_str());
        let ghost lv = ls@.map_values(|l: String| l@);
        let mut r: Vec<(u32, String)> = Vec::new();
        if list.is_empty() {
            proof {
                lemma_unlisted(lv, list@, foreground);
                assert(entries_view(r@) =~= Seq::<(u32, Seq<char>)>::empty());
            }
            return r;
        }
        let n = ls.len();
        let mut i: usize = 0;
        while i < n
            invariant
                n == ls.len(),
                i <= n,
                lv == ls@.map_values(|l: String| l@),
                lv == par_lines(self@),
                entries_view(r@) == listed_entries(lv.take(i as int), list@, foreground),
            decreases n - i,
        {
            let line = ls[i].as_str();
            let ghost pre = lv.take(i as int);
            proof {
                assert(lv.take(i + 1).drop_last() =~= pre);
                assert(lv.take(i + 1).last() == line@);
            }
            if line_is_foreground(line) == foreground {
                match line_entry(line) {
                    Some(e) => {
                        if list.contains(e.1.as_str()) {
                            let ghost ev = (e.0, e.1@);
                            r.push(e);
                            proof {
                                assert(entries_view(r@) =~= listed_entries(pre, list@, foreground).push(
                                    ev,
                                ));
                            }
                        }
                    },
                    None => {},
                }
            }
            i = i + 1;
        }
        assert(lv.take(n as int) =~= lv);
        r
    }

    /// The pids of the background processes in the dump whose package is in `list`.
    pub fn need_nap_in(&self, list: &AppList) -> (r: HashSet<u32>)
        ensures
            r@ == listed_pids(self@, list@, false),
    {
        let es = self.listed(list, false);
        pid_set(&es)
    }

    /// The pids of the foreground processes in the dump whose package is in `list`.
    pub fn need_awake_in(&self, list: &AppList) -> (r: HashSet<u32>)
        ensures
            r@ == listed_pids(self@, list@, true),
    {
        let es = self.listed(list, true);
        pid_set(&es)
    }
}

/// No line is listed for an empty list of packages.
pub proof fn lemma_unlisted(ls: Seq<Seq<char>>, list: Set<Seq<char>>, foreground: bool)
    requires
        list == Set::<Seq<char>>::empty(),
    ensures
        listed_entries(ls, list, foreground) == Seq::<(u32, Seq<char>)>::empty(),
    decreases ls.len(),
{
    if ls.len() > 0 {
        lemma_unlisted(ls.drop_last(), list, foreground);
    }
}

/// The pids of `es`, as a set.
fn pid_set(es: &Vec<(u32, String)>) -> (r: HashSet<u32>)
    ensures
        r@ == pids_of(entries_view(es@)),
{
    let mut r: HashSet<u32> = HashSet::new();
    let n = es.len();
    let mut i: usize = 0;
    while i < n
        invariant
            n == es.len(),
            i <= n,
            r@ == pids_of(entries_view(es@).take(i as int)),
        decreases n - i,
    {
        let ghost pre = entries_view(es@).take(i as int);
        let pid = es[i].0;
        r.insert(pid);
        proof {
            assert(entries_view(es@).take(i + 1) =~= pre.push((pid, es@[i as int].1@)));
            assert(entries_view(es@).take(i + 1).map_values(|e: (u32, Seq<char>)| e.0)
                =~= pre.map_values(|e: (u32, Seq<char>)| e.0).push(pid));
            pre.map_values(|e: (u32, Seq<char>)| e.0).lemma_push_to_set_commute(pid);
        }
        i = i + 1;
    }
    assert(entries_view(es@).take(n as int) =~= entries_view(es@));
    r
}


/// The line names `pid` with a package in `list`, in the class `foreground`.
pub open spec fn line_lists_pid(line: Seq<char>, list: Set<Seq<char>>, foreground: bool, pid: u32) -> bool {
    listed_entry(line, list, foreground) matches Some(e) && e.0 == pid
}

/// The line names `pid` with a package in `list`, whatever its class.
pub open spec fn line_names_pid(line: Seq<char>, list: Set<Seq<char>>, pid: u32) -> bool {
    lru_entry(line) matches Some(e) && e.0 == pid && list.contains(e.1)
}

/// A pid is listed exactly when one of the lines in the class names it with a package in
/// the list.
pub proof fn lemma_listed_pids(ls: Seq<Seq<char>>, list: Set<Seq<char>>, foreground: bool, pid: u32)
    ensures
        pids_of(listed_entries(ls, list, foreground)).contains(pid) <==> exists|k: int|
            0 <= k < ls.len() && line_lists_pid(#[trigger] ls[k], list, foreground, pid),
    decreases ls.len(),
{
    if ls.len() > 0 {
        let pre = ls.drop_last();
        lemma_listed_pids(pre, list, foreground, pid);
        let es = listed_entries(pre, list, foreground);
        let fst = |e: (u32, Seq<char>)| e.0;
        match listed_entry(ls.last(), list, foreground) {
            Some(e) => {
                assert(es.push(e).map_values(fst) =~= es.map_values(fst).push(e.0));
                es.map_values(fst).lemma_push_to_set_commute(e.0);
            },
            None => {},
        }
        if exists|k: int| 0 <= k < ls.len() && line_lists_pid(#[trigger] ls[k], list, foreground, pid) {
            let k = choose|k: int| 0 <= k < ls.len() && line_lists_pid(#[trigger] ls[k], list, foreground, pid);
            if k < pre.len() {
                assert(pre[k] == ls[k]);
            }
        }
        if exists|k: int| 0 <= k < pre.len() && line_lists_pid(#[trigger] pre[k], list, foreground, pid) {
            let k = choose|k: int| 0 <= k < pre.len() && line_lists_pid(#[trigger] pre[k], list, foreground, pid);
            assert(ls[k] == pre[k]);
        }
    } else {
        assert(pids_of(listed_entries(ls, list, foreground)) =~= Set::<u32>::empty());
    }
}

/// Between them, the processes to put to sleep and the processes to wake are all the
/// processes that the dump names with a package in the list.
pub proof fn lemma_nap_awake_cover(dump: Seq<char>, list: Set<Seq<char>>, pid: u32)
    ensures
        listed_pids(dump, list, false).contains(pid) || listed_pids(dump, list, true).contains(pid)
            <==> exists|k: int| 0 <= k < par_lines(dump).len() && line_names_pid(#[trigger] par_lines(dump)[k], list, pid),
{
    let ls = par_lines(dump);
    lemma_listed_pids(ls, list, false, pid);
    lemma_listed_pids(ls, list, true, pid);
    if exists|k: int| 0 <= k < ls.len() && line_names_pid(#[trigger] ls[k], list, pid) {
        let k = choose|k: int| 0 <= k < ls.len() && line_names_pid(#[trigger] ls[k], list, pid);
        assert(line_lists_pid(ls[k], list, is_foreground(ls[k]), pid));
    }
    if listed_pids(dump, list, false).contains(pid) {
        let k = choose|k: int| 0 <= k < ls.len() && line_lists_pid(#[trigger] ls[k], list, false, pid);
        assert(line_names_pid(ls[k], list, pid));
    }
    if listed_pids(dump, list, true).contains(pid) {
        let k = choose|k: int| 0 <= k < ls.len() && line_lists_pid(#[trigger] ls[k], list, true, pid);
        assert(line_names_pid(ls[k], list, pid));
    }
}

/// The processes to put to sleep and the processes to wake, together, are the set of pids
/// that the lines of the dump name with a package in the list.
pub proof fn lemma_nap_awake_union(dump: Seq<char>, list: Set<Seq<char>>)
    ensures
        listed_pids(dump, list, false).union(listed_pids(dump, list, true)) == Set::new(
            |pid: u32|
                exists|k: int|
                    0 <= k < par_lines(dump).len() && line_names_pid(
                        #[trigger] par_lines(dump)[k],
                        list,
                        pid,
                    ),
        ),
{
    let both = listed_pids(dump, list, false).union(listed_pids(dump, list, true));
    let named = Set::new(
        |pid: u32|
            exists|k: int|
                0 <= k < par_lines(dump).len() && line_names_pid(
                    #[trigger] par_lines(dump)[k],
                    list,
                    pid,
                ),
    );
    assert forall|pid: u32| both.contains(pid) <==> named.contains(pid) by {
        lemma_nap_awake_cover(dump, list, pid);
    }
    assert(both =~= named);
}

/// Where no two lines of the dump name the same pid, no process is both put to sleep and
/// woken: a line is either in the foreground or not.
pub proof fn lemma_nap_awake_disjoint(dump: Seq<char>, list: Set<Seq<char>>)
    requires
        forall|j: int, k: int|
            0 <= j < par_lines(dump).len() && 0 <= k < par_lines(dump).len() && j != k
                && #[trigger] lru_entry(par_lines(dump)[j]) is Some
                && #[trigger] lru_entry(par_lines(dump)[k]) is Some ==> lru_entry(
                par_lines(dump)[j],
            ).unwrap().0 != lru_entry(par_lines(dump)[k]).unwrap().0,
    ensures
        listed_pids(dump, list, false).disjoint(listed_pids(dump, list, true)),
{
    let ls = par_lines(dump);
    assert forall|pid: u32| listed_pids(dump, list, false).contains(pid) implies !listed_pids(
        dump,
        list,
        true,
    ).contains(pid) by {
        lemma_listed_pids(ls, list, false, pid);
        lemma_listed_pids(ls, list, true, pid);
        let j = choose|j: int| 0 <= j < ls.len() && line_lists_pid(#[trigger] ls[j], list, false, pid);
        if listed_pids(dump, list, true).contains(pid) {
            let k = choose|k: int| 0 <= k < ls.len() && line_lists_pid(#[trigger] ls[k], list, true, pid);
            assert(j != k);
            assert(lru_entry(ls[j]) is Some && lru_entry(ls[k]) is Some);
        }
    }
}

/// A listed line's process is put to sleep when the line holds none of `TOP`, `FGS`, `LCMN`
/// and `IMPF`, and woken when it holds one of them. Where no other line names the same pid,
/// the process is then in the one class only.
pub proof fn lemma_class_follows_markers(dump: Seq<char>, list: Set<Seq<char>>, k: int)
    requires
        0 <= k < par_lines(dump).len(),
        lru_entry(par_lines(dump)[k]) is Some,
        list.contains(lru_entry(par_lines(dump)[k]).unwrap().1),
    ensures
        ({
            let line = par_lines(dump)[k];
            let pid = lru_entry(line).unwrap().0;
            let marked = contains_text(line, "TOP"@) || contains_text(line, "FGS"@) || contains_text(
                line,
                "LCMN"@,
            ) || contains_text(line, "IMPF"@);
            let alone = forall|j: int|
                0 <= j < par_lines(dump).len() && j != k && #[trigger] lru_entry(par_lines(dump)[j]) is Some
                    ==> lru_entry(par_lines(dump)[j]).unwrap().0 != pid;
            &&& !marked ==> listed_pids(dump, list, false).contains(pid)
            &&& marked ==> listed_pids(dump, list, true).contains(pid)
            &&& (alone && !marked) ==> !listed_pids(dump, list, true).contains(pid)
            &&& (alone && marked) ==> !listed_pids(dump, list, false).contains(pid)
        }),
{
    let ls = par_lines(dump);
    let line = ls[k];
    let pid = lru_entry(line).unwrap().0;
    let fg = is_foreground(line);
    lemma_listed_pids(ls, list, fg, pid);
    lemma_listed_pids(ls, list, !fg, pid);
    assert(line_lists_pid(ls[k], list, fg, pid));
    if listed_pids(dump, list, !fg).contains(pid) {
        let j = choose|j: int| 0 <= j < ls.len() && line_lists_pid(#[trigger] ls[j], list, !fg, pid);
        assert(j != k);
        assert(lru_entry(ls[j]) is Some);
    }
}

/// Listing more packages lists more processes.
pub proof fn lemma_listed_monotone(
    dump: Seq<char>,
    list1: Set<Seq<char>>,
    list2: Set<Seq<char>>,
    foreground: bool,
)
    requires
        list1.subset_of(list2),
    ensures
        listed_pids(dump, list1, foreground).subset_of(listed_pids(dump, list2, foreground)),
{
    let ls = par_lines(dump);
    assert forall|pid: u32| listed_pids(dump, list1, foreground).contains(pid) implies listed_pids(
        dump,
        list2,
        foreground,
    ).contains(pid) by {
        lemma_listed_pids(ls, list1, foreground, pid);
        lemma_listed_pids(ls, list2, foreground, pid);
        let k = choose|k: int| 0 <= k < ls.len() && line_lists_pid(#[trigger] ls[k], list1, foreground, pid);
        assert(line_lists_pid(ls[k], list2, foreground, pid));
    }
}

/// An empty list of packages names no process.
pub proof fn lemma_empty_list_no_pids(dump: Seq<char>, foreground: bool)
    ensures
        listed_pids(dump, Set::<Seq<char>>::empty(), foreground) == Set::<u32>::empty(),
{
    lemma_unlisted(par_lines(dump), Set::<Seq<char>>::empty(), foreground);
    assert(listed_pids(dump, Set::<Seq<char>>::empty(), foreground) =~= Set::<u32>::empty());
}

} // verus!
