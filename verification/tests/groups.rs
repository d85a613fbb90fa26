use std::collections::{HashMap, HashSet};
use task_limiter::nap_group::group::AppProcessGroup;
use task_limiter::nap_group::killer::{cmdline_names_app, cmdline_of};

fn map(entries: &[(u32, &str)]) -> HashMap<u32, String> {
    entries.iter().map(|(p, a)| (*p, a.to_string())).collect()
}

#[test]
fn put_them_nap_adds_and_replaces() {
    let mut g = AppProcessGroup::from(map(&[(1, "a"), (2, "b")]));
    g.put_them_nap(map(&[(2, "c"), (3, "d")]));
    assert_eq!(g.processes, map(&[(1, "a"), (2, "c"), (3, "d")]));
}

#[test]
fn put_them_nap_with_nothing_keeps_the_group() {
    let mut g = AppProcessGroup::from(map(&[(1, "a")]));
    g.put_them_nap(HashMap::new());
    assert_eq!(g.processes, map(&[(1, "a")]));
}

#[test]
fn wake_them_up_removes_and_reports() {
    let mut g = AppProcessGroup::from(map(&[(1, "a"), (2, "b"), (3, "c")]));
    let mut woken = g.wake_them_up(&map(&[(2, "x"), (9, "y")]));
    woken.sort();
    assert_eq!(woken, vec![2]);
    assert_eq!(g.processes, map(&[(1, "a"), (3, "c")]));
}

#[test]
fn put_then_wake_restores_the_rest() {
    let mut g = AppProcessGroup::from(map(&[(1, "a"), (2, "b")]));
    let other = map(&[(2, "z"), (5, "e")]);
    g.put_them_nap(other.clone());
    let mut woken = g.wake_them_up(&other);
    woken.sort();
    assert_eq!(woken, vec![2, 5]);
    assert_eq!(g.processes, map(&[(1, "a")]));
}

#[test]
fn retain_alive_drops_the_dead() {
    let mut g = AppProcessGroup::from(map(&[(1, "a"), (2, "b"), (3, "c")]));
    let alive: HashSet<u32> = [1, 3, 7].into_iter().collect();
    let mut dropped = g.retain_alive(&alive);
    dropped.sort();
    assert_eq!(dropped, vec![2]);
    assert_eq!(g.processes, map(&[(1, "a"), (3, "c")]));
    assert!(g.retain_alive(&alive).is_empty());
}

#[test]
fn new_group_is_empty() {
    assert!(AppProcessGroup::new().processes.is_empty());
}

#[test]
fn cmdline_is_cleaned() {
    assert_eq!(cmdline_of("com.example.app\0\0"), "com.example.app");
    assert_eq!(cmdline_of("  \0com.x\0 "), "com.x");
    assert!(cmdline_names_app("com.example.app:push\0", "com.example.app"));
    assert!(!cmdline_names_app("com.other\0", "com.example.app"));
}
