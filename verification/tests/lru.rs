use std::collections::HashSet;
use task_limiter::app_list::AppList;
use task_limiter::lru_info::{line_entry, line_is_foreground, LruDumper};

const DUMP: &str = "ACTIVITY MANAGER LRU PROCESSES (dumpsys activity lru)
  Activities:
  #52: fg     TOP  LCM 2001:com.example.chat/u0a101 act:activities|recents
  #51: cch+5 CEM  ---- 2002:com.example.game/u0a102
  #50: prcp   FGS  ---- 2003:com.example.music/u0a103
  #49: cch+15 CEM  ---- 2004:com.example.chat:push/u0a101
  #48: cch+25 CEM  ---- notapid:com.example.game/u0a102
  #47: svcb   SVC  ---- 2005:com.example.mail/u0a104
";

fn list(names: &[&str]) -> AppList {
    AppList::from_vec(names.iter().map(|s| s.to_string()).collect())
}

#[test]
fn line_entry_reads_pid_and_package() {
    assert_eq!(
        line_entry("  #51: cch+5 CEM  ---- 2002:com.example.game/u0a102"),
        Some((2002, "com.example.game".to_string()))
    );
    assert_eq!(line_entry("  #48: cch+25 CEM  ---- notapid:com.example.game/u0a102"), None);
    assert_eq!(line_entry("  #1: a b"), None);
    assert_eq!(line_entry("a b c d 17/x"), None);
}

#[test]
fn foreground_markers() {
    assert!(line_is_foreground("#52: fg TOP LCM 1:a/b"));
    assert!(line_is_foreground("x IMPF y"));
    assert!(!line_is_foreground("#51: cch+ 5 CEM ---- 2:a/b"));
}

#[test]
fn need_nap_in_lists_background_processes() {
    let lru = LruDumper::from_dump(DUMP.to_string());
    let l = list(&["com.example.game", "com.example.music", "com.example.mail"]);
    let expected: HashSet<u32> = [2002, 2005].into_iter().collect();
    assert_eq!(lru.need_nap_in(&l), expected);
}

#[test]
fn need_awake_in_lists_foreground_processes() {
    let lru = LruDumper::from_dump(DUMP.to_string());
    let l = list(&["com.example.chat", "com.example.music"]);
    let expected: HashSet<u32> = [2001, 2003].into_iter().collect();
    assert_eq!(lru.need_awake_in(&l), expected);
}

#[test]
fn service_process_is_matched_by_its_package_part() {
    // "2004:com.example.chat:push" gives the package "com.example.chat"
    let lru = LruDumper::from_dump(DUMP.to_string());
    let l = list(&["com.example.chat"]);
    let expected: HashSet<u32> = [2004].into_iter().collect();
    assert_eq!(lru.need_nap_in(&l), expected);
}

#[test]
fn empty_list_gives_nothing() {
    let lru = LruDumper::from_dump(DUMP.to_string());
    assert!(lru.need_nap_in(&AppList::new()).is_empty());
    assert!(lru.need_awake_in(&AppList::new()).is_empty());
}

#[test]
fn nap_and_awake_cover_all_listed_processes() {
    let lru = LruDumper::from_dump(DUMP.to_string());
    let l = list(&["com.example.chat", "com.example.game", "com.example.music", "com.example.mail"]);
    let all: HashSet<u32> = lru.need_nap_in(&l).union(&lru.need_awake_in(&l)).copied().collect();
    let expected: HashSet<u32> = [2001, 2002, 2003, 2004, 2005].into_iter().collect();
    assert_eq!(all, expected);
}

#[test]
fn listing_more_packages_lists_more_processes() {
    let lru = LruDumper::from_dump(DUMP.to_string());
    let small = lru.need_nap_in(&list(&["com.example.game"]));
    let big = lru.need_nap_in(&list(&["com.example.game", "com.example.mail"]));
    assert!(small.is_subset(&big));
}

#[test]
fn no_process_is_both_put_to_sleep_and_woken() {
    let lru = LruDumper::from_dump(DUMP.to_string());
    let l = list(&["com.example.chat", "com.example.game", "com.example.music", "com.example.mail"]);
    let nap = lru.need_nap_in(&l);
    let awake = lru.need_awake_in(&l);
    assert!(nap.is_disjoint(&awake));
    assert_eq!(nap.len() + awake.len(), 5);
}
