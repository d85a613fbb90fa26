use task_limiter::app_list::AppList;
use task_limiter::config::Config;
use task_limiter::control::android_utils;
use task_limiter::control::info::{msg_apps, simple_apps};
use task_limiter::control::pid_utils::{same_app, PidType};
use task_limiter::control::plan_round;
use task_limiter::info_sync::InfoState;
use task_limiter::lru_info::LruDumper;
use task_limiter::misc::android_utils as misc_utils;

fn strings(v: &[&str]) -> Vec<String> {
    v.iter().map(|s| s.to_string()).collect()
}

fn sorted(l: &AppList) -> Vec<String> {
    let mut v = l.to_vec();
    v.sort();
    v
}

fn conf() -> Config {
    Config {
        white_list: strings(&["white", "both"]),
        msg_list: strings(&["msg", "forced_msg"]),
        force_list: strings(&["both", "forced_msg"]),
    }
}

#[test]
fn simple_apps_follow_the_lists() {
    let third = AppList::from_vec(strings(&["white", "both", "msg", "forced_msg", "plain"]));
    assert_eq!(sorted(&simple_apps(&conf(), &third)), strings(&["both", "forced_msg", "plain"]));
}

#[test]
fn msg_apps_follow_the_list() {
    let third = AppList::from_vec(strings(&["white", "msg", "forced_msg", "plain", "absent"]));
    assert_eq!(sorted(&msg_apps(&conf(), &third)), strings(&["forced_msg", "msg"]));
}

#[test]
fn app_list_holds_each_name_once() {
    let mut l = AppList::from_vec(strings(&["a", "b", "a"]));
    assert_eq!(l.len(), 2);
    assert!(l.contains("a") && !l.contains("c"));
    assert!(!l.insert("b".to_string()));
    assert!(l.insert("c".to_string()));
    assert_eq!(l.len(), 3);
}

#[test]
fn third_party_packages() {
    let out = "package:com.a\npackage:com.b\ngarbage\npackage:com.a\n";
    let l = android_utils::get_third_party_apps(out);
    assert_eq!(sorted(&l), strings(&["com.a", "com.b"]));
    let s = android_utils::get_system_apps("package:android\n");
    assert_eq!(sorted(&s), strings(&["android"]));
    // a carriage return ends every line, the last one too
    let c = android_utils::get_third_party_apps("package:a\r\npackage:b\r");
    assert_eq!(sorted(&c), strings(&["a", "b"]));
}

#[test]
fn top_apps_from_window_dump() {
    let out = "WINDOW MANAGER\n  Window #0 Window{abc u0 com.a/com.a.Main}:\n  other line\n  Window #1 Window{def u0 com.b}:\n";
    assert_eq!(misc_utils::get_top_apps(out), strings(&["com.a", "com.b}:"]));
}

#[test]
fn joined_package_names() {
    let out = "package:com.a\npackage:com.b";
    assert_eq!(misc_utils::get_third_party_apps(out), "com.acom.b");
    assert_eq!(misc_utils::get_system_apps(""), "");
}

#[test]
fn same_app_cases() {
    assert!(same_app("com.a", "com.a"));
    assert!(same_app("com.a:push", "com.a"));
    assert!(!same_app("com.ab", "com.a"));
    assert!(!same_app("x:com.a", "com.a"));
}

#[test]
fn pid_type_as_u32() {
    assert_eq!(PidType::SimpApp(7).as_u32(), 7);
    assert_eq!(PidType::MsgApp(9).as_u32(), 9);
}

#[test]
fn round_plan_splits_by_group_and_class() {
    let dump = "  #1: fg TOP LCM 10:com.a/u0\n  #2: cch CEM x 11:com.b/u0\n  #3: cch CEM x 12:com.m/u0\n  #4: fg TOP x 13:com.m/u0\n";
    let lru = LruDumper::from_dump(dump.to_string());
    let simp = AppList::from_vec(strings(&["com.a", "com.b"]));
    let msg = AppList::from_vec(strings(&["com.m"]));
    let plan = plan_round(&lru, &simp, &msg);
    assert_eq!(plan.simp_nap.get(&11).map(|s| s.as_str()), Some("com.b"));
    assert_eq!(plan.simp_nap.len(), 1);
    assert_eq!(plan.simp_wake.get(&10).map(|s| s.as_str()), Some("com.a"));
    assert_eq!(plan.simp_wake.len(), 1);
    assert_eq!(plan.msg_nap.get(&12).map(|s| s.as_str()), Some("com.m"));
    assert_eq!(plan.msg_wake.get(&13).map(|s| s.as_str()), Some("com.m"));
}

#[test]
fn info_state_keeps_the_newest() {
    let mut s: InfoState<u32> = InfoState::new();
    assert_eq!(*s.latest(), None);
    s.absorb(vec![1, 2, 3]);
    assert_eq!(*s.latest(), Some(3));
    s.absorb(vec![]);
    assert_eq!(*s.latest(), Some(3));
    s.fill_if_empty(None);
    assert_eq!(*s.latest(), Some(3));
    let mut e: InfoState<u32> = InfoState::new();
    e.fill_if_empty(Some(8));
    assert_eq!(*e.latest(), Some(8));
    let mut g: InfoState<u32> = InfoState::new();
    g.fill_if_empty(None);
    assert_eq!(*g.latest(), None);
}

#[test]
fn plan_matches_need_sets() {
    let dump = "  #1: fg TOP LCM 10:com.a/u0\n  #2: cch CEM x 11:com.b/u0\n  #3: cch CEM x 11:com.a/u0\n";
    let lru = LruDumper::from_dump(dump.to_string());
    let simp = AppList::from_vec(strings(&["com.a", "com.b"]));
    let msg = AppList::new();
    let plan = plan_round(&lru, &simp, &msg);
    let nap_keys: std::collections::HashSet<u32> = plan.simp_nap.keys().copied().collect();
    assert_eq!(nap_keys, lru.need_nap_in(&simp));
    // the later line for pid 11 gives its application
    assert_eq!(plan.simp_nap.get(&11).map(|s| s.as_str()), Some("com.a"));
    let wake_keys: std::collections::HashSet<u32> = plan.simp_wake.keys().copied().collect();
    assert_eq!(wake_keys, lru.need_awake_in(&simp));
    assert!(plan.msg_nap.is_empty() && plan.msg_wake.is_empty());
}

#[test]
fn absorbing_in_batches_equals_absorbing_at_once() {
    let mut a: InfoState<u32> = InfoState::new();
    a.absorb(vec![1, 2]);
    a.absorb(vec![5]);
    let mut b: InfoState<u32> = InfoState::new();
    b.absorb(vec![1, 2, 5]);
    assert_eq!(*a.latest(), *b.latest());
}
