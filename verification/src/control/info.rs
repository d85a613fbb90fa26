//! Which third-party applications each sleeping group controls, given the configuration.
use vstd::prelude::*;

use crate::app_list::{list_contains, names, AppList};
use crate::config::{Config, ConfigView};

verus! {

/// An application of the common group: one that the configuration neither lists as
/// white-listed nor as an instant-messaging application, or one that it forces.
pub open spec fn is_simple_app(conf: ConfigView, app: Seq<char>) -> bool {
    !(conf.white_list.contains(app) || conf.msg_list.contains(app)) || conf.force_list.contains(app)
}

/// An application of the instant-messaging group.
pub open spec fn is_msg_app(conf: ConfigView, app: Seq<char>) -> bool {
    conf.msg_list.contains(app)
}

/// The applications of `third_apps` that the common group controls.
pub open spec fn simple_set(conf: ConfigView, third_apps: Set<Seq<char>>) -> Set<Seq<char>> {
    third_apps.filter(|app: Seq<char>| is_simple_app(conf, app))
}

/// The applications of `third_apps` that the instant-messaging group controls.
pub open spec fn msg_set(conf: ConfigView, third_apps: Set<Seq<char>>) -> Set<Seq<char>> {
    third_apps.filter(|app: Seq<char>| is_msg_app(conf, app))
}

/// The applications of `third_apps` for which `simple` decides `is_simple_app` (or, when it
/// is false, `is_msg_app`).
fn filter_apps(conf: &Config, third_apps: &AppList, simple: bool) -> (r: AppList)
    ensures
        simple ==> r@ == simple_set(conf@, third_apps@),
        !simple ==> r@ == msg_set(conf@, third_apps@),
{
    let ghost pred = if simple {
        |app: Seq<char>| is_simple_app(conf@, app)
    } else {
        |app: Seq<char>| is_msg_app(conf@, app)
    };
    let mut r = AppList::new();
    let n = third_apps.len();
    let mut i: usize = 0;
    while i < n
        invariant
            n == third_apps.items().len(),
            i <= n,
            pred == (if simple {
                |app: Seq<char>| is_simple_app(conf@, app)
            } else {
                |app: Seq<char>| is_msg_app(conf@, app)
            }),
            r@ == third_apps.items().take(i as int).to_set().filter(pred),
        decreases n - i,
    {
        let app = third_apps.get(i);
        let ghost pre = third_apps.items().take(i as int);
        proof {
            assert(third_apps.items().take(i + 1) =~= pre.push(app@));
            pre.lemma_push_to_set_commute(app@);
        }
        let white = list_contains(&conf.white_list, app);
        let msg = list_contains(&conf.msg_list, app);
        let force = list_contains(&conf.force_list, app);
        let keep = if simple {
            !(white || msg) || force
        } else {
            msg
        };
        if keep {
            r.insert(app.clone());
            proof {
                assert(r@ =~= pre.push(app@).to_set().filter(pred));
            }
        } else {
            proof {
                assert(r@ =~= pre.push(app@).to_set().filter(pred));
            }
        }
        i = i + 1;
    }
    proof {
        assert(third_apps.items().take(n as int) =~= third_apps.items());
        if simple {
            assert(r@ =~= simple_set(conf@, third_apps@));
        } else {
            assert(r@ =~= msg_set(conf@, third_apps@));
        }
    }
    r
}

/// The third-party applications that the common group controls.
pub fn simple_apps(conf: &Config, third_apps: &AppList) -> (r: AppList)
    ensures
        r@ == simple_set(conf@, third_apps@),
{
    filter_apps(conf, third_apps, true)
}

/// The third-party applications that the instant-messaging group controls.
pub fn msg_apps(conf: &Config, third_apps: &AppList) -> (r: AppList)
    ensures
        r@ == msg_set(conf@, third_apps@),
{
    filter_apps(conf, third_apps, false)
}

/// Every third-party application that the configuration does not white-list is controlled
/// by one of the two groups, and an application is controlled by both only when the
/// configuration forces it.
pub proof fn lemma_groups_cover(conf: ConfigView, third_apps: Set<Seq<char>>)
    ensures
        forall|app: Seq<char>|
            third_apps.contains(app) && !conf.white_list.contains(app) ==> #[trigger] simple_set(
                conf,
                third_apps,
            ).contains(app) || msg_set(conf, third_apps).contains(app),
        forall|app: Seq<char>|
            #[trigger] simple_set(conf, third_apps).contains(app) && msg_set(
                conf,
                third_apps,
            ).contains(app) ==> conf.force_list.contains(app),
        simple_set(conf, third_apps).subset_of(third_apps),
        msg_set(conf, third_apps).subset_of(third_apps),
{
}

/// An application is in the instant-messaging group exactly when it is a third-party
/// application that the messaging list names; the white and forced lists play no part.
/// It is in the common group exactly when it is a third-party application that is forced,
/// or that neither the white list nor the messaging list names.
pub proof fn lemma_group_membership(conf: ConfigView, third_apps: Set<Seq<char>>, app: Seq<char>)
    ensures
        msg_set(conf, third_apps).contains(app) <==> third_apps.contains(app)
            && conf.msg_list.contains(app),
        simple_set(conf, third_apps).contains(app) <==> third_apps.contains(app) && (
        conf.force_list.contains(app) || (!conf.white_list.contains(app)
            && !conf.msg_list.contains(app))),
{
}

} // verus!
