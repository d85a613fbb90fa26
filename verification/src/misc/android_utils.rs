//! Reading the output of `dumpsys window visible-apps` and of `pm list packages`.
use vstd::prelude::*;

use crate::app_list::names;
use crate::text::{
    before_char, contains_text, fields, has_char, lines, second_piece, split_fields, split_lines,
    text_before, text_contains, text_second_piece,
};
use vstd::string::*;

verus! {

/// A line of `dumpsys window visible-apps` that describes a window.
pub open spec fn is_window_line(line: Seq<char>) -> bool {
    contains_text(line, "Window #"@)
}

/// Every window line has at least five fields.
pub open spec fn windows_well_formed(ls: Seq<Seq<char>>) -> bool {
    forall|k: int|
        0 <= k < ls.len() && is_window_line(#[trigger] ls[k]) ==> fields(ls[k]).len() > 4
}

/// For each window line, in order, the text of its fifth field before any `/`.
pub open spec fn top_apps_of(ls: Seq<Seq<char>>) -> Seq<Seq<char>>
    decreases ls.len(),
{
    if ls.len() == 0 {
        seq![]
    } else {
        let rest = top_apps_of(ls.drop_last());
        if is_window_line(ls.last()) {
            rest.push(before_char(fields(ls.last())[4], '/'))
        } else {
            rest
        }
    }
}

/// The applications whose windows are visible, from the output `top_apps` of
/// `dumpsys window visible-apps`.
pub fn get_top_apps(top_apps: &str) -> (r: Vec<String>)
    requires
        windows_well_formed(lines(top_apps@)),
    ensures
        names(r@) == top_apps_of(lines(top_apps@)),
{
    let ls = split_lines(top_apps);
    let ghost lv = ls@.map_values(|l: String| l@);
    let mut r: Vec<String> = Vec::new();
    let n = ls.len();
    let mut i: usize = 0;
    while i < n
        invariant
            n == ls.len(),
            i <= n,
            lv == ls@.map_values(|l: String| l@),
            windows_well_formed(lv),
            names(r@) == top_apps_of(lv.take(i as int)),
        decreases n - i,
    {
        let line = ls[i].as_str();
        let ghost pre = lv.take(i as int);
        proof {
            assert(lv.take(i + 1).drop_last() =~= pre);
            assert(lv.take(i + 1).last() == line@);
            assert(lv[i as int] == line@);
        }
        if text_contains(line, "Window #") {
            let fs = split_fields(line);
            proof {
                assert(fields(line@).len() > 4);
                assert(fs@.map_values(|l: String| l@)[4] == fs@[4]@);
            }
            let app = text_before(fs[4].as_str(), '/');
            let ghost before = r@;
            r.push(app);
            proof {
                assert(names(r@) =~= names(before).push(app@));
            }
        }
        i = i + 1;
    }
    assert(lv.take(n as int) =~= lv);
    r
}

/// Every line has a `:`.
pub open spec fn all_have_colon(ls: Seq<Seq<char>>) -> bool {
    forall|k: int| 0 <= k < ls.len() ==> has_char(#[trigger] ls[k], ':')
}

/// The text after the first `:` of each line (up to a second `:`), joined.
pub open spec fn joined_names(ls: Seq<Seq<char>>) -> Seq<char>
    decreases ls.len(),
{
    if ls.len() == 0 {
        seq![]
    } else {
        joined_names(ls.drop_last()) + second_piece(ls.last(), ':')->0
    }
}

/// The text after the first `:` of every line of `apps`, joined.
fn join_names(apps: &str) -> (r: String)
    requires
        all_have_colon(lines(apps@)),
    ensures
        r@ == joined_names(lines(apps@)),
{
    let ls = split_lines(apps);
    let ghost lv = ls@.map_values(|l: String| l@);
    let mut r = String::new();
    let n = ls.len();
    let mut i: usize = 0;
    while i < n
        invariant
            n == ls.len(),
            i <= n,
            lv == ls@.map_values(|l: String| l@),
            all_have_colon(lv),
            r@ == joined_names(lv.take(i as int)),
        decreases n - i,
    {
        let line = ls[i].as_str();
        proof {
            assert(lv.take(i + 1).drop_last() =~= lv.take(i as int));
            assert(lv.take(i + 1).last() == line@);
            assert(lv[i as int] == line@);
            assert(has_char(line@, ':'));
        }
        let piece = text_second_piece(line, ':').unwrap();
        r.append(piece.as_str());
        i = i + 1;
    }
    assert(lv.take(n as int) =~= lv);
    r
}

/// The third-party packages, joined, from the output `apps` of `pm list packages -3`.
pub fn get_third_party_apps(apps: &str) -> (r: String)
    requires
        all_have_colon(lines(apps@)),
    ensures
        r@ == joined_names(lines(apps@)),
{
    join_names(apps)
}

/// The system packages, joined, from the output `apps` of `pm list packages -s`.
pub fn get_system_apps(apps: &str) -> (r: String)
    requires
        all_have_colon(lines(apps@)),
    ensures
        r@ == joined_names(lines(apps@)),
{
    join_names(apps)
}

} // verus!
