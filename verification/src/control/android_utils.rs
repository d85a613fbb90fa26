//! Reading the package list that `pm list packages` prints, one `package:<name>` per line.
use vstd::prelude::*;

use crate::app_list::AppList;
use crate::text::{
    after_char, before_char, find, is_char, lemma_find, lemma_find_unique, par_lines, second_piece,
    split_par_lines, text_second_piece,
};

verus! {

/// The names that the lines `ls` give after their first `:`, in line order; a line without
/// a `:` gives none.
pub open spec fn package_names(ls: Seq<Seq<char>>) -> Seq<Seq<char>>
    decreases ls.len(),
{
    if ls.len() == 0 {
        seq![]
    } else {
        let rest = package_names(ls.drop_last());
        match second_piece(ls.last(), ':') {
            Some(p) => rest.push(p),
            None => rest,
        }
    }
}

/// The set of package names in the output `apps` of `pm list packages`, read line by line
/// as rayon's `par_lines` reads it.
pub fn package_set(apps: &str) -> (r: AppList)
    ensures
        r@ == package_names(par_lines(apps@)).to_set(),
{
    let ls = split_par_lines(apps);
    let ghost lv = ls@.map_values(|l: String| l@);
    let mut r = AppList::new();
    let n = ls.len();
    let mut i: usize = 0;
    while i < n
        invariant
            n == ls.len(),
            i <= n,
            lv == ls@.map_values(|l: String| l@),
            lv == par_lines(apps@),
            r@ == package_names(lv.take(i as int)).to_set(),
        decreases n - i,
    {
        let ghost pre = lv.take(i as int);
        proof {
            assert(lv.take(i + 1).drop_last() =~= pre);
            assert(lv.take(i + 1).last() == ls@[i as int]@);
        }
        match text_second_piece(ls[i].as_str(), ':') {
            Some(p) => {
                let ghost pv = p@;
                r.insert(p);
                proof {
                    package_names(pre).lemma_push_to_set_commute(pv);
                }
            },
            None => {},
        }
        i = i + 1;
    }
    assert(lv.take(n as int) =~= lv);
    r
}

/// The third-party packages, from the output of `pm list packages -3`.
pub fn get_third_party_apps(apps: &str) -> (r: AppList)
    ensures
        r@ == package_names(par_lines(apps@)).to_set(),
{
    package_set(apps)
}

/// The system packages, from the output of `pm list packages -s`.
pub fn get_system_apps(apps: &str) -> (r: AppList)
    ensures
        r@ == package_names(par_lines(apps@)).to_set(),
{
    package_set(apps)
}

/// `l[i]` is the first `:` of the line `l`, and `e` is where the piece after it ends: at the
/// next `:` or at the end of the line.
pub open spec fn colon_piece_bounds(l: Seq<char>, i: int, e: int) -> bool {
    &&& 0 <= i && i + 1 <= e <= l.len()
    &&& l[i] == ':'
    &&& forall|j: int| 0 <= j < i ==> #[trigger] l[j] != ':'
    &&& forall|j: int| i < j < e ==> #[trigger] l[j] != ':'
    &&& (e == l.len() || l[e] == ':')
}

proof fn lemma_second_piece_bounds(l: Seq<char>)
    ensures
        second_piece(l, ':') is Some <==> exists|j: int| 0 <= j < l.len() && l[j] == ':',
        forall|i: int, e: int|
            #[trigger] colon_piece_bounds(l, i, e) ==> second_piece(l, ':') == Some(
                l.subrange(i + 1, e),
            ),
        second_piece(l, ':') matches Some(p) ==> exists|i: int, e: int|
            #[trigger] colon_piece_bounds(l, i, e) && p == l.subrange(i + 1, e),
{
    let c = is_char(':');
    lemma_find(l, c);
    let i = find(l, c);
    if exists|j: int| 0 <= j < l.len() && l[j] == ':' {
        let j = choose|j: int| 0 <= j < l.len() && l[j] == ':';
        assert(c(l[j]));
    }
    if i < l.len() {
        let rest = l.skip(i + 1);
        lemma_find(rest, c);
        let f = find(rest, c);
        let e = i + 1 + f;
        assert forall|j: int| i < j < e implies #[trigger] l[j] != ':' by {
            assert(l[j] == rest[j - i - 1]);
            assert(!c(rest[j - i - 1]));
        }
        if e < l.len() {
            assert(l[e] == rest[f]);
        }
        assert(rest.take(f) =~= l.subrange(i + 1, e));
        assert(colon_piece_bounds(l, i, e));
        assert forall|i2: int, e2: int| #[trigger] colon_piece_bounds(l, i2, e2) implies second_piece(
            l,
            ':',
        ) == Some(l.subrange(i2 + 1, e2)) by {
            assert forall|j: int| 0 <= j < i2 implies !c(#[trigger] l[j]) by {}
            lemma_find_unique(l, c, i2);
            assert forall|j: int| 0 <= j < e2 - i2 - 1 implies !c(#[trigger] rest[j]) by {
                assert(rest[j] == l[j + i2 + 1]);
            }
            if e2 < l.len() {
                assert(rest[e2 - i2 - 1] == l[e2]);
            }
            lemma_find_unique(rest, c, e2 - i2 - 1);
        }
    } else {
        assert forall|i2: int, e2: int| #[trigger] colon_piece_bounds(l, i2, e2) implies false by {
            assert(!c(l[i2]));
        }
    }
}

proof fn lemma_package_names_members(ls: Seq<Seq<char>>, p: Seq<char>)
    ensures
        package_names(ls).contains(p) <==> exists|k: int|
            0 <= k < ls.len() && second_piece(#[trigger] ls[k], ':') == Some(p),
    decreases ls.len(),
{
    if ls.len() > 0 {
        let pre = ls.drop_last();
        lemma_package_names_members(pre, p);
        let rest = package_names(pre);
        match second_piece(ls.last(), ':') {
            Some(q) => {
                let all = rest.push(q);
                assert(package_names(ls) == all);
                if rest.contains(p) {
                    let j = choose|j: int| 0 <= j < rest.len() && rest[j] == p;
                    assert(all[j] == p);
                }
                if p == q {
                    assert(all[rest.len() as int] == q);
                }
                if all.contains(p) {
                    let j = choose|j: int| 0 <= j < all.len() && all[j] == p;
                    if j < rest.len() {
                        assert(rest[j] == p);
                    }
                }
            },
            None => {},
        }
        if exists|k: int| 0 <= k < ls.len() && second_piece(#[trigger] ls[k], ':') == Some(p) {
            let k = choose|k: int| 0 <= k < ls.len() && second_piece(#[trigger] ls[k], ':') == Some(p);
            if k < pre.len() {
                assert(pre[k] == ls[k]);
            }
        }
        if exists|k: int| 0 <= k < pre.len() && second_piece(#[trigger] pre[k], ':') == Some(p) {
            let k = choose|k: int| 0 <= k < pre.len() && second_piece(#[trigger] pre[k], ':') == Some(p);
            assert(ls[k] == pre[k]);
        }
    }
}

/// The package set holds, for every line of the output that has a `:`, the text after its
/// first `:` up to the next `:` or the end of the line, whatever that text is, and nothing
/// else.
pub proof fn lemma_packages_are_line_pieces(apps: Seq<char>, p: Seq<char>)
    ensures
        package_names(par_lines(apps)).to_set().contains(p) <==> exists|k: int, i: int, e: int|
            0 <= k < par_lines(apps).len() && #[trigger] colon_piece_bounds(par_lines(apps)[k], i, e)
                && p == par_lines(apps)[k].subrange(i + 1, e),
{
    let ls = par_lines(apps);
    lemma_package_names_members(ls, p);
    if package_names(ls).to_set().contains(p) {
        assert(package_names(ls).contains(p));
        let k = choose|k: int| 0 <= k < ls.len() && second_piece(#[trigger] ls[k], ':') == Some(p);
        lemma_second_piece_bounds(ls[k]);
        let (i, e) = choose|i: int, e: int|
            #[trigger] colon_piece_bounds(ls[k], i, e) && p == ls[k].subrange(i + 1, e);
        assert(colon_piece_bounds(ls[k], i, e));
    }
    if exists|k: int, i: int, e: int|
        0 <= k < ls.len() && #[trigger] colon_piece_bounds(ls[k], i, e) && p == ls[k].subrange(i + 1, e) {
        let (k, i, e) = choose|k: int, i: int, e: int|
            0 <= k < ls.len() && #[trigger] colon_piece_bounds(ls[k], i, e) && p == ls[k].subrange(
                i + 1,
                e,
            );
        lemma_second_piece_bounds(ls[k]);
        assert(second_piece(ls[k], ':') == Some(p));
        assert(package_names(ls).contains(p));
    }
}

} // verus!
