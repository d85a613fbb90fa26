//! Whether a process still runs the application it was recorded with.
use vstd::prelude::*;

use crate::text::{
    contains_text, find, is_char, is_whitespace, lemma_keep_end_unique, neg, occurs_at,
    text_contains, text_trim, text_trim_char, trim, trim_char, ws,
};

verus! {

/// The command line as `/proc/<pid>/cmdline` gives it, without surrounding whitespace and
/// then without surrounding NUL characters.
pub open spec fn clean_cmdline(raw: Seq<char>) -> Seq<char> {
    trim_char(trim(raw), '\0')
}

/// The command line `raw`, cleaned.
pub fn cmdline_of(raw: &str) -> (r: String)
    ensures
        r@ == clean_cmdline(raw@),
{
    let t = text_trim(raw);
    text_trim_char(t.as_str(), '\0')
}

/// Whether the cleaned command line `raw` names `app`: the check made before a signal is
/// sent to a recorded process.
pub fn cmdline_names_app(raw: &str, app: &str) -> (r: bool)
    ensures
        r == contains_text(clean_cmdline(raw@), app@),
{
    let c = cmdline_of(raw);
    text_contains(c.as_str(), app)
}

/// Cleaning takes off only the NULs that follow a name and nothing of the name itself: for a
/// name `p` with no whitespace and no NUL, `p` followed by any number of NULs cleans to `p`,
/// whatever the length of `p`, and so names it.
pub proof fn lemma_clean_keeps_name(p: Seq<char>, nuls: nat)
    requires
        forall|i: int| 0 <= i < p.len() ==> !is_whitespace(#[trigger] p[i]) && p[i] != '\0',
    ensures
        clean_cmdline(p + Seq::new(nuls, |i: int| '\0')) == p,
        contains_text(clean_cmdline(p + Seq::new(nuls, |i: int| '\0')), p),
{
    let raw = p + Seq::new(nuls, |i: int| '\0');
    // No whitespace at either end, so `trim` keeps everything.
    if raw.len() > 0 {
        assert(!ws()(raw.last()));
        lemma_keep_end_unique(raw, ws(), raw.len() as int);
        assert(raw.take(raw.len() as int) =~= raw);
        assert(neg(ws())(raw[0]));
        assert(find(raw, neg(ws())) == 0);
        assert(raw.skip(0) =~= raw);
    } else {
        assert(raw.take(0) =~= raw);
        assert(raw.skip(0) =~= raw);
    }
    assert(trim(raw) == raw);
    // The trailing NULs go, and the name starts with no NUL.
    assert forall|j: int| p.len() <= j < raw.len() implies is_char('\0')(#[trigger] raw[j]) by {}
    if p.len() > 0 {
        assert(raw[p.len() - 1] == p[p.len() - 1]);
    }
    lemma_keep_end_unique(raw, is_char('\0'), p.len() as int);
    assert(raw.take(p.len() as int) =~= p);
    if p.len() > 0 {
        assert(neg(is_char('\0'))(p[0]));
        assert(find(p, neg(is_char('\0'))) == 0);
    }
    assert(p.skip(0) =~= p);
    assert(trim_char(raw, '\0') == p);
    assert(occurs_at(p, p, 0)) by {
        assert(p.subrange(0, p.len() as int) =~= p);
    }
}

} // verus!
