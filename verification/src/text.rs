//! Character-level text handling shared by the parsers of command output:
//! lines, whitespace-separated fields, pieces around a separator, substring
//! search, trimming and decimal numbers, each stated over `Seq<char>`.
use vstd::prelude::*;
use vstd::string::*;

verus! {

// ---------------------------------------------------------------------------
// Character classes
// ---------------------------------------------------------------------------

/// Unicode `White_Space`, the class that `char::is_whitespace` tests.
pub open spec fn is_whitespace(c: char) -> bool {
    ||| c == '\t'
    ||| c == '\n'
    ||| c == '\u{0B}'
    ||| c == '\u{0C}'
    ||| c == '\r'
    ||| c == ' '
    ||| c == '\u{85}'
    ||| c == '\u{A0}'
    ||| c == '\u{1680}'
    ||| ('\u{2000}' <= c && c <= '\u{200A}')
    ||| c == '\u{2028}'
    ||| c == '\u{2029}'
    ||| c == '\u{202F}'
    ||| c == '\u{205F}'
    ||| c == '\u{3000}'
}

/// A decimal digit `0`..=`9`.
pub open spec fn is_digit(c: char) -> bool {
    '0' <= c && c <= '9'
}

pub open spec fn is_char(c: char) -> spec_fn(char) -> bool {
    |x: char| x == c
}

pub open spec fn not_char(c: char) -> spec_fn(char) -> bool {
    |x: char| x != c
}

pub open spec fn ws() -> spec_fn(char) -> bool {
    |x: char| is_whitespace(x)
}

pub open spec fn non_ws() -> spec_fn(char) -> bool {
    |x: char| !is_whitespace(x)
}

/// Whether `c` is whitespace, as `char::is_whitespace` decides it.
pub fn char_is_whitespace(c: char) -> (r: bool)
    ensures
        r == is_whitespace(c),
{
    c == '\t' || c == '\n' || c == '\u{0B}' || c == '\u{0C}' || c == '\r' || c == ' ' || c
        == '\u{85}' || c == '\u{A0}' || c == '\u{1680}' || ('\u{2000}' <= c && c <= '\u{200A}')
        || c == '\u{2028}' || c == '\u{2029}' || c == '\u{202F}' || c == '\u{205F}' || c
        == '\u{3000}'
}

// ---------------------------------------------------------------------------
// Searching
// ---------------------------------------------------------------------------

/// Index of the first character of `s` that satisfies `p`, or `s.len()` when none does.
pub open spec fn find(s: Seq<char>, p: spec_fn(char) -> bool) -> int
    decreases s.len(),
{
    if s.len() == 0 {
        0
    } else if p(s[0]) {
        0
    } else {
        1 + find(s.drop_first(), p)
    }
}

pub proof fn lemma_find(s: Seq<char>, p: spec_fn(char) -> bool)
    ensures
        0 <= find(s, p) <= s.len(),
        forall|j: int| 0 <= j < find(s, p) ==> !p(#[trigger] s[j]),
        find(s, p) < s.len() ==> p(s[find(s, p)]),
    decreases s.len(),
{
    if s.len() > 0 && !p(s[0]) {
        let t = s.drop_first();
        lemma_find(t, p);
        assert forall|j: int| 0 <= j < find(s, p) implies !p(#[trigger] s[j]) by {
            if j > 0 {
                assert(s[j] == t[j - 1]);
            }
        }
        if find(s, p) < s.len() {
            assert(s[find(s, p)] == t[find(t, p)]);
        }
    }
}

/// `find` is the only index with its two defining properties.
pub proof fn lemma_find_unique(s: Seq<char>, p: spec_fn(char) -> bool, k: int)
    requires
        0 <= k <= s.len(),
        forall|j: int| 0 <= j < k ==> !p(#[trigger] s[j]),
        k < s.len() ==> p(s[k]),
    ensures
        find(s, p) == k,
{
    lemma_find(s, p);
    if find(s, p) < k {
        assert(!p(s[find(s, p)]));
    }
    if find(s, p) > k {
        assert(!p(s[k]));
    }
}

/// The characters of `s`.
pub fn chars_of(s: &str) -> (v: Vec<char>)
    ensures
        v@ == s@,
{
    let mut v: Vec<char> = Vec::new();
    for c in it: s.chars()
        invariant
            v@ == it.seq().take(it.index() as int),
    {
        v.push(c);
    }
    v
}

/// Position of the first `c` in `cs` at or after `start`, or `cs.len()`.
pub fn find_char_from(cs: &Vec<char>, start: usize, c: char) -> (r: usize)
    requires
        start <= cs.len(),
    ensures
        r == start + find(cs@.skip(start as int), is_char(c)),
        start <= r <= cs.len(),
{
    let mut i = start;
    while i < cs.len() && cs[i] != c
        invariant
            start <= i <= cs.len(),
            forall|j: int| start <= j < i ==> cs@[j] != c,
        decreases cs.len() - i,
    {
        i = i + 1;
    }
    proof {
        let t = cs@.skip(start as int);
        assert forall|j: int| 0 <= j < i - start implies !is_char(c)(#[trigger] t[j]) by {
            assert(t[j] == cs@[start + j]);
        }
        if i < cs.len() {
            assert(t[i - start] == cs@[i as int]);
        }
        lemma_find_unique(t, is_char(c), i - start);
    }
    i
}

/// Position of the first character at or after `start` whose whiteness is `white`, or `cs.len()`.
pub fn find_ws_from(cs: &Vec<char>, start: usize, white: bool) -> (r: usize)
    requires
        start <= cs.len(),
    ensures
        white ==> r == start + find(cs@.skip(start as int), ws()),
        !white ==> r == start + find(cs@.skip(start as int), non_ws()),
        start <= r <= cs.len(),
{
    let mut i = start;
    while i < cs.len() && char_is_whitespace(cs[i]) != white
        invariant
            start <= i <= cs.len(),
            forall|j: int| start <= j < i ==> is_whitespace(#[trigger] cs@[j]) != white,
        decreases cs.len() - i,
    {
        i = i + 1;
    }
    proof {
        let t = cs@.skip(start as int);
        if white {
            assert forall|j: int| 0 <= j < i - start implies !ws()(#[trigger] t[j]) by {
                assert(t[j] == cs@[start + j]);
            }
            if i < cs.len() {
                assert(t[i - start] == cs@[i as int]);
            }
            lemma_find_unique(t, ws(), i - start);
        } else {
            assert forall|j: int| 0 <= j < i - start implies !non_ws()(#[trigger] t[j]) by {
                assert(t[j] == cs@[start + j]);
            }
            if i < cs.len() {
                assert(t[i - start] == cs@[i as int]);
            }
            lemma_find_unique(t, non_ws(), i - start);
        }
    }
    i
}

/// The text of `s` between character positions `from` and `to`.
pub fn substring(s: &str, from: usize, to: usize) -> (r: String)
    requires
        from <= to <= s@.len(),
    ensures
        r@ == s@.subrange(from as int, to as int),
{
    s.substring_char(from, to).to_owned()
}


// ---------------------------------------------------------------------------
// Lines
// ---------------------------------------------------------------------------

/// A line without the carriage return that ends it, if any.
pub open spec fn strip_cr(l: Seq<char>) -> Seq<char> {
    if l.len() > 0 && l.last() == '\r' {
        l.drop_last()
    } else {
        l
    }
}

/// The pieces of `s` between `\n` characters, with no empty piece after a final `\n`, each
/// without the `\r` that ends it; when `strip_last` is false, the piece after the last `\n`
/// keeps a `\r` that ends it.
pub open spec fn newline_pieces(s: Seq<char>, strip_last: bool) -> Seq<Seq<char>>
    decreases s.len(),
{
    if s.len() == 0 {
        seq![]
    } else {
        let i = find(s, is_char('\n'));
        if i >= s.len() {
            if strip_last {
                seq![strip_cr(s)]
            } else {
                seq![s]
            }
        } else {
            proof {
                lemma_find(s, is_char('\n'));
            }
            seq![strip_cr(s.take(i))] + newline_pieces(s.skip(i + 1), strip_last)
        }
    }
}

/// The lines of `s`, as `str::lines` gives them: split at `\n`, with a `\r` before the `\n`
/// removed, and no empty line after a final `\n`.
pub open spec fn lines(s: Seq<char>) -> Seq<Seq<char>> {
    newline_pieces(s, false)
}

/// The lines of `s` as rayon's `par_lines` gives them: the pieces of
/// `split_terminator('\n')`, each without one `\r` at its end (the last one too).
pub open spec fn par_lines(s: Seq<char>) -> Seq<Seq<char>> {
    newline_pieces(s, true)
}

/// The lines of `s`, as `str::lines` gives them.
pub fn split_lines(s: &str) -> (r: Vec<String>)
    ensures
        r@.map_values(|l: String| l@) == lines(s@),
{
    split_newlines(s, false)
}

/// The lines of `s`, as rayon's `par_lines` gives them (in order).
pub fn split_par_lines(s: &str) -> (r: Vec<String>)
    ensures
        r@.map_values(|l: String| l@) == par_lines(s@),
{
    split_newlines(s, true)
}

/// The pieces of `s` between `\n` characters.
fn split_newlines(s: &str, strip_last: bool) -> (r: Vec<String>)
    ensures
        r@.map_values(|l: String| l@) == newline_pieces(s@, strip_last),
{
    let cs = chars_of(s);
    let n = cs.len();
    let mut r: Vec<String> = Vec::new();
    let mut pos: usize = 0;
    assert(cs@.skip(0) =~= cs@);
    while pos < n
        invariant
            cs@ == s@,
            n == cs.len(),
            pos <= n,
            r@.map_values(|l: String| l@) + newline_pieces(cs@.skip(pos as int), strip_last)
                == newline_pieces(s@, strip_last),
        decreases n - pos,
    {
        let ghost rest = cs@.skip(pos as int);
        let e = find_char_from(&cs, pos, '\n');
        proof {
            lemma_find(rest, is_char('\n'));
        }
        let end = if e > pos && cs[e - 1] == '\r' && (e < n || strip_last) {
            e - 1
        } else {
            e
        };
        let line = substring(s, pos, end);
        if e == n {
            proof {
                if strip_last {
                    assert(line@ =~= strip_cr(rest));
                } else {
                    assert(line@ =~= rest);
                }
                assert(cs@.skip(n as int) =~= Seq::<char>::empty());
                assert(r@.push(line).map_values(|l: String| l@) =~= r@.map_values(
                    |l: String| l@,
                ).push(line@));
            }
            r.push(line);
            pos = n;
        } else {
            proof {
                let i = e - pos;
                assert(rest.take(i) =~= cs@.subrange(pos as int, e as int));
                assert(line@ =~= strip_cr(rest.take(i)));
                assert(rest.skip(i + 1) =~= cs@.skip(e + 1));
                assert(newline_pieces(rest, strip_last) == seq![strip_cr(rest.take(i))]
                    + newline_pieces(rest.skip(i + 1), strip_last));
                assert(r@.push(line).map_values(|l: String| l@) =~= r@.map_values(
                    |l: String| l@,
                ).push(line@));
                assert(r@.map_values(|l: String| l@).push(line@) + newline_pieces(
                    cs@.skip(e + 1),
                    strip_last,
                ) =~= r@.map_values(|l: String| l@) + newline_pieces(rest, strip_last));
            }
            r.push(line);
            pos = e + 1;
        }
    }
    proof {
        assert(cs@.skip(pos as int) =~= Seq::<char>::empty());
        assert(r@.map_values(|l: String| l@) + Seq::<Seq<char>>::empty() =~= r@.map_values(
            |l: String| l@,
        ));
    }
    r
}

// ---------------------------------------------------------------------------
// Whitespace-separated fields
// ---------------------------------------------------------------------------

/// The fields of `s`, as `str::split_whitespace` gives them: the maximal runs of
/// non-whitespace characters, in order.
pub open spec fn fields(s: Seq<char>) -> Seq<Seq<char>>
    decreases s.len(),
{
    let a = find(s, non_ws());
    if a >= s.len() {
        seq![]
    } else {
        let t = s.skip(a);
        let w = find(t, ws());
        proof {
            lemma_find(s, non_ws());
            lemma_find(t, ws());
            assert(t[0] == s[a]);
            assert(w > 0);
        }
        seq![t.take(w)] + fields(t.skip(w))
    }
}

/// The whitespace-separated fields of `s`.
pub fn split_fields(s: &str) -> (r: Vec<String>)
    ensures
        r@.map_values(|l: String| l@) == fields(s@),
{
    let cs = chars_of(s);
    let n = cs.len();
    let mut r: Vec<String> = Vec::new();
    let mut pos: usize = 0;
    assert(cs@.skip(0) =~= cs@);
    while pos < n
        invariant
            cs@ == s@,
            n == cs.len(),
            pos <= n,
            r@.map_values(|l: String| l@) + fields(cs@.skip(pos as int)) == fields(s@),
        decreases n - pos,
    {
        let ghost rest = cs@.skip(pos as int);
        let a = find_ws_from(&cs, pos, false);
        proof {
            lemma_find(rest, non_ws());
        }
        if a == n {
            proof {
                assert(fields(rest) =~= Seq::<Seq<char>>::empty());
                assert(cs@.skip(n as int) =~= rest.skip(rest.len() as int));
            }
            pos = n;
        } else {
            let b = find_ws_from(&cs, a, true);
            let word = substring(s, a, b);
            proof {
                let t = rest.skip(a - pos);
                assert(t =~= cs@.skip(a as int));
                lemma_find(t, ws());
                assert(word@ =~= t.take(b - a));
                assert(t.skip(b - a) =~= cs@.skip(b as int));
                assert(fields(rest) == seq![t.take(b - a)] + fields(t.skip(b - a)));
                assert(r@.push(word).map_values(|l: String| l@) =~= r@.map_values(
                    |l: String| l@,
                ).push(word@));
                assert(r@.map_values(|l: String| l@).push(word@) + fields(cs@.skip(b as int))
                    =~= r@.map_values(|l: String| l@) + fields(rest));
            }
            r.push(word);
            pos = b;
        }
    }
    proof {
        assert(cs@.skip(pos as int) =~= Seq::<char>::empty());
        assert(fields(Seq::<char>::empty()) =~= Seq::<Seq<char>>::empty());
        assert(r@.map_values(|l: String| l@) + Seq::<Seq<char>>::empty() =~= r@.map_values(
            |l: String| l@,
        ));
    }
    r
}


// ---------------------------------------------------------------------------
// Pieces around a separator
// ---------------------------------------------------------------------------

/// Whether `c` occurs in `s`.
pub open spec fn has_char(s: Seq<char>, c: char) -> bool {
    find(s, is_char(c)) < s.len()
}

/// The text before the first `c`, or all of `s`: what `s.split(c).next()` gives.
pub open spec fn before_char(s: Seq<char>, c: char) -> Seq<char> {
    s.take(find(s, is_char(c)))
}

/// The text after the first `c`, if `c` occurs.
pub open spec fn after_char(s: Seq<char>, c: char) -> Option<Seq<char>> {
    if has_char(s, c) {
        Some(s.skip(find(s, is_char(c)) + 1))
    } else {
        None
    }
}

/// The second piece of `s` split at `c`, what `s.split(c).nth(1)` gives: present exactly
/// when `c` occurs, and running from the first `c` to the next one or to the end.
pub open spec fn second_piece(s: Seq<char>, c: char) -> Option<Seq<char>> {
    match after_char(s, c) {
        Some(rest) => Some(before_char(rest, c)),
        None => None,
    }
}

/// The text of `s` before its first `c`, or all of `s`.
pub fn text_before(s: &str, c: char) -> (r: String)
    ensures
        r@ == before_char(s@, c),
{
    let cs = chars_of(s);
    let e = find_char_from(&cs, 0, c);
    assert(cs@.skip(0) =~= cs@);
    proof {
        lemma_find(s@, is_char(c));
    }
    let r = substring(s, 0, e);
    assert(r@ =~= before_char(s@, c));
    r
}

/// The second piece of `s` split at `c`, if `c` occurs in `s`.
pub fn text_second_piece(s: &str, c: char) -> (r: Option<String>)
    ensures
        r matches Some(p) ==> second_piece(s@, c) == Some(p@),
        r is None ==> second_piece(s@, c) is None,
{
    let cs = chars_of(s);
    let n = cs.len();
    let e = find_char_from(&cs, 0, c);
    assert(cs@.skip(0) =~= cs@);
    proof {
        lemma_find(s@, is_char(c));
    }
    if e == n {
        None
    } else {
        let f = find_char_from(&cs, e + 1, c);
        let r = substring(s, e + 1, f);
        proof {
            let rest = s@.skip(e + 1);
            assert(rest =~= cs@.skip(e + 1));
            lemma_find(rest, is_char(c));
            assert(r@ =~= before_char(rest, c));
        }
        Some(r)
    }
}

// ---------------------------------------------------------------------------
// Substring search
// ---------------------------------------------------------------------------

/// Whether `pat` occurs in `s` at position `i`.
pub open spec fn occurs_at(s: Seq<char>, pat: Seq<char>, i: int) -> bool {
    0 <= i && i + pat.len() <= s.len() && s.subrange(i, i + pat.len()) == pat
}

/// Whether `pat` occurs in `s`, as `str::contains` with a string pattern decides it.
pub open spec fn contains_text(s: Seq<char>, pat: Seq<char>) -> bool {
    exists|i: int| occurs_at(s, pat, i)
}

/// Whether the characters of `pat` stand in `cs` from position `i` on.
fn matches_at(cs: &Vec<char>, pat: &Vec<char>, i: usize) -> (r: bool)
    requires
        i + pat.len() <= cs.len(),
    ensures
        r == occurs_at(cs@, pat@, i as int),
{
    let mut j: usize = 0;
    while j < pat.len()
        invariant
            i + pat.len() <= cs.len(),
            j <= pat.len(),
            forall|k: int| 0 <= k < j ==> cs@[i + k] == pat@[k],
        decreases pat.len() - j,
    {
        if cs[i + j] != pat[j] {
            proof {
                assert(cs@.subrange(i as int, i + pat.len())[j as int] != pat@[j as int]);
            }
            return false;
        }
        j = j + 1;
    }
    assert(cs@.subrange(i as int, i + pat.len()) =~= pat@);
    true
}

/// Whether `pat` occurs in `s`.
pub fn text_contains(s: &str, pat: &str) -> (r: bool)
    ensures
        r == contains_text(s@, pat@),
{
    let cs = chars_of(s);
    let ps = chars_of(pat);
    if ps.len() > cs.len() {
        assert forall|i: int| !occurs_at(s@, pat@, i) by {}
        return false;
    }
    if ps.len() == 0 {
        assert(s@.subrange(0, 0) =~= pat@);
        assert(occurs_at(s@, pat@, 0));
        return true;
    }
    let last = cs.len() - ps.len();
    let mut i: usize = 0;
    while i <= last
        invariant
            cs@ == s@,
            ps@ == pat@,
            last == cs.len() - ps.len(),
            0 < ps.len() <= cs.len(),
            forall|k: int| 0 <= k < i ==> !occurs_at(s@, pat@, k),
        decreases last + 1 - i,
    {
        if matches_at(&cs, &ps, i) {
            return true;
        }
        i = i + 1;
    }
    assert forall|k: int| !occurs_at(s@, pat@, k) by {
        if 0 <= k < i {
        }
    }
    false
}


// ---------------------------------------------------------------------------
// Trimming
// ---------------------------------------------------------------------------

pub open spec fn neg(p: spec_fn(char) -> bool) -> spec_fn(char) -> bool {
    |x: char| !p(x)
}

/// Length of `s` once the characters at its end that satisfy `p` are dropped.
pub open spec fn keep_end(s: Seq<char>, p: spec_fn(char) -> bool) -> int
    decreases s.len(),
{
    if s.len() == 0 {
        0
    } else if p(s.last()) {
        keep_end(s.drop_last(), p)
    } else {
        s.len() as int
    }
}

pub proof fn lemma_keep_end(s: Seq<char>, p: spec_fn(char) -> bool)
    ensures
        0 <= keep_end(s, p) <= s.len(),
        forall|j: int| keep_end(s, p) <= j < s.len() ==> p(#[trigger] s[j]),
        keep_end(s, p) > 0 ==> !p(s[keep_end(s, p) - 1]),
    decreases s.len(),
{
    if s.len() > 0 && p(s.last()) {
        let t = s.drop_last();
        lemma_keep_end(t, p);
        assert forall|j: int| keep_end(s, p) <= j < s.len() implies p(#[trigger] s[j]) by {
            if j < t.len() {
                assert(s[j] == t[j]);
            }
        }
        if keep_end(s, p) > 0 {
            assert(s[keep_end(s, p) - 1] == t[keep_end(t, p) - 1]);
        }
    }
}

pub proof fn lemma_keep_end_unique(s: Seq<char>, p: spec_fn(char) -> bool, k: int)
    requires
        0 <= k <= s.len(),
        forall|j: int| k <= j < s.len() ==> p(#[trigger] s[j]),
        k > 0 ==> !p(s[k - 1]),
    ensures
        keep_end(s, p) == k,
{
    lemma_keep_end(s, p);
    let e = keep_end(s, p);
    if e < k {
        assert(p(s[k - 1]));
    }
    if e > k {
        assert(p(s[e - 1]));
    }
}

/// `s` without the characters that satisfy `p` at its start and at its end.
pub open spec fn trim_matching(s: Seq<char>, p: spec_fn(char) -> bool) -> Seq<char> {
    let t = s.take(keep_end(s, p));
    t.skip(find(t, neg(p)))
}

/// `s` without leading and trailing whitespace, as `str::trim` gives it.
pub open spec fn trim(s: Seq<char>) -> Seq<char> {
    trim_matching(s, ws())
}

/// `s` without the copies of `c` at its start and at its end, as `str::trim_matches` with a
/// character gives it.
pub open spec fn trim_char(s: Seq<char>, c: char) -> Seq<char> {
    trim_matching(s, is_char(c))
}

pub open spec fn trim_pred(mode: Option<char>) -> spec_fn(char) -> bool {
    match mode {
        Some(c) => is_char(c),
        None => ws(),
    }
}

fn trimmed_by(x: char, mode: Option<char>) -> (r: bool)
    ensures
        r == trim_pred(mode)(x),
{
    match mode {
        Some(c) => x == c,
        None => char_is_whitespace(x),
    }
}

fn trim_with(s: &str, mode: Option<char>) -> (r: String)
    ensures
        r@ == trim_matching(s@, trim_pred(mode)),
{
    let ghost p = trim_pred(mode);
    let cs = chars_of(s);
    let mut e = cs.len();
    while e > 0 && trimmed_by(cs[e - 1], mode)
        invariant
            e <= cs.len(),
            cs@ == s@,
            p == trim_pred(mode),
            forall|j: int| e <= j < cs.len() ==> p(#[trigger] cs@[j]),
        decreases e,
    {
        e = e - 1;
    }
    proof {
        lemma_keep_end_unique(s@, p, e as int);
    }
    let mut a: usize = 0;
    while a < e && trimmed_by(cs[a], mode)
        invariant
            a <= e <= cs.len(),
            cs@ == s@,
            p == trim_pred(mode),
            forall|j: int| 0 <= j < a ==> p(#[trigger] cs@[j]),
        decreases e - a,
    {
        a = a + 1;
    }
    let r = substring(s, a, e);
    proof {
        let t = s@.take(e as int);
        assert forall|j: int| 0 <= j < a implies !neg(p)(#[trigger] t[j]) by {
            assert(t[j] == cs@[j]);
        }
        if a < e {
            assert(t[a as int] == cs@[a as int]);
        }
        lemma_find_unique(t, neg(p), a as int);
        assert(r@ =~= t.skip(a as int));
    }
    r
}

/// `s` without leading and trailing whitespace.
pub fn text_trim(s: &str) -> (r: String)
    ensures
        r@ == trim(s@),
{
    trim_with(s, None)
}

/// `s` without the copies of `c` at its start and at its end.
pub fn text_trim_char(s: &str, c: char) -> (r: String)
    ensures
        r@ == trim_char(s@, c),
{
    trim_with(s, Some(c))
}

// ---------------------------------------------------------------------------
// Decimal numbers
// ---------------------------------------------------------------------------

/// Value of a string of decimal digits.
pub open spec fn digits_value(s: Seq<char>) -> nat
    decreases s.len(),
{
    if s.len() == 0 {
        0
    } else {
        digits_value(s.drop_last()) * 10 + ((s.last() as nat) - ('0' as nat)) as nat
    }
}

/// `s` without one leading `+`, if it has one.
pub open spec fn unsigned_digits(s: Seq<char>) -> Seq<char> {
    if s.len() > 0 && s[0] == '+' {
        s.drop_first()
    } else {
        s
    }
}

/// Whether every character of `d` is a decimal digit.
pub open spec fn all_digits(d: Seq<char>) -> bool {
    forall|i: int| 0 <= i < d.len() ==> is_digit(#[trigger] d[i])
}

/// What `str::parse::<u32>` gives: an optional `+`, then one or more decimal digits whose
/// value fits in a `u32`; anything else is refused.
pub open spec fn parse_u32(s: Seq<char>) -> Option<u32> {
    let d = unsigned_digits(s);
    if d.len() > 0 && all_digits(d) && digits_value(d) <= u32::MAX {
        Some(digits_value(d) as u32)
    } else {
        None
    }
}

/// `s` read as a `u32`, as `str::parse::<u32>` reads it.
pub fn text_parse_u32(s: &str) -> (r: Option<u32>)
    ensures
        r == parse_u32(s@),
{
    let cs = chars_of(s);
    let n = cs.len();
    let start: usize = if n > 0 && cs[0] == '+' {
        1
    } else {
        0
    };
    let ghost d = cs@.skip(start as int);
    assert(d =~= unsigned_digits(s@));
    if start == n {
        return None;
    }
    let cap: u64 = 0x1_0000_0000;
    let mut v: u64 = 0;
    let mut i = start;
    while i < n
        invariant
            cs@ == s@,
            n == cs.len(),
            start <= i <= n,
            d == cs@.skip(start as int),
            d == unsigned_digits(s@),
            cap == 0x1_0000_0000,
            forall|k: int| start <= k < i ==> is_digit(#[trigger] cs@[k]),
            v == if digits_value(cs@.subrange(start as int, i as int)) < cap {
                digits_value(cs@.subrange(start as int, i as int))
            } else {
                cap as nat
            },
        decreases n - i,
    {
        let c = cs[i];
        if !('0' <= c && c <= '9') {
            proof {
                let k = i - start;
                assert(d[k] == cs@[i as int]);
                assert(!is_digit(d[k]));
                assert(!all_digits(d));
            }
            return None;
        }
        let digit = (c as u32 - '0' as u32) as u64;
        proof {
            let pre = cs@.subrange(start as int, i as int);
            let pre1 = cs@.subrange(start as int, i + 1);
            assert(pre1.drop_last() =~= pre);
            assert(pre1.last() == c);
            assert(digits_value(pre1) == digits_value(pre) * 10 + digit);
            if digits_value(pre) >= cap {
                assert(digits_value(pre) * 10 + digit >= cap) by (nonlinear_arith)
                    requires
                        digits_value(pre) >= cap,
                        digit >= 0,
                ;
            }
        }
        v = v * 10 + digit;
        if v > cap {
            v = cap;
        }
        i = i + 1;
    }
    proof {
        assert(cs@.subrange(start as int, n as int) =~= d);
    }
    if v < cap {
        Some(v as u32)
    } else {
        None
    }
}

} // verus!
