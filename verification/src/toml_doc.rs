//! The part of a TOML document that the configuration reads: its top-level tables, the
//! keys inside them, and the arrays of strings those keys hold.
use vstd::prelude::*;

use crate::text::chars_of;

verus! {

/// A value inside a top-level table: an array (each element a string, or something else),
/// or any other kind of value.
pub enum TomlValue {
    Array(Vec<Option<String>>),
    Other,
}

/// A top-level value: a table of keys and values, or any other kind of value.
pub enum TomlSection {
    Table(Vec<(String, TomlValue)>),
    Other,
}

/// A TOML document: its top-level keys with their values, in the order the parser gives.
pub struct TomlDoc {
    pub sections: Vec<(String, TomlSection)>,
}

pub enum TomlValueView {
    Array(Seq<Option<Seq<char>>>),
    Other,
}

pub enum TomlSectionView {
    Table(Seq<(Seq<char>, TomlValueView)>),
    Other,
}

pub open spec fn opt_text(o: Option<String>) -> Option<Seq<char>> {
    match o {
        Some(s) => Some(s@),
        None => None,
    }
}

impl View for TomlValue {
    type V = TomlValueView;

    open spec fn view(&self) -> TomlValueView {
        match self {
            TomlValue::Array(a) => TomlValueView::Array(
                a@.map_values(|o: Option<String>| opt_text(o)),
            ),
            TomlValue::Other => TomlValueView::Other,
        }
    }
}

impl View for TomlSection {
    type V = TomlSectionView;

    open spec fn view(&self) -> TomlSectionView {
        match self {
            TomlSection::Table(t) => TomlSectionView::Table(
                t@.map_values(|e: (String, TomlValue)| (e.0@, e.1@)),
            ),
            TomlSection::Other => TomlSectionView::Other,
        }
    }
}

impl View for TomlDoc {
    type V = Seq<(Seq<char>, TomlSectionView)>;

    open spec fn view(&self) -> Seq<(Seq<char>, TomlSectionView)> {
        self.sections@.map_values(|e: (String, TomlSection)| (e.0@, e.1@))
    }
}

/// Where a scan of TOML text stands: outside strings and comments, in a comment, in a basic
/// (`"`) or literal (`'`) string (just opened, inside, or after a backslash), just after an
/// empty string, or past the opener of a multi-line string or a line break inside a string,
/// from where on the scan no longer tells strings from the rest.
#[derive(Clone, Copy)]
pub enum LexMode {
    Code,
    Comment,
    BasicOpen,
    Basic,
    BasicEscape,
    EmptyBasic,
    LiteralOpen,
    Literal,
    EmptyLiteral,
    Opaque,
}

/// The state of a scan: the mode, the number of open `[` and `{`, the dots of the current
/// key (since the last line break outside any bracket), the dots of the current table
/// header, whether the current line has had nothing but blanks so far, whether the scan is
/// in a table header, and the largest `depth + key_dots + header_dots` met so far.
pub struct NestScan {
    pub mode: LexMode,
    pub depth: nat,
    pub key_dots: nat,
    pub header_dots: nat,
    pub line_start: bool,
    pub in_header: bool,
    pub peak: nat,
}

pub open spec fn scan_start() -> NestScan {
    NestScan {
        mode: LexMode::Code,
        depth: 0,
        key_dots: 0,
        header_dots: 0,
        line_start: true,
        in_header: false,
        peak: 0,
    }
}

pub open spec fn scan_with(
    s: NestScan,
    mode: LexMode,
    depth: nat,
    key_dots: nat,
    header_dots: nat,
    line_start: bool,
    in_header: bool,
) -> NestScan {
    NestScan { mode, depth, key_dots, header_dots, line_start, in_header, peak: s.peak }
}

pub open spec fn set_mode(s: NestScan, mode: LexMode) -> NestScan {
    scan_with(s, mode, s.depth, s.key_dots, s.header_dots, s.line_start, s.in_header)
}

/// One character `c` outside strings and comments. A `[` that opens a line outside any
/// bracket starts a table header, whose dots count as header dots; other dots count as
/// key dots. A line break outside any bracket ends the key.
pub open spec fn code_step(s: NestScan, c: char) -> NestScan {
    if c == '\n' {
        if s.depth == 0 {
            scan_with(s, LexMode::Code, 0, 0, s.header_dots, true, false)
        } else {
            set_mode(s, LexMode::Code)
        }
    } else if c == ' ' || c == '\t' || c == '\r' {
        set_mode(s, LexMode::Code)
    } else if c == '#' {
        set_mode(s, LexMode::Comment)
    } else if c == '"' {
        scan_with(s, LexMode::BasicOpen, s.depth, s.key_dots, s.header_dots, false, s.in_header)
    } else if c == '\'' {
        scan_with(s, LexMode::LiteralOpen, s.depth, s.key_dots, s.header_dots, false, s.in_header)
    } else if c == '[' && s.line_start && s.depth == 0 {
        scan_with(s, LexMode::Code, 1, s.key_dots, 0, false, true)
    } else if c == '[' || c == '{' {
        scan_with(s, LexMode::Code, s.depth + 1, s.key_dots, s.header_dots, false, s.in_header)
    } else if c == ']' || c == '}' {
        let d: nat = if s.depth > 0 {
            (s.depth - 1) as nat
        } else {
            0
        };
        scan_with(s, LexMode::Code, d, s.key_dots, s.header_dots, false, s.in_header)
    } else if c == '.' {
        if s.in_header {
            scan_with(s, LexMode::Code, s.depth, s.key_dots, s.header_dots + 1, false, true)
        } else {
            scan_with(s, LexMode::Code, s.depth, s.key_dots + 1, s.header_dots, false, false)
        }
    } else {
        scan_with(s, LexMode::Code, s.depth, s.key_dots, s.header_dots, false, s.in_header)
    }
}

/// One character once strings can no longer be told apart: every `[` and `{` counts as an
/// opening and every dot as a key dot, and nothing is taken back.
pub open spec fn opaque_step(s: NestScan, c: char) -> NestScan {
    if c == '[' || c == '{' {
        scan_with(s, LexMode::Opaque, s.depth + 1, s.key_dots, s.header_dots, false, s.in_header)
    } else if c == '.' {
        scan_with(s, LexMode::Opaque, s.depth, s.key_dots + 1, s.header_dots, false, s.in_header)
    } else {
        s
    }
}

/// The step of the scan over the character `c`, without the peak.
pub open spec fn lex_step(s: NestScan, c: char) -> NestScan {
    match s.mode {
        LexMode::Code => code_step(s, c),
        LexMode::Comment => if c == '\n' {
            code_step(s, c)
        } else {
            s
        },
        LexMode::BasicOpen => if c == '"' {
            set_mode(s, LexMode::EmptyBasic)
        } else if c == '\\' {
            set_mode(s, LexMode::BasicEscape)
        } else if c == '\n' {
            set_mode(s, LexMode::Opaque)
        } else {
            set_mode(s, LexMode::Basic)
        },
        LexMode::Basic => if c == '"' {
            set_mode(s, LexMode::Code)
        } else if c == '\\' {
            set_mode(s, LexMode::BasicEscape)
        } else if c == '\n' {
            set_mode(s, LexMode::Opaque)
        } else {
            s
        },
        LexMode::BasicEscape => if c == '\n' {
            set_mode(s, LexMode::Opaque)
        } else {
            set_mode(s, LexMode::Basic)
        },
        LexMode::EmptyBasic => if c == '"' {
            set_mode(s, LexMode::Opaque)
        } else {
            code_step(s, c)
        },
        LexMode::LiteralOpen => if c == '\'' {
            set_mode(s, LexMode::EmptyLiteral)
        } else if c == '\n' {
            set_mode(s, LexMode::Opaque)
        } else {
            set_mode(s, LexMode::Literal)
        },
        LexMode::Literal => if c == '\'' {
            set_mode(s, LexMode::Code)
        } else if c == '\n' {
            set_mode(s, LexMode::Opaque)
        } else {
            s
        },
        LexMode::EmptyLiteral => if c == '\'' {
            set_mode(s, LexMode::Opaque)
        } else {
            code_step(s, c)
        },
        LexMode::Opaque => opaque_step(s, c),
    }
}

/// One step of the scan: the step over `c`, with the peak raised to the new level.
pub open spec fn scan_step(s: NestScan, c: char) -> NestScan {
    let t = lex_step(s, c);
    let level = t.depth + t.key_dots + t.header_dots;
    NestScan {
        peak: if level > t.peak {
            level
        } else {
            t.peak
        },
        ..t
    }
}

/// The scan of `text` from its start.
pub open spec fn scan(text: Seq<char>) -> NestScan
    decreases text.len(),
{
    if text.len() == 0 {
        scan_start()
    } else {
        scan_step(scan(text.drop_last()), text.last())
    }
}

/// A bound on how deeply the TOML text `text` nests: the largest number, at any point of
/// the text, of open arrays and inline tables, plus the parts that the current key and the
/// current table header add. The scan tells strings and comments from the rest as the
/// `toml` tokenizer does (a backslash in a basic string escapes the next character), so
/// brackets and dots inside them do not count; past a multi-line string it counts every
/// bracket and dot and takes none back. The parser's descent is at most a few calls per
/// level of this bound.
pub open spec fn nesting_measure(text: Seq<char>) -> nat {
    scan(text).peak
}

/// Whether `text` nests shallowly enough for the TOML parser: its descent through the
/// levels this bound allows stays well inside the stack of a thread.
pub open spec fn toml_nesting_ok(text: Seq<char>) -> bool {
    nesting_measure(text) <= 128
}

proof fn lemma_level_within_peak(text: Seq<char>)
    ensures
        scan(text).depth + scan(text).key_dots + scan(text).header_dots <= scan(text).peak,
{
}

proof fn lemma_peak_grows(text: Seq<char>, i: int)
    requires
        0 <= i <= text.len(),
    ensures
        scan(text.take(i)).peak <= scan(text).peak,
    decreases text.len() - i,
{
    if i < text.len() {
        lemma_peak_grows(text, i + 1);
        assert(text.take(i + 1).drop_last() =~= text.take(i));
    } else {
        assert(text.take(i) =~= text);
    }
}

/// The executable state of a scan.
struct NestCounter {
    mode: LexMode,
    depth: usize,
    key_dots: usize,
    header_dots: usize,
    line_start: bool,
    in_header: bool,
    peak: usize,
}

impl View for NestCounter {
    type V = NestScan;

    closed spec fn view(&self) -> NestScan {
        NestScan {
            mode: self.mode,
            depth: self.depth as nat,
            key_dots: self.key_dots as nat,
            header_dots: self.header_dots as nat,
            line_start: self.line_start,
            in_header: self.in_header,
            peak: self.peak as nat,
        }
    }
}

fn counter_with(
    s: &NestCounter,
    mode: LexMode,
    depth: usize,
    key_dots: usize,
    header_dots: usize,
    line_start: bool,
    in_header: bool,
) -> (r: NestCounter)
    ensures
        r@ == scan_with(
            s@,
            mode,
            depth as nat,
            key_dots as nat,
            header_dots as nat,
            line_start,
            in_header,
        ),
{
    NestCounter { mode, depth, key_dots, header_dots, line_start, in_header, peak: s.peak }
}

fn code_step_exec(s: &NestCounter, c: char) -> (r: NestCounter)
    requires
        s.depth < usize::MAX,
        s.key_dots < usize::MAX,
        s.header_dots < usize::MAX,
    ensures
        r@ == code_step(s@, c),
{
    if c == '\n' {
        if s.depth == 0 {
            counter_with(s, LexMode::Code, 0, 0, s.header_dots, true, false)
        } else {
            counter_with(s, LexMode::Code, s.depth, s.key_dots, s.header_dots, s.line_start, s.in_header)
        }
    } else if c == ' ' || c == '\t' || c == '\r' {
        counter_with(s, LexMode::Code, s.depth, s.key_dots, s.header_dots, s.line_start, s.in_header)
    } else if c == '#' {
        counter_with(s, LexMode::Comment, s.depth, s.key_dots, s.header_dots, s.line_start, s.in_header)
    } else if c == '"' {
        counter_with(s, LexMode::BasicOpen, s.depth, s.key_dots, s.header_dots, false, s.in_header)
    } else if c == '\'' {
        counter_with(s, LexMode::LiteralOpen, s.depth, s.key_dots, s.header_dots, false, s.in_header)
    } else if c == '[' && s.line_start && s.depth == 0 {
        counter_with(s, LexMode::Code, 1, s.key_dots, 0, false, true)
    } else if c == '[' || c == '{' {
        counter_with(s, LexMode::Code, s.depth + 1, s.key_dots, s.header_dots, false, s.in_header)
    } else if c == ']' || c == '}' {
        let d: usize = if s.depth > 0 {
            s.depth - 1
        } else {
            0
        };
        counter_with(s, LexMode::Code, d, s.key_dots, s.header_dots, false, s.in_header)
    } else if c == '.' {
        if s.in_header {
            counter_with(s, LexMode::Code, s.depth, s.key_dots, s.header_dots + 1, false, true)
        } else {
            counter_with(s, LexMode::Code, s.depth, s.key_dots + 1, s.header_dots, false, false)
        }
    } else {
        counter_with(s, LexMode::Code, s.depth, s.key_dots, s.header_dots, false, s.in_header)
    }
}

fn set_mode_exec(s: &NestCounter, mode: LexMode) -> (r: NestCounter)
    ensures
        r@ == set_mode(s@, mode),
{
    counter_with(s, mode, s.depth, s.key_dots, s.header_dots, s.line_start, s.in_header)
}

fn copy_counter(s: &NestCounter) -> (r: NestCounter)
    ensures
        r@ == s@,
{
    NestCounter {
        mode: s.mode,
        depth: s.depth,
        key_dots: s.key_dots,
        header_dots: s.header_dots,
        line_start: s.line_start,
        in_header: s.in_header,
        peak: s.peak,
    }
}

fn lex_step_exec(s: &NestCounter, c: char) -> (r: NestCounter)
    requires
        s.depth < usize::MAX,
        s.key_dots < usize::MAX,
        s.header_dots < usize::MAX,
    ensures
        r@ == lex_step(s@, c),
{
    match s.mode {
        LexMode::Code => code_step_exec(s, c),
        LexMode::Comment => if c == '\n' {
            code_step_exec(s, c)
        } else {
            copy_counter(s)
        },
        LexMode::BasicOpen => if c == '"' {
            set_mode_exec(s, LexMode::EmptyBasic)
        } else if c == '\\' {
            set_mode_exec(s, LexMode::BasicEscape)
        } else if c == '\n' {
            set_mode_exec(s, LexMode::Opaque)
        } else {
            set_mode_exec(s, LexMode::Basic)
        },
        LexMode::Basic => if c == '"' {
            set_mode_exec(s, LexMode::Code)
        } else if c == '\\' {
            set_mode_exec(s, LexMode::BasicEscape)
        } else if c == '\n' {
            set_mode_exec(s, LexMode::Opaque)
        } else {
            copy_counter(s)
        },
        LexMode::BasicEscape => if c == '\n' {
            set_mode_exec(s, LexMode::Opaque)
        } else {
            set_mode_exec(s, LexMode::Basic)
        },
        LexMode::EmptyBasic => if c == '"' {
            set_mode_exec(s, LexMode::Opaque)
        } else {
            code_step_exec(s, c)
        },
        LexMode::LiteralOpen => if c == '\'' {
            set_mode_exec(s, LexMode::EmptyLiteral)
        } else if c == '\n' {
            set_mode_exec(s, LexMode::Opaque)
        } else {
            set_mode_exec(s, LexMode::Literal)
        },
        LexMode::Literal => if c == '\'' {
            set_mode_exec(s, LexMode::Code)
        } else if c == '\n' {
            set_mode_exec(s, LexMode::Opaque)
        } else {
            copy_counter(s)
        },
        LexMode::EmptyLiteral => if c == '\'' {
            set_mode_exec(s, LexMode::Opaque)
        } else {
            code_step_exec(s, c)
        },
        LexMode::Opaque => if c == '[' || c == '{' {
            counter_with(s, LexMode::Opaque, s.depth + 1, s.key_dots, s.header_dots, false, s.in_header)
        } else if c == '.' {
            counter_with(s, LexMode::Opaque, s.depth, s.key_dots + 1, s.header_dots, false, s.in_header)
        } else {
            copy_counter(s)
        },
    }
}

/// Whether `text` nests shallowly enough for the TOML parser.
pub fn toml_nesting_within_bound(text: &str) -> (r: bool)
    ensures
        r == toml_nesting_ok(text@),
{
    let cs = chars_of(text);
    let mut st = NestCounter {
        mode: LexMode::Code,
        depth: 0,
        key_dots: 0,
        header_dots: 0,
        line_start: true,
        in_header: false,
        peak: 0,
    };
    let mut i: usize = 0;
    assert(cs@.take(0) =~= Seq::<char>::empty());
    while i < cs.len()
        invariant
            i <= cs.len(),
            cs@ == text@,
            st@ == scan(cs@.take(i as int)),
            st.peak <= 128,
        decreases cs.len() - i,
    {
        proof {
            lemma_level_within_peak(cs@.take(i as int));
            assert(cs@.take(i + 1).drop_last() =~= cs@.take(i as int));
            assert(cs@.take(i + 1).last() == cs@[i as int]);
        }
        let t = lex_step_exec(&st, cs[i]);
        let level = t.depth + t.key_dots + t.header_dots;
        let peak = if level > t.peak {
            level
        } else {
            t.peak
        };
        st = NestCounter { peak, ..t };
        i = i + 1;
        if st.peak > 128 {
            proof {
                lemma_peak_grows(cs@, i as int);
            }
            return false;
        }
    }
    assert(cs@.take(cs.len() as int) =~= cs@);
    true
}

/// The document that the `toml` crate reads from `text`, or `None` where it refuses the
/// text or reads something other than a table from it.
pub uninterp spec fn toml_document(text: Seq<char>) -> Option<Seq<(Seq<char>, TomlSectionView)>>;

/// Parses `text` with `toml::Value`'s `FromStr` (toml 0.5 reads a whole document into a
/// table) and keeps the levels that the configuration reads, telling the kinds of value
/// apart with `as_table`, `as_array` and `as_str`. The contract claims that the result is
/// `toml_document(text)`, so a function of the text alone: the crate's table is a
/// `BTreeMap`, whose order is that of the keys. The parser recurses once per level of
/// nesting with no limit of its own, so a deeply nested text would overflow the stack; the
/// precondition keeps such texts out.
#[verifier::external_body]
pub(crate) fn parse_toml_document(text: &str) -> (r: Option<TomlDoc>)
    requires
        toml_nesting_ok(text@),
    ensures
        r matches Some(d) ==> toml_document(text@) == Some(d@),
        r is None ==> toml_document(text@) is None,
{
    let doc = text.parse::<toml::Value>().ok()?;
    Some(TomlDoc { sections: doc.as_table()?.iter().map(|(k, s)| (k.clone(), match s.as_table() {
        Some(t) => TomlSection::Table(t.iter().map(|(k, v)| (k.clone(), match v.as_array() {
            Some(a) => TomlValue::Array(a.iter().map(|e| e.as_str().map(|x| x.to_string())).collect()),
            None => TomlValue::Other,
        })).collect()),
        None => TomlSection::Other,
    })).collect() })
}

} // verus!
