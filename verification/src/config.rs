//! The configuration: three lists of applications read from a TOML document.
//!
//! ```toml
//! [White_List_Apps]
//! list = ["good"]
//! [Msg_Apps]
//! list = ["orange", "mango"]
//! [Force_Apps]
//! list = ["apple.com"]
//! ```
use vstd::prelude::*;

use crate::app_list::names;
use crate::toml_doc::{
    parse_toml_document, toml_document, toml_nesting_ok, toml_nesting_within_bound, TomlDoc, TomlSection, TomlSectionView, TomlValue,
    TomlValueView,
};

verus! {

/// The application lists of the configuration.
#[derive(Debug, Clone)]
pub struct Config {
    /// Applications that are never put to sleep (unless forced).
    pub white_list: Vec<String>,
    /// Instant-messaging applications, handled by a group of their own.
    pub msg_list: Vec<String>,
    /// Applications that are always put to sleep.
    pub force_list: Vec<String>,
}

/// The text of the three lists of a `Config`.
pub struct ConfigView {
    pub white_list: Seq<Seq<char>>,
    pub msg_list: Seq<Seq<char>>,
    pub force_list: Seq<Seq<char>>,
}

impl View for Config {
    type V = ConfigView;

    open spec fn view(&self) -> ConfigView {
        ConfigView {
            white_list: names(self.white_list@),
            msg_list: names(self.msg_list@),
            force_list: names(self.force_list@),
        }
    }
}

impl Default for Config {
    fn default() -> (r: Config)
        ensures
            r.white_list@.len() == 0,
            r.msg_list@.len() == 0,
            r.force_list@.len() == 0,
    {
        Config { white_list: Vec::new(), msg_list: Vec::new(), force_list: Vec::new() }
    }
}

/// The value of the first entry whose key is `key`, as a table lookup gives it (the keys of
/// a TOML table are distinct).
pub open spec fn lookup<V>(entries: Seq<(Seq<char>, V)>, key: Seq<char>) -> Option<V>
    decreases entries.len(),
{
    if entries.len() == 0 {
        None
    } else if entries[0].0 == key {
        Some(entries[0].1)
    } else {
        lookup(entries.drop_first(), key)
    }
}

/// Whether every element of an array is a string.
pub open spec fn all_strings(items: Seq<Option<Seq<char>>>) -> bool {
    forall|i: int| 0 <= i < items.len() ==> (#[trigger] items[i]) is Some
}

/// The strings of `doc[flag]["list"]`: present when `flag` names a table whose key `list`
/// holds an array of strings only.
pub open spec fn section_list(doc: Seq<(Seq<char>, TomlSectionView)>, flag: Seq<char>) -> Option<
    Seq<Seq<char>>,
> {
    match lookup(doc, flag) {
        Some(TomlSectionView::Table(t)) => match lookup(t, "list"@) {
            Some(TomlValueView::Array(items)) => if all_strings(items) {
                Some(items.map_values(|o: Option<Seq<char>>| o->0))
            } else {
                None
            },
            _ => None,
        },
        _ => None,
    }
}

/// The configuration that a document gives, when all three of its lists are well formed.
pub open spec fn config_of(doc: Seq<(Seq<char>, TomlSectionView)>) -> Option<ConfigView> {
    match (
        section_list(doc, "White_List_Apps"@),
        section_list(doc, "Msg_Apps"@),
        section_list(doc, "Force_Apps"@),
    ) {
        (Some(w), Some(m), Some(f)) => Some(ConfigView { white_list: w, msg_list: m, force_list: f }),
        _ => None,
    }
}

/// The configuration that the TOML text `text` gives, if it gives one.
pub open spec fn config_from_text(text: Seq<char>) -> Option<ConfigView> {
    match toml_document(text) {
        Some(doc) => config_of(doc),
        None => None,
    }
}

/// `lookup` finds the first entry with the key, and nothing where no entry has it.
proof fn lemma_lookup<V>(entries: Seq<(Seq<char>, V)>, key: Seq<char>, i: int)
    requires
        0 <= i <= entries.len(),
        forall|j: int| 0 <= j < i ==> (#[trigger] entries[j]).0 != key,
        i < entries.len() ==> entries[i].0 == key,
    ensures
        i < entries.len() ==> lookup(entries, key) == Some(entries[i].1),
        i == entries.len() ==> lookup(entries, key) is None,
    decreases i,
{
    if i > 0 {
        let t = entries.drop_first();
        assert(entries[0].0 != key);
        assert forall|j: int| 0 <= j < i - 1 implies (#[trigger] t[j]).0 != key by {
            assert(t[j] == entries[j + 1]);
        }
        lemma_lookup(t, key, i - 1);
    }
}

/// Position of the top-level entry of `doc` named `key`.
fn find_section(doc: &TomlDoc, key: &String) -> (r: Option<usize>)
    ensures
        r matches Some(i) ==> i < doc@.len() && lookup(doc@, key@) == Some(doc@[i as int].1),
        r is None ==> lookup(doc@, key@) is None,
{
    let n = doc.sections.len();
    let mut i: usize = 0;
    while i < n
        invariant
            n == doc.sections.len(),
            i <= n,
            forall|j: int| 0 <= j < i ==> (#[trigger] doc@[j]).0 != key@,
        decreases n - i,
    {
        if doc.sections[i].0 == *key {
            proof {
                lemma_lookup(doc@, key@, i as int);
            }
            return Some(i);
        }
        i = i + 1;
    }
    proof {
        lemma_lookup(doc@, key@, n as int);
    }
    None
}

/// Position of the entry of the table `t` named `key`.
fn find_value(t: &Vec<(String, TomlValue)>, key: &String) -> (r: Option<usize>)
    ensures
        r matches Some(i) ==> i < t@.len() && lookup(
            t@.map_values(|e: (String, TomlValue)| (e.0@, e.1@)),
            key@,
        ) == Some(t@[i as int].1@),
        r is None ==> lookup(t@.map_values(|e: (String, TomlValue)| (e.0@, e.1@)), key@) is None,
{
    let ghost tv = t@.map_values(|e: (String, TomlValue)| (e.0@, e.1@));
    let n = t.len();
    let mut i: usize = 0;
    while i < n
        invariant
            n == t.len(),
            i <= n,
            tv == t@.map_values(|e: (String, TomlValue)| (e.0@, e.1@)),
            forall|j: int| 0 <= j < i ==> (#[trigger] tv[j]).0 != key@,
        decreases n - i,
    {
        if t[i].0 == *key {
            proof {
                lemma_lookup(tv, key@, i as int);
            }
            return Some(i);
        }
        i = i + 1;
    }
    proof {
        lemma_lookup(tv, key@, n as int);
    }
    None
}

/// The strings of `config[flag]["list"]`, or `None` where that is not an array of strings.
fn read_list(config: &TomlDoc, flag: &str) -> (r: Option<Vec<String>>)
    ensures
        r matches Some(v) ==> section_list(config@, flag@) == Some(names(v@)),
        r is None ==> section_list(config@, flag@) is None,
{
    let flag_key = flag.to_owned();
    let i = match find_section(config, &flag_key) {
        Some(i) => i,
        None => return None,
    };
    let t = match &config.sections[i].1 {
        TomlSection::Table(t) => t,
        TomlSection::Other => return None,
    };
    let list_key = "list".to_owned();
    let j = match find_value(t, &list_key) {
        Some(j) => j,
        None => return None,
    };
    let ghost tv = t@.map_values(|e: (String, TomlValue)| (e.0@, e.1@));
    proof {
        assert(config@[i as int].1 == config.sections@[i as int].1@);
        assert(config@[i as int].1 == TomlSectionView::Table(tv));
        assert(list_key@ == "list"@);
    }
    let items = match &t[j].1 {
        TomlValue::Array(a) => a,
        TomlValue::Other => return None,
    };
    let ghost iv = items@.map_values(|o: Option<String>| crate::toml_doc::opt_text(o));
    proof {
        assert(t@[j as int].1@ == TomlValueView::Array(iv));
        assert(lookup(tv, "list"@) == Some(TomlValueView::Array(iv)));
    }
    let n = items.len();
    let mut out: Vec<String> = Vec::new();
    let mut k: usize = 0;
    while k < n
        invariant
            n == items.len(),
            k <= n,
            iv == items@.map_values(|o: Option<String>| crate::toml_doc::opt_text(o)),
            lookup(config@, flag@) == Some(TomlSectionView::Table(tv)),
            lookup(tv, "list"@) == Some(TomlValueView::Array(iv)),
            forall|m: int| 0 <= m < k ==> (#[trigger] iv[m]) is Some,
            names(out@) == iv.take(k as int).map_values(|o: Option<Seq<char>>| o->0),
        decreases n - k,
    {
        match &items[k] {
            Some(s) => {
                let ghost before = out@;
                out.push(s.clone());
                proof {
                    assert(iv[k as int] == Some(s@));
                    assert(names(out@) =~= names(before).push(s@));
                    assert(iv.take(k + 1) =~= iv.take(k as int).push(iv[k as int]));
                    assert(iv.take(k + 1).map_values(|o: Option<Seq<char>>| o->0) =~= iv.take(
                        k as int,
                    ).map_values(|o: Option<Seq<char>>| o->0).push(s@));
                }
            },
            None => {
                proof {
                    assert(iv[k as int] is None);
                    assert(!all_strings(iv));
                }
                return None;
            },
        }
        k = k + 1;
    }
    assert(iv.take(n as int) =~= iv);
    Some(out)
}

/// The strings of the array `config[flag]["list"]`.
pub fn parse_toml(config: &TomlDoc, flag: &str) -> (r: Vec<String>)
    requires
        section_list(config@, flag@) is Some,
    ensures
        Some(names(r@)) == section_list(config@, flag@),
{
    read_list(config, flag).unwrap()
}

/// The configuration in the TOML text `config`.
pub fn get_config(config: String) -> (r: Config)
    requires
        toml_nesting_ok(config@),
        config_from_text(config@) is Some,
    ensures
        Some(r@) == config_from_text(config@),
{
    let doc = parse_toml_document(config.as_str()).unwrap();
    let white_list = parse_toml(&doc, "White_List_Apps");
    let msg_list = parse_toml(&doc, "Msg_Apps");
    let force_list = parse_toml(&doc, "Force_Apps");
    Config { white_list, msg_list, force_list }
}

/// The configuration in the TOML text `config`, or `None` where the text's nesting measure
/// (open arrays and inline tables plus the parts of the current key and table header, at
/// the deepest point) exceeds the bound under which the parser is called, where it is not
/// a TOML document, or where one of its three lists is missing or holds something other
/// than strings. The number of entries in the lists plays no part.
pub fn try_get_config(config: String) -> (r: Option<Config>)
    ensures
        r matches Some(c) ==> toml_nesting_ok(config@) && Some(c@) == config_from_text(config@),
        r is None ==> !toml_nesting_ok(config@) || config_from_text(config@) is None,
{
    if !toml_nesting_within_bound(config.as_str()) {
        return None;
    }
    let doc = match parse_toml_document(config.as_str()) {
        Some(d) => d,
        None => return None,
    };
    if read_list(&doc, "White_List_Apps").is_none() || read_list(&doc, "Msg_Apps").is_none()
        || read_list(&doc, "Force_Apps").is_none() {
        return None;
    }
    Some(get_config(config))
}

/// `names` is the array of strings under the `list` key of the table `flag` of `doc`, in
/// order.
pub open spec fn holds_list(
    doc: Seq<(Seq<char>, TomlSectionView)>,
    flag: Seq<char>,
    names: Seq<Seq<char>>,
) -> bool {
    match lookup(doc, flag) {
        Some(TomlSectionView::Table(t)) => match lookup(t, "list"@) {
            Some(TomlValueView::Array(items)) => items.len() == names.len() && forall|i: int|
                0 <= i < items.len() ==> #[trigger] items[i] == Some(names[i]),
            _ => false,
        },
        _ => false,
    }
}

proof fn lemma_section_list_holds(doc: Seq<(Seq<char>, TomlSectionView)>, flag: Seq<char>, names: Seq<Seq<char>>)
    ensures
        section_list(doc, flag) == Some(names) <==> holds_list(doc, flag, names),
{
    if section_list(doc, flag) == Some(names) {
        match lookup(doc, flag) {
            Some(TomlSectionView::Table(t)) => match lookup(t, "list"@) {
                Some(TomlValueView::Array(items)) => {
                    assert forall|i: int| 0 <= i < items.len() implies #[trigger] items[i] == Some(
                        names[i],
                    ) by {
                        assert(items[i] is Some);
                    }
                    assert(holds_list(doc, flag, names));
                },
                _ => {},
            },
            _ => {},
        }
    }
    if holds_list(doc, flag, names) {
        let t = lookup(doc, flag)->Some_0->Table_0;
        let items = lookup(t, "list"@)->Some_0->Array_0;
        assert(all_strings(items)) by {
            assert forall|i: int| 0 <= i < items.len() implies (#[trigger] items[i]) is Some by {
                assert(items[i] == Some(names[i]));
            }
        }
        assert(items.map_values(|o: Option<Seq<char>>| o->0) =~= names) by {
            assert forall|i: int| 0 <= i < items.len() implies items.map_values(
                |o: Option<Seq<char>>| o->0,
            )[i] == names[i] by {
                assert(items[i] == Some(names[i]));
            }
        }
    }
}

/// Each list of the configuration is exactly the array of strings under the `list` key of
/// its own table, whatever the other tables hold: the text gives a configuration with the
/// lists `w`, `m` and `f` exactly when it is a TOML document whose `White_List_Apps`,
/// `Msg_Apps` and `Force_Apps` tables hold those arrays.
pub proof fn lemma_config_lists_are_sections(
    text: Seq<char>,
    w: Seq<Seq<char>>,
    m: Seq<Seq<char>>,
    f: Seq<Seq<char>>,
)
    ensures
        config_from_text(text) == Some(ConfigView { white_list: w, msg_list: m, force_list: f })
            <==> (toml_document(text) matches Some(doc) && holds_list(doc, "White_List_Apps"@, w)
            && holds_list(doc, "Msg_Apps"@, m) && holds_list(doc, "Force_Apps"@, f)),
{
    match toml_document(text) {
        Some(doc) => {
            lemma_section_list_holds(doc, "White_List_Apps"@, w);
            lemma_section_list_holds(doc, "Msg_Apps"@, m);
            lemma_section_list_holds(doc, "Force_Apps"@, f);
        },
        None => {},
    }
}

} // verus!
