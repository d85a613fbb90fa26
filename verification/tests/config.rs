use task_limiter::config::{get_config, parse_toml, try_get_config, Config};
use task_limiter::toml_doc::{toml_nesting_within_bound, TomlDoc, TomlSection, TomlValue};

#[test]
fn test_config() {
    // 测试配置是乱写的
    let config = r#"[White_List_Apps]
    list = [
        "good"
    ]
    [Msg_Apps]
    list = [
        "orange",
        "mango"
    ]
    [Force_Apps]
    list = [
        "apple.com",
        "baidu.com"
    ]
    "#;
    let config = get_config(config.to_string());
    println!("{:?}", config);
}

const SAMPLE: &str = r#"[White_List_Apps]
list = ["good"]
[Msg_Apps]
list = ["orange", "mango"]
[Force_Apps]
list = ["apple.com", "baidu.com"]
"#;

#[test]
fn config_lists_are_read_in_order() {
    let config = get_config(SAMPLE.to_string());
    assert_eq!(config.white_list, vec!["good".to_string()]);
    assert_eq!(config.msg_list, vec!["orange".to_string(), "mango".to_string()]);
    assert_eq!(config.force_list, vec!["apple.com".to_string(), "baidu.com".to_string()]);
}

#[test]
fn try_get_config_agrees_with_get_config() {
    let c = try_get_config(SAMPLE.to_string()).unwrap();
    let d = get_config(SAMPLE.to_string());
    assert_eq!(c.white_list, d.white_list);
    assert_eq!(c.msg_list, d.msg_list);
    assert_eq!(c.force_list, d.force_list);
}

#[test]
fn try_get_config_refuses_bad_toml() {
    assert!(try_get_config("[White_List_Apps".to_string()).is_none());
}

#[test]
fn try_get_config_refuses_missing_section() {
    let text = "[White_List_Apps]\nlist = [\"a\"]\n[Msg_Apps]\nlist = []\n";
    assert!(try_get_config(text.to_string()).is_none());
}

#[test]
fn try_get_config_refuses_missing_list_key() {
    let text = "[White_List_Apps]\nlist = [\"a\"]\n[Msg_Apps]\nitems = []\n[Force_Apps]\nlist = []\n";
    assert!(try_get_config(text.to_string()).is_none());
}

#[test]
fn try_get_config_refuses_non_string_element() {
    let text = "[White_List_Apps]\nlist = [\"a\", 3]\n[Msg_Apps]\nlist = []\n[Force_Apps]\nlist = []\n";
    assert!(try_get_config(text.to_string()).is_none());
}

#[test]
fn try_get_config_refuses_section_that_is_not_a_table() {
    let text = "White_List_Apps = 1\n[Msg_Apps]\nlist = []\n[Force_Apps]\nlist = []\n";
    assert!(try_get_config(text.to_string()).is_none());
}

#[test]
fn empty_lists_are_accepted() {
    let text = "[White_List_Apps]\nlist = []\n[Msg_Apps]\nlist = []\n[Force_Apps]\nlist = []\n";
    let c = try_get_config(text.to_string()).unwrap();
    assert!(c.white_list.is_empty() && c.msg_list.is_empty() && c.force_list.is_empty());
}

#[test]
fn parse_toml_reads_one_list() {
    let doc = TomlDoc {
        sections: vec![
            ("Other".to_string(), TomlSection::Other),
            (
                "Msg_Apps".to_string(),
                TomlSection::Table(vec![
                    ("x".to_string(), TomlValue::Other),
                    (
                        "list".to_string(),
                        TomlValue::Array(vec![Some("a".to_string()), Some("b".to_string())]),
                    ),
                ]),
            ),
        ],
    };
    assert_eq!(parse_toml(&doc, "Msg_Apps"), vec!["a".to_string(), "b".to_string()]);
}

#[test]
fn default_config_is_empty() {
    let c = Config::default();
    assert!(c.white_list.is_empty() && c.msg_list.is_empty() && c.force_list.is_empty());
}

#[test]
fn deeply_nested_text_is_refused_before_parsing() {
    let deep = format!("a = {}{}", "[".repeat(300000), "]".repeat(300000));
    assert!(!toml_nesting_within_bound(&deep));
    assert!(try_get_config(deep).is_none());
    let dotted = format!("a{} = 1", ".a".repeat(257));
    assert!(try_get_config(dotted).is_none());
}

#[test]
fn nesting_bound_follows_open_brackets_keys_and_headers() {
    assert!(toml_nesting_within_bound(SAMPLE));
    // Closed brackets no longer count.
    let closed = format!("a = {}{}\n", "[".repeat(100), "]".repeat(100)).repeat(20);
    assert!(toml_nesting_within_bound(&closed));
    let open_128 = format!("a = {}", "[".repeat(128));
    assert!(toml_nesting_within_bound(&open_128));
    let open_129 = format!("a = {}", "[".repeat(129));
    assert!(!toml_nesting_within_bound(&open_129));
    // Dots of a key count up to the end of its statement.
    assert!(toml_nesting_within_bound(&format!("a{} = 1", ".a".repeat(128))));
    assert!(!toml_nesting_within_bound(&format!("a{} = 1", ".a".repeat(129))));
    assert!(toml_nesting_within_bound(&format!("a{} = 1\n", ".a".repeat(100)).repeat(20)));
    // A table header's dots count for the lines under it.
    let header = format!("[h{}]\nk{} = {}", ".h".repeat(60), ".k".repeat(60), "[".repeat(8));
    assert!(toml_nesting_within_bound(&header));
    let header = format!("[h{}]\nk{} = {}", ".h".repeat(60), ".k".repeat(60), "[".repeat(9));
    assert!(!toml_nesting_within_bound(&header));
    // Brackets and dots inside strings and comments do not count.
    let quoted = format!("a = \"{}\"\nb = '{}'\n# {}\n", "[.".repeat(300), "{.".repeat(300), "[".repeat(300));
    assert!(toml_nesting_within_bound(&quoted));
    let escaped = format!("a = \"\\\"{}\"", "[".repeat(300));
    assert!(toml_nesting_within_bound(&escaped));
    // Past a multi-line string every bracket counts.
    let multi = format!("a = \"\"\"\n{}\n\"\"\"", "[]".repeat(200));
    assert!(!toml_nesting_within_bound(&multi));
}

#[test]
fn many_apps_are_read() {
    let names: Vec<String> = (0..300).map(|i| format!("com.example.app{}.main", i)).collect();
    let quoted: Vec<String> = names.iter().map(|n| format!("\"{}\"", n)).collect();
    let one_line = format!(
        "[White_List_Apps]\nlist = [{}]\n[Msg_Apps]\nlist = []\n[Force_Apps]\nlist = [\"x.y\"]\n",
        quoted.join(", ")
    );
    let c = try_get_config(one_line).unwrap();
    assert_eq!(c.white_list, names);
    assert!(c.msg_list.is_empty());
    assert_eq!(c.force_list, vec!["x.y".to_string()]);
    let per_line = format!(
        "[White_List_Apps]\nlist = []\n[Msg_Apps]\nlist = [\n{}\n]\n[Force_Apps]\nlist = []\n",
        quoted.join(",\n")
    );
    let c = try_get_config(per_line).unwrap();
    assert!(c.white_list.is_empty());
    assert_eq!(c.msg_list, names);
    assert!(c.force_list.is_empty());
}

#[test]
fn texts_at_the_nesting_bound_parse_without_overflow() {
    let arrays = format!("a = {}{}", "[".repeat(128), "]".repeat(128));
    assert!(toml_nesting_within_bound(&arrays));
    assert!(try_get_config(arrays).is_none());
    let dotted = format!("a{} = 1", ".a".repeat(128));
    assert!(try_get_config(dotted).is_none());
    let header = format!("[a{}]\nx = 1", ".a".repeat(127));
    assert!(toml_nesting_within_bound(&header));
    assert!(try_get_config(header).is_none());
    let inline = format!("a = {}1{}", "{b = ".repeat(128), "}".repeat(128));
    assert!(toml_nesting_within_bound(&inline));
    assert!(try_get_config(inline).is_none());
    let mixed = format!(
        "[h{}]\nk{} = {}1{}",
        ".h".repeat(40),
        ".k".repeat(40),
        "[{x.y = ".repeat(15),
        "}]".repeat(15)
    );
    assert!(toml_nesting_within_bound(&mixed));
    assert!(try_get_config(mixed).is_none());
}
