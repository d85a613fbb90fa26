use task_limiter::text::{
    split_fields, split_lines, split_par_lines, text_before, text_contains, text_parse_u32, text_second_piece,
    text_trim, text_trim_char,
};

#[test]
fn lines_follow_str_lines() {
    for s in ["", "a", "a\n", "a\r\nb", "a\n\nb\n", "x\r", "\n", "a\rb\n"] {
        let expected: Vec<String> = s.lines().map(|l| l.to_string()).collect();
        assert_eq!(split_lines(s), expected, "{:?}", s);
    }
}

#[test]
fn fields_follow_split_whitespace() {
    for s in ["", "  ", "a b", "  a\t b  c ", "x\u{3000}y\u{A0}z", "one"] {
        let expected: Vec<String> = s.split_whitespace().map(|l| l.to_string()).collect();
        assert_eq!(split_fields(s), expected, "{:?}", s);
    }
}

#[test]
fn pieces_follow_split() {
    for s in ["", "a", "a:b", "a:b:c", ":x", "x:"] {
        assert_eq!(text_before(s, ':'), s.split(':').next().unwrap());
        assert_eq!(text_second_piece(s, ':'), s.split(':').nth(1).map(|p| p.to_string()));
    }
}

#[test]
fn contains_follows_str_contains() {
    for (s, p) in [("abc", "b"), ("abc", "d"), ("", ""), ("ab", "abc"), ("TOP x", "TOP")] {
        assert_eq!(text_contains(s, p), s.contains(p));
    }
}

#[test]
fn trims_follow_str_trims() {
    for s in ["", "  a  ", "\0a\0", " \0a b\0 ", "\u{2003}x"] {
        assert_eq!(text_trim(s), s.trim());
        assert_eq!(text_trim_char(s, '\0'), s.trim_matches('\0'));
    }
}

#[test]
fn parse_u32_follows_str_parse() {
    for s in ["0", "42", "+7", "-1", "", "+", "4294967295", "4294967296", "12a", "99999999999"] {
        assert_eq!(text_parse_u32(s), s.parse::<u32>().ok(), "{:?}", s);
    }
}

#[test]
fn par_lines_strip_every_carriage_return() {
    for s in ["", "a", "a\n", "a\r\nb\r", "a\n\nb\n", "x\r", "\n", "\r\n\r"] {
        let expected: Vec<String> = s
            .split_terminator('\n')
            .map(|l| l.strip_suffix('\r').unwrap_or(l).to_string())
            .collect();
        assert_eq!(split_par_lines(s), expected, "{:?}", s);
    }
}
