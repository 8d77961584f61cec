use std::io::BufRead;
use progit::fields::{escape_pipes_exec, lines_exec, non_empty, split_all_exec, split_fields_exec, unescape_pipes_exec};

fn chars(s: &str) -> Vec<char> {
    s.chars().collect()
}

fn strings(v: Vec<Vec<char>>) -> Vec<String> {
    v.into_iter().map(|c| c.into_iter().collect()).collect()
}

#[test]
fn split_fields_like_splitn() {
    for (s, n) in [("a|b|c", 2usize), ("a|b|c", 5), ("", 3), ("|", 2), ("a||b|", 10), ("abc", 1), ("a|b", 0)] {
        let expected: Vec<String> = s.splitn(n, '|').map(|x| x.to_string()).collect();
        assert_eq!(strings(split_fields_exec(&chars(s), n)), expected);
    }
}

#[test]
fn split_all_like_split() {
    for s in ["a,b", "", ",", "E1, WA3,,x,"] {
        let expected: Vec<String> = s.split(',').map(|x| x.to_string()).collect();
        assert_eq!(strings(split_all_exec(&chars(s), ',')), expected);
    }
}

#[test]
fn lines_like_bufread() {
    for s in ["a\nb", "a\r\nb\r\n", "", "\n", "x\r", "\n\nz\n", "a\r\r\n"] {
        let expected: Vec<String> = std::io::Cursor::new(s).lines().map(|l| l.unwrap()).collect();
        assert_eq!(strings(lines_exec(&chars(s))), expected, "{s:?}");
    }
}

#[test]
fn escape_and_unescape() {
    assert_eq!(escape_pipes_exec("a|b\\|c"), "a\\|b\\\\|c");
    for s in ["", "|", "\\", "\\|", "a|b\\|c||"] {
        let e = escape_pipes_exec(s);
        assert_eq!(e, s.replace('|', "\\|"));
        let u: String = unescape_pipes_exec(&chars(&e)).into_iter().collect();
        assert_eq!(u, s);
        let u2: String = unescape_pipes_exec(&chars(s)).into_iter().collect();
        assert_eq!(u2, s.replace("\\|", "|"));
    }
}

#[test]
fn non_empty_trims() {
    assert_eq!(non_empty(&chars("  x ")), Some("x".to_string()));
    assert_eq!(non_empty(&chars(" \t")), None);
    assert_eq!(non_empty(&chars("")), None);
}
