use ruxius::text::{decimal_string, join_lines, split_lines};

fn chars(s: &str) -> Vec<char> {
    s.chars().collect()
}

fn strings(v: &[Vec<char>]) -> Vec<String> {
    v.iter().map(|l| l.iter().collect()).collect()
}

#[test]
fn lines_split_like_str_lines() {
    let (lines, crlf) = split_lines(&chars("a\r\nb\n\nc"));
    assert_eq!(strings(&lines), vec!["a", "b", "", "c"]);
    assert!(crlf);
    let (lines, crlf) = split_lines(&chars("x\ny\n"));
    assert_eq!(strings(&lines), vec!["x", "y"]);
    assert!(!crlf);
    assert!(split_lines(&[]).0.is_empty());
}

#[test]
fn joined_lines_split_back() {
    let lines = vec![chars("one"), chars(""), chars("three")];
    for crlf in [false, true] {
        let text = join_lines(&lines, crlf);
        let (back, _) = split_lines(&chars(&text));
        assert_eq!(back, lines);
    }
    assert_eq!(join_lines(&lines, true), "one\r\n\r\nthree\r\n");
    assert_eq!(join_lines(&Vec::new(), false), "\n");
}

#[test]
fn decimal_text() {
    assert_eq!(decimal_string(0), "0");
    assert_eq!(decimal_string(8080), "8080");
    assert_eq!(decimal_string(u64::MAX), u64::MAX.to_string());
}
