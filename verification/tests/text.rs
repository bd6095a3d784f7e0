use intentiq::text::{contains_str, join, parse_i64, split_lines, str_eq};

#[test]
fn split_lines_agrees_with_std_lines() {
    let cases = [
        "", "\n", "a", "a\n", "a\r\n", "a\r", "a\r\nb", "\r\n\r\n", "x\n\ny\n", "a\rb\nc", "\n\nz", "héllo\nwörld\r\n",
    ];
    for c in cases.iter() {
        let ours = split_lines(c);
        let std_lines: Vec<String> = c.lines().map(|l| l.to_string()).collect();
        assert_eq!(ours, std_lines, "case {:?}", c);
    }
}

#[test]
fn parse_i64_agrees_with_std() {
    let cases = [
        "", "0", "42", "-42", "+42", "-", "+", "1a", "9223372036854775807", "9223372036854775808",
        "-9223372036854775808", "-9223372036854775809", "00012", "٣", " 1", "99999999999999999999999",
    ];
    for c in cases.iter() {
        assert_eq!(parse_i64(c), c.parse::<i64>().ok(), "case {:?}", c);
    }
}

#[test]
fn join_and_search() {
    let v = vec!["a".to_string(), "bc".to_string(), "".to_string()];
    assert_eq!(join(&v, ", "), "a, bc, ");
    assert_eq!(join(&Vec::new(), "-"), "");
    assert!(contains_str("sudo /usr/bin/wget x", "wget"));
    assert!(!contains_str("wge", "wget"));
    assert!(contains_str("abc", ""));
    assert!(str_eq("abc", "abc"));
    assert!(!str_eq("abc", "abd"));
}
