use line_reader::lines::split_lines;

fn owned(v: &[&str]) -> Vec<String> {
    v.iter().map(|s| s.to_string()).collect()
}

#[test]
fn empty_text_has_no_lines() {
    assert_eq!(split_lines(""), Vec::<String>::new());
}

#[test]
fn single_line_without_terminator() {
    assert_eq!(split_lines("hello world"), owned(&["hello world"]));
}

#[test]
fn single_line_with_terminator() {
    assert_eq!(split_lines("hello\n"), owned(&["hello"]));
}

#[test]
fn trailing_newline_adds_no_empty_line() {
    assert_eq!(split_lines("a\nb\n"), owned(&["a", "b"]));
    assert_eq!(split_lines("a\nb"), owned(&["a", "b"]));
}

#[test]
fn lone_newline_gives_one_empty_line() {
    assert_eq!(split_lines("\n"), owned(&[""]));
    assert_eq!(split_lines("\n\n"), owned(&["", ""]));
}

#[test]
fn blank_lines_inside_are_kept() {
    assert_eq!(split_lines("a\n\n\nb"), owned(&["a", "", "", "b"]));
}

#[test]
fn crlf_terminators_are_removed() {
    assert_eq!(split_lines("one\r\ntwo\r\n"), owned(&["one", "two"]));
    assert_eq!(split_lines("one\r\ntwo\nthree"), owned(&["one", "two", "three"]));
    assert_eq!(split_lines("\r\n"), owned(&[""]));
}

#[test]
fn only_one_carriage_return_is_removed() {
    assert_eq!(split_lines("a\r\r\nb"), owned(&["a\r", "b"]));
}

#[test]
fn carriage_return_not_before_newline_is_kept() {
    assert_eq!(split_lines("a\rb\nc"), owned(&["a\rb", "c"]));
    assert_eq!(split_lines("a\r"), owned(&["a\r"]));
    assert_eq!(split_lines("x\na\r"), owned(&["x", "a\r"]));
    assert_eq!(split_lines("\r"), owned(&["\r"]));
}

#[test]
fn lines_keep_other_whitespace() {
    assert_eq!(split_lines("  a \t\n b "), owned(&["  a \t", " b "]));
}

#[test]
fn non_ascii_text_is_split() {
    assert_eq!(split_lines("héllo\n世界\r\n🦀"), owned(&["héllo", "世界", "🦀"]));
}

#[test]
fn agrees_with_std_lines() {
    let samples = [
        "",
        "\n",
        "a",
        "a\n",
        "a\r\n",
        "a\r",
        "\r\r\n\r",
        "x\n\ny\r\nz\rw\n",
        "ä\r\nö\nü",
        "\n\r\n\n",
    ];
    for s in samples.iter() {
        let expected: Vec<String> = s.lines().map(|l| l.to_string()).collect();
        assert_eq!(split_lines(s), expected, "text {:?}", s);
    }
}

#[test]
fn rejoining_lines_gives_the_text_back() {
    let text = "first\nsecond\n\nfourth\n";
    assert_eq!(split_lines(text).join("\n"), "first\nsecond\n\nfourth");
    let text = "first\nsecond";
    assert_eq!(split_lines(text).join("\n"), text);
    let text = "a\r\nb\r\n";
    assert_eq!(split_lines(text).join("\r\n"), "a\r\nb");
}

#[test]
fn splitting_twice_gives_equal_lines() {
    let text = "alpha\r\nbeta\ngamma\n";
    let first = split_lines(text);
    let second = split_lines(text);
    assert_eq!(first, second);
    assert_eq!(first, owned(&["alpha", "beta", "gamma"]));
}
