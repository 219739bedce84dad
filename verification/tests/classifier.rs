use ssh_config_tunnels::chars::{collect_chars, is_whitespace_char};
use ssh_config_tunnels::lines::split_lines;
use ssh_config_tunnels::{parse_config_line, ParseError};

fn std_classify(line: &str) -> Result<Option<(String, String)>, String> {
    let line = line.trim();
    if line.starts_with('#') || line.is_empty() {
        return Ok(None);
    }
    match line.find(' ') {
        None => Err(line.to_string()),
        Some(space) => Ok(Some((
            line[..space].to_string(),
            line[space..].trim_start().to_string(),
        ))),
    }
}

fn classified(line: &str) -> Result<Option<(String, String)>, String> {
    match parse_config_line(line) {
        Ok(None) => Ok(None),
        Ok(Some((name, value))) => Ok(Some((name.to_string(), value.to_string()))),
        Err(ParseError::MalformedLine { line }) => Err(line),
        Err(ParseError::OrphanDirective { .. }) => unreachable!(),
    }
}

#[test]
fn whitespace_is_what_std_calls_whitespace() {
    for code in 0u32..=0x10ffff {
        if let Some(c) = char::from_u32(code) {
            assert_eq!(is_whitespace_char(c), c.is_whitespace(), "U+{:04X}", code);
        }
    }
}

#[test]
fn collect_chars_keeps_every_character() {
    assert_eq!(collect_chars(""), Vec::<char>::new());
    assert_eq!(collect_chars("a b"), vec!['a', ' ', 'b']);
    assert_eq!(collect_chars("h\u{e9}\u{3000}\u{1f600}"), vec!['h', '\u{e9}', '\u{3000}', '\u{1f600}']);
}

#[test]
fn split_lines_of_empty_text_is_empty() {
    assert!(split_lines("").is_empty());
}

#[test]
fn split_lines_drops_line_feeds() {
    assert_eq!(split_lines("a\nb"), vec!["a", "b"]);
    assert_eq!(split_lines("a\nb\n"), vec!["a", "b"]);
    assert_eq!(split_lines("\n"), vec![""]);
    assert_eq!(split_lines("a\n\nb\n"), vec!["a", "", "b"]);
}

#[test]
fn split_lines_drops_a_carriage_return_before_a_line_feed_only() {
    assert_eq!(split_lines("a\r\nb\r"), vec!["a", "b\r"]);
    assert_eq!(split_lines("a\r\r\nb"), vec!["a\r", "b"]);
    assert_eq!(split_lines("\r\n\r\n"), vec!["", ""]);
    assert_eq!(split_lines("a\rb\n"), vec!["a\rb"]);
}

#[test]
fn split_lines_agrees_with_std() {
    let texts = [
        "",
        "\n",
        "\r",
        "\r\n",
        "\n\n",
        "one",
        "one\n",
        "one\r\n",
        "one\r",
        "one\ntwo",
        "one\r\ntwo\r\n",
        "\none\n\ntwo\n\n",
        "Host a\n  User b\r\n# c\n\nHost d \u{e9}\u{3000}\n",
        "\u{1f600}\n\u{1f600}\r\n\u{1f600}",
    ];
    for text in texts {
        let expected: Vec<&str> = text.lines().collect();
        assert_eq!(split_lines(text), expected, "{:?}", text);
    }
}

#[test]
fn blank_lines_are_ignored() {
    assert_eq!(parse_config_line(""), Ok(None));
    assert_eq!(parse_config_line("   "), Ok(None));
    assert_eq!(parse_config_line("\t \r"), Ok(None));
    assert_eq!(parse_config_line("\u{a0}\u{3000}"), Ok(None));
}

#[test]
fn comments_are_ignored() {
    assert_eq!(parse_config_line("# comment"), Ok(None));
    assert_eq!(parse_config_line("#"), Ok(None));
    assert_eq!(parse_config_line("   #comment  "), Ok(None));
    assert_eq!(parse_config_line("#NoSpaceHere"), Ok(None));
}

#[test]
fn directive_is_split_at_the_first_space() {
    assert_eq!(parse_config_line("Host jump"), Ok(Some(("Host", "jump"))));
    assert_eq!(
        parse_config_line("LocalForward 8080 localhost:80"),
        Ok(Some(("LocalForward", "8080 localhost:80")))
    );
    assert_eq!(parse_config_line("a b"), Ok(Some(("a", "b"))));
}

#[test]
fn directive_is_trimmed_before_it_is_split() {
    assert_eq!(parse_config_line("  Host   a b  "), Ok(Some(("Host", "a b"))));
    assert_eq!(parse_config_line("\tUser root\r"), Ok(Some(("User", "root"))));
    assert_eq!(parse_config_line("Key \t\u{a0} value"), Ok(Some(("Key", "value"))));
}

#[test]
fn only_a_space_separates_name_and_value() {
    assert_eq!(parse_config_line("Key\tvalue more"), Ok(Some(("Key\tvalue", "more"))));
    assert_eq!(
        parse_config_line("Key\tvalue"),
        Err(ParseError::MalformedLine { line: "Key\tvalue".to_string() })
    );
}

#[test]
fn hash_inside_a_line_is_no_comment() {
    assert_eq!(parse_config_line("Host a#b"), Ok(Some(("Host", "a#b"))));
    assert_eq!(parse_config_line("a # b"), Ok(Some(("a", "# b"))));
}

#[test]
fn line_without_a_space_is_malformed() {
    assert_eq!(
        parse_config_line("NoSpaceHere"),
        Err(ParseError::MalformedLine { line: "NoSpaceHere".to_string() })
    );
    assert_eq!(
        parse_config_line("  Host \t"),
        Err(ParseError::MalformedLine { line: "Host".to_string() })
    );
}

#[test]
fn classifier_agrees_with_std() {
    let lines = [
        "",
        " ",
        "#",
        " # x y",
        "x",
        "x y",
        " x  y ",
        "x\ty",
        "x \ty\t",
        "\u{a0}Host\u{3000}x y\u{2028}",
        "\u{a0}Host \u{3000}x y\u{2028}",
        "Host \u{e9}t\u{e9}",
        "\u{1f600} \u{1f600}",
        "a  b  c",
        "\u{85}#\u{85}",
        "\u{200b}",
        "\u{200b} x",
    ];
    for line in lines {
        assert_eq!(classified(line), std_classify(line), "{:?}", line);
    }
}
