use ssh_config_tunnels::{list_tunnels, parse_config, ParseError, PatternEntry};

fn parsed(text: &str) -> Vec<PatternEntry> {
    parse_config(text).unwrap()
}

fn rejected(text: &str) -> ParseError {
    parse_config(text).err().unwrap()
}

fn first_patterns(entries: &Vec<PatternEntry>) -> Vec<String> {
    entries.iter().map(|entry| entry.first_pattern().clone()).collect()
}

fn option_of(entry: &PatternEntry, name: &str) -> Option<String> {
    entry.option(name).cloned()
}

const SCENARIO: &str = "Host jump\nHostName jump.example.com\nHost tunnel1\nLocalForward 8080 127.0.0.1:80\nUser me\nHost plain\nUser root\n";

#[test]
fn empty_text_has_no_entries() {
    assert!(parsed("").is_empty());
}

#[test]
fn text_without_host_lines_has_no_entries() {
    assert!(parsed("# only a comment\n\n   \n#another\n").is_empty());
}

#[test]
fn directive_before_any_host_line_is_rejected() {
    assert_eq!(
        rejected("User bob"),
        ParseError::OrphanDirective { name: "User".to_string() }
    );
    assert_eq!(
        rejected("# c\n\nUser bob\nPort 22\nHost a\n"),
        ParseError::OrphanDirective { name: "User".to_string() }
    );
}

#[test]
fn one_entry_for_each_host_line() {
    assert_eq!(parsed("Host a").len(), 1);
    assert_eq!(parsed("Host a\nHost b\nHost c\n").len(), 3);
    assert_eq!(parsed("Host a\nUser x\n\nHost a\n# c\nUser y\nHost a").len(), 3);
    assert_eq!(parsed(SCENARIO).len(), 3);
}

#[test]
fn parsing_twice_gives_the_same() {
    let first = parsed(SCENARIO);
    let second = parsed(SCENARIO);
    assert_eq!(first.len(), second.len());
    for (a, b) in first.iter().zip(second.iter()) {
        assert_eq!(a.patterns(), b.patterns());
        assert_eq!(a.is_tunnel(), b.is_tunnel());
        for name in ["HostName", "LocalForward", "User", "Port"] {
            assert_eq!(a.option(name), b.option(name));
        }
    }
    assert_eq!(parse_config("Host a\nbad").err(), parse_config("Host a\nbad").err());
}

#[test]
fn last_value_of_a_directive_wins() {
    let entries = parsed("Host a\nFoo 1\nFoo 2");
    assert_eq!(entries.len(), 1);
    assert_eq!(option_of(&entries[0], "Foo"), Some("2".to_string()));
}

#[test]
fn last_value_wins_within_its_block_only() {
    let entries = parsed("Host a\nFoo 1\nBar x\nFoo 2\nHost b\nFoo 3\nFoo 4\nHost c\n");
    assert_eq!(option_of(&entries[0], "Foo"), Some("2".to_string()));
    assert_eq!(option_of(&entries[0], "Bar"), Some("x".to_string()));
    assert_eq!(option_of(&entries[1], "Foo"), Some("4".to_string()));
    assert_eq!(option_of(&entries[1], "Bar"), None);
    assert_eq!(option_of(&entries[2], "Foo"), None);
}

#[test]
fn entries_keep_the_order_of_their_host_lines() {
    let entries = parsed("Host z\nHost a\nUser u\nHost m\nHost a\n");
    assert_eq!(first_patterns(&entries), vec!["z", "a", "m", "a"]);
}

#[test]
fn entry_has_the_one_pattern_of_its_host_line() {
    let entries = parsed("Host  first second  \n");
    assert_eq!(entries[0].patterns(), &vec!["first second".to_string()]);
    assert_eq!(entries[0].first_pattern(), "first second");
}

#[test]
fn entry_with_local_forward_is_a_tunnel() {
    let entries = parsed("Host t\nLocalForward 8080 localhost:80\n");
    assert!(entries[0].is_tunnel());
    assert_eq!(option_of(&entries[0], "LocalForward"), Some("8080 localhost:80".to_string()));
}

#[test]
fn entry_with_only_user_is_no_tunnel() {
    let entries = parsed("Host p\nUser bob\n");
    assert!(!entries[0].is_tunnel());
}

#[test]
fn directive_names_are_taken_literally() {
    let entries = parsed("Host a\nlocalforward 1 b:2\nLocalForwards 1 b:2\nhost b\nHostName c\n");
    assert_eq!(entries.len(), 1);
    assert!(!entries[0].is_tunnel());
    assert_eq!(option_of(&entries[0], "host"), Some("b".to_string()));
    assert_eq!(option_of(&entries[0], "HostName"), Some("c".to_string()));
}

#[test]
fn built_entry_is_a_tunnel_once_local_forward_is_set() {
    let entry = PatternEntry::new("t".to_string());
    assert!(!entry.is_tunnel());
    assert_eq!(entry.patterns(), &vec!["t".to_string()]);
    assert_eq!(entry.option("User"), None);
    let entry = entry.with_option("User".to_string(), "bob".to_string());
    assert!(!entry.is_tunnel());
    let entry = entry.with_option("LocalForward".to_string(), "1 h:2".to_string());
    assert!(entry.is_tunnel());
    let entry = entry.with_option("User".to_string(), "root".to_string());
    assert_eq!(option_of(&entry, "User"), Some("root".to_string()));
    assert_eq!(entry.first_pattern(), "t");
}

#[test]
fn malformed_line_is_rejected() {
    assert_eq!(
        rejected("NoSpaceHere"),
        ParseError::MalformedLine { line: "NoSpaceHere".to_string() }
    );
    assert_eq!(
        rejected("Host a\nUser b\n  NoSpaceHere  \nHost c\n"),
        ParseError::MalformedLine { line: "NoSpaceHere".to_string() }
    );
}

#[test]
fn first_line_that_cannot_be_taken_decides() {
    assert_eq!(
        rejected("bad\nUser b\n"),
        ParseError::MalformedLine { line: "bad".to_string() }
    );
    assert_eq!(
        rejected("User b\nbad\n"),
        ParseError::OrphanDirective { name: "User".to_string() }
    );
}

#[test]
fn comments_and_blank_lines_contribute_nothing() {
    let plain = parsed("Host a\nUser b\nHost c\n");
    let padded = parsed("# comment\n\nHost a\n\n# comment\nUser b\n   \nHost c\n#\n");
    assert_eq!(first_patterns(&plain), first_patterns(&padded));
    assert_eq!(option_of(&plain[0], "User"), option_of(&padded[0], "User"));
    assert_eq!(option_of(&padded[0], "#"), None);
    assert!(parsed("# comment\n").is_empty());
    assert!(parsed("\n").is_empty());
}

#[test]
fn carriage_returns_at_line_ends_are_no_part_of_values() {
    let entries = parsed("Host a\r\nUser b\r\n");
    assert_eq!(first_patterns(&entries), vec!["a"]);
    assert_eq!(option_of(&entries[0], "User"), Some("b".to_string()));
}

#[test]
fn error_messages_name_the_line_and_the_directive() {
    assert_eq!(
        rejected("NoSpaceHere").message(),
        "No parameter value found in line: NoSpaceHere"
    );
    assert_eq!(
        rejected("User bob").message(),
        "No Host directive before parameter User"
    );
}

#[test]
fn end_to_end_scenario() {
    let entries = parsed(SCENARIO);
    assert_eq!(first_patterns(&entries), vec!["jump", "tunnel1", "plain"]);
    assert_eq!(
        entries.iter().map(|entry| entry.is_tunnel()).collect::<Vec<bool>>(),
        vec![false, true, false]
    );
    assert_eq!(option_of(&entries[0], "HostName"), Some("jump.example.com".to_string()));
    assert_eq!(option_of(&entries[1], "LocalForward"), Some("8080 127.0.0.1:80".to_string()));
    assert_eq!(option_of(&entries[1], "User"), Some("me".to_string()));
    assert_eq!(option_of(&entries[2], "User"), Some("root".to_string()));
    assert_eq!(list_tunnels(&entries), vec!["[ ] tunnel1".to_string()]);
}

#[test]
fn listing_has_one_line_for_each_tunnel_in_order() {
    let entries = parsed(
        "Host a\nLocalForward 1 x:1\nHost b\nHost c d\nUser u\nLocalForward 2 y:2\nLocalForward 3 z:3\n",
    );
    assert_eq!(list_tunnels(&entries), vec!["[ ] a".to_string(), "[ ] c d".to_string()]);
    assert!(list_tunnels(&parsed("Host a\nUser b\n")).is_empty());
    assert!(list_tunnels(&Vec::new()).is_empty());
}
