use transparent::quote::build_command_line;
use transparent::quote::escape_arg;
use transparent::quote::read_command_line;

#[test]
fn escape_bare_stays_bare() {
    assert_eq!(escape_arg("abc123"), "abc123");
    assert_eq!(escape_arg("/usr/bin/x-y_z,2"), "/usr/bin/x-y_z,2");
}

#[test]
fn escape_empty_is_quoted() {
    assert_eq!(escape_arg(""), "''");
}

#[test]
fn escape_space_uses_single_quotes() {
    assert_eq!(escape_arg("a b"), "'a b'");
    assert_eq!(escape_arg("  "), "'  '");
}

#[test]
fn escape_single_quote_uses_double_quotes() {
    assert_eq!(escape_arg("it's"), "\"it's\"");
}

#[test]
fn escape_reserved_in_double_quotes() {
    // The piece holds a single quote, so the double-quoted form is used and
    // every reserved character gets a backslash.
    assert_eq!(escape_arg("'\""), "\"'\\\"\"");
    assert_eq!(escape_arg("'$`\\"), "\"'\\$\\`\\\\\"");
}

#[test]
fn escape_non_ascii_is_quoted() {
    assert_eq!(escape_arg("あ"), "'あ'");
    assert_eq!(escape_arg("Test-ĄЂइ₡⍓☉あ句︽％"), "'Test-ĄЂइ₡⍓☉あ句︽％'");
}

#[test]
fn command_line_joins_with_single_spaces() {
    let path = String::from("prog");
    let args = vec![String::from("a b"), String::new(), String::from("c")];
    assert_eq!(build_command_line(&path, &args), "prog 'a b' '' c");
}

#[test]
fn command_line_of_lone_path() {
    let path = String::from("/bin/true");
    let args: Vec<String> = vec![];
    assert_eq!(build_command_line(&path, &args), "/bin/true");
}

#[test]
fn read_simple_tokens() {
    let r = read_command_line("a 'b c' d").unwrap();
    assert_eq!(r, vec!["a", "b c", "d"]);
}

#[test]
fn read_double_quoted_escapes() {
    let r = read_command_line("\"d\\\"e\" ''").unwrap();
    assert_eq!(r, vec!["d\"e", ""]);
}

#[test]
fn read_collapses_repeated_separators() {
    assert_eq!(read_command_line("  a   b  ").unwrap(), vec!["a", "b"]);
    assert_eq!(read_command_line("").unwrap(), Vec::<String>::new());
    assert_eq!(read_command_line("   ").unwrap(), Vec::<String>::new());
}

#[test]
fn read_joins_adjacent_quoted_runs() {
    assert_eq!(read_command_line("a'b c'\"d\"").unwrap(), vec!["ab cd"]);
}

#[test]
fn read_rejects_unclosed_quote() {
    assert!(read_command_line("'abc").is_none());
    assert!(read_command_line("\"abc").is_none());
}

#[test]
fn read_rejects_bare_backslash() {
    assert!(read_command_line("a\\b").is_none());
}

#[test]
fn round_trip_spaces_quotes_and_empty() {
    let path = String::from("/opt/my app/tool");
    let args = vec![
        String::from("with space"),
        String::from("it's"),
        String::new(),
        String::from("a\"b$`"),
        String::from("back\\slash"),
        String::from("plain"),
    ];
    let line = build_command_line(&path, &args);
    let mut expected = vec![path.clone()];
    expected.extend(args.iter().cloned());
    assert_eq!(read_command_line(&line).unwrap(), expected);
}

#[test]
fn round_trip_non_ascii() {
    let path = String::from("echo");
    let args = vec![String::from("Test-ĄЂइ₡⍓☉あ句︽％"), String::from("'' \" ' ")];
    let line = build_command_line(&path, &args);
    let mut expected = vec![path.clone()];
    expected.extend(args.iter().cloned());
    assert_eq!(read_command_line(&line).unwrap(), expected);
}
