use transparent::helper::fresh_context_name;
use transparent::helper::parse_helper_args;

fn argv(items: &[&str]) -> Vec<String> {
    items.iter().map(|s| String::from(*s)).collect()
}

#[test]
fn parse_path_and_args_after_separator() {
    let (path, args) = parse_helper_args(&argv(&["helper", "target", "--", "a", "b c"]));
    assert_eq!(path, "target");
    assert_eq!(args, vec![String::from("a"), String::from("b c")]);
}

#[test]
fn parse_without_separator_yields_no_args() {
    let (path, args) = parse_helper_args(&argv(&["helper", "target", "x", "y"]));
    assert_eq!(path, "target");
    assert!(args.is_empty());
}

#[test]
fn parse_ignores_tokens_before_separator() {
    let (path, args) = parse_helper_args(&argv(&["helper", "target", "reserved", "--", "z"]));
    assert_eq!(path, "target");
    assert_eq!(args, vec![String::from("z")]);
}

#[test]
fn parse_path_may_be_the_separator_token() {
    let (path, args) = parse_helper_args(&argv(&["helper", "--", "--", "q"]));
    assert_eq!(path, "--");
    assert_eq!(args, vec![String::from("q")]);
}

#[test]
fn parse_trailing_separator_yields_empty_args() {
    let (path, args) = parse_helper_args(&argv(&["helper", "t", "--"]));
    assert_eq!(path, "t");
    assert!(args.is_empty());
}

#[test]
fn parse_only_first_separator_counts() {
    let (path, args) = parse_helper_args(&argv(&["helper", "t", "--", "a", "--", "b"]));
    assert_eq!(path, "t");
    assert_eq!(args, vec![String::from("a"), String::from("--"), String::from("b")]);
}

#[test]
fn context_name_has_namespace_and_identifier() {
    let name = fresh_context_name();
    let prefix = "virtual-desktop-runner/";
    assert_eq!(name.len(), prefix.len() + 36);
    assert!(name.starts_with(prefix));
    let id = &name[prefix.len()..];
    for (i, c) in id.chars().enumerate() {
        if i == 8 || i == 13 || i == 18 || i == 23 {
            assert_eq!(c, '-');
        } else {
            assert!(c.is_ascii_hexdigit() && !c.is_ascii_uppercase());
        }
    }
}

#[test]
fn context_names_are_fresh_per_call() {
    let a = fresh_context_name();
    let b = fresh_context_name();
    assert_ne!(a, b);
}
