use transparent::env::apply_env_overrides;

fn lookup(env: &[(String, String)], name: &str) -> Option<String> {
    for (k, v) in env {
        if k == name {
            return Some(v.clone());
        }
    }
    None
}

fn pair(k: &str, v: &str) -> (String, String) {
    (String::from(k), String::from(v))
}

fn set(k: &str, v: &str) -> (String, Option<String>) {
    (String::from(k), Some(String::from(v)))
}

fn unset(k: &str) -> (String, Option<String>) {
    (String::from(k), None)
}

#[test]
fn override_sets_and_removes() {
    let base = vec![pair("A", "0"), pair("B", "2"), pair("C", "3")];
    let overrides = vec![set("A", "1"), unset("B")];
    let r = apply_env_overrides(&base, &overrides);
    assert_eq!(lookup(&r, "A"), Some(String::from("1")));
    assert_eq!(lookup(&r, "B"), None);
    assert_eq!(lookup(&r, "C"), Some(String::from("3")));
}

#[test]
fn later_override_wins() {
    let base = vec![pair("A", "0")];
    let overrides = vec![set("A", "1"), set("A", "2")];
    let r = apply_env_overrides(&base, &overrides);
    assert_eq!(lookup(&r, "A"), Some(String::from("2")));
}

#[test]
fn remove_then_set_leaves_value() {
    let base = vec![pair("B", "2")];
    let overrides = vec![unset("B"), set("B", "9")];
    let r = apply_env_overrides(&base, &overrides);
    assert_eq!(lookup(&r, "B"), Some(String::from("9")));
}

#[test]
fn set_then_remove_leaves_nothing() {
    let base = vec![pair("B", "2")];
    let overrides = vec![set("B", "9"), unset("B")];
    let r = apply_env_overrides(&base, &overrides);
    assert_eq!(lookup(&r, "B"), None);
}

#[test]
fn no_overrides_keeps_base() {
    let base = vec![pair("A", "0"), pair("B", "2")];
    let overrides: Vec<(String, Option<String>)> = vec![];
    let r = apply_env_overrides(&base, &overrides);
    assert_eq!(r, base);
}

#[test]
fn set_into_empty_base() {
    let base: Vec<(String, String)> = vec![];
    let overrides = vec![set("A", "1")];
    let r = apply_env_overrides(&base, &overrides);
    assert_eq!(r, vec![pair("A", "1")]);
}

#[test]
fn remove_absent_is_harmless() {
    let base = vec![pair("A", "0")];
    let overrides = vec![unset("Z")];
    let r = apply_env_overrides(&base, &overrides);
    assert_eq!(lookup(&r, "A"), Some(String::from("0")));
    assert_eq!(lookup(&r, "Z"), None);
}
