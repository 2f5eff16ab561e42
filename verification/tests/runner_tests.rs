use transparent::CommandSpec;
use transparent::TransparentRunner;

fn sample_command() -> CommandSpec {
    let mut cmd = CommandSpec::new(String::from("prog"));
    cmd.arg(String::from("x"));
    cmd.args(vec![String::from("y z"), String::new()]);
    cmd.env(String::from("A"), String::from("1"));
    cmd.env_remove(String::from("B"));
    cmd
}

#[test]
fn new_runner_has_no_cached_path() {
    let runner = TransparentRunner::new();
    assert!(runner.cached_helper_path().is_none());
}

#[test]
fn helper_path_is_cached_at_most_once() {
    let mut runner = TransparentRunner::new();
    runner.note_helper_path(String::from("/tmp/helper-one"));
    assert_eq!(runner.cached_helper_path().as_deref(), Some("/tmp/helper-one"));
    runner.note_helper_path(String::from("/tmp/helper-two"));
    assert_eq!(runner.cached_helper_path().as_deref(), Some("/tmp/helper-one"));
}

#[test]
fn delegate_plan_wraps_the_command() {
    let cmd = sample_command();
    let plan = TransparentRunner::plan_delegate_spawn(&cmd);
    assert_eq!(plan.get_program(), "xvfb-run");
    assert_eq!(plan.get_args(), &vec![
        String::from("prog"),
        String::from("x"),
        String::from("y z"),
        String::new(),
    ]);
    assert_eq!(plan.get_envs(), &vec![
        (String::from("A"), Some(String::from("1"))),
        (String::from("B"), None),
    ]);
    assert_eq!(plan.get_current_dir(), &None);
}

#[test]
fn delegate_plan_forwards_explicit_cwd() {
    let mut cmd = sample_command();
    cmd.current_dir(String::from("/srv/work"));
    let plan = TransparentRunner::plan_delegate_spawn(&cmd);
    assert_eq!(plan.get_current_dir(), &Some(String::from("/srv/work")));
}

#[test]
fn helper_plan_inserts_separator() {
    let cmd = sample_command();
    let mut runner = TransparentRunner::new();
    runner.note_helper_path(String::from("/tmp/helper.exe"));
    let plan = runner.plan_helper_spawn(&cmd);
    assert_eq!(plan.get_program(), "/tmp/helper.exe");
    assert_eq!(plan.get_args(), &vec![
        String::from("prog"),
        String::from("--"),
        String::from("x"),
        String::from("y z"),
        String::new(),
    ]);
    assert_eq!(plan.get_envs(), &vec![
        (String::from("A"), Some(String::from("1"))),
        (String::from("B"), None),
    ]);
    assert_eq!(plan.get_current_dir(), &None);
}

#[test]
fn command_builders_accumulate() {
    let mut cmd = CommandSpec::new(String::from("p"));
    assert_eq!(cmd.get_program(), "p");
    assert!(cmd.get_args().is_empty());
    assert!(cmd.get_envs().is_empty());
    assert_eq!(cmd.get_current_dir(), &None);
    cmd.arg(String::from("one"));
    cmd.arg(String::from("two"));
    assert_eq!(cmd.get_args(), &vec![String::from("one"), String::from("two")]);
    cmd.env(String::from("K"), String::from("V"));
    assert_eq!(cmd.get_envs(), &vec![(String::from("K"), Some(String::from("V")))]);
    cmd.current_dir(String::from("/d"));
    assert_eq!(cmd.get_current_dir(), &Some(String::from("/d")));
}
