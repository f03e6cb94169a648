use minishell::builtins::{resolve_builtin, BuiltinKind};
use minishell::commands::{
    cd_error_message, cd_failure_message, cd_target, exit_requested, exit_status_message, not_found_message,
    plan_command, type_report, CdError, CdFailure, Dispatch,
};
use minishell::search_path::{first_present, search_candidates, split_search_path};

fn strs(v: &[&str]) -> Vec<String> {
    v.iter().map(|s| s.to_string()).collect()
}

#[test]
fn builtins_resolve_exactly() {
    assert_eq!(resolve_builtin("echo"), Some(BuiltinKind::Echo));
    assert_eq!(resolve_builtin("cd"), Some(BuiltinKind::Cd));
    assert_eq!(resolve_builtin("pwd"), Some(BuiltinKind::Pwd));
    assert_eq!(resolve_builtin("type"), Some(BuiltinKind::Type));
    assert_eq!(resolve_builtin("exit"), Some(BuiltinKind::Exit));
    assert_eq!(resolve_builtin("ech"), None);
    assert_eq!(resolve_builtin("echoo"), None);
}

#[test]
fn plan_builtin_and_external() {
    assert_eq!(
        plan_command("echo 'a  b' c"),
        Some(Dispatch::Builtin(BuiltinKind::Echo, strs(&["a  b", "c"])))
    );
    assert_eq!(
        plan_command("ls -l /tmp"),
        Some(Dispatch::External("ls".to_string(), strs(&["-l", "/tmp"])))
    );
    assert_eq!(plan_command("'my prog'"), Some(Dispatch::External("my prog".to_string(), vec![])));
    assert_eq!(plan_command("   "), None);
}

#[test]
fn exit_accepts_only_zero() {
    assert!(exit_requested(&strs(&[])));
    assert!(exit_requested(&strs(&["0"])));
    assert!(!exit_requested(&strs(&["1"])));
    assert!(!exit_requested(&strs(&["0", "0"])));
}

#[test]
fn cd_home_expansion() {
    assert_eq!(cd_target(&strs(&["~"]), Some("/home/u")), Ok("/home/u".to_string()));
    assert_eq!(cd_target(&strs(&["~/docs"]), Some("/home/u")), Ok("/home/u/docs".to_string()));
    assert_eq!(cd_target(&strs(&["~"]), None), Err(CdError::HomeUnset));
    assert_eq!(cd_target(&strs(&["~x"]), Some("/home/u")), Ok("~x".to_string()));
}

#[test]
fn cd_plain_and_missing_argument() {
    assert_eq!(cd_target(&strs(&["/tmp", "extra"]), None), Ok("/tmp".to_string()));
    assert_eq!(cd_target(&strs(&["rel/dir"]), Some("/h")), Ok("rel/dir".to_string()));
    assert_eq!(cd_target(&strs(&[]), Some("/h")), Err(CdError::MissingArgument));
}

#[test]
fn cd_messages() {
    assert_eq!(
        cd_failure_message("/nonexistent", &CdFailure::NotFound),
        "cd: /nonexistent: No such file or directory"
    );
    assert_eq!(
        cd_failure_message("/root", &CdFailure::Other("Permission denied".to_string())),
        "cd: /root: Permission denied"
    );
    assert_eq!(cd_error_message(CdError::MissingArgument), "cd: missing argument");
    assert_eq!(cd_error_message(CdError::HomeUnset), "cd: HOME environment variable not set");
}

#[test]
fn type_reports() {
    assert_eq!(type_report("echo", Some("/bin/echo")), "echo is a shell builtin");
    assert_eq!(type_report("ls", Some("/bin/ls")), "ls is /bin/ls");
    assert_eq!(type_report("nope", None), "nope: not found");
}

#[test]
fn command_not_found_message() {
    assert_eq!(not_found_message("frob"), "frob: command not found");
}

#[test]
fn search_path_split_keeps_empty_fields() {
    assert_eq!(split_search_path("/a::/b"), strs(&["/a", "", "/b"]));
    assert_eq!(split_search_path(""), strs(&[""]));
}

#[test]
fn lookup_without_search_path_finds_nothing() {
    let cands = search_candidates(None, "ls");
    assert!(cands.is_empty());
    assert_eq!(first_present(&cands, &vec![]), None);
}

#[test]
fn lookup_first_match_wins() {
    let cands = search_candidates(Some("/usr/bin:/bin:/usr/bin"), "ls");
    assert_eq!(cands, strs(&["/usr/bin/ls", "/bin/ls", "/usr/bin/ls"]));
    assert_eq!(first_present(&cands, &vec![false, true, true]), Some("/bin/ls".to_string()));
    assert_eq!(first_present(&cands, &vec![true, true, false]), Some("/usr/bin/ls".to_string()));
    assert_eq!(first_present(&cands, &vec![false, false, false]), None);
    let dup = search_candidates(Some("/x:/x"), "tool");
    assert_eq!(first_present(&dup, &vec![true, true]), Some("/x/tool".to_string()));
}

#[test]
fn exit_status_messages() {
    assert_eq!(exit_status_message("ls", 2), "ls: command exited with status 2");
    assert_eq!(exit_status_message("ls", 0), "ls: command exited with status 0");
    assert_eq!(exit_status_message("x", 127), "x: command exited with status 127");
    assert_eq!(exit_status_message("x", -1), "x: command exited with status -1");
    assert_eq!(exit_status_message("x", 1234567890), "x: command exited with status 1234567890");
    assert_eq!(exit_status_message("x", i32::MIN), "x: command exited with status -2147483648");
}
