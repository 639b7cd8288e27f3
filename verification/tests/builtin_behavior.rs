use shell_core::builtins::builtin_of;
use shell_core::builtins::builtin_in_pipe_message;
use shell_core::builtins::cd_error_message;
use shell_core::builtins::cd_home_unset_message;
use shell_core::builtins::cd_target;
use shell_core::builtins::command_not_found_message;
use shell_core::builtins::echo_output;
use shell_core::builtins::exit_status;
use shell_core::builtins::parse_i32;
use shell_core::builtins::pwd_output;
use shell_core::builtins::type_output;
use shell_core::builtins::BuiltinId;

fn argv(words: &[&str]) -> Vec<String> {
    words.iter().map(|w| w.to_string()).collect()
}

#[test]
fn builtin_names_resolve() {
    assert_eq!(builtin_of("echo"), Some(BuiltinId::Echo));
    assert_eq!(builtin_of("pwd"), Some(BuiltinId::Pwd));
    assert_eq!(builtin_of("cd"), Some(BuiltinId::Cd));
    assert_eq!(builtin_of("type"), Some(BuiltinId::Type));
    assert_eq!(builtin_of("exit"), Some(BuiltinId::Exit));
    assert_eq!(builtin_of("ls"), None);
    assert_eq!(builtin_of("Echo"), None);
    assert_eq!(builtin_of(""), None);
}

#[test]
fn echo_joins_with_single_spaces() {
    assert_eq!(echo_output(&argv(&["echo", "hello", "world"])), "hello world");
}

#[test]
fn echo_preserves_spaces_inside_one_word() {
    assert_eq!(echo_output(&argv(&["echo", "a   b"])), "a   b");
}

#[test]
fn echo_with_no_arguments_is_empty() {
    assert_eq!(echo_output(&argv(&["echo"])), "");
}

#[test]
fn echo_keeps_quote_processed_text() {
    assert_eq!(echo_output(&argv(&["echo", "a\"b"])), "a\"b");
}

#[test]
fn pwd_reports_the_directory() {
    let r = pwd_output(Some("/home/someone".to_string()));
    assert_eq!(r.out, "/home/someone");
    assert_eq!(r.err, "");
}

#[test]
fn pwd_failure_goes_to_stderr() {
    let r = pwd_output(None);
    assert_eq!(r.out, "");
    assert_eq!(r.err, "Failed to get current directory");
}

#[test]
fn pwd_is_idempotent() {
    let first = pwd_output(Some("/srv".to_string()));
    let second = pwd_output(Some("/srv".to_string()));
    assert_eq!(first.out, second.out);
    assert_eq!(first.err, second.err);
}

#[test]
fn type_of_a_builtin() {
    let r = type_output(&"echo".to_string(), None);
    assert_eq!(r.out, "echo is a shell builtin");
    assert_eq!(r.err, "");
}

#[test]
fn type_of_an_external() {
    let r = type_output(&"ls".to_string(), Some("/bin/ls".to_string()));
    assert_eq!(r.out, "ls is /bin/ls");
    assert_eq!(r.err, "");
}

#[test]
fn type_of_an_unknown_name() {
    let r = type_output(&"nosuchxyz".to_string(), None);
    assert_eq!(r.out, "");
    assert_eq!(r.err, "nosuchxyz not found");
}

#[test]
fn builtin_wins_over_a_resolved_path() {
    let r = type_output(&"pwd".to_string(), Some("/bin/pwd".to_string()));
    assert_eq!(r.out, "pwd is a shell builtin");
}

#[test]
fn exit_with_a_number() {
    assert_eq!(exit_status(Some(&"7".to_string())), 7);
    assert_eq!(exit_status(Some(&"-3".to_string())), -3);
    assert_eq!(exit_status(Some(&"0".to_string())), 0);
}

#[test]
fn exit_without_argument_is_zero() {
    assert_eq!(exit_status(None), 0);
}

#[test]
fn exit_with_a_bad_argument_is_one() {
    assert_eq!(exit_status(Some(&"x7".to_string())), 1);
    assert_eq!(exit_status(Some(&"".to_string())), 1);
    assert_eq!(exit_status(Some(&"7 ".to_string())), 1);
}

#[test]
fn integer_parsing_limits() {
    assert_eq!(parse_i32("2147483647"), Some(2147483647));
    assert_eq!(parse_i32("2147483648"), None);
    assert_eq!(parse_i32("-2147483648"), Some(-2147483648));
    assert_eq!(parse_i32("-2147483649"), None);
    assert_eq!(parse_i32("99999999999999999999"), None);
}

#[test]
fn integer_parsing_shapes() {
    assert_eq!(parse_i32("+42"), Some(42));
    assert_eq!(parse_i32("007"), Some(7));
    assert_eq!(parse_i32(""), None);
    assert_eq!(parse_i32("+"), None);
    assert_eq!(parse_i32("-"), None);
    assert_eq!(parse_i32("1.5"), None);
    assert_eq!(parse_i32(" 1"), None);
}

#[test]
fn cd_to_a_path() {
    assert_eq!(cd_target(&"/tmp".to_string(), None), Some("/tmp".to_string()));
}

#[test]
fn cd_tilde_uses_home() {
    assert_eq!(
        cd_target(&"~".to_string(), Some("/home/someone".to_string())),
        Some("/home/someone".to_string())
    );
}

#[test]
fn cd_tilde_without_home_fails() {
    assert_eq!(cd_target(&"~".to_string(), None), None);
    assert_eq!(cd_home_unset_message(), "cd: HOME not set");
}

#[test]
fn cd_failure_message() {
    assert_eq!(
        cd_error_message("/nonexistent"),
        "cd: /nonexistent: No such file or directory"
    );
}

#[test]
fn executor_diagnostics() {
    assert_eq!(command_not_found_message("frob"), "frob: command not found");
    assert_eq!(
        builtin_in_pipe_message("echo"),
        "Built-in command 'echo' in a pipe: Not supported."
    );
}
