use shell_core::pipeline::parse_pipeline;
use shell_core::pipeline::ParseError;
use shell_core::pipeline::Pipeline;
use shell_core::pipeline::Position;
use shell_core::pipeline::RedirMode;

fn parse(line: &str) -> Pipeline {
    parse_pipeline(line).unwrap().unwrap()
}

#[test]
fn blank_line_parses_to_nothing() {
    assert!(parse_pipeline("").unwrap().is_none());
    assert!(parse_pipeline("   \t ").unwrap().is_none());
}

#[test]
fn single_command() {
    let p = parse("echo hello world");
    assert_eq!(p.stages.len(), 1);
    assert_eq!(p.stages[0].argv, vec!["echo", "hello", "world"]);
    assert!(p.stages[0].stdout_redir.is_none());
    assert!(p.stages[0].stderr_redir.is_none());
    assert_eq!(p.stages[0].position, Position::Only);
}

#[test]
fn stdout_redirect_truncate() {
    let p = parse("echo hi > /tmp/t");
    assert_eq!(p.stages[0].argv, vec!["echo", "hi"]);
    let r = p.stages[0].stdout_redir.as_ref().unwrap();
    assert_eq!(r.fd, 1);
    assert_eq!(r.path, "/tmp/t");
    assert_eq!(r.mode, RedirMode::Truncate);
}

#[test]
fn stdout_redirect_append() {
    let p = parse("echo a >> /tmp/t");
    let r = p.stages[0].stdout_redir.as_ref().unwrap();
    assert_eq!(r.path, "/tmp/t");
    assert_eq!(r.mode, RedirMode::Append);
}

#[test]
fn explicit_fd_forms() {
    let p = parse("cmd 1> out.txt 2> err.txt");
    let out = p.stages[0].stdout_redir.as_ref().unwrap();
    let err = p.stages[0].stderr_redir.as_ref().unwrap();
    assert_eq!(out.fd, 1);
    assert_eq!(out.path, "out.txt");
    assert_eq!(out.mode, RedirMode::Truncate);
    assert_eq!(err.fd, 2);
    assert_eq!(err.path, "err.txt");
    assert_eq!(err.mode, RedirMode::Truncate);
    assert_eq!(p.stages[0].argv, vec!["cmd"]);
}

#[test]
fn append_fd_forms() {
    let p = parse("cmd 1>> out.txt 2>> err.txt");
    assert_eq!(p.stages[0].stdout_redir.as_ref().unwrap().mode, RedirMode::Append);
    assert_eq!(p.stages[0].stderr_redir.as_ref().unwrap().mode, RedirMode::Append);
}

#[test]
fn later_redirect_overwrites_earlier() {
    let p = parse("echo a > x > y");
    assert_eq!(p.stages[0].stdout_redir.as_ref().unwrap().path, "y");
    assert_eq!(p.stages[0].argv, vec!["echo", "a"]);
}

#[test]
fn missing_target_is_an_error() {
    assert_eq!(parse_pipeline("echo >").unwrap_err(), ParseError::MissingRedirectTarget);
    assert_eq!(parse_pipeline("a | b 2>>").unwrap_err(), ParseError::MissingRedirectTarget);
}

#[test]
fn empty_stage_is_an_error() {
    assert_eq!(parse_pipeline("a | | b").unwrap_err(), ParseError::EmptyStage);
    assert_eq!(parse_pipeline("| a").unwrap_err(), ParseError::EmptyStage);
    assert_eq!(parse_pipeline("a |").unwrap_err(), ParseError::EmptyStage);
    assert_eq!(parse_pipeline("> f").unwrap_err(), ParseError::EmptyStage);
}

#[test]
fn quoted_operator_is_an_ordinary_word() {
    let p = parse("echo '>'");
    assert_eq!(p.stages[0].argv, vec!["echo", ">"]);
    assert!(p.stages[0].stdout_redir.is_none());
}

#[test]
fn operator_glued_to_text_is_an_ordinary_word() {
    let p = parse("echo>x");
    assert_eq!(p.stages[0].argv, vec!["echo>x"]);
    assert!(p.stages[0].stdout_redir.is_none());
}

#[test]
fn quoted_pipe_does_not_split() {
    let p = parse("echo 'a|b'");
    assert_eq!(p.stages.len(), 1);
    assert_eq!(p.stages[0].argv, vec!["echo", "a|b"]);
}

#[test]
fn escaped_pipe_does_not_split() {
    let p = parse("echo a\\|b");
    assert_eq!(p.stages.len(), 1);
    assert_eq!(p.stages[0].argv, vec!["echo", "a|b"]);
}

#[test]
fn two_stage_pipeline() {
    let p = parse("ls | wc -l");
    assert_eq!(p.stages.len(), 2);
    assert_eq!(p.stages[0].argv, vec!["ls"]);
    assert_eq!(p.stages[1].argv, vec!["wc", "-l"]);
    assert_eq!(p.stages[0].position, Position::First);
    assert_eq!(p.stages[1].position, Position::Last);
}

#[test]
fn three_stage_positions() {
    let p = parse("a | b | c");
    assert_eq!(p.stages[0].position, Position::First);
    assert_eq!(p.stages[1].position, Position::Middle);
    assert_eq!(p.stages[2].position, Position::Last);
}

#[test]
fn redirect_target_may_be_quoted() {
    let p = parse("echo hi > 'my file'");
    assert_eq!(p.stages[0].stdout_redir.as_ref().unwrap().path, "my file");
}

#[test]
fn parsing_is_deterministic() {
    let a = format!("{:?}", parse("ls -l | grep x > out.txt").stages.len());
    let b = format!("{:?}", parse("ls -l | grep x > out.txt").stages.len());
    assert_eq!(a, b);
    let p1 = parse("ls -l | grep x > out.txt");
    let p2 = parse("ls -l | grep x > out.txt");
    assert_eq!(p1.stages.len(), p2.stages.len());
    for (s1, s2) in p1.stages.iter().zip(p2.stages.iter()) {
        assert_eq!(s1.argv, s2.argv);
        assert_eq!(s1.position, s2.position);
    }
}
