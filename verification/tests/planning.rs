use shell_core::builtins::BuiltinId;
use shell_core::pipeline::parse_pipeline;
use shell_core::pipeline::RedirMode;
use shell_core::plan::plan_pipeline;
use shell_core::plan::StageAction;
use shell_core::plan::StagePlan;
use shell_core::plan::StdinSource;
use shell_core::plan::StdoutSink;
use shell_core::plan::StderrSink;

fn plan_of(line: &str) -> Vec<StagePlan> {
    let p = parse_pipeline(line).unwrap().unwrap();
    plan_pipeline(&p)
}

#[test]
fn single_external_inherits_everything() {
    let plan = plan_of("ls -l");
    assert_eq!(plan.len(), 1);
    assert_eq!(plan[0].stdin, StdinSource::Inherited);
    assert!(matches!(plan[0].stdout, StdoutSink::Inherited));
    assert!(matches!(plan[0].stderr, StderrSink::Inherited));
    assert_eq!(plan[0].action, StageAction::Spawn);
}

#[test]
fn single_builtin_runs_in_the_shell() {
    let plan = plan_of("echo hi");
    assert_eq!(plan[0].action, StageAction::RunBuiltin(BuiltinId::Echo));
}

#[test]
fn two_stage_wiring() {
    let plan = plan_of("ls | wc -l");
    assert_eq!(plan.len(), 2);
    assert_eq!(plan[0].stdin, StdinSource::Inherited);
    assert!(matches!(plan[0].stdout, StdoutSink::PipeTo(0)));
    assert_eq!(plan[1].stdin, StdinSource::PipeFrom(0));
    assert!(matches!(plan[1].stdout, StdoutSink::Inherited));
    assert_eq!(plan[0].action, StageAction::Spawn);
    assert_eq!(plan[1].action, StageAction::Spawn);
}

#[test]
fn three_stage_wiring_chains_pipes() {
    let plan = plan_of("a | b | c");
    assert!(matches!(plan[0].stdout, StdoutSink::PipeTo(0)));
    assert_eq!(plan[1].stdin, StdinSource::PipeFrom(0));
    assert!(matches!(plan[1].stdout, StdoutSink::PipeTo(1)));
    assert_eq!(plan[2].stdin, StdinSource::PipeFrom(1));
    assert!(matches!(plan[2].stdout, StdoutSink::Inherited));
}

#[test]
fn builtin_before_a_pipe_is_refused() {
    let plan = plan_of("echo hi | cat");
    assert_eq!(plan[0].action, StageAction::RefuseBuiltinInPipe);
    assert_eq!(plan[1].action, StageAction::Spawn);
}

#[test]
fn builtin_at_the_end_of_a_pipe_runs() {
    let plan = plan_of("ls | type echo");
    assert_eq!(plan[1].action, StageAction::RunBuiltin(BuiltinId::Type));
}

#[test]
fn cd_and_exit_never_run_inside_a_pipeline() {
    let plan = plan_of("ls | cd /tmp");
    assert_eq!(plan[1].action, StageAction::RefuseBuiltinInPipe);
    let plan = plan_of("ls | exit 3");
    assert_eq!(plan[1].action, StageAction::RefuseBuiltinInPipe);
}

#[test]
fn pipe_shadows_a_redirect_on_a_non_final_stage() {
    let plan = plan_of("a > f | b");
    assert!(matches!(plan[0].stdout, StdoutSink::PipeTo(0)));
}

#[test]
fn final_stage_redirect_opens_a_file() {
    let plan = plan_of("a | b > f");
    match &plan[1].stdout {
        StdoutSink::File(r) => {
            assert_eq!(r.path, "f");
            assert_eq!(r.mode, RedirMode::Truncate);
            assert_eq!(r.fd, 1);
        },
        _ => panic!("expected a file sink"),
    }
}

#[test]
fn stderr_redirect_survives_inside_a_pipeline() {
    let plan = plan_of("a 2> e | b");
    match &plan[0].stderr {
        StderrSink::File(r) => {
            assert_eq!(r.path, "e");
            assert_eq!(r.fd, 2);
        },
        _ => panic!("expected a file sink"),
    }
}
