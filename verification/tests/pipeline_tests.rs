use vshell::pipeline::{plan_line, split_stages, wire, InputWiring, OutputWiring, ErrorWiring};
use vshell::{Redirect, StageError};

#[test]
fn pipeline_two_stages_wired() {
    let stages = plan_line("ls | wc -l").unwrap();
    assert_eq!(stages.len(), 2);
    assert_eq!(stages[0].cmd, "ls");
    assert!(stages[0].argv.is_empty());
    assert_eq!(stages[1].cmd, "wc");
    assert_eq!(stages[1].argv, vec!["-l".to_string()]);
    let io = wire(&stages);
    // one entry per stage: the launcher spawns, and reaps, one child each
    assert_eq!(io.len(), 2);
    assert_eq!(io[0].stdin, InputWiring::Inherit);
    assert!(matches!(io[0].stdout, OutputWiring::ToPipe));
    assert!(matches!(io[0].stderr, ErrorWiring::Inherit));
    assert_eq!(io[1].stdin, InputWiring::FromPipe);
    assert!(matches!(io[1].stdout, OutputWiring::Inherit));
}

#[test]
fn pipeline_one_entry_per_stage() {
    let stages = plan_line("a | b | c").unwrap();
    assert_eq!(stages.len(), 3);
    let io = wire(&stages);
    assert_eq!(io.len(), 3);
    assert_eq!(io[1].stdin, InputWiring::FromPipe);
    assert!(matches!(io[1].stdout, OutputWiring::ToPipe));
}

#[test]
fn pipeline_quoted_pipe_is_literal() {
    let stages = plan_line("echo 'a | b'").unwrap();
    assert_eq!(stages.len(), 1);
    assert_eq!(stages[0].argv, vec!["a | b".to_string()]);
}

#[test]
fn pipeline_split_keeps_raw_text() {
    let segs = split_stages("echo 'a | b' | wc");
    assert_eq!(segs, vec!["echo 'a | b'".to_string(), "wc".to_string()]);
}

#[test]
fn pipeline_blank_stage_fails() {
    assert_eq!(plan_line("a |  | b").unwrap_err(), StageError::Empty);
}

#[test]
fn pipeline_bad_redirect_fails_line() {
    assert_eq!(plan_line("a > | b").unwrap_err(), StageError::BadRedirect);
}

#[test]
fn pipeline_wire_stdout_redirect() {
    let stages = plan_line("echo hi > /tmp/x").unwrap();
    let io = wire(&stages);
    assert_eq!(io.len(), 1);
    assert!(matches!(&io[0].stdout, OutputWiring::ToFile(Redirect::Create(p)) if p == "/tmp/x"));
}

#[test]
fn pipeline_redirect_yields_to_pipe_when_not_last() {
    // a piped stage's stdout goes to the pipe; stderr still to its file
    let stages = plan_line("a 2> e | b").unwrap();
    let io = wire(&stages);
    assert!(matches!(io[0].stdout, OutputWiring::ToPipe));
    assert!(matches!(&io[0].stderr, ErrorWiring::ToFile(Redirect::Create(p)) if p == "e"));
    assert!(matches!(io[1].stderr, ErrorWiring::Inherit));
}

#[test]
fn pipeline_append_redirect_wired() {
    let stages = plan_line("echo hi >> /tmp/x").unwrap();
    let io = wire(&stages);
    assert!(matches!(&io[0].stdout, OutputWiring::ToFile(Redirect::Append(p)) if p == "/tmp/x"));
}
