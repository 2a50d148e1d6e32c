use rman::config::{Cmd, RmanStdio};
use rman::log::{Level, Logger};
use rman::supervisor::{
    launch_message, shutdown_message, snapshot_path, ControlLoop, LoopAction, LoopEvent,
    PidRegistry,
};

#[test]
fn snapshot_lists_recorded_pids() {
    let mut reg = PidRegistry::new();
    assert_eq!(reg.snapshot(), "[]\n");
    reg.record(12);
    assert_eq!(reg.snapshot(), "[12]\n");
    reg.record(345);
    reg.record(0);
    reg.record(u32::MAX);
    assert_eq!(reg.snapshot(), "[12, 345, 0, 4294967295]\n");
    assert_eq!(reg.len(), 4);
    assert_eq!(reg.pids(), vec![12, 345, 0, u32::MAX]);
}

#[test]
fn snapshot_file_location() {
    assert_eq!(snapshot_path("/home/user"), "/home/user/.rman.pids");
}

#[test]
fn launch_line_names_command() {
    let c = Cmd {
        name: "web_2".to_string(),
        cmd: "echo".to_string(),
        args: vec!["Hello".to_string(), "World".to_string()],
        stdin: RmanStdio::Inherit,
        stdout: RmanStdio::Inherit,
    };
    assert_eq!(launch_message(&c), "running [web_2]: echo Hello World");
    let l = Cmd {
        name: "a".to_string(),
        cmd: "ls".to_string(),
        args: Vec::new(),
        stdin: RmanStdio::Null,
        stdout: RmanStdio::Null,
    };
    assert_eq!(launch_message(&l), "running [a]: ls ");
}

#[test]
fn shutdown_line_counts_processes() {
    assert_eq!(shutdown_message(3), "attempting graceful shutdown of 3 processes");
    assert_eq!(shutdown_message(0), "attempting graceful shutdown of 0 processes");
}

#[test]
fn loop_exits_after_last_completion() {
    let mut l = ControlLoop::new(2);
    assert!(!l.stopped);
    assert_eq!(l.step(LoopEvent::TaskFinished), LoopAction::Wait);
    assert_eq!(l.outstanding, 1);
    assert_eq!(l.step(LoopEvent::TaskFinished), LoopAction::Exit);
    assert!(l.stopped);
    assert_eq!(l.step(LoopEvent::Interrupted), LoopAction::Exit);
}

#[test]
fn interrupt_shuts_down_outstanding_tasks() {
    let mut l = ControlLoop::new(3);
    assert_eq!(l.step(LoopEvent::TaskFinished), LoopAction::Wait);
    assert_eq!(l.step(LoopEvent::Interrupted), LoopAction::Shutdown(2));
    assert!(l.stopped);
    assert_eq!(l.step(LoopEvent::TaskFinished), LoopAction::Exit);
    assert_eq!(l.step(LoopEvent::Interrupted), LoopAction::Exit);
}

#[test]
fn empty_run_is_stopped_from_start() {
    let l = ControlLoop::new(0);
    assert!(l.stopped);
}

#[test]
fn log_lines() {
    assert_eq!(Logger::fmt(Level::Info, "hello"), "INFO: hello");
    assert_eq!(Logger::fmt(Level::Warn, "w"), "WARN: w");
    assert_eq!(Logger::fmt(Level::Error, "e"), "ERROR: e");
    assert_eq!(Logger::fmt(Level::Child("web_1".to_string()), "out"), "web_1: out");
    assert_eq!(Logger::new(None).line("x"), "INFO: x");
    assert_eq!(Logger::new(Some(Level::Warn)).line("y"), "WARN: y");
}
