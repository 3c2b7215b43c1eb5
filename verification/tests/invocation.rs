//! The process-invocation layer: rendering, dry-run gating, outcome
//! interpretation, and the pipe protocol.

use zfs_sync::commands::{make_run_via_ssh_command, make_zfs_create_dataset_command,
    make_zfs_incremental_send_command, make_zfs_list_snapshots_command, make_zfs_recv_command};
use zfs_sync::args::Args;
use zfs_sync::errors::{DecodeError, SyncError};
use zfs_sync::render::sh_quote;
use zfs_sync::typed_command::{Capability, DryRunnable, IgnoreOutput, PipeAction, PipeEvent,
    PipeState, PipedCommand, ProcessOutput, RunPlan, StringOutput, TypedCommand};

fn args_fixture() -> Args {
    Args {
        remote: "backup-host".to_string(),
        source_dataset: "pool/fs".to_string(),
        remote_dataset: "tank/fs".to_string(),
        known_hosts_file: None,
        identity_file: None,
        verbose: false,
        dry_run: false,
    }
}

#[test]
fn rendering_quotes_every_argument() {
    // Arguments holding spaces, quotes and shell metacharacters stay one
    // argument each under a POSIX shell's word splitting.
    let mut c = TypedCommand::<IgnoreOutput>::new("echo", Capability::ReadOnly);
    c.arg("hello world");
    c.arg("it's");
    c.arg("$HOME;rm -rf /");
    assert_eq!(
        c.render(),
        "echo 'hello world' 'it'\\''s' '$HOME;rm -rf /'"
    );
}

#[test]
fn quoting_round_trips_concrete_words() {
    assert_eq!(sh_quote("plain"), "'plain'");
    assert_eq!(sh_quote(""), "''");
    assert_eq!(sh_quote("a'b"), "'a'\\''b'");
    assert_eq!(sh_quote("two words"), "'two words'");
}

#[test]
fn dry_run_never_spawns_and_reports_rendering() {
    let c = make_zfs_create_dataset_command(&"tank/fs".to_string());
    match c.run_or_dry_run_plan(true) {
        RunPlan::SkipDryRun { rendered } => {
            assert_eq!(rendered, "zfs 'create' '-u' '-o' 'readonly=on' 'tank/fs'");
        }
        _ => panic!("dry-run must not plan any spawn"),
    }
    // The same invocation with dry-run off spawns exactly one process.
    match c.run_or_dry_run_plan(false) {
        RunPlan::Spawn(spec) => {
            assert_eq!(spec.program, "zfs");
            assert_eq!(
                spec.args,
                vec!["create", "-u", "-o", "readonly=on", "tank/fs"]
            );
        }
        _ => panic!("without dry-run the one plan is the spawn"),
    }
}

#[test]
fn dry_run_gates_the_whole_pipe() {
    let args = args_fixture();
    let send = make_zfs_incremental_send_command(&"pool/fs@s1".to_string(), &"pool/fs@s2".to_string());
    let recv = make_run_via_ssh_command("backup-host", make_zfs_recv_command(&"tank/fs".to_string()), &args);
    let pipe = PipedCommand::new(send, recv);
    match pipe.run_or_dry_run_plan(true) {
        RunPlan::SkipDryRun { rendered } => {
            assert!(rendered.contains(" | "));
            assert!(rendered.starts_with("zfs 'send'"));
        }
        _ => panic!("dry-run must not plan any spawn"),
    }
    match pipe.run_or_dry_run_plan(false) {
        RunPlan::SpawnPipe { producer, consumer } => {
            assert_eq!(producer.program, "zfs");
            assert_eq!(
                producer.args,
                vec!["send", "--replicate", "--raw", "-I", "pool/fs@s1", "pool/fs@s2"]
            );
            assert_eq!(consumer.program, "ssh");
            assert_eq!(
                consumer.args,
                vec![
                    "backup-host",
                    "--",
                    "zfs",
                    "receive",
                    "-u",
                    "-s",
                    "-o",
                    "compress=off",
                    "-o",
                    "readonly=on",
                    "-v",
                    "tank/fs"
                ]
            );
        }
        _ => panic!("without dry-run the pipe spawns its two processes"),
    }
}

#[test]
fn full_send_collapses_to_one_snapshot_argument() {
    let c = make_zfs_incremental_send_command(&"pool/fs@s2".to_string(), &"pool/fs@s2".to_string());
    assert_eq!(
        c.get_args().clone(),
        vec!["send", "--replicate", "--raw", "pool/fs@s2"]
    );
}

#[test]
fn ssh_wrapping_preserves_and_injects_options() {
    let mut args = args_fixture();
    args.known_hosts_file = Some("/etc/kh".to_string());
    args.identity_file = Some("/etc/id".to_string());
    let inner = make_zfs_list_snapshots_command(Some(&"pool/fs".to_string()));
    assert!(matches!(inner.capability, Capability::ReadOnly));
    let wrapped = make_run_via_ssh_command("backup-host", inner, &args);
    assert!(matches!(wrapped.capability, Capability::ReadOnly));
    assert_eq!(wrapped.get_program(), "ssh");
    assert_eq!(
        wrapped.get_args().clone(),
        vec![
            "backup-host",
            "-o",
            "UserKnownHostsFile=/etc/kh",
            "-i",
            "/etc/id",
            "--",
            "zfs",
            "list",
            "-t",
            "snapshot",
            "--json",
            "--json-int",
            "-r",
            "pool/fs"
        ]
    );
}

#[test]
fn non_zero_exit_is_a_process_failure_with_context() {
    let c = TypedCommand::<StringOutput>::new("prog", Capability::ReadOnly);
    let out = ProcessOutput {
        success: false,
        code: Some(3),
        stdout: b"partial".to_vec(),
        stderr: b"boom".to_vec(),
    };
    match c.interpret_output(out) {
        Err(SyncError::ProcessFailure {
            rendered,
            exit_code,
            stdout,
            stderr,
        }) => {
            assert_eq!(rendered, "prog");
            assert_eq!(exit_code, Some(3));
            assert_eq!(stdout, b"partial".to_vec());
            assert_eq!(stderr, b"boom".to_vec());
        }
        _ => panic!("a non-zero exit is a process failure"),
    }
}

#[test]
fn success_decodes_by_shape_and_bad_text_is_a_decode_failure() {
    let c = TypedCommand::<StringOutput>::new("prog", Capability::ReadOnly);
    let ok = ProcessOutput {
        success: true,
        code: Some(0),
        stdout: b"text out".to_vec(),
        stderr: vec![],
    };
    let decoded = c.interpret_output(ok).expect("valid text decodes");
    assert_eq!(decoded.output, "text out");
    let bad = ProcessOutput {
        success: true,
        code: Some(0),
        stdout: vec![0xff, 0xfe],
        stderr: vec![],
    };
    match c.interpret_output(bad) {
        Err(SyncError::DecodeFailure { rendered, error }) => {
            assert_eq!(rendered, "prog");
            assert!(matches!(error, DecodeError::InvalidUtf8));
        }
        _ => panic!("invalid text is a decode failure, not a process failure"),
    }
}

fn pipe_fixture() -> PipedCommand<IgnoreOutput> {
    let args = args_fixture();
    let send = make_zfs_incremental_send_command(&"pool/fs@s1".to_string(), &"pool/fs@s2".to_string());
    let recv = make_run_via_ssh_command("backup-host", make_zfs_recv_command(&"tank/fs".to_string()), &args);
    PipedCommand::new(send, recv)
}

#[test]
fn pipe_surfaces_producer_spawn_failure() {
    // The producer never started: the run ends at once with a spawn failure,
    // without hanging on a consumer that will never get input.
    let pipe = pipe_fixture();
    let (state, action) = pipe.pipe_start();
    assert!(matches!(state, PipeState::WaitFirstSpawn));
    match action {
        PipeAction::SpawnFirst(spec) => assert_eq!(spec.program, "zfs"),
        _ => panic!("the first action is spawning the producer"),
    }
    let (state, action) = pipe.pipe_step(state, PipeEvent::FirstSpawnFailed);
    assert!(matches!(state, PipeState::Done));
    match action {
        PipeAction::Finish(Err(SyncError::SpawnFailure { rendered })) => {
            assert!(rendered.starts_with("zfs 'send'"));
        }
        _ => panic!("a producer that cannot start is a spawn failure"),
    }
}

#[test]
fn pipe_kills_producer_before_reporting_consumer_failure() {
    // The consumer exited non-zero: the protocol demands the producer's
    // termination before it hands out any result.
    let pipe = pipe_fixture();
    let (state, _action) = pipe.pipe_start();
    let (state, action) = pipe.pipe_step(state, PipeEvent::FirstSpawned);
    assert!(matches!(state, PipeState::WaitSecond));
    match action {
        PipeAction::SpawnSecond(spec) => assert_eq!(spec.program, "ssh"),
        _ => panic!("after the producer lives, the consumer spawns"),
    }
    let outcome = ProcessOutput {
        success: false,
        code: Some(1),
        stdout: vec![],
        stderr: b"cannot receive".to_vec(),
    };
    let (state, action) = pipe.pipe_step(state, PipeEvent::SecondFinished(outcome));
    // The kill is demanded before any result exists.
    assert!(matches!(state, PipeState::AwaitingKill { .. }));
    assert!(matches!(action, PipeAction::KillFirst));
    let (state, action) = pipe.pipe_step(state, PipeEvent::FirstKilled);
    assert!(matches!(state, PipeState::Done));
    match action {
        PipeAction::Finish(Err(SyncError::ProcessFailure {
            exit_code, stderr, ..
        })) => {
            assert_eq!(exit_code, Some(1));
            assert_eq!(stderr, b"cannot receive".to_vec());
        }
        _ => panic!("the consumer's failure is the run's result"),
    }
}

#[test]
fn pipe_kills_producer_after_consumer_success() {
    let pipe = pipe_fixture();
    let (state, _action) = pipe.pipe_start();
    let (state, _action) = pipe.pipe_step(state, PipeEvent::FirstSpawned);
    let outcome = ProcessOutput {
        success: true,
        code: Some(0),
        stdout: vec![],
        stderr: vec![],
    };
    let (state, action) = pipe.pipe_step(state, PipeEvent::SecondFinished(outcome));
    assert!(matches!(action, PipeAction::KillFirst));
    let (_state, action) = pipe.pipe_step(state, PipeEvent::FirstKilled);
    match action {
        PipeAction::Finish(r) => assert!(r.is_ok()),
        _ => panic!("after the kill the run finishes"),
    }
}

#[test]
fn pipe_consumer_spawn_failure_still_kills_producer() {
    let pipe = pipe_fixture();
    let (state, _action) = pipe.pipe_start();
    let (state, _action) = pipe.pipe_step(state, PipeEvent::FirstSpawned);
    let (state, action) = pipe.pipe_step(state, PipeEvent::SecondSpawnFailed);
    assert!(matches!(action, PipeAction::KillFirst));
    let (_state, action) = pipe.pipe_step(state, PipeEvent::FirstKilled);
    match action {
        PipeAction::Finish(Err(SyncError::SpawnFailure { rendered })) => {
            assert!(rendered.starts_with("ssh"));
        }
        _ => panic!("a consumer that cannot start is a spawn failure"),
    }
}
