use dodeca::acceptor::{
    after_send_attempt, next_backoff_ms, parse_args, AcceptorArgsError, AcceptorCommand,
    SendAction, SendEvent,
};
use dodeca::build_steps::{
    cache_key, command_result, file_contents_hash, file_hash_targets, hash_failure_message,
    step_action, BuildStepDef, BuildStepExecutor, BuildStepResult, StepAction,
};
use dodeca::cache_bust::content_hash;
use dodeca::config::ResolvedSource;

fn args(v: &[&str]) -> Vec<String> {
    v.iter().map(|s| s.to_string()).collect()
}

#[test]
fn acceptor_reads_required_options_and_default_queue_size() {
    match parse_args(&args(&["--fd-socket", "/tmp/fd", "--acceptor-socket", "/tmp/acc"])) {
        Ok(AcceptorCommand::Run(a)) => {
            assert_eq!(a.fd_socket, "/tmp/fd");
            assert_eq!(a.acceptor_socket, "/tmp/acc");
            assert_eq!(a.queue_size, 128);
        }
        _ => panic!("expected settings"),
    }
}

#[test]
fn acceptor_queue_size_parses_or_falls_back() {
    let base = ["--fd-socket", "a", "--acceptor-socket", "b", "--queue-size"];
    let mut with_number = base.to_vec();
    with_number.push("7");
    match parse_args(&args(&with_number)) {
        Ok(AcceptorCommand::Run(a)) => assert_eq!(a.queue_size, 7),
        _ => panic!("expected settings"),
    }
    let mut with_text = base.to_vec();
    with_text.push("lots");
    match parse_args(&args(&with_text)) {
        Ok(AcceptorCommand::Run(a)) => assert_eq!(a.queue_size, 128),
        _ => panic!("expected settings"),
    }
}

#[test]
fn acceptor_missing_options_are_errors() {
    match parse_args(&args(&["--acceptor-socket", "b"])) {
        Err(e) => {
            assert_eq!(e, AcceptorArgsError::MissingFdSocket);
            assert_eq!(e.to_display_string(), "--fd-socket is required");
        }
        _ => panic!("expected an error"),
    }
    match parse_args(&args(&["--fd-socket", "a", "--acceptor-socket"])) {
        Err(e) => {
            assert_eq!(e, AcceptorArgsError::MissingAcceptorSocket);
            assert_eq!(e.to_display_string(), "--acceptor-socket is required");
        }
        _ => panic!("expected an error"),
    }
}

#[test]
fn acceptor_help_wins_and_unknown_options_are_skipped() {
    assert!(matches!(parse_args(&args(&["--verbose", "-h"])), Ok(AcceptorCommand::Help)));
    assert!(matches!(parse_args(&args(&["--help"])), Ok(AcceptorCommand::Help)));
    match parse_args(&args(&["x", "--fd-socket", "a", "--fd-socket", "c", "--acceptor-socket", "b"])) {
        Ok(AcceptorCommand::Run(a)) => assert_eq!(a.fd_socket, "c"),
        _ => panic!("expected settings"),
    }
}

#[test]
fn acceptor_backoff_doubles_up_to_a_second() {
    assert_eq!(next_backoff_ms(25), 50);
    assert_eq!(next_backoff_ms(400), 800);
    assert_eq!(next_backoff_ms(800), 1000);
    assert_eq!(next_backoff_ms(1000), 1000);
    assert_eq!(next_backoff_ms(u64::MAX), 1000);
}

#[test]
fn acceptor_send_outcomes() {
    assert_eq!(after_send_attempt(3, SendEvent::Acked), (SendAction::Continue, 2));
    assert_eq!(after_send_attempt(0, SendEvent::AckTimedOut), (SendAction::Continue, 0));
    assert_eq!(after_send_attempt(3, SendEvent::SendFailed), (SendAction::ReconnectAndRetry, 3));
    assert_eq!(after_send_attempt(3, SendEvent::AckReadFailed), (SendAction::ReconnectAndDrop, 3));
}

fn source(mount: &str, dir: &str, steps: Vec<(String, BuildStepDef)>) -> ResolvedSource {
    ResolvedSource {
        name: String::new(),
        mount: mount.to_string(),
        content_dir: format!("{}/content", dir),
        checkout_dir: None,
        git: None,
        repo: None,
        impls: Vec::new(),
        skip_domains: Vec::new(),
        project_dir: dir.to_string(),
        page_types: Vec::new(),
        build_steps: steps,
    }
}

fn step(command: Option<&[&str]>, params: Option<&[&str]>, files: &[&str]) -> BuildStepDef {
    BuildStepDef {
        command: command.map(|c| args(c)),
        params: params.map(|p| args(p)),
        file_params: args(files),
    }
}

fn pairs(v: &[(&str, &str)]) -> Vec<(String, String)> {
    v.iter().map(|(k, v)| (k.to_string(), v.to_string())).collect()
}

#[test]
fn build_step_resolution_errors() {
    let exec = BuildStepExecutor::new(&[source(
        "/",
        "/proj",
        vec![("thumb".to_string(), step(Some(&["convert", "{file}"]), Some(&["file", "width"]), &["file"]))],
    )]);
    let params = pairs(&[("file", "a.png")]);
    assert_eq!(
        exec.resolve_step("/wiki/", "thumb", &params),
        Err("No source mounted at '/wiki/'".to_string())
    );
    assert_eq!(
        exec.resolve_step("/", "resize", &params),
        Err("Unknown build step: resize".to_string())
    );
    assert_eq!(
        exec.resolve_step("/", "thumb", &params),
        Err("Missing parameter 'width' for build step 'thumb'".to_string())
    );
    let full = pairs(&[("width", "10"), ("file", "a.png")]);
    assert_eq!(exec.resolve_step("/", "thumb", &full), Ok((0, 0)));
}

#[test]
fn build_step_later_source_with_same_mount_wins() {
    let exec = BuildStepExecutor::new(&[
        source("/", "/a", vec![("s".to_string(), step(None, None, &[]))]),
        source("/", "/b", vec![]),
    ]);
    assert_eq!(
        exec.resolve_step("/", "s", &Vec::new()),
        Err("Unknown build step: s".to_string())
    );
}

#[test]
fn build_step_actions() {
    let params = pairs(&[("file", "img.png"), ("width", "100")]);
    match step_action("/proj", "thumb", &step(Some(&["convert", "{file}", "-resize", "{width}x"]), None, &[]), &params) {
        StepAction::Run { program, args } => {
            assert_eq!(program, "convert");
            assert_eq!(args, vec!["img.png", "-resize", "100x"]);
        }
        _ => panic!("expected a command"),
    }
    match step_action("/proj", "empty", &step(Some(&[]), None, &[]), &params) {
        StepAction::Fail(m) => assert_eq!(m, "Build step 'empty' has empty command"),
        _ => panic!("expected a failure"),
    }
    match step_action("/proj", "none", &step(None, None, &[]), &params) {
        StepAction::Fail(m) => assert_eq!(m, "Build step 'none' has no command and no @file parameter"),
        _ => panic!("expected a failure"),
    }
    match step_action("/proj", "read", &step(None, None, &["src"]), &params) {
        StepAction::Fail(m) => assert_eq!(m, "Missing parameter 'src' for build step 'read'"),
        _ => panic!("expected a failure"),
    }
    match step_action("/proj", "read", &step(None, None, &["file"]), &params) {
        StepAction::ReadFile { path } => assert_eq!(path, "/proj/img.png"),
        _ => panic!("expected a file read"),
    }
}

#[test]
fn build_step_file_targets_and_cache_key() {
    let params = pairs(&[("b", "2"), ("a", "1"), ("file", "x.txt")]);
    let targets = file_hash_targets(&step(None, None, &["file", "other"]), &params);
    assert_eq!(targets, pairs(&[("file", "x.txt")]));
    let key = cache_key(
        "/",
        "s",
        params,
        vec![("z".to_string(), 1u64), ("m".to_string(), 2u64)],
    );
    assert_eq!(key.mount, "/");
    assert_eq!(key.step_name, "s");
    assert_eq!(key.params, pairs(&[("a", "1"), ("b", "2"), ("file", "x.txt")]));
    assert_eq!(key.file_hashes, vec![("m".to_string(), 2u64), ("z".to_string(), 1u64)]);
}

#[test]
fn build_step_messages_and_results() {
    assert_eq!(
        hash_failure_message("x.txt", "file", "not found"),
        "Failed to hash file 'x.txt' for parameter 'file': not found"
    );
    match command_result(false, Some(2), Vec::new(), b"boom") {
        BuildStepResult::Error(m) => assert_eq!(m, "Command failed with exit code Some(2): boom"),
        _ => panic!("expected an error"),
    }
    match command_result(false, None, Vec::new(), b"") {
        BuildStepResult::Error(m) => assert_eq!(m, "Command failed with exit code None: "),
        _ => panic!("expected an error"),
    }
    match command_result(false, Some(-3), Vec::new(), b"x") {
        BuildStepResult::Error(m) => assert_eq!(m, "Command failed with exit code Some(-3): x"),
        _ => panic!("expected an error"),
    }
    match command_result(true, Some(0), b"out".to_vec(), b"") {
        BuildStepResult::Success(o) => assert_eq!(o, b"out".to_vec()),
        _ => panic!("expected success"),
    }
}

#[test]
fn build_step_file_hash_matches_cache_bust_hash() {
    let a = file_contents_hash(b"hello");
    let b = file_contents_hash(b"hello");
    let c = file_contents_hash(b"hellp");
    assert_eq!(a, b);
    assert_ne!(a, c);
    assert_eq!(content_hash(b"hello").len(), 12);
}

#[test]
fn cache_keys_do_not_depend_on_the_order_of_parameters() {
    let p = |k: &str, v: &str| (k.to_string(), v.to_string());
    let a = dodeca::build_steps::cache_key(
        "docs",
        "render",
        vec![p("b", "2"), p("a", "1"), p("c", "3")],
        vec![("y.txt".to_string(), 7), ("x.txt".to_string(), 9)],
    );
    let b = dodeca::build_steps::cache_key(
        "docs",
        "render",
        vec![p("c", "3"), p("a", "1"), p("b", "2")],
        vec![("x.txt".to_string(), 9), ("y.txt".to_string(), 7)],
    );
    assert_eq!(a, b);
    assert_eq!(a.params[0], p("a", "1"));
}
