use attach::backends::Backend;
use attach::created::{docker_created, docker_timestamp, tmux_created};
use attach::docker::{
    attach_pty_args, detach_byte, docker_ps_outcome, docker_targets, inspect_tty_args, pipe_exec_args, echo_wait_step, exec_failure,
    inspect_reports_tty, pipe_payload, resolve_container, write_method, DockerBackend, EchoEvent,
    WriteMethod,
};

fn strings(v: &[&str]) -> Vec<String> {
    v.iter().map(|s| s.to_string()).collect()
}

#[test]
fn resolves_containers() {
    assert_eq!(resolve_container("web").unwrap(), "web");
    assert_eq!(resolve_container("myapp/web").unwrap(), "myapp-web");
    assert_eq!(resolve_container("a/b/c").unwrap(), "a-b/c");
}

#[test]
fn docker_build_command() {
    let (prog, args) = DockerBackend.build_command("myapp/web").unwrap();
    assert_eq!(prog, "docker");
    assert_eq!(args, strings(&["attach", "myapp-web"]));
    assert_eq!(DockerBackend.scheme(), "docker");
}

#[test]
fn keys_become_bytes() {
    let keys = strings(&["echo hi", "Return", "ctrl+c"]);
    let (c, bytes) = DockerBackend.keys_payload("proj/svc", &keys).unwrap();
    assert_eq!(c, "proj-svc");
    assert_eq!(bytes, b"echo hi\r\x03".to_vec());
    let (c, bytes) = DockerBackend.text_payload("box", "héllo").unwrap();
    assert_eq!(c, "box");
    assert_eq!(bytes, "héllo".as_bytes().to_vec());
}

#[test]
fn keys_in_one_call_or_two() {
    let a = strings(&["ls", "Return"]);
    let b = strings(&["ctrl+d"]);
    let ab = strings(&["ls", "Return", "ctrl+d"]);
    let (_, x) = DockerBackend.keys_payload("c", &a).unwrap();
    let (_, y) = DockerBackend.keys_payload("c", &b).unwrap();
    let (_, z) = DockerBackend.keys_payload("c", &ab).unwrap();
    assert_eq!([x, y].concat(), z);
}

#[test]
fn pipe_turns_carriage_returns_into_newlines() {
    assert_eq!(pipe_payload(b"a\rb\r\n"), b"a\nb\n\n".to_vec());
    assert_eq!(pipe_payload(b""), Vec::<u8>::new());
}

#[test]
fn reads_tty_flag() {
    assert!(inspect_reports_tty("true\n"));
    assert!(inspect_reports_tty("  true "));
    assert!(!inspect_reports_tty("false\n"));
    assert!(!inspect_reports_tty(""));
    assert_eq!(write_method(true), WriteMethod::Pty);
    assert_eq!(write_method(false), WriteMethod::Pipe);
}

#[test]
fn docker_command_arguments() {
    assert_eq!(inspect_tty_args("c1"), strings(&["inspect", "-f", "{{.Config.Tty}}", "c1"]));
    assert_eq!(attach_pty_args("c1"), strings(&["attach", "--detach-keys=ctrl-]", "c1"]));
    assert_eq!(pipe_exec_args("c1"), strings(&["exec", "-i", "c1", "sh", "-c", "cat > /proc/1/fd/0"]));
    assert_eq!(detach_byte(), 0x1d);
}

#[test]
fn docker_timestamps() {
    assert_eq!(docker_timestamp("2020-01-01 12:00:00 +0000 UTC"), Some(1577880000));
    assert_eq!(docker_timestamp("2020-01-01 12:00:00 +0100"), Some(1577876400));
    assert_eq!(docker_timestamp("yesterday"), None);
}

#[test]
fn exec_failure_message() {
    assert_eq!(exec_failure("  no such container\n"), "docker exec failed: no such container");
}

#[test]
fn echo_wait() {
    assert_eq!(echo_wait_step(0, 5, EchoEvent::Received(3)), (3, false));
    assert_eq!(echo_wait_step(3, 5, EchoEvent::Received(2)), (5, true));
    assert_eq!(echo_wait_step(0, 5, EchoEvent::Quiet), (0, false));
    assert_eq!(echo_wait_step(1, 5, EchoEvent::Quiet), (1, true));
    assert_eq!(echo_wait_step(0, 5, EchoEvent::Closed), (0, true));
    assert_eq!(echo_wait_step(usize::MAX, 5, EchoEvent::Received(1)), (usize::MAX, true));
}

#[test]
fn parses_docker_ps() {
    let out = [
        "abc123;;web_1,alias;;com.docker.compose.project=myapp,com.docker.compose.service=web;;\"nginx\";;not a date\n",
        "def456;;solo;;;;\"sh\";;also not\n",
        "short;;line\n",
        "ghi789;;proj-db;;com.docker.compose.project=proj;;\"pg\";;x\n",
    ]
    .join("");
    let out = out.as_str();
    let ts = docker_targets(out);
    assert_eq!(ts.len(), 3);
    assert_eq!(ts[0].url, "docker://myapp/web");
    assert_eq!(ts[0].id, "docker://abc123");
    assert_eq!(ts[0].aliases, strings(&["docker://abc123", "docker://web_1"]));
    assert_eq!(ts[0].command, "\"nginx\"");
    assert_eq!(ts[0].created, "not a date");
    assert_eq!(ts[1].url, "docker://solo");
    assert_eq!(ts[1].aliases, strings(&["docker://def456"]));
    assert_eq!(ts[2].url, "docker://proj-db");
    assert_eq!(ts[2].aliases, strings(&["docker://ghi789"]));
}

#[test]
fn last_label_wins() {
    let out = "i;;n;;com.docker.compose.project=a,com.docker.compose.service=s,com.docker.compose.project=b;;c;;t\n";
    let ts = docker_targets(out);
    assert_eq!(ts[0].url, "docker://b/s");
}

#[test]
fn humanizes_docker_times() {
    let label = docker_created("2020-01-01 12:00:00 +0000 UTC");
    assert!(label.contains("ago"), "{}", label);
    let label = docker_created("2020-01-01 12:00:00 +0000");
    assert!(label.contains("ago"), "{}", label);
    assert_eq!(docker_created("yesterday"), "yesterday");
    assert_eq!(tmux_created("abc"), "");
    assert_eq!(tmux_created("99999999999999999999"), "");
    assert_eq!(tmux_created("9223372036854775807"), "");
    assert!(tmux_created("+1000000000").contains("ago"));
}

#[test]
fn docker_ps_failure() {
    match docker_ps_outcome(false, "", "Cannot connect to the Docker daemon\n") {
        Err(e) => assert_eq!(e, "docker ps failed: Cannot connect to the Docker daemon"),
        Ok(_) => panic!("expected an error"),
    }
    assert!(docker_ps_outcome(true, "", "").unwrap().is_empty());
}
