use attach::backends::Backend;
use attach::listing::table_lines;
use attach::tmux::{
    is_tmux_id, resolve_target, run_outcome, tmux_failure, tmux_list_outcome, tmux_targets, translate_key,
    PaneIsolation, SessionPlan, SetupAction, SetupState, TargetKind, TeardownState, TmuxBackend,
};

fn strings(v: &[&str]) -> Vec<String> {
    v.iter().map(|s| s.to_string()).collect()
}

#[test]
fn translates_key_names() {
    assert_eq!(translate_key("Return"), "Enter");
    assert_eq!(translate_key("KP_Enter"), "Enter");
    assert_eq!(translate_key("BackSpace"), "BSpace");
    assert_eq!(translate_key("Delete"), "DC");
    assert_eq!(translate_key("Prior"), "PPage");
    assert_eq!(translate_key("Page_Down"), "NPage");
    assert_eq!(translate_key("space"), "Space");
    assert_eq!(translate_key("ISO_Left_Tab"), "Tab");
    assert_eq!(translate_key("Insert"), "IC");
    assert_eq!(translate_key("Escape"), "Escape");
    assert_eq!(translate_key("x"), "x");
}

#[test]
fn translates_modifiers() {
    assert_eq!(translate_key("ctrl+c"), "C-c");
    assert_eq!(translate_key("alt+x"), "M-x");
    assert_eq!(translate_key("shift+Up"), "S-Up");
    assert_eq!(translate_key("super+x"), "S-x");
    assert_eq!(translate_key("ctrl+shift+Up"), "C-S-Up");
    assert_eq!(translate_key("Control+Meta+Return"), "C-M-Enter");
    assert_eq!(translate_key("alt+ctrl+a"), "M-C-a");
    assert_eq!(translate_key("ctrl+alt+shift+Page_Up"), "C-M-S-PPage");
}

#[test]
fn unknown_modifier_is_kept() {
    assert_eq!(translate_key("foo+x"), "foo+x");
    assert_eq!(translate_key("ctrl+foo+Return"), "ctrl+foo+Return");
    assert_eq!(translate_key("+"), "+");
}

#[test]
fn recognises_tmux_ids() {
    assert!(is_tmux_id("%3"));
    assert!(is_tmux_id("$0"));
    assert!(is_tmux_id("@12"));
    assert!(is_tmux_id("%"));
    assert!(!is_tmux_id("%3a"));
    assert!(!is_tmux_id("main"));
    assert!(!is_tmux_id(""));
}

#[test]
fn resolves_targets() {
    let t = resolve_target("main").unwrap();
    assert_eq!(t.target, "main");
    assert_eq!(t.kind, TargetKind::Session);
    let t = resolve_target("main/0").unwrap();
    assert_eq!(t.target, "main:0");
    assert_eq!(t.kind, TargetKind::Window);
    let t = resolve_target("main/0/1").unwrap();
    assert_eq!(t.target, "main:0.1");
    assert_eq!(t.kind, TargetKind::Pane);
    let t = resolve_target("a/b/c/d").unwrap();
    assert_eq!(t.target, "a:b.c/d");
    assert_eq!(t.kind, TargetKind::Pane);
    let t = resolve_target("%7").unwrap();
    assert_eq!(t.target, "%7");
    assert_eq!(t.kind, TargetKind::Pane);
    let t = resolve_target("@2").unwrap();
    assert_eq!(t.kind, TargetKind::Window);
    let t = resolve_target("$1").unwrap();
    assert_eq!(t.kind, TargetKind::Session);
}

#[test]
fn tmux_build_command() {
    let (prog, args) = TmuxBackend.build_command("main/0/1").unwrap();
    assert_eq!(prog, "tmux");
    assert_eq!(args, strings(&["attach-session", "-t", "main:0.1"]));
    assert_eq!(TmuxBackend.scheme(), "tmux");
}

#[test]
fn plans_isolation_for_panes_only() {
    match TmuxBackend.session_plan("main/0/1").unwrap() {
        SessionPlan::Isolate(t) => assert_eq!(t, "main:0.1"),
        SessionPlan::Direct(_) => panic!("a pane is isolated"),
    }
    match TmuxBackend.session_plan("main/0").unwrap() {
        SessionPlan::Direct(args) => assert_eq!(args, strings(&["attach-session", "-t", "main:0"])),
        SessionPlan::Isolate(_) => panic!("a window is attached directly"),
    }
}

#[test]
fn send_keys_arguments() {
    let keys = strings(&["echo hi", "Return", "ctrl+c"]);
    let args = TmuxBackend.send_keys_args("s/1/2", &keys).unwrap();
    assert_eq!(args, strings(&["send-keys", "-t", "s:1.2", "echo hi", "Enter", "C-c"]));
    let args = TmuxBackend.send_text_args("%4", "a;b").unwrap();
    assert_eq!(args, strings(&["send-keys", "-t", "%4", "-l", "a;b"]));
}

#[test]
fn parses_list_panes() {
    let out = "%1;;bash;;notanumber;;main/0/0\n\n%2;;vim;;;;dev/edit/1\nbroken line\n";
    let ts = tmux_targets(out);
    assert_eq!(ts.len(), 2);
    assert_eq!(ts[0].url, "tmux://main/0/0");
    assert_eq!(ts[0].id, "tmux://%1");
    assert_eq!(ts[0].aliases, strings(&["tmux://%1"]));
    assert_eq!(ts[0].command, "bash");
    assert_eq!(ts[0].created, "");
    assert_eq!(ts[1].url, "tmux://dev/edit/1");
    assert_eq!(ts[1].command, "vim");
    assert_eq!(ts[1].created, "");
}

#[test]
fn list_panes_humanizes_creation() {
    let ts = tmux_targets("%1;;bash;;1000000000;;main/0/0\r\n");
    assert_eq!(ts.len(), 1);
    assert!(!ts[0].created.is_empty());
    assert!(ts[0].created.contains("ago"), "{}", ts[0].created);
}

#[test]
fn list_without_server_is_empty() {
    let r = tmux_list_outcome(false, "", "no server running on /tmp/tmux-0/default\n");
    assert!(r.unwrap().is_empty());
    let r = tmux_list_outcome(false, "", "error connecting to /tmp/x (No such file)");
    assert!(r.unwrap().is_empty());
    match tmux_list_outcome(false, "", "  boom \n") {
        Err(e) => assert_eq!(e, "tmux list-panes failed: boom"),
        Ok(_) => panic!("expected an error"),
    }
}

#[test]
fn run_outcome_trims() {
    let args = strings(&["display-message", "-t", "a:\"b\""]);
    assert_eq!(run_outcome(&args, true, " %5\n", "").unwrap(), "%5");
    assert_eq!(
        run_outcome(&args, false, "", "can't find pane\n").unwrap_err(),
        format!("tmux {:?} failed: {}", ["display-message", "-t", "a:\"b\""], "can't find pane")
    );
    assert_eq!(tmux_failure("[]", " x "), "tmux [] failed: x");
}

#[test]
fn isolation_setup_steps() {
    let (state, args) = PaneIsolation::setup_start("main:0.1");
    assert_eq!(args, strings(&["display-message", "-t", "main:0.1", "-p", "#{pane_id}"]));
    let (state, action) = PaneIsolation::setup_step(state, Ok("%3".to_string()));
    match action {
        SetupAction::Run(a) => {
            assert_eq!(a[0], "new-session");
            assert_eq!(a[4], "#{session_id};;#{pane_id}");
            assert_eq!(a[9], "%3");
        }
        _ => panic!("expected a run"),
    }
    let (state, action) = PaneIsolation::setup_step(state.unwrap(), Ok("$9;;%10".to_string()));
    match action {
        SetupAction::Run(a) => assert_eq!(a, strings(&["swap-pane", "-s", "%3", "-t", "%10"])),
        _ => panic!("expected a run"),
    }
    let (state, action) = PaneIsolation::setup_step(state.unwrap(), Ok(String::new()));
    assert!(state.is_none());
    match action {
        SetupAction::Finished(iso) => {
            assert_eq!(iso.pane_id, "%3");
            assert_eq!(iso.temp_session_id, "$9");
            assert_eq!(iso.placeholder_pane_id, "%10");
            assert_eq!(iso.attach_args(), strings(&["attach-session", "-t", "$9"]));
        }
        _ => panic!("expected the isolation"),
    }
}

#[test]
fn isolation_setup_failures() {
    let (_, action) = PaneIsolation::setup_step(SetupState::QueryPane, Err("no pane".to_string()));
    match action {
        SetupAction::Abort(e) => assert_eq!(e, "no pane"),
        _ => panic!("expected abort"),
    }
    let (state, action) = PaneIsolation::setup_step(
        SetupState::CreateSession { pane_id: "%1".to_string() },
        Ok("garbage".to_string()),
    );
    assert!(state.is_none());
    match action {
        SetupAction::Abort(e) => assert_eq!(e, "failed to parse temp session output"),
        _ => panic!("expected abort"),
    }
}

#[test]
fn isolation_teardown_steps() {
    let iso = PaneIsolation {
        pane_id: "%3".to_string(),
        temp_session_id: "$9".to_string(),
        placeholder_pane_id: "%10".to_string(),
    };
    let (state, args) = iso.teardown_start();
    assert_eq!(state, TeardownState::CheckPlaceholder);
    assert_eq!(args, strings(&["display-message", "-t", "%10", "-p", "#{pane_id}"]));
    let (state, args) = iso.teardown_step(state, true).unwrap();
    assert_eq!(state, TeardownState::SwapBack);
    assert_eq!(args, strings(&["swap-pane", "-s", "%3", "-t", "%10"]));
    let (state, args) = iso.teardown_step(state, false).unwrap();
    assert_eq!(state, TeardownState::KillSession);
    assert_eq!(args, strings(&["kill-session", "-t", "$9"]));
    assert!(iso.teardown_step(state, true).is_none());
    let (state, args) = iso.teardown_step(TeardownState::CheckPlaceholder, false).unwrap();
    assert_eq!(state, TeardownState::KillSession);
    assert_eq!(args, strings(&["kill-session", "-t", "$9"]));
}

#[test]
fn list_arguments_match_the_parser() {
    let args = TmuxBackend.list_args();
    assert_eq!(args[0], "list-panes");
    assert_eq!(
        args[3],
        "#{pane_id};;#{pane_current_command};;#{session_created};;#{session_name}/#{window_name}/#{pane_index}"
    );
}

/// `list-panes` output as a tmux server started just now would print it.
fn recorded_panes(panes: &[(&str, &str)]) -> String {
    let now = std::time::SystemTime::now()
        .duration_since(std::time::UNIX_EPOCH)
        .unwrap()
        .as_secs();
    let mut out = String::new();
    for (id, place) in panes {
        out.push_str(&format!("{};;sleep;;{};;{}\n", id, now, place));
    }
    out
}

#[test]
fn ps_lists_tmux_panes() {
    let stdout = recorded_panes(&[("%0", "test-session/sleep/0")]);
    let ts = tmux_list_outcome(true, &stdout, "").unwrap();
    let output: String = ts.iter().map(|t| format!("{}\n", t.url)).collect();
    assert!(
        output.contains("tmux://test-session/"),
        "expected tmux://test-session/ in output, got:\n{}",
        output,
    );
}

#[test]
fn ps_table_shows_tmux_panes() {
    let stdout = recorded_panes(&[("%3", "mysession/sleep/0")]);
    let ts = tmux_list_outcome(true, &stdout, "").unwrap();
    let output: String = table_lines(&ts).iter().map(|l| format!("{}\n", l)).collect();

    assert!(output.contains("ID"), "missing ID header in:\n{}", output);
    assert!(output.contains("COMMAND"), "missing COMMAND header in:\n{}", output);
    assert!(output.contains("CREATED"), "missing CREATED header in:\n{}", output);
    assert!(output.contains("NAME"), "missing NAME header in:\n{}", output);
    assert!(
        output.contains("tmux://mysession/"),
        "expected tmux://mysession/ in output, got:\n{}",
        output,
    );
    assert!(output.contains("tmux://%"), "expected tmux://%N id in output, got:\n{}", output);

    let data_line = output.lines().find(|l| l.contains("tmux://mysession/")).unwrap();
    let created_col = &data_line[62..82];
    assert!(created_col.trim() != "", "expected non-empty CREATED value, got line:\n{}", data_line);
    assert!(!ts[0].created.is_empty());
}

#[test]
fn ps_multiple_panes() {
    let stdout = recorded_panes(&[("%0", "multi/sleep/0"), ("%1", "multi/sleep/1")]);
    let ts = tmux_list_outcome(true, &stdout, "").unwrap();
    let output: String = ts.iter().map(|t| format!("{}\n", t.url)).collect();
    let tmux_lines: Vec<&str> = output.lines().filter(|l| l.starts_with("tmux://")).collect();
    assert!(
        tmux_lines.len() >= 2,
        "expected at least 2 tmux panes, got {}:\n{}",
        tmux_lines.len(),
        output,
    );
}
