use attach::backends::{
    all_backends, backend_for_scheme, backend_for_target, is_target_url, parse_target_url,
    AnyBackend, Backend,
};
use attach::listing::{
    default_command, menu_items, merge_target_lists, table_lines, typed_text, DefaultCommand,
    ListError,
};
use attach::screen::{frame_from_rows, parse_size, screen_output, screen_renderable};
use attach::target::Target;

fn target(url: &str, id: &str, command: &str, created: &str) -> Target {
    Target {
        url: url.to_string(),
        aliases: vec![id.to_string()],
        id: id.to_string(),
        command: command.to_string(),
        created: created.to_string(),
    }
}

#[test]
fn target_urls() {
    assert!(is_target_url("docker://web"));
    assert!(is_target_url("tmux://main/0/1"));
    assert!(!is_target_url("docker:/web"));
    assert!(!is_target_url("bogus://foo"));
    assert!(!is_target_url("ls"));
    assert!(!is_target_url(""));
}

#[test]
fn parses_target_urls() {
    assert_eq!(parse_target_url("docker://a/b").unwrap(), ("docker", "a/b"));
    assert_eq!(parse_target_url("x://y://z").unwrap(), ("x", "y://z"));
    assert_eq!(parse_target_url("nourl").unwrap_err(), "invalid target URL: nourl");
}

#[test]
fn finds_backends() {
    match backend_for_target("tmux://main/0") {
        Ok((AnyBackend::Tmux(_), path)) => assert_eq!(path, "main/0"),
        _ => panic!("expected the tmux backend"),
    }
    match backend_for_target("docker://web") {
        Ok((AnyBackend::Docker(_), path)) => assert_eq!(path, "web"),
        _ => panic!("expected the docker backend"),
    }
    match backend_for_target("bogus://foo") {
        Err(e) => assert_eq!(e, "unknown target scheme: bogus"),
        Ok(_) => panic!("expected an error"),
    }
    match backend_for_target("foo") {
        Err(e) => assert_eq!(e, "invalid target URL: foo"),
        Ok(_) => panic!("expected an error"),
    }
    assert!(backend_for_scheme("ssh").is_none());
    let schemes: Vec<&str> = all_backends().iter().map(|b| b.scheme()).collect();
    assert_eq!(schemes, vec!["docker", "tmux"]);
    for b in all_backends() {
        assert!(backend_for_scheme(b.scheme()).is_some());
    }
}

#[test]
fn any_backend_commands() {
    let (b, path) = backend_for_target("tmux://s/w/p").unwrap();
    let (prog, args) = b.build_command(path).unwrap();
    assert_eq!(prog, "tmux");
    assert_eq!(args, vec!["attach-session", "-t", "s:w.p"]);
}

#[test]
fn sizes() {
    assert_eq!(parse_size(Some("80x24"), None).unwrap(), (80, 24));
    assert_eq!(parse_size(Some("+120x40"), None).unwrap(), (120, 40));
    assert_eq!(parse_size(None, Some((100, 30))).unwrap(), (100, 30));
    assert_eq!(parse_size(None, None).unwrap(), (80, 24));
    assert_eq!(
        parse_size(Some("abc"), None).unwrap_err(),
        "invalid size 'abc', expected COLSxROWS (e.g. 80x24)"
    );
    assert_eq!(parse_size(Some("x24"), None).unwrap_err(), "cannot parse integer from empty string");
    assert_eq!(parse_size(Some("8a0x24"), None).unwrap_err(), "invalid digit found in string");
    assert_eq!(parse_size(Some("-1x24"), None).unwrap_err(), "invalid digit found in string");
    assert_eq!(parse_size(Some("70000x24"), None).unwrap_err(), "number too large to fit in target type");
    assert_eq!(parse_size(Some("80x24x1"), None).unwrap_err(), "invalid digit found in string");
}

#[test]
fn sizes_agree_with_std() {
    for s in ["0", "65535", "65536", "+", "-", "+7", "12a", "999999", "", "1+1", "٣"] {
        let mine = parse_size(Some(&format!("{}x1", s)), None).map(|(c, _)| c);
        let std = s.parse::<u16>().map_err(|e| e.to_string());
        assert_eq!(mine, std, "{}", s);
    }
}

#[test]
fn renders_a_frame() {
    let out = screen_output(&vec![b"hi".to_vec()], 2, 5);
    assert!(out.starts_with(b"hi"));
    assert!(out.ends_with(b"\x1b[?25h\n"));
    let text = String::from_utf8_lossy(&out).to_string();
    assert_eq!(text.matches("\x1b[m").count(), 2);
    assert_eq!(text.matches("\r\n").count(), 1);
    let split = screen_output(&vec![b"h".to_vec(), b"i".to_vec()], 2, 5);
    assert_eq!(split, out);
}

#[test]
fn renders_one_column() {
    let out = screen_output(&vec![b"ab".to_vec()], 2, 1);
    let text = String::from_utf8_lossy(&out).to_string();
    assert!(text.starts_with("a"), "{:?}", text);
    assert!(text.contains("b"), "{:?}", text);
    assert!(text.ends_with("\x1b[?25h\n"));
    assert_eq!(text.matches("\x1b[m").count(), 2);
    assert_eq!(text.matches("\r\n").count(), 1);
}

#[test]
fn renderable_sizes() {
    let ascii = vec![b"ab".to_vec(), b"c".to_vec()];
    let wide = vec![b"a".to_vec(), "\u{4e2d}".as_bytes().to_vec()];
    assert!(screen_renderable(&ascii, 24, 80));
    assert!(screen_renderable(&ascii, 2, 1));
    assert!(screen_renderable(&wide, 2, 2));
    assert!(!screen_renderable(&wide, 2, 1));
    assert!(!screen_renderable(&ascii, 0, 80));
    assert!(!screen_renderable(&ascii, 24, 0));
    assert!(screen_renderable(&Vec::new(), 1, 1));
}

#[test]
fn merges_lists() {
    let results = vec![
        Ok(vec![target("docker://a", "docker://1", "sh", "now")]),
        Err(ListError::NotFound),
        Err(ListError::Failed("tmux broke".to_string())),
        Ok(vec![target("tmux://s/0/0", "tmux://%1", "vim", "")]),
    ];
    let (ts, warnings) = merge_target_lists(results);
    assert_eq!(ts.len(), 2);
    assert_eq!(ts[0].url, "docker://a");
    assert_eq!(ts[1].url, "tmux://s/0/0");
    assert_eq!(warnings, vec!["warning: tmux broke".to_string()]);
}

#[test]
fn table_and_menu() {
    let ts = vec![target("tmux://s/0/0", "tmux://%1", "vim", "2 hours ago")];
    let lines = table_lines(&ts);
    assert_eq!(
        lines[0],
        format!("{:<24} {:<20} {:<20} {}", "ID", "COMMAND", "CREATED", "NAME")
    );
    assert_eq!(
        lines[1],
        format!("{:<24} {:<20} {:<20} {}", "tmux://%1", "vim", "2 hours ago", "tmux://s/0/0")
    );
    let long = vec![target("u", "an-id-much-longer-than-twenty-four", "é", "")];
    assert_eq!(
        table_lines(&long)[1],
        format!("{:<24} {:<20} {:<20} {}", "an-id-much-longer-than-twenty-four", "é", "", "u")
    );
    assert_eq!(menu_items(&ts), vec!["tmux://s/0/0 (vim)".to_string()]);
}

#[test]
fn default_commands() {
    match default_command(Some("docker://web".to_string())) {
        DefaultCommand::Attach(t) => assert_eq!(t, "docker://web"),
        DefaultCommand::List => panic!("expected attach"),
    }
    assert!(matches!(default_command(Some("ls".to_string())), DefaultCommand::List));
    assert!(matches!(default_command(None), DefaultCommand::List));
}

#[test]
fn frames_rows() {
    let rows = vec![b"ab".to_vec(), b"cd".to_vec(), b"ef".to_vec()];
    assert_eq!(
        frame_from_rows(&rows, 2),
        b"ab\x1b[m\r\ncd\x1b[m\x1b[?25h\n".to_vec()
    );
    assert_eq!(
        frame_from_rows(&rows[..1].to_vec(), 3),
        b"ab\x1b[m\r\n\x1b[?25h\n".to_vec()
    );
    assert_eq!(frame_from_rows(&vec![b"x".to_vec()], 1), b"x\x1b[m\x1b[?25h\n".to_vec());
}

#[test]
fn typed_words() {
    let w = |v: &[&str]| v.iter().map(|s| s.to_string()).collect::<Vec<String>>();
    assert_eq!(typed_text(&w(&["echo", "hello_from_type"])), "echo hello_from_type");
    assert_eq!(typed_text(&w(&["echo 'a;b'"])), "echo 'a;b'");
    assert_eq!(typed_text(&w(&[])), "");
}
