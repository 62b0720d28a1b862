use zellij_server::os_input_output::{
    apply_post_command_hook, build_command, command_candidates, command_line, editor_command,
    foreground_pid, found_foreground_commands, separate_command_arguments, split_ascii_words,
    FileToOpen, ResizeRequests,
    RunCommand, TerminalAction,
};

fn strings(v: &[&str]) -> Vec<String> {
    v.iter().map(|s| s.to_string()).collect()
}

fn open(path: &str, line_number: Option<usize>, cwd: Option<&str>) -> TerminalAction {
    TerminalAction::OpenFile(FileToOpen {
        path: path.to_string(),
        line_number,
        cwd: cwd.map(|c| c.to_string()),
    })
}

#[test]
fn command_arguments_are_split_off() {
    let mut command = "/usr/bin/vim -e".to_string();
    let mut args = strings(&["-x"]);
    separate_command_arguments(&mut command, &mut args);
    assert_eq!(command, "/usr/bin/vim");
    assert_eq!(args, strings(&["-x", "-e"]));
}

#[test]
fn escaped_spaces_stay_in_the_word() {
    let mut command = "/my\\ editors/ed\\  --flag\tx".to_string();
    let mut args = Vec::new();
    separate_command_arguments(&mut command, &mut args);
    assert_eq!(command, "/my editors/ed --flag");
    assert_eq!(args, strings(&["x"]));
}

#[test]
fn blank_command_lines_stay_as_they_are() {
    let mut command = " \t ".to_string();
    let mut args = Vec::new();
    separate_command_arguments(&mut command, &mut args);
    assert_eq!(command, " \t ");
    assert!(args.is_empty());
}

#[test]
fn words_split_on_ascii_whitespace_only() {
    assert_eq!(
        split_ascii_words("  a\u{a0}b \r\nc\x0cd "),
        strings(&["a\u{a0}b", "c", "d"])
    );
    assert!(split_ascii_words("").is_empty());
}

#[test]
fn editors_with_plus_line_get_a_failover() {
    let (cmd, failover) = build_command(open("notes.txt", Some(12), Some("/home/u")), "/usr/bin/nvim".to_string(), false);
    assert_eq!(cmd.command, "/usr/bin/nvim");
    assert_eq!(cmd.args, strings(&["+12", "/home/u/notes.txt"]));
    assert_eq!(cmd.cwd, Some("/home/u".to_string()));
    assert!(!cmd.hold_on_close && !cmd.hold_on_start);
    let failover = failover.expect("a failover command");
    assert_eq!(failover.command, "/usr/bin/nvim");
    assert_eq!(failover.args, strings(&["/home/u/notes.txt"]));
}

#[test]
fn helix_takes_file_colon_line() {
    let (cmd, failover) = build_command(open("/etc/hosts", Some(3), Some("/home/u")), "hx --vsplit".to_string(), false);
    assert_eq!(cmd.command, "hx");
    assert_eq!(cmd.args, strings(&["--vsplit", "/etc/hosts:3"]));
    assert!(failover.is_none());
}

#[test]
fn other_editors_get_just_the_file() {
    let (cmd, failover) = build_command(open("a.rs", Some(3), None), "gvim".to_string(), false);
    assert_eq!(cmd.command, "gvim");
    assert_eq!(cmd.args, strings(&["a.rs"]));
    assert!(failover.is_none());
    let (cmd, _) = build_command(open("a.rs", None, None), "/opt/my editor".to_string(), true);
    assert_eq!(cmd.command, "/opt/my editor");
    assert_eq!(cmd.args, strings(&["a.rs"]));
}

#[test]
fn commands_run_as_they_are() {
    let run = RunCommand {
        command: "ls".to_string(),
        args: strings(&["-la"]),
        cwd: None,
        hold_on_close: true,
        hold_on_start: true,
    };
    let (cmd, failover) = build_command(TerminalAction::RunCommand(run.clone()), "vi".to_string(), false);
    assert_eq!(cmd, run);
    assert!(failover.is_none());
}

#[test]
fn editor_falls_back_to_the_environment_then_vi() {
    assert_eq!(editor_command(Some("kak".into()), Some("e".into()), None), "kak");
    assert_eq!(editor_command(None, Some("e".into()), Some("v".into())), "e");
    assert_eq!(editor_command(None, None, Some("v".into())), "v");
    assert_eq!(editor_command(None, None, None), "vi");
}

#[test]
fn programs_are_looked_for_in_the_cwd_then_the_path() {
    let cmd = RunCommand {
        command: "tool".to_string(),
        args: vec![],
        cwd: Some("/work".to_string()),
        hold_on_close: false,
        hold_on_start: false,
    };
    let c = command_candidates(&cmd, &strings(&["/bin", "/usr/bin/"]));
    assert_eq!(c, strings(&["/work/tool", "/bin/tool", "/usr/bin/tool"]));
    let abs = RunCommand {
        command: "/abs/tool".to_string(),
        ..cmd
    };
    assert_eq!(command_candidates(&abs, &vec![]), strings(&["/abs/tool"]));
}

#[test]
fn post_command_hook_output_is_split_into_words() {
    let command = strings(&["vim", "file"]);
    assert_eq!(command_line(&command), "vim file");
    assert_eq!(apply_post_command_hook(command.clone(), None), command);
    assert_eq!(
        apply_post_command_hook(command.clone(), Some(Ok("\u{a0} nvim  -R file \n".to_string()))),
        strings(&["nvim", "-R", "file"])
    );
    assert_eq!(
        apply_post_command_hook(command.clone(), Some(Err("failed".to_string()))),
        command
    );
}

#[test]
fn foreground_process_is_not_the_shell() {
    assert_eq!(foreground_pid(Some(42), 7), Some(42));
    assert_eq!(foreground_pid(Some(7), 7), None);
    assert_eq!(foreground_pid(Some(0), 7), None);
    assert_eq!(foreground_pid(Some(-3), 7), None);
    assert_eq!(foreground_pid(None, 7), None);
}

#[test]
fn held_resizes_keep_the_last_size_per_terminal() {
    let mut r = ResizeRequests::new();
    assert!(!r.set_terminal_size_using_terminal_id(1, 80, 24, None, None));
    r.cache_resizes();
    assert!(r.set_terminal_size_using_terminal_id(2, 10, 10, None, None));
    assert!(r.set_terminal_size_using_terminal_id(1, 100, 30, Some(5), None));
    assert!(r.set_terminal_size_using_terminal_id(2, 20, 20, None, Some(9)));
    let held = r.apply_cached_resizes().expect("held resizes");
    let order: Vec<_> = held.into_iter().collect();
    assert_eq!(order, vec![(1, (100, 30, Some(5), None)), (2, (20, 20, None, Some(9)))]);
    assert!(r.apply_cached_resizes().is_none());
    assert!(!r.set_terminal_size_using_terminal_id(1, 1, 1, None, None));
}

#[test]
fn foreground_commands_skip_missing_and_empty_ones() {
    let found = vec![
        (1, Some(strings(&["vim", "a"]))),
        (2, None),
        (3, Some(vec![])),
        (4, Some(strings(&["top"]))),
    ];
    assert_eq!(
        found_foreground_commands(found),
        vec![(1, strings(&["vim", "a"])), (4, strings(&["top"]))]
    );
}
