use tmux_bridge::bridge;
use tmux_bridge::cli::{
    last_target_flag, parse_flag_value, parse_invocation, parse_target_flag,
    parse_target_flag_raw, ArgCursor, Invocation,
};
use tmux_bridge::commands::{
    cmd_has_session, cmd_list_sessions, cmd_select_pane, command_for, display_call, display_message_plan,
    forward_call, identify_call, identify_json, new_session_steps, new_surface_from,
    new_window_steps, parse_new_session, parse_new_window, parse_resize_pane,
    parse_split_window, resize_call, split_window_call, split_window_followup, text_block,
    window_workspace_line, Command, DisplayPlan, Step,
};
use tmux_bridge::standalone;

fn v(items: &[&str]) -> Vec<String> {
    items.iter().map(|s| s.to_string()).collect()
}

fn describe(steps: &[Step]) -> Vec<String> {
    steps
        .iter()
        .map(|s| match s {
            Step::Run(a) => format!("run {}", a.join(" ")),
            Step::Pause(ms) => format!("pause {ms}"),
            Step::Say(l) => format!("say {l}"),
            Step::ShowSurface => "show-surface".to_string(),
        })
        .collect()
}

#[test]
fn invocation_reads_global_flags() {
    assert!(matches!(parse_invocation(&v(&[])), Invocation::Banner));
    assert!(matches!(parse_invocation(&v(&["-V"])), Invocation::Version));
    assert!(matches!(parse_invocation(&v(&["-L", "sock"])), Invocation::Banner));
    assert!(matches!(parse_invocation(&v(&["-L"])), Invocation::Banner));
    assert!(matches!(parse_invocation(&v(&["-L", "sock", "-V"])), Invocation::Version));
    match parse_invocation(&v(&["-L", "sock", "kill-pane", "-t", "%surface:1"])) {
        Invocation::Command { name, rest } => {
            assert_eq!(name, "kill-pane");
            assert_eq!(rest, v(&["-t", "%surface:1"]));
        }
        _ => panic!("expected a command"),
    }
}

#[test]
fn socket_flag_changes_nothing() {
    let plain = parse_invocation(&v(&["send-keys", "x"]));
    let with_socket = parse_invocation(&v(&["-L", "default", "send-keys", "x"]));
    match (plain, with_socket) {
        (
            Invocation::Command { name: a, rest: ra },
            Invocation::Command { name: b, rest: rb },
        ) => {
            assert_eq!(a, b);
            assert_eq!(ra, rb);
        }
        _ => panic!("expected commands"),
    }
}

#[test]
fn commands_are_dispatched_by_name() {
    let c = |n: &str, l: bool| command_for(&n.to_string(), l);
    assert_eq!(c("split-window", true), Command::SplitWindow);
    assert_eq!(c("-has-session", true), Command::HasSession);
    assert_eq!(c("ls", false), Command::ListSessions);
    assert_eq!(c("set", true), Command::Ignore);
    assert_eq!(c("select-layout", true), Command::SelectLayout);
    assert_eq!(c("select-layout", false), Command::Ignore);
    assert_eq!(c("join-pane", true), Command::Ignore);
    assert_eq!(c("kill-window", true), Command::KillWindow);
    assert_eq!(c("rename-window", true), Command::Forward);
    assert_eq!(forward_call(&"rename-window".to_string(), &v(&["a"])), v(&["rename-window", "a"]));
}

#[test]
fn flag_values_come_one_at_a_time() {
    let mut cursor = ArgCursor::new(&v(&["a", "b"]));
    assert_eq!(parse_flag_value(&mut cursor), Some("a".to_string()));
    assert_eq!(parse_flag_value(&mut cursor), Some("b".to_string()));
    assert_eq!(parse_flag_value(&mut cursor), None);
    assert_eq!(cursor.pos, 2);
}

#[test]
fn targets_first_and_last() {
    let args = v(&["-t", "%surface:1", "-t", "%surface:2"]);
    assert_eq!(parse_target_flag_raw(&args), "%surface:1");
    assert_eq!(parse_target_flag(&args), "surface:1");
    assert_eq!(last_target_flag(&args), "%surface:2");
    assert_eq!(parse_target_flag(&v(&["-x", "-t"])), "");
    assert_eq!(last_target_flag(&v(&["-t", "-t", "x"])), "-t");
}

#[test]
fn send_keys_maps_named_keys() {
    let calls = standalone::cmd_send_keys(&v(&[
        "-t", "%surface:3", "echo hi", "Enter", "C-c", "C-d", "Space", "Tab", "BSpace",
    ]));
    assert_eq!(
        calls,
        vec![
            v(&["send", "--surface", "surface:3", "echo hi"]),
            v(&["send-key", "--surface", "surface:3", "enter"]),
            v(&["send-key", "--surface", "surface:3", "escape"]),
            v(&["send", "--surface", "surface:3", "\x04"]),
            v(&["send", "--surface", "surface:3", " "]),
            v(&["send-key", "--surface", "surface:3", "tab"]),
            v(&["send-key", "--surface", "surface:3", "backspace"]),
        ]
    );
    assert_eq!(standalone::cmd_send_keys(&v(&["x", "-t"])), vec![v(&["send", "x"]), v(&["send", "-t"])]);
    assert_eq!(bridge::cmd_send_keys(&v(&["x", "-t"]), None), vec![v(&["send", "x"])]);
}

#[test]
fn unmarked_keys_are_sent_alike() {
    let args = v(&["-t", "surface:1", "ls", "Escape", "escape"]);
    assert_eq!(standalone::cmd_send_keys(&args), bridge::cmd_send_keys(&args, None));
}

#[test]
fn marked_launch_line_is_cleared_and_widened() {
    let args = v(&["-t", "%surface:2", "cd /x && env CLAUDECODE=1 /bin/tool.marked --go", "Enter"]);
    let calls = bridge::cmd_send_keys(&args, Some(".marked"));
    assert_eq!(
        calls,
        vec![
            v(&["send", "--surface", "surface:2", "\x05\x15"]),
            v(&[
                "send",
                "--surface",
                "surface:2",
                "cd /x && env DISABLE_INSTALLATION_CHECKS=1 CLAUDECODE=1 /bin/tool.marked --go",
            ]),
            v(&["send-key", "--surface", "surface:2", "enter"]),
        ]
    );
    let unmarked = bridge::cmd_send_keys(&v(&["env CLAUDECODE=1 x"]), Some(".marked"));
    assert_eq!(unmarked, vec![v(&["send", "env CLAUDECODE=1 x"])]);
}

#[test]
fn kill_and_capture_targets() {
    let args = v(&["-t", "%surface:1", "-t", "%surface:2"]);
    assert_eq!(standalone::cmd_kill_pane(&args), v(&["close-surface", "--surface", "surface:2"]));
    assert_eq!(bridge::cmd_kill_pane(&args), v(&["close-surface", "--surface", "surface:1"]));
    assert_eq!(standalone::cmd_kill_pane(&v(&[])), v(&["close-surface"]));
    assert_eq!(standalone::cmd_capture_pane(&args), v(&["read-screen", "--surface", "surface:2"]));
    assert_eq!(bridge::cmd_capture_pane(&args), v(&["read-screen", "--surface", "surface:1"]));
    let ws = v(&["-t", "workspace:3"]);
    assert_eq!(
        standalone::cmd_kill_session(&ws),
        Some(v(&["close-workspace", "--workspace", "workspace:3"]))
    );
    assert_eq!(bridge::cmd_kill_window(&ws), standalone::cmd_kill_window(&ws));
    assert_eq!(bridge::cmd_kill_session(&v(&["-t"])), None);
}

#[test]
fn select_pane_renames_tab() {
    assert_eq!(
        cmd_select_pane(&v(&["-t", "%surface:4", "-P", "bg=red", "-T", "worker"])),
        Some(v(&["rename-tab", "--surface", "surface:4", "worker"]))
    );
    assert_eq!(cmd_select_pane(&v(&["-t", "%surface:4"])), None);
    assert_eq!(cmd_select_pane(&v(&["-P", "-T", "x"])), None);
}

#[test]
fn split_window_parses_and_plans() {
    let o = parse_split_window(&v(&["-v", "-P", "-F", "#{pane_id}", "-t", "%surface:1", "-l", "30%", "--", "npm", "test"]));
    assert!(o.down);
    assert!(o.print_id);
    assert_eq!(o.target, "surface:1");
    assert_eq!(o.size_spec, "30%");
    assert_eq!(o.command_args, v(&["npm", "test"]));
    assert_eq!(split_window_call(&o), v(&["new-split", "down", "--surface", "surface:1"]));
    assert_eq!(
        describe(&split_window_followup(&o, "surface:9")),
        vec![
            "pause 400".to_string(),
            "run send --surface surface:9 npm test".to_string(),
            "run send-key --surface surface:9 enter".to_string(),
            "say %surface:9".to_string(),
        ]
    );
    assert!(split_window_followup(&o, "").is_empty());
    let plain = parse_split_window(&v(&["-h", "-d", "vim", "-v"]));
    assert!(!plain.down);
    assert_eq!(plain.command_args, v(&["vim", "-v"]));
    assert_eq!(split_window_call(&plain), v(&["new-split", "right"]));
    assert_eq!(new_surface_from(&Some("OK surface:12 workspace:1".to_string())), "surface:12");
    assert_eq!(new_surface_from(&None), "");
}

#[test]
fn new_window_and_session_steps() {
    let o = parse_new_window(&v(&["-n", "build", "-t", "x", "-P", "make", "all"]));
    assert_eq!(
        describe(&new_window_steps(&o)),
        vec![
            "run new-workspace".to_string(),
            "pause 300".to_string(),
            "run rename-workspace build".to_string(),
            "pause 400".to_string(),
            "run send make all".to_string(),
            "run send-key enter".to_string(),
            "show-surface".to_string(),
        ]
    );
    let s = parse_new_session(&v(&["-d", "-s", "sess", "-F", "-n", "-P"]));
    assert_eq!(s.session_name, "sess");
    assert_eq!(s.window_name, "");
    assert!(s.print_id);
    assert_eq!(
        describe(&new_session_steps(&s)),
        vec![
            "run new-workspace".to_string(),
            "pause 300".to_string(),
            "run rename-workspace sess".to_string(),
            "show-surface".to_string(),
        ]
    );
    let w = parse_new_session(&v(&["-s", "sess", "-n", "win"]));
    assert_eq!(
        describe(&new_session_steps(&w)),
        vec!["run new-workspace".to_string(), "pause 300".to_string(), "run rename-workspace win".to_string()]
    );
}

#[test]
fn display_message_plans() {
    assert!(matches!(
        display_message_plan(&v(&["-p", "#{session_name}:#{window_index}"])),
        DisplayPlan::WindowAndWorkspace
    ));
    assert!(matches!(display_message_plan(&v(&["-p", "-t", "x", "#{pane_id}"])), DisplayPlan::PaneId));
    match display_message_plan(&v(&["-p", "#{pane_width}"])) {
        DisplayPlan::Forward(f) => assert_eq!(f, "#{pane_width}"),
        _ => panic!("expected forward"),
    }
    assert!(matches!(display_message_plan(&v(&["#{pane_id}"])), DisplayPlan::Nothing));
    assert!(matches!(display_message_plan(&v(&["-p"])), DisplayPlan::Nothing));
    assert_eq!(display_call("#{x}"), v(&["display-message", "-p", "#{x}"]));
    assert_eq!(window_workspace_line("window:1", "workspace:2"), "window:1:workspace:2");
}

#[test]
fn resize_pane_plans() {
    let o = parse_resize_pane(&v(&["-t", "%surface:2", "-L", "5", "-x", "40%"]));
    assert_eq!(o.target, "surface:2");
    assert_eq!(o.direction, "-L");
    assert_eq!(o.amount, "5");
    assert_eq!(o.width, "40%");
    assert_eq!(resize_call(&o), Some(v(&["resize-pane", "--pane", "surface:2", "-L", "--amount", "5"])));
    assert_eq!(
        standalone::cmd_resize_pane(&v(&["-R", "-x", "40%"])),
        Some(v(&["resize-pane", "-R"]))
    );
    assert_eq!(standalone::cmd_resize_pane(&v(&["5"])), None);
    match bridge::cmd_resize_pane(&v(&["-R", "-y", "30%"])) {
        bridge::ResizePlan::Absolute { target, width, height } => {
            assert_eq!(target, "");
            assert_eq!(width, "");
            assert_eq!(height, "30%");
        }
        _ => panic!("expected an absolute plan"),
    }
    assert!(matches!(
        bridge::cmd_resize_pane(&v(&["-U", "2"])),
        bridge::ResizePlan::Relative(Some(_))
    ));
}

#[test]
fn list_panes_and_sessions() {
    assert_eq!(
        standalone::cmd_list_panes(&v(&["-F", "#{pane_id}", "-t", "window:1:workspace:2"])),
        v(&["list-pane-surfaces", "--workspace", "workspace:2"])
    );
    assert_eq!(bridge::cmd_list_panes(&v(&["-t", "window:1"])), v(&["--json", "list-panes"]));
    assert_eq!(
        standalone::list_panes_output("pane:1 surface:3, x\r\nnothing\n{\"selected\": surface:12}\nsurface:\n"),
        v(&["%surface:3", "%surface:12"])
    );
    assert_eq!(cmd_list_sessions(&v(&["-F", "x"])), v(&["list-workspaces", "-F", "x"]));
}

#[test]
fn text_blocks_end_with_a_newline() {
    assert_eq!(text_block("a"), "a\n");
    assert_eq!(text_block("a\n"), "a\n");
    assert_eq!(text_block(""), "\n");
    assert_eq!(text_block(&text_block("b")), text_block("b"));
}

#[test]
fn identify_call_and_reply() {
    assert_eq!(identify_call(), v(&["identify", "--json"]));
    assert_eq!(identify_json(None), "");
    assert_eq!(identify_json(Some("{}".to_string())), "{}");
}

#[test]
fn lone_target_is_first_and_last() {
    let args = v(&["-x", "%surface:7", "-t", "%surface:4", "Enter"]);
    assert_eq!(parse_target_flag_raw(&args), "%surface:4");
    assert_eq!(last_target_flag(&args), "%surface:4");
    let args = v(&["-t", "-t"]);
    assert_eq!(parse_target_flag_raw(&args), "-t");
    assert_eq!(last_target_flag(&args), "-t");
}

#[test]
fn has_session_pings() {
    assert_eq!(cmd_has_session(&v(&["-t", "main"])), v(&["ping"]));
    assert_eq!(cmd_has_session(&v(&[])), v(&["ping"]));
}

#[test]
fn listed_lines_are_pane_ids_of_surfaces() {
    let out = standalone::list_panes_output("pane:1 surface:3\npane:2 surface:\npane:3 surface:44,x");
    assert_eq!(out, v(&["%surface:3", "%surface:44"]));
    for line in &out {
        assert!(line.starts_with("%surface:"));
        assert!(line.len() > "%surface:".len());
    }
}

fn absolute(args: &[&str]) -> (String, String, String) {
    match bridge::cmd_resize_pane(&v(args)) {
        bridge::ResizePlan::Absolute { target, width, height } => (target, width, height),
        _ => panic!("expected an absolute plan"),
    }
}

#[test]
fn sizes_ignore_directions_and_amounts() {
    let with_moves = absolute(&["-L", "-t", "%surface:4", "3", "-x", "30%", "-D", "7", "-y", "60%"]);
    let without = absolute(&["-t", "%surface:4", "-x", "30%", "-y", "60%"]);
    assert_eq!(with_moves, without);
    assert_eq!(
        without,
        ("surface:4".to_string(), "30%".to_string(), "60%".to_string())
    );
}
