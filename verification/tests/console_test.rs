use slickcmd::console::{
    ConsoleSession, ReturnUpOutcome, NavOutcome, CompletionDecision, read_prompt_input,
    build_cd_command, cd_partial, fg_pid_from_list, derive_scan_lines, completion_anchor_col,
};
use slickcmd::shell::ShellKind;

fn new_session(kind: ShellKind) -> ConsoleSession {
    ConsoleSession::new(kind, "cmd", 70001)
}

#[test]
fn test_read_prompt_input_strips_prompt() {
    let down = vec![String::from(r"C:\Users\John>dir")];
    let down_ok = vec![true];
    let up: Vec<String> = vec![];
    let up_ok: Vec<bool> = vec![];
    let (prompt, input) = read_prompt_input(ShellKind::Cmd, &down, &down_ok, &up, &up_ok);
    assert_eq!(prompt, r"C:\Users\John>");
    assert_eq!(input, "dir");
}

#[test]
fn test_read_prompt_input_scans_upward() {
    // the cursor line has no prompt; the line above does
    let down = vec![String::from("second half")];
    let down_ok = vec![false];
    let up = vec![String::from(r"C:\Work>first half ")];
    let up_ok = vec![true];
    let (prompt, input) = read_prompt_input(ShellKind::Cmd, &down, &down_ok, &up, &up_ok);
    assert_eq!(prompt, r"C:\Work>");
    assert_eq!(input, "first half second half");
}

#[test]
fn test_read_prompt_input_no_prompt() {
    let down = vec![String::from("text")];
    let down_ok = vec![false];
    let up = vec![String::from("more text")];
    let up_ok = vec![false];
    let (prompt, input) = read_prompt_input(ShellKind::Cmd, &down, &down_ok, &up, &up_ok);
    assert_eq!(prompt, "");
    assert_eq!(input, "");
}

#[test]
fn test_return_down_queues_cross_drive_replacement() {
    let mut s = new_session(ShellKind::Cmd);
    let handled = s.handle_return_down(r"cd D:\Test", r"C:\Users\", 1000);
    assert!(handled);
    match s.handle_return_up() {
        ReturnUpOutcome::Replaced(cmd) => assert_eq!(cmd, r"cd /d D:\Test"),
        ReturnUpOutcome::Resolve => panic!("a replacement was queued"),
    }
    // the queued command is gone after injection
    assert!(matches!(s.handle_return_up(), ReturnUpOutcome::Resolve));
    assert!(s.take_pending_refresh());
    assert!(!s.take_pending_refresh());
}

#[test]
fn test_return_down_same_drive_passes_through() {
    let mut s = new_session(ShellKind::Cmd);
    let handled = s.handle_return_down(r"cd C:\Windows", r"C:\Users\", 1000);
    assert!(!handled);
    assert!(matches!(s.handle_return_up(), ReturnUpOutcome::Resolve));
}

#[test]
fn test_return_down_cross_drive_ok_for_scripting_shell() {
    let mut s = new_session(ShellKind::Ps);
    let handled = s.handle_return_down(r"cd D:\Test", r"C:\Users\", 1000);
    assert!(!handled);
}

#[test]
fn test_return_down_scan_start() {
    let mut s = new_session(ShellKind::Cmd);
    assert_eq!(s.return_down_scan_start(5), 1);
    assert_eq!(s.return_down_scan_start(8), 6);
    assert_eq!(s.return_down_scan_start(3), 0);
}

#[test]
fn test_cd_command_synthesis() {
    // same drive: plain cd
    assert_eq!(build_cd_command(ShellKind::Cmd, r"C:\", r"C:\Users"), r"cd C:\Users");
    // different drive on the basic shell: explicit flag
    assert_eq!(build_cd_command(ShellKind::Cmd, r"C:\", r"D:\Data"), r"cd /d D:\Data");
    // the scripting shell crosses drives without a flag
    assert_eq!(build_cd_command(ShellKind::Ps, r"C:\", r"D:\Data"), r"cd D:\Data");
    // a target with spaces is quoted
    assert_eq!(
        build_cd_command(ShellKind::Cmd, r"C:\", r"C:\Program Files"),
        "cd \"C:\\Program Files\""
    );
}

#[test]
fn test_alt_navigation() {
    let mut s = new_session(ShellKind::Cmd);
    // nothing visited yet: both directions ring the bell
    assert!(matches!(s.on_alt_left(r"C:\", 1), NavOutcome::Bell));
    assert!(matches!(s.on_alt_right(r"C:\", 2), NavOutcome::Bell));

    s.update_cur_dir(r"C:\A\");
    s.update_cur_dir(r"C:\B\");
    match s.on_alt_left(r"C:\B\", 3) {
        NavOutcome::Command(cmd) => assert_eq!(cmd, r"cd C:\A\"),
        _ => panic!("a back step was possible"),
    }
    match s.on_alt_right(r"C:\A\", 4) {
        NavOutcome::Command(cmd) => assert_eq!(cmd, r"cd C:\B\"),
        _ => panic!("a forward step was possible"),
    }
}

#[test]
fn test_alt_up_and_home() {
    let mut s = new_session(ShellKind::Cmd);
    s.update_cur_dir(r"C:\Users\John\");
    match s.on_alt_up(1) {
        NavOutcome::Command(cmd) => assert_eq!(cmd, "cd .."),
        _ => panic!("the parent exists"),
    }
    assert_eq!(s.current_dir(), r"C:\Users\");

    // at a root there is no parent
    let mut s2 = new_session(ShellKind::Cmd);
    s2.update_cur_dir(r"C:\");
    assert!(matches!(s2.on_alt_up(2), NavOutcome::Bell));

    // home jump
    match s.on_alt_home(r"C:\Home\", r"C:\Users\", 3) {
        NavOutcome::Command(cmd) => assert_eq!(cmd, r"cd C:\Home\"),
        _ => panic!("the console was elsewhere"),
    }
    assert!(matches!(s.on_alt_home(r"C:\Home\", r"C:\Home\", 4), NavOutcome::Quiet));
}

#[test]
fn test_alt_down_and_manual_completion() {
    let mut s = new_session(ShellKind::Cmd);
    assert_eq!(s.on_alt_down("dir"), Some(String::from("cd ")));
    assert_eq!(s.on_alt_down("cd x"), None);

    assert_eq!(s.on_post_alt_down(r"cd C:\U"), Some(String::from(r"C:\U")));
    assert_eq!(s.on_post_alt_down("oops"), None);
}

#[test]
fn test_cd_partial_extraction() {
    assert_eq!(cd_partial(r"cd C:\U").unwrap(), r"C:\U");
    assert_eq!(cd_partial(r"cd /d D:\W").unwrap(), r"D:\W");
    assert_eq!(cd_partial("cd \"C:\\Program").unwrap(), r"C:\Program");
    assert!(cd_partial("cd /x y").is_none());
    assert!(cd_partial("cd").is_none());
}

#[test]
fn test_completion_decision() {
    let mut s = new_session(ShellKind::Cmd);
    // a typed cd with completion enabled requests the partial
    match s.decide_completion(false, r"cd C:\U", true) {
        CompletionDecision::Request(p) => assert_eq!(p, r"C:\U"),
        _ => panic!("completion was enabled"),
    }
    // escape never requests
    s.note_popup_shown();
    assert!(matches!(s.decide_completion(true, r"cd C:\U", true), CompletionDecision::Hide));
    // a non-cd line hides a showing popup
    s.note_popup_shown();
    assert!(matches!(s.decide_completion(false, "dir", true), CompletionDecision::Hide));
    // nothing showing, nothing typed: nothing to do
    assert!(matches!(s.decide_completion(false, "dir", true), CompletionDecision::Nothing));
}

#[test]
fn test_session_history_save() {
    let mut s = new_session(ShellKind::Cmd);
    s.handle_return_down("dir", r"C:\", 20240101120000_000u64);
    assert!(!s.history_is_empty());
    assert_eq!(s.sid(), 70001);
    let text = s.save_history_text();
    assert_eq!(text, "[20240101_120000][70001]dir\n");
}

#[test]
fn test_derive_scan_lines() {
    let rows = vec![
        String::from("old output   "),
        String::from(r"C:\Work>cd src  "),
        String::from("continuation  "),
        String::from("below   "),
    ];
    // cursor on row 2; scan may go back to row 1
    let (down, up) = derive_scan_lines(&rows, "continuation", 2, 1, false);
    assert_eq!(down, vec![String::from("continuation"), String::from("below")]);
    assert_eq!(up, vec![String::from(r"C:\Work>cd src")]);

    // only the text before the cursor on the cursor row
    let (down, up) = derive_scan_lines(&rows, "contin", 2, 0, true);
    assert_eq!(down, vec![String::from("contin")]);
    assert_eq!(
        up,
        vec![String::from(r"C:\Work>cd src"), String::from("old output")]
    );
}

#[test]
fn test_completion_anchor_col() {
    assert_eq!(completion_anchor_col(r"C:\Work>", r"cd sr"), 8 + 3);
    assert_eq!(completion_anchor_col(r"C:\Work>", r"cd /d D:\x"), 8 + 7);
}

#[test]
fn test_fg_pid_from_list() {
    let pids = vec![100, 200, 300];
    assert_eq!(fg_pid_from_list(&pids, 100, 200), 300);
    assert_eq!(fg_pid_from_list(&pids, 100, 999), 200);
    let only_known = vec![100, 200];
    assert_eq!(fg_pid_from_list(&only_known, 100, 200), 100);
}
