use slickcmd::shell::{
    ShellKind, shell_kind_of_exe, shell_name, at_prompt, is_cross_drive_cd, prompt_candidate,
    parse_prompt, clean_multiline_continuations, ps_dir_from_lines, set_input_plan, queue_events,
    replay_chars, InputPlan, ConsoleKey,
};

#[test]
fn test_prompt_parsing_cmd() {
    // a line with the delimiter yields the whole prompt when the directory exists
    let prompt = parse_prompt(ShellKind::Cmd, r"C:\Users\John>dir", true);
    assert_eq!(prompt, r"C:\Users\John>");

    let (dir, p) = prompt_candidate(ShellKind::Cmd, r"C:\Users\John>dir").unwrap();
    assert_eq!(dir, r"C:\Users\John");
    assert_eq!(p, r"C:\Users\John>");

    // a non-existent directory before the delimiter yields no match
    let prompt = parse_prompt(ShellKind::Cmd, r"C:\No\Such\Dir>dir", false);
    assert_eq!(prompt, "");

    // no delimiter, or one at the start, yields no candidate
    assert!(prompt_candidate(ShellKind::Cmd, "plain text").is_none());
    assert!(prompt_candidate(ShellKind::Cmd, ">leading").is_none());
}

#[test]
fn test_prompt_parsing_ps() {
    let (dir, p) = prompt_candidate(ShellKind::Ps, r"PS C:\Users\John> dir").unwrap();
    assert_eq!(dir, r"C:\Users\John");
    assert_eq!(p, r"PS C:\Users\John> ");

    // must start with the scripting shell's prefix
    assert!(prompt_candidate(ShellKind::Ps, r"C:\Users\John>dir").is_none());
    // needs one character after the delimiter
    assert!(prompt_candidate(ShellKind::Ps, r"PS C:\Users\John>").is_none());
}

#[test]
fn test_shell_kind_selection() {
    assert_eq!(shell_kind_of_exe("PowerShell.exe"), ShellKind::Ps);
    assert_eq!(shell_kind_of_exe("pwsh.exe"), ShellKind::Ps);
    assert_eq!(shell_kind_of_exe("cmd.exe"), ShellKind::Cmd);
    assert_eq!(shell_kind_of_exe("bash"), ShellKind::Cmd);
    assert_eq!(shell_name(ShellKind::Cmd), "cmd");
    assert_eq!(shell_name(ShellKind::Ps), "ps");
}

#[test]
fn test_at_prompt_signals() {
    // basic shell: needs line editing and no child process
    assert!(at_prompt(ShellKind::Cmd, true, 2));
    assert!(!at_prompt(ShellKind::Cmd, false, 2));
    assert!(!at_prompt(ShellKind::Cmd, true, 3));
    // scripting shell: only needs no child process
    assert!(at_prompt(ShellKind::Ps, false, 2));
    assert!(!at_prompt(ShellKind::Ps, false, 3));
}

#[test]
fn test_cross_drive_cd() {
    assert!(!is_cross_drive_cd(ShellKind::Cmd));
    assert!(is_cross_drive_cd(ShellKind::Ps));
}

#[test]
fn test_clean_continuations() {
    assert_eq!(
        clean_multiline_continuations(ShellKind::Cmd, "cd C:\\a^More? \\b"),
        "cd C:\\a\\b"
    );
    assert_eq!(
        clean_multiline_continuations(ShellKind::Ps, "cd C:\\a`>> \\b`>> c"),
        "cd C:\\a\\bc"
    );
    assert_eq!(clean_multiline_continuations(ShellKind::Cmd, "nothing"), "nothing");
}

#[test]
fn test_ps_dir_from_lines() {
    let lines = vec![
        String::from("output text"),
        String::from(r"PS C:\Work> git status"),
        String::from(r"PS C:\Other> dir"),
    ];
    assert_eq!(ps_dir_from_lines(&lines).unwrap(), r"C:\Work");

    let lines = vec![String::from("no prompt here")];
    assert!(ps_dir_from_lines(&lines).is_none());
}

#[test]
fn test_queue_events_shape() {
    let events = queue_events("ab");
    assert_eq!(events.len(), 6);
    assert!(matches!(events[0], ConsoleKey::EscDown));
    assert!(matches!(events[1], ConsoleKey::EscUp));
    assert!(matches!(events[2], ConsoleKey::CharDown(c) if c == 'a' as u32));
    assert!(matches!(events[3], ConsoleKey::CharUp(c) if c == 'a' as u32));
    assert!(matches!(events[4], ConsoleKey::CharDown(c) if c == 'b' as u32));
    assert!(matches!(events[5], ConsoleKey::CharUp(c) if c == 'b' as u32));
}

#[test]
fn test_replay_chars_shape() {
    let cs = replay_chars("hi");
    assert_eq!(cs, vec!['\x1b', 'h', 'i']);
}

#[test]
fn test_set_input_plan_per_shell() {
    match set_input_plan(ShellKind::Cmd, "x") {
        InputPlan::QueueKeys(events) => assert_eq!(events.len(), 4),
        InputPlan::ReplayChars(_) => panic!("basic shell uses the input queue"),
    }
    match set_input_plan(ShellKind::Ps, "x") {
        InputPlan::ReplayChars(cs) => assert_eq!(cs, vec!['\x1b', 'x']),
        InputPlan::QueueKeys(_) => panic!("scripting shell replays characters"),
    }
}
