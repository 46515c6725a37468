use slickcmd::command_hist::{parse_command_info, load_old_hists, CommandHist};

#[test]
fn test_parse_command_info_valid() {
    let (sid, info) = parse_command_info("[20240101_120000][10]dir").unwrap();
    assert_eq!(sid, 10);
    assert_eq!(info.time, 20240101120000u64 * 1000);
    assert_eq!(info.command, "dir");
}

#[test]
fn test_parse_command_info_keeps_command_spaces() {
    let (sid, info) = parse_command_info("  [20240102_093015][42]cd C:\\Program Files  ").unwrap();
    assert_eq!(sid, 42);
    assert_eq!(info.time, 20240102093015u64 * 1000);
    assert_eq!(info.command, "cd C:\\Program Files");
}

#[test]
fn test_parse_command_info_malformed() {
    assert!(parse_command_info("").is_none());
    assert!(parse_command_info("no brackets").is_none());
    assert!(parse_command_info("[20240101120000][10]dir").is_none()); // no underscore
    assert!(parse_command_info("[20240101_120000[10]dir").is_none()); // one field
    assert!(parse_command_info("[2024x101_120000][10]dir").is_none()); // bad digits
    assert!(parse_command_info("[20240101_120000][ten]dir").is_none()); // bad session id
    assert!(parse_command_info("[20240101_120000]dir").is_none()); // missing session field
}

#[test]
fn test_load_old_hists_merges_by_session() {
    let content = "\
[20240101_100000][10]alpha
[20240101_100500][20]bravo
[20240101_101000][10]charlie
[20240101_101500][30]delta
[20240101_102000][20]echo
garbage line
[20240101_102500][30]foxtrot
";
    let hists = load_old_hists("cmd", content, 30);
    assert_eq!(hists.len(), 2);

    assert_eq!(hists[0].sid(), 10);
    assert_eq!(hists[0].category, "cmd");
    assert_eq!(hists[0].infos.len(), 2);
    assert_eq!(hists[0].infos[0].command, "alpha");
    assert_eq!(hists[0].infos[1].command, "charlie");
    assert!(hists[0].infos[0].time <= hists[0].infos[1].time);

    assert_eq!(hists[1].sid(), 20);
    assert_eq!(hists[1].infos.len(), 2);
    assert_eq!(hists[1].infos[0].command, "bravo");
    assert_eq!(hists[1].infos[1].command, "echo");
    assert!(hists[1].infos[0].time <= hists[1].infos[1].time);

    for h in &hists {
        assert_ne!(h.sid(), 30);
    }
}

#[test]
fn test_save_text_renders_unsaved_entries() {
    let mut hist = CommandHist::new("cmd", 70001);
    hist.add("dir", 20240101120000_000u64 + 250);
    hist.add("cd ..", 20240101120105_000u64);
    let text = hist.save_text();
    assert_eq!(text, "[20240101_120000][70001]dir\n[20240101_120105][70001]cd ..\n");

    // the watermark advanced: nothing more to render
    assert_eq!(hist.save_text(), "");

    hist.add("cls", 20240101120200_000u64);
    assert_eq!(hist.save_text(), "[20240101_120200][70001]cls\n");
}

#[test]
fn test_save_text_round_trips_through_parse() {
    let mut hist = CommandHist::new("cmd", 90210);
    hist.add("echo hi", 20240301080910_000u64);
    let text = hist.save_text();
    let line = text.trim_end();
    let (sid, info) = parse_command_info(line).unwrap();
    assert_eq!(sid, 90210);
    assert_eq!(info.time, 20240301080910_000u64);
    assert_eq!(info.command, "echo hi");
}

#[test]
fn test_history_basics() {
    let mut hist = CommandHist::new("ps", 5);
    assert!(hist.is_empty());
    assert_eq!(hist.sid(), 5);
    hist.add("ls", 1000);
    assert!(!hist.is_empty());
}
