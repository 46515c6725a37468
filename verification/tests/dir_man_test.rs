use slickcmd::dir_man::{CurDir, RecentDirs};

#[test]
fn test_cur_dir() {
    let mut cur_dir = CurDir::new();

    cur_dir.set(r"C:\Users\John\");
    assert_eq!(cur_dir.get(), r"C:\Users\John\");

    cur_dir.go_up();
    assert_eq!(cur_dir.get(), r"C:\Users\");

    assert_eq!(cur_dir._inspect(), vec![r"C:\Users\John\", r"C:\Users\@"]);

    cur_dir.set(r"D:\Test\");
    let dirs = vec![r"C:\Users\John\", r"C:\Users\", r"D:\Test\@"];
    assert_eq!(cur_dir._inspect(), dirs);

    cur_dir.go_back();
    let dirs = vec![r"C:\Users\John\", r"C:\Users\@", r"D:\Test\"];
    assert_eq!(cur_dir._inspect(), dirs);

    cur_dir.go_back();
    let dirs = vec![r"C:\Users\John\@", r"C:\Users\", r"D:\Test\"];
    assert_eq!(cur_dir._inspect(), dirs);

    cur_dir.go_forward();
    let dirs = vec![r"C:\Users\John\", r"C:\Users\@", r"D:\Test\"];
    assert_eq!(cur_dir._inspect(), dirs);

    cur_dir.go_up();
    let dirs = vec![r"C:\Users\John\", r"C:\Users\", r"C:\@"];
    assert_eq!(cur_dir._inspect(), dirs);

    cur_dir.go_up();
    assert_eq!(cur_dir._inspect(), dirs);

    cur_dir.go_back();
    cur_dir.go_back();
    let dirs = vec![r"C:\Users\John\@", r"C:\Users\", r"C:\"];
    assert_eq!(cur_dir._inspect(), dirs);

    cur_dir.set(r"C:\Windows\");
    let dirs = vec![r"C:\Users\John\", r"C:\Windows\@"];
    assert_eq!(cur_dir._inspect(), dirs);

    let dirs = vec![
        r"C:\Users\John\",
        r"C:\Users\",
        r"D:\Test\",
        r"C:\",
        r"C:\Windows\",
    ];
    assert_eq!(cur_dir.notified_dirs(), dirs);
}

#[test]
fn test_recent_dirs() {
    let mut recent_dirs = RecentDirs::new();
    recent_dirs.use_dir(r"C:\Users\John");
    recent_dirs.use_dir(r"C:\Users");
    recent_dirs.use_dir(r"D:\Test");
    recent_dirs.use_dir(r"C:\Users");

    let dirs = vec![r"C:\Users\John", r"D:\Test", r"C:\Users"];
    assert_eq!(recent_dirs._inspect(), dirs);
}

#[test]
fn test_recent_dirs_case_insensitive() {
    let mut recent_dirs = RecentDirs::new();
    recent_dirs.use_dir(r"c:\users");
    recent_dirs.use_dir(r"C:\USERS");
    assert_eq!(recent_dirs._inspect(), vec![r"C:\USERS"]);
    assert_eq!(recent_dirs.count(), 1);
    assert_eq!(recent_dirs.at(0), r"C:\USERS");
    assert_eq!(recent_dirs.at(5), "");
}

#[test]
fn test_back_forward_round_trip() {
    let mut cur_dir = CurDir::new();
    cur_dir.set(r"C:\A\");
    cur_dir.set(r"C:\B\");
    cur_dir.set(r"C:\C\");
    let before = cur_dir.get();
    let back = cur_dir.go_back();
    assert_eq!(back, r"C:\B\");
    let fwd = cur_dir.go_forward();
    assert_eq!(fwd, before);
    assert_eq!(cur_dir.get(), before);
}

#[test]
fn test_back_forward_edges_empty() {
    let mut cur_dir = CurDir::new();
    assert_eq!(cur_dir.go_back(), "");
    assert_eq!(cur_dir.go_forward(), "");

    cur_dir.set(r"C:\Only\");
    assert_eq!(cur_dir.go_back(), "");
    assert_eq!(cur_dir.go_forward(), "");
    assert_eq!(cur_dir.get(), r"C:\Only\");
}

#[test]
fn test_set_same_dir_is_noop() {
    let mut cur_dir = CurDir::new();
    cur_dir.set(r"C:\A\");
    cur_dir.set(r"C:\B\");
    let snapshot = cur_dir._inspect();
    let notes = cur_dir.notified_dirs();

    cur_dir.set(r"C:\B\");
    assert_eq!(cur_dir._inspect(), snapshot);
    assert_eq!(cur_dir.notified_dirs(), notes);
}

#[test]
fn test_branching_discards_forward_entry() {
    let mut cur_dir = CurDir::new();
    cur_dir.set(r"C:\A\");
    cur_dir.set(r"C:\B\");
    cur_dir.go_back();
    cur_dir.set(r"C:\C\");

    assert_eq!(cur_dir._inspect(), vec![r"C:\A\", r"C:\C\@"]);
    assert_eq!(cur_dir.go_forward(), "");
    assert_eq!(cur_dir.get(), r"C:\C\");
}

#[test]
fn test_go_up_at_root() {
    let mut cur_dir = CurDir::new();
    cur_dir.set(r"C:\");
    assert_eq!(cur_dir.go_up(), "");
    assert_eq!(cur_dir.get(), r"C:\");
}
