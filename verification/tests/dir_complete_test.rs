use slickcmd::dir_complete::{
    CompletionTracker, CompletionOutcome, completion_paths, completion_items,
    sort_completion_items,
};

#[test]
fn test_superseded_result_never_updates_popup() {
    let mut tracker = CompletionTracker::new();
    let old_id = tracker.issue();
    let new_id = tracker.issue();
    assert!(new_id > old_id);

    // the superseded result arrives late: it must change nothing
    let stale = tracker.deliver(old_id, vec![String::from("C:\\Users")]);
    assert!(matches!(stale, CompletionOutcome::Ignore));
    assert!(!tracker.is_current(old_id));

    // the latest result drives the popup
    let empty = tracker.deliver(new_id, vec![]);
    assert!(matches!(empty, CompletionOutcome::HidePopup));
    let shown = tracker.deliver(new_id, vec![String::from("C:\\Users")]);
    match shown {
        CompletionOutcome::ShowPopup(items) => assert_eq!(items, vec![String::from("C:\\Users")]),
        _ => panic!("the current request had items"),
    }
}

#[test]
fn test_completion_paths_relative() {
    let (pattern, prefix) = completion_paths(r"C:\Work", r"src\ma");
    assert_eq!(pattern, r"C:\Work\src\ma*");
    assert_eq!(prefix, r"src\");

    // a current directory already ending in a separator is kept as is
    let (pattern, prefix) = completion_paths(r"C:\Work\", "ma");
    assert_eq!(pattern, r"C:\Work\ma*");
    assert_eq!(prefix, "");
}

#[test]
fn test_completion_paths_drive_qualified() {
    let (pattern, prefix) = completion_paths(r"C:\Work", r"D:\Da");
    assert_eq!(pattern, r"D:\Da*");
    assert_eq!(prefix, r"D:\");

    // a bare drive gets its root separator
    let (pattern, prefix) = completion_paths(r"C:\Work", "D:");
    assert_eq!(pattern, r"D:\*");
    assert_eq!(prefix, r"D:\");
}

#[test]
fn test_completion_items_filtering() {
    let entries = vec![
        (String::from("."), true),
        (String::from(".."), true),
        (String::from("alpha"), true),
        (String::from("notes.txt"), false),
        (String::from("Beta"), true),
    ];
    let items = completion_items(r"src\", &entries);
    assert_eq!(items, vec![String::from(r"src\alpha"), String::from(r"src\Beta")]);
}

#[test]
fn test_sort_case_insensitive_stable() {
    let items = vec![
        String::from("delta"),
        String::from("Alpha"),
        String::from("charlie"),
        String::from("alpha"),
        String::from("Bravo"),
    ];
    let sorted = sort_completion_items(&items);
    // case-insensitive order; equal keys tie-break on original spelling
    assert_eq!(
        sorted,
        vec![
            String::from("Alpha"),
            String::from("alpha"),
            String::from("Bravo"),
            String::from("charlie"),
            String::from("delta"),
        ]
    );
}
