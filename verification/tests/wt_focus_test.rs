use slickcmd::wt_focus::{
    PaneRegistry, ResolveStep, FocusEvent, FocusStep, focus_step, marker_chars, choose_marker,
    probed_title, count_trailing, resolve_probe_readback, ends_with_marker, rt_id_from_bytes,
    Bounds, pane_client_bounds,
};

#[test]
fn test_rt_id_hex_encoding() {
    let bytes = vec![0x00u8, 0xab, 0xff, 0x2a];
    assert_eq!(rt_id_from_bytes(&bytes), "00abff2a");
    let empty: Vec<u8> = vec![];
    assert_eq!(rt_id_from_bytes(&empty), "");
}

#[test]
fn test_registry_lookup_and_register() {
    let mut reg = PaneRegistry::new();
    assert_eq!(reg.len(), 0);
    assert!(reg.find("aa").is_none());

    reg.register("aa", 1001);
    reg.register("bb", 1002);
    assert_eq!(reg.len(), 2);
    assert_eq!(reg.find("aa"), Some(0));
    assert_eq!(reg.find("bb"), Some(1));
    assert_eq!(reg.handle_at(1), 1002);
}

#[test]
fn test_resolve_step_reuses_live_mapping() {
    let mut reg = PaneRegistry::new();
    reg.register("aa", 1001);
    match reg.resolve_step("aa", true) {
        ResolveStep::UseMapped(h) => assert_eq!(h, 1001),
        ResolveStep::Probe => panic!("the mapping was live"),
    }
    // a dead mapping is dropped and probing begins
    assert!(matches!(reg.resolve_step("aa", false), ResolveStep::Probe));
    assert_eq!(reg.len(), 0);
    // an unknown runtime id probes without touching the registry
    assert!(matches!(reg.resolve_step("cc", true), ResolveStep::Probe));
}

#[test]
fn test_registry_prune_keeps_live_entries() {
    let mut reg = PaneRegistry::new();
    reg.register("aa", 1);
    reg.register("bb", 2);
    reg.register("cc", 3);
    reg.prune(&vec![true, false, true]);
    assert_eq!(reg.len(), 2);
    assert_eq!(reg.find("aa"), Some(0));
    assert!(reg.find("bb").is_none());
    assert_eq!(reg.find("cc"), Some(1));
}

#[test]
fn test_title_probe_disambiguation() {
    // three unregistered panes with a marker-free set of titles
    let titles = vec![
        String::from("cmd - one"),
        String::from("cmd - two"),
        String::from("cmd - three"),
    ];
    let markers = marker_chars();
    let m = choose_marker(&titles, &markers).unwrap();
    assert_eq!(m, '\u{00A0}');

    // each pane's title gets its 1-based position in markers appended
    let probed: Vec<String> = (0..titles.len())
        .map(|i| probed_title(&titles[i], m, i + 1))
        .collect();

    // the read-back identifies each pane by its marker count,
    // and stripping that count restores the original title exactly
    for (i, p) in probed.iter().enumerate() {
        let count = count_trailing(p, m);
        assert_eq!(count, i + 1);
        assert_eq!(resolve_probe_readback(p, m, titles.len()), Some(i));
        let restored: String = p.chars().take(p.chars().count() - count).collect();
        assert_eq!(&restored, &titles[i]);
    }

    // after the protocol, registering the resolved pane adds exactly one mapping
    let mut reg = PaneRegistry::new();
    let before = reg.len();
    reg.register("deadbeef", 4242);
    assert_eq!(reg.len(), before + 1);
    assert_eq!(reg.find("deadbeef"), Some(0));
    assert_eq!(reg.handle_at(0), 4242);
}

#[test]
fn test_choose_marker_skips_conflicts() {
    // the first marker already ends one title: the second is chosen
    let titles = vec![String::from("conflicted\u{00A0}"), String::from("clean")];
    let markers = marker_chars();
    assert_eq!(choose_marker(&titles, &markers).unwrap(), '\u{00AD}');
    assert!(ends_with_marker("conflicted\u{00A0}", '\u{00A0}'));

    // every marker conflicted: the disambiguation gives up
    let titles = vec![
        String::from("a\u{00A0}"),
        String::from("b\u{00AD}"),
        String::from("c\u{200A}"),
    ];
    assert!(choose_marker(&titles, &markers).is_none());
}

#[test]
fn test_probe_readback_edges() {
    // no markers read back: unresolved
    assert_eq!(resolve_probe_readback("title", '\u{00A0}', 3), None);
    // more markers than panes: unresolved
    let over = probed_title("t", '\u{00A0}', 5);
    assert_eq!(resolve_probe_readback(&over, '\u{00A0}', 3), None);
}

#[test]
fn test_focus_event_dispatch() {
    assert!(matches!(focus_step(&FocusEvent::Tick), FocusStep::CheckFocus));
    assert!(matches!(focus_step(&FocusEvent::FocusChanged), FocusStep::CheckFocus));
    assert!(matches!(focus_step(&FocusEvent::MoveSizeStart), FocusStep::HideOverlays));
    assert!(matches!(focus_step(&FocusEvent::MoveSizeEnd), FocusStep::RefreshAndCheck));
    assert!(matches!(focus_step(&FocusEvent::Quit), FocusStep::Exit));
}

#[test]
fn test_pane_client_bounds() {
    let el = Bounds { left: 100, top: 200, right: 500, bottom: 400 };
    let r = pane_client_bounds(el, 8, 16, 40, 60);
    assert_eq!(r, Bounds { left: 68, top: 148, right: 436, bottom: 332 });
}
