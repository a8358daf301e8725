use gitgpui_view::tooltip::Tooltip;

#[test]
fn tooltip_shows_after_a_quiet_wait() {
    let mut t: Tooltip<(i32, i32)> = Tooltip::new();
    assert_eq!(t.sync((0, 0)), None);
    t.text = Some("Pull".to_string());
    assert_eq!(t.sync((5, 5)), Some((1, "Pull".to_string())));
    assert_eq!(t.pending_pos, Some((5, 5)));
    assert_eq!(t.sync((6, 6)), None);
    assert!(!t.delay_elapsed(0, "Pull", true));
    assert!(!t.delay_elapsed(1, "Push", true));
    assert!(!t.delay_elapsed(1, "Pull", false));
    assert!(t.delay_elapsed(1, "Pull", true));
    assert_eq!(t.visible_text.as_deref(), Some("Pull"));
    assert_eq!(t.visible_pos, Some((5, 5)));
}

#[test]
fn tooltip_restarts_only_when_the_pointer_leaves() {
    let mut t: Tooltip<(i32, i32)> = Tooltip::new();
    t.text = Some("Pull".to_string());
    t.sync((0, 0));
    assert_eq!(t.maybe_restart((1, 0), true, false), (None, false));
    assert_eq!(t.maybe_restart((9, 0), true, true), (Some((2, "Pull".to_string())), false));
    assert_eq!(t.pending_pos, Some((9, 0)));
    assert!(t.delay_elapsed(2, "Pull", true));
    assert_eq!(t.maybe_restart((10, 0), false, true), (None, false));
    assert_eq!(t.visible_text.as_deref(), Some("Pull"));
    t.text = None;
    assert_eq!(t.maybe_restart((10, 0), false, false), (None, true));
    assert_eq!(t.visible_text, None);
    assert_eq!(t.maybe_restart((10, 0), false, false), (None, false));
}

#[test]
fn tooltip_text_change_hides_it_and_bumps_the_wait() {
    let mut t: Tooltip<(i32, i32)> = Tooltip::new();
    t.text = Some("a".to_string());
    t.sync((0, 0));
    assert!(t.delay_elapsed(1, "a", true));
    t.text = None;
    assert_eq!(t.sync((0, 0)), None);
    assert_eq!(t.delay_seq, 2);
    assert_eq!(t.visible_text, None);
    assert_eq!(t.pending_pos, None);
    assert_eq!(t.candidate_last, None);
}
