use space55::tabs::{kind_for_extension, Kind, Pane, Tabs};

#[test]
fn extensions_pick_the_buffer_kind() {
    assert_eq!(kind_for_extension("png"), Kind::Image);
    assert_eq!(kind_for_extension("jpg"), Kind::Image);
    assert_eq!(kind_for_extension("obj"), Kind::Model);
    assert_eq!(kind_for_extension("wav"), Kind::Music);
    assert_eq!(kind_for_extension("blend"), Kind::External);
    assert_eq!(kind_for_extension("pdf"), Kind::External);
    assert_eq!(kind_for_extension("rs"), Kind::Text);
    assert_eq!(kind_for_extension("PNG"), Kind::Text);
    assert_eq!(kind_for_extension(""), Kind::Text);
}

#[test]
fn tabs_cycle_with_wraparound() {
    let mut t = Tabs::new();
    assert_eq!(t.pane(), Pane::Browser);
    let a = t.add();
    let b = t.add();
    let c = t.add();
    assert_eq!((a, b, c), (0, 1, 2));
    assert_eq!(t.current_id(), Some(c));
    assert_eq!(t.pane(), Pane::Buffer);
    t.to_next();
    assert_eq!(t.current_id(), Some(a));
    t.to_prev();
    assert_eq!(t.current_id(), Some(c));
    t.to_prev();
    assert_eq!(t.current_id(), Some(b));
    t.to_nth(0);
    assert_eq!(t.current_id(), Some(a));
    t.to_nth(7);
    assert_eq!(t.current_id(), Some(a));
}

#[test]
fn closing_shows_a_neighbour() {
    let mut t = Tabs::new();
    let a = t.add();
    let b = t.add();
    let c = t.add();
    assert!(!t.close(b, false));
    assert_eq!(t.ids(), &vec![a, b, c]);
    t.to_nth(1);
    assert!(t.close(b, true));
    assert_eq!(t.current_id(), Some(a));
    assert_eq!(t.ids(), &vec![a, c]);
    t.to_nth(0);
    assert!(t.close(a, true));
    assert_eq!(t.current_id(), Some(c));
    assert!(!t.close(a, true));
    assert!(t.close(c, true));
    assert_eq!(t.current_id(), None);
    assert_eq!(t.pane(), Pane::Browser);
    assert_eq!(t.position(c), None);
}
