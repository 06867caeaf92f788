use tellme::tui::{Browser, Item, ItemStyle, Key, State};

#[test]
fn open_then_back_returns_to_the_list() {
    let s = State::initial();
    let (s1, quit1) = s.step(Key::Open, 3);
    assert!(s1.expanded && !quit1);
    let (s2, quit2) = s1.step(Key::Back, 3);
    assert!(!s2.expanded && !quit2);
    assert_eq!(s2.selected, s.selected);
    let (_, quit3) = s2.step(Key::Back, 3);
    assert!(quit3);
}

#[test]
fn selection_stays_in_the_list() {
    let mut s = State::initial();
    for _ in 0..10 {
        s = s.step(Key::Down, 2).0;
    }
    assert_eq!(s.selected, 2);
    s = s.step(Key::Up, 2).0;
    assert_eq!(s.selected, 1);
    s = s.step(Key::Home, 2).0;
    assert_eq!(s.selected, 0);
    s = s.step(Key::End, 2).0;
    assert_eq!(s.selected, 2);
    assert_eq!(s.step(Key::Other, 2), (s, false));
}

#[test]
fn items_and_browser_keep_their_parts() {
    let it = Item::new("a".to_string(), "b".to_string()).styled(ItemStyle::Good);
    assert_eq!(it.style, ItemStyle::Good);
    assert_eq!(it.label, "a");
    let b = Browser::new("t".to_string(), vec![it]);
    assert_eq!(b.items.len(), 1);
    assert_eq!(ItemStyle::default(), ItemStyle::Plain);
}
