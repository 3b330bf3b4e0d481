use frugal::dashboard::{on_key, tab_titles, DashboardState, Key, KeyAction, TAB_COUNT};

fn start() -> DashboardState {
    DashboardState { tab: 0, show_help: false }
}

#[test]
fn arrows_cycle_through_screens() {
    let (s, a) = on_key(start(), Key::Left);
    assert_eq!(s.tab, TAB_COUNT - 1);
    assert!(a == KeyAction::Continue);
    let (s, _) = on_key(s, Key::Right);
    assert_eq!(s.tab, 0);
    let mut s = start();
    for _ in 0..TAB_COUNT {
        s = on_key(s, Key::Tab).0;
    }
    assert_eq!(s.tab, 0);
    assert_eq!(tab_titles().len(), TAB_COUNT);
}

#[test]
fn shortcut_keys() {
    assert_eq!(on_key(start(), Key::Char('b')).0.tab, 2);
    assert_eq!(on_key(start(), Key::Char('p')).0.tab, 3);
    assert_eq!(on_key(start(), Key::Char('c')).0.tab, 4);
    assert!(on_key(start(), Key::Char('?')).0.show_help);
    assert!(on_key(start(), Key::Char('q')).1 == KeyAction::Quit);
    assert!(on_key(start(), Key::Esc).1 == KeyAction::Quit);
    assert!(on_key(start(), Key::Char('r')).1 == KeyAction::Refresh);
    assert!(on_key(start(), Key::Char('z')) == (start(), KeyAction::Continue));
    assert!(on_key(start(), Key::Other).1 == KeyAction::Continue);
}
