use speedscope_tui::control::{
    action_for, is_ctrlc, Action, Event, KeyCode, KeyEvent, KeyEventKind, CONTROL,
};

fn key(code: KeyCode, modifiers: u8, kind: KeyEventKind) -> Event {
    Event::Key(KeyEvent { code, modifiers, kind })
}

#[test]
fn ctrl_c_press_is_ctrlc() {
    assert!(is_ctrlc(&key(KeyCode::Char('c'), CONTROL, KeyEventKind::Press)));
}

#[test]
fn other_c_events_are_not_ctrlc() {
    assert!(!is_ctrlc(&key(KeyCode::Char('c'), CONTROL, KeyEventKind::Release)));
    assert!(!is_ctrlc(&key(KeyCode::Char('c'), CONTROL | 1, KeyEventKind::Press)));
    assert!(!is_ctrlc(&key(KeyCode::Char('c'), 0, KeyEventKind::Press)));
    assert!(!is_ctrlc(&key(KeyCode::Char('C'), CONTROL, KeyEventKind::Press)));
    assert!(!is_ctrlc(&Event::Other));
}

#[test]
fn keys_map_to_actions() {
    let press = |c| key(c, 0, KeyEventKind::Press);
    assert_eq!(action_for(&key(KeyCode::Char('c'), CONTROL, KeyEventKind::Press)), Action::Quit);
    assert_eq!(action_for(&press(KeyCode::Char('q'))), Action::Quit);
    assert_eq!(action_for(&key(KeyCode::Char('q'), CONTROL, KeyEventKind::Release)), Action::Quit);
    assert_eq!(action_for(&press(KeyCode::Enter)), Action::ToggleExpand);
    assert_eq!(action_for(&press(KeyCode::Down)), Action::NextStack);
    assert_eq!(action_for(&press(KeyCode::Char('j'))), Action::NextStack);
    assert_eq!(action_for(&press(KeyCode::Up)), Action::PrevStack);
    assert_eq!(action_for(&press(KeyCode::Char('k'))), Action::PrevStack);
    assert_eq!(action_for(&press(KeyCode::Left)), Action::PrevFrame);
    assert_eq!(action_for(&press(KeyCode::Char('h'))), Action::PrevFrame);
    assert_eq!(action_for(&press(KeyCode::Right)), Action::NextFrame);
    assert_eq!(action_for(&press(KeyCode::Char('l'))), Action::NextFrame);
    assert_eq!(action_for(&press(KeyCode::Char('c'))), Action::Nothing);
    assert_eq!(action_for(&press(KeyCode::Other)), Action::Nothing);
    assert_eq!(action_for(&Event::Other), Action::Nothing);
}
