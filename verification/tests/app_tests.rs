use speedscope_tui::app::{default_file_filter_list, App, DataView};
use speedscope_tui::control::{Action, Event, EventResponse, KeyCode, KeyEvent, KeyEventKind, CONTROL};
use speedscope_tui::scrollbar::ScrollbarState;
use speedscope_tui::speedscope::{Data, File, Frame, Profile, ProfileType, ProfileView, Shared, Stack, ValueUnit};

fn frame(name: &str, file: &str) -> Frame {
    Frame { name: name.to_string(), file: Some(file.to_string()), line: Some(1), col: Some(0) }
}

fn stack(len: usize) -> Stack {
    Stack { frames: (0..len).map(|i| frame(&format!("f{}", i), "a.py")).collect() }
}

/// A view over stacks of the given lengths, first frame of first stack selected.
fn view_of(lens: &[usize]) -> DataView {
    DataView {
        profile: Profile {
            profile_type: ProfileType::sampled,
            name: "p".to_string(),
            unit: ValueUnit::NoUnit,
            start_value: 0,
            end_value: 0,
            stacks: lens.iter().map(|&l| stack(l)).collect(),
            weights: vec![],
        },
        active_stack_index: 0,
        active_frame_index: 0,
        scrollbar_state: ScrollbarState::default(),
        vertical_scroll: 0,
        expand_code: false,
    }
}

fn key(code: KeyCode) -> Event {
    Event::Key(KeyEvent { code, modifiers: 0, kind: KeyEventKind::Press })
}

#[test]
fn prev_stack_at_top_does_nothing() {
    let mut v = view_of(&[3, 1]);
    v.active_frame_index = 2;
    v.prev_stack();
    assert_eq!(v.active_stack_index, 0);
    assert_eq!(v.active_frame_index, 2);
    assert_eq!(v.vertical_scroll, 0);
}

#[test]
fn next_stack_moves_and_clamps_frame() {
    let mut v = view_of(&[3, 2, 4]);
    v.active_frame_index = 2;
    v.next_stack();
    assert_eq!(v.active_stack_index, 1);
    assert_eq!(v.vertical_scroll, 1);
    assert_eq!(v.scrollbar_state.position, 1);
    assert_eq!(v.active_frame_index, 1);
    v.next_stack();
    assert_eq!(v.active_stack_index, 2);
    assert_eq!(v.active_frame_index, 1);
    v.next_stack();
    assert_eq!(v.active_stack_index, 2);
    assert_eq!(v.vertical_scroll, 2);
}

#[test]
fn next_then_prev_stack_returns() {
    let mut v = view_of(&[3, 5]);
    v.active_frame_index = 1;
    v.next_stack();
    v.prev_stack();
    assert_eq!(v.active_stack_index, 0);
    assert_eq!(v.vertical_scroll, 0);
    assert_eq!(v.scrollbar_state.position, 0);
    assert_eq!(v.active_frame_index, 1);
}

#[test]
fn frame_moves_stop_at_edges_and_undo() {
    let mut v = view_of(&[3]);
    v.prev_frame();
    assert_eq!(v.active_frame_index, 0);
    v.next_frame();
    v.next_frame();
    assert_eq!(v.active_frame_index, 2);
    v.next_frame();
    assert_eq!(v.active_frame_index, 2);
    v.prev_frame();
    assert_eq!(v.active_frame_index, 1);
    v.next_frame();
    assert_eq!(v.active_frame_index, 2);
}

#[test]
fn toggle_twice_restores() {
    let mut v = view_of(&[1]);
    v.toggle_expand();
    assert!(v.expand_code);
    v.toggle_expand();
    assert!(!v.expand_code);
}

#[test]
fn active_stack_and_frame() {
    let mut v = view_of(&[1, 3]);
    v.next_stack();
    v.next_frame();
    assert_eq!(v.active_stack().len(), 3);
    assert_eq!(v.active_frame().name, "f1");
}

#[test]
fn default_filters_are_the_import_machinery() {
    let f = default_file_filter_list();
    assert_eq!(
        f,
        vec![
            "<frozen importlib._bootstrap_external>".to_string(),
            "<frozen importlib._bootstrap>".to_string(),
            "<string>".to_string(),
        ]
    );
}

fn data_with_filtered_frames() -> Data {
    Data::from_file(File {
        schema: String::new(),
        profiles: vec![ProfileView {
            profile_type: ProfileType::evented,
            name: "MainThread".to_string(),
            unit: ValueUnit::Bytes,
            start_value: 0,
            end_value: 0,
            samples: vec![vec![0, 1], vec![1], vec![2, 0]],
            weights: vec![],
        }],
        shared: Shared {
            frames: vec![
                frame("main", "app.py"),
                frame("_find_and_load", "<frozen importlib._bootstrap>"),
                frame("<lambda>", "<string>"),
            ],
        },
    })
}

#[test]
fn app_new_filters_default_files() {
    let app = App::new(data_with_filtered_frames());
    assert_eq!(app.view.profile.name, "MainThread");
    assert_eq!(app.view.profile.len(), 2);
    assert_eq!(app.view.profile.stacks[0].frames.len(), 1);
    assert_eq!(app.view.profile.stacks[0].frames[0].name, "main");
    assert_eq!(app.view.profile.stacks[1].frames[0].name, "main");
    assert_eq!(app.view.active_stack_index, 0);
    assert_eq!(app.view.active_frame_index, 0);
    assert_eq!(app.view.vertical_scroll, 0);
    assert!(!app.view.expand_code);
    assert_eq!(app.view.scrollbar_state, ScrollbarState::new(0));
    assert_eq!(app.file_filters.len(), 3);
    assert_eq!(app.data.len(), 1);
}

#[test]
fn handle_event_answers_and_moves() {
    let mut app = App::new(data_with_filtered_frames());
    assert_eq!(app.handle_event(&key(KeyCode::Char('j'))), EventResponse::Consumed);
    assert_eq!(app.view.active_stack_index, 1);
    assert_eq!(app.handle_event(&key(KeyCode::Down)), EventResponse::Consumed);
    assert_eq!(app.view.active_stack_index, 1);
    assert_eq!(app.handle_event(&key(KeyCode::Enter)), EventResponse::Consumed);
    assert!(app.view.expand_code);
    assert_eq!(app.handle_event(&key(KeyCode::Other)), EventResponse::Ignored);
    assert_eq!(app.handle_event(&Event::Other), EventResponse::Ignored);
    assert_eq!(app.handle_event(&key(KeyCode::Up)), EventResponse::Consumed);
    assert_eq!(app.view.active_stack_index, 0);
    assert_eq!(app.handle_event(&key(KeyCode::Char('q'))), EventResponse::Halt);
    let ctrl_c = Event::Key(KeyEvent { code: KeyCode::Char('c'), modifiers: CONTROL, kind: KeyEventKind::Press });
    assert_eq!(app.handle_event(&ctrl_c), EventResponse::Halt);
    assert_eq!(app.view.active_stack_index, 0);
    assert!(app.view.expand_code);
}

#[test]
fn scrollbar_builders_set_one_field() {
    let s = ScrollbarState::new(7).position(3);
    assert_eq!(s, ScrollbarState { content_length: 7, position: 3, viewport_content_length: 0 });
    assert_eq!(s.content_length(9).content_length, 9);
    assert_eq!(s.content_length(9).position, 3);
    assert_eq!(ScrollbarState::default(), ScrollbarState::new(0));
}

#[test]
fn allows_tells_which_moves_can_be_taken() {
    let empty = view_of(&[]);
    assert!(!empty.allows(Action::NextStack));
    assert!(!empty.allows(Action::NextFrame));
    assert!(empty.allows(Action::PrevStack));
    assert!(empty.allows(Action::PrevFrame));
    assert!(empty.allows(Action::Quit));
    let v = view_of(&[2, 0]);
    assert!(!v.allows(Action::NextStack));
    assert!(v.allows(Action::NextFrame));
    let w = view_of(&[2, 1]);
    assert!(w.allows(Action::NextStack));
}
