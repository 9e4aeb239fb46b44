use speedscope_tui::app::{App, DataView};
use speedscope_tui::scrollbar::ScrollbarState;
use speedscope_tui::speedscope::{Data, Frame, Profile, ProfileType, Stack, ValueUnit};
use speedscope_tui::ui::{code_window, ui, Color, Line};

fn frame(file: Option<&str>, line: Option<usize>) -> Frame {
    Frame { name: "f".to_string(), file: file.map(|f| f.to_string()), line, col: None }
}

fn app_with(stacks: Vec<Vec<Frame>>) -> App {
    let profile = Profile {
        profile_type: ProfileType::sampled,
        name: "p".to_string(),
        unit: ValueUnit::Milliseconds,
        start_value: 0,
        end_value: 0,
        stacks: stacks.into_iter().map(|frames| Stack { frames }).collect(),
        weights: vec![],
    };
    App {
        data: Data::new(),
        view: DataView {
            profile,
            active_stack_index: 0,
            active_frame_index: 0,
            scrollbar_state: ScrollbarState::default(),
            vertical_scroll: 0,
            expand_code: false,
        },
        file_filters: vec![],
    }
}

fn spans(line: &Line) -> Vec<(String, Color)> {
    line.spans.iter().map(|s| (s.content.clone(), s.color)).collect()
}

#[test]
fn code_window_centres_on_the_line() {
    assert_eq!(code_window(0), (0, 5));
    assert_eq!(code_window(1), (0, 5));
    assert_eq!(code_window(3), (0, 5));
    assert_eq!(code_window(10), (7, 5));
}

#[test]
fn stack_rows_mark_every_frame() {
    let mut app = app_with(vec![
        vec![frame(Some("a.py"), None), frame(Some("b.py"), None), frame(Some("c.py"), None)],
        vec![frame(Some("a.py"), None), frame(Some("b.py"), None)],
    ]);
    let screen = ui(&mut app, &vec![]);
    assert_eq!(screen.stack_lines.len(), 2);
    assert_eq!(
        spans(&screen.stack_lines[0]),
        vec![("x".to_string(), Color::Green), ("xx".to_string(), Color::Yellow)]
    );
    assert_eq!(spans(&screen.stack_lines[1]), vec![("xx".to_string(), Color::White)]);
    assert_eq!(app.view.scrollbar_state.content_length, 2);
    assert_eq!(screen.scroll, 0);

    app.view.active_frame_index = 1;
    let screen = ui(&mut app, &vec![]);
    assert_eq!(
        spans(&screen.stack_lines[0]),
        vec![
            ("x".to_string(), Color::Yellow),
            ("x".to_string(), Color::Green),
            ("x".to_string(), Color::Yellow)
        ]
    );
    app.view.active_frame_index = 2;
    let screen = ui(&mut app, &vec![]);
    assert_eq!(
        spans(&screen.stack_lines[0]),
        vec![
            ("xx".to_string(), Color::Yellow),
            ("x".to_string(), Color::Green),
            ("".to_string(), Color::Yellow)
        ]
    );
}

#[test]
fn file_panel_lists_files_and_highlights_selected() {
    let mut app = app_with(vec![vec![frame(Some("a.py"), Some(4)), frame(None, None), frame(Some("c.py"), None)]]);
    let screen = ui(&mut app, &vec![]);
    let lines: Vec<_> = screen.file_lines.iter().map(spans).collect();
    assert_eq!(
        lines,
        vec![vec![("a.py".to_string(), Color::Red)], vec![("c.py".to_string(), Color::White)]]
    );
}

#[test]
fn file_panel_shows_source_when_expanded() {
    let mut app = app_with(vec![vec![frame(Some("a.py"), Some(4)), frame(Some("c.py"), None)]]);
    app.view.expand_code = true;
    let code: Vec<String> = vec!["one", "two", "three", "four", "five"].into_iter().map(String::from).collect();
    let screen = ui(&mut app, &code);
    let lines: Vec<_> = screen.file_lines.iter().map(spans).collect();
    assert_eq!(lines.len(), 7);
    assert_eq!(lines[0], vec![("a.py".to_string(), Color::Red)]);
    assert_eq!(lines[1], vec![("one".to_string(), Color::Yellow)]);
    assert_eq!(lines[3], vec![("three".to_string(), Color::Green)]);
    assert_eq!(lines[5], vec![("five".to_string(), Color::Yellow)]);
    assert_eq!(lines[6], vec![("c.py".to_string(), Color::White)]);

    app.view.active_frame_index = 1;
    let screen = ui(&mut app, &code);
    let lines: Vec<_> = screen.file_lines.iter().map(spans).collect();
    assert_eq!(
        lines,
        vec![
            vec![("a.py".to_string(), Color::White)],
            vec![("c.py".to_string(), Color::Red)],
            vec![("No line information".to_string(), Color::Red)],
        ]
    );
}

#[test]
fn scroll_offset_is_truncated_to_sixteen_bits() {
    let mut app = app_with(vec![vec![frame(Some("a.py"), None)]]);
    app.view.vertical_scroll = 70_000;
    let screen = ui(&mut app, &vec![]);
    assert_eq!(screen.scroll, 4464);
}
