//! The text that the viewer draws: one row of marks per stack, and the
//! source files of the selected stack with, on demand, the source around
//! the selected frame.

use vstd::prelude::*;

use crate::app::{App, DataView};
use crate::scrollbar::ScrollbarState;
use crate::speedscope::{Frame, strings_view};

verus! {

/// The colours that the viewer draws text in.
#[derive(Debug, Clone, Copy, PartialEq, Eq, Structural)]
pub enum Color {
    Red,
    Green,
    Yellow,
    White,
}

/// A piece of text in one colour.
#[derive(Debug)]
pub struct Span {
    pub content: String,
    pub color: Color,
}

/// A line of text: pieces drawn one after another.
#[derive(Debug)]
pub struct Line {
    pub spans: Vec<Span>,
}

/// A line as a value: its pieces, each a text and a colour.
pub type LineModel = Seq<(Seq<char>, Color)>;

impl View for Span {
    type V = (Seq<char>, Color);

    open spec fn view(&self) -> (Seq<char>, Color) {
        (self.content@, self.color)
    }
}

impl View for Line {
    type V = LineModel;

    open spec fn view(&self) -> LineModel {
        self.spans@.map_values(|s: Span| s@)
    }
}

/// The lines, each as a value.
pub open spec fn lines_view(lines: Seq<Line>) -> Seq<LineModel> {
    lines.map_values(|l: Line| l@)
}

/// What the viewer draws: the stack rows and how far they are scrolled,
/// and the lines of the file panel.
#[derive(Debug)]
pub struct Screen {
    pub stack_lines: Vec<Line>,
    pub scroll: u16,
    pub file_lines: Vec<Line>,
}

/// How many lines of source are shown on each side of the selected line.
pub const CONTEXT_LINES: usize = 2;

/// `n` marks, one per frame.
pub open spec fn marks(n: int) -> Seq<char> {
    Seq::new(n as nat, |_i: int| 'x')
}

/// The row of a stack of `len` frames: all white, or, for the selected
/// stack, the selected frame's mark in green between yellow marks.
pub open spec fn stack_row(len: int, selected: Option<int>) -> LineModel {
    match selected {
        None => seq![(marks(len), Color::White)],
        Some(frame) => if frame == 0 {
            seq![(marks(1), Color::Green), (marks(len - 1), Color::Yellow)]
        } else {
            seq![(marks(frame), Color::Yellow), (marks(1), Color::Green), (marks(len - frame - 1), Color::Yellow)]
        },
    }
}

/// One row per stack of the view, top to bottom.
pub open spec fn stack_rows(v: DataView) -> Seq<LineModel> {
    Seq::new(
        v.stack_count() as nat,
        |i: int|
            stack_row(
                v.stack_len(i),
                if i == v.active_stack_index {
                    Some(v.active_frame_index as int)
                } else {
                    None
                },
            ),
    )
}

/// The source lines around the selected frame: the middle one green, the
/// others yellow.
pub open spec fn code_rows(code: Seq<Seq<char>>) -> Seq<LineModel> {
    Seq::new(
        code.len(),
        |i: int|
            seq![
                (code[i], if i == CONTEXT_LINES {
                    Color::Green
                } else {
                    Color::Yellow
                }),
            ],
    )
}

/// The lines that one frame adds to the file panel: none without a source
/// file; its file in white; or, for the selected frame, its file in red,
/// followed, when the source is shown, by the source lines or a note that
/// the frame has no line.
pub open spec fn frame_rows(frame: Frame, selected: bool, expand: bool, code: Seq<Seq<char>>) -> Seq<LineModel> {
    match frame.file {
        None => seq![],
        Some(file) => if selected {
            seq![seq![(file@, Color::Red)]] + if expand {
                match frame.line {
                    Some(_) => code_rows(code),
                    None => seq![seq![("No line information"@, Color::Red)]],
                }
            } else {
                seq![]
            }
        } else {
            seq![seq![(file@, Color::White)]]
        },
    }
}

/// The file panel for a stack whose frame `selected` is selected.
pub open spec fn file_rows(frames: Seq<Frame>, selected: int, expand: bool, code: Seq<Seq<char>>) -> Seq<
    LineModel,
>
    decreases frames.len(),
{
    if frames.len() == 0 {
        seq![]
    } else {
        file_rows(frames.drop_last(), selected, expand, code) + frame_rows(
            frames.last(),
            frames.len() - 1 == selected,
            expand,
            code,
        )
    }
}

/// The lines of the source file to show around 1-based line `line`: the
/// index of the first one and how many.
pub open spec fn code_window_of(line: int) -> (int, int) {
    (
        if line + 1 > CONTEXT_LINES {
            line - CONTEXT_LINES - 1
        } else {
            0
        },
        CONTEXT_LINES * 2 + 1,
    )
}

/// Where to read the source shown around line `line`: how many lines of
/// the file to skip, and how many to take after them.
pub fn code_window(line: usize) -> (window: (usize, usize))
    requires
        line + 1 <= usize::MAX,
        line + 1 > CONTEXT_LINES ==> line >= CONTEXT_LINES + 1,
    ensures
        window.0 == code_window_of(line as int).0,
        window.1 == code_window_of(line as int).1,
{
    let start = if line + 1 > CONTEXT_LINES {
        line - CONTEXT_LINES - 1
    } else {
        0
    };
    (start, CONTEXT_LINES * 2 + 1)
}

/// A string of `n` marks.
fn marks_string(n: usize) -> (s: String)
    ensures
        s@ == marks(n as int),
{
    let mut s = String::new();
    let mut i: usize = 0;
    proof {
        reveal_strlit("x");
    }
    while i < n
        invariant
            i <= n,
            s@ == marks(i as int),
            "x"@ == seq!['x'],
        decreases n - i,
    {
        s.append("x");
        assert(s@ =~= marks(i + 1));
        i = i + 1;
    }
    s
}

/// A line of one piece.
fn single(content: String, color: Color) -> (line: Line)
    ensures
        line@ == seq![(content@, color)],
{
    let mut spans: Vec<Span> = Vec::new();
    spans.push(Span { content, color });
    assert(line_of(spans@) =~= seq![(content@, color)]);
    Line { spans }
}

spec fn line_of(spans: Seq<Span>) -> LineModel {
    spans.map_values(|s: Span| s@)
}

/// The row of marks of a stack of `len` frames.
fn stack_line(len: usize, selected: Option<usize>) -> (line: Line)
    requires
        selected matches Some(f) ==> f < len,
    ensures
        line@ == stack_row(
            len as int,
            match selected {
                Some(f) => Some(f as int),
                None => None,
            },
        ),
{
    let mut spans: Vec<Span> = Vec::new();
    match selected {
        None => {
            spans.push(Span { content: marks_string(len), color: Color::White });
        },
        Some(frame) => {
            if frame == 0 {
                spans.push(Span { content: marks_string(1), color: Color::Green });
                spans.push(Span { content: marks_string(len - 1), color: Color::Yellow });
            } else {
                spans.push(Span { content: marks_string(frame), color: Color::Yellow });
                spans.push(Span { content: marks_string(1), color: Color::Green });
                spans.push(Span { content: marks_string(len - frame - 1), color: Color::Yellow });
            }
        },
    }
    let line = Line { spans };
    assert(line@ =~= stack_row(
        len as int,
        match selected {
            Some(f) => Some(f as int),
            None => None,
        },
    ));
    line
}


/// The lines of the file panel for the frames of a stack.
fn file_lines(frames: &Vec<Frame>, selected: usize, expand: bool, code: &Vec<String>) -> (lines: Vec<Line>)
    ensures
        lines_view(lines@) == file_rows(frames@, selected as int, expand, strings_view(code@)),
{
    let ghost code_view = strings_view(code@);
    let mut lines: Vec<Line> = Vec::new();
    let mut i: usize = 0;
    while i < frames.len()
        invariant
            i <= frames.len(),
            code_view == strings_view(code@),
            lines_view(lines@) == file_rows(frames@.take(i as int), selected as int, expand, code_view),
        decreases frames.len() - i,
    {
        let ghost before = lines_view(lines@);
        let frame = &frames[i];
        if let Some(file) = &frame.file {
            if i == selected {
                lines.push(single(file.clone(), Color::Red));
                if expand {
                    match frame.line {
                        Some(_) => {
                            let mut k: usize = 0;
                            while k < code.len()
                                invariant
                                    k <= code.len(),
                                    code_view == strings_view(code@),
                                    lines_view(lines@) == before + seq![seq![(file@, Color::Red)]]
                                        + code_rows(code_view).take(k as int),
                                decreases code.len() - k,
                            {
                                let color = if k == CONTEXT_LINES {
                                    Color::Green
                                } else {
                                    Color::Yellow
                                };
                                let ghost prev = lines_view(lines@);
                                lines.push(single(code[k].clone(), color));
                                assert(lines_view(lines@) =~= prev.push(seq![(code_view[k as int], color)]));
                                assert(code_rows(code_view).take(k + 1) =~= code_rows(code_view).take(
                                    k as int,
                                ).push(seq![(code_view[k as int], color)]));
                                k = k + 1;
                            }
                            assert(code_rows(code_view).take(code.len() as int) =~= code_rows(code_view));
                        },
                        None => {
                            lines.push(single(String::from_str("No line information"), Color::Red));
                        },
                    }
                }
            } else {
                lines.push(single(file.clone(), Color::White));
            }
        }
        proof {
            assert(frames@.take(i + 1).drop_last() =~= frames@.take(i as int));
            assert(frames@.take(i + 1).last() == *frame);
            assert(lines_view(lines@) =~= before + frame_rows(*frame, i == selected, expand, code_view));
        }
        i = i + 1;
    }
    assert(frames@.take(frames.len() as int) =~= frames@);
    lines
}

/// Computes what the viewer draws and points the scrollbar at all stacks:
/// the rows of marks, scrolled by the view's scroll position, and the file
/// panel of the selected stack, in which the selected frame shows `code`,
/// the source read around its line, when the source is shown.
pub fn ui(app: &mut App, code: &Vec<String>) -> (screen: Screen)
    requires
        old(app).view.active_stack_index < old(app).view.stack_count(),
        old(app).view.active_frame_index < old(app).view.stack_len(old(app).view.active_stack_index as int),
    ensures
        final(app).view == (DataView {
            scrollbar_state: ScrollbarState {
                content_length: old(app).view.profile.stacks.len(),
                ..old(app).view.scrollbar_state
            },
            ..old(app).view
        }),
        final(app).data == old(app).data,
        final(app).file_filters == old(app).file_filters,
        lines_view(screen.stack_lines@) == stack_rows(old(app).view),
        screen.scroll == old(app).view.vertical_scroll as u16,
        lines_view(screen.file_lines@) == file_rows(
            old(app).view.profile.stacks@[old(app).view.active_stack_index as int]@,
            old(app).view.active_frame_index as int,
            old(app).view.expand_code,
            strings_view(code@),
        ),
{
    let view = &app.view;
    let active_stack = view.active_stack();
    let file_lines = file_lines(&active_stack.frames, view.active_frame_index, view.expand_code, code);

    let stacks = &view.profile.stacks;
    let mut stack_lines: Vec<Line> = Vec::new();
    let mut i: usize = 0;
    while i < stacks.len()
        invariant
            i <= stacks.len(),
            view.active_stack_index < stacks.len(),
            *stacks == view.profile.stacks,
            view.active_frame_index < view.stack_len(view.active_stack_index as int),
            lines_view(stack_lines@) == stack_rows(*view).take(i as int),
        decreases stacks.len() - i,
    {
        let selected = if i == view.active_stack_index {
            Some(view.active_frame_index)
        } else {
            None
        };
        let line = stack_line(stacks[i].frames.len(), selected);
        let ghost prev = lines_view(stack_lines@);
        stack_lines.push(line);
        assert(lines_view(stack_lines@) =~= prev.push(line@));
        assert(stack_rows(*view).take(i + 1) =~= stack_rows(*view).take(i as int).push(line@));
        i = i + 1;
    }
    assert(stack_rows(*view).take(stacks.len() as int) =~= stack_rows(*view));
    let vertical_size: usize = stack_lines.len();
    let scroll = view.vertical_scroll as u16;
    app.view.scrollbar_state = app.view.scrollbar_state.content_length(vertical_size);
    Screen { stack_lines, scroll, file_lines }
}

/// In every row the marks are as many as the stack has frames, and the
/// selected stack's row holds exactly one green mark, at the selected frame.
pub proof fn law_stack_rows_count_frames(v: DataView, i: int)
    requires
        0 <= i < v.stack_count(),
        v.active_stack_index < v.stack_count(),
        v.active_frame_index < v.stack_len(v.active_stack_index as int),
    ensures
        row_text(stack_rows(v)[i]) == marks(v.stack_len(i)),
        i != v.active_stack_index ==> stack_rows(v)[i] == seq![(marks(v.stack_len(i)), Color::White)],
        i == v.active_stack_index ==> {
            let row = stack_rows(v)[i];
            let green = if v.active_frame_index == 0 { 0int } else { 1int };
            &&& row[green] == (marks(1), Color::Green)
            &&& forall|k: int| 0 <= k < row.len() && k != green ==> #[trigger] row[k].1 == Color::Yellow
            &&& row_text(row.take(green)).len() == v.active_frame_index
        },
{
    let row = stack_rows(v)[i];
    reveal_with_fuel(row_text, 4);
    if i == v.active_stack_index {
        let f = v.active_frame_index as int;
        let len = v.stack_len(i);
        if f == 0 {
            assert(row.take(0) =~= Seq::<(Seq<char>, Color)>::empty());
            assert(row.drop_last() =~= seq![(marks(1), Color::Green)]);
            assert(row_text(row) =~= marks(len));
        } else {
            assert(row.take(1) =~= seq![(marks(f), Color::Yellow)]);
            assert(row.take(1).drop_last() =~= Seq::<(Seq<char>, Color)>::empty());
            assert(row.drop_last() =~= seq![(marks(f), Color::Yellow), (marks(1), Color::Green)]);
            assert(row.drop_last().drop_last() =~= seq![(marks(f), Color::Yellow)]);
            assert(row_text(row) =~= marks(len));
        }
    } else {
        assert(row.drop_last() =~= Seq::<(Seq<char>, Color)>::empty());
        assert(row_text(row) =~= marks(v.stack_len(i)));
    }
}

/// The text of a line, its pieces one after another.
pub open spec fn row_text(row: LineModel) -> Seq<char>
    decreases row.len(),
{
    if row.len() == 0 {
        seq![]
    } else {
        row_text(row.drop_last()) + row.last().0
    }
}


/// Every frame of the stack names a source file.
pub open spec fn all_have_files(frames: Seq<Frame>) -> bool {
    forall|j: int| 0 <= j < frames.len() ==> (#[trigger] frames[j]).file is Some
}

/// With no frame of the stack selected, the panel lists each frame's file in
/// white, one line per frame, in order.
pub proof fn law_file_panel_without_selection(frames: Seq<Frame>, selected: int, expand: bool, code: Seq<Seq<char>>)
    requires
        all_have_files(frames),
        selected < 0 || selected >= frames.len(),
    ensures
        file_rows(frames, selected, expand, code).len() == frames.len(),
        forall|j: int|
            0 <= j < frames.len() ==> #[trigger] file_rows(frames, selected, expand, code)[j] == seq![
                (frames[j].file.unwrap()@, Color::White),
            ],
    decreases frames.len(),
{
    if frames.len() > 0 {
        let rest = frames.drop_last();
        assert(all_have_files(rest)) by {
            assert forall|j: int| 0 <= j < rest.len() implies (#[trigger] rest[j]).file is Some by {
                assert(frames[j].file is Some);
            }
        }
        law_file_panel_without_selection(rest, selected, expand, code);
        assert(frames[frames.len() - 1].file is Some);
        assert forall|j: int| 0 <= j < frames.len() implies #[trigger] file_rows(frames, selected, expand, code)[j]
            == seq![(frames[j].file.unwrap()@, Color::White)] by {
            if j < rest.len() {
                assert(rest[j] == frames[j]);
            }
        }
    }
}

/// With the source hidden, the panel lists each frame's file, one line per
/// frame, in order: the selected frame's in red, the others in white.
pub proof fn law_file_panel_collapsed(frames: Seq<Frame>, selected: int, code: Seq<Seq<char>>)
    requires
        all_have_files(frames),
        0 <= selected < frames.len(),
    ensures
        file_rows(frames, selected, false, code).len() == frames.len(),
        forall|j: int|
            0 <= j < frames.len() ==> #[trigger] file_rows(frames, selected, false, code)[j] == seq![
                (frames[j].file.unwrap()@, if j == selected {
                    Color::Red
                } else {
                    Color::White
                }),
            ],
    decreases frames.len(),
{
    let rest = frames.drop_last();
    assert(all_have_files(rest)) by {
        assert forall|j: int| 0 <= j < rest.len() implies (#[trigger] rest[j]).file is Some by {
            assert(frames[j].file is Some);
        }
    }
    if selected == frames.len() - 1 {
        law_file_panel_without_selection(rest, selected, false, code);
    } else {
        law_file_panel_collapsed(rest, selected, code);
    }
    assert(frames[frames.len() - 1].file is Some);
    assert forall|j: int| 0 <= j < frames.len() implies #[trigger] file_rows(frames, selected, false, code)[j]
        == seq![
        (frames[j].file.unwrap()@, if j == selected {
            Color::Red
        } else {
            Color::White
        }),
    ] by {
        if j < rest.len() {
            assert(rest[j] == frames[j]);
        }
    }
}

/// With the source shown and the selected frame on a known line, the panel
/// lists the files of the frames before it in white, the selected frame's
/// file in red, then the source lines read around its line, exactly one of
/// them green (the middle one, the frame's own line) and the others yellow,
/// then the files of the frames after it in white.
pub proof fn law_file_panel_expanded(frames: Seq<Frame>, selected: int, code: Seq<Seq<char>>)
    requires
        all_have_files(frames),
        0 <= selected < frames.len(),
        frames[selected].line is Some,
    ensures
        ({
            let rows = file_rows(frames, selected, true, code);
            &&& rows.len() == frames.len() + code.len()
            &&& forall|j: int| 0 <= j < selected ==> #[trigger] rows[j] == seq![(frames[j].file.unwrap()@, Color::White)]
            &&& rows[selected] == seq![(frames[selected].file.unwrap()@, Color::Red)]
            &&& forall|k: int|
                0 <= k < code.len() ==> {
                    let row = #[trigger] rows[selected + 1 + k];
                    &&& row.len() == 1
                    &&& row[0].0 == code[k]
                    &&& (row[0].1 == Color::Green <==> k == CONTEXT_LINES)
                    &&& (k != CONTEXT_LINES ==> row[0].1 == Color::Yellow)
                }
            &&& forall|j: int|
                selected < j < frames.len() ==> #[trigger] rows[j + code.len()] == seq![
                    (frames[j].file.unwrap()@, Color::White),
                ]
        }),
    decreases frames.len(),
{
    let rest = frames.drop_last();
    assert(all_have_files(rest)) by {
        assert forall|j: int| 0 <= j < rest.len() implies (#[trigger] rest[j]).file is Some by {
            assert(frames[j].file is Some);
        }
    }
    assert(frames[frames.len() - 1].file is Some);
    let rows = file_rows(frames, selected, true, code);
    if selected == frames.len() - 1 {
        law_file_panel_without_selection(rest, selected, true, code);
        let tail = frame_rows(frames.last(), true, true, code);
        assert(tail == seq![seq![(frames[selected].file.unwrap()@, Color::Red)]] + code_rows(code));
        assert forall|j: int| 0 <= j < selected implies #[trigger] rows[j] == seq![
            (frames[j].file.unwrap()@, Color::White),
        ] by {
            assert(rest[j] == frames[j]);
        }
    } else {
        law_file_panel_expanded(rest, selected, code);
        assert(rest[selected] == frames[selected]);
        assert forall|j: int| 0 <= j < selected implies #[trigger] rows[j] == seq![
            (frames[j].file.unwrap()@, Color::White),
        ] by {
            assert(rest[j] == frames[j]);
        }
        assert forall|j: int| selected < j < frames.len() implies #[trigger] rows[j + code.len()] == seq![
            (frames[j].file.unwrap()@, Color::White),
        ] by {
            if j < rest.len() {
                assert(rest[j] == frames[j]);
            }
        }
    }
}

/// The source shown around 1-based line `line` is the five lines centred on
/// it: the frame's own line is the middle one, at index `CONTEXT_LINES` of
/// the window, whenever the file has lines on both sides of it.
pub proof fn law_code_window_centres_the_line(line: int)
    requires
        line > CONTEXT_LINES,
    ensures
        code_window_of(line).0 + CONTEXT_LINES == line - 1,
        code_window_of(line).1 == 2 * CONTEXT_LINES + 1,
{
}


/// A frame without a source file adds no line to the file panel; with the
/// source shown, a selected frame without a known line gets its file in red
/// followed by a red note that the line is unknown.
pub proof fn law_frame_rows_without_file_or_line(frame: Frame, selected: bool, expand: bool, code: Seq<Seq<char>>)
    ensures
        frame.file is None ==> frame_rows(frame, selected, expand, code).len() == 0,
        (frame.file is Some && frame.line is None) ==> frame_rows(frame, true, true, code) == seq![
            seq![(frame.file.unwrap()@, Color::Red)],
            seq![("No line information"@, Color::Red)],
        ],
{
    if frame.file is Some && frame.line is None {
        assert(frame_rows(frame, true, true, code) =~= seq![
            seq![(frame.file.unwrap()@, Color::Red)],
            seq![("No line information"@, Color::Red)],
        ]);
    }
}

} // verus!
