//! The viewer's state: the profile on show, which stack and which frame of
//! it are selected, and how the selection moves.

use vstd::prelude::*;

use crate::control::{Action, Event, EventResponse, action_for, event_action};
use crate::scrollbar::ScrollbarState;
use crate::speedscope::{Data, Frame, Profile, ProfileModel, Stack, filter_profile, strings_view};

verus! {

/// The profile on show and the selection in it.
///
/// The stacks are listed top to bottom; the selected stack is
/// `active_stack_index`, the selected frame of it `active_frame_index`.
/// The list scrolls with the selection: `vertical_scroll` and the
/// scrollbar's position follow the selected stack.
#[derive(Debug)]
pub struct DataView {
    pub profile: Profile,
    pub active_stack_index: usize,
    pub active_frame_index: usize,
    pub scrollbar_state: ScrollbarState,
    pub vertical_scroll: usize,
    pub expand_code: bool,
}

impl DataView {
    /// The number of stacks on show.
    pub open spec fn stack_count(&self) -> int {
        self.profile.stacks.len() as int
    }

    /// The number of frames of stack `i`.
    pub open spec fn stack_len(&self, i: int) -> int {
        self.profile.stacks@[i].frames.len() as int
    }

    /// The selection is on a frame that exists, no stack is empty, and the
    /// scroll position follows the selected stack.
    pub open spec fn wf(&self) -> bool {
        &&& forall|i: int| 0 <= i < self.stack_count() ==> #[trigger] self.stack_len(i) > 0
        &&& if self.stack_count() > 0 {
            &&& self.active_stack_index < self.stack_count()
            &&& self.active_frame_index < self.stack_len(self.active_stack_index as int)
        } else {
            &&& self.active_stack_index == 0
            &&& self.active_frame_index == 0
        }
        &&& self.vertical_scroll == self.active_stack_index
        &&& self.scrollbar_state.position == self.vertical_scroll
    }

    /// The frame index kept when moving to a stack of `len` frames: the same
    /// index where the stack is long enough, else its last frame.
    pub open spec fn clamped_frame(&self, len: int) -> usize {
        if self.active_frame_index >= len {
            (len - 1) as usize
        } else {
            self.active_frame_index
        }
    }

    /// The view once the stack above the selected one is selected; at the
    /// top nothing moves.
    pub open spec fn after_prev_stack(self) -> DataView {
        if self.active_stack_index == 0 {
            self
        } else {
            let stack = (self.active_stack_index - 1) as usize;
            let scroll = (self.vertical_scroll - 1) as usize;
            DataView {
                active_stack_index: stack,
                vertical_scroll: scroll,
                scrollbar_state: ScrollbarState { position: scroll, ..self.scrollbar_state },
                active_frame_index: self.clamped_frame(self.stack_len(stack as int)),
                ..self
            }
        }
    }

    /// The view once the stack below the selected one is selected; at the
    /// bottom nothing moves.
    pub open spec fn after_next_stack(self) -> DataView {
        if self.active_stack_index >= self.stack_count() - 1 {
            self
        } else {
            let stack = (self.active_stack_index + 1) as usize;
            let scroll = (self.vertical_scroll + 1) as usize;
            DataView {
                active_stack_index: stack,
                vertical_scroll: scroll,
                scrollbar_state: ScrollbarState { position: scroll, ..self.scrollbar_state },
                active_frame_index: self.clamped_frame(self.stack_len(stack as int)),
                ..self
            }
        }
    }

    /// The view once the frame before the selected one is selected; at the
    /// first frame nothing moves.
    pub open spec fn after_prev_frame(self) -> DataView {
        if self.active_frame_index > 0 {
            DataView { active_frame_index: (self.active_frame_index - 1) as usize, ..self }
        } else {
            self
        }
    }

    /// The view once the frame after the selected one is selected; at the
    /// last frame nothing moves.
    pub open spec fn after_next_frame(self) -> DataView {
        if self.active_frame_index < self.stack_len(self.active_stack_index as int) - 1 {
            DataView { active_frame_index: (self.active_frame_index + 1) as usize, ..self }
        } else {
            self
        }
    }

    /// The view with the source display switched.
    pub open spec fn after_toggle_expand(self) -> DataView {
        DataView { expand_code: !self.expand_code, ..self }
    }

    /// What moving up needs: the stack above exists and has a frame, and the
    /// scroll position can go down with the selection.
    pub open spec fn can_prev_stack(&self) -> bool {
        self.active_stack_index > 0 ==> {
            &&& self.vertical_scroll > 0
            &&& self.active_stack_index - 1 < self.stack_count()
            &&& self.stack_len(self.active_stack_index - 1) > 0
        }
    }

    /// What moving down needs: there is a stack, and the stack below, if
    /// any, has a frame.
    pub open spec fn can_next_stack(&self) -> bool {
        &&& self.stack_count() > 0
        &&& self.active_stack_index < self.stack_count() - 1 ==> {
            &&& self.vertical_scroll < usize::MAX
            &&& self.stack_len(self.active_stack_index + 1) > 0
        }
    }

    /// What moving right needs: the selected stack exists and has a frame.
    pub open spec fn can_next_frame(&self) -> bool {
        &&& self.active_stack_index < self.stack_count()
        &&& self.stack_len(self.active_stack_index as int) > 0
    }

    /// The selected stack.
    pub fn active_stack(&self) -> (stack: &Stack)
        requires
            self.active_stack_index < self.stack_count(),
        ensures
            *stack == self.profile.stacks@[self.active_stack_index as int],
    {
        &self.profile.stacks[self.active_stack_index]
    }

    /// The selected frame of the selected stack.
    pub fn active_frame(&self) -> (frame: &Frame)
        requires
            self.active_stack_index < self.stack_count(),
            self.active_frame_index < self.stack_len(self.active_stack_index as int),
        ensures
            *frame == self.profile.stacks@[self.active_stack_index as int]@[self.active_frame_index as int],
    {
        let stack = self.active_stack();
        &stack.frames[self.active_frame_index]
    }

    /// Selects the stack above; keeps the frame index where the stack is long
    /// enough, else selects its last frame.
    pub fn prev_stack(&mut self)
        requires
            old(self).can_prev_stack(),
        ensures
            *final(self) == old(self).after_prev_stack(),
    {
        if self.active_stack_index == 0 {
            return;
        }
        self.active_stack_index -= 1;
        self.vertical_scroll -= 1;
        self.scrollbar_state = self.scrollbar_state.position(self.vertical_scroll);

        let len = self.active_stack().len();
        if self.active_frame_index >= len {
            self.active_frame_index = len - 1;
        }
    }

    /// Selects the stack below; keeps the frame index where the stack is long
    /// enough, else selects its last frame.
    pub fn next_stack(&mut self)
        requires
            old(self).can_next_stack(),
        ensures
            *final(self) == old(self).after_next_stack(),
    {
        let profile_len = self.profile.len();
        if self.active_stack_index >= profile_len - 1 {
            return;
        }
        self.active_stack_index += 1;
        self.vertical_scroll += 1;
        self.scrollbar_state = self.scrollbar_state.position(self.vertical_scroll);

        let len = self.active_stack().len();
        if self.active_frame_index >= len {
            self.active_frame_index = len - 1;
        }
    }

    /// Selects the frame before the selected one, if there is one.
    pub fn prev_frame(&mut self)
        ensures
            *final(self) == old(self).after_prev_frame(),
    {
        if self.active_frame_index > 0 {
            self.active_frame_index -= 1;
        }
    }

    /// Selects the frame after the selected one, if there is one.
    pub fn next_frame(&mut self)
        requires
            old(self).can_next_frame(),
        ensures
            *final(self) == old(self).after_next_frame(),
    {
        let active_stack_len = self.active_stack().len();
        if self.active_frame_index < active_stack_len - 1 {
            self.active_frame_index += 1;
        }
    }

    /// Switches the display of the source around the selected frame.
    pub fn toggle_expand(&mut self)
        ensures
            *final(self) == old(self).after_toggle_expand(),
    {
        self.expand_code = !self.expand_code;
    }
}


/// A well-formed view meets what each move needs, where it needs a stack
/// to exist, and every move leaves the view well formed.
pub proof fn law_moves_keep_view_well_formed(v: DataView)
    requires
        v.wf(),
    ensures
        v.can_prev_stack(),
        v.stack_count() > 0 ==> v.can_next_stack(),
        v.stack_count() > 0 ==> v.can_next_frame(),
        v.after_prev_stack().wf(),
        v.stack_count() > 0 ==> v.after_next_stack().wf(),
        v.after_prev_frame().wf(),
        v.stack_count() > 0 ==> v.after_next_frame().wf(),
        v.after_toggle_expand().wf(),
{
    if v.active_stack_index > 0 {
        assert(v.stack_len(v.active_stack_index - 1) > 0);
    }
    if v.stack_count() > 0 && v.active_stack_index < v.stack_count() - 1 {
        assert(v.stack_len(v.active_stack_index + 1) > 0);
    }
    lemma_same_stacks(v, v.after_prev_stack());
    lemma_same_stacks(v, v.after_next_stack());
    lemma_same_stacks(v, v.after_prev_frame());
    lemma_same_stacks(v, v.after_next_frame());
    lemma_same_stacks(v, v.after_toggle_expand());
}

/// Two views of one profile have the same stacks, all of them non-empty
/// when those of the first are.
proof fn lemma_same_stacks(v: DataView, w: DataView)
    requires
        w.profile == v.profile,
    ensures
        w.stack_count() == v.stack_count(),
        forall|i: int| 0 <= i < v.stack_count() ==> #[trigger] w.stack_len(i) == v.stack_len(i),
{
}

/// Switching the source display twice leaves the view as it was.
pub proof fn law_toggle_twice_is_identity(v: DataView)
    ensures
        v.after_toggle_expand().after_toggle_expand() == v,
{
}

/// Moving down and then up selects the stack one started on again, when
/// there was a stack to move to; moving up and then down likewise. The
/// frame index never grows on the way.
pub proof fn law_stack_moves_undo_each_other(v: DataView)
    requires
        v.wf(),
    ensures
        v.active_stack_index + 1 < v.stack_count() ==> {
            let w = v.after_next_stack().after_prev_stack();
            &&& w.active_stack_index == v.active_stack_index
            &&& w.vertical_scroll == v.vertical_scroll
            &&& w.scrollbar_state == v.scrollbar_state
            &&& w.active_frame_index <= v.active_frame_index
            &&& w.wf()
        },
        v.active_stack_index > 0 ==> {
            let w = v.after_prev_stack().after_next_stack();
            &&& w.active_stack_index == v.active_stack_index
            &&& w.vertical_scroll == v.vertical_scroll
            &&& w.scrollbar_state == v.scrollbar_state
            &&& w.active_frame_index <= v.active_frame_index
            &&& w.wf()
        },
{
    law_moves_keep_view_well_formed(v);
    if v.active_stack_index + 1 < v.stack_count() {
        law_moves_keep_view_well_formed(v.after_next_stack());
    }
    if v.active_stack_index > 0 {
        law_moves_keep_view_well_formed(v.after_prev_stack());
    }
}

/// Moving right and then left, where there is a frame to the right, leaves
/// the view as it was; moving left and then right, where there is a frame to
/// the left, likewise.
pub proof fn law_frame_moves_undo_each_other(v: DataView)
    requires
        v.wf(),
        v.stack_count() > 0,
    ensures
        v.active_frame_index + 1 < v.stack_len(v.active_stack_index as int) ==> v.after_next_frame().after_prev_frame()
            == v,
        v.active_frame_index > 0 ==> v.after_prev_frame().after_next_frame() == v,
{
    if v.active_frame_index + 1 < v.stack_len(v.active_stack_index as int) {
        let w = v.after_next_frame();
        assert(w.active_frame_index == v.active_frame_index + 1);
        assert(w.after_prev_frame().active_frame_index == v.active_frame_index);
        assert(w.after_prev_frame() == v);
    }
}

/// Moving to an adjacent stack of `len` frames selects frame
/// `min(old index, len - 1)`: the same index when the stack is long enough,
/// else its last frame; the scroll position moves with the stack.
pub proof fn law_stack_moves_keep_frame_or_take_last(v: DataView)
    requires
        v.wf(),
    ensures
        v.active_stack_index > 0 ==> {
            let w = v.after_prev_stack();
            let len = v.stack_len(v.active_stack_index - 1);
            &&& w.active_stack_index == v.active_stack_index - 1
            &&& w.vertical_scroll == v.vertical_scroll - 1
            &&& w.scrollbar_state.position == v.vertical_scroll - 1
            &&& w.active_frame_index < len
            &&& w.active_frame_index <= v.active_frame_index
            &&& (v.active_frame_index < len ==> w.active_frame_index == v.active_frame_index)
            &&& (v.active_frame_index >= len ==> w.active_frame_index == len - 1)
            &&& w.profile == v.profile
            &&& w.expand_code == v.expand_code
        },
        v.active_stack_index + 1 < v.stack_count() ==> {
            let w = v.after_next_stack();
            let len = v.stack_len(v.active_stack_index + 1);
            &&& w.active_stack_index == v.active_stack_index + 1
            &&& w.vertical_scroll == v.vertical_scroll + 1
            &&& w.scrollbar_state.position == v.vertical_scroll + 1
            &&& w.active_frame_index < len
            &&& w.active_frame_index <= v.active_frame_index
            &&& (v.active_frame_index < len ==> w.active_frame_index == v.active_frame_index)
            &&& (v.active_frame_index >= len ==> w.active_frame_index == len - 1)
            &&& w.profile == v.profile
            &&& w.expand_code == v.expand_code
        },
{
    if v.active_stack_index > 0 {
        assert(v.stack_len(v.active_stack_index - 1) > 0);
    }
    if v.active_stack_index + 1 < v.stack_count() {
        assert(v.stack_len(v.active_stack_index + 1) > 0);
    }
}

/// Moving between frames changes the selected frame by one, inside the
/// selected stack, and nothing else.
pub proof fn law_frame_moves_step_by_one(v: DataView)
    requires
        v.wf(),
        v.stack_count() > 0,
    ensures
        v.active_frame_index > 0 ==> v.after_prev_frame().active_frame_index == v.active_frame_index - 1,
        v.active_frame_index + 1 < v.stack_len(v.active_stack_index as int) ==> v.after_next_frame().active_frame_index
            == v.active_frame_index + 1,
        v.after_prev_frame().active_stack_index == v.active_stack_index,
        v.after_next_frame().active_stack_index == v.active_stack_index,
        v.after_prev_frame().vertical_scroll == v.vertical_scroll,
        v.after_next_frame().vertical_scroll == v.vertical_scroll,
        v.after_next_frame().active_frame_index < v.stack_len(v.active_stack_index as int),
        v.after_prev_frame().profile == v.profile,
        v.after_next_frame().profile == v.profile,
        v.after_toggle_expand().expand_code == !v.expand_code,
        v.after_toggle_expand().active_stack_index == v.active_stack_index,
        v.after_toggle_expand().active_frame_index == v.active_frame_index,
{
}

/// Every move stops at the edge: moving up from the first stack, down from
/// the last, left from the first frame or right from the last changes nothing.
pub proof fn law_moves_stop_at_edges(v: DataView)
    ensures
        v.active_stack_index == 0 ==> v.after_prev_stack() == v,
        v.active_stack_index + 1 >= v.stack_count() ==> v.after_next_stack() == v,
        v.active_frame_index == 0 ==> v.after_prev_frame() == v,
        v.active_frame_index + 1 >= v.stack_len(v.active_stack_index as int) ==> v.after_next_frame() == v,
{
}

/// The source files whose frames the viewer hides: the interpreter's own
/// import machinery and code run from strings.
pub open spec fn default_file_filters() -> Seq<Seq<char>> {
    seq![
        "<frozen importlib._bootstrap_external>"@,
        "<frozen importlib._bootstrap>"@,
        "<string>"@,
    ]
}

/// The names of the hidden source files, as strings.
pub fn default_file_filter_list() -> (filters: Vec<String>)
    ensures
        strings_view(filters@) == default_file_filters(),
{
    let mut filters: Vec<String> = Vec::new();
    filters.push(String::from_str("<frozen importlib._bootstrap_external>"));
    filters.push(String::from_str("<frozen importlib._bootstrap>"));
    filters.push(String::from_str("<string>"));
    assert(strings_view(filters@) =~= default_file_filters());
    filters
}

/// The viewer: the data read from the file, the view of one of its
/// profiles, and the source files hidden from that view.
#[derive(Debug)]
pub struct App {
    pub data: Data,
    pub view: DataView,
    pub file_filters: Vec<String>,
}

impl App {
    /// The viewer on one of the profiles of `data`, with the default files
    /// hidden and the first frame of the first stack selected.
    pub fn new(data: Data) -> (app: App)
        requires
            data@ != Map::<Seq<char>, ProfileModel>::empty(),
        ensures
            app.data@ == data@,
            strings_view(app.file_filters@) == default_file_filters(),
            exists|name: Seq<char>|
                #![trigger data@[name]]
                data@.contains_key(name) && app.view.profile@ == filter_profile(default_file_filters(), data@[name]),
            app.view.active_stack_index == 0,
            app.view.active_frame_index == 0,
            app.view.vertical_scroll == 0,
            app.view.scrollbar_state == (ScrollbarState { content_length: 0, position: 0, viewport_content_length: 0 }),
            !app.view.expand_code,
            app.view.wf(),
    {
        let file_filters = default_file_filter_list();
        let first = data.any_profile();
        let profile = first.unwrap().with_filter(&file_filters);
        proof {
            let p = first.unwrap();
            crate::speedscope::law_filtered_stacks_are_clean(default_file_filters(), p@.stacks);
            assert(data@.contains_key(p.name@) && profile@ == filter_profile(default_file_filters(), data@[p.name@]));
        }
        let view = DataView {
            profile,
            scrollbar_state: ScrollbarState::default(),
            vertical_scroll: 0,
            active_stack_index: 0,
            active_frame_index: 0,
            expand_code: false,
        };
        proof {
            assert forall|i: int| 0 <= i < view.stack_count() implies #[trigger] view.stack_len(i) > 0 by {
                assert(view.profile@.stacks[i] == view.profile.stacks@[i]@);
            }
        }
        App { data, view, file_filters }
    }
}


impl DataView {
    /// The view once `action` is taken.
    pub open spec fn after_action(self, action: Action) -> DataView {
        match action {
            Action::ToggleExpand => self.after_toggle_expand(),
            Action::NextStack => self.after_next_stack(),
            Action::PrevStack => self.after_prev_stack(),
            Action::PrevFrame => self.after_prev_frame(),
            Action::NextFrame => self.after_next_frame(),
            Action::Quit | Action::Nothing => self,
        }
    }

    /// What taking `action` needs.
    pub open spec fn can_take(&self, action: Action) -> bool {
        match action {
            Action::NextStack => self.can_next_stack(),
            Action::PrevStack => self.can_prev_stack(),
            Action::NextFrame => self.can_next_frame(),
            _ => true,
        }
    }
}

impl DataView {
    /// Whether the view meets what taking `action` needs.
    pub fn allows(&self, action: Action) -> (ok: bool)
        ensures
            ok == self.can_take(action),
    {
        let count = self.profile.stacks.len();
        match action {
            Action::NextStack => {
                if count == 0 {
                    return false;
                }
                if self.active_stack_index < count - 1 {
                    self.vertical_scroll < usize::MAX && self.profile.stacks[self.active_stack_index + 1].frames.len()
                        > 0
                } else {
                    true
                }
            },
            Action::PrevStack => {
                if self.active_stack_index > 0 {
                    self.vertical_scroll > 0 && self.active_stack_index - 1 < count
                        && self.profile.stacks[self.active_stack_index - 1].frames.len() > 0
                } else {
                    true
                }
            },
            Action::NextFrame => {
                self.active_stack_index < count && self.profile.stacks[self.active_stack_index].frames.len() > 0
            },
            _ => true,
        }
    }
}

/// The answer to an event whose action is `action`: quitting halts, doing
/// nothing ignores the event, anything else consumes it.
pub open spec fn response_to(action: Action) -> EventResponse {
    match action {
        Action::Quit => EventResponse::Halt,
        Action::Nothing => EventResponse::Ignored,
        _ => EventResponse::Consumed,
    }
}

impl App {
    /// Takes the action that `event` calls for and tells whether the viewer
    /// should stop.
    pub fn handle_event(&mut self, event: &Event) -> (response: EventResponse)
        requires
            old(self).view.can_take(event_action(*event)),
        ensures
            final(self).view == old(self).view.after_action(event_action(*event)),
            final(self).data == old(self).data,
            final(self).file_filters == old(self).file_filters,
            response == response_to(event_action(*event)),
    {
        let action = action_for(event);
        match action {
            Action::Quit => EventResponse::Halt,
            Action::ToggleExpand => {
                self.view.toggle_expand();
                EventResponse::Consumed
            },
            Action::NextStack => {
                self.view.next_stack();
                EventResponse::Consumed
            },
            Action::PrevStack => {
                self.view.prev_stack();
                EventResponse::Consumed
            },
            Action::PrevFrame => {
                self.view.prev_frame();
                EventResponse::Consumed
            },
            Action::NextFrame => {
                self.view.next_frame();
                EventResponse::Consumed
            },
            Action::Nothing => EventResponse::Ignored,
        }
    }
}

/// On a well-formed view with at least one stack every event can be
/// handled, and handling it leaves the view well formed; an event that
/// halts the viewer leaves the view as it was.
pub proof fn law_events_keep_view_well_formed(v: DataView, event: Event)
    requires
        v.wf(),
        v.stack_count() > 0,
    ensures
        v.can_take(event_action(event)),
        v.after_action(event_action(event)).wf(),
        response_to(event_action(event)) == EventResponse::Halt ==> v.after_action(event_action(event)) == v,
{
    law_moves_keep_view_well_formed(v);
}

} // verus!
