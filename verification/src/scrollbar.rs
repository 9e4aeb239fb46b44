//! The state of a scrollbar: how much content there is and where the view is.

use vstd::prelude::*;

verus! {

/// How long the scrollable content is, where the view stands in it, and how
/// much of it one screen shows.
#[derive(Debug, Clone, Copy, PartialEq, Eq, Structural)]
pub struct ScrollbarState {
    pub content_length: usize,
    pub position: usize,
    pub viewport_content_length: usize,
}

impl ScrollbarState {
    /// A scrollbar over `content_length` items, at the top.
    pub fn new(content_length: usize) -> (s: ScrollbarState)
        ensures
            s == (ScrollbarState { content_length, position: 0, viewport_content_length: 0 }),
    {
        ScrollbarState { content_length, position: 0, viewport_content_length: 0 }
    }

    /// The same scrollbar at scroll position `position`.
    pub fn position(self, position: usize) -> (s: ScrollbarState)
        ensures
            s == (ScrollbarState { position, ..self }),
    {
        ScrollbarState { position, ..self }
    }

    /// The same scrollbar over `content_length` items.
    pub fn content_length(self, content_length: usize) -> (s: ScrollbarState)
        ensures
            s == (ScrollbarState { content_length, ..self }),
    {
        ScrollbarState { content_length, ..self }
    }
}

impl Default for ScrollbarState {
    /// A scrollbar over no content, at the top.
    fn default() -> (s: ScrollbarState)
        ensures
            s == (ScrollbarState { content_length: 0, position: 0, viewport_content_length: 0 }),
    {
        ScrollbarState::new(0)
    }
}

} // verus!
