//! A terminal viewer for speedscope profiles: the profile data model, the
//! filtering of stack frames, the navigation state of the viewer, the
//! decisions taken on input events, and the text model of what is drawn.

pub mod speedscope;
pub mod scrollbar;
pub mod control;
pub mod app;
pub mod ui;
