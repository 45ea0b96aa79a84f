//! The lifecycle events the app, view and widget layers exchange. They are
//! produced by the shell that pumps the window's events and consumed by the
//! widget code outside this crate; the render path only distinguishes them.

use vstd::prelude::*;

verus! {

/// Events delivered to the application as a whole.
#[derive(Copy, Clone, Debug, PartialEq, Eq, Structural)]
#[non_exhaustive]
pub enum AppEvent {
    Init,
    Update,
    Exit,
}

/// Events delivered to the active view.
#[derive(Copy, Clone, Debug, PartialEq, Eq, Structural)]
#[non_exhaustive]
pub enum ViewEvent {
    Init,
    Update,
}

/// Events delivered to a widget.
#[derive(Copy, Clone, Debug, PartialEq, Eq, Structural)]
#[non_exhaustive]
pub enum WidgetEvent {
    Init,
    Update,
}

} // verus!
