//! The three screens of the app.
use vstd::prelude::*;

verus! {

/// The screen the user is looking at.
#[derive(Debug, PartialEq, Eq, Structural, Clone, Copy)]
pub enum View {
    Announcements,
    Messages,
    Files,
}

} // verus!
