//! The display shell's surface: how a decoded image reaches a screen is
//! outside this library's scope, so these entry points deliberately do
//! nothing. An embedding program that owns a window and a GPU context can
//! route them to its own renderer.

use vstd::prelude::*;

use crate::decode::Img;

verus! {

/// Called when the display surface changes size. No renderer lives here, so
/// there is nothing to adjust.
pub fn resize(_width: i32, _height: i32) {
}

/// Draws the current frame. No renderer lives here, so there is nothing to
/// draw.
pub fn render() {
}

/// Hands a decoded image over as the texture to display. No renderer lives
/// here, so the image is dropped.
pub fn set_texture(_img: Img) {
}

} // verus!


