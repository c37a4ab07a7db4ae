//! Plain data carried through the clear-resolution step: colors, destination
//! identifiers, per-frame views, the clear operations that come out, and the
//! errors that abort a frame.

use vstd::prelude::*;

verus! {

/// An RGBA clear color, one byte per channel.
#[derive(Clone, Copy, PartialEq, Eq, Structural, Debug)]
pub struct Color {
    pub red: u8,
    pub green: u8,
    pub blue: u8,
    pub alpha: u8,
}

impl Color {
    pub fn rgba(red: u8, green: u8, blue: u8, alpha: u8) -> (c: Color)
        ensures
            c == (Color { red, green, blue, alpha }),
    {
        Color { red, green, blue, alpha }
    }
}

/// Identifies a physical output pixels are written to: a window surface, an
/// offscreen image, or a manually registered texture view.  Identity is the
/// deduplication key for the whole step.
#[derive(Clone, Copy, PartialEq, Eq, Structural, Hash, Debug)]
pub enum Destination {
    Window(u64),
    Image(u64),
    TextureView(u64),
}

/// One frame's draw viewpoint: a color attachment (always present), an
/// optional depth attachment, and an optional association to the destination
/// its pixels end up on.  A view with no destination association cannot take
/// part in deduplication; it is cleared but marks nothing as touched.
#[derive(Clone, Copy, PartialEq, Eq, Structural, Debug)]
pub struct FrameView {
    pub color_attachment: u64,
    pub depth_attachment: Option<u64>,
    pub destination: Option<Destination>,
}

/// One clear-only render pass to record: clear `texture` to `color`, and, if
/// `depth_texture` is present, clear that depth attachment to its zero value
/// with no stencil operation.  `destination` records which destination this
/// clear satisfies, when one is known.
#[derive(Clone, Copy, PartialEq, Eq, Structural, Debug)]
pub struct ClearOp {
    pub texture: u64,
    pub color: Color,
    pub depth_texture: Option<u64>,
    pub destination: Option<Destination>,
}

/// The two fatal conditions of the step.  Either aborts the frame's
/// submission: a partially cleared frame would reach the display.
#[derive(Clone, Copy, PartialEq, Eq, Structural, Debug)]
pub enum ClearPassError {
    /// The global clear-color configuration was absent: a pipeline wiring bug.
    ConfigMissing,
    /// A destination owed a clear could not be resolved to a texture view;
    /// presenting it would fault downstream.
    DestinationUnresolved(Destination),
}

} // verus!
