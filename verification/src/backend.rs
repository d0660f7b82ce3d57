//! The thin interface the coordinate system draws through. A drawing
//! backend is an external collaborator: the library only computes positions
//! and hands complete line segments to it.
use vstd::prelude::*;

verus! {

/// A pixel position.
pub type BackendCoord = (i32, i32);

/// An RGB colour with an 8-bit alpha channel.
#[derive(Clone, Copy, PartialEq, Eq, Structural, Debug)]
pub struct RGBAColor(pub u8, pub u8, pub u8, pub u8);

/// The style of a drawn shape: for grid lines, only the colour matters.
#[derive(Clone, Copy, PartialEq, Eq, Structural, Debug)]
pub struct ShapeStyle {
    pub color: RGBAColor,
}

/// An error raised while drawing: either the backend's own failure, or a
/// failure to resolve a font.
pub enum DrawingErrorKind<E> {
    DrawingError(E),
    FontError,
}

/// A surface that can draw a straight line between two pixel positions.
/// Implementations live outside the library; nothing is assumed of them.
pub trait DrawingBackend {
    type ErrorType;

    fn draw_line(
        &mut self,
        from: BackendCoord,
        to: BackendCoord,
        color: &RGBAColor,
    ) -> Result<(), DrawingErrorKind<Self::ErrorType>>;
}

} // verus!
