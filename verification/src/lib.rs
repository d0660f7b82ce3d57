//! Coordinate abstractions for 2D chart plotting.
//!
//! A `Ranged` value describes one axis of a chart: it maps logical values
//! onto a pixel interval, produces the key points used for ticks and grid
//! lines, and reports its logical bounds. Decorators wrap a ranged value to
//! group ticks into buckets, centre them inside their bucket, or display
//! only part of the axis. Two ranged values combine into a 2D coordinate
//! system that translates value pairs to pixel pairs and back.
pub mod arith;
pub mod backend;
pub mod category;
pub mod decimal;
pub mod group;
pub mod numeric;
pub mod ranged;
pub mod style;

pub use backend::{BackendCoord, DrawingBackend, DrawingErrorKind, RGBAColor, ShapeStyle};
pub use category::{
    Category, CategoryElementRef, CategoryElementsRange, CategoryError, CategoryValue,
};
pub use decimal::{compute_decimal_key_points, Decimal, RangedCoordDecimal};
pub use group::{GroupBy, ToGroupByRange};
pub use numeric::{
    compute_i32_key_points, compute_i64_key_points, compute_int_key_points,
    compute_isize_key_points, compute_u32_key_points, compute_u64_key_points,
    compute_usize_key_points, CoordValue, NumericCoord, RangedCoordi32, RangedCoordi64,
    RangedCoordisize, RangedCoordu32, RangedCoordu64, RangedCoordusize,
};
pub use style::{
    Color, FontDataInternal, FontDesc, FontError, FontFamily, FontStyle, FontTransform,
    IntoTextStyle, LayoutBox, TextAlignment, TextStyle,
};
pub use ranged::{
    make_partial_axis, AsRangedCoord, CentricDiscreteRange, DiscreteRanged, IntoCentric,
    IntoPartialAxis, MeshCollector, MeshLine, MeshLineHandler, PartialAxis, Ranged, RangedCoord,
    ReversibleRanged,
};
