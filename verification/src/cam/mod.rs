//! CAM decisions that do not depend on coordinate arithmetic: ordered
//! dither matrices and raster linking, cut-direction winding, the nesting of
//! sliced contours into regions, and the deviation classes of a carved
//! surface.

pub mod raster;
pub mod surface;
pub mod waterline;
pub mod winding;
