//! ivac: verified core of a CAM toolchain — g-code post-processing, output
//! sinks, operation scheduling and the command-line localization layer.

pub mod cam;
pub mod chars;
pub mod errors;
pub mod i18n;
pub mod gcode;
pub mod params;
pub mod pipeline;
pub mod text;
