//! Modal form widgets.

pub mod model;
pub mod render;
