//! The decision logic of a robot-simulation scene: the layout of a pixel
//! sensor grid, the text format of position updates, and the commands that a
//! scene sends when it starts.

pub mod commands;
pub mod position_text;
pub mod sensor_layout;
