pub mod fan_control;
pub mod rules;
pub mod sensors;
pub mod speed;
pub mod text;
