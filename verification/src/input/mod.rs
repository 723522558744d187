//! Input: device events and the controllers that read them.

pub mod camera;
pub mod entity;
pub mod event;
