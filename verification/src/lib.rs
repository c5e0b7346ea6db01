//! Core of a small multi-room chat service: message markup sanitising and
//! the watermark protocol for paging through a room's history.

pub mod error;
pub mod escape;
pub mod history;
pub mod identity;
pub mod log;
pub mod number;
pub mod post;
pub mod preprocessor;
pub mod render;
pub mod rooms;
pub mod route;
pub mod text;
