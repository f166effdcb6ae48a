//! A retained-mode layout engine for character-cell terminals: a parent-relative
//! geometry model, a tree of mounted nodes addressed by packed path identities,
//! a time-driven animation scheduler, a per-frame relayout pass and a mouse-input
//! dispatcher.
pub mod anim;
pub mod draw;
pub mod enums;
pub mod input;
pub mod mount;
pub mod shape;
pub mod space;
pub mod text;
pub mod world;
