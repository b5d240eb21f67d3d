//! A scrolling diagonal colour-gradient scene drawn behind fixed ASCII art
//! and a notice, with the decisions of its input watcher and frame driver.
pub mod color;
pub mod layout;
pub mod art;
pub mod compositor;
pub mod control;
