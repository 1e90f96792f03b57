pub mod buffer;
pub mod generation;
pub mod guard;
pub mod refresh;
pub mod sanitize;
