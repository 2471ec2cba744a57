pub mod buffer;
pub mod disk;
pub mod laws;
